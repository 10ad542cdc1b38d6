use vstd::prelude::*;

use crate::json::{Json, JsonValue, items_model};
use crate::response::{
    LookupSpec, Reply, SearchPage, search_reply, with_message, lemma_search_cache_transparent,
};

verus! {

/// A cached handler over a cache of values by key: where the cache holds the key it answers
/// from it and fetches nothing; otherwise it answers with the outcome of the fetch and, where
/// the fetch succeeded, stores the value under the key. The result is the cache afterwards and
/// the answer.
pub open spec fn serve<V>(
    cache: Map<Seq<char>, V>,
    key: Seq<char>,
    fetched: Result<V, Seq<char>>,
    answer: spec_fn(LookupSpec<V>, Seq<char>) -> Reply<Json>,
    timestamp: Seq<char>,
) -> (Map<Seq<char>, V>, Reply<Json>) {
    if cache.contains_key(key) {
        (cache, answer(LookupSpec::Cached(cache[key]), timestamp))
    } else {
        match fetched {
            Ok(v) => (cache.insert(key, v), answer(LookupSpec::Fetched(Ok(v)), timestamp)),
            Err(e) => (cache, answer(LookupSpec::Fetched(Err(e)), timestamp)),
        }
    }
}

/// A request answered by a fetch that succeeded, asked again while its entry is untouched,
/// is answered from the cache with the value fetched the first time, whatever a second fetch
/// would have given, and leaves the cache as the first call left it.
pub proof fn lemma_second_call_cached<V>(
    cache: Map<Seq<char>, V>,
    key: Seq<char>,
    value: V,
    first_time: Seq<char>,
    second_fetch: Result<V, Seq<char>>,
    second_time: Seq<char>,
    answer: spec_fn(LookupSpec<V>, Seq<char>) -> Reply<Json>,
)
    requires
        !cache.contains_key(key),
    ensures
        ({
            let first = serve(cache, key, Ok(value), answer, first_time);
            let second = serve(first.0, key, second_fetch, answer, second_time);
            &&& first.1 == answer(LookupSpec::Fetched(Ok(value)), first_time)
            &&& second.0 == first.0
            &&& second.1 == answer(LookupSpec::Cached(value), second_time)
        }),
{
}

/// A market search answered from Steam with a page, asked again while its entry is untouched,
/// is answered from the cache with code 200, success, the same size and the same results, the
/// message "OK (cache)" and no error: the first answer with the second time and that message.
pub proof fn lemma_search_second_call_cached(
    cache: Map<Seq<char>, (nat, Seq<Json>)>,
    key: Seq<char>,
    page: (nat, Seq<Json>),
    first_time: Seq<char>,
    second_fetch: Result<(nat, Seq<Json>), Seq<char>>,
    second_time: Seq<char>,
)
    requires
        !cache.contains_key(key),
    ensures
        ({
            let answer = |l: LookupSpec<(nat, Seq<Json>)>, t: Seq<char>| search_reply(l, t);
            let first = serve(cache, key, Ok(page), answer, first_time);
            let second = serve(first.0, key, second_fetch, answer, second_time);
            &&& second.1 == with_message(
                search_reply(LookupSpec::Fetched(Ok(page)), second_time),
                "OK (cache)"@,
            )
            &&& second.1.code == 200
            &&& second.1.success
            &&& second.1.message == "OK (cache)"@
            &&& second.1.size == first.1.size
            &&& second.1.data == first.1.data
            &&& second.1.error is None
        }),
{
    let answer = |l: LookupSpec<(nat, Seq<Json>)>, t: Seq<char>| search_reply(l, t);
    lemma_second_call_cached(cache, key, page, first_time, second_fetch, second_time, answer);
    lemma_search_cache_transparent(page, second_time);
}

/// The page to store after a market search fetch: a copy of the page where the fetch succeeded.
pub fn search_entry(outcome: &Result<SearchPage, String>) -> (r: Option<SearchPage>)
    ensures
        match outcome {
            Ok(p) => r matches Some(q) && q@ == p@,
            Err(_) => r is None,
        },
{
    match outcome {
        Ok(p) => {
            let mut results: Vec<JsonValue> = Vec::new();
            let mut i: usize = 0;
            while i < p.results.len()
                invariant
                    i <= p.results@.len(),
                    results@.len() == i,
                    forall|j: int| 0 <= j < i ==> (#[trigger] results@[j])@ == p.results@[j]@,
                decreases p.results@.len() - i,
            {
                results.push(p.results[i].deep_clone());
                i += 1;
            }
            let q = SearchPage { size: p.size, results };
            assert(items_model(q.results@) =~= items_model(p.results@));
            Some(q)
        },
        Err(_) => None,
    }
}

/// The value to store after a fetch of a JSON value: a copy of it where the fetch succeeded.
pub fn value_entry(outcome: &Result<JsonValue, String>) -> (r: Option<JsonValue>)
    ensures
        match outcome {
            Ok(v) => r matches Some(w) && w@ == v@,
            Err(_) => r is None,
        },
{
    match outcome {
        Ok(v) => Some(v.deep_clone()),
        Err(_) => None,
    }
}

} // verus!
