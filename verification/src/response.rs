use vstd::prelude::*;

use crate::json::{Json, JsonValue, items_model, lemma_array_model};

verus! {

/// The version that every response states.
pub open spec fn api_version() -> Seq<char> {
    "v0.0.1cb"@
}

/// The envelope of every answer of the API.
#[derive(Debug)]
pub struct ApiResponse<T> {
    pub apiversion: &'static str,
    pub code: u16,
    pub success: bool,
    pub message: String,
    pub size: Option<u64>,
    pub data: Option<T>,
    pub timestamp: String,
    pub error: Option<String>,
}

impl<T> ApiResponse<T> {
    /// An answer with the given fields, stating the API version.
    pub fn new(
        code: u16,
        success: bool,
        message: String,
        size: Option<u64>,
        data: Option<T>,
        timestamp: String,
        error: Option<String>,
    ) -> (r: Self)
        ensures
            r.apiversion@ == api_version(),
            r.code == code,
            r.success == success,
            r.message == message,
            r.size == size,
            r.data == data,
            r.timestamp == timestamp,
            r.error == error,
    {
        let apiversion: &'static str = "v0.0.1cb";
        proof {
            reveal_strlit("v0.0.1cb");
        }
        Self { code, success, message, size, data, timestamp, error, apiversion }
    }
}

/// The mathematical value of an answer.
pub struct Reply<V> {
    pub apiversion: Seq<char>,
    pub code: u16,
    pub success: bool,
    pub message: Seq<char>,
    pub size: Option<u64>,
    pub data: Option<V>,
    pub timestamp: Seq<char>,
    pub error: Option<Seq<char>>,
}

impl<T: View> View for ApiResponse<T> {
    type V = Reply<T::V>;

    open spec fn view(&self) -> Reply<T::V> {
        Reply {
            apiversion: self.apiversion@,
            code: self.code,
            success: self.success,
            message: self.message@,
            size: self.size,
            data: match self.data {
                Some(d) => Some(d@),
                None => None,
            },
            timestamp: self.timestamp@,
            error: match self.error {
                Some(e) => Some(e@),
                None => None,
            },
        }
    }
}

/// The answer with the given fields.
pub open spec fn reply<V>(
    code: u16,
    success: bool,
    message: Seq<char>,
    size: Option<u64>,
    data: Option<V>,
    timestamp: Seq<char>,
    error: Option<Seq<char>>,
) -> Reply<V> {
    Reply { apiversion: api_version(), code, success, message, size, data, timestamp, error }
}

/// Where a handler's data came from: the cache, or a fetch that succeeded or failed.
pub enum Lookup<T> {
    Cached(T),
    Fetched(Result<T, String>),
}

/// The mathematical value of a `Lookup`.
pub enum LookupSpec<V> {
    Cached(V),
    Fetched(Result<V, Seq<char>>),
}

impl<T: View> View for Lookup<T> {
    type V = LookupSpec<T::V>;

    open spec fn view(&self) -> LookupSpec<T::V> {
        match self {
            Lookup::Cached(t) => LookupSpec::Cached(t@),
            Lookup::Fetched(Ok(t)) => LookupSpec::Fetched(Ok(t@)),
            Lookup::Fetched(Err(e)) => LookupSpec::Fetched(Err(e@)),
        }
    }
}

/// Search results: the page size and the results.
pub struct SearchPage {
    pub size: u64,
    pub results: Vec<JsonValue>,
}

impl View for SearchPage {
    type V = (nat, Seq<Json>);

    open spec fn view(&self) -> (nat, Seq<Json>) {
        (self.size as nat, items_model(self.results@))
    }
}

/// The answer of the market search endpoint: the page size and the results where they came
/// from the cache or a successful fetch, else the error.
pub open spec fn search_reply(lookup: LookupSpec<(nat, Seq<Json>)>, timestamp: Seq<char>) -> Reply<Json> {
    match lookup {
        LookupSpec::Cached((n, items)) => reply(
            200,
            true,
            "OK (cache)"@,
            Some(n as u64),
            Some(Json::Array(items)),
            timestamp,
            None,
        ),
        LookupSpec::Fetched(Ok((n, items))) => reply(
            200,
            true,
            "OK"@,
            Some(n as u64),
            Some(Json::Array(items)),
            timestamp,
            None,
        ),
        LookupSpec::Fetched(Err(e)) => reply(
            500,
            false,
            "Error fetching search results"@,
            None,
            None,
            timestamp,
            Some(e),
        ),
    }
}

/// The answer of the market item endpoint once the item is named.
pub open spec fn item_reply(lookup: LookupSpec<Json>, timestamp: Seq<char>) -> Reply<Json> {
    match lookup {
        LookupSpec::Cached(v) => reply(200, true, "OK (cache)"@, None, Some(v), timestamp, None),
        LookupSpec::Fetched(Ok(v)) => reply(200, true, "OK"@, None, Some(v), timestamp, None),
        LookupSpec::Fetched(Err(e)) => reply(
            404,
            false,
            "Error fetching item"@,
            None,
            None,
            timestamp,
            Some(e),
        ),
    }
}

/// The answer of the market item endpoint to a request that lacks the app id or the name.
pub open spec fn item_missing_reply(timestamp: Seq<char>) -> Reply<Json> {
    reply(
        400,
        false,
        "Missing appid or marketname"@,
        None,
        None,
        timestamp,
        Some("appid or marketname missing"@),
    )
}

/// The number of results in the data of the store search: the length of an array, else 0.
pub open spec fn result_count(v: Json) -> nat {
    match v {
        Json::Array(items) => items.len(),
        _ => 0,
    }
}

/// The answer of the store search endpoint.
pub open spec fn apps_reply(lookup: LookupSpec<Json>, timestamp: Seq<char>) -> Reply<Json> {
    match lookup {
        LookupSpec::Cached(v) => reply(
            200,
            true,
            "OK (cache)"@,
            Some(result_count(v) as u64),
            Some(v),
            timestamp,
            None,
        ),
        LookupSpec::Fetched(Ok(v)) => reply(
            200,
            true,
            "OK"@,
            Some(result_count(v) as u64),
            Some(v),
            timestamp,
            None,
        ),
        LookupSpec::Fetched(Err(e)) => reply(
            500,
            false,
            "Error fetching apps"@,
            None,
            None,
            timestamp,
            Some(e),
        ),
    }
}

/// The answer of the app details endpoint.
pub open spec fn app_reply(lookup: LookupSpec<Json>, timestamp: Seq<char>) -> Reply<Json> {
    match lookup {
        LookupSpec::Cached(v) => reply(200, true, "OK (cache)"@, Some(1), Some(v), timestamp, None),
        LookupSpec::Fetched(Ok(v)) => reply(200, true, "OK"@, Some(1), Some(v), timestamp, None),
        LookupSpec::Fetched(Err(e)) => reply(
            500,
            false,
            "Error fetching app"@,
            None,
            None,
            timestamp,
            Some(e),
        ),
    }
}

/// The answer to a request over the rate limit.
pub open spec fn too_many_requests_reply(timestamp: Seq<char>) -> Reply<()> {
    reply(
        429,
        false,
        "Too Many Requests"@,
        None,
        None,
        timestamp,
        Some("Rate limit exceeded. Please try again later."@),
    )
}

/// The answer of the market search endpoint.
pub fn search_response(lookup: Lookup<SearchPage>, timestamp: String) -> (r: ApiResponse<JsonValue>)
    ensures
        r@ == search_reply(lookup@, timestamp@),
        r.success <==> r.code == 200,
{
    match lookup {
        Lookup::Cached(p) => {
            proof {
                lemma_array_model(p.results);
            }
            ApiResponse::new(
                200,
                true,
                "OK (cache)".to_owned(),
                Some(p.size),
                Some(JsonValue::Array(p.results)),
                timestamp,
                None,
            )
        },
        Lookup::Fetched(Ok(p)) => {
            proof {
                lemma_array_model(p.results);
            }
            ApiResponse::new(
                200,
                true,
                "OK".to_owned(),
                Some(p.size),
                Some(JsonValue::Array(p.results)),
                timestamp,
                None,
            )
        },
        Lookup::Fetched(Err(e)) => ApiResponse::new(
            500,
            false,
            "Error fetching search results".to_owned(),
            None,
            None,
            timestamp,
            Some(e),
        ),
    }
}

/// The app id and name of the item that a market item request asks for, where both are
/// given and not empty.
pub open spec fn item_target_of(appid: Option<Seq<char>>, hashname: Option<Seq<char>>) -> Option<
    (Seq<char>, Seq<char>),
> {
    match (appid, hashname) {
        (Some(a), Some(h)) => if a.len() > 0 && h.len() > 0 {
            Some((a, h))
        } else {
            None
        },
        _ => None,
    }
}

/// The app id and name of the item that a market item request asks for.
pub fn item_target<'a>(appid: Option<&'a str>, hashname: Option<&'a str>) -> (r: Option<
    (&'a str, &'a str),
>)
    ensures
        match r {
            Some((a, h)) => item_target_of(
                match appid {
                    Some(s) => Some(s@),
                    None => None,
                },
                match hashname {
                    Some(s) => Some(s@),
                    None => None,
                },
            ) == Some((a@, h@)),
            None => item_target_of(
                match appid {
                    Some(s) => Some(s@),
                    None => None,
                },
                match hashname {
                    Some(s) => Some(s@),
                    None => None,
                },
            ) is None,
        },
{
    match (appid, hashname) {
        (Some(a), Some(h)) => if a.is_empty() || h.is_empty() {
            None
        } else {
            Some((a, h))
        },
        _ => None,
    }
}

/// The answer of the market item endpoint to a request that lacks the app id or the name.
pub fn item_missing_response(timestamp: String) -> (r: ApiResponse<JsonValue>)
    ensures
        r@ == item_missing_reply(timestamp@),
        !r.success && r.code == 400,
{
    ApiResponse::new(
        400,
        false,
        "Missing appid or marketname".to_owned(),
        None,
        None,
        timestamp,
        Some("appid or marketname missing".to_owned()),
    )
}

/// The answer of the market item endpoint.
pub fn item_response(lookup: Lookup<JsonValue>, timestamp: String) -> (r: ApiResponse<JsonValue>)
    ensures
        r@ == item_reply(lookup@, timestamp@),
        r.success <==> r.code == 200,
{
    match lookup {
        Lookup::Cached(v) => ApiResponse::new(
            200,
            true,
            "OK (cache)".to_owned(),
            None,
            Some(v),
            timestamp,
            None,
        ),
        Lookup::Fetched(Ok(v)) => ApiResponse::new(
            200,
            true,
            "OK".to_owned(),
            None,
            Some(v),
            timestamp,
            None,
        ),
        Lookup::Fetched(Err(e)) => ApiResponse::new(
            404,
            false,
            "Error fetching item".to_owned(),
            None,
            None,
            timestamp,
            Some(e),
        ),
    }
}

/// The number of results in the data of the store search.
pub fn count_results(v: &JsonValue) -> (r: u64)
    ensures
        r as nat == result_count(v@),
{
    match v {
        JsonValue::Array(items) => {
            proof {
                lemma_array_model(*items);
            }
            items.len() as u64
        },
        _ => 0,
    }
}

/// The answer of the store search endpoint.
pub fn apps_response(lookup: Lookup<JsonValue>, timestamp: String) -> (r: ApiResponse<JsonValue>)
    ensures
        r@ == apps_reply(lookup@, timestamp@),
        r.success <==> r.code == 200,
{
    match lookup {
        Lookup::Cached(v) => {
            let n = count_results(&v);
            ApiResponse::new(200, true, "OK (cache)".to_owned(), Some(n), Some(v), timestamp, None)
        },
        Lookup::Fetched(Ok(v)) => {
            let n = count_results(&v);
            ApiResponse::new(200, true, "OK".to_owned(), Some(n), Some(v), timestamp, None)
        },
        Lookup::Fetched(Err(e)) => ApiResponse::new(
            500,
            false,
            "Error fetching apps".to_owned(),
            None,
            None,
            timestamp,
            Some(e),
        ),
    }
}

/// The answer of the app details endpoint.
pub fn app_response(lookup: Lookup<JsonValue>, timestamp: String) -> (r: ApiResponse<JsonValue>)
    ensures
        r@ == app_reply(lookup@, timestamp@),
        r.success <==> r.code == 200,
{
    match lookup {
        Lookup::Cached(v) => ApiResponse::new(
            200,
            true,
            "OK (cache)".to_owned(),
            Some(1),
            Some(v),
            timestamp,
            None,
        ),
        Lookup::Fetched(Ok(v)) => ApiResponse::new(
            200,
            true,
            "OK".to_owned(),
            Some(1),
            Some(v),
            timestamp,
            None,
        ),
        Lookup::Fetched(Err(e)) => ApiResponse::new(
            500,
            false,
            "Error fetching app".to_owned(),
            None,
            None,
            timestamp,
            Some(e),
        ),
    }
}

/// The answer to a request over the rate limit.
pub fn too_many_requests(timestamp: String) -> (r: ApiResponse<()>)
    ensures
        r@ == too_many_requests_reply(timestamp@),
{
    ApiResponse::new(
        429,
        false,
        "Too Many Requests".to_owned(),
        None,
        None,
        timestamp,
        Some("Rate limit exceeded. Please try again later.".to_owned()),
    )
}

/// The greeting of the API's root.
pub fn index() -> (r: &'static str)
    ensures
        r@ == "Hello World"@,
{
    "Hello World"
}

// ---------------------------------------------------------------------------
// Laws
// ---------------------------------------------------------------------------

/// The answer `r` with the message `m`.
pub open spec fn with_message<V>(r: Reply<V>, m: Seq<char>) -> Reply<V> {
    Reply { message: m, ..r }
}

/// Answering from the cache changes nothing of a market search answer but its message.
pub proof fn lemma_search_cache_transparent(page: (nat, Seq<Json>), timestamp: Seq<char>)
    ensures
        search_reply(LookupSpec::Cached(page), timestamp) == with_message(search_reply(LookupSpec::Fetched(Ok(page)), timestamp), "OK (cache)"@),
{
}

/// Answering from the cache changes nothing of a market item answer but its message.
pub proof fn lemma_item_cache_transparent(v: Json, timestamp: Seq<char>)
    ensures
        item_reply(LookupSpec::Cached(v), timestamp) == with_message(item_reply(LookupSpec::Fetched(Ok(v)), timestamp), "OK (cache)"@),
{
}

/// Answering from the cache changes nothing of a store search answer but its message.
pub proof fn lemma_apps_cache_transparent(v: Json, timestamp: Seq<char>)
    ensures
        apps_reply(LookupSpec::Cached(v), timestamp) == with_message(apps_reply(LookupSpec::Fetched(Ok(v)), timestamp), "OK (cache)"@),
{
}

/// Answering from the cache changes nothing of an app details answer but its message.
pub proof fn lemma_app_cache_transparent(v: Json, timestamp: Seq<char>)
    ensures
        app_reply(LookupSpec::Cached(v), timestamp) == with_message(app_reply(LookupSpec::Fetched(Ok(v)), timestamp), "OK (cache)"@),
{
}

/// A well-formed answer: it states the API version and the time, it succeeds exactly when
/// its code is 200, it carries data exactly when it succeeds, and an error exactly when it
/// does not.
pub open spec fn well_formed<V>(r: Reply<V>, timestamp: Seq<char>) -> bool {
    &&& r.apiversion == api_version()
    &&& r.timestamp == timestamp
    &&& (r.success <==> r.code == 200)
    &&& (r.success <==> r.data is Some)
    &&& (r.success <==> r.error is None)
}

/// Every answer of the four endpoints is well formed; a failed fetch is answered with its
/// error text.
pub proof fn lemma_replies_well_formed(
    search: LookupSpec<(nat, Seq<Json>)>,
    other: LookupSpec<Json>,
    timestamp: Seq<char>,
)
    ensures
        well_formed(search_reply(search, timestamp), timestamp),
        well_formed(item_reply(other, timestamp), timestamp),
        well_formed(apps_reply(other, timestamp), timestamp),
        well_formed(app_reply(other, timestamp), timestamp),
        well_formed(item_missing_reply(timestamp), timestamp),
        (other matches LookupSpec::Fetched(Err(e)) ==> item_reply(other, timestamp).error == Some(e)
            && apps_reply(other, timestamp).error == Some(e) && app_reply(other, timestamp).error
            == Some(e)),
        (search matches LookupSpec::Fetched(Err(e)) ==> search_reply(search, timestamp).error
            == Some(e)),
{
}

/// The store search answer states as its size the number of results it carries.
pub proof fn lemma_apps_size(lookup: LookupSpec<Json>, timestamp: Seq<char>)
    ensures
        (apps_reply(lookup, timestamp).data matches Some(Json::Array(items)) ==> apps_reply(
            lookup,
            timestamp,
        ).size == Some(items.len() as u64)),
{
}

} // verus!
