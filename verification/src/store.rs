use vstd::prelude::*;

use crate::encoding::{url_encode, url_encoded};
use crate::json::{
    Json,
    JsonValue,
    entries_get,
    entries_insert,
    entries_remove,
    entries_model,
    items_model,
    entries_lookup,
    entries_put,
    entries_take,
    find_key,
    lemma_object_model,
    lemma_array_model,
    distinct_keys,
};
use crate::market::{opt_as_str, opt_as_u64};
use crate::text::{
    ends_with,
    lemma_ends_with_append,
    chars_of,
    decimal,
    find,
    find_from,
    find_chars,
    find_chars_from,
    push_decimal,
    substring,
    string_from_chars,
    lemma_find_from_some,
    occurs_at,
    contains,
    is_digit,
    parse_unsigned,
    contains_chars,
    parse_u32,
    parse_u64,
    trim_hashes,
    trim_start_hashes,
    replaced,
    replace_all,
    sub_chars,
};
use crate::html::{
    Element,
    ElementSpec,
    Query,
    QuerySpec,
    selector_error,
    html_select,
    html_select_each,
    html_select_in_first,
    html_select_each_in_first,
    parse_selector,
    parse_html,
    select,
    select_each,
    elements_view,
    nested_view,
    queries_view,
    opt_string_view,
};

verus! {

// ---------------------------------------------------------------------------
// Store search request
// ---------------------------------------------------------------------------

/// A request body for the store search.
pub struct AppsRequest {
    pub query: Option<String>,
    pub page: Option<u32>,
    pub count: Option<u32>,
    pub cc: Option<String>,
    pub language: Option<String>,
    pub tags: Option<Vec<u32>>,
}

/// The tag ids written in base ten and joined by `%2C`.
pub open spec fn joined_tags(tags: Seq<u32>) -> Seq<char>
    decreases tags.len(),
{
    if tags.len() == 0 {
        Seq::empty()
    } else if tags.len() == 1 {
        decimal(tags[0] as nat)
    } else {
        joined_tags(tags.drop_last()) + "%2C"@ + decimal(tags.last() as nat)
    }
}

pub open spec fn opt_param(name: Seq<char>, value: Option<Seq<char>>) -> Seq<char> {
    match value {
        Some(v) => name + url_encoded(v),
        None => Seq::empty(),
    }
}

/// The store search request for the given parameters: page 1 and 10 results unless
/// others are given; the term, country and language percent-encoded where given; the tags
/// where there is at least one.
pub open spec fn store_search_url(
    term: Option<Seq<char>>,
    page: Option<u32>,
    count: Option<u32>,
    cc: Option<Seq<char>>,
    language: Option<Seq<char>>,
    tags: Option<Seq<u32>>,
) -> Seq<char> {
    let page = match page {
        Some(p) => p as nat,
        None => 1,
    };
    let count = match count {
        Some(c) => c as nat,
        None => 10,
    };
    let tag_part = match tags {
        Some(t) => if t.len() > 0 {
            "&tags="@ + joined_tags(t)
        } else {
            Seq::empty()
        },
        None => Seq::empty(),
    };
    "https://store.steampowered.com/search/results/?norender=1&ignore_preferences=1"@ + opt_param(
        "&term="@,
        term,
    ) + "&page="@ + decimal(page) + "&count="@ + decimal(count) + opt_param("&cc="@, cc)
        + opt_param("&l="@, language) + tag_part
}

fn push_param(url: &mut String, name: &str, value: &Option<String>)
    ensures
        final(url)@ == old(url)@ + opt_param(name@, crate::html::opt_string_view(*value)),
{
    match value {
        Some(v) => {
            url.append(name);
            url.append(url_encode(v.as_str()).as_str());
        },
        None => {
            assert(old(url)@ + Seq::<char>::empty() =~= old(url)@);
        },
    }
}

/// A store search with at least one tag is filtered by its tags: the request ends with
/// `&tags=` and the tags in base ten, joined by `%2C`. In particular one tag `t` gives the
/// ending `&tags=` and `t`, and the last tag always ends the request.
pub proof fn lemma_store_search_url_tags(
    term: Option<Seq<char>>,
    page: Option<u32>,
    count: Option<u32>,
    cc: Option<Seq<char>>,
    language: Option<Seq<char>>,
    tags: Seq<u32>,
)
    requires
        tags.len() > 0,
    ensures
        ends_with(store_search_url(term, page, count, cc, language, Some(tags)), "&tags="@ + joined_tags(tags)),
        ends_with(store_search_url(term, page, count, cc, language, Some(tags)), decimal(tags.last() as nat)),
        tags.len() == 1 ==> ends_with(
            store_search_url(term, page, count, cc, language, Some(tags)),
            "&tags="@ + decimal(tags[0] as nat),
        ),
        tags.len() > 1 ==> ends_with(
            store_search_url(term, page, count, cc, language, Some(tags)),
            "%2C"@ + decimal(tags.last() as nat),
        ),
{
    let url = store_search_url(term, page, count, cc, language, Some(tags));
    let p = match page {
        Some(p) => p as nat,
        None => 1,
    };
    let c = match count {
        Some(c) => c as nat,
        None => 10,
    };
    let head = "https://store.steampowered.com/search/results/?norender=1&ignore_preferences=1"@
        + opt_param("&term="@, term) + "&page="@ + decimal(p) + "&count="@ + decimal(c)
        + opt_param("&cc="@, cc) + opt_param("&l="@, language);
    let tail = "&tags="@ + joined_tags(tags);
    assert(url =~= head + tail);
    lemma_ends_with_append(head, tail);
    let last = decimal(tags.last() as nat);
    if tags.len() == 1 {
        assert(tail =~= "&tags="@ + last);
        assert(url =~= head + "&tags="@ + last);
        lemma_ends_with_append(head + "&tags="@, last);
    } else {
        let front = "&tags="@ + joined_tags(tags.drop_last());
        assert(url =~= head + front + ("%2C"@ + last));
        lemma_ends_with_append(head + front, "%2C"@ + last);
        assert(url =~= head + front + "%2C"@ + last);
        lemma_ends_with_append(head + front + "%2C"@, last);
    }
}

/// The store search request for the given parameters.
pub fn store_search_url_for(
    term: &Option<String>,
    page: Option<u32>,
    count: Option<u32>,
    cc: &Option<String>,
    language: &Option<String>,
    tags: &Option<Vec<u32>>,
) -> (r: String)
    ensures
        r@ == store_search_url(
            crate::html::opt_string_view(*term),
            page,
            count,
            crate::html::opt_string_view(*cc),
            crate::html::opt_string_view(*language),
            match tags {
                Some(t) => Some(t@),
                None => None,
            },
        ),
{
    let mut url = "https://store.steampowered.com/search/results/?norender=1&ignore_preferences=1".to_owned();
    push_param(&mut url, "&term=", term);
    url.append("&page=");
    let p: u32 = match page {
        Some(p) => p,
        None => 1,
    };
    push_decimal(&mut url, p as u64);
    url.append("&count=");
    let c: u32 = match count {
        Some(c) => c,
        None => 10,
    };
    push_decimal(&mut url, c as u64);
    push_param(&mut url, "&cc=", cc);
    push_param(&mut url, "&l=", language);
    let ghost before = url@;
    match tags {
        Some(t) => {
            if t.len() > 0 {
                url.append("&tags=");
                let mut i: usize = 0;
                while i < t.len()
                    invariant
                        i <= t@.len(),
                        t@.len() > 0,
                        url@ == before + "&tags="@ + joined_tags(t@.take(i as int)),
                    decreases t@.len() - i,
                {
                    let ghost prev = url@;
                    if i > 0 {
                        url.append("%2C");
                    }
                    push_decimal(&mut url, t[i] as u64);
                    assert(t@.take(i + 1).drop_last() =~= t@.take(i as int));
                    if i == 0 {
                        assert(joined_tags(t@.take(0)) =~= Seq::<char>::empty());
                        assert(t@.take(1).len() == 1);
                    }
                    i += 1;
                }
                assert(t@.take(t@.len() as int) =~= t@);
            } else {
                assert(before + Seq::<char>::empty() =~= before);
            }
        },
        None => {
            assert(before + Seq::<char>::empty() =~= before);
        },
    }
    url
}

// ---------------------------------------------------------------------------
// Steam Deck compatibility items
// ---------------------------------------------------------------------------

/// One Steam Deck compatibility item as the API gives it: `display_type` renamed
/// `compatibility`, and `loc_token` renamed `token`, made a string without leading `#`
/// (empty where it was no string).
pub open spec fn compat_item(item: Json) -> Json {
    match item {
        Json::Object(e) => {
            let e1 = match entries_get(e, "display_type"@) {
                Some(d) => entries_insert(entries_remove(e, "display_type"@), "compatibility"@, d),
                None => e,
            };
            let e2 = match entries_get(e1, "loc_token"@) {
                Some(t) => entries_insert(
                    entries_remove(e1, "loc_token"@),
                    "token"@,
                    Json::Str(
                        match t.as_str() {
                            Some(s) => trim_hashes(s),
                            None => Seq::empty(),
                        },
                    ),
                ),
                None => e1,
            };
            Json::Object(e2)
        },
        _ => item,
    }
}

/// A list of compatibility items with each made as `compat_item` says; any other value
/// stays as it is.
pub open spec fn compat_items(items: Json) -> Json {
    match items {
        Json::Array(v) => Json::Array(v.map_values(|i: Json| compat_item(i))),
        _ => items,
    }
}

fn transform_compat_item(item: JsonValue) -> (r: JsonValue)
    ensures
        r@ == compat_item(item@),
{
    match item {
        JsonValue::Object(mut e) => {
            proof {
                lemma_object_model(e);
            }
            match entries_take(&mut e, "display_type") {
                Some(d) => entries_put(&mut e, "compatibility".to_owned(), d),
                None => {},
            }
            match entries_take(&mut e, "loc_token") {
                Some(t) => {
                    let token = match t.as_str() {
                        Some(s) => trim_start_hashes(s.as_str()),
                        None => String::new(),
                    };
                    entries_put(&mut e, "token".to_owned(), JsonValue::String(token));
                },
                None => {},
            }
            proof {
                lemma_object_model(e);
            }
            JsonValue::Object(e)
        },
        other => other,
    }
}

/// The Steam Deck compatibility items as the API gives them.
pub fn transform_compat_items(items: &JsonValue) -> (r: JsonValue)
    ensures
        r@ == compat_items(items@),
{
    match items {
        JsonValue::Array(v) => {
            proof {
                lemma_array_model(*v);
            }
            let ghost src = items_model(v@);
            let mut out: Vec<JsonValue> = Vec::new();
            let mut i: usize = 0;
            while i < v.len()
                invariant
                    i <= v@.len(),
                    src == items_model(v@),
                    out@.len() == i,
                    forall|k: int| 0 <= k < i ==> (#[trigger] out@[k])@ == compat_item(src[k]),
                decreases v@.len() - i,
            {
                out.push(transform_compat_item(v[i].deep_clone()));
                i += 1;
            }
            proof {
                lemma_array_model(out);
                assert(items_model(out@) =~= src.map_values(|j: Json| compat_item(j)));
            }
            JsonValue::Array(out)
        },
        _ => items.deep_clone(),
    }
}

// ---------------------------------------------------------------------------
// Text cut out of pages
// ---------------------------------------------------------------------------

/// Scanning from `pos` with `depth` brackets open, the index just after the `]` that closes
/// them all.
pub open spec fn bracket_close(s: Seq<char>, pos: int, depth: int) -> Option<int>
    decreases s.len() - pos,
{
    if pos < 0 || pos >= s.len() {
        None
    } else if s[pos] == '[' {
        bracket_close(s, pos + 1, depth + 1)
    } else if s[pos] == ']' {
        if depth - 1 == 0 {
            Some(pos + 1)
        } else {
            bracket_close(s, pos + 1, depth - 1)
        }
    } else {
        bracket_close(s, pos + 1, depth)
    }
}

/// The tag array of a store page: from the first `[` after `InitAppTagModal(` to the `]`
/// that closes it.
pub open spec fn page_tags_text(html: Seq<char>) -> Option<Seq<char>> {
    match find(html, "InitAppTagModal("@) {
        Some(js) => match find_from(html, "["@, js) {
            Some(a) => match bracket_close(html, a, 0) {
                Some(e) => Some(html.subrange(a, e)),
                None => None,
            },
            None => None,
        },
        None => None,
    }
}

/// The text of the tag array of a store page, where there is one.
pub fn find_tags_text(html: &[char]) -> (r: Option<String>)
    ensures
        match r {
            Some(t) => page_tags_text(html@) == Some(t@),
            None => page_tags_text(html@) is None,
        },
{
    let marker = chars_of("InitAppTagModal(");
    let open = chars_of("[");
    let js = match find_chars(html, marker.as_slice()) {
        Some(j) => j,
        None => return None,
    };
    let a = match find_chars_from(html, open.as_slice(), js) {
        Some(a) => a,
        None => return None,
    };
    let hl: usize = html.len();
    proof {
        reveal_strlit("[");
        lemma_find_from_some(html@, open@, js as int);
        assert(occurs_at(html@, open@, a as int));
        assert(html@.subrange(a as int, a + 1)[0] == open@[0]);
        assert(html@[a as int] == '[');
    }
    let mut pos: usize = a + 1;
    let mut depth: u64 = 1;
    assert(bracket_close(html@, a as int, 0) == bracket_close(html@, pos as int, depth as int));
    assert(page_tags_text(html@) == match bracket_close(html@, a as int, 0) {
        Some(e) => Some(html@.subrange(a as int, e)),
        None => None,
    });
    while pos < html.len()
        invariant
            page_tags_text(html@) == match bracket_close(html@, a as int, 0) {
                Some(e) => Some(html@.subrange(a as int, e)),
                None => None,
            },
            a < pos <= html@.len(),
            hl == html@.len(),
            1 <= depth <= pos - a,
            bracket_close(html@, a as int, 0) == bracket_close(html@, pos as int, depth as int),
        decreases html@.len() - pos,
    {
        let c = html[pos];
        if c == '[' {
            depth = depth + 1;
        } else if c == ']' {
            if depth == 1 {
                assert(page_tags_text(html@) == Some(html@.subrange(a as int, pos + 1)));
                return Some(substring(html, a, pos + 1));
            }
            depth = depth - 1;
        }
        pos += 1;
    }
    None
}

/// The JSON text of a shared-strings script: what stands between `JSON.parse('` and the
/// next `')`, with `\'` made `'` and then `\\` made `\`.
pub open spec fn shared_json_text(text: Seq<char>) -> Option<Seq<char>> {
    match find(text, "JSON.parse('"@) {
        Some(s) => {
            let start = s + "JSON.parse('"@.len();
            match find_from(text, "')"@, start) {
                Some(e) => Some(
                    replaced(replaced(text.subrange(start, e), "\\'"@, "'"@), "\\\\"@, "\\"@),
                ),
                None => None,
            }
        },
        None => None,
    }
}

/// The JSON text of a shared-strings script, where it has one.
pub fn extract_shared_json(text: &str) -> (r: Option<String>)
    ensures
        match r {
            Some(j) => shared_json_text(text@) == Some(j@),
            None => shared_json_text(text@) is None,
        },
{
    let t = chars_of(text);
    let marker = chars_of("JSON.parse('");
    let close = chars_of("')");
    let s = match find_chars(t.as_slice(), marker.as_slice()) {
        Some(s) => s,
        None => return None,
    };
    proof {
        lemma_find_from_some(t@, marker@, 0);
    }
    assert(occurs_at(t@, marker@, s as int));
    let tl: usize = t.len();
    let start: usize = s + marker.len();
    let e = match find_chars_from(t.as_slice(), close.as_slice(), start) {
        Some(e) => e,
        None => return None,
    };
    proof {
        lemma_find_from_some(t@, close@, start as int);
    }
    assert(occurs_at(t@, close@, e as int));
    let body = sub_chars(t.as_slice(), start, e);
    let quote_from = chars_of("\\'");
    let quote_to = chars_of("'");
    let slash_from = chars_of("\\\\");
    let slash_to = chars_of("\\");
    proof {
        reveal_strlit("\\'");
        reveal_strlit("\\\\");
    }
    let a = replace_all(body.as_slice(), quote_from.as_slice(), quote_to.as_slice());
    let b = replace_all(a.as_slice(), slash_from.as_slice(), slash_to.as_slice());
    Some(string_from_chars(b.as_slice()))
}

// ---------------------------------------------------------------------------
// Labels from the shared strings
// ---------------------------------------------------------------------------

/// A compatibility item with the label that the shared strings give its token, where
/// they give one.
pub open spec fn label_item(item: Json, shared: Json) -> Json {
    match item {
        Json::Object(e) => match entries_get(e, "token"@) {
            Some(Json::Str(t)) => match opt_as_str(shared.get(t)) {
                Some(l) => Json::Object(entries_insert(e, "label"@, Json::Str(l))),
                None => item,
            },
            _ => item,
        },
        _ => item,
    }
}

/// The data with each item of the array under `key`, if it is one, labelled.
pub open spec fn label_items(d: Seq<(Seq<char>, Json)>, key: Seq<char>, shared: Json) -> Seq<
    (Seq<char>, Json),
> {
    match entries_get(d, key) {
        Some(Json::Array(items)) => entries_insert(
            d,
            key,
            Json::Array(items.map_values(|i: Json| label_item(i, shared))),
        ),
        _ => d,
    }
}

/// The app data with the Steam Deck category label and the compatibility item labels that
/// the shared strings give.
pub open spec fn with_labels(d: Seq<(Seq<char>, Json)>, category_key: Seq<char>, shared: Json) -> Seq<
    (Seq<char>, Json),
> {
    let d1 = match opt_as_str(shared.get(category_key)) {
        Some(l) => entries_insert(d, "steamdeck_category"@, Json::Str(l)),
        None => d,
    };
    label_items(
        label_items(d1, "steamdeck_compatibility_items"@, shared),
        "steamos_resolved_items"@,
        shared,
    )
}

fn label_one(item: JsonValue, shared: &JsonValue) -> (r: JsonValue)
    ensures
        r@ == label_item(item@, shared@),
{
    match item {
        JsonValue::Object(mut e) => {
            proof {
                lemma_object_model(e);
            }
            let label = match entries_lookup(&e, "token") {
                Some(JsonValue::String(t)) => match shared.get(t.as_str()) {
                    Some(l) => match l.as_str() {
                        Some(ls) => Some(ls.clone()),
                        None => None,
                    },
                    None => None,
                },
                _ => None,
            };
            match label {
                Some(l) => {
                    entries_put(&mut e, "label".to_owned(), JsonValue::String(l));
                    proof {
                        lemma_object_model(e);
                    }
                    JsonValue::Object(e)
                },
                None => JsonValue::Object(e),
            }
        },
        other => other,
    }
}

fn label_array(d: &mut Vec<(String, JsonValue)>, key: &str, shared: &JsonValue)
    ensures
        entries_model(final(d)@) == label_items(entries_model(old(d)@), key@, shared@),
{
    let ghost m = entries_model(d@);
    match find_key(d, key) {
        Some(i) => {
            let is_array = match &d[i].1 {
                JsonValue::Array(_) => true,
                _ => false,
            };
            if is_array {
                let (k, v) = d.remove(i);
                match v {
                    JsonValue::Array(items) => {
                        proof {
                            lemma_array_model(items);
                        }
                        let ghost src = items_model(items@);
                        let mut out: Vec<JsonValue> = Vec::new();
                        let mut j: usize = 0;
                        while j < items.len()
                            invariant
                                j <= items@.len(),
                                src == items_model(items@),
                                out@.len() == j,
                                forall|q: int|
                                    0 <= q < j ==> (#[trigger] out@[q])@ == label_item(
                                        src[q],
                                        shared@,
                                    ),
                            decreases items@.len() - j,
                        {
                            out.push(label_one(items[j].deep_clone(), shared));
                            j += 1;
                        }
                        proof {
                            lemma_array_model(out);
                            assert(items_model(out@) =~= src.map_values(
                                |x: Json| label_item(x, shared@),
                            ));
                        }
                        let ghost nv = JsonValue::Array(out)@;
                        d.insert(i, (k, JsonValue::Array(out)));
                        assert(entries_model(d@) =~= m.update(i as int, (key@, nv)));
                    },
                    other => {
                        d.insert(i, (k, other));
                        assert(entries_model(d@) =~= m);
                    },
                }
            }
        },
        None => {},
    }
}

/// Adds to the app data the labels that the shared strings give.
pub fn apply_shared_labels(data: &mut Vec<(String, JsonValue)>, category_key: &str, shared: &JsonValue)
    ensures
        entries_model(final(data)@) == with_labels(
            entries_model(old(data)@),
            category_key@,
            shared@,
        ),
{
    let label = match shared.get(category_key) {
        Some(l) => match l.as_str() {
            Some(ls) => Some(ls.clone()),
            None => None,
        },
        None => None,
    };
    match label {
        Some(l) => entries_put(data, "steamdeck_category".to_owned(), JsonValue::String(l)),
        None => {},
    }
    label_array(data, "steamdeck_compatibility_items", shared);
    label_array(data, "steamos_resolved_items", shared);
}


// ---------------------------------------------------------------------------
// Store search results
// ---------------------------------------------------------------------------

/// The value of the `k`-th attribute that was asked of an element.
pub open spec fn attr_of(e: ElementSpec, k: int) -> Option<Seq<char>> {
    if 0 <= k < e.attrs.len() {
        e.attrs[k]
    } else {
        None
    }
}

/// The text of the first element, where there is one.
pub open spec fn first_text(es: Seq<ElementSpec>) -> Option<Seq<char>> {
    if es.len() > 0 {
        Some(es[0].text)
    } else {
        None
    }
}

/// The `k`-th attribute asked of the first element, where there is one.
pub open spec fn first_attr(es: Seq<ElementSpec>, k: int) -> Option<Seq<char>> {
    if es.len() > 0 {
        attr_of(es[0], k)
    } else {
        None
    }
}

/// The elements that the `q`-th inner query read.
pub open spec fn group(inner: Seq<Seq<ElementSpec>>, q: int) -> Seq<ElementSpec> {
    if 0 <= q < inner.len() {
        inner[q]
    } else {
        Seq::empty()
    }
}

/// A string, or `null` where there is none.
pub open spec fn str_or_null(o: Option<Seq<char>>) -> Json {
    match o {
        Some(s) => Json::Str(s),
        None => Json::Null,
    }
}

/// The digits of a price text, read as a number; none where there are no digits or they
/// do not fit in a `u64`.
pub open spec fn price_number(s: Seq<char>) -> Option<nat> {
    let d = s.filter(|c: char| is_digit(c));
    if d.len() == 0 {
        None
    } else {
        parse_unsigned(d, u64::MAX as nat)
    }
}

/// The discount in percent that a text like `-25%` states; 0 where there is none.
pub open spec fn discount_value(pct: Option<Seq<char>>) -> nat {
    match pct {
        Some(d) => if d.len() >= 2 && d[0] == '-' && d.last() == '%' {
            match parse_unsigned(d.subrange(1, d.len() - 1), u32::MAX as nat) {
                Some(v) => v,
                None => 0,
            }
        } else {
            0
        },
        None => 0,
    }
}

/// The platforms that a platform icon's class names.
pub open spec fn platform_names(class: Seq<char>) -> Seq<Json> {
    (if contains(class, "win"@) {
        seq![Json::Str("windows"@)]
    } else {
        Seq::empty()
    }) + (if contains(class, "mac"@) {
        seq![Json::Str("mac"@)]
    } else {
        Seq::empty()
    }) + (if contains(class, "linux"@) {
        seq![Json::Str("linux"@)]
    } else {
        Seq::empty()
    })
}

/// The platforms that the platform icons name, in order.
pub open spec fn platforms(es: Seq<ElementSpec>) -> Seq<Json>
    decreases es.len(),
{
    if es.len() == 0 {
        Seq::empty()
    } else {
        platforms(es.drop_last()) + match attr_of(es.last(), 0) {
            Some(c) => platform_names(c),
            None => Seq::empty(),
        }
    }
}

/// The header image of the app `id`.
pub open spec fn header_url(id: nat) -> Seq<char> {
    "https://shared.fastly.steamstatic.com/store_item_assets/steam/apps/"@ + decimal(id)
        + "/header.jpg"@
}

/// The library cover of the app `id`.
pub open spec fn cover_url(id: nat) -> Seq<char> {
    "https://cdn.cloudflare.steamstatic.com/steam/apps/"@ + decimal(id) + "/library_600x900.jpg"@
}

/// The attributes read from each search result row: the app id, the link and the five
/// `data-ds-*` lists.
pub open spec fn row_attr_names() -> Seq<Seq<char>> {
    seq![
        "data-ds-appid"@,
        "href"@,
        "data-ds-tagids"@,
        "data-ds-descids"@,
        "data-ds-crtrids"@,
        "data-ds-itemkey"@,
        "data-ds-steam-deck-compat-handled"@,
    ]
}

/// What is read below each search result row.
pub open spec fn row_inner_queries() -> Seq<QuerySpec> {
    seq![
        QuerySpec { selector: "span.title"@, attrs: Seq::empty() },
        QuerySpec { selector: ".search_capsule img"@, attrs: seq!["src"@] },
        QuerySpec { selector: ".discount_final_price"@, attrs: Seq::empty() },
        QuerySpec { selector: ".discount_original_price"@, attrs: Seq::empty() },
        QuerySpec { selector: ".discount_pct"@, attrs: Seq::empty() },
        QuerySpec { selector: ".discount_block"@, attrs: seq!["data-bundlediscount"@] },
        QuerySpec { selector: ".search_released"@, attrs: Seq::empty() },
        QuerySpec { selector: ".search_review_summary"@, attrs: seq!["data-tooltip-html"@] },
        QuerySpec { selector: ".platform_img"@, attrs: seq!["class"@] },
    ]
}

/// The app id, title, link and image entries of a search result.
pub open spec fn row_head(row: ElementSpec, inner: Seq<Seq<ElementSpec>>) -> Seq<(Seq<char>, Json)> {
    let e0 = Seq::<(Seq<char>, Json)>::empty();
    let e1 = match opt_parse_u32(attr_of(row, 0)) {
        Some(id) => entries_insert(
            entries_insert(
                entries_insert(e0, "appid"@, Json::from_u64(id)),
                "img_large"@,
                Json::Str(header_url(id)),
            ),
            "cover"@,
            Json::Str(cover_url(id)),
        ),
        None => e0,
    };
    let e2 = entries_insert(
        e1,
        "title"@,
        Json::Str(
            match first_text(group(inner, 0)) {
                Some(t) => t,
                None => Seq::empty(),
            },
        ),
    );
    let e3 = entries_insert(e2, "url"@, str_or_null(attr_of(row, 1)));
    entries_insert(e3, "img"@, str_or_null(first_attr(group(inner, 1), 0)))
}

pub open spec fn opt_parse_u32(o: Option<Seq<char>>) -> Option<nat> {
    match o {
        Some(s) => parse_unsigned(s, u32::MAX as nat),
        None => None,
    }
}

/// The final price, where the row shows one.
pub open spec fn price_final(inner: Seq<Seq<ElementSpec>>) -> Option<Seq<char>> {
    first_text(group(inner, 2))
}

/// The original price, where the row shows one.
pub open spec fn price_original(inner: Seq<Seq<ElementSpec>>) -> Option<Seq<char>> {
    first_text(group(inner, 3))
}

pub open spec fn with_price_number(e: Seq<(Seq<char>, Json)>, key: Seq<char>, price: Option<Seq<char>>) -> Seq<
    (Seq<char>, Json),
> {
    match price {
        Some(p) => match price_number(p) {
            Some(n) => entries_insert(e, key, Json::from_u64(n)),
            None => e,
        },
        None => e,
    }
}

/// The price entries of a search result.
pub open spec fn row_prices(e: Seq<(Seq<char>, Json)>, inner: Seq<Seq<ElementSpec>>) -> Seq<
    (Seq<char>, Json),
> {
    let e1 = entries_insert(e, "price_final"@, str_or_null(price_final(inner)));
    let e2 = entries_insert(e1, "price_original"@, str_or_null(price_original(inner)));
    let e3 = with_price_number(e2, "price_final_num"@, price_final(inner));
    with_price_number(e3, "price_original_num"@, price_original(inner))
}

/// The discount, release and review entries of a search result.
pub open spec fn row_discount(e: Seq<(Seq<char>, Json)>, inner: Seq<Seq<ElementSpec>>) -> Seq<
    (Seq<char>, Json),
> {
    let dp = first_text(group(inner, 4));
    let e1 = entries_insert(
        e,
        "discount_pct"@,
        Json::Str(
            match dp {
                Some(d) => d,
                None => "0%"@,
            },
        ),
    );
    let e2 = entries_insert(e1, "discounted"@, Json::Bool(dp is Some));
    let e3 = entries_insert(e2, "discount"@, Json::from_u64(discount_value(dp)));
    let e4 = entries_insert(e3, "bundle_discount"@, str_or_null(first_attr(group(inner, 5), 0)));
    let e5 = entries_insert(e4, "released"@, str_or_null(first_text(group(inner, 6))));
    entries_insert(e5, "review"@, str_or_null(first_attr(group(inner, 7), 0)))
}

/// The platform and `data-ds-*` entries of a search result.
pub open spec fn row_tail(e: Seq<(Seq<char>, Json)>, row: ElementSpec, inner: Seq<Seq<ElementSpec>>) -> Seq<
    (Seq<char>, Json),
> {
    let pl = platforms(group(inner, 8));
    let e1 = if pl.len() > 0 {
        entries_insert(e, "platforms"@, Json::Array(pl))
    } else {
        e
    };
    let e2 = entries_insert(e1, "tags"@, str_or_null(attr_of(row, 2)));
    let e3 = entries_insert(e2, "descids"@, str_or_null(attr_of(row, 3)));
    let e4 = entries_insert(e3, "crtrids"@, str_or_null(attr_of(row, 4)));
    let e5 = entries_insert(e4, "itemkey"@, str_or_null(attr_of(row, 5)));
    entries_insert(e5, "steamdeck"@, str_or_null(attr_of(row, 6)))
}

/// One search result: the object that the row's attributes and inner elements make.
pub open spec fn store_row(row: ElementSpec, inner: Seq<Seq<ElementSpec>>) -> Json {
    Json::Object(row_tail(row_discount(row_prices(row_head(row, inner), inner), inner), row, inner))
}

/// Every platform that one of the icons names is among the platforms read from the icons.
pub proof fn lemma_icon_platform_listed(es: Seq<ElementSpec>, j: int, c: Seq<char>, x: Json)
    requires
        0 <= j < es.len(),
        attr_of(es[j], 0) == Some(c),
        platform_names(c).contains(x),
    ensures
        platforms(es).contains(x),
    decreases es.len(),
{
    let front = platforms(es.drop_last());
    let all = platforms(es);
    if j == es.len() - 1 {
        let names = platform_names(c);
        let i = choose|i: int| 0 <= i < names.len() && names[i] == x;
        assert(all[front.len() + i] == x);
    } else {
        assert(es.drop_last()[j] == es[j]);
        lemma_icon_platform_listed(es.drop_last(), j, c, x);
        let i = choose|i: int| 0 <= i < front.len() && front[i] == x;
        assert(all[i] == x);
    }
}

/// A search result row with a platform icon whose class names Windows (`win`) lists
/// `windows` under `platforms`; likewise `mac` and `linux`.
pub proof fn lemma_row_names_icon_platform(
    row: ElementSpec,
    inner: Seq<Seq<ElementSpec>>,
    j: int,
    c: Seq<char>,
)
    requires
        0 <= j < group(inner, 8).len(),
        attr_of(group(inner, 8)[j], 0) == Some(c),
    ensures
        contains(c, "win"@) ==> (store_row(row, inner).get("platforms"@) matches Some(Json::Array(l))
            && l.contains(Json::Str("windows"@))),
        contains(c, "mac"@) ==> (store_row(row, inner).get("platforms"@) matches Some(Json::Array(l))
            && l.contains(Json::Str("mac"@))),
        contains(c, "linux"@) ==> (store_row(row, inner).get("platforms"@) matches Some(Json::Array(l))
            && l.contains(Json::Str("linux"@))),
{
    let es = group(inner, 8);
    let names = platform_names(c);
    let w = if contains(c, "win"@) { seq![Json::Str("windows"@)] } else { Seq::empty() };
    let m = if contains(c, "mac"@) { seq![Json::Str("mac"@)] } else { Seq::empty() };
    let l = if contains(c, "linux"@) { seq![Json::Str("linux"@)] } else { Seq::empty() };
    assert(names == w + m + l);
    if contains(c, "win"@) {
        assert(names[0] == Json::Str("windows"@));
        lemma_icon_platform_listed(es, j, c, Json::Str("windows"@));
        lemma_row_platforms(row, inner);
    }
    if contains(c, "mac"@) {
        assert(names[w.len() as int] == Json::Str("mac"@));
        lemma_icon_platform_listed(es, j, c, Json::Str("mac"@));
        lemma_row_platforms(row, inner);
    }
    if contains(c, "linux"@) {
        assert(names[(w.len() + m.len()) as int] == Json::Str("linux"@));
        lemma_icon_platform_listed(es, j, c, Json::Str("linux"@));
        lemma_row_platforms(row, inner);
    }
}

/// A search result row whose platform icons name at least one platform lists exactly those
/// platforms, in order, under `platforms`.
pub proof fn lemma_row_platforms(row: ElementSpec, inner: Seq<Seq<ElementSpec>>)
    requires
        platforms(group(inner, 8)).len() > 0,
    ensures
        store_row(row, inner).get("platforms"@) == Some(Json::Array(platforms(group(inner, 8)))),
{
    reveal_strlit("platforms");
    reveal_strlit("tags");
    reveal_strlit("descids");
    reveal_strlit("crtrids");
    reveal_strlit("itemkey");
    reveal_strlit("steamdeck");
    let k = "platforms"@;
    let pl = Json::Array(platforms(group(inner, 8)));
    let e = row_discount(row_prices(row_head(row, inner), inner), inner);
    let e1 = entries_insert(e, k, pl);
    crate::json::lemma_get_insert_same(e, k, pl);
    let e2 = entries_insert(e1, "tags"@, str_or_null(attr_of(row, 2)));
    assert(k != "tags"@) by {
        assert(k.len() != "tags"@.len());
    }
    crate::json::lemma_get_insert_other(e1, "tags"@, str_or_null(attr_of(row, 2)), k);
    let e3 = entries_insert(e2, "descids"@, str_or_null(attr_of(row, 3)));
    assert(k != "descids"@) by {
        assert(k.len() != "descids"@.len());
    }
    crate::json::lemma_get_insert_other(e2, "descids"@, str_or_null(attr_of(row, 3)), k);
    let e4 = entries_insert(e3, "crtrids"@, str_or_null(attr_of(row, 4)));
    assert(k != "crtrids"@) by {
        assert(k.len() != "crtrids"@.len());
    }
    crate::json::lemma_get_insert_other(e3, "crtrids"@, str_or_null(attr_of(row, 4)), k);
    let e5 = entries_insert(e4, "itemkey"@, str_or_null(attr_of(row, 5)));
    assert(k != "itemkey"@) by {
        assert(k.len() != "itemkey"@.len());
    }
    crate::json::lemma_get_insert_other(e4, "itemkey"@, str_or_null(attr_of(row, 5)), k);
    assert(k != "steamdeck"@) by {
        assert(k[0] != "steamdeck"@[0]);
    }
    crate::json::lemma_get_insert_other(e5, "steamdeck"@, str_or_null(attr_of(row, 6)), k);
    assert(row_tail(e, row, inner) == entries_insert(e5, "steamdeck"@, str_or_null(attr_of(row, 6))));
}

/// The first selector of the list that does not parse, with its error.
pub open spec fn first_selector_error(sels: Seq<Seq<char>>) -> Option<Seq<char>>
    decreases sels.len(),
{
    if sels.len() == 0 {
        None
    } else {
        match selector_error(sels[0]) {
            Some(e) => Some(e),
            None => first_selector_error(sels.drop_first()),
        }
    }
}

/// The selectors that reading the search results uses.
pub open spec fn store_selectors() -> Seq<Seq<char>> {
    seq!["a.search_result_row"@] + row_inner_queries().map_values(|q: QuerySpec| q.selector)
}

/// What the store search gives for the result page `html`: the results, one per search
/// result row in the order the rows are read, or an error where a selector could not be used.
pub open spec fn store_results(html: Seq<char>) -> Result<Json, Seq<char>> {
    match first_selector_error(store_selectors()) {
        Some(e) => Err("selector error: "@ + e),
        None => {
            let rows = html_select(
                html,
                QuerySpec { selector: "a.search_result_row"@, attrs: row_attr_names() },
            );
            let inner = html_select_each(html, "a.search_result_row"@, row_inner_queries());
            Ok(
                Json::Array(
                    Seq::new(
                        rows.len(),
                        |i: int|
                            store_row(
                                rows[i],
                                if i < inner.len() {
                                    inner[i]
                                } else {
                                    Seq::empty()
                                },
                            ),
                    ),
                ),
            )
        },
    }
}


/// The models of the elements read below one row, per query.
pub open spec fn inner_view(inner: Seq<Vec<Element>>) -> Seq<Seq<ElementSpec>> {
    inner.map_values(|es: Vec<Element>| elements_view(es@))
}

fn attr_at(e: &Element, k: usize) -> (r: Option<String>)
    ensures
        opt_string_view(r) == attr_of(e@, k as int),
{
    if k < e.attrs.len() {
        match &e.attrs[k] {
            Some(s) => Some(s.clone()),
            None => None,
        }
    } else {
        None
    }
}

fn first_text_in(inner: &Vec<Vec<Element>>, q: usize) -> (r: Option<String>)
    ensures
        opt_string_view(r) == first_text(group(inner_view(inner@), q as int)),
{
    if q < inner.len() && inner[q].len() > 0 {
        Some(inner[q][0].text.clone())
    } else {
        None
    }
}

fn first_attr_in(inner: &Vec<Vec<Element>>, q: usize, k: usize) -> (r: Option<String>)
    ensures
        opt_string_view(r) == first_attr(group(inner_view(inner@), q as int), k as int),
{
    if q < inner.len() && inner[q].len() > 0 {
        attr_at(&inner[q][0], k)
    } else {
        None
    }
}

fn null_or_string(o: Option<String>) -> (r: JsonValue)
    ensures
        r@ == str_or_null(opt_string_view(o)),
{
    match o {
        Some(s) => JsonValue::String(s),
        None => JsonValue::Null,
    }
}

/// The number that the digits of a price text make, as the store search reads it.
pub fn price_num(s: &str) -> (r: Option<u64>)
    ensures
        match r {
            Some(n) => price_number(s@) == Some(n as nat),
            None => price_number(s@) is None,
        },
{
    let cs = chars_of(s);
    let mut digits: Vec<char> = Vec::new();
    let mut i: usize = 0;
    while i < cs.len()
        invariant
            i <= cs@.len(),
            digits@ == cs@.take(i as int).filter(|c: char| is_digit(c)),
        decreases cs@.len() - i,
    {
        proof {
            reveal(Seq::filter);
            assert(cs@.take(i + 1).drop_last() =~= cs@.take(i as int));
            assert(cs@.take(i + 1).last() == cs@[i as int]);
        }
        if crate::text::is_ascii_digit(cs[i]) {
            digits.push(cs[i]);
        }
        i += 1;
    }
    assert(cs@.take(cs@.len() as int) =~= cs@);
    if digits.len() == 0 {
        None
    } else {
        parse_u64(digits.as_slice())
    }
}

/// The discount in percent that the text of a discount badge states.
pub fn discount_of(pct: &Option<String>) -> (r: u32)
    ensures
        r as nat == discount_value(opt_string_view(*pct)),
{
    match pct {
        Some(d) => {
            let cs = chars_of(d.as_str());
            if cs.len() >= 2 && cs[0] == '-' && cs[cs.len() - 1] == '%' {
                let inner = sub_chars(cs.as_slice(), 1, cs.len() - 1);
                match parse_u32(inner.as_slice()) {
                    Some(v) => v,
                    None => 0,
                }
            } else {
                0
            }
        },
        None => 0,
    }
}

fn push_platforms(out: &mut Vec<JsonValue>, class: &str)
    ensures
        items_model(final(out)@) == items_model(old(out)@) + platform_names(class@),
{
    let ghost before = items_model(out@);
    let cs = chars_of(class);
    let win = contains_chars(cs.as_slice(), chars_of("win").as_slice());
    let mac = contains_chars(cs.as_slice(), chars_of("mac").as_slice());
    let linux = contains_chars(cs.as_slice(), chars_of("linux").as_slice());
    if win {
        out.push(JsonValue::from_str("windows"));
    }
    let ghost after_win = items_model(out@);
    assert(after_win =~= before + (if win { seq![Json::Str("windows"@)] } else { Seq::empty() }));
    if mac {
        out.push(JsonValue::from_str("mac"));
    }
    let ghost after_mac = items_model(out@);
    assert(after_mac =~= after_win + (if mac { seq![Json::Str("mac"@)] } else { Seq::empty() }));
    if linux {
        out.push(JsonValue::from_str("linux"));
    }
    assert(items_model(out@) =~= after_mac + (if linux { seq![Json::Str("linux"@)] } else { Seq::empty() }));
    assert(platform_names(class@) =~= (if win { seq![Json::Str("windows"@)] } else { Seq::empty() }) + (if mac { seq![Json::Str("mac"@)] } else { Seq::empty() }) + (if linux { seq![Json::Str("linux"@)] } else { Seq::empty() }));
}

fn platform_list(inner: &Vec<Vec<Element>>) -> (r: Vec<JsonValue>)
    ensures
        items_model(r@) == platforms(group(inner_view(inner@), 8)),
{
    let mut out: Vec<JsonValue> = Vec::new();
    if inner.len() <= 8 {
        assert(items_model(out@) =~= Seq::<Json>::empty());
        return out;
    }
    let es = &inner[8];
    let ghost g = group(inner_view(inner@), 8);
    assert(g == elements_view(es@));
    let mut i: usize = 0;
    assert(items_model(out@) =~= platforms(g.take(0)));
    while i < es.len()
        invariant
            i <= es@.len(),
            g == elements_view(es@),
            items_model(out@) == platforms(g.take(i as int)),
        decreases es@.len() - i,
    {
        assert(g.take(i + 1).drop_last() =~= g.take(i as int));
        assert(g.take(i + 1).last() == es@[i as int]@);
        match attr_at(&es[i], 0) {
            Some(c) => push_platforms(&mut out, c.as_str()),
            None => {
                assert(items_model(out@) + Seq::<Json>::empty() =~= items_model(out@));
            },
        }
        i += 1;
    }
    assert(g.take(es@.len() as int) =~= g);
    out
}

fn row_head_entries(row: &Element, inner: &Vec<Vec<Element>>) -> (r: Vec<(String, JsonValue)>)
    ensures
        entries_model(r@) == row_head(row@, inner_view(inner@)),
        distinct_keys(entries_model(r@)),
{
    let mut e: Vec<(String, JsonValue)> = Vec::new();
    assert(entries_model(e@) =~= Seq::<(Seq<char>, Json)>::empty());
    let appid_text = attr_at(row, 0);
    let appid: Option<u32> = match &appid_text {
        Some(t) => parse_u32(chars_of(t.as_str()).as_slice()),
        None => None,
    };
    match appid {
        Some(id) => {
            entries_put(&mut e, "appid".to_owned(), JsonValue::from_u64(id as u64));
            let mut large = "https://shared.fastly.steamstatic.com/store_item_assets/steam/apps/".to_owned();
            push_decimal(&mut large, id as u64);
            large.append("/header.jpg");
            entries_put(&mut e, "img_large".to_owned(), JsonValue::String(large));
            let mut cover = "https://cdn.cloudflare.steamstatic.com/steam/apps/".to_owned();
            push_decimal(&mut cover, id as u64);
            cover.append("/library_600x900.jpg");
            entries_put(&mut e, "cover".to_owned(), JsonValue::String(cover));
        },
        None => {},
    }
    let title = match first_text_in(inner, 0) {
        Some(t) => t,
        None => String::new(),
    };
    entries_put(&mut e, "title".to_owned(), JsonValue::String(title));
    entries_put(&mut e, "url".to_owned(), null_or_string(attr_at(row, 1)));
    entries_put(&mut e, "img".to_owned(), null_or_string(first_attr_in(inner, 1, 0)));
    e
}

fn add_price_number(e: &mut Vec<(String, JsonValue)>, key: &str, price: &Option<String>)
    ensures
        entries_model(final(e)@) == with_price_number(
            entries_model(old(e)@),
            key@,
            opt_string_view(*price),
        ),
        distinct_keys(entries_model(old(e)@)) ==> distinct_keys(entries_model(final(e)@)),
{
    match price {
        Some(p) => match price_num(p.as_str()) {
            Some(n) => entries_put(e, key.to_owned(), JsonValue::from_u64(n)),
            None => {},
        },
        None => {},
    }
}

fn add_row_prices(e: &mut Vec<(String, JsonValue)>, inner: &Vec<Vec<Element>>)
    ensures
        entries_model(final(e)@) == row_prices(entries_model(old(e)@), inner_view(inner@)),
        distinct_keys(entries_model(old(e)@)) ==> distinct_keys(entries_model(final(e)@)),
{
    let pf = first_text_in(inner, 2);
    let po = first_text_in(inner, 3);
    let pf_value = match &pf {
        Some(p) => JsonValue::String(p.clone()),
        None => JsonValue::Null,
    };
    entries_put(e, "price_final".to_owned(), pf_value);
    let po_value = match &po {
        Some(p) => JsonValue::String(p.clone()),
        None => JsonValue::Null,
    };
    entries_put(e, "price_original".to_owned(), po_value);
    add_price_number(e, "price_final_num", &pf);
    add_price_number(e, "price_original_num", &po);
}

fn add_row_discount(e: &mut Vec<(String, JsonValue)>, inner: &Vec<Vec<Element>>)
    ensures
        entries_model(final(e)@) == row_discount(entries_model(old(e)@), inner_view(inner@)),
        distinct_keys(entries_model(old(e)@)) ==> distinct_keys(entries_model(final(e)@)),
{
    let dp = first_text_in(inner, 4);
    let shown = match &dp {
        Some(d) => d.clone(),
        None => "0%".to_owned(),
    };
    entries_put(e, "discount_pct".to_owned(), JsonValue::String(shown));
    entries_put(e, "discounted".to_owned(), JsonValue::Bool(dp.is_some()));
    let value = discount_of(&dp);
    entries_put(e, "discount".to_owned(), JsonValue::from_u64(value as u64));
    entries_put(e, "bundle_discount".to_owned(), null_or_string(first_attr_in(inner, 5, 0)));
    entries_put(e, "released".to_owned(), null_or_string(first_text_in(inner, 6)));
    entries_put(e, "review".to_owned(), null_or_string(first_attr_in(inner, 7, 0)));
}

fn add_row_tail(e: &mut Vec<(String, JsonValue)>, row: &Element, inner: &Vec<Vec<Element>>)
    ensures
        entries_model(final(e)@) == row_tail(entries_model(old(e)@), row@, inner_view(inner@)),
        distinct_keys(entries_model(old(e)@)) ==> distinct_keys(entries_model(final(e)@)),
{
    let pl = platform_list(inner);
    if pl.len() > 0 {
        proof {
            lemma_array_model(pl);
        }
        entries_put(e, "platforms".to_owned(), JsonValue::Array(pl));
    }
    entries_put(e, "tags".to_owned(), null_or_string(attr_at(row, 2)));
    entries_put(e, "descids".to_owned(), null_or_string(attr_at(row, 3)));
    entries_put(e, "crtrids".to_owned(), null_or_string(attr_at(row, 4)));
    entries_put(e, "itemkey".to_owned(), null_or_string(attr_at(row, 5)));
    entries_put(e, "steamdeck".to_owned(), null_or_string(attr_at(row, 6)));
}

/// One search result, from its row and what was read below it.
pub fn store_row_value(row: &Element, inner: &Vec<Vec<Element>>) -> (r: JsonValue)
    ensures
        r@ == store_row(row@, inner_view(inner@)),
        r@ matches Json::Object(entries) && distinct_keys(entries),
{
    let mut e = row_head_entries(row, inner);
    add_row_prices(&mut e, inner);
    add_row_discount(&mut e, inner);
    add_row_tail(&mut e, row, inner);
    proof {
        lemma_object_model(e);
    }
    JsonValue::Object(e)
}


/// A query for the selector `sel`, which parses, reading the attributes `attrs`.
fn query_of(sel: &str, attrs: Vec<String>) -> (r: Query)
    requires
        selector_error(sel@) is None,
    ensures
        r@.selector == sel@,
        r.attrs@ == attrs@,
{
    match parse_selector(sel) {
        Ok(c) => Query { selector: c, attrs },
        Err(_) => vstd::pervasive::unreached(),
    }
}

/// The selector `sel`, which parses.
fn selector_of(sel: &str) -> (r: crate::html::CssSelector)
    requires
        selector_error(sel@) is None,
    ensures
        r@ == sel@,
{
    match parse_selector(sel) {
        Ok(c) => c,
        Err(_) => vstd::pervasive::unreached(),
    }
}

fn one_name(a: &str) -> (r: Vec<String>)
    ensures
        r@.map_values(|s: String| s@) == seq![a@],
{
    let mut v: Vec<String> = Vec::new();
    v.push(a.to_owned());
    assert(v@.map_values(|s: String| s@) =~= seq![a@]);
    v
}

/// What the store search gives for the result page `html`: one object per search result.
pub fn store_results_of(html: &str) -> (r: Result<JsonValue, String>)
    ensures
        match r {
            Ok(v) => store_results(html@) == Ok::<Json, Seq<char>>(v@),
            Err(e) => store_results(html@) == Err::<Json, Seq<char>>(e@),
        },
{
    let sels: Vec<&str> = vec![
        "a.search_result_row",
        "span.title",
        ".search_capsule img",
        ".discount_final_price",
        ".discount_original_price",
        ".discount_pct",
        ".discount_block",
        ".search_released",
        ".search_review_summary",
        ".platform_img",
    ];
    let ghost all = store_selectors();
    assert(sels@.map_values(|s: &str| s@) =~= all);
    let mut i: usize = 0;
    assert(all.skip(0) =~= all);
    while i < sels.len()
        invariant
            i <= sels@.len(),
            sels@.map_values(|s: &str| s@) == all,
            all == store_selectors(),
            first_selector_error(all) == first_selector_error(all.skip(i as int)),
            forall|j: int| 0 <= j < i ==> selector_error(#[trigger] all[j]) is None,
        decreases sels@.len() - i,
    {
        assert(all.skip(i as int)[0] == sels@[i as int]@);
        assert(all.skip(i as int).drop_first() =~= all.skip(i + 1));
        match parse_selector(sels[i]) {
            Ok(_) => {},
            Err(e) => {
                let mut msg = "selector error: ".to_owned();
                msg.append(e.as_str());
                return Err(msg);
            },
        }
        i += 1;
    }
    assert(all.skip(sels@.len() as int) =~= Seq::<Seq<char>>::empty());
    assert(first_selector_error(all) is None);
    proof {
        assert forall|k: int| 0 <= k < sels@.len() implies selector_error(#[trigger] sels@[k]@) is None by {
            assert(all[k] == sels@[k]@);
        }
    }
    let doc = parse_html(html);
    let mut row_attrs: Vec<String> = Vec::new();
    row_attrs.push("data-ds-appid".to_owned());
    row_attrs.push("href".to_owned());
    row_attrs.push("data-ds-tagids".to_owned());
    row_attrs.push("data-ds-descids".to_owned());
    row_attrs.push("data-ds-crtrids".to_owned());
    row_attrs.push("data-ds-itemkey".to_owned());
    row_attrs.push("data-ds-steam-deck-compat-handled".to_owned());
    assert(row_attrs@.map_values(|s: String| s@) =~= row_attr_names());
    let row_q = query_of(sels[0], row_attrs);
    assert(row_q@ == QuerySpec { selector: "a.search_result_row"@, attrs: row_attr_names() });
    let rows = select(&doc, &row_q);
    let outer = selector_of(sels[0]);
    let mut queries: Vec<Query> = Vec::new();
    queries.push(query_of(sels[1], Vec::new()));
    queries.push(query_of(sels[2], one_name("src")));
    queries.push(query_of(sels[3], Vec::new()));
    queries.push(query_of(sels[4], Vec::new()));
    queries.push(query_of(sels[5], Vec::new()));
    queries.push(query_of(sels[6], one_name("data-bundlediscount")));
    queries.push(query_of(sels[7], Vec::new()));
    queries.push(query_of(sels[8], one_name("data-tooltip-html")));
    queries.push(query_of(sels[9], one_name("class")));
    proof {
        let qv = queries_view(queries@);
        let want = row_inner_queries();
        assert forall|j: int| 0 <= j < 9 implies #[trigger] qv[j] == want[j] by {
            assert(qv[j].attrs =~= want[j].attrs);
        }
        assert(qv =~= want);
    }
    let inner = select_each(&doc, &outer, &queries);
    let ghost rs = html_select(html@, QuerySpec { selector: "a.search_result_row"@, attrs: row_attr_names() });
    let ghost ins = html_select_each(html@, "a.search_result_row"@, row_inner_queries());
    let empty: Vec<Vec<Element>> = Vec::new();
    let mut out: Vec<JsonValue> = Vec::new();
    let mut k: usize = 0;
    while k < rows.len()
        invariant
            k <= rows@.len(),
            elements_view(rows@) == rs,
            nested_view(inner@) == ins,
            empty@.len() == 0,
            out@.len() == k,
            forall|j: int|
                0 <= j < k ==> (#[trigger] out@[j])@ == store_row(
                    rs[j],
                    if j < ins.len() {
                        ins[j]
                    } else {
                        Seq::empty()
                    },
                ),
        decreases rows@.len() - k,
    {
        let group_k = if k < inner.len() {
            &inner[k]
        } else {
            &empty
        };
        assert(inner_view(empty@) =~= Seq::<Seq<ElementSpec>>::empty());
        out.push(store_row_value(&rows[k], group_k));
        k += 1;
    }
    proof {
        lemma_array_model(out);
        let target = Seq::new(
            rs.len(),
            |i: int|
                store_row(
                    rs[i],
                    if i < ins.len() {
                        ins[i]
                    } else {
                        Seq::empty()
                    },
                ),
        );
        assert(items_model(out@) =~= target);
    }
    Ok(JsonValue::Array(out))
}


// ---------------------------------------------------------------------------
// App page
// ---------------------------------------------------------------------------

/// What the store page of an app shows beyond its API data.
pub struct AppPage {
    pub positive_reviews: Option<u64>,
    pub total_reviews: Option<u64>,
    /// The `data-deckcompatibility` JSON text of the page.
    pub deck_compatibility: Option<String>,
    /// The feature categories: `icon`, `category` and `label` of each.
    pub categories: Vec<JsonValue>,
    /// The JSON text of the page's tag array.
    pub tags_text: Option<String>,
}

/// The mathematical value of an `AppPage`.
pub struct AppPageSpec {
    pub positive_reviews: Option<nat>,
    pub total_reviews: Option<nat>,
    pub deck_compatibility: Option<Seq<char>>,
    pub categories: Seq<Json>,
    pub tags_text: Option<Seq<char>>,
}

pub open spec fn opt_u64_view(o: Option<u64>) -> Option<nat> {
    match o {
        Some(n) => Some(n as nat),
        None => None,
    }
}

impl View for AppPage {
    type V = AppPageSpec;

    open spec fn view(&self) -> AppPageSpec {
        AppPageSpec {
            positive_reviews: opt_u64_view(self.positive_reviews),
            total_reviews: opt_u64_view(self.total_reviews),
            deck_compatibility: opt_string_view(self.deck_compatibility),
            categories: items_model(self.categories@),
            tags_text: opt_string_view(self.tags_text),
        }
    }
}

/// The `value` of the first element that `selector` matches, read as a `u64`.
pub open spec fn input_value(html: Seq<char>, selector: Seq<char>) -> Option<nat> {
    if selector_error(selector) is None {
        match first_attr(html_select(html, QuerySpec { selector, attrs: seq!["value"@] }), 0) {
            Some(v) => parse_unsigned(v, u64::MAX as nat),
            None => None,
        }
    } else {
        None
    }
}

/// The `data-deckcompatibility` attribute of the page's application configuration.
pub open spec fn deck_attr(html: Seq<char>) -> Option<Seq<char>> {
    if selector_error("div#application_config"@) is None {
        first_attr(
            html_select(
                html,
                QuerySpec {
                    selector: "div#application_config"@,
                    attrs: seq!["data-deckcompatibility"@],
                },
            ),
            0,
        )
    } else {
        None
    }
}

/// The category id in a feature link: the digits after `category2=`, up to the next `&`
/// (or the next `category2=`).
pub open spec fn category_in_href(href: Seq<char>) -> Option<nat> {
    match find(href, "category2="@) {
        Some(i) => {
            let start = i + "category2="@.len();
            let end = match find_from(href, "category2="@, start) {
                Some(j) => j,
                None => href.len() as int,
            };
            let piece = href.subrange(start, end);
            let first = match find(piece, "&"@) {
                Some(a) => piece.subrange(0, a),
                None => piece,
            };
            parse_unsigned(first, u64::MAX as nat)
        },
        None => None,
    }
}

/// One feature category of the page: its icon, the id in its link and its label.
pub open spec fn category_object(link: ElementSpec, parts: Seq<Seq<ElementSpec>>) -> Json {
    let href = match attr_of(link, 0) {
        Some(h) => h,
        None => Seq::empty(),
    };
    let e0 = Seq::<(Seq<char>, Json)>::empty();
    let e1 = entries_insert(e0, "icon"@, str_or_null(first_attr(group(parts, 0), 0)));
    let e2 = entries_insert(
        e1,
        "category"@,
        match category_in_href(href) {
            Some(n) => Json::from_u64(n),
            None => Json::Null,
        },
    );
    Json::Object(entries_insert(e2, "label"@, str_or_null(first_text(group(parts, 1)))))
}

pub open spec fn category_link_selector() -> Seq<char> {
    "div.game_area_features_list_ctn a.game_area_details_specs_ctn"@
}

pub open spec fn category_part_queries() -> Seq<QuerySpec> {
    seq![
        QuerySpec { selector: "img.category_icon"@, attrs: seq!["src"@] },
        QuerySpec { selector: "div.label"@, attrs: Seq::empty() },
    ]
}

/// The feature categories of the page, in the order they are read; none where a selector
/// could not be used.
pub open spec fn page_categories(html: Seq<char>) -> Seq<Json> {
    if selector_error("div#category_block"@) is None && selector_error(category_link_selector())
        is None && selector_error("img.category_icon"@) is None && selector_error("div.label"@)
        is None {
        let links = html_select_in_first(
            html,
            "div#category_block"@,
            QuerySpec { selector: category_link_selector(), attrs: seq!["href"@] },
        );
        let parts = html_select_each_in_first(
            html,
            "div#category_block"@,
            category_link_selector(),
            category_part_queries(),
        );
        Seq::new(
            links.len(),
            |i: int|
                category_object(
                    links[i],
                    if i < parts.len() {
                        parts[i]
                    } else {
                        Seq::empty()
                    },
                ),
        )
    } else {
        Seq::empty()
    }
}

/// What the store page `html` of an app shows.
pub open spec fn app_page(html: Seq<char>) -> AppPageSpec {
    AppPageSpec {
        positive_reviews: input_value(html, "input#review_summary_num_positive_reviews"@),
        total_reviews: input_value(html, "input#review_summary_num_reviews"@),
        deck_compatibility: deck_attr(html),
        categories: page_categories(html),
        tags_text: page_tags_text(html),
    }
}

/// The `value` of the first of the elements read as a `u64`, where there is one.
pub fn input_value_of(found: &Vec<Element>) -> (r: Option<u64>)
    ensures
        opt_u64_view(r) == match first_attr(elements_view(found@), 0) {
            Some(v) => parse_unsigned(v, u64::MAX as nat),
            None => None,
        },
{
    if found.len() > 0 {
        match attr_at(&found[0], 0) {
            Some(v) => parse_u64(chars_of(v.as_str()).as_slice()),
            None => None,
        }
    } else {
        None
    }
}

fn read_input_value(doc: &crate::html::HtmlDocument, selector: &str) -> (r: Option<u64>)
    ensures
        opt_u64_view(r) == input_value(doc@, selector@),
{
    match parse_selector(selector) {
        Ok(c) => {
            let q = Query { selector: c, attrs: one_name("value") };
            let found = select(doc, &q);
            assert(q@ == QuerySpec { selector: selector@, attrs: seq!["value"@] });
            input_value_of(&found)
        },
        Err(_) => None,
    }
}

fn read_deck_attr(doc: &crate::html::HtmlDocument) -> (r: Option<String>)
    ensures
        opt_string_view(r) == deck_attr(doc@),
{
    match parse_selector("div#application_config") {
        Ok(c) => {
            let q = Query { selector: c, attrs: one_name("data-deckcompatibility") };
            let found = select(doc, &q);
            assert(q@ == QuerySpec {
                selector: "div#application_config"@,
                attrs: seq!["data-deckcompatibility"@],
            });
            if found.len() > 0 {
                attr_at(&found[0], 0)
            } else {
                None
            }
        },
        Err(_) => None,
    }
}

/// The category id in a feature link, as the store page gives it.
pub fn category_id(href: &str) -> (r: Option<u64>)
    ensures
        opt_u64_view(r) == category_in_href(href@),
{
    let h = chars_of(href);
    let marker = chars_of("category2=");
    let amp = chars_of("&");
    let i = match find_chars(h.as_slice(), marker.as_slice()) {
        Some(i) => i,
        None => return None,
    };
    proof {
        lemma_find_from_some(h@, marker@, 0);
    }
    assert(occurs_at(h@, marker@, i as int));
    let hl: usize = h.len();
    let start: usize = i + marker.len();
    let end = match find_chars_from(h.as_slice(), marker.as_slice(), start) {
        Some(j) => {
            proof {
                lemma_find_from_some(h@, marker@, start as int);
            }
            assert(occurs_at(h@, marker@, j as int));
            j
        },
        None => h.len(),
    };
    let piece = sub_chars(h.as_slice(), start, end);
    let first = match find_chars(piece.as_slice(), amp.as_slice()) {
        Some(a) => {
            proof {
                lemma_find_from_some(piece@, amp@, 0);
            }
            assert(occurs_at(piece@, amp@, a as int));
            sub_chars(piece.as_slice(), 0, a)
        },
        None => piece,
    };
    parse_u64(first.as_slice())
}

/// One feature category, from its link and what was read below it.
pub fn category_value(link: &Element, parts: &Vec<Vec<Element>>) -> (r: JsonValue)
    ensures
        r@ == category_object(link@, inner_view(parts@)),
        r@ matches Json::Object(entries) && distinct_keys(entries),
{
    let href = match attr_at(link, 0) {
        Some(h) => h,
        None => String::new(),
    };
    let mut e: Vec<(String, JsonValue)> = Vec::new();
    assert(entries_model(e@) =~= Seq::<(Seq<char>, Json)>::empty());
    entries_put(&mut e, "icon".to_owned(), null_or_string(first_attr_in(parts, 0, 0)));
    let cat = match category_id(href.as_str()) {
        Some(n) => JsonValue::from_u64(n),
        None => JsonValue::Null,
    };
    entries_put(&mut e, "category".to_owned(), cat);
    entries_put(&mut e, "label".to_owned(), null_or_string(first_text_in(parts, 1)));
    proof {
        lemma_object_model(e);
    }
    JsonValue::Object(e)
}

fn read_categories(doc: &crate::html::HtmlDocument) -> (r: Vec<JsonValue>)
    ensures
        items_model(r@) == page_categories(doc@),
{
    let scope_ok = parse_selector("div#category_block").is_ok();
    let link_ok = parse_selector("div.game_area_features_list_ctn a.game_area_details_specs_ctn").is_ok();
    let icon_ok = parse_selector("img.category_icon").is_ok();
    let label_ok = parse_selector("div.label").is_ok();
    let mut out: Vec<JsonValue> = Vec::new();
    if !(scope_ok && link_ok && icon_ok && label_ok) {
        assert(items_model(out@) =~= Seq::<Json>::empty());
        return out;
    }
    let scope = selector_of("div#category_block");
    let link_sel = selector_of("div.game_area_features_list_ctn a.game_area_details_specs_ctn");
    let link_q = query_of(
        "div.game_area_features_list_ctn a.game_area_details_specs_ctn",
        one_name("href"),
    );
    assert(link_q@ == QuerySpec { selector: category_link_selector(), attrs: seq!["href"@] });
    let links = crate::html::select_in_first(doc, &scope, &link_q);
    let mut queries: Vec<Query> = Vec::new();
    queries.push(query_of("img.category_icon", one_name("src")));
    queries.push(query_of("div.label", Vec::new()));
    proof {
        let qv = queries_view(queries@);
        let want = category_part_queries();
        assert forall|j: int| 0 <= j < 2 implies #[trigger] qv[j] == want[j] by {
            assert(qv[j].attrs =~= want[j].attrs);
        }
        assert(qv =~= want);
    }
    let parts = crate::html::select_each_in_first(doc, &scope, &link_sel, &queries);
    let ghost ls = crate::html::html_select_in_first(
        doc@,
        "div#category_block"@,
        QuerySpec { selector: category_link_selector(), attrs: seq!["href"@] },
    );
    let ghost ps = crate::html::html_select_each_in_first(
        doc@,
        "div#category_block"@,
        category_link_selector(),
        category_part_queries(),
    );
    let empty: Vec<Vec<Element>> = Vec::new();
    let mut k: usize = 0;
    while k < links.len()
        invariant
            k <= links@.len(),
            elements_view(links@) == ls,
            nested_view(parts@) == ps,
            empty@.len() == 0,
            out@.len() == k,
            forall|j: int|
                0 <= j < k ==> (#[trigger] out@[j])@ == category_object(
                    ls[j],
                    if j < ps.len() {
                        ps[j]
                    } else {
                        Seq::empty()
                    },
                ),
        decreases links@.len() - k,
    {
        let parts_k = if k < parts.len() {
            &parts[k]
        } else {
            &empty
        };
        assert(inner_view(empty@) =~= Seq::<Seq<ElementSpec>>::empty());
        out.push(category_value(&links[k], parts_k));
        k += 1;
    }
    proof {
        let target = Seq::new(
            ls.len(),
            |i: int|
                category_object(
                    ls[i],
                    if i < ps.len() {
                        ps[i]
                    } else {
                        Seq::empty()
                    },
                ),
        );
        assert(items_model(out@) =~= target);
    }
    out
}

/// What the store page `html` of an app shows beyond its API data.
pub fn scrape_app_page(html: &str) -> (r: AppPage)
    ensures
        r@ == app_page(html@),
{
    let doc = parse_html(html);
    let positive = read_input_value(&doc, "input#review_summary_num_positive_reviews");
    let total = read_input_value(&doc, "input#review_summary_num_reviews");
    let deck = read_deck_attr(&doc);
    let categories = read_categories(&doc);
    let tags = find_tags_text(chars_of(html).as_slice());
    AppPage {
        positive_reviews: positive,
        total_reviews: total,
        deck_compatibility: deck,
        categories,
        tags_text: tags,
    }
}


// ---------------------------------------------------------------------------
// App details
// ---------------------------------------------------------------------------

/// The `data` of the app `appid` in an app details response, where the response has it.
pub open spec fn app_data_of(details: Json, appid: u32) -> Option<Json> {
    match details.get(decimal(appid as nat)) {
        Some(Json::Object(entry)) => entries_get(entry, "data"@),
        _ => None,
    }
}

/// The number of current players that a player count response states.
pub open spec fn players_count(players: Option<Json>) -> Option<nat> {
    match players {
        Some(p) => match p.get("response"@) {
            Some(r) => opt_as_u64(r.get("player_count"@)),
            None => None,
        },
        None => None,
    }
}

/// The resolved Steam Deck category that the compatibility data states.
pub open spec fn resolved_category(deck: Option<Json>) -> Option<Json> {
    match deck {
        Some(d) => d.get("resolved_category"@),
        None => None,
    }
}

/// The name of the resolved category: the category number, cut to its low eight bits,
/// looked up among the Steam Deck categories.
pub open spec fn category_key(deck: Option<Json>) -> Option<Seq<char>> {
    match opt_as_u64(resolved_category(deck)) {
        Some(n) => {
            let k = (n % 256) as u8;
            if crate::maps::steamdeck_categories().contains_key(k) {
                Some(crate::maps::steamdeck_categories()[k])
            } else {
                None
            }
        },
        None => None,
    }
}

/// The app data with the compatibility item lists of the compatibility data added.
pub open spec fn with_compat_items(d: Seq<(Seq<char>, Json)>, deck: Option<Json>) -> Seq<
    (Seq<char>, Json),
> {
    match deck {
        Some(dj) => {
            let d1 = match dj.get("resolved_items"@) {
                Some(items) => entries_insert(d, "steamdeck_compatibility_items"@, compat_items(items)),
                None => d,
            };
            match dj.get("steamos_resolved_items"@) {
                Some(items) => entries_insert(d1, "steamos_resolved_items"@, compat_items(items)),
                None => d1,
            }
        },
        None => d,
    }
}

/// The first category of the API list whose `id` is `id`.
pub open spec fn find_category(api: Seq<Json>, id: nat) -> Option<Json>
    decreases api.len(),
{
    if api.len() == 0 {
        None
    } else if opt_as_u64(api[0].get("id"@)) == Some(id) {
        Some(api[0])
    } else {
        find_category(api.drop_first(), id)
    }
}

/// The API category `c` has the numeric `id` given.
pub open spec fn category_has_id(c: Json, id: nat) -> bool {
    opt_as_u64(c.get("id"@)) == Some(id)
}

/// The API category found for an id is the first one of the whole list whose `id` is that
/// number, wherever it stands in the list.
pub proof fn lemma_find_category_first(api: Seq<Json>, id: nat, j: int)
    requires
        0 <= j < api.len(),
        category_has_id(api[j], id),
        forall|k: int| 0 <= k < j ==> !category_has_id(#[trigger] api[k], id),
    ensures
        find_category(api, id) == Some(api[j]),
    decreases j,
{
    if j > 0 {
        let rest = api.drop_first();
        assert(!category_has_id(api[0], id));
        assert(rest[j - 1] == api[j]);
        assert forall|k: int| 0 <= k < j - 1 implies !category_has_id(#[trigger] rest[k], id) by {
            assert(rest[k] == api[k + 1]);
        }
        lemma_find_category_first(rest, id, j - 1);
    }
}

/// Some API category is found for an id whenever some category of the list, at any place, has
/// that id; and the one found has it.
pub proof fn lemma_find_category_listed(api: Seq<Json>, id: nat, j: int)
    requires
        0 <= j < api.len(),
        category_has_id(api[j], id),
    ensures
        find_category(api, id) matches Some(c) && category_has_id(c, id),
    decreases j,
{
    if !category_has_id(api[0], id) {
        let rest = api.drop_first();
        assert(rest[j - 1] == api[j]);
        lemma_find_category_listed(rest, id, j - 1);
    }
}

/// No API category is found for an id that no category of the list has.
pub proof fn lemma_find_category_absent(api: Seq<Json>, id: nat)
    requires
        forall|j: int| 0 <= j < api.len() ==> !category_has_id(#[trigger] api[j], id),
    ensures
        find_category(api, id) is None,
    decreases api.len(),
{
    if api.len() > 0 {
        let rest = api.drop_first();
        assert(!category_has_id(api[0], id));
        assert forall|j: int| 0 <= j < rest.len() implies !category_has_id(#[trigger] rest[j], id) by {
            assert(rest[j] == api[j + 1]);
        }
        lemma_find_category_absent(rest, id);
    }
}

/// A page category whose numeric `category` is the id of some API category, at any place in
/// the API list, is given the string `description` of the first API category with that id.
pub proof fn lemma_category_described(
    e: Seq<(Seq<char>, Json)>,
    t: Seq<char>,
    id: nat,
    api: Seq<Json>,
    j: int,
    ac: Seq<(Seq<char>, Json)>,
    desc: Seq<char>,
)
    requires
        entries_get(e, "category"@) == Some(Json::Number(t)),
        Json::Number(t).as_u64() == Some(id),
        0 <= j < api.len(),
        category_has_id(api[j], id),
        forall|k: int| 0 <= k < j ==> !category_has_id(#[trigger] api[k], id),
        api[j] == Json::Object(ac),
        entries_get(ac, "description"@) == Some(Json::Str(desc)),
    ensures
        describe_category(Json::Object(e), api) == Json::Object(
            entries_insert(e, "description"@, Json::Str(desc)),
        ),
        describe_category(Json::Object(e), api).get("description"@) == Some(Json::Str(desc)),
{
    lemma_find_category_first(api, id, j);
    crate::json::lemma_get_insert_same(e, "description"@, Json::Str(desc));
}

/// In the categories of an app whose data lists API categories, each page category whose id
/// some API category has carries the description of the first such API category.
pub proof fn lemma_app_category_described(
    d: Seq<(Seq<char>, Json)>,
    cats: Seq<Json>,
    i: int,
    e: Seq<(Seq<char>, Json)>,
    t: Seq<char>,
    id: nat,
    api: Seq<Json>,
    j: int,
    ac: Seq<(Seq<char>, Json)>,
    desc: Seq<char>,
)
    requires
        entries_get(d, "categories"@) == Some(Json::Array(api)),
        0 <= i < cats.len(),
        cats[i] == Json::Object(e),
        entries_get(e, "category"@) == Some(Json::Number(t)),
        Json::Number(t).as_u64() == Some(id),
        0 <= j < api.len(),
        category_has_id(api[j], id),
        forall|k: int| 0 <= k < j ==> !category_has_id(#[trigger] api[k], id),
        api[j] == Json::Object(ac),
        entries_get(ac, "description"@) == Some(Json::Str(desc)),
    ensures
        app_categories(d, cats).len() == cats.len(),
        app_categories(d, cats)[i].get("description"@) == Some(Json::Str(desc)),
{
    lemma_category_described(e, t, id, api, j, ac, desc);
}

/// A page category with the description that the API category of the same id gives.
pub open spec fn describe_category(c: Json, api: Seq<Json>) -> Json {
    match c {
        Json::Object(e) => match entries_get(e, "category"@) {
            Some(Json::Number(t)) => match Json::Number(t).as_u64() {
                Some(id) => match find_category(api, id) {
                    Some(Json::Object(ac)) => match entries_get(ac, "description"@) {
                        Some(Json::Str(desc)) => Json::Object(
                            entries_insert(e, "description"@, Json::Str(desc)),
                        ),
                        _ => c,
                    },
                    _ => c,
                },
                None => c,
            },
            _ => c,
        },
        _ => c,
    }
}

/// The page categories, described from the API categories where the data has a list of them.
pub open spec fn app_categories(d: Seq<(Seq<char>, Json)>, cats: Seq<Json>) -> Seq<Json> {
    match entries_get(d, "categories"@) {
        Some(Json::Array(api)) => cats.map_values(|c: Json| describe_category(c, api)),
        _ => cats,
    }
}

/// The tags of the page's tag array.
pub open spec fn tag_items(tags: Option<Json>) -> Seq<Json> {
    match tags {
        Some(Json::Array(items)) => items,
        _ => Seq::empty(),
    }
}

/// The text of the share of positive reviews.
pub open spec fn percentage_text(total: nat, percentage: Option<Seq<char>>) -> Seq<char> {
    if total > 0 {
        match percentage {
            Some(p) => p,
            None => "0.00"@,
        }
    } else {
        "0.00"@
    }
}

/// The app data enriched with what the store page and the other responses give: cover
/// image, review counts and share, current players, described feature categories (in place
/// of the API's categories), tags and the resolved Steam Deck category.
pub open spec fn enriched_app(
    d: Seq<(Seq<char>, Json)>,
    appid: u32,
    page: AppPageSpec,
    deck: Option<Json>,
    tags: Option<Json>,
    players: Option<Json>,
    percentage: Option<Seq<char>>,
) -> Seq<(Seq<char>, Json)> {
    let d1 = with_compat_items(d, deck);
    let d2 = entries_insert(d1, "cover_image"@, Json::Str(cover_url(appid as nat)));
    let d3 = match (page.positive_reviews, page.total_reviews) {
        (Some(p), Some(t)) => entries_insert(
            entries_insert(
                entries_insert(d2, "positive_reviews"@, Json::from_u64(p)),
                "total_reviews"@,
                Json::from_u64(t),
            ),
            "positive_reviews_percentage"@,
            Json::Str(percentage_text(t, percentage)),
        ),
        _ => d2,
    };
    let d4 = entries_insert(
        d3,
        "current_players"@,
        match players_count(players) {
            Some(n) => Json::from_u64(n),
            None => Json::Null,
        },
    );
    let d5 = entries_insert(d4, "app_categories"@, Json::Array(app_categories(d4, page.categories)));
    let d6 = entries_remove(d5, "categories"@);
    let d7 = entries_insert(d6, "app_tags"@, Json::Array(tag_items(tags)));
    match resolved_category(deck) {
        Some(c) => entries_insert(d7, "steamdeck_compatibility"@, c),
        None => d7,
    }
}

/// Where the labels of the Steam Deck category are published for `language` (English by default).
pub open spec fn shared_strings_url(language: Option<Seq<char>>) -> Seq<char> {
    "https://store.akamai.steamstatic.com/public/javascript/applications/store/shared_"@
        + opt_text(language, "english"@) + "-json.js"@
}

pub open spec fn opt_text(o: Option<Seq<char>>, default: Seq<char>) -> Seq<char> {
    match o {
        Some(s) => s,
        None => default,
    }
}

/// The app data as far as the first responses give it, and, where the labels of its Steam
/// Deck category are to be fetched, from where and under which key.
pub struct AppAssembly {
    pub data: Option<JsonValue>,
    pub labels: Option<(String, String)>,
}

/// The mathematical value of an `AppAssembly`.
pub struct AppAssemblySpec {
    pub data: Option<Json>,
    pub labels: Option<(Seq<char>, Seq<char>)>,
}

impl View for AppAssembly {
    type V = AppAssemblySpec;

    open spec fn view(&self) -> AppAssemblySpec {
        AppAssemblySpec {
            data: match self.data {
                Some(v) => Some(v@),
                None => None,
            },
            labels: match self.labels {
                Some((u, k)) => Some((u@, k@)),
                None => None,
            },
        }
    }
}

/// The app data for the app `appid`: the `data` of the details response, enriched where it
/// is an object; with a labels request where it is an object and the compatibility data
/// resolves to a named category.
pub open spec fn app_assembly(
    appid: u32,
    language: Option<Seq<char>>,
    details: Json,
    page: AppPageSpec,
    deck: Option<Json>,
    tags: Option<Json>,
    players: Option<Json>,
    percentage: Option<Seq<char>>,
) -> AppAssemblySpec {
    match app_data_of(details, appid) {
        Some(Json::Object(d)) => AppAssemblySpec {
            data: Some(Json::Object(enriched_app(d, appid, page, deck, tags, players, percentage))),
            labels: match (resolved_category(deck), category_key(deck)) {
                (Some(_), Some(k)) => Some((shared_strings_url(language), k)),
                _ => None,
            },
        },
        other => AppAssemblySpec { data: other, labels: None },
    }
}

/// The `data` of the app `appid` in an app details response.
pub fn app_data(details: &JsonValue, appid: u32) -> (r: Option<JsonValue>)
    ensures
        match r {
            Some(v) => app_data_of(details@, appid) == Some(v@),
            None => app_data_of(details@, appid) is None,
        },
{
    let key = crate::text::decimal_string(appid as u64);
    match details.get(key.as_str()) {
        Some(JsonValue::Object(entry)) => {
            proof {
                lemma_object_model(*entry);
            }
            match entries_lookup(entry, "data") {
                Some(v) => Some(v.deep_clone()),
                None => None,
            }
        },
        _ => None,
    }
}

fn add_compat_items(d: &mut Vec<(String, JsonValue)>, deck: &Option<JsonValue>)
    ensures
        entries_model(final(d)@) == with_compat_items(
            entries_model(old(d)@),
            match *deck {
                Some(v) => Some(v@),
                None => None,
            },
        ),
{
    match deck {
        Some(dj) => {
            match dj.get("resolved_items") {
                Some(items) => entries_put(
                    d,
                    "steamdeck_compatibility_items".to_owned(),
                    transform_compat_items(items),
                ),
                None => {},
            }
            match dj.get("steamos_resolved_items") {
                Some(items) => entries_put(
                    d,
                    "steamos_resolved_items".to_owned(),
                    transform_compat_items(items),
                ),
                None => {},
            }
        },
        None => {},
    }
}

/// The number of current players that a player count response states.
pub fn player_count(players: &Option<JsonValue>) -> (r: Option<u64>)
    ensures
        opt_u64_view(r) == players_count(
            match *players {
                Some(v) => Some(v@),
                None => None,
            },
        ),
{
    match players {
        Some(p) => match p.get("response") {
            Some(r) => match r.get("player_count") {
                Some(c) => c.as_u64(),
                None => None,
            },
            None => None,
        },
        None => None,
    }
}

fn find_api_category<'a>(api: &'a Vec<JsonValue>, id: u64) -> (r: Option<&'a JsonValue>)
    ensures
        match r {
            Some(c) => find_category(items_model(api@), id as nat) == Some(c@),
            None => find_category(items_model(api@), id as nat) is None,
        },
{
    let ghost m = items_model(api@);
    let mut i: usize = 0;
    assert(m.skip(0) =~= m);
    while i < api.len()
        invariant
            i <= api@.len(),
            m == items_model(api@),
            find_category(m, id as nat) == find_category(m.skip(i as int), id as nat),
        decreases api@.len() - i,
    {
        assert(m.skip(i as int)[0] == api@[i as int]@);
        assert(m.skip(i as int).drop_first() =~= m.skip(i + 1));
        let hit = match api[i].get("id") {
            Some(v) => match v.as_u64() {
                Some(n) => n == id,
                None => false,
            },
            None => false,
        };
        if hit {
            return Some(&api[i]);
        }
        i += 1;
    }
    assert(m.skip(i as int) =~= Seq::<Json>::empty());
    None
}

fn describe_one(c: JsonValue, api: &Vec<JsonValue>) -> (r: JsonValue)
    ensures
        r@ == describe_category(c@, items_model(api@)),
{
    match c {
        JsonValue::Object(mut e) => {
            proof {
                lemma_object_model(e);
            }
            let id: Option<u64> = match entries_lookup(&e, "category") {
                Some(v) => match v {
                    JsonValue::Number(_) => v.as_u64(),
                    _ => None,
                },
                None => None,
            };
            let desc: Option<String> = match id {
                Some(n) => match find_api_category(api, n) {
                    Some(JsonValue::Object(ac)) => {
                        proof {
                            lemma_object_model(*ac);
                        }
                        match entries_lookup(ac, "description") {
                            Some(JsonValue::String(d)) => Some(d.clone()),
                            _ => None,
                        }
                    },
                    _ => None,
                },
                None => None,
            };
            match desc {
                Some(d) => {
                    entries_put(&mut e, "description".to_owned(), JsonValue::String(d));
                    proof {
                        lemma_object_model(e);
                    }
                    JsonValue::Object(e)
                },
                None => JsonValue::Object(e),
            }
        },
        other => other,
    }
}

fn described_categories(d: &Vec<(String, JsonValue)>, cats: &Vec<JsonValue>) -> (r: Vec<JsonValue>)
    ensures
        items_model(r@) == app_categories(entries_model(d@), items_model(cats@)),
{
    let ghost src = items_model(cats@);
    let mut out: Vec<JsonValue> = Vec::new();
    match entries_lookup(d, "categories") {
        Some(JsonValue::Array(api)) => {
            proof {
                lemma_array_model(*api);
            }
            let mut i: usize = 0;
            while i < cats.len()
                invariant
                    i <= cats@.len(),
                    src == items_model(cats@),
                    out@.len() == i,
                    forall|k: int|
                        0 <= k < i ==> (#[trigger] out@[k])@ == describe_category(
                            src[k],
                            items_model(api@),
                        ),
                decreases cats@.len() - i,
            {
                out.push(describe_one(cats[i].deep_clone(), api));
                i += 1;
            }
            assert(items_model(out@) =~= src.map_values(
                |c: Json| describe_category(c, items_model(api@)),
            ));
        },
        _ => {
            let mut i: usize = 0;
            while i < cats.len()
                invariant
                    i <= cats@.len(),
                    src == items_model(cats@),
                    out@.len() == i,
                    forall|k: int| 0 <= k < i ==> (#[trigger] out@[k])@ == src[k],
                decreases cats@.len() - i,
            {
                out.push(cats[i].deep_clone());
                i += 1;
            }
            assert(items_model(out@) =~= src);
        },
    }
    out
}

fn tag_list(tags: &Option<JsonValue>) -> (r: Vec<JsonValue>)
    ensures
        items_model(r@) == tag_items(
            match *tags {
                Some(v) => Some(v@),
                None => None,
            },
        ),
{
    match tags {
        Some(JsonValue::Array(items)) => {
            proof {
                lemma_array_model(*items);
            }
            let mut out: Vec<JsonValue> = Vec::new();
            let mut i: usize = 0;
            while i < items.len()
                invariant
                    i <= items@.len(),
                    out@.len() == i,
                    forall|k: int| 0 <= k < i ==> (#[trigger] out@[k])@ == items@[k]@,
                decreases items@.len() - i,
            {
                out.push(items[i].deep_clone());
                i += 1;
            }
            assert(items_model(out@) =~= items_model(items@));
            out
        },
        _ => {
            let out: Vec<JsonValue> = Vec::new();
            assert(items_model(out@) =~= Seq::<Json>::empty());
            out
        },
    }
}

fn add_reviews(d: &mut Vec<(String, JsonValue)>, page: &AppPage, percentage: &Option<String>)
    ensures
        entries_model(final(d)@) == match (page@.positive_reviews, page@.total_reviews) {
            (Some(p), Some(t)) => entries_insert(
                entries_insert(
                    entries_insert(entries_model(old(d)@), "positive_reviews"@, Json::from_u64(p)),
                    "total_reviews"@,
                    Json::from_u64(t),
                ),
                "positive_reviews_percentage"@,
                Json::Str(percentage_text(t, opt_string_view(*percentage))),
            ),
            _ => entries_model(old(d)@),
        },
{
    match (page.positive_reviews, page.total_reviews) {
        (Some(p), Some(t)) => {
            entries_put(d, "positive_reviews".to_owned(), JsonValue::from_u64(p));
            entries_put(d, "total_reviews".to_owned(), JsonValue::from_u64(t));
            let text = if t > 0 {
                match percentage {
                    Some(p) => p.clone(),
                    None => "0.00".to_owned(),
                }
            } else {
                "0.00".to_owned()
            };
            entries_put(d, "positive_reviews_percentage".to_owned(), JsonValue::String(text));
        },
        _ => {},
    }
}

/// The name of the Steam Deck category that the compatibility data resolves to.
pub fn deck_category_key(deck: &Option<JsonValue>) -> (r: Option<String>)
    ensures
        opt_string_view(r) == category_key(
            match *deck {
                Some(v) => Some(v@),
                None => None,
            },
        ),
{
    let n = match deck {
        Some(d) => match d.get("resolved_category") {
            Some(c) => c.as_u64(),
            None => None,
        },
        None => None,
    };
    match n {
        Some(n) => {
            let k: u8 = (n % 256) as u8;
            match crate::maps::steamdeck_category_name(k) {
                Some(name) => Some(name.to_owned()),
                None => None,
            }
        },
        None => None,
    }
}

/// The app data for the app `appid`, from the details response, what its store page shows,
/// the page's compatibility data and tag array (parsed), the player count response, and the
/// share of positive reviews rendered to two decimals (which the caller computes).
pub fn assemble_app(
    appid: u32,
    language: &Option<String>,
    details: &JsonValue,
    page: &AppPage,
    deck: &Option<JsonValue>,
    tags: &Option<JsonValue>,
    players: &Option<JsonValue>,
    percentage: &Option<String>,
) -> (r: AppAssembly)
    ensures
        r@ == app_assembly(
            appid,
            opt_string_view(*language),
            details@,
            page@,
            match *deck {
                Some(v) => Some(v@),
                None => None,
            },
            match *tags {
                Some(v) => Some(v@),
                None => None,
            },
            match *players {
                Some(v) => Some(v@),
                None => None,
            },
            opt_string_view(*percentage),
        ),
{
    let data = app_data(details, appid);
    match data {
        Some(JsonValue::Object(mut d)) => {
            proof {
                lemma_object_model(d);
            }
            let ghost d0 = entries_model(d@);
            add_compat_items(&mut d, deck);
            let mut cover = "https://cdn.cloudflare.steamstatic.com/steam/apps/".to_owned();
            push_decimal(&mut cover, appid as u64);
            cover.append("/library_600x900.jpg");
            entries_put(&mut d, "cover_image".to_owned(), JsonValue::String(cover));
            add_reviews(&mut d, page, percentage);
            let players_value = match player_count(players) {
                Some(n) => JsonValue::from_u64(n),
                None => JsonValue::Null,
            };
            entries_put(&mut d, "current_players".to_owned(), players_value);
            let cats = described_categories(&d, &page.categories);
            proof {
                lemma_array_model(cats);
            }
            entries_put(&mut d, "app_categories".to_owned(), JsonValue::Array(cats));
            let _ = entries_take(&mut d, "categories");
            let tag_values = tag_list(tags);
            proof {
                lemma_array_model(tag_values);
            }
            entries_put(&mut d, "app_tags".to_owned(), JsonValue::Array(tag_values));
            let resolved = match deck {
                Some(dj) => match dj.get("resolved_category") {
                    Some(c) => Some(c.deep_clone()),
                    None => None,
                },
                None => None,
            };
            let has_resolved = resolved.is_some();
            match resolved {
                Some(c) => entries_put(&mut d, "steamdeck_compatibility".to_owned(), c),
                None => {},
            }
            let labels = if has_resolved {
                match deck_category_key(deck) {
                    Some(k) => {
                        let mut url = "https://store.akamai.steamstatic.com/public/javascript/applications/store/shared_".to_owned();
                        match language {
                            Some(l) => url.append(l.as_str()),
                            None => url.append("english"),
                        }
                        url.append("-json.js");
                        Some((url, k))
                    },
                    None => None,
                }
            } else {
                None
            };
            proof {
                lemma_object_model(d);
            }
            AppAssembly { data: Some(JsonValue::Object(d)), labels }
        },
        other => AppAssembly { data: other, labels: None },
    }
}

/// What the app endpoint answers: the data, or the error that the response had none.
pub open spec fn app_result(data: Option<Json>) -> Result<Json, Seq<char>> {
    match data {
        Some(d) => Ok(d),
        None => Err("Malformed response from Steam"@),
    }
}

/// The app data, or the error that the response had none.
pub fn app_outcome(data: Option<JsonValue>) -> (r: Result<JsonValue, String>)
    ensures
        match r {
            Ok(v) => app_result(
                match data {
                    Some(d) => Some(d@),
                    None => None,
                },
            ) == Ok::<Json, Seq<char>>(v@),
            Err(e) => app_result(
                match data {
                    Some(d) => Some(d@),
                    None => None,
                },
            ) == Err::<Json, Seq<char>>(e@),
        },
{
    match data {
        Some(d) => Ok(d),
        None => Err("Malformed response from Steam".to_owned()),
    }
}

/// The app details request for the app `appid`, in the given language and country.
pub open spec fn app_details_url(appid: u32, language: Option<Seq<char>>, cc: Option<Seq<char>>) -> Seq<char> {
    "https://store.steampowered.com/api/appdetails?appids="@ + decimal(appid as nat) + opt_param(
        "&l="@,
        language,
    ) + opt_param("&cc="@, cc)
}

/// The app details request for the app `appid`.
pub fn app_details_url_for(appid: u32, language: &Option<String>, cc: &Option<String>) -> (r: String)
    ensures
        r@ == app_details_url(appid, opt_string_view(*language), opt_string_view(*cc)),
{
    let mut url = "https://store.steampowered.com/api/appdetails?appids=".to_owned();
    push_decimal(&mut url, appid as u64);
    push_param(&mut url, "&l=", language);
    push_param(&mut url, "&cc=", cc);
    url
}

/// The store page of the app `appid`.
pub fn app_page_url(appid: u32) -> (r: String)
    ensures
        r@ == "https://store.steampowered.com/app/"@ + decimal(appid as nat),
{
    let mut url = "https://store.steampowered.com/app/".to_owned();
    push_decimal(&mut url, appid as u64);
    url
}

/// The current player count request for the app `appid`.
pub fn player_count_url(appid: u32) -> (r: String)
    ensures
        r@ == "https://api.steampowered.com/ISteamUserStats/GetNumberOfCurrentPlayers/v1/?appid="@
            + decimal(appid as nat),
{
    let mut url = "https://api.steampowered.com/ISteamUserStats/GetNumberOfCurrentPlayers/v1/?appid=".to_owned();
    push_decimal(&mut url, appid as u64);
    url
}


/// Renaming the compatibility fields a second time changes nothing, for an item whose
/// keys are distinct (as in any parsed JSON object).
pub proof fn lemma_compat_item_idempotent(item: Json)
    requires
        (item matches Json::Object(e) ==> crate::json::distinct_keys(e)),
    ensures
        compat_item(compat_item(item)) == compat_item(item),
{
    reveal_strlit("display_type");
    reveal_strlit("compatibility");
    reveal_strlit("loc_token");
    reveal_strlit("token");
    let dt = "display_type"@;
    let comp = "compatibility"@;
    let lt = "loc_token"@;
    let tok = "token"@;
    assert(dt.len() != comp.len() && dt.len() != lt.len() && dt.len() != tok.len());
    assert(lt.len() != comp.len() && lt.len() != tok.len());
    match item {
        Json::Object(e) => {
            let e1 = match entries_get(e, dt) {
                Some(d) => entries_insert(entries_remove(e, dt), comp, d),
                None => e,
            };
            match entries_get(e, dt) {
                Some(d) => {
                    crate::json::lemma_remove_gone(e, dt);
                    crate::json::lemma_get_insert_other(entries_remove(e, dt), comp, d, dt);
                    crate::json::lemma_insert_distinct(entries_remove(e, dt), comp, d);
                },
                None => {},
            }
            assert(!crate::json::has_key(e1, dt));
            assert(crate::json::distinct_keys(e1));
            let t = match entries_get(e1, lt) {
                Some(t) => Json::Str(
                    match t.as_str() {
                        Some(s) => trim_hashes(s),
                        None => Seq::empty(),
                    },
                ),
                None => Json::Null,
            };
            let e2 = match entries_get(e1, lt) {
                Some(_) => entries_insert(entries_remove(e1, lt), tok, t),
                None => e1,
            };
            match entries_get(e1, lt) {
                Some(_) => {
                    crate::json::lemma_remove_gone(e1, lt);
                    crate::json::lemma_get_remove_other(e1, lt, dt);
                    crate::json::lemma_get_insert_other(entries_remove(e1, lt), tok, t, lt);
                    crate::json::lemma_get_insert_other(entries_remove(e1, lt), tok, t, dt);
                },
                None => {},
            }
            assert(compat_item(item) == Json::Object(e2));
            assert(!crate::json::has_key(e2, dt));
            assert(!crate::json::has_key(e2, lt));
            assert(entries_get(e2, dt) is None);
            assert(entries_get(e2, lt) is None);
        },
        _ => {},
    }
}

/// Renaming the fields of a list of compatibility items a second time changes nothing,
/// where each item's keys are distinct.
pub proof fn lemma_compat_items_idempotent(items: Json)
    requires
        (items matches Json::Array(v) ==> forall|i: int|
            0 <= i < v.len() ==> (#[trigger] v[i] matches Json::Object(e) ==> crate::json::distinct_keys(e))),
    ensures
        compat_items(compat_items(items)) == compat_items(items),
{
    match items {
        Json::Array(v) => {
            let once = v.map_values(|i: Json| compat_item(i));
            let twice = once.map_values(|i: Json| compat_item(i));
            assert forall|i: int| 0 <= i < v.len() implies #[trigger] twice[i] == once[i] by {
                lemma_compat_item_idempotent(v[i]);
            }
            assert(twice =~= once);
        },
        _ => {},
    }
}

} // verus!
