use vstd::prelude::*;

use crate::encoding::{url_encode, url_encoded};
use crate::html::{opt_string_view, html_select, parse_html, parse_selector, select, selector_error, Query, QuerySpec, ElementSpec, Element};
use crate::json::{Json, JsonValue, entries_get, entries_insert, entries_remove, entries_model, items_model, entries_lookup, entries_put, entries_take, find_key, lemma_object_model, lemma_array_model, distinct_keys};
use crate::text::{ends_with, lemma_ends_with_append, contains, occurs_at, chars_of, decimal, find, find_from, find_chars, find_chars_from, push_decimal, substring, lemma_find_from_some};

verus! {

// ---------------------------------------------------------------------------
// Icon URLs
// ---------------------------------------------------------------------------

/// Where Steam serves the item image named `name`.
pub open spec fn icon_url(name: Seq<char>) -> Seq<char> {
    "https://community.fastly.steamstatic.com/economy/image/"@ + name
}

/// The full URL of the item image named `s`.
pub fn make_icon_url(s: &str) -> (r: String)
    ensures
        r@ == icon_url(s@),
{
    let mut r = "https://community.fastly.steamstatic.com/economy/image/".to_owned();
    r.append(s);
    r
}

/// The entries with the string under `key`, if there is one, turned into an image URL.
pub open spec fn with_icon_url(entries: Seq<(Seq<char>, Json)>, key: Seq<char>) -> Seq<
    (Seq<char>, Json),
> {
    match entries_get(entries, key) {
        Some(Json::Str(s)) => entries_insert(entries, key, Json::Str(icon_url(s))),
        _ => entries,
    }
}

/// The entries with `icon_url` and `icon_url_large` turned into image URLs where they are strings.
pub open spec fn icon_urls_processed(entries: Seq<(Seq<char>, Json)>) -> Seq<(Seq<char>, Json)> {
    with_icon_url(with_icon_url(entries, "icon_url"@), "icon_url_large"@)
}

fn fix_icon_url(entries: &mut Vec<(String, JsonValue)>, key: &str)
    ensures
        entries_model(final(entries)@) == with_icon_url(entries_model(old(entries)@), key@),
{
    let ghost m = entries_model(entries@);
    match find_key(entries, key) {
        Some(i) => {
            let url = match &entries[i].1 {
                JsonValue::String(s) => Some(make_icon_url(s.as_str())),
                _ => None,
            };
            match url {
                Some(u) => {
                    let (k, _old) = entries.remove(i);
                    let ghost uv = u@;
                    entries.insert(i, (k, JsonValue::String(u)));
                    assert(entries_model(entries@) =~= m.update(
                        i as int,
                        (key@, Json::Str(uv)),
                    ));
                },
                None => {},
            }
        },
        None => {},
    }
}

/// Turns the item image names under `icon_url` and `icon_url_large` into full URLs.
pub fn process_icon_urls(entries: &mut Vec<(String, JsonValue)>)
    ensures
        entries_model(final(entries)@) == icon_urls_processed(entries_model(old(entries)@)),
{
    fix_icon_url(entries, "icon_url");
    fix_icon_url(entries, "icon_url_large");
}

// ---------------------------------------------------------------------------
// Market search
// ---------------------------------------------------------------------------

pub open spec fn opt_text(o: Option<Seq<char>>, default: Seq<char>) -> Seq<char> {
    match o {
        Some(s) => s,
        None => default,
    }
}

/// The page asked for; the first where none is.
pub open spec fn page_or_first(page: Option<u32>) -> nat {
    match page {
        Some(p) => p as nat,
        None => 1,
    }
}

/// A page number for which the search's offset, ten results a page, fits in a `u32`.
pub open spec fn valid_search_page(page: Option<u32>) -> bool {
    1 <= page_or_first(page) && (page_or_first(page) - 1) * 10 <= u32::MAX
}

/// The Steam Market search request for the given parameters: ten results from offset
/// `(page - 1) * 10`, sorted by `sort` (`default_desc` where none is given), with the
/// percent-encoded query and the app id where they are not empty.
pub open spec fn market_search_url(
    appid: Option<Seq<char>>,
    query: Option<Seq<char>>,
    sort: Option<Seq<char>>,
    page: Option<u32>,
) -> Seq<char> {
    let appid = opt_text(appid, Seq::empty());
    let query = opt_text(query, Seq::empty());
    let sort = opt_text(sort, "default_desc"@);
    let start = ((page_or_first(page) - 1) * 10) as nat;
    let base = "https://steamcommunity.com/market/search/render/?count=10&norender=1&sort="@ + sort
        + "&start="@ + decimal(start);
    let with_query = if query.len() > 0 {
        base + "&query="@ + url_encoded(query)
    } else {
        base
    };
    if appid.len() > 0 {
        with_query + "&appid="@ + appid
    } else {
        with_query
    }
}

/// A search for a non-empty app id is restricted to that app, whatever the query, sort and
/// page: the request ends with `&appid=` and the id. A non-empty query is sent
/// percent-encoded after `&query=`.
pub proof fn lemma_market_search_url_params(
    appid: Option<Seq<char>>,
    query: Option<Seq<char>>,
    sort: Option<Seq<char>>,
    page: Option<u32>,
)
    ensures
        appid is Some && appid->0.len() > 0 ==> ends_with(
            market_search_url(appid, query, sort, page),
            "&appid="@ + appid->0,
        ),
        query is Some && query->0.len() > 0 ==> contains(
            market_search_url(appid, query, sort, page),
            "&query="@ + url_encoded(query->0),
        ),
{
    let url = market_search_url(appid, query, sort, page);
    let a = opt_text(appid, Seq::empty());
    let q = opt_text(query, Seq::empty());
    let sort_text = opt_text(sort, "default_desc"@);
    let start = ((page_or_first(page) - 1) * 10) as nat;
    let base = "https://steamcommunity.com/market/search/render/?count=10&norender=1&sort="@
        + sort_text + "&start="@ + decimal(start);
    let with_query = if q.len() > 0 {
        base + "&query="@ + url_encoded(q)
    } else {
        base
    };
    if a.len() > 0 {
        assert(url =~= with_query + ("&appid="@ + a));
        lemma_ends_with_append(with_query, "&appid="@ + a);
    }
    if q.len() > 0 {
        let needle = "&query="@ + url_encoded(q);
        assert(url.subrange(base.len() as int, (base.len() + needle.len()) as int) =~= needle);
        assert(occurs_at(url, needle, base.len() as int));
    }
}

/// The Steam Market search request for the given parameters.
pub fn market_search_url_for(
    appid: &Option<String>,
    query: &Option<String>,
    sort: &Option<String>,
    page: Option<u32>,
) -> (r: String)
    requires
        valid_search_page(page),
    ensures
        r@ == market_search_url(
            crate::html::opt_string_view(*appid),
            crate::html::opt_string_view(*query),
            crate::html::opt_string_view(*sort),
            page,
        ),
{
    let p: u32 = match page {
        Some(p) => p,
        None => 1,
    };
    let start: u32 = (p - 1) * 10;
    let mut url = "https://steamcommunity.com/market/search/render/?count=10&norender=1&sort=".to_owned();
    match sort {
        Some(s) => url.append(s.as_str()),
        None => url.append("default_desc"),
    }
    url.append("&start=");
    push_decimal(&mut url, start as u64);
    match query {
        Some(q) => {
            if q.as_str().is_empty() {
            } else {
                url.append("&query=");
                url.append(url_encode(q.as_str()).as_str());
            }
        },
        None => {},
    }
    match appid {
        Some(a) => {
            if a.as_str().is_empty() {
            } else {
                url.append("&appid=");
                url.append(a.as_str());
            }
        },
        None => {},
    }
    url
}

/// The listing page of the item named `name` of the app `appid`.
pub open spec fn listing_url(appid: Seq<char>, name: Seq<char>) -> Seq<char> {
    "https://steamcommunity.com/market/listings/"@ + appid + "/"@ + url_encoded(name)
}

pub open spec fn opt_as_u64(o: Option<Json>) -> Option<nat> {
    match o {
        Some(j) => j.as_u64(),
        None => None,
    }
}

pub open spec fn opt_as_str(o: Option<Json>) -> Option<Seq<char>> {
    match o {
        Some(j) => j.as_str(),
        None => None,
    }
}

/// The item details with `market_url` added, where they hold a numeric `appid` and a
/// string `market_hash_name`.
pub open spec fn with_market_url(d: Seq<(Seq<char>, Json)>) -> Seq<(Seq<char>, Json)> {
    match (opt_as_u64(entries_get(d, "appid"@)), opt_as_str(entries_get(d, "market_hash_name"@))) {
        (Some(a), Some(n)) => entries_insert(d, "market_url"@, Json::Str(listing_url(decimal(a), n))),
        _ => d,
    }
}

/// One search result as the API gives it: `asset_description` renamed `item_details`, and,
/// where the details are an object, their image names made URLs and `market_url` added.
pub open spec fn search_item(item: Json) -> Json {
    match item {
        Json::Object(e) => {
            let e1 = match entries_get(e, "asset_description"@) {
                Some(a) => entries_insert(entries_remove(e, "asset_description"@), "item_details"@, a),
                None => e,
            };
            match entries_get(e1, "item_details"@) {
                Some(Json::Object(d)) => Json::Object(
                    entries_insert(
                        e1,
                        "item_details"@,
                        Json::Object(with_market_url(icon_urls_processed(d))),
                    ),
                ),
                _ => Json::Object(e1),
            }
        },
        _ => item,
    }
}

/// The page size that the search response states, or 0.
pub open spec fn search_page_size(json: Json) -> nat {
    match json.get("searchdata"@) {
        Some(sd) => match opt_as_u64(sd.get("pagesize"@)) {
            Some(n) => n,
            None => 0,
        },
        None => 0,
    }
}

/// The results of a search response, each made as `search_item` says; none where
/// `results` is no array.
pub open spec fn search_items(json: Json) -> Seq<Json> {
    match json.get("results"@) {
        Some(Json::Array(items)) => items.map_values(|i: Json| search_item(i)),
        _ => Seq::empty(),
    }
}

/// What a market search gives for the response `json`: an error unless `success` is
/// `true`, else the page size and the results.
pub open spec fn search_outcome(json: Json) -> Result<(nat, Seq<Json>), Seq<char>> {
    if json.get("success"@) != Some(Json::Bool(true)) {
        Err("Invalid request or unsuccessful response"@)
    } else {
        Ok((search_page_size(json), search_items(json)))
    }
}

fn add_market_url(d: &mut Vec<(String, JsonValue)>)
    ensures
        entries_model(final(d)@) == with_market_url(entries_model(old(d)@)),
{
    let appid = match entries_lookup(d, "appid") {
        Some(v) => v.as_u64(),
        None => None,
    };
    let name = match entries_lookup(d, "market_hash_name") {
        Some(v) => match v.as_str() {
            Some(s) => Some(url_encode(s.as_str())),
            None => None,
        },
        None => None,
    };
    match (appid, name) {
        (Some(a), Some(n)) => {
            let mut url = "https://steamcommunity.com/market/listings/".to_owned();
            push_decimal(&mut url, a);
            url.append("/");
            url.append(n.as_str());
            entries_put(d, "market_url".to_owned(), JsonValue::String(url));
        },
        _ => {},
    }
}

/// One search result as the API gives it.
pub fn process_search_item(item: JsonValue) -> (r: JsonValue)
    ensures
        r@ == search_item(item@),
        (item@ matches Json::Object(entries) && distinct_keys(entries)) ==> (r@ matches Json::Object(
            out,
        ) && distinct_keys(out)),
{
    match item {
        JsonValue::Object(mut e) => {
            proof {
                lemma_object_model(e);
            }
            let ghost e0 = entries_model(e@);
            match entries_take(&mut e, "asset_description") {
                Some(a) => entries_put(&mut e, "item_details".to_owned(), a),
                None => {},
            }
            let ghost e1 = entries_model(e@);
            match find_key(&e, "item_details") {
                Some(i) => {
                    let (k, d) = e.remove(i);
                    match d {
                        JsonValue::Object(mut de) => {
                            proof {
                                lemma_object_model(de);
                            }
                            process_icon_urls(&mut de);
                            add_market_url(&mut de);
                            let ghost dv = entries_model(de@);
                            e.insert(i, (k, JsonValue::Object(de)));
                            proof {
                                lemma_object_model(de);
                                assert(entries_model(e@) =~= e1.update(
                                    i as int,
                                    ("item_details"@, Json::Object(dv)),
                                ));
                                lemma_object_model(e);
                            }
                            JsonValue::Object(e)
                        },
                        other => {
                            e.insert(i, (k, other));
                            assert(entries_model(e@) =~= e1);
                            proof {
                                lemma_object_model(e);
                            }
                            JsonValue::Object(e)
                        },
                    }
                },
                None => {
                    proof {
                        lemma_object_model(e);
                    }
                    JsonValue::Object(e)
                },
            }
        },
        other => other,
    }
}

/// What a market search gives for the response `json`.
pub fn search_results(json: &JsonValue) -> (r: Result<(u64, Vec<JsonValue>), String>)
    ensures
        match r {
            Ok((n, items)) => search_outcome(json@) == Ok::<(nat, Seq<Json>), Seq<char>>(
                (n as nat, items_model(items@)),
            ),
            Err(e) => search_outcome(json@) == Err::<(nat, Seq<Json>), Seq<char>>(e@),
        },
{
    let ok = match json.get("success") {
        Some(JsonValue::Bool(b)) => *b,
        _ => false,
    };
    if !ok {
        return Err("Invalid request or unsuccessful response".to_owned());
    }
    let pagesize: u64 = match json.get("searchdata") {
        Some(sd) => match sd.get("pagesize") {
            Some(p) => match p.as_u64() {
                Some(n) => n,
                None => 0,
            },
            None => 0,
        },
        None => 0,
    };
    let mut out: Vec<JsonValue> = Vec::new();
    match json.get("results") {
        Some(JsonValue::Array(items)) => {
            proof {
                lemma_array_model(*items);
            }
            let ghost src = items_model(items@);
            let mut i: usize = 0;
            while i < items.len()
                invariant
                    i <= items@.len(),
                    src == items_model(items@),
                    out@.len() == i,
                    forall|k: int| 0 <= k < i ==> (#[trigger] out@[k])@ == search_item(src[k]),
                decreases items@.len() - i,
            {
                let item = items[i].deep_clone();
                out.push(process_search_item(item));
                i += 1;
            }
            assert(items_model(out@) =~= src.map_values(|j: Json| search_item(j)));
        },
        _ => {
            assert(items_model(out@) =~= Seq::<Json>::empty());
        },
    }
    Ok((pagesize, out))
}

// ---------------------------------------------------------------------------
// Market item
// ---------------------------------------------------------------------------

/// The listing page of an item, or an error where the app id or the name is empty.
pub open spec fn item_listing(appid: Seq<char>, name: Seq<char>) -> Result<Seq<char>, Seq<char>> {
    if appid.len() == 0 || name.len() == 0 {
        Err("Missing appid or marketname"@)
    } else {
        Ok("https://steamcommunity.com/market/listings/"@ + appid + "/"@ + url_encoded(name))
    }
}

/// The listing page of the item `marketname` of the app `appid`.
pub fn item_listing_url(appid: &str, marketname: &str) -> (r: Result<String, String>)
    ensures
        match r {
            Ok(u) => item_listing(appid@, marketname@) == Ok::<Seq<char>, Seq<char>>(u@),
            Err(e) => item_listing(appid@, marketname@) == Err::<Seq<char>, Seq<char>>(e@),
        },
{
    if appid.is_empty() || marketname.is_empty() {
        return Err("Missing appid or marketname".to_owned());
    }
    let mut url = "https://steamcommunity.com/market/listings/".to_owned();
    url.append(appid);
    url.append("/");
    url.append(url_encode(marketname).as_str());
    Ok(url)
}

/// The text of each `script` element of the page, in order (none where the selector
/// could not be used).
pub open spec fn script_texts(html: Seq<char>) -> Seq<Seq<char>> {
    if selector_error("script"@) is None {
        html_select(html, QuerySpec { selector: "script"@, attrs: Seq::empty() }).map_values(
            |e: ElementSpec| e.text,
        )
    } else {
        Seq::empty()
    }
}

/// The text between `g_rgAssets = ` and the next `;` in the first script that has both.
pub open spec fn assets_json(scripts: Seq<Seq<char>>) -> Option<Seq<char>>
    decreases scripts.len(),
{
    if scripts.len() == 0 {
        None
    } else {
        let t = scripts[0];
        match find(t, "g_rgAssets = "@) {
            Some(i) => {
                let start = i + "g_rgAssets = "@.len();
                match find_from(t, ";"@, start) {
                    Some(e) => Some(t.subrange(start, e)),
                    None => assets_json(scripts.drop_first()),
                }
            },
            None => assets_json(scripts.drop_first()),
        }
    }
}

/// The JSON text of the asset data on a listing page, or the error that there is none.
pub open spec fn listing_assets(html: Seq<char>) -> Result<Seq<char>, Seq<char>> {
    match assets_json(script_texts(html)) {
        Some(s) => Ok(s),
        None => Err("Asset information not found"@),
    }
}

/// Where one of the script texts has `g_rgAssets = ` with a `;` somewhere after it, asset data
/// is found.
pub proof fn lemma_assets_json_found(scripts: Seq<Seq<char>>, j: int, i: int, e: int)
    requires
        0 <= j < scripts.len(),
        occurs_at(scripts[j], "g_rgAssets = "@, i),
        occurs_at(scripts[j], ";"@, e),
        i + "g_rgAssets = "@.len() <= e,
    ensures
        assets_json(scripts) is Some,
    decreases scripts.len(),
{
    let t = scripts[0];
    let marker = "g_rgAssets = "@;
    if j == 0 {
        crate::text::lemma_least_occurrence(t, marker, 0, i);
        let i0 = find(t, marker)->0;
        lemma_find_from_some(t, marker, 0);
        assert(i0 <= i) by {
            if i < i0 {
                assert(occurs_at(t, marker, i));
            }
        }
        crate::text::lemma_least_occurrence(t, ";"@, i0 + marker.len(), e);
    } else {
        assert(scripts.drop_first()[j - 1] == scripts[j]);
        lemma_assets_json_found(scripts.drop_first(), j - 1, i, e);
    }
}

/// The asset data is looked for in every script element of the page, wherever it stands (in
/// the head or the body): where the text of any element that the selector `script` matches
/// has `g_rgAssets = ` with a `;` somewhere after it, the listing page has asset data.
pub proof fn lemma_assets_in_any_script(html: Seq<char>, j: int, i: int, e: int)
    requires
        selector_error("script"@) is None,
        0 <= j < html_select(html, QuerySpec { selector: "script"@, attrs: Seq::empty() }).len(),
        occurs_at(
            html_select(html, QuerySpec { selector: "script"@, attrs: Seq::empty() })[j].text,
            "g_rgAssets = "@,
            i,
        ),
        occurs_at(
            html_select(html, QuerySpec { selector: "script"@, attrs: Seq::empty() })[j].text,
            ";"@,
            e,
        ),
        i + "g_rgAssets = "@.len() <= e,
    ensures
        listing_assets(html) is Ok,
{
    let all = html_select(html, QuerySpec { selector: "script"@, attrs: Seq::empty() });
    let texts = script_texts(html);
    assert(texts[j] == all[j].text);
    lemma_assets_json_found(texts, j, i, e);
}

/// The JSON text of the asset data in the given script texts: after `g_rgAssets = ` and up
/// to the next `;`, in the first script that has both.
pub fn assets_json_of(scripts: &Vec<String>) -> (r: Option<String>)
    ensures
        opt_string_view(r) == assets_json(scripts@.map_values(|s: String| s@)),
{
    let ghost texts = scripts@.map_values(|s: String| s@);
    let marker = chars_of("g_rgAssets = ");
    let semicolon = chars_of(";");
    let mut k: usize = 0;
    assert(texts.skip(0) =~= texts);
    while k < scripts.len()
        invariant
            k <= scripts@.len(),
            texts == scripts@.map_values(|s: String| s@),
            marker@ == "g_rgAssets = "@,
            semicolon@ == ";"@,
            assets_json(texts) == assets_json(texts.skip(k as int)),
        decreases scripts@.len() - k,
    {
        let t = chars_of(scripts[k].as_str());
        let ghost rest = texts.skip(k as int);
        assert(rest[0] == t@);
        assert(rest.drop_first() =~= texts.skip(k + 1));
        match find_chars(t.as_slice(), marker.as_slice()) {
            Some(i) => {
                proof {
                    lemma_find_from_some(t@, marker@, 0);
                }
                assert(crate::text::occurs_at(t@, marker@, i as int));
                let tl: usize = t.len();
                let start: usize = i + marker.len();
                match find_chars_from(t.as_slice(), semicolon.as_slice(), start) {
                    Some(e) => {
                        proof {
                            lemma_find_from_some(t@, semicolon@, start as int);
                        }
                        assert(crate::text::occurs_at(t@, semicolon@, e as int));
                        assert(assets_json(rest) == Some(t@.subrange(start as int, e as int)));
                        return Some(substring(t.as_slice(), start, e));
                    },
                    None => {},
                }
            },
            None => {},
        }
        k += 1;
    }
    assert(texts.skip(k as int) =~= Seq::<Seq<char>>::empty());
    None
}

/// The JSON text of the asset data in the scripts of a listing page.
pub fn find_assets_json(html: &str) -> (r: Result<String, String>)
    ensures
        match r {
            Ok(s) => listing_assets(html@) == Ok::<Seq<char>, Seq<char>>(s@),
            Err(e) => listing_assets(html@) == Err::<Seq<char>, Seq<char>>(e@),
        },
{
    let scripts: Vec<Element> = match parse_selector("script") {
        Ok(sel) => {
            let doc = parse_html(html);
            let q = Query { selector: sel, attrs: Vec::new() };
            assert(q@.attrs =~= Seq::<Seq<char>>::empty());
            assert(q@ == QuerySpec { selector: "script"@, attrs: Seq::<Seq<char>>::empty() });
            select(&doc, &q)
        },
        Err(_) => Vec::new(),
    };
    let mut texts: Vec<String> = Vec::new();
    let mut k: usize = 0;
    while k < scripts.len()
        invariant
            k <= scripts@.len(),
            texts@.len() == k,
            forall|j: int| 0 <= j < k ==> (#[trigger] texts@[j])@ == scripts@[j].text@,
        decreases scripts@.len() - k,
    {
        texts.push(scripts[k].text.clone());
        k += 1;
    }
    assert(texts@.map_values(|s: String| s@) =~= script_texts(html@));
    match assets_json_of(&texts) {
        Some(s) => Ok(s),
        None => Err("Asset information not found".to_owned()),
    }
}

/// The value reached by going down, from the top, through objects of exactly one entry.
pub open spec fn descend(j: Json) -> Json
    decreases j,
{
    match j {
        Json::Object(e) => if e.len() == 1 {
            descend(e[0].1)
        } else {
            j
        },
        _ => j,
    }
}

/// The asset that a listing page describes: below the single-entry wrappers, the entry
/// named by the `id` string where there is one, as the page gives it.
pub open spec fn listing_asset(root: Json) -> Json {
    let cur = descend(root);
    match opt_as_str(cur.get("id"@)) {
        Some(id) => match cur.get(id) {
            Some(v) => v,
            None => cur,
        },
        None => cur,
    }
}

fn descend_value(v: JsonValue) -> (r: JsonValue)
    ensures
        r@ == descend(v@),
    decreases v,
{
    match v {
        JsonValue::Object(mut e) => {
            proof {
                lemma_object_model(e);
            }
            if e.len() == 1 {
                let ghost first = e@[0].1;
                assert(decreases_to!(v => first)) by {
                    assert(decreases_to!(v => v->Object_0));
                    assert(decreases_to!(v->Object_0 => v->Object_0@));
                    assert(decreases_to!(v->Object_0@ => v->Object_0@[0]));
                    assert(decreases_to!(v->Object_0@[0] => v->Object_0@[0].1));
                }
                match e.pop() {
                    Some((_, inner)) => descend_value(inner),
                    None => JsonValue::Null,
                }
            } else {
                JsonValue::Object(e)
            }
        },
        other => other,
    }
}

/// The asset that a listing page's asset data describes.
pub fn select_asset(root: JsonValue) -> (r: JsonValue)
    ensures
        r@ == listing_asset(root@),
{
    let cur = descend_value(root);
    let id: Option<String> = match cur.get("id") {
        Some(v) => match v.as_str() {
            Some(s) => Some(s.clone()),
            None => None,
        },
        None => None,
    };
    match id {
        Some(id) => match cur {
            JsonValue::Object(mut e) => {
                proof {
                    lemma_object_model(e);
                }
                match entries_take(&mut e, id.as_str()) {
                    Some(v) => v,
                    None => {
                        proof {
                            lemma_object_model(e);
                        }
                        JsonValue::Object(e)
                    },
                }
            },
            other => other,
        },
        None => cur,
    }
}


/// A search result whose asset description holds a numeric `appid` and a string
/// `market_hash_name` comes out with its details under `item_details`, where `market_url`
/// is the listing page of that item.
pub proof fn lemma_search_item_market_url(e: Seq<(Seq<char>, Json)>, d: Seq<(Seq<char>, Json)>, a: nat, n: Seq<char>)
    requires
        entries_get(e, "asset_description"@) == Some(Json::Object(d)),
        opt_as_u64(entries_get(d, "appid"@)) == Some(a),
        opt_as_str(entries_get(d, "market_hash_name"@)) == Some(n),
    ensures
        search_item(Json::Object(e)) matches Json::Object(r) && entries_get(r, "item_details"@)
            matches Some(Json::Object(dd)) && entries_get(dd, "market_url"@) == Some(
            Json::Str(listing_url(decimal(a), n)),
        ),
{
    reveal_strlit("appid");
    reveal_strlit("market_hash_name");
    reveal_strlit("icon_url");
    reveal_strlit("icon_url_large");
    let e1 = entries_insert(entries_remove(e, "asset_description"@), "item_details"@, Json::Object(d));
    crate::json::lemma_get_insert_same(entries_remove(e, "asset_description"@), "item_details"@, Json::Object(d));
    assert(entries_get(e1, "item_details"@) == Some(Json::Object(d)));
    let d1 = with_icon_url(d, "icon_url"@);
    let d2 = with_icon_url(d1, "icon_url_large"@);
    assert("appid"@ != "icon_url"@ && "appid"@ != "icon_url_large"@) by {
        assert("appid"@.len() != "icon_url"@.len());
        assert("appid"@.len() != "icon_url_large"@.len());
    }
    assert("market_hash_name"@ != "icon_url"@ && "market_hash_name"@ != "icon_url_large"@) by {
        assert("market_hash_name"@.len() != "icon_url"@.len());
        assert("market_hash_name"@.len() != "icon_url_large"@.len());
    }
    match entries_get(d, "icon_url"@) {
        Some(Json::Str(s)) => {
            crate::json::lemma_get_insert_other(d, "icon_url"@, Json::Str(icon_url(s)), "appid"@);
            crate::json::lemma_get_insert_other(d, "icon_url"@, Json::Str(icon_url(s)), "market_hash_name"@);
        },
        _ => {},
    }
    match entries_get(d1, "icon_url_large"@) {
        Some(Json::Str(s)) => {
            crate::json::lemma_get_insert_other(d1, "icon_url_large"@, Json::Str(icon_url(s)), "appid"@);
            crate::json::lemma_get_insert_other(d1, "icon_url_large"@, Json::Str(icon_url(s)), "market_hash_name"@);
        },
        _ => {},
    }
    assert(entries_get(d2, "appid"@) == entries_get(d, "appid"@));
    assert(entries_get(d2, "market_hash_name"@) == entries_get(d, "market_hash_name"@));
    assert(icon_urls_processed(d) == d2);
    let d3 = with_market_url(d2);
    crate::json::lemma_get_insert_same(d2, "market_url"@, Json::Str(listing_url(decimal(a), n)));
    crate::json::lemma_get_insert_same(e1, "item_details"@, Json::Object(d3));
}

} // verus!
