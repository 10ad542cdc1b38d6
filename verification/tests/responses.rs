use crowbar::cache::{search_entry, value_entry};
use crowbar::config::{port_from, redis_url_from};
use crowbar::json::JsonValue;
use crowbar::maps::{steamdeck_category_name, steamdeck_compatibility_map};
use crowbar::response::{
    app_response, apps_response, count_results, index, item_missing_response, item_response,
    item_target, search_response, too_many_requests, ApiResponse, Lookup, SearchPage,
};

fn ts() -> String {
    "2025-07-25T12:00:00Z".to_string()
}

#[test]
fn api_response_states_the_version() {
    let r: ApiResponse<u8> = ApiResponse::new(201, true, "m".to_string(), Some(3), Some(7), ts(), None);
    assert_eq!(r.apiversion, "v0.0.1cb");
    assert_eq!(r.code, 201);
    assert!(r.success);
    assert_eq!(r.message, "m");
    assert_eq!(r.size, Some(3));
    assert_eq!(r.data, Some(7));
    assert_eq!(r.timestamp, ts());
    assert_eq!(r.error, None);
}

#[test]
fn search_answers_from_cache_and_fetch() {
    let page = || SearchPage { size: 10, results: vec![JsonValue::Bool(true)] };
    let c = search_response(Lookup::Cached(page()), ts());
    let f = search_response(Lookup::Fetched(Ok(page())), ts());
    assert_eq!((c.code, c.success, c.message.as_str()), (200, true, "OK (cache)"));
    assert_eq!((f.code, f.success, f.message.as_str()), (200, true, "OK"));
    assert_eq!(c.size, Some(10));
    assert_eq!(c.data, f.data);
    assert_eq!(c.data, Some(JsonValue::Array(vec![JsonValue::Bool(true)])));
}

#[test]
fn search_answers_fetch_errors() {
    let e = search_response(Lookup::Fetched(Err("boom".to_string())), ts());
    assert_eq!((e.code, e.success), (500, false));
    assert_eq!(e.message, "Error fetching search results");
    assert_eq!(e.data, None);
    assert_eq!(e.size, None);
    assert_eq!(e.error.as_deref(), Some("boom"));
}

#[test]
fn item_request_needs_both_parts() {
    assert_eq!(item_target(Some("730"), Some("x")), Some(("730", "x")));
    assert_eq!(item_target(Some(""), Some("x")), None);
    assert_eq!(item_target(None, Some("x")), None);
    assert_eq!(item_target(Some("730"), None), None);
    let m = item_missing_response(ts());
    assert_eq!((m.code, m.success), (400, false));
    assert_eq!(m.message, "Missing appid or marketname");
    assert_eq!(m.error.as_deref(), Some("appid or marketname missing"));
}

#[test]
fn item_answers() {
    let ok = item_response(Lookup::Fetched(Ok(JsonValue::Null)), ts());
    assert_eq!((ok.code, ok.message.as_str(), ok.size), (200, "OK", None));
    let cached = item_response(Lookup::Cached(JsonValue::Null), ts());
    assert_eq!(cached.message, "OK (cache)");
    let err = item_response(Lookup::Fetched(Err("nope".to_string())), ts());
    assert_eq!((err.code, err.message.as_str()), (404, "Error fetching item"));
}

#[test]
fn apps_answers_count_results() {
    let list = || JsonValue::Array(vec![JsonValue::Null, JsonValue::Null, JsonValue::Null]);
    assert_eq!(count_results(&list()), 3);
    assert_eq!(count_results(&JsonValue::Null), 0);
    let r = apps_response(Lookup::Fetched(Ok(list())), ts());
    assert_eq!((r.code, r.size, r.message.as_str()), (200, Some(3), "OK"));
    let c = apps_response(Lookup::Cached(JsonValue::Bool(false)), ts());
    assert_eq!((c.size, c.message.as_str()), (Some(0), "OK (cache)"));
    let e = apps_response(Lookup::Fetched(Err("x".to_string())), ts());
    assert_eq!((e.code, e.message.as_str()), (500, "Error fetching apps"));
}

#[test]
fn app_answers_have_size_one() {
    let r = app_response(Lookup::Fetched(Ok(JsonValue::Null)), ts());
    assert_eq!((r.code, r.size), (200, Some(1)));
    let c = app_response(Lookup::Cached(JsonValue::Null), ts());
    assert_eq!((c.size, c.message.as_str()), (Some(1), "OK (cache)"));
    let e = app_response(Lookup::Fetched(Err("x".to_string())), ts());
    assert_eq!((e.code, e.size, e.message.as_str()), (500, None, "Error fetching app"));
}

#[test]
fn rate_limit_answer() {
    let r = too_many_requests(ts());
    assert_eq!((r.code, r.success), (429, false));
    assert_eq!(r.message, "Too Many Requests");
    assert_eq!(r.error.as_deref(), Some("Rate limit exceeded. Please try again later."));
    assert_eq!(r.data, None);
}

#[test]
fn root_greets() {
    assert_eq!(index(), "Hello World");
}

#[test]
fn port_setting() {
    assert_eq!(port_from(None), Some(8000));
    assert_eq!(port_from(Some("8080")), Some(8080));
    assert_eq!(port_from(Some("+80")), Some(80));
    assert_eq!(port_from(Some("abc")), None);
    assert_eq!(port_from(Some("70000")), None);
    assert_eq!(port_from(Some("")), None);
}

#[test]
fn redis_setting() {
    assert_eq!(redis_url_from(None), "redis://localhost:6379");
    assert_eq!(redis_url_from(Some("redis://cache:6379".to_string())), "redis://cache:6379");
}

#[test]
fn steamdeck_map_has_four_categories() {
    let m = steamdeck_compatibility_map();
    assert_eq!(m.len(), 4);
    assert_eq!(m[&0], "SteamDeckVerified_Category_Unknown");
    assert_eq!(m[&1], "SteamDeckVerified_Category_Unsupported");
    assert_eq!(m[&2], "SteamDeckVerified_Category_Playable");
    assert_eq!(m[&3], "SteamDeckVerified_Category_Verified");
    assert_eq!(steamdeck_category_name(3), Some("SteamDeckVerified_Category_Verified"));
    assert_eq!(steamdeck_category_name(4), None);
}

#[test]
fn fetched_page_is_stored_and_served_again_from_cache() {
    let outcome: Result<SearchPage, String> = Ok(SearchPage {
        size: 25,
        results: vec![JsonValue::String("a".to_string()), JsonValue::Null],
    });
    let first = search_response(Lookup::Fetched(Ok(SearchPage {
        size: 25,
        results: vec![JsonValue::String("a".to_string()), JsonValue::Null],
    })), ts());
    let entry = search_entry(&outcome).unwrap();
    assert_eq!(entry.size, 25);
    assert_eq!(entry.results, vec![JsonValue::String("a".to_string()), JsonValue::Null]);
    let second = search_response(Lookup::Cached(entry), "2025-07-25T12:01:00Z".to_string());
    assert_eq!((second.code, second.success, second.message.as_str()), (200, true, "OK (cache)"));
    assert_eq!(second.size, first.size);
    assert_eq!(second.data, first.data);
    assert_eq!(second.error, None);
}

#[test]
fn failed_fetches_store_nothing() {
    let failed: Result<SearchPage, String> = Err("boom".to_string());
    assert!(search_entry(&failed).is_none());
    assert!(value_entry(&Err("boom".to_string())).is_none());
    let v = JsonValue::Array(vec![JsonValue::Bool(false)]);
    assert_eq!(value_entry(&Ok(JsonValue::Array(vec![JsonValue::Bool(false)]))), Some(v));
}
