use crowbar::json::JsonValue;
use crowbar::market::{
    find_assets_json, item_listing_url, make_icon_url, market_search_url_for, process_icon_urls,
    process_search_item, search_results, select_asset,
};
use serde_json::Value;

fn to_lib(v: Value) -> JsonValue {
    match v {
        Value::Null => JsonValue::Null,
        Value::Bool(b) => JsonValue::Bool(b),
        Value::Number(n) => JsonValue::Number(n.to_string()),
        Value::String(s) => JsonValue::String(s),
        Value::Array(a) => JsonValue::Array(a.into_iter().map(to_lib).collect()),
        Value::Object(m) => JsonValue::Object(m.into_iter().map(|(k, v)| (k, to_lib(v))).collect()),
    }
}

fn to_value(v: &JsonValue) -> Value {
    match v {
        JsonValue::Null => Value::Null,
        JsonValue::Bool(b) => Value::Bool(*b),
        JsonValue::Number(t) => Value::Number(t.parse().unwrap()),
        JsonValue::String(s) => Value::String(s.clone()),
        JsonValue::Array(a) => Value::Array(a.iter().map(to_value).collect()),
        JsonValue::Object(e) => Value::Object(e.iter().map(|(k, v)| (k.clone(), to_value(v))).collect()),
    }
}

fn js(t: &str) -> JsonValue {
    to_lib(serde_json::from_str(t).unwrap())
}

fn same(a: &JsonValue, expected: &str) {
    assert_eq!(to_value(a), serde_json::from_str::<Value>(expected).unwrap());
}

const IMG: &str = "https://community.fastly.steamstatic.com/economy/image/";

#[test]
fn icon_url_prefixes_the_image_name() {
    assert_eq!(make_icon_url("abc"), format!("{}abc", IMG));
    assert_eq!(make_icon_url(""), IMG);
}

#[test]
fn icon_urls_become_full_urls() {
    let mut e = match js(r#"{"icon_url":"a","icon_url_large":"b","name":"n"}"#) {
        JsonValue::Object(e) => e,
        _ => unreachable!(),
    };
    process_icon_urls(&mut e);
    same(
        &JsonValue::Object(e),
        &format!(r#"{{"icon_url":"{0}a","icon_url_large":"{0}b","name":"n"}}"#, IMG),
    );
}

#[test]
fn icon_urls_that_are_no_strings_stay() {
    let mut e = match js(r#"{"icon_url":5}"#) {
        JsonValue::Object(e) => e,
        _ => unreachable!(),
    };
    process_icon_urls(&mut e);
    same(&JsonValue::Object(e), r#"{"icon_url":5}"#);
}

#[test]
fn market_search_url_defaults() {
    assert_eq!(
        market_search_url_for(&None, &None, &None, None),
        "https://steamcommunity.com/market/search/render/?count=10&norender=1&sort=default_desc&start=0"
    );
}

#[test]
fn market_search_url_with_all_parameters() {
    assert_eq!(
        market_search_url_for(
            &Some("730".to_string()),
            &Some("ak 47|é".to_string()),
            &Some("price_asc".to_string()),
            Some(3)
        ),
        "https://steamcommunity.com/market/search/render/?count=10&norender=1&sort=price_asc&start=20&query=ak%2047%7C%C3%A9&appid=730"
    );
}

#[test]
fn market_search_url_skips_empty_query_and_appid() {
    assert_eq!(
        market_search_url_for(&Some(String::new()), &Some(String::new()), &None, Some(1)),
        "https://steamcommunity.com/market/search/render/?count=10&norender=1&sort=default_desc&start=0"
    );
}

#[test]
fn search_results_rename_details_and_add_market_url() {
    let resp = js(r#"{"success":true,"searchdata":{"pagesize":10},"results":[
        {"name":"A","asset_description":{"appid":730,"market_hash_name":"AK-47 | Redline (Field-Tested)","icon_url":"abc"}},
        {"name":"B"}]}"#);
    let (size, items) = search_results(&resp).unwrap();
    assert_eq!(size, 10);
    assert_eq!(items.len(), 2);
    same(
        &items[0],
        &format!(
            r#"{{"name":"A","item_details":{{"appid":730,"market_hash_name":"AK-47 | Redline (Field-Tested)","icon_url":"{}abc","market_url":"https://steamcommunity.com/market/listings/730/AK-47%20%7C%20Redline%20%28Field-Tested%29"}}}}"#,
            IMG
        ),
    );
    same(&items[1], r#"{"name":"B"}"#);
}

#[test]
fn search_results_refuse_unsuccessful_responses() {
    assert_eq!(
        search_results(&js(r#"{"success":false,"results":[]}"#)).unwrap_err(),
        "Invalid request or unsuccessful response"
    );
    assert_eq!(
        search_results(&js(r#"{"results":[]}"#)).unwrap_err(),
        "Invalid request or unsuccessful response"
    );
}

#[test]
fn search_results_default_page_size_and_results() {
    let (size, items) = search_results(&js(r#"{"success":true,"results":{}}"#)).unwrap();
    assert_eq!(size, 0);
    assert!(items.is_empty());
}

#[test]
fn search_item_without_numeric_appid_gets_no_market_url() {
    let item = process_search_item(js(r#"{"asset_description":{"appid":"730","market_hash_name":"x"}}"#));
    same(&item, r#"{"item_details":{"appid":"730","market_hash_name":"x"}}"#);
}

#[test]
fn item_listing_url_needs_both_parts() {
    assert_eq!(item_listing_url("", "x").unwrap_err(), "Missing appid or marketname");
    assert_eq!(item_listing_url("730", "").unwrap_err(), "Missing appid or marketname");
    assert_eq!(
        item_listing_url("252490", "Heat Seeker Mp5").unwrap(),
        "https://steamcommunity.com/market/listings/252490/Heat%20Seeker%20Mp5"
    );
}

#[test]
fn assets_json_is_cut_from_the_first_complete_script() {
    let html = r#"<html><head><script>var x = 1</script><script>var g_rgAssets = {"730":1</script>
        <script>var g_rgAssets = {"730":{"2":{"5":{"id":"5"}}}};
        var other = 2;</script></head><body></body></html>"#;
    assert_eq!(find_assets_json(html).unwrap(), r#"{"730":{"2":{"5":{"id":"5"}}}}"#);
}

#[test]
fn assets_json_missing() {
    assert_eq!(
        find_assets_json("<html><script>var a = 1;</script></html>").unwrap_err(),
        "Asset information not found"
    );
}

#[test]
fn asset_is_found_below_single_entry_wrappers() {
    let root = js(r#"{"730":{"2":{"123":{"id":"123","icon_url":"i","name":"n"}}}}"#);
    same(&select_asset(root), r#"{"id":"123","icon_url":"i","name":"n"}"#);
}

#[test]
fn asset_is_picked_by_its_id() {
    let root = js(r#"{"id":"x","x":{"icon_url_large":"p"},"y":1}"#);
    same(&select_asset(root), r#"{"icon_url_large":"p"}"#);
}

#[test]
fn asset_without_id_is_the_whole_object() {
    let root = js(r#"{"a":1,"b":2}"#);
    same(&select_asset(root), r#"{"a":1,"b":2}"#);
    same(&select_asset(js("[1]")), "[1]");
}

#[test]
fn assets_json_of_script_texts() {
    let scripts = vec![
        "var a = 1;".to_string(),
        "g_rgAssets = [1]".to_string(),
        "x; g_rgAssets = {\"a\":1}; y".to_string(),
    ];
    assert_eq!(crowbar::market::assets_json_of(&scripts).as_deref(), Some("{\"a\":1}"));
    assert_eq!(crowbar::market::assets_json_of(&vec![]), None);
}

#[test]
fn market_url_of_documented_sticker() {
    let item = process_search_item(js(
        r#"{"name":"Sticker | Hello AK-47","asset_description":{"appid":730,"market_hash_name":"Sticker | Hello AK-47","icon_url":"i0CoZ81Ui0m"}}"#,
    ));
    same(
        &item,
        r#"{"name":"Sticker | Hello AK-47","item_details":{"appid":730,"market_hash_name":"Sticker | Hello AK-47",
            "icon_url":"https://community.fastly.steamstatic.com/economy/image/i0CoZ81Ui0m",
            "market_url":"https://steamcommunity.com/market/listings/730/Sticker%20%7C%20Hello%20AK-47"}}"#,
    );
}

#[test]
fn unreserved_names_are_written_as_they_are() {
    assert_eq!(
        item_listing_url("730", "AK-47_x.y~Z9").unwrap(),
        "https://steamcommunity.com/market/listings/730/AK-47_x.y~Z9"
    );
    let url = item_listing_url("1", "a/b?c=d é").unwrap();
    assert!(url["https://steamcommunity.com/market/listings/1/".len()..]
        .chars()
        .all(|c| c.is_ascii_alphanumeric() || "-._~%".contains(c)));
}
