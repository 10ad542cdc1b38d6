use crowbar::json::JsonValue;
use crowbar::store::{
    app_details_url_for, app_outcome, app_page_url, apply_shared_labels, assemble_app,
    category_id, deck_category_key, discount_of, extract_shared_json, find_tags_text,
    player_count, player_count_url, price_num, scrape_app_page, store_results_of,
    store_search_url_for, transform_compat_items, AppPage,
};
use crowbar::text::trim_start_hashes;
use serde_json::Value;

fn to_lib(v: Value) -> JsonValue {
    match v {
        Value::Null => JsonValue::Null,
        Value::Bool(b) => JsonValue::Bool(b),
        Value::Number(n) => JsonValue::Number(n.to_string()),
        Value::String(s) => JsonValue::String(s),
        Value::Array(a) => JsonValue::Array(a.into_iter().map(to_lib).collect()),
        Value::Object(m) => JsonValue::Object(m.into_iter().map(|(k, v)| (k, to_lib(v))).collect()),
    }
}

fn to_value(v: &JsonValue) -> Value {
    match v {
        JsonValue::Null => Value::Null,
        JsonValue::Bool(b) => Value::Bool(*b),
        JsonValue::Number(t) => Value::Number(t.parse().unwrap()),
        JsonValue::String(s) => Value::String(s.clone()),
        JsonValue::Array(a) => Value::Array(a.iter().map(to_value).collect()),
        JsonValue::Object(e) => Value::Object(e.iter().map(|(k, v)| (k.clone(), to_value(v))).collect()),
    }
}

fn js(t: &str) -> JsonValue {
    to_lib(serde_json::from_str(t).unwrap())
}

fn same(a: &JsonValue, expected: &str) {
    assert_eq!(to_value(a), serde_json::from_str::<Value>(expected).unwrap());
}

fn cs(s: &str) -> Vec<char> {
    s.chars().collect()
}

#[test]
fn store_search_url_defaults() {
    assert_eq!(
        store_search_url_for(&None, None, None, &None, &None, &None),
        "https://store.steampowered.com/search/results/?norender=1&ignore_preferences=1&page=1&count=10"
    );
}

#[test]
fn store_search_url_with_all_parameters() {
    assert_eq!(
        store_search_url_for(
            &Some("Final Fantasy".to_string()),
            Some(2),
            Some(25),
            &Some("JP".to_string()),
            &Some("english".to_string()),
            &Some(vec![19, 492, 7])
        ),
        "https://store.steampowered.com/search/results/?norender=1&ignore_preferences=1&term=Final%20Fantasy&page=2&count=25&cc=JP&l=english&tags=19%2C492%2C7"
    );
}

#[test]
fn store_search_url_without_tags_when_list_is_empty() {
    assert_eq!(
        store_search_url_for(&Some(String::new()), None, None, &None, &None, &Some(vec![])),
        "https://store.steampowered.com/search/results/?norender=1&ignore_preferences=1&term=&page=1&count=10"
    );
}

#[test]
fn trim_hashes_only_at_start() {
    assert_eq!(trim_start_hashes("##abc#"), "abc#");
    assert_eq!(trim_start_hashes("abc"), "abc");
    assert_eq!(trim_start_hashes("###"), "");
}

#[test]
fn compat_items_rename_fields() {
    let items = js(r##"[{"display_type":3,"loc_token":"#SteamDeckVerified_TestResult_X"},{"loc_token":5},7]"##);
    let out = transform_compat_items(&items);
    same(
        &out,
        r#"[{"compatibility":3,"token":"SteamDeckVerified_TestResult_X"},{"token":""},7]"#,
    );
    same(&transform_compat_items(&js(r#"{"a":1}"#)), r#"{"a":1}"#);
}

#[test]
fn compat_items_twice_is_once() {
    let items = js(r###"[{"display_type":1,"loc_token":"##t"},{"x":2}]"###);
    let once = transform_compat_items(&items);
    let twice = transform_compat_items(&once);
    assert_eq!(to_value(&once), to_value(&twice));
}

#[test]
fn tags_text_is_the_balanced_array() {
    let html = r#"<script>InitAppTagModal( 730, [{"tagid":1,"name":"[x]"},{"tagid":2}], [1], 5 );</script>"#;
    assert_eq!(find_tags_text(&cs(html)).unwrap(), r#"[{"tagid":1,"name":"[x]"},{"tagid":2}]"#);
    let open = char::from(91u8);
    let unclosed = format!("InitAppTagModal( {}1, {}2", open, open);
    assert_eq!(find_tags_text(&cs(&unclosed)), None);
    assert_eq!(find_tags_text(&cs("no modal [1]")), None);
}

#[test]
fn shared_json_is_unescaped() {
    let q = char::from(39u8);
    let b = char::from(92u8);
    let text = format!(
        "x = JSON.parse({q}{{\"a\":\"it{b}{q}s\",\"b\":\"c{b}{b}d\"}}{q}) y",
        q = q,
        b = b
    );
    let want = format!("{{\"a\":\"it{q}s\",\"b\":\"c{b}d\"}}", q = q, b = b);
    assert_eq!(extract_shared_json(&text).unwrap(), want);
    assert_eq!(extract_shared_json(&format!("JSON.parse({}{{}}", q)), None);
    let ordered = format!("JSON.parse({q}{b}{b}{b}{q}x{q}) ", q = q, b = b);
    assert_eq!(extract_shared_json(&ordered).unwrap(), format!("{b}{q}x", q = q, b = b));
    assert_eq!(extract_shared_json("nothing"), None);
}

#[test]
fn shared_labels_fill_category_and_items() {
    let mut d = match js(r#"{"steamdeck_compatibility_items":[{"token":"T1"},{"token":"T2"},3],"steamos_resolved_items":[{"token":"T1"}],"x":1}"#) {
        JsonValue::Object(e) => e,
        _ => unreachable!(),
    };
    let shared = js(r#"{"SteamDeckVerified_Category_Verified":"Verified","T1":"Label one"}"#);
    apply_shared_labels(&mut d, "SteamDeckVerified_Category_Verified", &shared);
    same(
        &JsonValue::Object(d),
        r#"{"steamdeck_category":"Verified","steamdeck_compatibility_items":[{"token":"T1","label":"Label one"},{"token":"T2"},3],"steamos_resolved_items":[{"token":"T1","label":"Label one"}],"x":1}"#,
    );
}

#[test]
fn category_ids_from_links() {
    assert_eq!(category_id("https://store.steampowered.com/search/?category2=22&snr=1_5"), Some(22));
    assert_eq!(category_id("https://x/?category2=9"), Some(9));
    assert_eq!(category_id("https://x/?category2=ab"), None);
    assert_eq!(category_id("https://x/?category1=3"), None);
    assert_eq!(category_id("a?category2=4category2=5"), Some(4));
}

#[test]
fn price_numbers_are_the_digits() {
    assert_eq!(price_num("R$ 45,00"), Some(4500));
    assert_eq!(price_num("$0.99"), Some(99));
    assert_eq!(price_num("Free"), None);
    assert_eq!(price_num("99999999999999999999"), None);
}

#[test]
fn discount_values() {
    assert_eq!(discount_of(&Some("-25%".to_string())), 25);
    assert_eq!(discount_of(&Some("25%".to_string())), 0);
    assert_eq!(discount_of(&Some("-%".to_string())), 0);
    assert_eq!(discount_of(&None), 0);
}

#[test]
fn store_results_read_each_row() {
    let html = r#"<html><body><div id="search_resultsRows">
    <a class="search_result_row" data-ds-appid="1173770" href="https://store/app/1173770" data-ds-tagids="[4434,122]" data-ds-itemkey="App_1173770">
      <div class="search_capsule"><img src="https://img/capsule.jpg"></div>
      <span class="title">FINAL FANTASY</span>
      <div class="search_released">12 Aug, 2021</div>
      <span class="search_review_summary" data-tooltip-html="Very Positive"></span>
      <span class="platform_img win"></span><span class="platform_img mac linux"></span>
      <div class="discount_block" data-bundlediscount="0">
        <div class="discount_pct">-50%</div>
        <div class="discount_original_price">$20.00</div>
        <div class="discount_final_price">$10.00</div>
      </div>
    </a>
    <a class="search_result_row" href="https://store/sub/1">
      <span class="title">Bundle</span>
      <div class="discount_final_price">Free</div>
    </a>
    </div></body></html>"#;
    let out = store_results_of(html).unwrap();
    same(
        &out,
        r#"[{"appid":1173770,
             "img_large":"https://shared.fastly.steamstatic.com/store_item_assets/steam/apps/1173770/header.jpg",
             "cover":"https://cdn.cloudflare.steamstatic.com/steam/apps/1173770/library_600x900.jpg",
             "title":"FINAL FANTASY","url":"https://store/app/1173770","img":"https://img/capsule.jpg",
             "price_final":"$10.00","price_original":"$20.00","price_final_num":1000,"price_original_num":2000,
             "discount_pct":"-50%","discounted":true,"discount":50,"bundle_discount":"0",
             "released":"12 Aug, 2021","review":"Very Positive",
             "platforms":["windows","mac","linux"],
             "tags":"[4434,122]","descids":null,"crtrids":null,"itemkey":"App_1173770","steamdeck":null},
            {"title":"Bundle","url":"https://store/sub/1","img":null,
             "price_final":"Free","price_original":null,
             "discount_pct":"0%","discounted":false,"discount":0,"bundle_discount":null,
             "released":null,"review":null,
             "tags":null,"descids":null,"crtrids":null,"itemkey":null,"steamdeck":null}]"#,
    );
}

#[test]
fn store_row_without_original_price() {
    let html = r#"<a class="search_result_row"><span class="discount_final_price">R$45,00</span></a>"#;
    let out = store_results_of(html).unwrap();
    same(
        &out,
        r#"[{"title":"","url":null,"img":null,
             "price_final":"R$45,00","price_original":null,"price_final_num":4500,
             "discount_pct":"0%","discounted":false,"discount":0,"bundle_discount":null,
             "released":null,"review":null,
             "tags":null,"descids":null,"crtrids":null,"itemkey":null,"steamdeck":null}]"#,
    );
    let row = &to_value(&out)[0];
    assert!(row.get("appid").is_none());
    assert!(row.get("price_original_num").is_none());
}

#[test]
fn store_row_attributes_verbatim_or_null() {
    let html = r#"<a class="search_result_row" data-ds-tagids="[1]" data-ds-descids="[2,5]" data-ds-crtrids="[3]" data-ds-itemkey="Sub_9" data-ds-steam-deck-compat-handled="true"></a>"#;
    let out = to_value(&store_results_of(html).unwrap());
    assert_eq!(out[0]["tags"], "[1]");
    assert_eq!(out[0]["descids"], "[2,5]");
    assert_eq!(out[0]["crtrids"], "[3]");
    assert_eq!(out[0]["itemkey"], "Sub_9");
    assert_eq!(out[0]["steamdeck"], "true");
    let bare = to_value(&store_results_of(r#"<a class="search_result_row"></a>"#).unwrap());
    for k in ["tags", "descids", "crtrids", "itemkey", "steamdeck"] {
        assert_eq!(bare[0][k], Value::Null);
    }
}

#[test]
fn store_results_of_empty_page() {
    same(&store_results_of("<html></html>").unwrap(), "[]");
}

const PAGE: &str = r#"<html><body>
<input type="hidden" id="review_summary_num_positive_reviews" value="90">
<input type="hidden" id="review_summary_num_reviews" value="120">
<div id="application_config" data-deckcompatibility="{&quot;resolved_category&quot;:3,&quot;resolved_items&quot;:[{&quot;display_type&quot;:4,&quot;loc_token&quot;:&quot;#T1&quot;}]}"></div>
<div id="category_block">
  <div class="game_area_features_list_ctn">
    <a class="game_area_details_specs_ctn" href="https://store/search/?category2=2&amp;snr=1"><div class="icon"><img class="category_icon" src="https://icons/2.png"></div><div class="label">Single-player</div></a>
    <a class="game_area_details_specs_ctn" href="https://store/search/?tags=1"><div class="label">Other</div></a>
  </div>
</div>
<script>InitAppTagModal( 10, [{"tagid":1,"name":"FPS"}], [] );</script>
</body></html>"#;

#[test]
fn app_page_is_scraped() {
    let page = scrape_app_page(PAGE);
    assert_eq!(page.positive_reviews, Some(90));
    assert_eq!(page.total_reviews, Some(120));
    assert_eq!(
        page.deck_compatibility.as_deref(),
        Some(r##"{"resolved_category":3,"resolved_items":[{"display_type":4,"loc_token":"#T1"}]}"##)
    );
    assert_eq!(page.categories.len(), 2);
    same(&page.categories[0], r#"{"icon":"https://icons/2.png","category":2,"label":"Single-player"}"#);
    same(&page.categories[1], r#"{"icon":null,"category":null,"label":"Other"}"#);
    assert_eq!(page.tags_text.as_deref(), Some(r#"[{"tagid":1,"name":"FPS"}]"#));
}

#[test]
fn app_page_of_empty_text() {
    let page = scrape_app_page("");
    assert_eq!(page.positive_reviews, None);
    assert_eq!(page.deck_compatibility, None);
    assert!(page.categories.is_empty());
    assert_eq!(page.tags_text, None);
}

#[test]
fn app_urls() {
    assert_eq!(
        app_details_url_for(730, &Some("english".to_string()), &Some("US".to_string())),
        "https://store.steampowered.com/api/appdetails?appids=730&l=english&cc=US"
    );
    assert_eq!(app_details_url_for(10, &None, &None), "https://store.steampowered.com/api/appdetails?appids=10");
    assert_eq!(app_page_url(730), "https://store.steampowered.com/app/730");
    assert_eq!(
        player_count_url(730),
        "https://api.steampowered.com/ISteamUserStats/GetNumberOfCurrentPlayers/v1/?appid=730"
    );
}

#[test]
fn player_count_reads_the_response() {
    assert_eq!(player_count(&Some(js(r#"{"response":{"player_count":1234,"result":1}}"#))), Some(1234));
    assert_eq!(player_count(&Some(js(r#"{"response":{}}"#))), None);
    assert_eq!(player_count(&None), None);
}

#[test]
fn deck_category_key_cuts_to_eight_bits() {
    assert_eq!(deck_category_key(&Some(js(r#"{"resolved_category":3}"#))).as_deref(), Some("SteamDeckVerified_Category_Verified"));
    assert_eq!(deck_category_key(&Some(js(r#"{"resolved_category":258}"#))).as_deref(), Some("SteamDeckVerified_Category_Playable"));
    assert_eq!(deck_category_key(&Some(js(r#"{"resolved_category":7}"#))), None);
    assert_eq!(deck_category_key(&None), None);
}

#[test]
fn app_is_assembled_from_all_sources() {
    let details = js(r#"{"730":{"success":true,"data":{"name":"CS","categories":[{"id":2,"description":"Single-player"},{"id":9,"description":"Co-op"}]}}}"#);
    let page = scrape_app_page(PAGE);
    let deck = Some(js(page.deck_compatibility.as_deref().unwrap()));
    let tags = Some(js(page.tags_text.as_deref().unwrap()));
    let players = Some(js(r#"{"response":{"player_count":500}}"#));
    let pct = Some("75.00".to_string());
    let a = assemble_app(730, &None, &details, &page, &deck, &tags, &players, &pct);
    let (url, key) = a.labels.clone().unwrap();
    assert_eq!(
        url,
        "https://store.akamai.steamstatic.com/public/javascript/applications/store/shared_english-json.js"
    );
    assert_eq!(key, "SteamDeckVerified_Category_Verified");
    same(
        a.data.as_ref().unwrap(),
        r#"{"name":"CS",
            "steamdeck_compatibility_items":[{"compatibility":4,"token":"T1"}],
            "cover_image":"https://cdn.cloudflare.steamstatic.com/steam/apps/730/library_600x900.jpg",
            "positive_reviews":90,"total_reviews":120,"positive_reviews_percentage":"75.00",
            "current_players":500,
            "app_categories":[{"icon":"https://icons/2.png","category":2,"label":"Single-player","description":"Single-player"},
                              {"icon":null,"category":null,"label":"Other"}],
            "app_tags":[{"tagid":1,"name":"FPS"}],
            "steamdeck_compatibility":3}"#,
    );
}

#[test]
fn app_without_data_is_an_error() {
    let details = js(r#"{"730":{"success":false}}"#);
    let page = scrape_app_page("");
    let a = assemble_app(730, &None, &details, &page, &None, &None, &None, &None);
    assert!(a.data.is_none());
    assert!(a.labels.is_none());
    assert_eq!(app_outcome(a.data).unwrap_err(), "Malformed response from Steam");
}

#[test]
fn app_reviews_with_no_total_read_zero() {
    let details = js(r#"{"5":{"data":{}}}"#);
    let page = AppPage {
        positive_reviews: Some(0),
        total_reviews: Some(0),
        deck_compatibility: None,
        categories: vec![],
        tags_text: None,
    };
    let a = assemble_app(5, &Some("french".to_string()), &details, &page, &None, &None, &None, &Some("12.00".to_string()));
    assert!(a.labels.is_none());
    same(
        a.data.as_ref().unwrap(),
        r#"{"cover_image":"https://cdn.cloudflare.steamstatic.com/steam/apps/5/library_600x900.jpg",
            "positive_reviews":0,"total_reviews":0,"positive_reviews_percentage":"0.00",
            "current_players":null,"app_categories":[],"app_tags":[]}"#,
    );
}

use crowbar::html::Element;

fn element(text: &str, attrs: Vec<Option<&str>>) -> Element {
    Element { text: text.to_string(), attrs: attrs.into_iter().map(|a| a.map(String::from)).collect() }
}

#[test]
fn input_value_of_first_element() {
    assert_eq!(crowbar::store::input_value_of(&vec![element("", vec![Some("42")]), element("", vec![Some("7")])]), Some(42));
    assert_eq!(crowbar::store::input_value_of(&vec![element("", vec![None])]), None);
    assert_eq!(crowbar::store::input_value_of(&vec![element("", vec![Some("4x")])]), None);
    assert_eq!(crowbar::store::input_value_of(&vec![]), None);
}

#[test]
fn category_value_from_link_and_parts() {
    let link = element("", vec![Some("https://s/?category2=28&x=1")]);
    let parts = vec![vec![element("", vec![Some("https://i/28.png")])], vec![element("Full controller support", vec![])]];
    same(
        &crowbar::store::category_value(&link, &parts),
        r#"{"icon":"https://i/28.png","category":28,"label":"Full controller support"}"#,
    );
    same(&crowbar::store::category_value(&element("", vec![None]), &vec![]), r#"{"icon":null,"category":null,"label":null}"#);
}

#[test]
fn store_row_from_parts() {
    let row = element("", vec![Some("10"), None, None, None, None, None, Some("true")]);
    let out = crowbar::store::store_row_value(&row, &vec![]);
    same(
        &out,
        r#"{"appid":10,"img_large":"https://shared.fastly.steamstatic.com/store_item_assets/steam/apps/10/header.jpg",
            "cover":"https://cdn.cloudflare.steamstatic.com/steam/apps/10/library_600x900.jpg",
            "title":"","url":null,"img":null,"price_final":null,"price_original":null,
            "discount_pct":"0%","discounted":false,"discount":0,"bundle_discount":null,
            "released":null,"review":null,
            "tags":null,"descids":null,"crtrids":null,"itemkey":null,"steamdeck":"true"}"#,
    );
}
