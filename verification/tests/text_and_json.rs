use crowbar::json::JsonValue;
use crowbar::text::{
    chars_of, contains_chars, decimal_string, find_chars, find_chars_from, parse_u16, parse_u32,
    parse_u64,
};
use crowbar::json::{entries_put, entries_take, find_key};
use crowbar::encoding::build_cache_key;

fn cs(s: &str) -> Vec<char> {
    s.chars().collect()
}

#[test]
fn parse_u64_reads_plain_and_signed_digits() {
    assert_eq!(parse_u64(&cs("123")), Some(123));
    assert_eq!(parse_u64(&cs("+5")), Some(5));
    assert_eq!(parse_u64(&cs("0")), Some(0));
    assert_eq!(parse_u64(&cs("18446744073709551615")), Some(u64::MAX));
}

#[test]
fn parse_u64_refuses_what_std_refuses() {
    assert_eq!(parse_u64(&cs("")), None);
    assert_eq!(parse_u64(&cs("+")), None);
    assert_eq!(parse_u64(&cs("-1")), None);
    assert_eq!(parse_u64(&cs("12a")), None);
    assert_eq!(parse_u64(&cs(" 1")), None);
    assert_eq!(parse_u64(&cs("18446744073709551616")), None);
}

#[test]
fn parse_narrow_types_check_range() {
    assert_eq!(parse_u32(&cs("4294967295")), Some(u32::MAX));
    assert_eq!(parse_u32(&cs("4294967296")), None);
    assert_eq!(parse_u16(&cs("65535")), Some(65535));
    assert_eq!(parse_u16(&cs("65536")), None);
}

#[test]
fn decimal_string_writes_base_ten() {
    assert_eq!(decimal_string(0), "0");
    assert_eq!(decimal_string(7), "7");
    assert_eq!(decimal_string(1234567890), "1234567890");
    assert_eq!(decimal_string(u64::MAX), "18446744073709551615");
}

#[test]
fn decimal_then_parse_is_identity() {
    for n in [0u64, 1, 9, 10, 99, 100, 65535, 4294967296, u64::MAX] {
        assert_eq!(parse_u64(&chars_of(&decimal_string(n))), Some(n));
    }
}

#[test]
fn find_gives_first_occurrence() {
    let h = cs("abcabc");
    assert_eq!(find_chars(&h, &cs("bc")), Some(1));
    assert_eq!(find_chars_from(&h, &cs("bc"), 2), Some(4));
    assert_eq!(find_chars_from(&h, &cs("bc"), 5), None);
    assert_eq!(find_chars(&h, &cs("")), Some(0));
    assert_eq!(find_chars(&h, &cs("x")), None);
    assert!(contains_chars(&cs("platform_img win"), &cs("win")));
    assert!(!contains_chars(&cs("platform_img mac"), &cs("linux")));
}

#[test]
fn cache_key_is_prefix_and_sha256_hex() {
    let k = build_cache_key("p", "abc");
    assert_eq!(k, "p:ba7816bf8f01cfea414140de5dae2223b00361a396177a9cb410ff61f20015ad");
}

#[test]
fn cache_keys_under_other_prefixes_differ() {
    let a = build_cache_key("market_item_cache", "{}");
    let b = build_cache_key("market_search_cache", "{}");
    assert_ne!(a, b);
    assert_eq!(a.len(), "market_item_cache".len() + 65);
    assert!(a[18..].chars().all(|c| c.is_ascii_hexdigit() && !c.is_ascii_uppercase()));
}

#[test]
fn cache_key_depends_on_payload() {
    assert_ne!(build_cache_key("apps_cache", "{\"query\":\"a\"}"), build_cache_key("apps_cache", "{\"query\":\"b\"}"));
    assert_eq!(build_cache_key("apps_cache", "x"), build_cache_key("apps_cache", "x"));
}

#[test]
fn object_entries_behave_as_a_map() {
    let mut e: Vec<(String, JsonValue)> = Vec::new();
    entries_put(&mut e, "a".to_string(), JsonValue::from_u64(1));
    entries_put(&mut e, "b".to_string(), JsonValue::from_u64(2));
    entries_put(&mut e, "a".to_string(), JsonValue::from_u64(3));
    assert_eq!(e.len(), 2);
    assert_eq!(find_key(&e, "a"), Some(0));
    assert_eq!(e[0].1, JsonValue::Number("3".to_string()));
    assert_eq!(entries_take(&mut e, "a"), Some(JsonValue::Number("3".to_string())));
    assert_eq!(entries_take(&mut e, "a"), None);
    assert_eq!(find_key(&e, "b"), Some(0));
}

#[test]
fn json_reads_numbers_like_serde() {
    assert_eq!(JsonValue::Number("42".to_string()).as_u64(), Some(42));
    assert_eq!(JsonValue::Number("-4".to_string()).as_u64(), None);
    assert_eq!(JsonValue::Number("4.0".to_string()).as_u64(), None);
    assert_eq!(JsonValue::Number("1e5".to_string()).as_u64(), None);
    assert_eq!(JsonValue::String("42".to_string()).as_u64(), None);
    assert_eq!(JsonValue::from_u64(9).as_u64(), Some(9));
}

#[test]
fn json_get_reads_objects_only() {
    let v = JsonValue::Object(vec![("k".to_string(), JsonValue::Bool(true))]);
    assert_eq!(v.get("k"), Some(&JsonValue::Bool(true)));
    assert_eq!(v.get("z"), None);
    assert_eq!(JsonValue::Array(vec![]).get("k"), None);
    assert_eq!(v.deep_clone(), v);
}

#[test]
fn cache_key_from_digest_writes_lower_hex() {
    assert_eq!(
        crowbar::encoding::cache_key_from_digest("k", &[0x00, 0xab, 0x0f, 0xff]),
        "k:00ab0fff"
    );
}
