use m3u_filter::json_utils::{
    get_i64_from_serde_value, get_string_from_serde_value, get_u32_from_serde_value,
    get_u64_from_serde_value, json_object_get, opt_string_or_number_u32, string_default_on_null,
    string_or_number_u32, JsonNumber, JsonValue,
};
use m3u_filter::playlist::{PlaylistItem, PlaylistItemHeader, PlaylistItemType, XtreamCluster};
use m3u_filter::xtream::{
    extract_info_record_from_vod_info, info_content_wal_bytes, should_update_info,
    should_update_vod_info, vod_info_record_wal_bytes, InputVodInfoRecord,
};
use std::collections::HashMap;

fn s(v: &str) -> JsonValue {
    JsonValue::String(v.to_string())
}

fn obj(entries: Vec<(&str, JsonValue)>) -> JsonValue {
    JsonValue::Object(entries.into_iter().map(|(k, v)| (k.to_string(), v)).collect())
}

#[test]
fn numbers_from_values() {
    assert_eq!(get_u64_from_serde_value(&JsonValue::Number(JsonNumber::PosInt(42))), Some(42));
    assert_eq!(get_u64_from_serde_value(&JsonValue::Number(JsonNumber::NegInt(-1))), None);
    assert_eq!(get_u64_from_serde_value(&JsonValue::Number(JsonNumber::Float)), None);
    assert_eq!(get_u64_from_serde_value(&s("17")), Some(17));
    assert_eq!(get_u64_from_serde_value(&s("x")), None);
    assert_eq!(get_u64_from_serde_value(&JsonValue::Null), None);
    assert_eq!(get_i64_from_serde_value(&s("-17")), Some(-17));
    assert_eq!(get_i64_from_serde_value(&s("-9223372036854775808")), Some(i64::MIN));
    assert_eq!(get_i64_from_serde_value(&s("9223372036854775808")), None);
    assert_eq!(get_i64_from_serde_value(&JsonValue::Number(JsonNumber::PosInt(u64::MAX))), None);
    assert_eq!(get_u32_from_serde_value(&s("4294967295")), Some(u32::MAX));
    assert_eq!(get_u32_from_serde_value(&s("4294967296")), None);
}

#[test]
fn strings_from_values() {
    assert_eq!(get_string_from_serde_value(&JsonValue::Number(JsonNumber::NegInt(-5))), Some("-5".to_string()));
    assert_eq!(get_string_from_serde_value(&JsonValue::Number(JsonNumber::PosInt(120))), Some("120".to_string()));
    assert_eq!(get_string_from_serde_value(&s("")), None);
    assert_eq!(get_string_from_serde_value(&s("abc")), Some("abc".to_string()));
    assert_eq!(get_string_from_serde_value(&JsonValue::Bool(true)), None);
    assert_eq!(string_default_on_null(None), "");
    assert_eq!(string_default_on_null(Some("v".to_string())), "v");
}

#[test]
fn lenient_u32_readers() {
    assert_eq!(string_or_number_u32(&JsonValue::Null), Ok(0));
    assert_eq!(string_or_number_u32(&JsonValue::Number(JsonNumber::PosInt(7))), Ok(7));
    assert_eq!(
        string_or_number_u32(&JsonValue::Number(JsonNumber::PosInt(1 << 40))),
        Err("Number out of range for u32".to_string())
    );
    assert_eq!(string_or_number_u32(&JsonValue::Number(JsonNumber::Float)), Err("Invalid number".to_string()));
    assert_eq!(string_or_number_u32(&s("12")), Ok(12));
    assert_eq!(string_or_number_u32(&s("1x")), Err("Invalid string number".to_string()));
    assert_eq!(string_or_number_u32(&JsonValue::Bool(false)), Err("Expected number or string".to_string()));
    assert_eq!(opt_string_or_number_u32(&JsonValue::Null), Ok(None));
    assert_eq!(opt_string_or_number_u32(&s("3")), Ok(Some(3)));
    assert_eq!(
        opt_string_or_number_u32(&JsonValue::Array(vec![])),
        Err("Expected number, string, or null".to_string())
    );
}

#[test]
fn object_lookup() {
    let o = vec![("a".to_string(), s("1")), ("b".to_string(), s("2"))];
    assert!(matches!(json_object_get(&o, "b"), Some(JsonValue::String(v)) if v == "2"));
    assert!(json_object_get(&o, "c").is_none());
}

#[test]
fn vod_info_extraction() {
    let doc = obj(vec![
        ("info", obj(vec![("tmdb_id", s("603"))])),
        ("movie_data", obj(vec![("stream_id", JsonValue::Number(JsonNumber::PosInt(77))), ("added", s("1700000000"))])),
    ]);
    assert_eq!(
        extract_info_record_from_vod_info(&doc),
        Some((77, InputVodInfoRecord { tmdb_id: 603, ts: 1_700_000_000 }))
    );
    // info present but not an object: tmdb id 0; no added: ts 0
    let doc = obj(vec![
        ("info", JsonValue::Array(vec![])),
        ("movie_data", obj(vec![("stream_id", s("5"))])),
    ]);
    assert_eq!(extract_info_record_from_vod_info(&doc), Some((5, InputVodInfoRecord { tmdb_id: 0, ts: 0 })));
    // info missing
    let doc = obj(vec![("movie_data", obj(vec![("stream_id", s("5"))]))]);
    assert_eq!(extract_info_record_from_vod_info(&doc), None);
    // stream id unreadable
    let doc = obj(vec![("info", obj(vec![])), ("movie_data", obj(vec![("stream_id", s("x"))]))]);
    assert_eq!(extract_info_record_from_vod_info(&doc), None);
    assert_eq!(extract_info_record_from_vod_info(&JsonValue::Null), None);
}

#[test]
fn wal_record_bytes() {
    let bytes = vod_info_record_wal_bytes(1, &InputVodInfoRecord { tmdb_id: 2, ts: 0x0102_0304_0506_0708 });
    assert_eq!(bytes, vec![1, 0, 0, 0, 2, 0, 0, 0, 8, 7, 6, 5, 4, 3, 2, 1]);
    assert_eq!(info_content_wal_bytes(9, ""), Some(vec![]));
    assert_eq!(info_content_wal_bytes(9, "hé"), Some(vec![9, 0, 0, 0, 3, 0, 0, 0, b'h', 0xC3, 0xA9]));
}

fn item(id: &str, added: Option<JsonValue>) -> PlaylistItem {
    PlaylistItem {
        header: PlaylistItemHeader {
            id: id.to_string(),
            uuid: 1,
            name: String::new(),
            chno: String::new(),
            group: String::new(),
            title: String::new(),
            url: String::new(),
            xtream_cluster: XtreamCluster::Video,
            item_type: PlaylistItemType::Video,
            virtual_id: 0,
            additional_properties: added.map(|v| obj(vec![("added", v)])),
        },
    }
}

#[test]
fn info_update_decisions() {
    let mut processed: HashMap<u32, u64> = HashMap::new();
    assert_eq!(should_update_info(&item("x", None), &processed, "added"), (false, 0, 0));
    let it = item("12", Some(s("100")));
    assert_eq!(should_update_vod_info(&it, &processed), (true, 12, 100));
    processed.insert(12, 100);
    assert_eq!(should_update_vod_info(&it, &processed), (false, 12, 100));
    processed.insert(12, 99);
    assert_eq!(should_update_vod_info(&it, &processed), (true, 12, 100));
    assert_eq!(should_update_vod_info(&item("12", None), &processed), (true, 12, 0));
}
