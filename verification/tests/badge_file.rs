use herdr_badges::badge_file::{badges_from_file_bytes, file_badges_from_json};
use herdr_badges::json::{JsonMember, JsonValue};

#[test]
fn file_map_shape_parses() {
    let badges = badges_from_file_bytes(
        br##"{"pool":{"text":"LOCAL+CLOUD","color":"#89b4fa"},"branch":{"text":"dev","color":"green"}}"##,
    );
    assert_eq!(badges.len(), 2);
    let pool = badges.iter().find(|b| b.key == "pool").unwrap();
    assert_eq!(pool.badge.text, "LOCAL+CLOUD");
    assert_eq!(pool.badge.color, "#89b4fa");
}

#[test]
fn file_array_shape_parses() {
    let badges = badges_from_file_bytes(
        br#"[{"key":"a","text":"A","color":"red"},{"key":"b","text":"B","color":"blue"}]"#,
    );
    assert_eq!(badges.len(), 2);
}

#[test]
fn file_badges_key_shape_parses() {
    let badges = badges_from_file_bytes(br#"{"badges":[{"key":"x","text":"X","color":"cyan"}]}"#);
    assert_eq!(badges.len(), 1);
    assert_eq!(badges[0].key, "x");
}

#[test]
fn file_malformed_returns_empty() {
    let badges = badges_from_file_bytes(b"{not json");
    assert!(badges.is_empty());
}

#[test]
fn file_entry_missing_color_defaults_to_reset() {
    let badges = badges_from_file_bytes(br#"{"k":{"text":"T"}}"#);
    assert_eq!(badges.len(), 1);
    assert_eq!(badges[0].badge.color, "reset");
}

#[test]
fn file_entry_missing_text_is_dropped() {
    let badges = badges_from_file_bytes(br#"{"k":{"color":"red"}}"#);
    assert!(badges.is_empty());
}

#[test]
fn file_empty_key_is_dropped() {
    let badges = badges_from_file_bytes(br#"{"":{"text":"T","color":"red"}}"#);
    assert!(badges.is_empty());
}

#[test]
fn file_map_shape_comes_in_key_order() {
    let badges = badges_from_file_bytes(br#"{"zz":{"text":"Z"},"aa":{"text":"A"}}"#);
    let keys: Vec<&str> = badges.iter().map(|b| b.key.as_str()).collect();
    assert_eq!(keys, vec!["aa", "zz"]);
}

#[test]
fn file_map_shape_without_badges_falls_back_to_badges_array() {
    let badges = badges_from_file_bytes(
        br#"{"badges":[{"key":"x","text":"X"},{"text":"no key"},{"key":"","text":"E"}],"junk":{"color":"red"}}"#,
    );
    assert_eq!(badges.len(), 1);
    assert_eq!(badges[0].key, "x");
    assert_eq!(badges[0].badge.color, "reset");
}

#[test]
fn file_non_string_fields_do_not_count() {
    assert!(badges_from_file_bytes(br#"{"k":{"text":5}}"#).is_empty());
    let badges = badges_from_file_bytes(br#"{"k":{"text":"T","color":7}}"#);
    assert_eq!(badges[0].badge.color, "reset");
    assert!(badges_from_file_bytes(br#"[{"key":1,"text":"T"}]"#).is_empty());
}

#[test]
fn file_scalar_documents_have_no_badges() {
    assert!(badges_from_file_bytes(b"42").is_empty());
    assert!(badges_from_file_bytes(b"\"text\"").is_empty());
    assert!(badges_from_file_bytes(b"null").is_empty());
    assert!(badges_from_file_bytes(b"").is_empty());
}

#[test]
fn badges_from_json_value_reads_members_in_order() {
    let doc = JsonValue::Object(vec![
        JsonMember {
            key: "b".into(),
            value: JsonValue::Object(vec![JsonMember { key: "text".into(), value: JsonValue::Str("B".into()) }]),
        },
        JsonMember {
            key: "a".into(),
            value: JsonValue::Object(vec![
                JsonMember { key: "text".into(), value: JsonValue::Str("A".into()) },
                JsonMember { key: "color".into(), value: JsonValue::Str("red".into()) },
            ]),
        },
    ]);
    let badges = file_badges_from_json(&doc);
    assert_eq!(badges.len(), 2);
    assert_eq!(badges[0].key, "b");
    assert_eq!(badges[0].badge.color, "reset");
    assert_eq!(badges[1].key, "a");
    assert_eq!(badges[1].badge.color, "red");
}
