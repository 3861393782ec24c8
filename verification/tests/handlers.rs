use herdr_badges::badges::BadgeStore;
use herdr_badges::handlers::{handle_badge_clear, handle_badge_list, handle_badge_set};
use herdr_badges::schema::{badge_from_set_params, BadgeClearParams, BadgeInfo, BadgeSetParams, ResponseResult};
use herdr_badges::badges::{Badge, BadgeEntry};

fn set(store: &mut BadgeStore, key: &str, text: &str, color: &str) -> ResponseResult {
    handle_badge_set(
        store,
        BadgeSetParams {
            key: key.into(),
            text: text.into(),
            color: color.into(),
        },
    )
    .unwrap_or_else(|err| panic!("badge.set was refused: {err:?}"))
}

fn clear(store: &mut BadgeStore, key: &str) -> ResponseResult {
    handle_badge_clear(store, BadgeClearParams { key: key.into() })
        .unwrap_or_else(|err| panic!("badge.clear was refused: {err:?}"))
}

fn list(store: &BadgeStore) -> Vec<BadgeInfo> {
    match handle_badge_list(store) {
        ResponseResult::BadgeList { badges } => badges,
        other => panic!("expected BadgeList, got {other:?}"),
    }
}

#[test]
fn badge_set_persists_and_lists() {
    let mut app = BadgeStore::new();
    assert!(list(&app).is_empty());

    let result = set(&mut app, "pool", "LOCAL+CLOUD", "#89b4fa");
    assert!(matches!(
        result,
        ResponseResult::BadgeSet { ref key, ref text, ref color }
            if key == "pool" && text == "LOCAL+CLOUD" && color == "#89b4fa"
    ));

    let badges = list(&app);
    assert_eq!(badges.len(), 1);
    assert_eq!(badges[0].key, "pool");
    assert_eq!(badges[0].text, "LOCAL+CLOUD");
    assert_eq!(badges[0].color, "#89b4fa");
}

#[test]
fn badge_set_replaces_existing_key() {
    let mut app = BadgeStore::new();
    set(&mut app, "pool", "OLD", "red");
    set(&mut app, "pool", "NEW", "green");

    let badges = list(&app);
    assert_eq!(badges.len(), 1);
    assert_eq!(badges[0].key, "pool");
    assert_eq!(badges[0].text, "NEW");
    assert_eq!(badges[0].color, "green");
}

#[test]
fn badge_set_multiple_keys_stack_alphabetically() {
    let mut app = BadgeStore::new();
    set(&mut app, "zeta", "Z", "blue");
    set(&mut app, "alpha", "A", "red");
    set(&mut app, "mid", "M", "green");

    let badges = list(&app);
    assert_eq!(
        badges.iter().map(|b| b.key.as_str()).collect::<Vec<_>>(),
        vec!["alpha", "mid", "zeta"]
    );
}

#[test]
fn badge_clear_removes_only_matching_key() {
    let mut app = BadgeStore::new();
    set(&mut app, "a", "A", "red");
    set(&mut app, "b", "B", "blue");

    let result = clear(&mut app, "a");
    assert!(matches!(
        result,
        ResponseResult::BadgeClear { ref key, existed: true } if key == "a"
    ));

    let badges = list(&app);
    assert_eq!(badges.len(), 1);
    assert_eq!(badges[0].key, "b");
}

#[test]
fn badge_clear_missing_key_reports_existed_false() {
    let mut app = BadgeStore::new();
    set(&mut app, "present", "P", "red");

    let result = clear(&mut app, "missing");
    assert!(matches!(
        result,
        ResponseResult::BadgeClear { existed: false, .. }
    ));

    let badges = list(&app);
    assert_eq!(badges.len(), 1);
}

#[test]
fn badge_set_empty_key_is_rejected() {
    let mut app = BadgeStore::new();
    let err = handle_badge_set(
        &mut app,
        BadgeSetParams {
            key: "   ".into(),
            text: "T".into(),
            color: "red".into(),
        },
    )
    .unwrap_err();
    assert_eq!(err.code(), "invalid_params");
    assert!(list(&app).is_empty());
}

#[test]
fn badge_clear_empty_key_is_rejected() {
    let mut app = BadgeStore::new();
    let err = handle_badge_clear(&mut app, BadgeClearParams { key: "".into() }).unwrap_err();
    assert_eq!(err.code(), "invalid_params");
}

#[test]
fn badge_set_truncates_oversized_inputs() {
    let mut app = BadgeStore::new();
    let huge_text = "x".repeat(1024);
    let huge_color = "#".to_string() + &"a".repeat(200);
    let result = set(&mut app, "big", &huge_text, &huge_color);
    // Should succeed (truncated), not error.
    assert!(matches!(result, ResponseResult::BadgeSet { .. }));

    let badges = list(&app);
    assert_eq!(badges.len(), 1);
    // Text is truncated to 256 chars.
    assert_eq!(badges[0].text.len(), 256);
    // Color is truncated to 64 chars.
    assert_eq!(badges[0].color.len(), 64);
}

#[test]
fn badge_set_trims_whitespace_in_key() {
    let mut app = BadgeStore::new();
    set(&mut app, "  pool  ", "LOCAL", "green");
    let badges = list(&app);
    assert_eq!(badges.len(), 1);
    assert_eq!(badges[0].key, "pool");
}

#[test]
fn badge_set_response_returns_trimmed_key() {
    let mut app = BadgeStore::new();
    let result = set(&mut app, "  pool  ", "LOCAL", "green");
    assert!(matches!(
        result,
        ResponseResult::BadgeSet { ref key, ref text, ref color }
            if key == "pool" && text == "LOCAL" && color == "green"
    ));
}

#[test]
fn badge_clear_trims_whitespace_in_key() {
    let mut app = BadgeStore::new();
    set(&mut app, "pool", "LOCAL", "green");
    let result = clear(&mut app, "  pool  ");
    assert!(matches!(
        result,
        ResponseResult::BadgeClear { ref key, existed: true } if key == "pool"
    ));
    assert!(list(&app).is_empty());
}

#[test]
fn badge_set_rejects_oversized_key() {
    let mut app = BadgeStore::new();
    let huge_key = "x".repeat(128);
    let err = handle_badge_set(
        &mut app,
        BadgeSetParams {
            key: huge_key,
            text: "T".into(),
            color: "red".into(),
        },
    )
    .unwrap_err();
    assert_eq!(err.code(), "invalid_params");
    assert!(list(&app).is_empty());
}

#[test]
fn badge_set_key_limit_counts_bytes() {
    let mut app = BadgeStore::new();
    // 32 two-byte characters: 64 bytes, accepted.
    assert!(handle_badge_set(
        &mut app,
        BadgeSetParams { key: "é".repeat(32), text: "T".into(), color: "red".into() }
    )
    .is_ok());
    // 33 of them: 66 bytes, refused.
    let err = handle_badge_set(
        &mut app,
        BadgeSetParams { key: "é".repeat(33), text: "T".into(), color: "red".into() },
    )
    .unwrap_err();
    assert_eq!(err.message(), "badge key exceeds 64 bytes");
    assert_eq!(list(&app).len(), 1);
}

#[test]
fn badge_set_text_cap_counts_characters() {
    let mut app = BadgeStore::new();
    // 200 characters of two bytes: over 256 bytes but under 256 characters.
    let text = "é".repeat(200);
    set(&mut app, "k", &text, "red");
    assert_eq!(list(&app)[0].text, text);
    let long = "é".repeat(300);
    set(&mut app, "k", &long, "red");
    assert_eq!(list(&app)[0].text.chars().count(), 256);
}

#[test]
fn badge_set_empty_key_message() {
    let mut app = BadgeStore::new();
    let err = handle_badge_clear(&mut app, BadgeClearParams { key: "\t\n".into() }).unwrap_err();
    assert_eq!(err.message(), "badge key must be non-empty");
}

#[test]
fn badge_info_from_entry_and_set_params() {
    let entry = BadgeEntry {
        key: "k".into(),
        badge: Badge { text: "T".into(), color: "red".into() },
    };
    let info = BadgeInfo::from(&entry);
    assert_eq!(info, BadgeInfo { key: "k".into(), text: "T".into(), color: "red".into() });
    let (key, badge) = badge_from_set_params(&BadgeSetParams {
        key: "k".into(),
        text: "T".into(),
        color: "red".into(),
    });
    assert_eq!(key, "k");
    assert_eq!(badge, entry.badge);
}

#[test]
fn badge_set_with_trimmed_key_keeps_it() {
    let mut app = BadgeStore::new();
    set(&mut app, " k ", "T", "red");
    set(&mut app, "k", "U", "red");
    let badges = list(&app);
    assert_eq!(badges.len(), 1);
    assert_eq!(badges[0].text, "U");
}
