use herdr_badges::badges::{merge_badges, truncate_text, Badge, BadgeEntry, BadgeStore};

fn badge(text: &str, color: &str) -> Badge {
    Badge {
        text: text.into(),
        color: color.into(),
    }
}

#[test]
fn store_set_clear_roundtrip() {
    let mut s = BadgeStore::new();
    assert!(s.is_empty());
    s.set(
        "pool",
        Badge {
            text: "LOCAL".into(),
            color: "green".into(),
        },
    );
    s.set(
        "branch",
        Badge {
            text: "dev".into(),
            color: "#89b4fa".into(),
        },
    );
    assert_eq!(s.len(), 2);
    let snap = s.to_vec();
    assert_eq!(snap.len(), 2);
    // Alphabetical order: branch before pool
    assert_eq!(snap[0].key, "branch");
    assert_eq!(snap[1].key, "pool");

    let removed = s.clear("pool");
    assert!(removed.is_some());
    assert_eq!(removed.unwrap().text, "LOCAL");
    assert_eq!(s.len(), 1);
}

#[test]
fn store_clear_missing_key_is_noop() {
    let mut s = BadgeStore::new();
    s.set(
        "a",
        Badge {
            text: "A".into(),
            color: "red".into(),
        },
    );
    assert!(s.clear("missing").is_none());
    assert_eq!(s.len(), 1);
}

#[test]
fn store_clear_all_empties() {
    let mut s = BadgeStore::new();
    s.set(
        "a",
        Badge {
            text: "A".into(),
            color: "red".into(),
        },
    );
    s.set(
        "b",
        Badge {
            text: "B".into(),
            color: "blue".into(),
        },
    );
    s.clear_all();
    assert!(s.is_empty());
}

#[test]
fn merge_ipc_overrides_file() {
    let file = vec![BadgeEntry {
        key: "pool".into(),
        badge: Badge {
            text: "FILE".into(),
            color: "red".into(),
        },
    }];
    let mut ipc = BadgeStore::new();
    ipc.set(
        "pool",
        Badge {
            text: "IPC".into(),
            color: "green".into(),
        },
    );
    ipc.set(
        "extra",
        Badge {
            text: "E".into(),
            color: "blue".into(),
        },
    );
    let merged = merge_badges(&file, &ipc);
    assert_eq!(merged.len(), 2);
    let pool = merged.iter().find(|b| b.key == "pool").unwrap();
    assert_eq!(pool.badge.text, "IPC"); // IPC wins
}

#[test]
fn merge_drops_empty_file_keys() {
    let file = vec![BadgeEntry {
        key: "".into(),
        badge: Badge {
            text: "X".into(),
            color: "red".into(),
        },
    }];
    let ipc = BadgeStore::new();
    let merged = merge_badges(&file, &ipc);
    assert!(merged.is_empty());
}

#[test]
fn truncate_text_long_input_gets_ellipsis() {
    assert_eq!(truncate_text("hello", 10), "hello");
    assert_eq!(truncate_text("hello", 5), "hello");
    assert_eq!(truncate_text("hello", 4), "hel…");
    assert_eq!(truncate_text("hello", 1), "…");
    assert_eq!(truncate_text("hello", 0), "");
}

#[test]
fn store_set_returns_previous_badge() {
    let mut s = BadgeStore::new();
    assert!(s.set("k", badge("one", "red")).is_none());
    let previous = s.set("k".to_string(), badge("two", "blue")).unwrap();
    assert_eq!(previous, badge("one", "red"));
    assert_eq!(s.len(), 1);
    assert_eq!(s.to_vec()[0].badge, badge("two", "blue"));
}

#[test]
fn store_set_then_clear_restores_empty() {
    let mut s = BadgeStore::new();
    s.set("x", badge("X", "red"));
    assert_eq!(s.clear("x").unwrap(), badge("X", "red"));
    assert!(s.is_empty());
    assert!(s.to_vec().is_empty());
}

#[test]
fn store_lists_in_sorted_order_whatever_the_insertion_order() {
    let mut s = BadgeStore::new();
    for key in ["zeta", "alpha", "mid", "Beta", "alp", "é", "a"] {
        s.set(key, badge(key, "red"));
    }
    let keys: Vec<String> = s.to_vec().into_iter().map(|e| e.key).collect();
    assert_eq!(keys, vec!["Beta", "a", "alp", "alpha", "mid", "zeta", "é"]);
    let slice_keys: Vec<&str> = s.iter().iter().map(|e| e.key.as_str()).collect();
    assert_eq!(slice_keys, vec!["Beta", "a", "alp", "alpha", "mid", "zeta", "é"]);
}

#[test]
fn store_clone_and_default_hold_the_same_badges() {
    let mut s = BadgeStore::default();
    assert!(s.is_empty());
    s.set("b", badge("B", "blue"));
    let c = s.clone();
    assert_eq!(c.to_vec(), s.to_vec());
}

#[test]
fn merge_later_file_entry_wins_and_result_is_sorted() {
    let file = vec![
        BadgeEntry { key: "b".into(), badge: badge("first", "red") },
        BadgeEntry { key: "a".into(), badge: badge("A", "red") },
        BadgeEntry { key: "b".into(), badge: badge("second", "red") },
    ];
    let mut ipc = BadgeStore::new();
    ipc.set("c", badge("C", "green"));
    let merged = merge_badges(&file, &ipc);
    let keys: Vec<&str> = merged.iter().map(|e| e.key.as_str()).collect();
    assert_eq!(keys, vec!["a", "b", "c"]);
    assert_eq!(merged[1].badge.text, "second");
}

#[test]
fn merge_keeps_empty_store_key() {
    let file: Vec<BadgeEntry> = Vec::new();
    let mut ipc = BadgeStore::new();
    ipc.set("", badge("E", "red"));
    let merged = merge_badges(&file, &ipc);
    assert_eq!(merged.len(), 1);
    assert_eq!(merged[0].key, "");
}

#[test]
fn truncate_text_counts_characters_not_bytes() {
    assert_eq!(truncate_text("ééé", 3), "ééé");
    assert_eq!(truncate_text("éééé", 3), "éé…");
    assert_eq!(truncate_text("", 0), "");
    let once = truncate_text("abcdefgh", 4);
    assert_eq!(once, "abc…");
    assert_eq!(truncate_text(&once, 4), once);
}

#[test]
fn merge_without_file_badges_lists_the_store() {
    let mut ipc = BadgeStore::new();
    ipc.set("b", badge("B", "red"));
    ipc.set("a", badge("A", "blue"));
    assert_eq!(merge_badges(&[], &ipc), ipc.to_vec());
}

#[test]
fn stores_with_the_same_badges_are_equal() {
    let mut a = BadgeStore::new();
    let mut b = BadgeStore::new();
    a.set("x", badge("X", "red"));
    a.set("y", badge("Y", "red"));
    b.set("y", badge("Y", "red"));
    assert!(a != b);
    b.set("x", badge("X", "red"));
    assert!(a == b);
    b.set("x", badge("X", "blue"));
    assert!(a != b);
}
