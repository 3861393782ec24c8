//! File-sourced badges: the shapes a badge file may take, read from the JSON
//! document the file holds.
//!
//! Accepted shapes:
//!   - `{ "<key>": {"text": "...", "color": "..."}, ... }`  (preferred map)
//!   - `{ "badges": [{"key":"...", "text":"...", "color":"..."}, ...] }`
//!   - `[{"key":"...", "text":"...", "color":"..."}, ...]`
//! A missing color reads as `"reset"`; an entry without text, or with an
//! empty key, is dropped.

use vstd::prelude::*;
use crate::badges::{Badge, BadgeEntry, BadgeView, EntryView, entry_views};
use crate::json::{
    JsonValue, JsonView, json_get, json_as_str, json_as_array, json_views, member_views, view_get,
    view_str, lemma_array_view, parse_json, json_parse_result,
};
use crate::text::str_eq;

verus! {

/// The string under `key` when `v` is an object holding a string there.
pub open spec fn get_str(v: JsonView, key: Seq<char>) -> Option<Seq<char>> {
    match view_get(v, key) {
        Some(x) => view_str(x),
        None => None,
    }
}

/// The badge that the object `v` describes under `key`: it needs a non-empty
/// key and a string `text`; its color is the string `color`, else `"reset"`.
pub open spec fn badge_from_value(key: Seq<char>, v: JsonView) -> Option<EntryView> {
    if key.len() == 0 {
        None
    } else {
        match get_str(v, "text"@) {
            Some(text) => Some(
                EntryView {
                    key,
                    badge: BadgeView {
                        text,
                        color: match get_str(v, "color"@) {
                            Some(c) => c,
                            None => "reset"@,
                        },
                    },
                },
            ),
            None => None,
        }
    }
}

/// The badge an array item describes: its key is its string `key`.
pub open spec fn badge_from_item(item: JsonView) -> Option<EntryView> {
    match get_str(item, "key"@) {
        Some(k) => badge_from_value(k, item),
        None => None,
    }
}

/// The badges the items of an array describe, in order, skipping the items
/// that describe none.
pub open spec fn badges_from_array(items: Seq<JsonView>) -> Seq<EntryView>
    decreases items.len(),
{
    if items.len() == 0 {
        Seq::empty()
    } else {
        let rest = badges_from_array(items.drop_last());
        match badge_from_item(items.last()) {
            Some(e) => rest.push(e),
            None => rest,
        }
    }
}

/// The badges the members of an object describe, in order, each under its
/// member name; a member named `badges` is left to the second shape.
pub open spec fn badges_from_members(members: Seq<(Seq<char>, JsonView)>) -> Seq<EntryView>
    decreases members.len(),
{
    if members.len() == 0 {
        Seq::empty()
    } else {
        let rest = badges_from_members(members.drop_last());
        let (k, v) = members.last();
        if k == "badges"@ {
            rest
        } else {
            match badge_from_value(k, v) {
                Some(e) => rest.push(e),
                None => rest,
            }
        }
    }
}

/// The badges a badge file's document describes: the map shape when it yields
/// any badge, else the `badges` array of an object, else a top-level array,
/// else none.
pub open spec fn file_badges(v: JsonView) -> Seq<EntryView> {
    let from_map = match v {
        JsonView::Object(members) => badges_from_members(members),
        _ => Seq::empty(),
    };
    if from_map.len() > 0 {
        from_map
    } else {
        match view_get(v, "badges"@) {
            Some(JsonView::Array(items)) => badges_from_array(items),
            _ => match v {
                JsonView::Array(items) => badges_from_array(items),
                _ => Seq::empty(),
            },
        }
    }
}

/// The view of an optional entry.
pub open spec fn opt_entry_view(e: Option<BadgeEntry>) -> Option<EntryView> {
    match e {
        Some(x) => Some(x@),
        None => None,
    }
}

fn get_string<'a>(v: &'a JsonValue, key: &str) -> (r: Option<&'a String>)
    ensures
        r is None <==> get_str(v@, key@) is None,
        r matches Some(s) ==> get_str(v@, key@) == Some(s@),
{
    match json_get(v, key) {
        Some(x) => json_as_str(x),
        None => None,
    }
}

/// The badge that `value` describes under `key`.
fn parse_badge_value(key: String, value: &JsonValue) -> (r: Option<BadgeEntry>)
    ensures
        opt_entry_view(r) == badge_from_value(key@, value@),
{
    if key.as_str().is_empty() {
        return None;
    }
    let text = match get_string(value, "text") {
        Some(t) => t.clone(),
        None => return None,
    };
    let color = match get_string(value, "color") {
        Some(c) => c.clone(),
        None => "reset".to_owned(),
    };
    Some(BadgeEntry { key, badge: Badge { text, color } })
}

/// The badges the items of `arr` describe.
fn parse_badge_array(arr: &Vec<JsonValue>) -> (r: Vec<BadgeEntry>)
    ensures
        entry_views(r@) == badges_from_array(json_views(arr@)),
{
    let ghost items = json_views(arr@);
    let mut out: Vec<BadgeEntry> = Vec::new();
    let mut i: usize = 0;
    while i < arr.len()
        invariant
            i <= arr@.len(),
            items == json_views(arr@),
            entry_views(out@) == badges_from_array(items.take(i as int)),
        decreases arr.len() - i,
    {
        proof {
            assert(items.take(i + 1).drop_last() =~= items.take(i as int));
            assert(items.take(i + 1).last() == arr@[i as int]@);
        }
        let item = &arr[i];
        let ghost before = out@;
        match get_string(item, "key") {
            Some(k) => {
                match parse_badge_value(k.clone(), item) {
                    Some(e) => {
                        out.push(e);
                        assert(entry_views(out@) =~= entry_views(before).push(e@));
                    },
                    None => {},
                }
            },
            None => {},
        }
        i = i + 1;
    }
    assert(items.take(i as int) =~= items);
    out
}

/// The badges a badge file's JSON document describes, in the order of the
/// document (an object's members come in the parser's order).
pub fn file_badges_from_json(value: &JsonValue) -> (r: Vec<BadgeEntry>)
    ensures
        entry_views(r@) == file_badges(value@),
{
    proof {
        lemma_array_view(value);
    }
    let mut out: Vec<BadgeEntry> = Vec::new();
    if let JsonValue::Object(members) = value {
        let ghost ms = member_views(members@);
        let mut i: usize = 0;
        while i < members.len()
            invariant
                i <= members@.len(),
                ms == member_views(members@),
                entry_views(out@) == badges_from_members(ms.take(i as int)),
            decreases members.len() - i,
        {
            proof {
                assert(ms.take(i + 1).drop_last() =~= ms.take(i as int));
                assert(ms.take(i + 1).last() == (members@[i as int].key@, members@[i as int].value@));
            }
            let ghost before = out@;
            let m = &members[i];
            if !str_eq(m.key.as_str(), "badges") {
                match parse_badge_value(m.key.clone(), &m.value) {
                    Some(e) => {
                        out.push(e);
                        assert(entry_views(out@) =~= entry_views(before).push(e@));
                    },
                    None => {},
                }
            }
            i = i + 1;
        }
        assert(ms.take(i as int) =~= ms);
        if out.len() > 0 {
            return out;
        }
    }
    assert(entry_views(out@) =~= Seq::<EntryView>::empty());
    match json_get(value, "badges") {
        Some(b) => match json_as_array(b) {
            Some(arr) => {
                return parse_badge_array(arr);
            },
            None => {},
        },
        None => {},
    }
    match json_as_array(value) {
        Some(arr) => parse_badge_array(arr),
        None => Vec::new(),
    }
}

/// The badges of a badge file's bytes; `None` when they are not JSON.
fn parse_file_badges(bytes: &[u8]) -> (r: Option<Vec<BadgeEntry>>)
    ensures
        match json_parse_result(bytes@) {
            Ok(v) => r matches Some(b) && entry_views(b@) == file_badges(v),
            Err(_) => r is None,
        },
{
    match parse_json(bytes) {
        Ok(v) => Some(file_badges_from_json(&v)),
        Err(_) => None,
    }
}

/// The badges of a badge file's contents: none when the bytes are not JSON.
/// (Reading the file is the caller's part; an unreadable file has no badges.)
pub fn badges_from_file_bytes(bytes: &[u8]) -> (r: Vec<BadgeEntry>)
    ensures
        entry_views(r@) == match json_parse_result(bytes@) {
            Ok(v) => file_badges(v),
            Err(_) => Seq::<EntryView>::empty(),
        },
{
    match parse_file_badges(bytes) {
        Some(b) => b,
        None => {
            let r: Vec<BadgeEntry> = Vec::new();
            assert(entry_views(r@) =~= Seq::<EntryView>::empty());
            r
        },
    }
}

} // verus!

verus! {

/// The document lists object `o` under name `k`: as a member `k` of the
/// top-level object, or as an item of its `badges` array (or of a top-level
/// array) whose string `key` is `k`.
pub open spec fn lists(v: JsonView, k: Seq<char>, o: JsonView) -> bool {
    ||| (v matches JsonView::Object(members) && exists|j: int|
        0 <= j < members.len() && #[trigger] members[j] == (k, o))
    ||| (view_get(v, "badges"@) matches Some(JsonView::Array(items)) && exists|j: int|
        0 <= j < items.len() && #[trigger] items[j] == o && get_str(o, "key"@) == Some(k))
    ||| (v matches JsonView::Array(items) && exists|j: int|
        0 <= j < items.len() && #[trigger] items[j] == o && get_str(o, "key"@) == Some(k))
}

/// One of the document's listed objects describes `e` under its key: the key
/// is non-empty, the text is that object's string `text`, and the color is
/// its string `color`, else `"reset"` (see `law_badge_value_fields`).
pub open spec fn file_entry_source(v: JsonView, e: EntryView) -> bool {
    exists|o: JsonView| lists(v, e.key, o) && #[trigger] badge_from_value(e.key, o) == Some(e)
}

/// Item `j` of `items` describes `e` under its string `key`.
spec fn item_describes(items: Seq<JsonView>, j: int, e: EntryView) -> bool {
    &&& 0 <= j < items.len()
    &&& get_str(items[j], "key"@) == Some(e.key)
    &&& badge_from_value(e.key, items[j]) == Some(e)
}

proof fn lemma_array_entry(items: Seq<JsonView>, i: int)
    requires
        0 <= i < badges_from_array(items).len(),
    ensures
        exists|j: int| #[trigger] item_describes(items, j, badges_from_array(items)[i]),
    decreases items.len(),
{
    let front = items.drop_last();
    let rest = badges_from_array(front);
    let all = badges_from_array(items);
    let n = items.len() - 1;
    let last = items.last();
    assert(items[n] == last);
    if i < rest.len() {
        lemma_array_entry(front, i);
        assert(all[i] == rest[i]);
        let j = choose|j: int| #[trigger] item_describes(front, j, rest[i]);
        assert(items[j] == front[j]);
        assert(item_describes(items, j, all[i]));
    } else {
        let e = badge_from_item(last).unwrap();
        assert(all[i] == e);
        assert(item_describes(items, n, all[i]));
    }
}

proof fn lemma_member_entries(members: Seq<(Seq<char>, JsonView)>)
    ensures
        forall|i: int| #![trigger badges_from_members(members)[i]] 0 <= i < badges_from_members(members).len() ==> exists|j: int|
            0 <= j < members.len() && members[j].0 == badges_from_members(members)[i].key && #[trigger] badge_from_value(
                members[j].0,
                members[j].1,
            ) == Some(badges_from_members(members)[i]),
    decreases members.len(),
{
    if members.len() > 0 {
        let front = members.drop_last();
        let rest = badges_from_members(front);
        lemma_member_entries(front);
        let all = badges_from_members(members);
        let (k, v) = members.last();
        assert(members[members.len() - 1] == (k, v));
        let grew = k != "badges"@ && badge_from_value(k, v) is Some;
        if grew {
            assert(all == rest.push(badge_from_value(k, v).unwrap()));
        } else {
            assert(all == rest);
        }
        assert forall|i: int| #![trigger all[i]] 0 <= i < all.len() implies exists|j: int|
            0 <= j < members.len() && members[j].0 == all[i].key && #[trigger] badge_from_value(members[j].0, members[j].1)
                == Some(all[i]) by {
            if i < rest.len() {
                assert(all[i] == rest[i]);
                let j = choose|j: int|
                    0 <= j < front.len() && front[j].0 == rest[i].key && #[trigger] badge_from_value(front[j].0, front[j].1)
                        == Some(rest[i]);
                assert(members[j] == front[j]);
            } else {
                assert(badge_from_value(members[members.len() - 1].0, members[members.len() - 1].1) == Some(all[i]));
            }
        }
    }
}

/// Every badge read from a file is described by one of the objects the file's
/// document lists under the badge's key: the key is non-empty, the text was a
/// JSON string of that object, and the color was a JSON string there or is
/// `"reset"`.
pub proof fn law_file_badges_from_objects(v: JsonView)
    ensures
        forall|i: int| 0 <= i < file_badges(v).len() ==> file_entry_source(v, #[trigger] file_badges(v)[i]),
        forall|i: int| 0 <= i < file_badges(v).len() ==> (#[trigger] file_badges(v)[i]).key.len() > 0,
        forall|i: int| 0 <= i < file_badges(v).len() ==> exists|o: JsonView|
            lists(v, file_badges(v)[i].key, o) && get_str(o, "text"@) == Some(#[trigger] file_badges(v)[i].badge.text),
{
    let all = file_badges(v);
    let from_map = match v {
        JsonView::Object(members) => badges_from_members(members),
        _ => Seq::empty(),
    };
    if from_map.len() > 0 {
        if let JsonView::Object(members) = v {
            lemma_member_entries(members);
            assert forall|i: int| 0 <= i < all.len() implies file_entry_source(v, #[trigger] all[i]) by {
                let j = choose|j: int|
                    0 <= j < members.len() && members[j].0 == all[i].key && #[trigger] badge_from_value(members[j].0, members[j].1)
                        == Some(all[i]);
                assert(lists(v, all[i].key, members[j].1));
                assert(badge_from_value(all[i].key, members[j].1) == Some(all[i]));
            }
        }
    } else {
        match view_get(v, "badges"@) {
            Some(JsonView::Array(items)) => {
                assert forall|i: int| 0 <= i < all.len() implies file_entry_source(v, #[trigger] all[i]) by {
                    lemma_array_entry(items, i);
                    let j = choose|j: int| #[trigger] item_describes(items, j, all[i]);
                    assert(lists(v, all[i].key, items[j]));
                    assert(badge_from_value(all[i].key, items[j]) == Some(all[i]));
                }
            },
            _ => {
                if let JsonView::Array(items) = v {
                    assert forall|i: int| 0 <= i < all.len() implies file_entry_source(v, #[trigger] all[i]) by {
                        lemma_array_entry(items, i);
                        let j = choose|j: int| #[trigger] item_describes(items, j, all[i]);
                        assert(lists(v, all[i].key, items[j]));
                        assert(badge_from_value(all[i].key, items[j]) == Some(all[i]));
                    }
                }
            },
        }
    }
    assert forall|i: int| #![trigger all[i]] 0 <= i < all.len() implies exists|o: JsonView|
        lists(v, all[i].key, o) && get_str(o, "text"@) == Some(#[trigger] all[i].badge.text) by {
        assert(file_entry_source(v, all[i]));
        let o = choose|o: JsonView| lists(v, all[i].key, o) && #[trigger] badge_from_value(all[i].key, o) == Some(all[i]);
        assert(badge_from_value(all[i].key, o) == Some(all[i]));
    }
    assert forall|i: int| 0 <= i < all.len() implies (#[trigger] all[i]).key.len() > 0 by {
        assert(file_entry_source(v, all[i]));
    }
}

/// A badge object without a color reads as `"reset"`; one without text, or
/// under an empty key, is no badge.
pub proof fn law_badge_value_defaults(key: Seq<char>, v: JsonView)
    ensures
        key.len() > 0 && get_str(v, "text"@) is Some && get_str(v, "color"@) is None ==> (
        badge_from_value(key, v) matches Some(e) && e.badge.color == "reset"@),
        get_str(v, "text"@) is None ==> badge_from_value(key, v) is None,
        key.len() == 0 ==> badge_from_value(key, v) is None,
{
}

/// What a badge that an object describes holds: its key, the object's string
/// `text`, and the object's string `color` or else `"reset"`.
pub proof fn law_badge_value_fields(key: Seq<char>, o: JsonView)
    ensures
        badge_from_value(key, o) matches Some(e) ==> {
            &&& e.key == key
            &&& key.len() > 0
            &&& get_str(o, "text"@) == Some(e.badge.text)
            &&& e.badge.color == match get_str(o, "color"@) {
                Some(c) => c,
                None => "reset"@,
            }
        },
{
}


/// The array items that describe a badge.
pub open spec fn describes_badge() -> spec_fn(JsonView) -> bool {
    |o: JsonView| badge_from_item(o) is Some
}

/// The badge an array item describes.
pub open spec fn item_badge() -> spec_fn(JsonView) -> EntryView {
    |o: JsonView| badge_from_item(o)->0
}

/// The object members that describe a badge (the `badges` member aside).
pub open spec fn member_describes_badge() -> spec_fn((Seq<char>, JsonView)) -> bool {
    |m: (Seq<char>, JsonView)| m.0 != "badges"@ && badge_from_value(m.0, m.1) is Some
}

/// The badge an object member describes.
pub open spec fn member_badge() -> spec_fn((Seq<char>, JsonView)) -> EntryView {
    |m: (Seq<char>, JsonView)| badge_from_value(m.0, m.1)->0
}

/// An array shape is read whole: its badges are those of the items that
/// describe one, all of them and in order, whatever the items around them;
/// so there are as many badges as such items, and each such item's badge is
/// among them.
pub proof fn law_array_badges(items: Seq<JsonView>)
    ensures
        badges_from_array(items) == items.filter(describes_badge()).map_values(item_badge()),
        badges_from_array(items).len() == items.filter(describes_badge()).len(),
        forall|i: int| 0 <= i < items.len() && #[trigger] badge_from_item(items[i]) is Some ==> badges_from_array(
            items,
        ).contains(badge_from_item(items[i])->0),
    decreases items.len(),
{
    reveal(Seq::filter);
    if items.len() > 0 {
        let front = items.drop_last();
        law_array_badges(front);
        let sub = front.filter(describes_badge());
        if describes_badge()(items.last()) {
            assert(items.filter(describes_badge()) == sub.push(items.last()));
            assert(sub.push(items.last()).map_values(item_badge()) =~= sub.map_values(item_badge()).push(
                item_badge()(items.last()),
            ));
        } else {
            assert(items.filter(describes_badge()) == sub);
        }
    } else {
        assert(items.filter(describes_badge()) =~= items);
    }
    let all = badges_from_array(items);
    let kept = items.filter(describes_badge());
    assert forall|i: int| 0 <= i < items.len() && #[trigger] badge_from_item(items[i]) is Some implies all.contains(
        badge_from_item(items[i])->0,
    ) by {
        items.lemma_filter_contains(describes_badge(), i);
        let k = choose|k: int| 0 <= k < kept.len() && kept[k] == items[i];
        assert(all[k] == item_badge()(kept[k]));
    }
}

/// An object shape is read whole: its badges are those of the members that
/// describe one (the `badges` member aside), all of them and in order, each
/// under its member name.
pub proof fn law_member_badges(members: Seq<(Seq<char>, JsonView)>)
    ensures
        badges_from_members(members) == members.filter(member_describes_badge()).map_values(member_badge()),
        badges_from_members(members).len() == members.filter(member_describes_badge()).len(),
    decreases members.len(),
{
    reveal(Seq::filter);
    if members.len() > 0 {
        let front = members.drop_last();
        law_member_badges(front);
        let sub = front.filter(member_describes_badge());
        if member_describes_badge()(members.last()) {
            assert(members.filter(member_describes_badge()) == sub.push(members.last()));
            assert(sub.push(members.last()).map_values(member_badge()) =~= sub.map_values(member_badge()).push(
                member_badge()(members.last()),
            ));
        } else {
            assert(members.filter(member_describes_badge()) == sub);
        }
    } else {
        assert(members.filter(member_describes_badge()) =~= members);
    }
}

} // verus!
