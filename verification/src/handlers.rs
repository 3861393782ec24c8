//! The `badge.set` / `badge.clear` / `badge.list` requests, applied to the
//! in-memory badge store. File-sourced badges are not touched here: they are
//! read fresh on every render and merged with these at display time.

use vstd::prelude::*;
use crate::badges::{BadgeStore, BadgeView, EntryView, entry_views, keys_sorted, entries_map};
use crate::schema::{
    BadgeSetParams, BadgeClearParams, BadgeInfo, ResponseResult, BadgeRequestError,
    badge_from_set_params,
};
use crate::text::{trim_ws, trim_str, utf8_len, utf8_len_exceeds};

verus! {

/// Longest text kept in the store, in characters (longer text, in bytes, is cut).
pub const MAX_STORED_TEXT_LEN: usize = 256;

/// Longest color kept in the store, in characters (longer color, in bytes, is cut).
pub const MAX_STORED_COLOR_LEN: usize = 64;

/// Longest key accepted, in bytes.
pub const MAX_STORED_KEY_LEN: usize = 64;

/// `s` capped for storage: when its UTF-8 form is longer than `cap` bytes,
/// its first `cap` characters (all of them if it has fewer); else `s`.
pub open spec fn capped(s: Seq<char>, cap: nat) -> Seq<char> {
    if utf8_len(s) > cap {
        if s.len() <= cap {
            s
        } else {
            s.take(cap as int)
        }
    } else {
        s
    }
}

/// The first `cap` characters of `s`, when its UTF-8 form exceeds `cap` bytes.
fn cap_text(s: String, cap: usize) -> (r: String)
    ensures
        r@ == capped(s@, cap as nat),
{
    if utf8_len_exceeds(s.as_str(), cap) {
        let n = s.as_str().unicode_len();
        if n <= cap {
            s
        } else {
            s.as_str().substring_char(0, cap).to_owned()
        }
    } else {
        s
    }
}

/// What `badge.set` answers and stores, by the key once trimmed: an empty key
/// or one longer than the key limit (in bytes) is refused; otherwise the text
/// and color are capped and stored under the trimmed key.
pub open spec fn set_outcome(params: BadgeSetParams) -> Result<(Seq<char>, BadgeView), BadgeRequestError> {
    let key = trim_ws(params.key@);
    if key.len() == 0 {
        Err(BadgeRequestError::EmptyKey)
    } else if utf8_len(key) > MAX_STORED_KEY_LEN {
        Err(BadgeRequestError::KeyTooLong)
    } else {
        Ok(
            (
                key,
                BadgeView {
                    text: capped(params.text@, MAX_STORED_TEXT_LEN as nat),
                    color: capped(params.color@, MAX_STORED_COLOR_LEN as nat),
                },
            ),
        )
    }
}

/// `badge.set`: sets or replaces a badge by its trimmed key, and answers with
/// what was stored. Text and color are accepted as they are, capped in length.
pub fn handle_badge_set(store: &mut BadgeStore, params: BadgeSetParams) -> (r: Result<
    ResponseResult,
    BadgeRequestError,
>)
    ensures
        match set_outcome(params) {
            Err(e) => r == Err::<ResponseResult, BadgeRequestError>(e) && final(store)@ == old(store)@,
            Ok((key, badge)) => {
                &&& final(store)@ == old(store)@.insert(key, badge)
                &&& r matches Ok(ResponseResult::BadgeSet { key: k, text: t, color: c })
                &&& k@ == key && t@ == badge.text && c@ == badge.color
            },
        },
{
    let key = trim_str(params.key.as_str());
    if key.as_str().is_empty() {
        return Err(BadgeRequestError::EmptyKey);
    }
    if utf8_len_exceeds(key.as_str(), MAX_STORED_KEY_LEN) {
        return Err(BadgeRequestError::KeyTooLong);
    }
    let text = cap_text(params.text, MAX_STORED_TEXT_LEN);
    let color = cap_text(params.color, MAX_STORED_COLOR_LEN);
    let (stored_key, badge) = badge_from_set_params(
        &BadgeSetParams { key: key.clone(), text: text.clone(), color: color.clone() },
    );
    store.set(stored_key, badge);
    Ok(ResponseResult::BadgeSet { key, text, color })
}

/// `badge.clear`: removes the badge under the trimmed key; an empty key is
/// refused. Answers whether a badge was stored under the key.
pub fn handle_badge_clear(store: &mut BadgeStore, params: BadgeClearParams) -> (r: Result<
    ResponseResult,
    BadgeRequestError,
>)
    ensures
        trim_ws(params.key@).len() == 0 ==> r == Err::<ResponseResult, BadgeRequestError>(
            BadgeRequestError::EmptyKey,
        ) && final(store)@ == old(store)@,
        trim_ws(params.key@).len() > 0 ==> {
            &&& final(store)@ == old(store)@.remove(trim_ws(params.key@))
            &&& r matches Ok(ResponseResult::BadgeClear { key: k, existed })
            &&& k@ == trim_ws(params.key@)
            &&& existed == old(store)@.contains_key(trim_ws(params.key@))
        },
{
    let key = trim_str(params.key.as_str());
    if key.as_str().is_empty() {
        return Err(BadgeRequestError::EmptyKey);
    }
    let existed = store.clear(key.as_str()).is_some();
    Ok(ResponseResult::BadgeClear { key, existed })
}

/// The keyed badge a `badge.list` entry stands for.
pub open spec fn info_entry(i: BadgeInfo) -> EntryView {
    EntryView { key: i.key@, badge: BadgeView { text: i.text@, color: i.color@ } }
}

/// The keyed badges a `badge.list` answer stands for.
pub open spec fn info_entries(badges: Seq<BadgeInfo>) -> Seq<EntryView> {
    badges.map_values(|i: BadgeInfo| info_entry(i))
}

/// `badge.list`: the badges of the store, in stable (alphabetical by key)
/// order: keys strictly increase and the entries are exactly the store's.
pub fn handle_badge_list(store: &BadgeStore) -> (r: ResponseResult)
    ensures
        r matches ResponseResult::BadgeList { badges } && {
            &&& keys_sorted(info_entries(badges@))
            &&& entries_map(info_entries(badges@)) == store@
        },
{
    let entries = store.to_vec();
    let ghost ev = entry_views(entries@);
    let mut badges: Vec<BadgeInfo> = Vec::new();
    let mut i: usize = 0;
    while i < entries.len()
        invariant
            i <= entries@.len(),
            ev == entry_views(entries@),
            info_entries(badges@) == ev.take(i as int),
        decreases entries.len() - i,
    {
        let info = BadgeInfo::from(&entries[i]);
        let ghost before = badges@;
        badges.push(info);
        proof {
            assert(info_entry(info) == ev[i as int]);
            assert(info_entries(badges@) =~= info_entries(before).push(info_entry(info)));
            assert(ev.take(i + 1) =~= ev.take(i as int).push(ev[i as int]));
        }
        i = i + 1;
    }
    assert(ev.take(i as int) =~= ev);
    ResponseResult::BadgeList { badges }
}

} // verus!

verus! {

/// A stored badge has a non-empty key without surrounding whitespace, of at
/// most the key limit in bytes, text of at most the text limit in characters
/// and a color of at most the color limit in characters; the answer of a
/// refused request leaves the store as it was (see `handle_badge_set`).
pub proof fn law_stored_badge_bounds(params: BadgeSetParams)
    ensures
        set_outcome(params) matches Ok((key, badge)) ==> {
            &&& key.len() > 0
            &&& !crate::text::is_ws(key[0])
            &&& !crate::text::is_ws(key.last())
            &&& utf8_len(key) <= MAX_STORED_KEY_LEN
            &&& badge.text.len() <= MAX_STORED_TEXT_LEN
            &&& badge.color.len() <= MAX_STORED_COLOR_LEN
        },
{
    crate::text::lemma_trim_ws(params.key@);
    lemma_capped_chars(params.text@, MAX_STORED_TEXT_LEN as nat);
    lemma_capped_chars(params.color@, MAX_STORED_COLOR_LEN as nat);
}

/// Capping keeps the start of a value: the capped value is the first
/// `min(len, cap)` characters of the value given, so what `badge.set` stores
/// and answers as text (and color) begins the text (and color) it was sent.
pub proof fn law_capped_is_prefix(s: Seq<char>, cap: nat)
    ensures
        capped(s, cap) == s.take(if s.len() <= cap { s.len() as int } else { cap as int }),
        capped(s, cap) == s.take(capped(s, cap).len() as int),
{
    lemma_utf8_len_at_least_chars(s);
    assert(s.take(s.len() as int) =~= s);
}

/// What `badge.set` stores as text is the first characters of the text sent,
/// as many as the text limit allows; likewise for the color.
pub proof fn law_set_stores_prefixes(params: BadgeSetParams)
    ensures
        set_outcome(params) matches Ok((key, badge)) ==> {
            &&& badge.text == params.text@.take(
                if params.text@.len() <= MAX_STORED_TEXT_LEN { params.text@.len() as int } else { MAX_STORED_TEXT_LEN as int },
            )
            &&& badge.color == params.color@.take(
                if params.color@.len() <= MAX_STORED_COLOR_LEN { params.color@.len() as int } else { MAX_STORED_COLOR_LEN as int },
            )
        },
{
    law_capped_is_prefix(params.text@, MAX_STORED_TEXT_LEN as nat);
    law_capped_is_prefix(params.color@, MAX_STORED_COLOR_LEN as nat);
}

/// A capped value has at most `cap` characters, and capping it again changes
/// nothing.
pub proof fn lemma_capped_chars(s: Seq<char>, cap: nat)
    ensures
        capped(s, cap).len() <= cap,
        capped(capped(s, cap), cap) == capped(s, cap),
{
    lemma_utf8_len_at_least_chars(s);
    if utf8_len(s) > cap && s.len() > cap {
        let t = s.take(cap as int);
        lemma_utf8_len_at_least_chars(t);
        if utf8_len(t) > cap {
            assert(t.take(cap as int) =~= t);
        }
    }
}

/// Every character takes at least one byte.
pub proof fn lemma_utf8_len_at_least_chars(s: Seq<char>)
    ensures
        utf8_len(s) >= s.len(),
    decreases s.len(),
{
    if s.len() > 0 {
        lemma_utf8_len_at_least_chars(s.drop_last());
    }
}

/// Trimming a key twice changes nothing more: `badge.set` with a key that is
/// already trimmed stores it under the same key.
pub proof fn law_trim_idempotent(key: Seq<char>)
    ensures
        trim_ws(trim_ws(key)) == trim_ws(key),
{
    crate::text::lemma_trim_ws(key);
}

} // verus!

verus! {

/// What a listing gives back of a write: after `badge.set` is accepted, the
/// listing of the store holds the stored entry, once; after `badge.clear` is
/// accepted, it holds no entry under that key.
pub proof fn law_set_then_list(
    before: Map<Seq<char>, BadgeView>,
    params: BadgeSetParams,
    listing: Seq<EntryView>,
)
    requires
        set_outcome(params) is Ok,
        keys_sorted(listing),
        entries_map(listing) == before.insert(set_outcome(params)->Ok_0.0, set_outcome(params)->Ok_0.1),
    ensures
        exists|i: int|
            0 <= i < listing.len() && #[trigger] listing[i] == (EntryView {
                key: set_outcome(params)->Ok_0.0,
                badge: set_outcome(params)->Ok_0.1,
            }),
        forall|i: int, j: int|
            0 <= i < j < listing.len() ==> #[trigger] listing[i].key != #[trigger] listing[j].key,
{
    let (k, b) = set_outcome(params)->Ok_0;
    crate::badges::lemma_entries_map_domain(listing, k);
    crate::badges::lemma_sorted_unique(listing);
    let i = choose|i: int| 0 <= i < listing.len() && #[trigger] listing[i].key == k;
    crate::badges::lemma_entries_map_value(listing, i);
    assert(listing[i] == EntryView { key: k, badge: b });
}

/// After `badge.clear` is accepted, no entry of the listing has its key.
pub proof fn law_clear_then_list(before: Map<Seq<char>, BadgeView>, key: Seq<char>, listing: Seq<EntryView>)
    requires
        entries_map(listing) == before.remove(trim_ws(key)),
    ensures
        forall|i: int| 0 <= i < listing.len() ==> (#[trigger] listing[i]).key != trim_ws(key),
{
    assert forall|i: int| 0 <= i < listing.len() implies (#[trigger] listing[i]).key != trim_ws(key) by {
        crate::badges::lemma_entries_map_domain(listing, listing[i].key);
    }
}

} // verus!
