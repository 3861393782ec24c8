//! Badges: keyed text + color pairs, the in-memory store of badges set over
//! the request API, and the merge of file-sourced badges with that store.
//!
//! The store keeps its entries sorted by key, without duplicates, so every
//! listing comes out in stable (alphabetical) order.

use vstd::prelude::*;
use crate::text::{seq_lt, str_eq, lemma_seq_lt_irreflexive, lemma_seq_lt_transitive, lemma_seq_lt_asymmetric, compare_chars, str_chars, KeyOrder};

verus! {

/// Default file path (relative to the working directory) for file-sourced badges.
pub const DEFAULT_BADGE_FILE: &'static str = "run/badge.json";

/// Defensive cap on the number of badges rendered in the sidebar header.
pub const MAX_RENDERED_BADGES: usize = 16;

/// Maximum text length per badge before truncation kicks in.
pub const MAX_BADGE_TEXT_LEN: usize = 32;

/// A single badge: arbitrary text and an arbitrary color string.
#[derive(Debug, Clone, PartialEq, Eq)]
pub struct Badge {
    pub text: String,
    pub color: String,
}

/// What a badge holds, as character sequences.
pub struct BadgeView {
    pub text: Seq<char>,
    pub color: Seq<char>,
}

impl View for Badge {
    type V = BadgeView;

    open spec fn view(&self) -> BadgeView {
        BadgeView { text: self.text@, color: self.color@ }
    }
}

impl Badge {
    /// A copy of this badge with the same text and color.
    pub fn duplicate(&self) -> (r: Badge)
        ensures
            r@ == self@,
    {
        Badge { text: self.text.clone(), color: self.color.clone() }
    }
}

/// A keyed badge entry.
#[derive(Debug, Clone, PartialEq, Eq)]
pub struct BadgeEntry {
    pub key: String,
    pub badge: Badge,
}

/// What a keyed entry holds.
pub struct EntryView {
    pub key: Seq<char>,
    pub badge: BadgeView,
}

impl View for BadgeEntry {
    type V = EntryView;

    open spec fn view(&self) -> EntryView {
        EntryView { key: self.key@, badge: self.badge@ }
    }
}

impl BadgeEntry {
    /// A copy of this entry with the same key and badge.
    pub fn duplicate(&self) -> (r: BadgeEntry)
        ensures
            r@ == self@,
    {
        BadgeEntry { key: self.key.clone(), badge: self.badge.duplicate() }
    }
}

/// The views of a sequence of entries.
pub open spec fn entry_views(v: Seq<BadgeEntry>) -> Seq<EntryView> {
    v.map_values(|e: BadgeEntry| e@)
}

/// The map that inserting the entries of `s` one after the other, into an
/// empty map, builds: on a repeated key the later entry wins.
pub open spec fn entries_map(s: Seq<EntryView>) -> Map<Seq<char>, BadgeView>
    decreases s.len(),
{
    if s.len() == 0 {
        Map::empty()
    } else {
        entries_map(s.drop_last()).insert(s.last().key, s.last().badge)
    }
}

/// The keys of `s` strictly increase.
pub open spec fn keys_sorted(s: Seq<EntryView>) -> bool {
    forall|i: int, j: int| 0 <= i < j < s.len() ==> seq_lt(#[trigger] s[i].key, #[trigger] s[j].key)
}

/// No key occurs twice in `s`.
pub open spec fn keys_unique(s: Seq<EntryView>) -> bool {
    forall|i: int, j: int| 0 <= i < j < s.len() ==> #[trigger] s[i].key != #[trigger] s[j].key
}

pub proof fn lemma_sorted_unique(s: Seq<EntryView>)
    requires
        keys_sorted(s),
    ensures
        keys_unique(s),
{
    assert forall|i: int, j: int| 0 <= i < j < s.len() implies #[trigger] s[i].key != #[trigger] s[j].key by {
        assert(seq_lt(s[i].key, s[j].key));
        lemma_seq_lt_irreflexive(s[i].key);
    }
}

/// A key is in `entries_map(s)` exactly when some entry of `s` has it.
pub proof fn lemma_entries_map_domain(s: Seq<EntryView>, k: Seq<char>)
    ensures
        entries_map(s).contains_key(k) <==> exists|i: int| 0 <= i < s.len() && #[trigger] s[i].key == k,
    decreases s.len(),
{
    if s.len() > 0 {
        lemma_entries_map_domain(s.drop_last(), k);
        if entries_map(s).contains_key(k) && k != s.last().key {
            let i = choose|i: int| 0 <= i < s.drop_last().len() && #[trigger] s.drop_last()[i].key == k;
            assert(s[i].key == k);
        }
        if exists|i: int| 0 <= i < s.len() && #[trigger] s[i].key == k {
            let i = choose|i: int| 0 <= i < s.len() && #[trigger] s[i].key == k;
            if i < s.len() - 1 {
                assert(s.drop_last()[i].key == k);
            }
        }
    }
}

/// With unique keys, `entries_map(s)` maps the key of each entry to its badge.
pub proof fn lemma_entries_map_value(s: Seq<EntryView>, i: int)
    requires
        keys_unique(s),
        0 <= i < s.len(),
    ensures
        entries_map(s).contains_key(s[i].key),
        entries_map(s)[s[i].key] == s[i].badge,
    decreases s.len(),
{
    if i < s.len() - 1 {
        let t = s.drop_last();
        assert(keys_unique(t));
        lemma_entries_map_value(t, i);
        assert(t[i] == s[i]);
        assert(s[i].key != s[s.len() - 1].key);
    }
}

/// Two sequences with unique keys, the same keys, and the same badge under
/// each key, build the same map.
pub proof fn lemma_entries_map_ext(s: Seq<EntryView>, m: Map<Seq<char>, BadgeView>)
    requires
        keys_unique(s),
        forall|k: Seq<char>| m.contains_key(k) <==> exists|i: int| 0 <= i < s.len() && #[trigger] s[i].key == k,
        forall|i: int| 0 <= i < s.len() ==> m[#[trigger] s[i].key] == s[i].badge,
    ensures
        entries_map(s) == m,
{
    assert forall|k: Seq<char>| #[trigger] entries_map(s).contains_key(k) <==> m.contains_key(k) by {
        lemma_entries_map_domain(s, k);
    }
    assert forall|k: Seq<char>| #[trigger] entries_map(s).contains_key(k) implies entries_map(s)[k] == m[k] by {
        lemma_entries_map_domain(s, k);
        let i = choose|i: int| 0 <= i < s.len() && #[trigger] s[i].key == k;
        lemma_entries_map_value(s, i);
    }
    assert(entries_map(s) =~= m);
}

} // verus!

verus! {

/// Something that can name a badge: an owned or a borrowed string.
pub trait BadgeKey: Sized {
    /// The characters of the key.
    spec fn key_view(&self) -> Seq<char>;

    /// The key as an owned string.
    fn into_key(self) -> (r: String)
        ensures
            r@ == self.key_view(),
    ;
}

impl BadgeKey for String {
    open spec fn key_view(&self) -> Seq<char> {
        self@
    }

    fn into_key(self) -> (r: String) {
        self
    }
}

impl<'a> BadgeKey for &'a str {
    open spec fn key_view(&self) -> Seq<char> {
        (*self)@
    }

    fn into_key(self) -> (r: String) {
        self.to_owned()
    }
}

/// In-memory store of badges set over the request API. File badges are read
/// fresh on every render and merged on top of this store (the store wins on a
/// key conflict).
#[derive(Debug)]
pub struct BadgeStore {
    badges: Vec<BadgeEntry>,
}

impl BadgeStore {
    /// The entries in the order the store keeps them.
    spec fn entries(&self) -> Seq<EntryView> {
        entry_views(self.badges@)
    }

    #[verifier::type_invariant]
    spec fn sorted(&self) -> bool {
        keys_sorted(self.entries())
    }

    /// Finds the place of `key` among the sorted entries: the first index whose
    /// key does not sort before `key`, and whether that entry holds `key`.
    fn locate(entries: &Vec<BadgeEntry>, key: &[char]) -> (r: (usize, bool))
        requires
            keys_sorted(entry_views(entries@)),
        ensures
            r.0 <= entries@.len(),
            forall|j: int| 0 <= j < r.0 ==> seq_lt(#[trigger] entries@[j].key@, key@),
            r.1 ==> r.0 < entries@.len() && entries@[r.0 as int].key@ == key@,
            !r.1 ==> forall|j: int| r.0 <= j < entries@.len() ==> seq_lt(key@, #[trigger] entries@[j].key@),
    {
        let ghost s = entry_views(entries@);
        let mut i: usize = 0;
        while i < entries.len()
            invariant
                i <= entries@.len(),
                s == entry_views(entries@),
                keys_sorted(s),
                forall|j: int| 0 <= j < i ==> seq_lt(#[trigger] entries@[j].key@, key@),
            decreases entries.len() - i,
        {
            let kc = str_chars(entries[i].key.as_str());
            match compare_chars(kc.as_slice(), key) {
                KeyOrder::Less => {
                    i = i + 1;
                },
                KeyOrder::Equal => {
                    return (i, true);
                },
                KeyOrder::Greater => {
                    proof {
                        assert forall|j: int| i <= j < entries@.len() implies seq_lt(key@, #[trigger] entries@[j].key@) by {
                            if j > i {
                                assert(s[i as int].key == entries@[i as int].key@);
                                assert(s[j].key == entries@[j].key@);
                                assert(seq_lt(s[i as int].key, s[j].key));
                                lemma_seq_lt_transitive(key@, entries@[i as int].key@, entries@[j].key@);
                            }
                        }
                    }
                    return (i, false);
                },
            }
        }
        (i, false)
    }
}

} // verus!

verus! {

/// A key that sorts strictly between the entries before `p` and those from
/// `p` on is not in the map of a sorted sequence.
proof fn lemma_gap_absent(s: Seq<EntryView>, p: int, k: Seq<char>)
    requires
        0 <= p <= s.len(),
        forall|j: int| 0 <= j < p ==> seq_lt(#[trigger] s[j].key, k),
        forall|j: int| p <= j < s.len() ==> seq_lt(k, #[trigger] s[j].key),
    ensures
        !entries_map(s).contains_key(k),
{
    lemma_entries_map_domain(s, k);
    if exists|i: int| 0 <= i < s.len() && #[trigger] s[i].key == k {
        let i = choose|i: int| 0 <= i < s.len() && #[trigger] s[i].key == k;
        lemma_seq_lt_irreflexive(k);
        if i < p {
            assert(seq_lt(s[i].key, k));
        } else {
            assert(seq_lt(k, s[i].key));
        }
    }
}

/// Inserting an entry whose key falls in the gap at `p` keeps the keys sorted
/// and adds that key to the map.
proof fn lemma_insert_sorted(s: Seq<EntryView>, p: int, e: EntryView)
    requires
        keys_sorted(s),
        0 <= p <= s.len(),
        forall|j: int| 0 <= j < p ==> seq_lt(#[trigger] s[j].key, e.key),
        forall|j: int| p <= j < s.len() ==> seq_lt(e.key, #[trigger] s[j].key),
    ensures
        keys_sorted(s.insert(p, e)),
        entries_map(s.insert(p, e)) == entries_map(s).insert(e.key, e.badge),
        !entries_map(s).contains_key(e.key),
{
    let t = s.insert(p, e);
    assert forall|i: int, j: int| 0 <= i < j < t.len() implies seq_lt(#[trigger] t[i].key, #[trigger] t[j].key) by {
        if i < p && j < p {
            assert(t[i] == s[i] && t[j] == s[j]);
        } else if i < p && j == p {
            assert(t[i] == s[i]);
        } else if i < p && j > p {
            assert(t[i] == s[i] && t[j] == s[j - 1]);
            lemma_seq_lt_transitive(s[i].key, e.key, s[j - 1].key);
        } else if i == p {
            assert(t[j] == s[j - 1]);
        } else {
            assert(t[i] == s[i - 1] && t[j] == s[j - 1]);
        }
    }
    lemma_gap_absent(s, p, e.key);
    lemma_sorted_unique(s);
    lemma_sorted_unique(t);
    let m = entries_map(s).insert(e.key, e.badge);
    assert forall|k: Seq<char>| m.contains_key(k) <==> exists|i: int| 0 <= i < t.len() && #[trigger] t[i].key == k by {
        lemma_entries_map_domain(s, k);
        if m.contains_key(k) {
            if k == e.key {
                assert(t[p].key == k);
            } else {
                let i = choose|i: int| 0 <= i < s.len() && #[trigger] s[i].key == k;
                if i < p {
                    assert(t[i] == s[i]);
                } else {
                    assert(t[i + 1] == s[i]);
                }
            }
        }
        if exists|i: int| 0 <= i < t.len() && #[trigger] t[i].key == k {
            let i = choose|i: int| 0 <= i < t.len() && #[trigger] t[i].key == k;
            if i < p {
                assert(s[i] == t[i]);
            } else if i > p {
                assert(s[i - 1] == t[i]);
            }
        }
    }
    assert forall|i: int| 0 <= i < t.len() implies m[#[trigger] t[i].key] == t[i].badge by {
        if i < p {
            assert(t[i] == s[i]);
            lemma_entries_map_value(s, i);
        } else if i > p {
            assert(t[i] == s[i - 1]);
            lemma_entries_map_value(s, i - 1);
        }
    }
    lemma_entries_map_ext(t, m);
}

/// Replacing the entry at `p` by one with the same key keeps the keys sorted
/// and changes only the badge under that key.
proof fn lemma_update_sorted(s: Seq<EntryView>, p: int, e: EntryView)
    requires
        keys_sorted(s),
        0 <= p < s.len(),
        s[p].key == e.key,
    ensures
        keys_sorted(s.update(p, e)),
        entries_map(s.update(p, e)) == entries_map(s).insert(e.key, e.badge),
        entries_map(s).contains_key(e.key),
        entries_map(s)[e.key] == s[p].badge,
{
    let t = s.update(p, e);
    assert forall|i: int, j: int| 0 <= i < j < t.len() implies seq_lt(#[trigger] t[i].key, #[trigger] t[j].key) by {
        assert(t[i].key == s[i].key && t[j].key == s[j].key);
    }
    lemma_sorted_unique(s);
    lemma_sorted_unique(t);
    lemma_entries_map_value(s, p);
    let m = entries_map(s).insert(e.key, e.badge);
    assert forall|k: Seq<char>| m.contains_key(k) <==> exists|i: int| 0 <= i < t.len() && #[trigger] t[i].key == k by {
        lemma_entries_map_domain(s, k);
        if m.contains_key(k) && k != e.key {
            let i = choose|i: int| 0 <= i < s.len() && #[trigger] s[i].key == k;
            assert(t[i].key == s[i].key);
        }
        if m.contains_key(k) && k == e.key {
            assert(t[p].key == k);
        }
        if exists|i: int| 0 <= i < t.len() && #[trigger] t[i].key == k {
            let i = choose|i: int| 0 <= i < t.len() && #[trigger] t[i].key == k;
            assert(s[i].key == t[i].key);
        }
    }
    assert forall|i: int| 0 <= i < t.len() implies m[#[trigger] t[i].key] == t[i].badge by {
        if i != p {
            assert(t[i] == s[i]);
            lemma_entries_map_value(s, i);
        }
    }
    lemma_entries_map_ext(t, m);
}

/// Removing the entry at `p` keeps the keys sorted and removes that key.
proof fn lemma_remove_sorted(s: Seq<EntryView>, p: int)
    requires
        keys_sorted(s),
        0 <= p < s.len(),
    ensures
        keys_sorted(s.remove(p)),
        entries_map(s.remove(p)) == entries_map(s).remove(s[p].key),
        entries_map(s).contains_key(s[p].key),
        entries_map(s)[s[p].key] == s[p].badge,
{
    let t = s.remove(p);
    assert forall|i: int, j: int| 0 <= i < j < t.len() implies seq_lt(#[trigger] t[i].key, #[trigger] t[j].key) by {
        if j < p {
            assert(t[i] == s[i] && t[j] == s[j]);
        } else if i < p {
            assert(t[i] == s[i] && t[j] == s[j + 1]);
        } else {
            assert(t[i] == s[i + 1] && t[j] == s[j + 1]);
        }
    }
    lemma_sorted_unique(s);
    lemma_sorted_unique(t);
    lemma_entries_map_value(s, p);
    let k0 = s[p].key;
    let m = entries_map(s).remove(k0);
    assert forall|k: Seq<char>| m.contains_key(k) <==> exists|i: int| 0 <= i < t.len() && #[trigger] t[i].key == k by {
        lemma_entries_map_domain(s, k);
        if m.contains_key(k) {
            let i = choose|i: int| 0 <= i < s.len() && #[trigger] s[i].key == k;
            assert(i != p);
            if i < p {
                assert(t[i] == s[i]);
            } else {
                assert(t[i - 1] == s[i]);
            }
        }
        if exists|i: int| 0 <= i < t.len() && #[trigger] t[i].key == k {
            let i = choose|i: int| 0 <= i < t.len() && #[trigger] t[i].key == k;
            if i < p {
                assert(s[i] == t[i]);
                assert(s[i].key != s[p].key);
            } else {
                assert(s[i + 1] == t[i]);
                assert(s[p].key != s[i + 1].key);
            }
        }
    }
    assert forall|i: int| 0 <= i < t.len() implies m[#[trigger] t[i].key] == t[i].badge by {
        if i < p {
            assert(t[i] == s[i]);
            lemma_entries_map_value(s, i);
            assert(s[i].key != k0);
        } else {
            assert(t[i] == s[i + 1]);
            lemma_entries_map_value(s, i + 1);
            assert(s[i + 1].key != k0);
        }
    }
    lemma_entries_map_ext(t, m);
}

} // verus!

verus! {

impl View for BadgeStore {
    type V = Map<Seq<char>, BadgeView>;

    /// The badges of the store, by key.
    closed spec fn view(&self) -> Map<Seq<char>, BadgeView> {
        entries_map(self.entries())
    }
}

impl BadgeStore {
    /// An empty store.
    pub fn new() -> (r: Self)
        ensures
            r@ == Map::<Seq<char>, BadgeView>::empty(),
    {
        let r = BadgeStore { badges: Vec::new() };
        assert(r.entries() =~= Seq::<EntryView>::empty());
        r
    }

    /// Sets or replaces the badge under `key`. Returns the previous badge
    /// under that key, if any.
    pub fn set<K: BadgeKey>(&mut self, key: K, badge: Badge) -> (r: Option<Badge>)
        ensures
            final(self)@ == old(self)@.insert(key.key_view(), badge@),
            r is Some <==> old(self)@.contains_key(key.key_view()),
            r matches Some(b) ==> b@ == old(self)@[key.key_view()],
    {
        proof {
            use_type_invariant(&*self);
        }
        let ghost k = key.key_view();
        let key = key.into_key();
        let kc = str_chars(key.as_str());
        let (pos, found) = Self::locate(&self.badges, kc.as_slice());
        let mut badges: Vec<BadgeEntry> = Vec::new();
        std::mem::swap(&mut badges, &mut self.badges);
        let ghost s = entry_views(badges@);
        let entry = BadgeEntry { key, badge };
        if found {
            let previous = badges.remove(pos);
            badges.insert(pos, entry);
            proof {
                lemma_update_sorted(s, pos as int, entry@);
                assert(entry_views(badges@) =~= s.update(pos as int, entry@));
            }
            self.badges = badges;
            Some(previous.badge)
        } else {
            badges.insert(pos, entry);
            proof {
                lemma_insert_sorted(s, pos as int, entry@);
                assert(entry_views(badges@) =~= s.insert(pos as int, entry@));
            }
            self.badges = badges;
            None
        }
    }

    /// Removes the badge under `key`. Returns the removed badge, if any.
    pub fn clear(&mut self, key: &str) -> (r: Option<Badge>)
        ensures
            final(self)@ == old(self)@.remove(key@),
            r is Some <==> old(self)@.contains_key(key@),
            r matches Some(b) ==> b@ == old(self)@[key@],
    {
        proof {
            use_type_invariant(&*self);
        }
        let kc = str_chars(key);
        let (pos, found) = Self::locate(&self.badges, kc.as_slice());
        if found {
            let mut badges: Vec<BadgeEntry> = Vec::new();
            std::mem::swap(&mut badges, &mut self.badges);
            let ghost s = entry_views(badges@);
            let removed = badges.remove(pos);
            proof {
                lemma_remove_sorted(s, pos as int);
                assert(entry_views(badges@) =~= s.remove(pos as int));
            }
            self.badges = badges;
            Some(removed.badge)
        } else {
            proof {
                lemma_gap_absent(self.entries(), pos as int, key@);
                assert(old(self)@.remove(key@) =~= old(self)@);
            }
            None
        }
    }

    /// Removes every badge.
    pub fn clear_all(&mut self)
        ensures
            final(self)@ == Map::<Seq<char>, BadgeView>::empty(),
    {
        self.badges = Vec::new();
        assert(self.entries() =~= Seq::<EntryView>::empty());
    }

    /// The entries in stable (alphabetical by key) order: keys strictly
    /// increase, and they hold exactly the badges of the store.
    pub fn iter(&self) -> (r: &[BadgeEntry])
        ensures
            keys_sorted(entry_views(r@)),
            entries_map(entry_views(r@)) == self@,
    {
        proof {
            use_type_invariant(self);
        }
        self.badges.as_slice()
    }

    /// Number of badges in the store.
    pub fn len(&self) -> (r: usize)
        ensures
            r == self@.len(),
    {
        proof {
            use_type_invariant(self);
            lemma_sorted_map_len(self.entries());
        }
        self.badges.len()
    }

    /// Whether the store holds no badge.
    pub fn is_empty(&self) -> (r: bool)
        ensures
            r == (self@.len() == 0),
            r == (self@ == Map::<Seq<char>, BadgeView>::empty()),
    {
        proof {
            use_type_invariant(self);
            lemma_sorted_map_len(self.entries());
            if self.badges@.len() > 0 {
                lemma_entries_map_domain(self.entries(), self.entries()[0].key);
                assert(self@.contains_key(self.entries()[0].key));
            } else {
                assert(self.entries() =~= Seq::<EntryView>::empty());
            }
        }
        self.badges.len() == 0
    }

    /// A snapshot of the badges as keyed entries, in stable (alphabetical by
    /// key) order.
    pub fn to_vec(&self) -> (r: Vec<BadgeEntry>)
        ensures
            keys_sorted(entry_views(r@)),
            entries_map(entry_views(r@)) == self@,
    {
        proof {
            use_type_invariant(self);
        }
        let mut out: Vec<BadgeEntry> = Vec::new();
        let mut i: usize = 0;
        while i < self.badges.len()
            invariant
                i <= self.badges@.len(),
                out@.len() == i,
                entry_views(out@) == entry_views(self.badges@).take(i as int),
            decreases self.badges.len() - i,
        {
            let e = self.badges[i].duplicate();
            let ghost before = out@;
            out.push(e);
            proof {
                assert(out@[i as int]@ == self.badges@[i as int]@);
                assert forall|j: int| 0 <= j < i implies out@[j]@ == self.badges@[j]@ by {
                    assert(out@[j] == before[j]);
                    assert(entry_views(before)[j] == entry_views(self.badges@).take(i as int)[j]);
                }
            }
            i = i + 1;
            assert(entry_views(out@) =~= entry_views(self.badges@).take(i as int));
        }
        assert(entry_views(self.badges@).take(i as int) =~= entry_views(self.badges@));
        out
    }
}

/// Sorted entries hold as many badges as their map.
pub proof fn lemma_sorted_map_len(s: Seq<EntryView>)
    requires
        keys_sorted(s),
    ensures
        entries_map(s).len() == s.len(),
        entries_map(s).dom().finite(),
    decreases s.len(),
{
    lemma_entries_map_finite(s);
    if s.len() > 0 {
        let t = s.drop_last();
        assert(keys_sorted(t));
        lemma_sorted_map_len(t);
        lemma_gap_absent(t, t.len() as int, s.last().key);
    }
}

/// The map of any sequence of entries has a finite domain.
pub proof fn lemma_entries_map_finite(s: Seq<EntryView>)
    ensures
        entries_map(s).dom().finite(),
    decreases s.len(),
{
    if s.len() > 0 {
        lemma_entries_map_finite(s.drop_last());
    }
}

impl Default for BadgeStore {
    /// An empty store.
    fn default() -> (r: Self)
        ensures
            r@ == Map::<Seq<char>, BadgeView>::empty(),
    {
        BadgeStore::new()
    }
}

impl Clone for BadgeStore {
    /// A store with the same badges.
    fn clone(&self) -> (r: Self)
        ensures
            r@ == self@,
    {
        proof {
            use_type_invariant(self);
        }
        let badges = self.to_vec();
        BadgeStore { badges }
    }
}

} // verus!

verus! {

/// The badges of file-sourced entries, by key: entries with an empty key are
/// dropped, and on a repeated key the later entry wins.
pub open spec fn file_entries_map(s: Seq<EntryView>) -> Map<Seq<char>, BadgeView>
    decreases s.len(),
{
    if s.len() == 0 {
        Map::empty()
    } else if s.last().key.len() == 0 {
        file_entries_map(s.drop_last())
    } else {
        file_entries_map(s.drop_last()).insert(s.last().key, s.last().badge)
    }
}

/// The merge of file-sourced badges with the store: every non-empty key of
/// either, and the store's badge wherever both have the key.
pub open spec fn merged_map(file: Seq<EntryView>, ipc: Map<Seq<char>, BadgeView>) -> Map<
    Seq<char>,
    BadgeView,
> {
    file_entries_map(file).union_prefer_right(ipc)
}

/// Merges file-sourced badges with the store's badges. The store wins on a key
/// conflict, file entries with an empty key are dropped, and the result comes
/// in stable (alphabetical by key) order.
pub fn merge_badges(file: &[BadgeEntry], ipc: &BadgeStore) -> (r: Vec<BadgeEntry>)
    ensures
        keys_sorted(entry_views(r@)),
        entries_map(entry_views(r@)) == merged_map(entry_views(file@), ipc@),
{
    let ghost fs = entry_views(file@);
    let mut merged = BadgeStore::new();
    let mut i: usize = 0;
    while i < file.len()
        invariant
            i <= file@.len(),
            fs == entry_views(file@),
            merged@ == file_entries_map(fs.take(i as int)),
        decreases file.len() - i,
    {
        proof {
            assert(fs.take(i + 1).drop_last() =~= fs.take(i as int));
            assert(fs.take(i + 1).last() == file@[i as int]@);
        }
        if !file[i].key.as_str().is_empty() {
            merged.set(file[i].key.clone(), file[i].badge.duplicate());
        }
        i = i + 1;
    }
    assert(fs.take(i as int) =~= fs);
    let ghost base = merged@;
    let stored = ipc.iter();
    let ghost ts = entry_views(stored@);
    let mut j: usize = 0;
    while j < stored.len()
        invariant
            j <= stored@.len(),
            ts == entry_views(stored@),
            merged@ == base.union_prefer_right(entries_map(ts.take(j as int))),
        decreases stored.len() - j,
    {
        proof {
            assert(ts.take(j + 1).drop_last() =~= ts.take(j as int));
            assert(ts.take(j + 1).last() == stored@[j as int]@);
            let m = entries_map(ts.take(j as int));
            let k = stored@[j as int].key@;
            let b = stored@[j as int].badge@;
            assert(base.union_prefer_right(m.insert(k, b)) =~= base.union_prefer_right(m).insert(k, b));
        }
        merged.set(stored[j].key.clone(), stored[j].badge.duplicate());
        j = j + 1;
    }
    assert(ts.take(j as int) =~= ts);
    merged.to_vec()
}

} // verus!

verus! {

/// `text` cut for display to at most `max` characters: kept as is when it
/// fits, otherwise its first `max - 1` characters followed by an ellipsis
/// (nothing at all when `max` is 0).
pub open spec fn truncated(text: Seq<char>, max: nat) -> Seq<char> {
    if text.len() <= max {
        text
    } else if max == 0 {
        Seq::empty()
    } else {
        text.take(max - 1).push('…')
    }
}

/// Truncates badge text for display: keeps the first `max` characters,
/// ending in an ellipsis `…` if truncation occurred. `max == 0` gives an
/// empty string.
pub fn truncate_text(text: &str, max: usize) -> (r: String)
    ensures
        r@ == truncated(text@, max as nat),
{
    let n = text.unicode_len();
    if n <= max {
        text.to_owned()
    } else if max == 0 {
        String::new()
    } else {
        let kept = text.substring_char(0, max - 1).to_owned();
        proof {
            reveal_strlit("…");
        }
        let r = kept.concat("…");
        assert(r@ =~= text@.take(max - 1).push('…'));
        r
    }
}

/// Display truncation keeps the start of the text: text that fits is kept
/// whole; longer text becomes exactly `max` characters, its first `max - 1`
/// followed by `…` (nothing when `max` is 0).
pub proof fn law_truncate_keeps_start(text: Seq<char>, max: nat)
    ensures
        text.len() <= max ==> truncated(text, max) == text,
        text.len() > max && max > 0 ==> {
            &&& truncated(text, max).len() == max
            &&& truncated(text, max).take(max - 1) == text.take(max - 1)
            &&& truncated(text, max).last() == '…'
        },
        text.len() > max && max == 0 ==> truncated(text, max).len() == 0,
{
    if text.len() > max && max > 0 {
        assert(truncated(text, max).take(max - 1) =~= text.take(max - 1));
    }
}

/// Truncated text never exceeds the limit, and truncating twice with the same
/// limit changes nothing more.
pub proof fn lemma_truncate_idempotent(text: Seq<char>, max: nat)
    ensures
        truncated(text, max).len() <= max,
        truncated(truncated(text, max), max) == truncated(text, max),
{
}

} // verus!

verus! {

/// Setting a key twice keeps the later badge only; badges under other keys
/// stay as they were (distinct keys stack).
pub proof fn law_set_replaces(m: Map<Seq<char>, BadgeView>, k: Seq<char>, b1: BadgeView, b2: BadgeView, other: Seq<char>)
    requires
        other != k,
    ensures
        m.insert(k, b1).insert(k, b2) == m.insert(k, b2),
        m.insert(k, b2)[k] == b2,
        m.insert(k, b1).insert(other, b2).contains_key(k),
        m.insert(k, b1).insert(other, b2)[k] == b1,
{
    assert(m.insert(k, b1).insert(k, b2) =~= m.insert(k, b2));
}

/// Clearing a key that was just set, when it was absent before, gives back
/// the store as it was; clearing an absent key changes nothing.
pub proof fn law_set_then_clear(m: Map<Seq<char>, BadgeView>, k: Seq<char>, b: BadgeView)
    requires
        !m.contains_key(k),
    ensures
        m.insert(k, b).remove(k) == m,
        m.remove(k) == m,
{
    assert(m.insert(k, b).remove(k) =~= m);
    assert(m.remove(k) =~= m);
}

/// File entries with an empty key never reach the merged badges through the
/// file side.
pub proof fn law_file_map_no_empty_key(file: Seq<EntryView>)
    ensures
        !file_entries_map(file).contains_key(Seq::<char>::empty()),
    decreases file.len(),
{
    if file.len() > 0 {
        law_file_map_no_empty_key(file.drop_last());
    }
}

/// Every file entry with a non-empty key reaches the file side of a merge,
/// and the last entry of a key gives that key's badge; the file side holds
/// no key that no entry has.
pub proof fn law_file_map_entries(file: Seq<EntryView>, i: int, k: Seq<char>)
    ensures
        0 <= i < file.len() && file[i].key.len() > 0 ==> file_entries_map(file).contains_key(file[i].key),
        0 <= i < file.len() && file[i].key.len() > 0 && (forall|j: int| i < j < file.len() ==> (#[trigger] file[j]).key
            != file[i].key) ==> file_entries_map(file)[file[i].key] == file[i].badge,
        file_entries_map(file).contains_key(k) ==> k.len() > 0 && exists|j: int|
            0 <= j < file.len() && (#[trigger] file[j]).key == k && file_entries_map(file)[k] == file[j].badge,
    decreases file.len(),
{
    if file.len() > 0 {
        let front = file.drop_last();
        let n = file.len() - 1;
        law_file_map_entries(front, i, k);
        if 0 <= i < n {
            assert(front[i] == file[i]);
            if file[i].key.len() > 0 && (forall|j: int| i < j < file.len() ==> (#[trigger] file[j]).key != file[i].key) {
                assert(file[n].key != file[i].key);
                assert forall|j: int| i < j < front.len() implies (#[trigger] front[j]).key != front[i].key by {
                    assert(front[j] == file[j]);
                }
            }
        }
        if file_entries_map(file).contains_key(k) {
            if file[n].key.len() > 0 && file[n].key == k {
                assert(file[n].key == k);
            } else {
                let j = choose|j: int|
                    0 <= j < front.len() && (#[trigger] front[j]).key == k && file_entries_map(front)[k] == front[j].badge;
                assert(file[j] == front[j]);
            }
        }
    }
}

/// In a merge, the store wins on every key it holds; a key only the file has
/// keeps the file's last badge for it; no other key appears.
pub proof fn law_merge_store_wins(file: Seq<EntryView>, ipc: Map<Seq<char>, BadgeView>, k: Seq<char>)
    ensures
        ipc.contains_key(k) ==> merged_map(file, ipc).contains_key(k) && merged_map(file, ipc)[k] == ipc[k],
        !ipc.contains_key(k) ==> (merged_map(file, ipc).contains_key(k) <==> file_entries_map(file).contains_key(k)),
        !ipc.contains_key(k) && file_entries_map(file).contains_key(k) ==> merged_map(file, ipc)[k]
            == file_entries_map(file)[k],
{
}

/// Merging with no file badges gives the store's badges.
pub proof fn law_merge_without_file(ipc: Map<Seq<char>, BadgeView>)
    ensures
        merged_map(Seq::empty(), ipc) == ipc,
{
    assert(merged_map(Seq::empty(), ipc) =~= ipc);
}

/// Two sorted listings of the same badges are the same listing: the order of
/// every listing is determined by its keys.
pub proof fn law_sorted_listing_unique(s: Seq<EntryView>, t: Seq<EntryView>)
    requires
        keys_sorted(s),
        keys_sorted(t),
        entries_map(s) == entries_map(t),
    ensures
        s == t,
    decreases s.len(),
{
    lemma_sorted_map_len(s);
    lemma_sorted_map_len(t);
    if s.len() > 0 {
        let n = s.len() - 1;
        // The last entries hold the greatest key of the common map.
        lemma_entries_map_domain(s, t[n].key);
        lemma_entries_map_domain(t, s[n].key);
        lemma_sorted_unique(s);
        lemma_sorted_unique(t);
        lemma_entries_map_value(t, n);
        lemma_entries_map_value(s, n);
        let i = choose|i: int| 0 <= i < s.len() && #[trigger] s[i].key == t[n].key;
        let j = choose|j: int| 0 <= j < t.len() && #[trigger] t[j].key == s[n].key;
        if i < n {
            assert(seq_lt(s[i].key, s[n].key));
            if j < n {
                assert(seq_lt(t[j].key, t[n].key));
                lemma_seq_lt_asymmetric(s[n].key, t[n].key);
            }
        }
        if j < n {
            assert(seq_lt(t[j].key, t[n].key));
        }
        assert(s[n].key == t[n].key) by {
            if s[n].key != t[n].key {
                if i < n && j < n {
                    lemma_seq_lt_asymmetric(s[n].key, t[n].key);
                }
            }
        }
        lemma_entries_map_value(s, n);
        let s2 = s.drop_last();
        let t2 = t.drop_last();
        assert(keys_sorted(s2));
        assert(keys_sorted(t2));
        lemma_gap_absent(s2, s2.len() as int, s[n].key);
        lemma_gap_absent(t2, t2.len() as int, t[n].key);
        assert(entries_map(s2) =~= entries_map(s).remove(s[n].key));
        assert(entries_map(t2) =~= entries_map(t).remove(t[n].key));
        law_sorted_listing_unique(s2, t2);
        assert(s =~= s2.push(s[n]));
        assert(t =~= t2.push(t[n]));
    } else {
        assert(s =~= t);
    }
}

} // verus!

verus! {

impl PartialEq for BadgeStore {
    /// Two stores are equal when they hold the same badges under the same keys.
    fn eq(&self, other: &Self) -> (r: bool) {
        proof {
            use_type_invariant(self);
            use_type_invariant(other);
            lemma_sorted_map_len(self.entries());
            lemma_sorted_map_len(other.entries());
        }
        let ghost s = self.entries();
        let ghost t = other.entries();
        if self.badges.len() != other.badges.len() {
            return false;
        }
        let mut i: usize = 0;
        while i < self.badges.len()
            invariant
                i <= self.badges@.len(),
                self.badges@.len() == other.badges@.len(),
                s == entry_views(self.badges@),
                t == entry_views(other.badges@),
                keys_sorted(s),
                keys_sorted(t),
                forall|j: int| 0 <= j < i ==> s[j] == t[j],
            decreases self.badges.len() - i,
        {
            let a = &self.badges[i];
            let b = &other.badges[i];
            if !str_eq(a.key.as_str(), b.key.as_str()) || !str_eq(a.badge.text.as_str(), b.badge.text.as_str())
                || !str_eq(a.badge.color.as_str(), b.badge.color.as_str()) {
                proof {
                    assert(s[i as int] != t[i as int]);
                    if entries_map(s) == entries_map(t) {
                        law_sorted_listing_unique(s, t);
                    }
                }
                return false;
            }
            assert(s[i as int] == t[i as int]);
            i = i + 1;
        }
        assert(s =~= t);
        true
    }
}

impl vstd::std_specs::cmp::PartialEqSpecImpl for BadgeStore {
    open spec fn obeys_eq_spec() -> bool {
        true
    }

    open spec fn eq_spec(&self, other: &BadgeStore) -> bool {
        self@ == other@
    }
}

impl Eq for BadgeStore {
}

} // verus!
