//! Window memory: windows evacuated from a vanished monitor slot, keyed by
//! window address, each with the home workspace to restore when that
//! monitor returns. Entries are kept in ascending address order (the
//! order of code points, which is also the byte order of their UTF-8
//! text), so restores run in a deterministic order.

use crate::text::chars_of;
use vstd::prelude::*;

verus! {

/// One remembered window: its address and its home workspace.
pub type EntryView = (Seq<char>, int);

/// Strict lexicographic order on addresses, by code point.
pub open spec fn key_lt(a: Seq<char>, b: Seq<char>) -> bool
    decreases a.len(),
{
    if a.len() == 0 {
        b.len() > 0
    } else if b.len() == 0 {
        false
    } else if a[0] != b[0] {
        (a[0] as u32) < (b[0] as u32)
    } else {
        key_lt(a.drop_first(), b.drop_first())
    }
}

/// Addresses strictly ascend along the entries, so none occurs twice.
pub open spec fn sorted_keys(s: Seq<EntryView>) -> bool {
    forall|i: int, j: int| 0 <= i < j < s.len() ==> key_lt(#[trigger] s[i].0, #[trigger] s[j].0)
}

/// The entries as a map from address to home workspace.
pub open spec fn entries_map(s: Seq<EntryView>) -> Map<Seq<char>, int>
    decreases s.len(),
{
    if s.len() == 0 {
        Map::empty()
    } else {
        entries_map(s.drop_last()).insert(s.last().0, s.last().1)
    }
}

/// The entries after remembering `home` for address `k`: a new address
/// takes its place in address order; a known address gets the new home.
pub open spec fn insert_sorted(s: Seq<EntryView>, k: Seq<char>, home: int) -> Seq<EntryView>
    decreases s.len(),
{
    if s.len() == 0 {
        seq![(k, home)]
    } else if s[0].0 == k {
        seq![(k, home)] + s.drop_first()
    } else if key_lt(k, s[0].0) {
        seq![(k, home)] + s
    } else {
        seq![s[0]] + insert_sorted(s.drop_first(), k, home)
    }
}

// ---------------------------------------------------------------------
// Facts about the address order
// ---------------------------------------------------------------------

pub proof fn lemma_key_lt_irreflexive(a: Seq<char>)
    ensures
        !key_lt(a, a),
    decreases a.len(),
{
    if a.len() > 0 {
        lemma_key_lt_irreflexive(a.drop_first());
    }
}

pub proof fn lemma_key_lt_asymmetric(a: Seq<char>, b: Seq<char>)
    requires
        key_lt(a, b),
    ensures
        !key_lt(b, a),
    decreases a.len(),
{
    if a.len() > 0 && b.len() > 0 && a[0] == b[0] {
        lemma_key_lt_asymmetric(a.drop_first(), b.drop_first());
    }
}

pub proof fn lemma_key_lt_transitive(a: Seq<char>, b: Seq<char>, c: Seq<char>)
    requires
        key_lt(a, b),
        key_lt(b, c),
    ensures
        key_lt(a, c),
    decreases a.len(),
{
    if a.len() > 0 && b.len() > 0 && c.len() > 0 && a[0] == b[0] && b[0] == c[0] {
        lemma_key_lt_transitive(a.drop_first(), b.drop_first(), c.drop_first());
    }
}

pub proof fn lemma_key_lt_total(a: Seq<char>, b: Seq<char>)
    requires
        a != b,
    ensures
        key_lt(a, b) || key_lt(b, a),
    decreases a.len(),
{
    if a.len() > 0 && b.len() > 0 && a[0] == b[0] {
        if a.drop_first() == b.drop_first() {
            assert(a =~= seq![a[0]] + a.drop_first());
            assert(b =~= seq![b[0]] + b.drop_first());
        }
        lemma_key_lt_total(a.drop_first(), b.drop_first());
    } else if a.len() > 0 && b.len() > 0 {
        vstd::utf8::char_u32_cast(a[0], a[0] as u32);
        vstd::utf8::char_u32_cast(b[0], b[0] as u32);
        assert((a[0] as u32) != (b[0] as u32));
    } else if a.len() == 0 && b.len() == 0 {
        assert(a =~= b);
    }
}

/// Comparison result for two addresses.
pub enum KeyOrder {
    Less,
    Equal,
    Greater,
}

/// Compares two addresses by code point.
pub fn compare_keys(a: &Vec<char>, b: &Vec<char>) -> (r: KeyOrder)
    ensures
        r is Less <==> key_lt(a@, b@),
        r is Equal <==> a@ == b@,
        r is Greater <==> key_lt(b@, a@),
{
    let mut i: usize = 0;
    assert(a@.skip(0) =~= a@);
    assert(b@.skip(0) =~= b@);
    while i < a.len() && i < b.len() && a[i] == b[i]
        invariant
            i <= a@.len(),
            i <= b@.len(),
            a@.take(i as int) == b@.take(i as int),
            key_lt(a@, b@) == key_lt(a@.skip(i as int), b@.skip(i as int)),
            key_lt(b@, a@) == key_lt(b@.skip(i as int), a@.skip(i as int)),
        decreases a@.len() - i,
    {
        proof {
            assert(a@.skip(i as int).drop_first() =~= a@.skip(i + 1));
            assert(b@.skip(i as int).drop_first() =~= b@.skip(i + 1));
            assert(a@.take(i + 1) =~= a@.take(i as int).push(a@[i as int]));
            assert(b@.take(i + 1) =~= b@.take(i as int).push(b@[i as int]));
        }
        i = i + 1;
    }
    proof {
        lemma_key_lt_irreflexive(a@);
        if a@ != b@ {
            lemma_key_lt_total(a@, b@);
        }
        if key_lt(a@, b@) {
            lemma_key_lt_asymmetric(a@, b@);
        }
    }
    if i == a.len() && i == b.len() {
        assert(a@ =~= a@.take(i as int));
        assert(b@ =~= b@.take(i as int));
        KeyOrder::Equal
    } else if i == a.len() {
        assert(a@.skip(i as int).len() == 0);
        assert(a@ != b@);
        KeyOrder::Less
    } else if i == b.len() {
        assert(b@.skip(i as int).len() == 0);
        assert(a@ != b@);
        KeyOrder::Greater
    } else if (a[i] as u32) < (b[i] as u32) {
        assert(a@ != b@) by {
            assert(a@[i as int] != b@[i as int]);
        }
        KeyOrder::Less
    } else {
        assert(a@ != b@) by {
            assert(a@[i as int] != b@[i as int]);
        }
        KeyOrder::Greater
    }
}

// ---------------------------------------------------------------------
// Facts about sorted insertion
// ---------------------------------------------------------------------

/// Every key of `insert_sorted(s, k, _)` is `k` or a key of `s`.
proof fn lemma_insert_keys(s: Seq<EntryView>, k: Seq<char>, home: int, x: int)
    requires
        0 <= x < insert_sorted(s, k, home).len(),
    ensures
        insert_sorted(s, k, home)[x].0 == k || exists|y: int|
            0 <= y < s.len() && s[y].0 == #[trigger] insert_sorted(s, k, home)[x].0,
    decreases s.len(),
{
    if s.len() > 0 && s[0].0 != k && !key_lt(k, s[0].0) {
        if x > 0 {
            lemma_insert_keys(s.drop_first(), k, home, x - 1);
            let e = insert_sorted(s, k, home)[x];
            assert(e == insert_sorted(s.drop_first(), k, home)[x - 1]);
            if e.0 != k {
                let y = choose|y: int|
                    0 <= y < s.drop_first().len() && s.drop_first()[y].0 == insert_sorted(
                        s.drop_first(),
                        k,
                        home,
                    )[x - 1].0;
                assert(s[y + 1].0 == e.0);
            }
        } else {
            assert(insert_sorted(s, k, home)[0] == s[0]);
        }
    } else if s.len() > 0 && s[0].0 == k {
        if x > 0 {
            assert(insert_sorted(s, k, home)[x] == s[x]);
        }
    } else if s.len() > 0 {
        if x > 0 {
            assert(insert_sorted(s, k, home)[x] == s[x - 1]);
        }
    }
}

/// Sorted insertion keeps the entries sorted and records the home.
pub proof fn lemma_insert_sorted(s: Seq<EntryView>, k: Seq<char>, home: int)
    requires
        sorted_keys(s),
    ensures
        sorted_keys(insert_sorted(s, k, home)),
        entries_map(insert_sorted(s, k, home)) == entries_map(s).insert(k, home),
    decreases s.len(),
{
    let r = insert_sorted(s, k, home);
    if s.len() == 0 {
        lemma_map_single((k, home));
        assert(entries_map(s) =~= Map::<Seq<char>, int>::empty());
    } else if s[0].0 == k {
        assert forall|i: int, j: int| 0 <= i < j < r.len() implies key_lt(
            #[trigger] r[i].0,
            #[trigger] r[j].0,
        ) by {
            assert(r[j] == s[j]);
            if i > 0 {
                assert(r[i] == s[i]);
            }
        }
        lemma_map_replace_first(s, k, home);
    } else if key_lt(k, s[0].0) {
        assert forall|i: int, j: int| 0 <= i < j < r.len() implies key_lt(
            #[trigger] r[i].0,
            #[trigger] r[j].0,
        ) by {
            assert(r[j] == s[j - 1]);
            if i > 0 {
                assert(r[i] == s[i - 1]);
            } else if j - 1 > 0 {
                lemma_key_lt_transitive(k, s[0].0, s[j - 1].0);
            }
        }
        lemma_map_prepend_new(s, k, home);
    } else {
        let t = s.drop_first();
        assert(sorted_keys(t)) by {
            assert forall|i: int, j: int| 0 <= i < j < t.len() implies key_lt(
                #[trigger] t[i].0,
                #[trigger] t[j].0,
            ) by {
                assert(t[i] == s[i + 1] && t[j] == s[j + 1]);
            }
        }
        lemma_insert_sorted(t, k, home);
        lemma_key_lt_total(k, s[0].0);
        assert forall|i: int, j: int| 0 <= i < j < r.len() implies key_lt(
            #[trigger] r[i].0,
            #[trigger] r[j].0,
        ) by {
            if i == 0 {
                assert(r[0] == s[0]);
                let rest = insert_sorted(t, k, home);
                assert(r[j] == rest[j - 1]);
                lemma_insert_keys(t, k, home, j - 1);
                if rest[j - 1].0 != k {
                    let y = choose|y: int|
                        0 <= y < t.len() && t[y].0 == #[trigger] insert_sorted(t, k, home)[j
                            - 1].0;
                    assert(t[y] == s[y + 1]);
                }
            } else {
                assert(r[i] == insert_sorted(t, k, home)[i - 1]);
                assert(r[j] == insert_sorted(t, k, home)[j - 1]);
            }
        }
        assert forall|x: int| 0 <= x < insert_sorted(t, k, home).len() implies #[trigger] insert_sorted(
            t,
            k,
            home,
        )[x].0 != s[0].0 by {
            lemma_insert_keys(t, k, home, x);
            if insert_sorted(t, k, home)[x].0 != k {
                let y = choose|y: int|
                    0 <= y < t.len() && t[y].0 == #[trigger] insert_sorted(t, k, home)[x].0;
                assert(t[y] == s[y + 1]);
                assert(key_lt(s[0].0, s[y + 1].0));
                lemma_key_lt_irreflexive(s[0].0);
            }
        }
        lemma_map_prepend_rest(s, k, home);
    }
}

proof fn lemma_map_single(e: EntryView)
    ensures
        entries_map(seq![e]) == Map::<Seq<char>, int>::empty().insert(e.0, e.1),
{
    assert(seq![e].drop_last() =~= Seq::<EntryView>::empty());
    assert(seq![e].last() == e);
    assert(entries_map(Seq::<EntryView>::empty()) == Map::<Seq<char>, int>::empty());
}

proof fn lemma_map_of_prepend(e: EntryView, t: Seq<EntryView>)
    requires
        forall|i: int| 0 <= i < t.len() ==> t[i].0 != e.0,
    ensures
        entries_map(seq![e] + t) == entries_map(t).insert(e.0, e.1),
    decreases t.len(),
{
    if t.len() == 0 {
        assert(seq![e] + t =~= seq![e]);
        lemma_map_single(e);
        assert(entries_map(t) =~= Map::<Seq<char>, int>::empty());
    } else {
        let u = t.drop_last();
        assert forall|i: int| 0 <= i < u.len() implies u[i].0 != e.0 by {
            assert(u[i] == t[i]);
        }
        lemma_map_of_prepend(e, u);
        assert((seq![e] + t).drop_last() =~= seq![e] + u);
        assert((seq![e] + t).last() == t.last());
        assert(t.last() == t[t.len() - 1]);
        assert(entries_map(seq![e] + t) == entries_map(u).insert(e.0, e.1).insert(
            t.last().0,
            t.last().1,
        ));
        assert(entries_map(t) == entries_map(u).insert(t.last().0, t.last().1));
        assert(entries_map(seq![e] + t) =~= entries_map(t).insert(e.0, e.1));
    }
}

proof fn lemma_sorted_first_not_in_rest(s: Seq<EntryView>)
    requires
        sorted_keys(s),
        s.len() > 0,
    ensures
        forall|i: int| 0 <= i < s.drop_first().len() ==> s.drop_first()[i].0 != s[0].0,
{
    assert forall|i: int| 0 <= i < s.drop_first().len() implies s.drop_first()[i].0 != s[0].0 by {
        assert(s.drop_first()[i] == s[i + 1]);
        assert(key_lt(s[0].0, s[i + 1].0));
        lemma_key_lt_irreflexive(s[0].0);
    }
}

proof fn lemma_map_replace_first(s: Seq<EntryView>, k: Seq<char>, home: int)
    requires
        sorted_keys(s),
        s.len() > 0,
        s[0].0 == k,
    ensures
        entries_map(seq![(k, home)] + s.drop_first()) == entries_map(s).insert(k, home),
{
    lemma_sorted_first_not_in_rest(s);
    lemma_map_of_prepend((k, home), s.drop_first());
    lemma_map_of_prepend(s[0], s.drop_first());
    assert(seq![s[0]] + s.drop_first() =~= s);
    assert(entries_map(s.drop_first()).insert(k, s[0].1).insert(k, home) =~= entries_map(
        s.drop_first(),
    ).insert(k, home));
}

proof fn lemma_map_prepend_new(s: Seq<EntryView>, k: Seq<char>, home: int)
    requires
        sorted_keys(s),
        s.len() > 0,
        key_lt(k, s[0].0),
    ensures
        entries_map(seq![(k, home)] + s) == entries_map(s).insert(k, home),
{
    assert forall|i: int| 0 <= i < s.len() implies s[i].0 != k by {
        if i > 0 {
            lemma_key_lt_transitive(k, s[0].0, s[i].0);
        }
        lemma_key_lt_irreflexive(k);
    }
    lemma_map_of_prepend((k, home), s);
}

proof fn lemma_map_prepend_rest(s: Seq<EntryView>, k: Seq<char>, home: int)
    requires
        sorted_keys(s),
        s.len() > 0,
        s[0].0 != k,
        entries_map(insert_sorted(s.drop_first(), k, home)) == entries_map(s.drop_first()).insert(
            k,
            home,
        ),
        sorted_keys(insert_sorted(s.drop_first(), k, home)),
        forall|x: int|
            0 <= x < insert_sorted(s.drop_first(), k, home).len() ==> #[trigger] insert_sorted(
                s.drop_first(),
                k,
                home,
            )[x].0 != s[0].0,
    ensures
        entries_map(seq![s[0]] + insert_sorted(s.drop_first(), k, home)) == entries_map(s).insert(
            k,
            home,
        ),
{
    let t = s.drop_first();
    lemma_sorted_first_not_in_rest(s);
    lemma_map_of_prepend(s[0], insert_sorted(t, k, home));
    lemma_map_of_prepend(s[0], t);
    assert(seq![s[0]] + t =~= s);
    assert(entries_map(t).insert(k, home).insert(s[0].0, s[0].1) =~= entries_map(t).insert(
        s[0].0,
        s[0].1,
    ).insert(k, home));
}

// ---------------------------------------------------------------------
// The memory itself
// ---------------------------------------------------------------------

/// Windows evacuated from a vanished monitor slot, each with its home
/// workspace, in ascending address order.
#[derive(Debug, PartialEq, Eq)]
pub struct WindowMemory {
    entries: Vec<(String, i64)>,
}

impl View for WindowMemory {
    type V = Seq<EntryView>;

    closed spec fn view(&self) -> Seq<EntryView> {
        self.entries@.map_values(|e: (String, i64)| (e.0@, e.1 as int))
    }
}

impl WindowMemory {
    /// Addresses strictly ascend, so each window is remembered once.
    #[verifier::type_invariant]
    pub closed spec fn wf(&self) -> bool {
        sorted_keys(self@)
    }

    /// An empty memory.
    pub fn new() -> (r: WindowMemory)
        ensures
            r@ == Seq::<EntryView>::empty(),
    {
        let r = WindowMemory { entries: Vec::new() };
        assert(r@ =~= Seq::<EntryView>::empty());
        r
    }

    /// The remembered addresses strictly ascend, so each window is
    /// remembered once: what the laws on memories take as given.
    pub fn addresses_ascend(&self)
        ensures
            sorted_keys(self@),
    {
        proof {
            use_type_invariant(self);
        }
    }

    /// Number of remembered windows.
    pub fn len(&self) -> (r: usize)
        ensures
            r == self@.len(),
    {
        self.entries.len()
    }

    /// Whether nothing is remembered.
    pub fn is_empty(&self) -> (r: bool)
        ensures
            r == (self@.len() == 0),
    {
        self.entries.len() == 0
    }

    /// The `i`-th remembered window, in address order.
    pub fn entry(&self, i: usize) -> (r: (&String, i64))
        requires
            i < self@.len(),
        ensures
            r.0@ == self@[i as int].0,
            r.1 == self@[i as int].1,
    {
        (&self.entries[i].0, self.entries[i].1)
    }

    /// The home remembered for an address, if any.
    pub fn get(&self, address: &str) -> (r: Option<i64>)
        ensures
            match r {
                Some(h) => entries_map(self@).contains_key(address@) && entries_map(self@)[address@]
                    == h,
                None => !entries_map(self@).contains_key(address@),
            },
    {
        proof {
            use_type_invariant(self);
        }
        let key = chars_of(address);
        let mut i: usize = 0;
        while i < self.entries.len()
            invariant
                i <= self@.len(),
                self@.len() == self.entries@.len(),
                sorted_keys(self@),
                key@ == address@,
                forall|j: int| 0 <= j < i ==> self@[j].0 != key@,
            decreases self@.len() - i,
        {
            let k = chars_of(self.entries[i].0.as_str());
            assert(self@[i as int].0 == k@);
            match compare_keys(&k, &key) {
                KeyOrder::Equal => {
                    proof {
                        lemma_map_lookup(self@, i as int);
                    }
                    return Some(self.entries[i].1);
                },
                _ => {},
            }
            i = i + 1;
        }
        proof {
            lemma_map_absent(self@, key@);
        }
        None
    }

    /// Remembers `home` as the home workspace of `address`, replacing any
    /// earlier home of that address.
    pub fn insert(&mut self, address: String, home: i64)
        ensures
            final(self)@ == insert_sorted(old(self)@, address@, home as int),
            entries_map(final(self)@) == entries_map(old(self)@).insert(address@, home as int),
    {
        proof {
            use_type_invariant(&*self);
            lemma_insert_sorted(self@, address@, home as int);
        }
        let ghost old_view = self@;
        let mut entries: Vec<(String, i64)> = Vec::new();
        std::mem::swap(&mut entries, &mut self.entries);
        let ghost ev = entries@.map_values(|e: (String, i64)| (e.0@, e.1 as int));
        assert(ev == old_view);
        let key = chars_of(address.as_str());
        let mut p: usize = 0;
        while p < entries.len() && key_before(&entries[p].0, &key)
            invariant
                p <= entries@.len(),
                ev == entries@.map_values(|e: (String, i64)| (e.0@, e.1 as int)),
                sorted_keys(ev),
                key@ == address@,
                forall|j: int| 0 <= j < p ==> key_lt(#[trigger] ev[j].0, key@),
            decreases entries@.len() - p,
        {
            assert(ev[p as int].0 == entries@[p as int].0@);
            p = p + 1;
        }
        let same = p < entries.len() && key_equals(&entries[p].0, &key);
        proof {
            if p < entries.len() {
                assert(ev[p as int].0 == entries@[p as int].0@);
                if !same {
                    lemma_key_lt_total(ev[p as int].0, key@);
                }
            }
        }
        proof {
            lemma_insert_at(ev, address@, home as int, p as int, same);
        }
        if same {
            entries.set(p, (address, home));
        } else {
            entries.insert(p, (address, home));
        }
        let ghost nv = entries@.map_values(|e: (String, i64)| (e.0@, e.1 as int));
        proof {
            if same {
                assert(nv =~= ev.take(p as int) + seq![(address@, home as int)] + ev.skip(p + 1));
            } else {
                assert(nv =~= ev.take(p as int) + seq![(address@, home as int)] + ev.skip(
                    p as int,
                ));
            }
        }
        self.entries = entries;
    }

    /// Moves every entry out, in address order, leaving the memory empty.
    pub(crate) fn take_all(&mut self) -> (r: Vec<(String, i64)>)
        ensures
            r@.map_values(|e: (String, i64)| (e.0@, e.1 as int)) == old(self)@,
            sorted_keys(old(self)@),
            final(self)@ == Seq::<EntryView>::empty(),
    {
        proof {
            use_type_invariant(&*self);
        }
        let mut entries: Vec<(String, i64)> = Vec::new();
        std::mem::swap(&mut entries, &mut self.entries);
        assert(self@ =~= Seq::<EntryView>::empty());
        entries
    }

    /// Replaces the (empty) contents by sorted entries.
    pub(crate) fn put_all(&mut self, entries: Vec<(String, i64)>)
        requires
            sorted_keys(entries@.map_values(|e: (String, i64)| (e.0@, e.1 as int))),
        ensures
            final(self)@ == entries@.map_values(|e: (String, i64)| (e.0@, e.1 as int)),
    {
        self.entries = entries;
    }
}

/// Whether an address sorts strictly before `key`.
fn key_before(a: &String, key: &Vec<char>) -> (r: bool)
    ensures
        r == key_lt(a@, key@),
{
    let k = chars_of(a.as_str());
    match compare_keys(&k, key) {
        KeyOrder::Less => true,
        _ => false,
    }
}

/// Whether an address equals `key`.
fn key_equals(a: &String, key: &Vec<char>) -> (r: bool)
    ensures
        r == (a@ == key@),
{
    let k = chars_of(a.as_str());
    match compare_keys(&k, key) {
        KeyOrder::Equal => true,
        _ => false,
    }
}

/// The entry at index `i` of sorted entries is what the map holds.
proof fn lemma_map_lookup(s: Seq<EntryView>, i: int)
    requires
        sorted_keys(s),
        0 <= i < s.len(),
    ensures
        entries_map(s).contains_key(s[i].0),
        entries_map(s)[s[i].0] == s[i].1,
    decreases s.len(),
{
    if i < s.len() - 1 {
        let t = s.drop_last();
        assert(sorted_keys(t)) by {
            assert forall|a: int, b: int| 0 <= a < b < t.len() implies key_lt(
                #[trigger] t[a].0,
                #[trigger] t[b].0,
            ) by {
                assert(t[a] == s[a] && t[b] == s[b]);
            }
        }
        lemma_map_lookup(t, i);
        assert(key_lt(s[i].0, s.last().0));
        lemma_key_lt_irreflexive(s[i].0);
        assert(t[i] == s[i]);
    }
}

/// A key absent from the entries is absent from the map.
proof fn lemma_map_absent(s: Seq<EntryView>, k: Seq<char>)
    requires
        forall|j: int| 0 <= j < s.len() ==> s[j].0 != k,
    ensures
        !entries_map(s).contains_key(k),
    decreases s.len(),
{
    if s.len() > 0 {
        lemma_map_absent(s.drop_last(), k);
        assert(s.last() == s[s.len() - 1]);
    }
}

/// Sorted insertion at the position of the first key not below `k`.
proof fn lemma_insert_at(s: Seq<EntryView>, k: Seq<char>, home: int, p: int, same: bool)
    requires
        sorted_keys(s),
        0 <= p <= s.len(),
        forall|j: int| 0 <= j < p ==> key_lt(#[trigger] s[j].0, k),
        same ==> p < s.len() && s[p].0 == k,
        !same ==> p == s.len() || key_lt(k, s[p].0),
    ensures
        insert_sorted(s, k, home) == if same {
            s.take(p) + seq![(k, home)] + s.skip(p + 1)
        } else {
            s.take(p) + seq![(k, home)] + s.skip(p)
        },
    decreases p,
{
    lemma_key_lt_irreflexive(k);
    if p == 0 {
        assert(s.take(0) =~= Seq::<EntryView>::empty());
        if same {
            assert(s.skip(1) =~= s.drop_first());
            assert(seq![(k, home)] + s.drop_first() =~= s.take(0) + seq![(k, home)] + s.skip(1));
        } else {
            assert(s.skip(0) =~= s);
            if s.len() == 0 {
                assert(s.take(0) + seq![(k, home)] + s.skip(0) =~= seq![(k, home)]);
            } else {
                assert(s.take(0) + seq![(k, home)] + s.skip(0) =~= seq![(k, home)] + s);
            }
        }
    } else {
        let t = s.drop_first();
        assert(sorted_keys(t)) by {
            assert forall|a: int, b: int| 0 <= a < b < t.len() implies key_lt(
                #[trigger] t[a].0,
                #[trigger] t[b].0,
            ) by {
                assert(t[a] == s[a + 1] && t[b] == s[b + 1]);
            }
        }
        assert forall|j: int| 0 <= j < p - 1 implies key_lt(#[trigger] t[j].0, k) by {
            assert(t[j] == s[j + 1]);
        }
        lemma_insert_at(t, k, home, p - 1, same);
        assert(key_lt(s[0].0, k));
        lemma_key_lt_irreflexive(k);
        lemma_key_lt_asymmetric(s[0].0, k);
        assert(s[0].0 != k);
        if same {
            assert(seq![s[0]] + (t.take(p - 1) + seq![(k, home)] + t.skip(p)) =~= s.take(p)
                + seq![(k, home)] + s.skip(p + 1));
        } else {
            assert(seq![s[0]] + (t.take(p - 1) + seq![(k, home)] + t.skip(p - 1)) =~= s.take(
                p,
            ) + seq![(k, home)] + s.skip(p));
        }
    }
}

} // verus!
