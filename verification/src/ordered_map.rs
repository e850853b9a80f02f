//! A map from text keys to values that keeps its entries in increasing key
//! order, the order in which the OpenAPI document's maps are walked.
use vstd::prelude::*;

use crate::text::{chars_of, str_eq};

verus! {

/// Lexicographic order on character sequences, comparing characters by code
/// point; it is the order `String`'s `Ord` gives.
pub open spec fn key_lt(a: Seq<char>, b: Seq<char>) -> bool
    decreases a.len(),
{
    if b.len() == 0 {
        false
    } else if a.len() == 0 {
        true
    } else if a[0] < b[0] {
        true
    } else if a[0] == b[0] {
        key_lt(a.drop_first(), b.drop_first())
    } else {
        false
    }
}

/// The keys of `entries` strictly increase.
pub open spec fn keys_increasing<V>(entries: Seq<(Seq<char>, V)>) -> bool {
    forall|i: int, j: int|
        0 <= i < j < entries.len() ==> key_lt(#[trigger] entries[i].0, #[trigger] entries[j].0)
}

/// Whether some entry has key `k`.
pub open spec fn has_key<V>(entries: Seq<(Seq<char>, V)>, k: Seq<char>) -> bool {
    exists|i: int| 0 <= i < entries.len() && #[trigger] entries[i].0 == k
}

/// The position of the first entry with key `k`, or -1.
pub open spec fn position_of<V>(entries: Seq<(Seq<char>, V)>, k: Seq<char>) -> int
    decreases entries.len(),
{
    if entries.len() == 0 {
        -1
    } else {
        let p = position_of(entries.drop_last(), k);
        if p >= 0 {
            p
        } else if entries.last().0 == k {
            entries.len() - 1
        } else {
            -1
        }
    }
}

/// The value stored under `k`.
pub open spec fn lookup<V>(entries: Seq<(Seq<char>, V)>, k: Seq<char>) -> Option<V> {
    let p = position_of(entries, k);
    if p >= 0 {
        Some(entries[p].1)
    } else {
        None
    }
}

pub proof fn lemma_position_of<V>(entries: Seq<(Seq<char>, V)>, k: Seq<char>)
    ensures
        -1 <= position_of(entries, k) < entries.len(),
        position_of(entries, k) >= 0 ==> entries[position_of(entries, k)].0 == k,
        position_of(entries, k) >= 0 ==> forall|j: int|
            0 <= j < position_of(entries, k) ==> entries[j].0 != k,
        position_of(entries, k) < 0 ==> forall|j: int| 0 <= j < entries.len() ==> entries[j].0 != k,
    decreases entries.len(),
{
    if entries.len() > 0 {
        let d = entries.drop_last();
        lemma_position_of(d, k);
        let p = position_of(d, k);
        let q = position_of(entries, k);
        if p >= 0 {
            assert(q == p);
            assert forall|j: int| 0 <= j < q implies entries[j].0 != k by {
                assert(entries[j] == d[j]);
            }
            assert(entries[q] == d[p]);
        } else {
            assert forall|j: int| 0 <= j < entries.len() - 1 implies entries[j].0 != k by {
                assert(entries[j] == d[j]);
            }
        }
    }
}

proof fn lemma_key_lt_irreflexive(a: Seq<char>)
    ensures
        !key_lt(a, a),
    decreases a.len(),
{
    if a.len() > 0 {
        lemma_key_lt_irreflexive(a.drop_first());
    }
}

proof fn lemma_key_lt_transitive(a: Seq<char>, b: Seq<char>, c: Seq<char>)
    requires
        key_lt(a, b),
        key_lt(b, c),
    ensures
        key_lt(a, c),
    decreases a.len(),
{
    if a.len() > 0 && b.len() > 0 && c.len() > 0 && a[0] == b[0] && b[0] == c[0] {
        lemma_key_lt_transitive(a.drop_first(), b.drop_first(), c.drop_first());
    }
}

proof fn lemma_key_lt_total(a: Seq<char>, b: Seq<char>)
    requires
        a != b,
    ensures
        key_lt(a, b) || key_lt(b, a),
    decreases a.len(),
{
    if a.len() > 0 && b.len() > 0 && a[0] == b[0] {
        if a.drop_first() == b.drop_first() {
            assert(a =~= seq![a[0]] + a.drop_first());
            assert(b =~= seq![b[0]] + b.drop_first());
        }
        lemma_key_lt_total(a.drop_first(), b.drop_first());
    } else if a.len() == 0 && b.len() == 0 {
        assert(a =~= b);
    }
}

/// With increasing keys, the entry at `i` is the one `lookup` finds.
pub proof fn lemma_lookup_at<V>(entries: Seq<(Seq<char>, V)>, i: int)
    requires
        keys_increasing(entries),
        0 <= i < entries.len(),
    ensures
        position_of(entries, entries[i].0) == i,
        lookup(entries, entries[i].0) == Some(entries[i].1),
{
    lemma_position_of(entries, entries[i].0);
    let p = position_of(entries, entries[i].0);
    if p != i {
        if p < i {
            assert(key_lt(entries[p].0, entries[i].0));
        }
        lemma_key_lt_irreflexive(entries[i].0);
    }
}

/// Three-way result of comparing two keys.
#[derive(Debug, Clone, Copy, PartialEq, Eq, Structural)]
pub enum KeyOrder {
    Less,
    Equal,
    Greater,
}

/// Compares two keys in `key_lt` order.
pub fn compare_keys(a: &str, b: &str) -> (r: KeyOrder)
    ensures
        r is Less <==> key_lt(a@, b@),
        r is Equal <==> a@ == b@,
        r is Greater <==> key_lt(b@, a@),
{
    let x = chars_of(a);
    let y = chars_of(b);
    let mut i: usize = 0;
    assert(a@.skip(0) =~= a@);
    assert(b@.skip(0) =~= b@);
    while i < x.len() && i < y.len() && x[i] == y[i]
        invariant
            x@ == a@,
            y@ == b@,
            i <= x.len(),
            i <= y.len(),
            x@.take(i as int) == y@.take(i as int),
            key_lt(a@, b@) == key_lt(a@.skip(i as int), b@.skip(i as int)),
            key_lt(b@, a@) == key_lt(b@.skip(i as int), a@.skip(i as int)),
        decreases x.len() - i,
    {
        assert(a@.skip(i as int).drop_first() =~= a@.skip(i + 1));
        assert(b@.skip(i as int).drop_first() =~= b@.skip(i + 1));
        assert(x@.take(i + 1) =~= x@.take(i as int).push(x@[i as int]));
        assert(y@.take(i + 1) =~= y@.take(i as int).push(y@[i as int]));
        i = i + 1;
    }
    proof {
        lemma_key_lt_irreflexive(a@);
    }
    if i == x.len() && i == y.len() {
        assert(x@ =~= x@.take(i as int));
        assert(y@ =~= y@.take(i as int));
        KeyOrder::Equal
    } else if i == x.len() {
        assert(a@.skip(i as int).len() == 0);
        proof {
            if a@ == b@ {
            }
        }
        KeyOrder::Less
    } else if i == y.len() {
        assert(b@.skip(i as int).len() == 0);
        KeyOrder::Greater
    } else if x[i] < y[i] {
        assert(a@[i as int] != b@[i as int]);
        KeyOrder::Less
    } else {
        assert(a@[i as int] != b@[i as int]);
        KeyOrder::Greater
    }
}

/// The entries of `v` with their keys as character sequences.
pub open spec fn entries_view<V>(v: Seq<(String, V)>) -> Seq<(Seq<char>, V)> {
    v.map_values(|e: (String, V)| (e.0@, e.1))
}

/// The value stored under `key` among `entries`.
pub fn find_entry<'a, V>(entries: &'a Vec<(String, V)>, key: &str) -> (r: Option<&'a V>)
    ensures
        match r {
            Some(v) => lookup(entries_view(entries@), key@) == Some(*v),
            None => lookup(entries_view(entries@), key@) is None,
        },
{
    let ghost view = entries_view(entries@);
    let mut i: usize = 0;
    while i < entries.len()
        invariant
            view == entries_view(entries@),
            i <= view.len(),
            view.len() == entries@.len(),
            forall|j: int| 0 <= j < i ==> view[j].0 != key@,
        decreases entries.len() - i,
    {
        assert(view[i as int].0 == entries@[i as int].0@);
        if str_eq(entries[i].0.as_str(), key) {
            proof {
                lemma_position_of(view, key@);
                let p = position_of(view, key@);
                assert(p >= 0 && p <= i as int) by {
                    if p < 0 {
                        assert(view[i as int].0 != key@);
                    }
                }
                if p < i {
                    assert(view[p].0 != key@);
                }
            }
            return Some(&entries[i].1);
        }
        i = i + 1;
    }
    proof {
        lemma_position_of(view, key@);
    }
    None
}

/// Stores `value` under `key`, replacing and returning what was stored
/// there; the keys stay in increasing order.
pub fn insert_entry<V>(entries: &mut Vec<(String, V)>, key: String, value: V) -> (previous: Option<V>)
    requires
        keys_increasing(entries_view(old(entries)@)),
    ensures
        keys_increasing(entries_view(final(entries)@)),
        previous == lookup(entries_view(old(entries)@), key@),
        lookup(entries_view(final(entries)@), key@) == Some(value),
        forall|k: Seq<char>| k != key@ ==> lookup(entries_view(final(entries)@), k) == lookup(entries_view(old(entries)@), k),
        final(entries)@.len() == old(entries)@.len() + (if previous is Some { 0int } else { 1int }),
{
    let ghost before = entries_view(entries@);
    let mut i: usize = 0;
    let mut found = false;
    loop
        invariant_except_break
            !found,
        invariant
            entries@.map_values(|e: (String, V)| (e.0@, e.1)) == before,
            keys_increasing(before),
            i <= entries.len(),
            forall|j: int| 0 <= j < i ==> key_lt(#[trigger] before[j].0, key@),
        ensures
            found ==> i < entries.len() && before[i as int].0 == key@,
            !found ==> i == entries.len() || key_lt(key@, before[i as int].0),
        decreases entries.len() - i,
    {
        if i == entries.len() {
            break ;
        }
        assert(before[i as int].0 == entries@[i as int].0@);
        match compare_keys(entries[i].0.as_str(), key.as_str()) {
            KeyOrder::Less => {
                i = i + 1;
            },
            KeyOrder::Equal => {
                found = true;
                break ;
            },
            KeyOrder::Greater => {
                break ;
            },
        }
    }
    proof {
        lemma_position_of(before, key@);
        lemma_key_lt_irreflexive(key@);
        if found {
            lemma_lookup_at(before, i as int);
        } else {
            assert forall|j: int| 0 <= j < before.len() implies before[j].0 != key@ by {
                if j >= i {
                    if j > i {
                        assert(key_lt(before[i as int].0, before[j].0));
                        lemma_key_lt_transitive(key@, before[i as int].0, before[j].0);
                    }
                }
            }
        }
    }
    let previous;
    if found {
        let (_, old_value) = entries.remove(i);
        entries.insert(i, (key, value));
        previous = Some(old_value);
    } else {
        entries.insert(i, (key, value));
        previous = None;
    }
    let ghost after = entries@.map_values(|e: (String, V)| (e.0@, e.1));
    proof {
        assert(after[i as int] == (key@, value));
        assert forall|j: int| 0 <= j < after.len() && j != i implies #[trigger] after[j] == (
        if found || j < i {
            before[j]
        } else {
            before[j - 1]
        }) by {}
        assert forall|a: int, b: int| 0 <= a < b < after.len() implies key_lt(
            #[trigger] after[a].0,
            #[trigger] after[b].0,
        ) by {
            if found {
                assert(before[i as int].0 == key@);
                if a != i && b != i {
                    assert(key_lt(before[a].0, before[b].0));
                } else if a == i {
                    assert(key_lt(before[a].0, before[b].0));
                } else {
                    assert(key_lt(before[a].0, before[b].0));
                }
            } else {
                if b < i {
                    assert(key_lt(before[a].0, before[b].0));
                } else if b == i {
                } else if a == i {
                    assert(key_lt(key@, before[i as int].0));
                    if b - 1 > i {
                        assert(key_lt(before[i as int].0, before[b - 1].0));
                        lemma_key_lt_transitive(key@, before[i as int].0, before[b - 1].0);
                    }
                } else if a < i {
                    assert(key_lt(before[a].0, key@));
                    assert(key_lt(key@, before[i as int].0));
                    lemma_key_lt_transitive(before[a].0, key@, before[i as int].0);
                    if b - 1 > i {
                        assert(key_lt(before[i as int].0, before[b - 1].0));
                        lemma_key_lt_transitive(before[a].0, before[i as int].0, before[b - 1].0);
                    }
                } else {
                    assert(key_lt(before[a - 1].0, before[b - 1].0));
                }
            }
        }
        lemma_lookup_at(after, i as int);
        assert forall|k: Seq<char>| k != key@ implies lookup(after, k) == lookup(before, k) by {
            lemma_position_of(before, k);
            lemma_position_of(after, k);
            let p = position_of(before, k);
            if p >= 0 {
                lemma_lookup_at(before, p);
                let q = if found || p < i {
                    p
                } else {
                    p + 1
                };
                assert(after[q] == before[p]);
                lemma_lookup_at(after, q);
            } else {
                let r = position_of(after, k);
                if r >= 0 {
                    assert(r != i);
                    if found || r < i {
                        assert(before[r].0 == k);
                    } else {
                        assert(before[r - 1].0 == k);
                    }
                }
            }
        }
    }
    assert(entries_view(entries@) == after);
    previous
}

/// A map from text keys to values, walked in increasing key order.
#[derive(Debug, Default)]
pub struct NamedMap<V> {
    entries: Vec<(String, V)>,
}

impl<V> View for NamedMap<V> {
    type V = Seq<(Seq<char>, V)>;

    /// The entries, in increasing key order.
    closed spec fn view(&self) -> Seq<(Seq<char>, V)> {
        entries_view(self.entries@)
    }
}

/// The copy has the same keys in the same order, each with a clone of its
/// value.
impl<V: Clone> Clone for NamedMap<V> {
    fn clone(&self) -> (res: Self)
        ensures
            res@.len() == self@.len(),
            forall|i: int| 0 <= i < self@.len() ==> #[trigger] res@[i].0 == self@[i].0,
            forall|i: int| 0 <= i < self@.len() ==> cloned::<V>(self@[i].1, #[trigger] res@[i].1),
    {
        proof {
            use_type_invariant(self);
        }
        let mut entries: Vec<(String, V)> = Vec::new();
        let mut i: usize = 0;
        while i < self.entries.len()
            invariant
                i <= self.entries.len(),
                entries@.len() == i,
                forall|j: int| 0 <= j < i ==> #[trigger] entries@[j].0@ == self.entries@[j].0@,
                forall|j: int|
                    0 <= j < i ==> cloned::<V>(self.entries@[j].1, #[trigger] entries@[j].1),
            decreases self.entries.len() - i,
        {
            let key = self.entries[i].0.clone();
            let value = self.entries[i].1.clone();
            entries.push((key, value));
            i = i + 1;
        }
        proof {
            let v = entries_view(entries@);
            assert forall|j: int| 0 <= j < v.len() implies #[trigger] v[j].0 == self@[j].0 by {}
            assert forall|a: int, b: int| 0 <= a < b < v.len() implies key_lt(
                #[trigger] v[a].0,
                #[trigger] v[b].0,
            ) by {
                assert(key_lt(self@[a].0, self@[b].0));
            }
        }
        NamedMap { entries }
    }
}

impl<V> NamedMap<V> {
    #[verifier::type_invariant]
    closed spec fn sorted(self) -> bool {
        keys_increasing(self@)
    }

    /// An empty map.
    pub fn new() -> (m: Self)
        ensures
            m@ == Seq::<(Seq<char>, V)>::empty(),
    {
        let m = NamedMap { entries: Vec::new() };
        assert(m@ =~= Seq::<(Seq<char>, V)>::empty());
        m
    }

    /// The keys, in increasing order.
    pub fn keys(&self) -> (keys: Vec<String>)
        ensures
            keys@.map_values(|k: String| k@) == self@.map_values(|e: (Seq<char>, V)| e.0),
            keys_increasing(self@),
    {
        proof {
            use_type_invariant(self);
        }
        let mut keys: Vec<String> = Vec::new();
        let mut i: usize = 0;
        while i < self.entries.len()
            invariant
                i <= self@.len(),
                self@.len() == self.entries@.len(),
                keys@.map_values(|k: String| k@) == self@.map_values(|e: (Seq<char>, V)| e.0).take(i as int),
            decreases self.entries.len() - i,
        {
            let ghost before = keys@.map_values(|k: String| k@);
            let k = self.entries[i].0.clone();
            assert(k@ == self@[i as int].0);
            keys.push(k);
            assert(keys@.map_values(|k: String| k@) =~= before.push(self@[i as int].0));
            assert(self@.map_values(|e: (Seq<char>, V)| e.0).take(i + 1) =~= self@.map_values(
                |e: (Seq<char>, V)| e.0,
            ).take(i as int).push(self@[i as int].0));
            i = i + 1;
        }
        assert(self@.map_values(|e: (Seq<char>, V)| e.0).take(i as int) =~= self@.map_values(
            |e: (Seq<char>, V)| e.0,
        ));
        keys
    }

    pub fn len(&self) -> (n: usize)
        ensures
            n == self@.len(),
    {
        self.entries.len()
    }

    pub fn is_empty(&self) -> (r: bool)
        ensures
            r == (self@.len() == 0),
    {
        self.entries.len() == 0
    }

    /// The key of entry `i`.
    pub fn key_at(&self, i: usize) -> (k: &String)
        requires
            i < self@.len(),
        ensures
            k@ == self@[i as int].0,
    {
        &self.entries[i].0
    }

    /// The value of entry `i`.
    pub fn value_at(&self, i: usize) -> (v: &V)
        requires
            i < self@.len(),
        ensures
            *v == self@[i as int].1,
    {
        &self.entries[i].1
    }

    /// The value stored under `key`.
    pub fn get(&self, key: &str) -> (r: Option<&V>)
        ensures
            match r {
                Some(v) => lookup(self@, key@) == Some(*v),
                None => lookup(self@, key@) is None,
            },
    {
        find_entry(&self.entries, key)
    }

    /// Stores `value` under `key`, replacing and returning what was stored
    /// there; the keys stay in increasing order.
    pub fn insert(&mut self, key: String, value: V) -> (previous: Option<V>)
        ensures
            keys_increasing(final(self)@),
            previous == lookup(old(self)@, key@),
            lookup(final(self)@, key@) == Some(value),
            forall|k: Seq<char>| k != key@ ==> lookup(final(self)@, k) == lookup(old(self)@, k),
            final(self)@.len() == old(self)@.len() + (if previous is Some { 0int } else { 1int }),
    {
        proof {
            use_type_invariant(&*self);
        }
        let mut entries: Vec<(String, V)> = Vec::new();
        std::mem::swap(&mut entries, &mut self.entries);
        let previous = insert_entry(&mut entries, key, value);
        self.entries = entries;
        previous
    }
}

} // verus!
