//! Maps from identifiers.
use vstd::prelude::*;

use crate::group::Group;
use crate::identifier::{is_identifier, values, Identifier};

verus! {

/// Entries in ascending order of their keys, each key at most once.
pub open spec fn ascending<T>(entries: Seq<(int, T)>) -> bool {
    forall|i: int, j: int|
        0 <= i < j < entries.len() ==> #[trigger] entries[i].0 < #[trigger] entries[j].0
}

/// Whether `entries` are those of a map from identifiers of the group `G`.
pub open spec fn is_map<G: Group, T>(entries: Seq<(int, T)>) -> bool {
    &&& ascending(entries)
    &&& forall|i: int| 0 <= i < entries.len() ==> is_identifier::<G>(#[trigger] entries[i].0)
}

/// Entries of which no two have the same key.
pub open spec fn distinct<K, T>(entries: Seq<(K, T)>) -> bool {
    forall|i: int, j: int|
        0 <= i < j < entries.len() ==> #[trigger] entries[i].0 != #[trigger] entries[j].0
}

/// Whether some entry has the key `k`.
pub open spec fn has_key<K, T>(entries: Seq<(K, T)>, k: K) -> bool {
    exists|i: int| 0 <= i < entries.len() && #[trigger] entries[i].0 == k
}

/// What the entries map `k` to, if anything.
pub open spec fn lookup<K, T>(entries: Seq<(K, T)>, k: K) -> Option<T> {
    if has_key(entries, k) {
        let i = choose|i: int| 0 <= i < entries.len() && #[trigger] entries[i].0 == k;
        Some(entries[i].1)
    } else {
        None
    }
}

/// The entries as a map.
pub open spec fn to_map<K, T>(entries: Seq<(K, T)>) -> Map<K, T> {
    Map::new(|k: K| has_key(entries, k), |k: K| lookup(entries, k)->0)
}

/// The keys of the entries, in their order.
pub open spec fn keys<K, T>(entries: Seq<(K, T)>) -> Seq<K> {
    entries.map_values(|e: (K, T)| e.0)
}

/// An entry is what its key maps to, where keys are distinct.
pub proof fn lemma_lookup<K, T>(entries: Seq<(K, T)>, i: int)
    requires
        distinct(entries),
        0 <= i < entries.len(),
    ensures
        has_key(entries, entries[i].0),
        lookup(entries, entries[i].0) == Some(entries[i].1),
{
    let k = entries[i].0;
    let j = choose|j: int| 0 <= j < entries.len() && #[trigger] entries[j].0 == k;
    assert(i == j) by {
        if i < j {
            assert(entries[i].0 != entries[j].0);
        } else if j < i {
            assert(entries[j].0 != entries[i].0);
        }
    }
}

/// Entries with the same keys have the same key at each position.
pub proof fn lemma_key_at<K, T, U>(a: Seq<(K, T)>, b: Seq<(K, U)>, i: int)
    requires
        keys(a) == keys(b),
        0 <= i < a.len(),
    ensures
        a.len() == b.len(),
        a[i].0 == b[i].0,
{
    assert(keys(a).len() == a.len());
    assert(keys(b).len() == b.len());
    assert(keys(a)[i] == a[i].0);
    assert(keys(b)[i] == b[i].0);
}

/// Keys are in order if they are all found among as many keys in order.
proof fn lemma_positions<T, U>(a: Seq<(int, T)>, b: Seq<(int, U)>, f: spec_fn(int) -> int, i: int)
    requires
        ascending(a),
        ascending(b),
        a.len() == b.len(),
        forall|k: int|
            0 <= k < a.len() ==> 0 <= #[trigger] f(k) < b.len() && b[f(k)].0 == a[k].0,
        0 <= i < a.len(),
    ensures
        f(i) == i,
{
    lemma_positions_low(a, b, f, i);
    lemma_positions_high(a, b, f, i);
}

proof fn lemma_positions_low<T, U>(
    a: Seq<(int, T)>,
    b: Seq<(int, U)>,
    f: spec_fn(int) -> int,
    i: int,
)
    requires
        ascending(a),
        ascending(b),
        forall|k: int|
            0 <= k < a.len() ==> 0 <= #[trigger] f(k) < b.len() && b[f(k)].0 == a[k].0,
        0 <= i < a.len(),
    ensures
        f(i) >= i,
    decreases i,
{
    if i > 0 {
        lemma_positions_low(a, b, f, i - 1);
        assert(a[i - 1].0 < a[i].0);
        assert(b[f(i - 1)].0 == a[i - 1].0 && b[f(i)].0 == a[i].0);
        if f(i) < f(i - 1) {
            assert(b[f(i)].0 < b[f(i - 1)].0);
        }
    }
}

proof fn lemma_positions_high<T, U>(
    a: Seq<(int, T)>,
    b: Seq<(int, U)>,
    f: spec_fn(int) -> int,
    i: int,
)
    requires
        ascending(a),
        ascending(b),
        a.len() == b.len(),
        forall|k: int|
            0 <= k < a.len() ==> 0 <= #[trigger] f(k) < b.len() && b[f(k)].0 == a[k].0,
        0 <= i < a.len(),
    ensures
        f(i) <= i,
    decreases a.len() - i,
{
    if i < a.len() - 1 {
        lemma_positions_high(a, b, f, i + 1);
        assert(a[i].0 < a[i + 1].0);
        assert(b[f(i)].0 == a[i].0 && b[f(i + 1)].0 == a[i + 1].0);
        if f(i + 1) < f(i) {
            assert(b[f(i + 1)].0 < b[f(i)].0);
        }
    }
}

/// Maps have the same keys if they have as many, and one has all those of the
/// other.
pub proof fn lemma_same_keys<T, U>(a: Seq<(int, T)>, b: Seq<(int, U)>)
    requires
        ascending(a),
        ascending(b),
    ensures
        (keys(a) == keys(b)) == (a.len() == b.len() && (forall|i: int|
            0 <= i < a.len() ==> has_key(b, (#[trigger] a[i]).0))),
{
    if keys(a) == keys(b) {
        assert(keys(a).len() == keys(b).len());
        assert forall|i: int| 0 <= i < a.len() implies has_key(b, (#[trigger] a[i]).0) by {
            assert(keys(a)[i] == keys(b)[i]);
            assert(b[i].0 == a[i].0);
        }
    }
    if a.len() == b.len() && (forall|i: int| 0 <= i < a.len() ==> has_key(b, (#[trigger] a[i]).0)) {
        let f = |k: int| choose|j: int| 0 <= j < b.len() && #[trigger] b[j].0 == a[k].0;
        assert forall|k: int| 0 <= k < a.len() implies 0 <= #[trigger] f(k) < b.len()
            && b[f(k)].0 == a[k].0 by {
            assert(has_key(b, a[k].0));
        }
        assert forall|i: int| 0 <= i < a.len() implies keys(a)[i] == keys(b)[i] by {
            lemma_positions(a, b, f, i);
        }
        assert(keys(a) =~= keys(b));
    }
}

proof fn lemma_drop_last<T>(entries: Seq<(int, T)>)
    requires
        ascending(entries),
        entries.len() > 0,
    ensures
        ascending(entries.drop_last()),
        to_map(entries.drop_last()) == to_map(entries).remove(entries.last().0),
{
    let rest = entries.drop_last();
    let last = entries.len() - 1;
    assert forall|i: int, j: int| 0 <= i < j < rest.len() implies #[trigger] rest[i].0
        < #[trigger] rest[j].0 by {
        assert(entries[i].0 < entries[j].0);
    }
    assert forall|k: int|
        #![trigger has_key(rest, k)]
        has_key(rest, k) == (has_key(entries, k) && k != entries[last].0) && (has_key(rest, k)
            ==> lookup(rest, k) == lookup(entries, k)) by {
        if has_key(rest, k) {
            let i = choose|i: int| 0 <= i < rest.len() && #[trigger] rest[i].0 == k;
            assert(entries[i] == rest[i]);
            assert(entries[i].0 < entries[last].0);
            lemma_lookup(rest, i);
            lemma_lookup(entries, i);
        }
        if has_key(entries, k) && k != entries[last].0 {
            let i = choose|i: int| 0 <= i < entries.len() && #[trigger] entries[i].0 == k;
            assert(rest[i] == entries[i]);
        }
    }
    assert(to_map(rest) =~= to_map(entries).remove(entries.last().0));
}

/// A map has its entries in one order only.
pub proof fn law_map_determines_entries<T>(a: Seq<(int, T)>, b: Seq<(int, T)>)
    requires
        ascending(a),
        ascending(b),
        to_map(a) == to_map(b),
    ensures
        a == b,
    decreases a.len(),
{
    assert forall|k: int|
        #![trigger has_key(a, k)]
        #![trigger has_key(b, k)]
        has_key(a, k) == has_key(b, k) by {
        assert(to_map(a).dom().contains(k) == has_key(a, k));
        assert(to_map(b).dom().contains(k) == has_key(b, k));
    }
    if a.len() == 0 {
        if b.len() > 0 {
            assert(has_key(b, b[0].0));
        }
        assert(a =~= b);
    } else if b.len() == 0 {
        assert(has_key(a, a[0].0));
    } else {
        let (m, n) = (a.len() - 1, b.len() - 1);
        assert(has_key(a, a[m].0));
        assert(has_key(b, b[n].0));
        let i = choose|i: int| 0 <= i < b.len() && #[trigger] b[i].0 == a[m].0;
        let j = choose|j: int| 0 <= j < a.len() && #[trigger] a[j].0 == b[n].0;
        if i < n {
            assert(b[i].0 < b[n].0);
        }
        if j < m {
            assert(a[j].0 < a[m].0);
        }
        assert(a[m].0 == b[n].0);
        lemma_lookup(a, m);
        lemma_lookup(b, n);
        assert(to_map(a)[a[m].0] == a[m].1);
        assert(to_map(b)[b[n].0] == b[n].1);
        assert(a[m] == b[n]);
        lemma_drop_last(a);
        lemma_drop_last(b);
        law_map_determines_entries(a.drop_last(), b.drop_last());
        assert(a =~= a.drop_last().push(a[m]));
        assert(b =~= b.drop_last().push(b[n]));
    }
}

/// Entries that differ in one key only.
proof fn lemma_insert<T>(
    before: Seq<(int, T)>,
    after: Seq<(int, T)>,
    i: int,
    present: bool,
    k: int,
    v: T,
)
    requires
        ascending(before),
        ascending(after),
        0 <= i <= before.len(),
        present ==> i < before.len() && before[i].0 == k,
        !present ==> !has_key(before, k),
        after == if present {
            before.update(i, (k, v))
        } else {
            before.insert(i, (k, v))
        },
    ensures
        to_map(after) == to_map(before).insert(k, v),
{
    assert(after[i] == (k, v));
    lemma_lookup(after, i);
    assert forall|x: int|
        #![trigger has_key(before, x)]
        #![trigger has_key(after, x)]
        x != k implies has_key(before, x) == has_key(after, x) && lookup(before, x) == lookup(
        after,
        x,
    ) by {
        if has_key(before, x) {
            let j = choose|j: int| 0 <= j < before.len() && #[trigger] before[j].0 == x;
            let j1 = if present || j < i {
                j
            } else {
                j + 1
            };
            assert(after[j1] == before[j]);
            lemma_lookup(before, j);
            lemma_lookup(after, j1);
        } else if has_key(after, x) {
            let j = choose|j: int| 0 <= j < after.len() && #[trigger] after[j].0 == x;
            let j1 = if present || j < i {
                j
            } else {
                j - 1
            };
            assert(after[j] == before[j1]);
        }
    }
    assert(to_map(after) =~= to_map(before).insert(k, v));
}

/// What a map gains by an entry beyond all others stands at its end.
pub proof fn lemma_push<T>(before: Seq<(int, T)>, after: Seq<(int, T)>, k: int, v: T)
    requires
        ascending(before),
        ascending(after),
        to_map(after) == to_map(before).insert(k, v),
        forall|i: int| 0 <= i < before.len() ==> (#[trigger] before[i]).0 < k,
    ensures
        after == before.push((k, v)),
{
    let pushed = before.push((k, v));
    assert(!has_key(before, k));
    assert(pushed =~= before.insert(before.len() as int, (k, v)));
    assert forall|i: int, j: int| 0 <= i < j < pushed.len() implies #[trigger] pushed[i].0
        < #[trigger] pushed[j].0 by {
        assert(pushed[i] == before[i]);
    }
    lemma_insert(before, pushed, before.len() as int, false, k, v);
    law_map_determines_entries(after, pushed);
}

/// A map from identifiers of one group of signers, in ascending order of the
/// identifiers.
pub struct IdentifierMap<G: Group, V> {
    entries: Vec<(Identifier<G>, V)>,
}

impl<G: Group, V: View> View for IdentifierMap<G, V> {
    type V = Seq<(int, V::V)>;

    /// The entries in ascending order of the identifiers.
    closed spec fn view(&self) -> Seq<(int, V::V)> {
        self.entries@.map_values(|e: (Identifier<G>, V)| (e.0@, e.1@))
    }
}

impl<G: Group, V> IdentifierMap<G, V> {
    /// The entries are in ascending order of the identifiers.
    #[verifier::type_invariant]
    pub closed spec fn ordered(self) -> bool {
        &&& forall|i: int, j: int|
            0 <= i < j < self.entries.len() ==> #[trigger] self.entries[i].0@
                < #[trigger] self.entries[j].0@
        &&& forall|i: int|
            0 <= i < self.entries.len() ==> is_identifier::<G>(#[trigger] self.entries[i].0@)
    }
}

impl<G: Group, V: View> IdentifierMap<G, V> {
    /// The entries are those of a map.
    pub proof fn lemma_is_map(self)
        requires
            self.ordered(),
        ensures
            is_map::<G, V::V>(self@),
    {
        assert forall|i: int, j: int| 0 <= i < j < self@.len() implies #[trigger] self@[i].0
            < #[trigger] self@[j].0 by {
            assert(self.entries@[i].0@ < self.entries@[j].0@);
        }
        assert forall|i: int| 0 <= i < self@.len() implies is_identifier::<G>(
            #[trigger] self@[i].0,
        ) by {
            assert(is_identifier::<G>(self.entries@[i].0@));
        }
    }

    /// Every value that the map is seen to hold is that of a value it holds.
    pub proof fn lemma_value_at(self, i: int) -> (v: V)
        requires
            0 <= i < self@.len(),
        ensures
            self@[i].1 == v@,
    {
        self.entries@[i].1
    }

    /// The map without entries.
    pub fn new() -> (r: Self)
        ensures
            r@ == Seq::<(int, V::V)>::empty(),
    {
        let r = IdentifierMap { entries: Vec::new() };
        assert(r@ =~= Seq::<(int, V::V)>::empty());
        r
    }

    /// The number of entries.
    pub fn len(&self) -> (r: usize)
        ensures
            r == self@.len(),
    {
        self.entries.len()
    }

    /// Whether the map has no entries.
    pub fn is_empty(&self) -> (r: bool)
        ensures
            r == (self@.len() == 0),
    {
        self.entries.len() == 0
    }

    /// The identifier at position `i`.
    pub fn key_at(&self, i: usize) -> (r: Identifier<G>)
        requires
            i < self@.len(),
        ensures
            r@ == self@[i as int].0,
    {
        self.entries[i].0
    }

    /// The value at position `i`.
    pub fn value_at(&self, i: usize) -> (r: &V)
        requires
            i < self@.len(),
        ensures
            r@ == self@[i as int].1,
    {
        &self.entries[i].1
    }

    /// The position of the first entry whose key is not less than `id`.
    fn position(&self, id: &Identifier<G>) -> (r: usize)
        ensures
            r <= self.entries.len(),
            forall|i: int| 0 <= i < r ==> (#[trigger] self.entries[i]).0@ < id@,
            forall|i: int| r <= i < self.entries.len() ==> (#[trigger] self.entries[i]).0@ >= id@,
    {
        proof {
            use_type_invariant(self);
        }
        let mut i: usize = 0;
        while i < self.entries.len() && self.entries[i].0.precedes(id)
            invariant
                i <= self.entries.len(),
                forall|j: int| 0 <= j < i ==> (#[trigger] self.entries[j]).0@ < id@,
            ensures
                i < self.entries.len() ==> self.entries[i as int].0@ >= id@,
            decreases self.entries.len() - i,
        {
            i += 1;
        }
        i
    }

    /// What `id` is mapped to.
    pub fn get(&self, id: &Identifier<G>) -> (r: Option<&V>)
        ensures
            match r {
                Some(v) => lookup(self@, id@) == Some(v@),
                None => lookup(self@, id@) is None,
            },
    {
        proof {
            use_type_invariant(self);
            self.lemma_is_map();
        }
        let i: usize = self.position(id);
        if i < self.entries.len() && self.entries[i].0 == *id {
            proof {
                assert(self@[i as int].0 == id@);
                lemma_lookup(self@, i as int);
            }
            Some(&self.entries[i].1)
        } else {
            proof {
                assert forall|j: int| 0 <= j < self@.len() implies #[trigger] self@[j].0 != id@ by {
                    assert(self@[j].0 == self.entries@[j].0@);
                    if j > i {
                        assert(self.entries[i as int].0@ < self.entries[j].0@);
                    }
                }
            }
            None
        }
    }

    /// Maps `id` to `value`, and returns what it was mapped to before.
    pub fn insert(&mut self, id: Identifier<G>, value: V) -> (r: Option<V>)
        ensures
            to_map(final(self)@) == to_map(old(self)@).insert(id@, value@),
            is_map::<G, V::V>(final(self)@),
            match r {
                Some(v) => lookup(old(self)@, id@) == Some(v@),
                None => lookup(old(self)@, id@) is None,
            },
    {
        let present = self.contains_key(&id);
        let i: usize = self.position(&id);
        proof {
            use_type_invariant(&id);
            id.lemma_is_identifier();
            use_type_invariant(&*self);
            self.lemma_is_map();
        }
        let ghost before = self.entries@;
        let mut entries: Vec<(Identifier<G>, V)> = Vec::new();
        std::mem::swap(&mut entries, &mut self.entries);
        let r = if present {
            proof {
                let j = choose|j: int|
                    0 <= j < old(self)@.len() && #[trigger] old(self)@[j].0 == id@;
                assert(before[j].0@ == id@);
                assert(i == j) by {
                    if i < j {
                        assert(before[i as int].0@ < before[j].0@);
                    }
                }
                lemma_lookup(old(self)@, i as int);
            }
            let previous = entries.remove(i);
            Some(previous.1)
        } else {
            None
        };
        entries.insert(i, (id, value));
        proof {
            assert forall|a: int, b: int| 0 <= a < b < entries.len() implies #[trigger] entries[a].0@
                < #[trigger] entries[b].0@ by {
                let a0 = if present || a < i {
                    a
                } else {
                    a - 1
                };
                let b0 = if present || b < i {
                    b
                } else {
                    b - 1
                };
                if a != i {
                    assert(entries[a] == before[a0]);
                }
                if b != i {
                    assert(entries[b] == before[b0]);
                }
                if !present {
                    if a == i {
                        assert(old(self)@[b0].0 == before[b0].0@);
                        assert(before[b0].0@ != id@);
                    }
                }
            }
        }
        self.entries = entries;
        proof {
            assert(self@ =~= if present {
                old(self)@.update(i as int, (id@, value@))
            } else {
                old(self)@.insert(i as int, (id@, value@))
            });
            self.lemma_is_map();
            lemma_insert(old(self)@, self@, i as int, present, id@, value@);
        }
        r
    }

    /// Whether the map has an entry for `id`.
    pub fn contains_key(&self, id: &Identifier<G>) -> (r: bool)
        ensures
            r == has_key(self@, id@),
    {
        self.get(id).is_some()
    }

    /// Whether `other` has an entry for every identifier that this map has one
    /// for.
    pub fn keys_within<W: View>(&self, other: &IdentifierMap<G, W>) -> (r: bool)
        ensures
            r == (forall|i: int|
                0 <= i < self@.len() ==> has_key(other@, (#[trigger] self@[i]).0)),
    {
        let n: usize = self.len();
        let mut i: usize = 0;
        while i < n
            invariant
                i <= n,
                n == self@.len(),
                forall|j: int| 0 <= j < i ==> has_key(other@, (#[trigger] self@[j]).0),
            decreases n - i,
        {
            if !other.contains_key(&self.key_at(i)) {
                assert(!has_key(other@, self@[i as int].0));
                return false;
            }
            i += 1;
        }
        true
    }

    /// The identifiers that the map has entries for, in ascending order.
    pub fn keys(&self) -> (r: Vec<Identifier<G>>)
        ensures
            values(r@) == keys(self@),
    {
        let mut r: Vec<Identifier<G>> = Vec::new();
        let mut i: usize = 0;
        while i < self.entries.len()
            invariant
                i <= self.entries.len(),
                r.len() == i,
                forall|j: int| 0 <= j < i ==> #[trigger] r@[j]@ == self.entries@[j].0@,
            decreases self.entries.len() - i,
        {
            r.push(self.entries[i].0);
            i += 1;
        }
        assert(values(r@) =~= keys(self@));
        r
    }
}

impl<G: Group, V: View + Copy> Clone for IdentifierMap<G, V> {
    fn clone(&self) -> (r: Self)
        ensures
            r@ == self@,
    {
        let mut entries: Vec<(Identifier<G>, V)> = Vec::new();
        let mut i: usize = 0;
        while i < self.entries.len()
            invariant
                i <= self.entries.len(),
                entries@ == self.entries@.take(i as int),
            decreases self.entries.len() - i,
        {
            entries.push(self.entries[i]);
            i += 1;
            assert(entries@ =~= self.entries@.take(i as int));
        }
        proof {
            use_type_invariant(self);
        }
        assert(entries@ =~= self.entries@);
        IdentifierMap { entries }
    }
}

} // verus!
