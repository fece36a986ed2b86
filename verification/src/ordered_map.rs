//! A map kept as a vector in ascending key order.
use vstd::prelude::*;

verus! {

/// A key of an [`OrderedMap`]: its view is what identifies it, and views are
/// totally ordered.
pub trait OrderedKey: View + Sized {
    /// The strict order on keys.
    spec fn precedes(a: Self::V, b: Self::V) -> bool;

    /// No key precedes itself.
    proof fn irreflexive(a: Self::V)
        ensures
            !Self::precedes(a, a),
    ;

    /// The order is transitive.
    proof fn transitive(a: Self::V, b: Self::V, c: Self::V)
        requires
            Self::precedes(a, b),
            Self::precedes(b, c),
        ensures
            Self::precedes(a, c),
    ;

    /// Of two different keys one precedes the other.
    proof fn total(a: Self::V, b: Self::V)
        ensures
            a == b || Self::precedes(a, b) || Self::precedes(b, a),
    ;

    /// Whether `self` precedes `other`.
    fn before(&self, other: &Self) -> (r: bool)
        ensures
            r == Self::precedes(self@, other@),
    ;

    /// A copy of the key.
    fn copy_key(&self) -> (copy: Self)
        ensures
            copy@ == self@,
    ;
}

/// A map from `K` to `T` whose entries stand in ascending key order.
#[derive(Debug)]
pub struct OrderedMap<K: OrderedKey, T> {
    entries: Vec<(K, T)>,
}

/// The entries stand in strictly ascending key order.
pub open spec fn in_order<K: OrderedKey, T>(entries: Seq<(K, T)>) -> bool {
    forall|i: int, j: int|
        0 <= i < j < entries.len() ==> K::precedes(
            (#[trigger] entries[i]).0@,
            (#[trigger] entries[j]).0@,
        )
}

/// Whether the entry at `i` has the key `k`.
pub open spec fn at<K: OrderedKey, T>(entries: Seq<(K, T)>, i: int, k: K::V) -> bool {
    0 <= i < entries.len() && entries[i].0@ == k
}

/// The map that a sequence of entries stands for.
pub open spec fn map_of<K: OrderedKey, T>(entries: Seq<(K, T)>) -> Map<K::V, T> {
    Map::new(
        |k: K::V| exists|i: int| at(entries, i, k),
        |k: K::V| entries[choose|i: int| at(entries, i, k)].1,
    )
}

/// The keys of a sequence of entries.
pub open spec fn keys_of<K: OrderedKey, T>(entries: Seq<(K, T)>) -> Seq<K::V> {
    entries.map_values(|e: (K, T)| e.0@)
}

/// `keys` lists the set `dom` in ascending order.
pub open spec fn lists<K: OrderedKey>(keys: Seq<K::V>, dom: Set<K::V>) -> bool {
    &&& forall|i: int, j: int|
        0 <= i < j < keys.len() ==> K::precedes(#[trigger] keys[i], #[trigger] keys[j])
    &&& forall|k: K::V| keys.contains(k) <==> #[trigger] dom.contains(k)
}

/// A set is listed in ascending order in one way only.
pub proof fn lemma_lists_unique<K: OrderedKey>(a: Seq<K::V>, b: Seq<K::V>, dom: Set<K::V>)
    requires
        lists::<K>(a, dom),
        lists::<K>(b, dom),
    ensures
        a == b,
    decreases a.len(),
{
    if a.len() == 0 {
        if b.len() > 0 {
            assert(b.contains(b[0]));
            assert(dom.contains(b[0]));
            assert(a.contains(b[0]));
        }
        assert(a =~= b);
    } else {
        let x = a.last();
        assert(a.contains(x));
        assert(dom.contains(x));
        assert(b.contains(x));
        let n = b.len() - 1;
        let y = b[n];
        let i = b.index_of(x);
        assert(b.contains(y));
        assert(dom.contains(y));
        assert(a.contains(y));
        let j = a.index_of(y);
        if i != n {
            assert(K::precedes(b[i], b[n]));
            if j != a.len() - 1 {
                assert(K::precedes(a[j], a[a.len() - 1]));
                K::transitive(x, y, x);
            }
            K::irreflexive(x);
        }
        assert(x == y);
        let a1 = a.drop_last();
        let b1 = b.drop_last();
        let d1 = dom.remove(x);
        assert forall|k: K::V| a1.contains(k) <==> #[trigger] d1.contains(k) by {
            if a1.contains(k) {
                let m = a1.index_of(k);
                assert(a[m] == k);
                assert(a.contains(k));
                assert(dom.contains(k));
                assert(K::precedes(a[m], a[a.len() - 1]));
                K::irreflexive(x);
            }
            if d1.contains(k) {
                assert(dom.contains(k));
                assert(a.contains(k));
                let m = a.index_of(k);
                assert(a1[m] == k);
            }
        }
        assert forall|k: K::V| b1.contains(k) <==> #[trigger] d1.contains(k) by {
            if b1.contains(k) {
                let m = b1.index_of(k);
                assert(b[m] == k);
                assert(b.contains(k));
                assert(dom.contains(k));
                assert(K::precedes(b[m], b[n]));
                K::irreflexive(x);
            }
            if d1.contains(k) {
                assert(dom.contains(k));
                assert(b.contains(k));
                let m = b.index_of(k);
                assert(b1[m] == k);
            }
        }
        lemma_lists_unique::<K>(a1, b1, d1);
        assert(a =~= a1.push(x));
        assert(b =~= b1.push(x));
    }
}

/// The ascending list of a set of keys.
pub open spec fn listing<K: OrderedKey>(dom: Set<K::V>) -> Seq<K::V> {
    choose|keys: Seq<K::V>| lists::<K>(keys, dom)
}

/// What lists a set in ascending order is its listing.
pub proof fn lemma_listing<K: OrderedKey>(keys: Seq<K::V>, dom: Set<K::V>)
    requires
        lists::<K>(keys, dom),
    ensures
        keys == listing::<K>(dom),
{
    lemma_lists_unique::<K>(keys, listing::<K>(dom), dom);
}

/// A key that is missing has its place in an ascending list: behind every key that
/// precedes it.
proof fn lemma_place<K: OrderedKey>(keys: Seq<K::V>, x: K::V) -> (p: int)
    requires
        forall|i: int, j: int|
            0 <= i < j < keys.len() ==> K::precedes(#[trigger] keys[i], #[trigger] keys[j]),
        !keys.contains(x),
    ensures
        0 <= p <= keys.len(),
        forall|i: int| 0 <= i < p ==> K::precedes(#[trigger] keys[i], x),
        forall|i: int| p <= i < keys.len() ==> K::precedes(x, #[trigger] keys[i]),
    decreases keys.len(),
{
    if keys.len() == 0 {
        0
    } else {
        let y = keys.last();
        let front = keys.drop_last();
        assert(keys.contains(y));
        K::total(x, y);
        if K::precedes(y, x) {
            assert forall|i: int| 0 <= i < keys.len() implies K::precedes(#[trigger] keys[i], x) by {
                if i < keys.len() - 1 {
                    K::transitive(keys[i], y, x);
                }
            }
            keys.len() as int
        } else {
            assert forall|i: int| 0 <= i < front.len() implies front[i] != x by {
                assert(keys[i] == front[i]);
                assert(keys.contains(keys[i]));
            }
            let p = lemma_place::<K>(front, x);
            assert forall|i: int| 0 <= i < p implies K::precedes(#[trigger] keys[i], x) by {
                assert(front[i] == keys[i]);
            }
            assert forall|i: int| p <= i < keys.len() implies K::precedes(x, #[trigger] keys[i]) by {
                if i < keys.len() - 1 {
                    assert(front[i] == keys[i]);
                }
            }
            p
        }
    }
}

/// Every finite set of keys has its listing: each key once, in ascending order.
pub proof fn finite_sets_are_listed<K: OrderedKey>(dom: Set<K::V>)
    requires
        dom.finite(),
    ensures
        lists::<K>(listing::<K>(dom), dom),
        listing::<K>(dom).len() == dom.len(),
    decreases dom.len(),
{
    if dom.len() == 0 {
        let none = Seq::<K::V>::empty();
        assert(dom =~= Set::empty());
        assert(lists::<K>(none, dom));
        lemma_listing::<K>(none, dom);
    } else {
        let x = dom.choose();
        let rest = dom.remove(x);
        finite_sets_are_listed::<K>(rest);
        let l = listing::<K>(rest);
        assert(!l.contains(x)) by {
            if l.contains(x) {
                assert(rest.contains(x));
            }
        }
        let p = lemma_place::<K>(l, x);
        let keys = l.insert(p, x);
        assert forall|i: int, j: int| 0 <= i < j < keys.len() implies K::precedes(
            #[trigger] keys[i],
            #[trigger] keys[j],
        ) by {
            if i == p {
                assert(keys[j] == l[j - 1]);
            } else if j == p {
                assert(keys[i] == l[i]);
            } else {
                let a = if i < p {
                    i
                } else {
                    i - 1
                };
                let b = if j < p {
                    j
                } else {
                    j - 1
                };
                assert(keys[i] == l[a] && keys[j] == l[b]);
            }
        }
        assert forall|k: K::V| keys.contains(k) <==> #[trigger] dom.contains(k) by {
            if keys.contains(k) && k != x {
                let i = keys.index_of(k);
                let a = if i < p {
                    i
                } else {
                    i - 1
                };
                assert(l[a] == k);
                assert(l.contains(k));
                assert(rest.contains(k));
            }
            if dom.contains(k) {
                if k == x {
                    assert(keys[p] == x);
                } else {
                    assert(rest.contains(k));
                    assert(l.contains(k));
                    let a = l.index_of(k);
                    if a < p {
                        assert(keys[a] == k);
                    } else {
                        assert(keys[a + 1] == k);
                    }
                }
            }
        }
        lemma_listing::<K>(keys, dom);
    }
}

/// Each key stands at one index.
pub proof fn lemma_unique<K: OrderedKey, T>(entries: Seq<(K, T)>, i: int, j: int)
    requires
        in_order(entries),
        0 <= i < entries.len(),
        0 <= j < entries.len(),
        entries[i].0@ == entries[j].0@,
    ensures
        i == j,
{
    K::irreflexive(entries[i].0@);
}

/// The value at an index is the value under the key at that index.
pub proof fn lemma_index<K: OrderedKey, T>(entries: Seq<(K, T)>, i: int)
    requires
        in_order(entries),
        0 <= i < entries.len(),
    ensures
        map_of(entries).dom().contains(entries[i].0@),
        map_of(entries)[entries[i].0@] == entries[i].1,
{
    let k = entries[i].0@;
    assert(at(entries, i, k));
    let j = choose|j: int| at(entries, j, k);
    lemma_unique(entries, i, j);
}

/// The map is as large as the sequence, and its keys are those listed.
pub proof fn lemma_len<K: OrderedKey, T>(entries: Seq<(K, T)>)
    requires
        in_order(entries),
    ensures
        map_of(entries).dom().finite(),
        map_of(entries).len() == entries.len(),
        lists::<K>(keys_of(entries), map_of(entries).dom()),
{
    let keys = keys_of(entries);
    let dom = map_of(entries).dom();
    assert forall|i: int, j: int| 0 <= i < keys.len() && 0 <= j < keys.len() && i != j implies keys[i]
        != keys[j] by {
        if keys[i] == keys[j] {
            lemma_unique(entries, i, j);
        }
    }
    assert(keys.no_duplicates());
    keys.unique_seq_to_set();
    assert forall|k: K::V| keys.contains(k) <==> #[trigger] dom.contains(k) by {
        if keys.contains(k) {
            let i = keys.index_of(k);
            assert(at(entries, i, k));
        }
        if dom.contains(k) {
            let i = choose|i: int| at(entries, i, k);
            assert(keys[i] == k);
        }
    }
    assert(keys.to_set() =~= dom);
    assert forall|i: int, j: int| 0 <= i < j < keys.len() implies K::precedes(
        #[trigger] keys[i],
        #[trigger] keys[j],
    ) by {
        assert(K::precedes(entries[i].0@, entries[j].0@));
    }
}

/// Overwriting the value at the index of a key changes the map there only.
proof fn lemma_update<K: OrderedKey, T>(before: Seq<(K, T)>, p: int, key: K, value: T)
    requires
        in_order(before),
        at(before, p, key@),
    ensures
        in_order(before.update(p, (key, value))),
        map_of(before.update(p, (key, value))) == map_of(before).insert(key@, value),
{
    let after = before.update(p, (key, value));
    let target = map_of(before).insert(key@, value);
    assert forall|i: int, j: int| 0 <= i < j < after.len() implies K::precedes(
        (#[trigger] after[i]).0@,
        (#[trigger] after[j]).0@,
    ) by {
        assert(K::precedes(before[i].0@, before[j].0@));
    }
    assert forall|k: K::V| map_of(after).dom().contains(k) == target.dom().contains(k) by {
        if map_of(after).dom().contains(k) {
            let i = choose|i: int| at(after, i, k);
            assert(at(before, i, k));
        }
        if target.dom().contains(k) {
            if k == key@ {
                assert(at(after, p, k));
            } else {
                let b = choose|b: int| at(before, b, k);
                assert(at(after, b, k));
            }
        }
    }
    assert forall|k: K::V| target.dom().contains(k) implies map_of(after)[k] == target[k] by {
        assert(map_of(after).dom().contains(k));
        let i = choose|i: int| at(after, i, k);
        lemma_index(after, i);
        assert(at(before, i, k));
        lemma_index(before, i);
        if k == key@ {
            lemma_unique(before, i, p);
        }
    }
    assert(map_of(after) =~= target);
}

/// Inserting a new key at its place adds it to the map.
proof fn lemma_insert<K: OrderedKey, T>(before: Seq<(K, T)>, p: int, key: K, value: T)
    requires
        in_order(before),
        0 <= p <= before.len(),
        forall|i: int| 0 <= i < p ==> K::precedes((#[trigger] before[i]).0@, key@),
        forall|i: int| p <= i < before.len() ==> K::precedes(key@, (#[trigger] before[i]).0@),
    ensures
        in_order(before.insert(p, (key, value))),
        map_of(before.insert(p, (key, value))) == map_of(before).insert(key@, value),
{
    let after = before.insert(p, (key, value));
    let target = map_of(before).insert(key@, value);
    assert forall|i: int, j: int| 0 <= i < j < after.len() implies K::precedes(
        (#[trigger] after[i]).0@,
        (#[trigger] after[j]).0@,
    ) by {
        let bi = if i < p { i } else { i - 1 };
        let bj = if j < p { j } else { j - 1 };
        if i != p {
            assert(after[i] == before[bi]);
        }
        if j != p {
            assert(after[j] == before[bj]);
        }
        if i != p && j != p {
            assert(K::precedes(before[bi].0@, before[bj].0@));
        }
    }
    assert forall|k: K::V| map_of(after).dom().contains(k) == target.dom().contains(k) by {
        if map_of(after).dom().contains(k) {
            let i = choose|i: int| at(after, i, k);
            if i != p {
                let bi = if i < p { i } else { i - 1 };
                assert(at(before, bi, k));
            }
        }
        if target.dom().contains(k) {
            if k == key@ {
                assert(at(after, p, k));
            } else {
                let b = choose|b: int| at(before, b, k);
                let i = if b < p { b } else { b + 1 };
                assert(at(after, i, k));
            }
        }
    }
    assert forall|k: K::V| target.dom().contains(k) implies map_of(after)[k] == target[k] by {
        assert(map_of(after).dom().contains(k));
        let i = choose|i: int| at(after, i, k);
        lemma_index(after, i);
        if i != p {
            let bi = if i < p { i } else { i - 1 };
            assert(at(before, bi, k));
            lemma_index(before, bi);
            if k == key@ {
                lemma_unique(after, i, p);
            }
        }
    }
    assert(map_of(after) =~= target);
}

/// Removing the entry at an index takes its key out of the map.
proof fn lemma_remove<K: OrderedKey, T>(before: Seq<(K, T)>, p: int)
    requires
        in_order(before),
        0 <= p < before.len(),
    ensures
        in_order(before.remove(p)),
        map_of(before.remove(p)) == map_of(before).remove(before[p].0@),
{
    let after = before.remove(p);
    let key = before[p].0@;
    let target = map_of(before).remove(key);
    assert forall|i: int, j: int| 0 <= i < j < after.len() implies K::precedes(
        (#[trigger] after[i]).0@,
        (#[trigger] after[j]).0@,
    ) by {
        let bi = if i < p { i } else { i + 1 };
        let bj = if j < p { j } else { j + 1 };
        assert(after[i] == before[bi]);
        assert(after[j] == before[bj]);
        assert(K::precedes(before[bi].0@, before[bj].0@));
    }
    assert forall|k: K::V| map_of(after).dom().contains(k) == target.dom().contains(k) by {
        if map_of(after).dom().contains(k) {
            let i = choose|i: int| at(after, i, k);
            let bi = if i < p { i } else { i + 1 };
            assert(at(before, bi, k));
            if k == key {
                lemma_unique(before, bi, p);
            }
        }
        if target.dom().contains(k) {
            let b = choose|b: int| at(before, b, k);
            let i = if b < p { b } else { b - 1 };
            assert(at(after, i, k));
        }
    }
    assert forall|k: K::V| target.dom().contains(k) implies map_of(after)[k] == target[k] by {
        assert(map_of(after).dom().contains(k));
        let i = choose|i: int| at(after, i, k);
        lemma_index(after, i);
        let bi = if i < p { i } else { i + 1 };
        assert(at(before, bi, k));
        lemma_index(before, bi);
    }
    assert(map_of(after) =~= target);
}

/// Where a key stands in a vector of entries, or would stand.
fn find<K: OrderedKey, T>(entries: &Vec<(K, T)>, key: &K) -> (r: (bool, usize))
    requires
        in_order(entries@),
    ensures
        r.1 <= entries@.len(),
        r.0 == map_of(entries@).dom().contains(key@),
        r.0 ==> at(entries@, r.1 as int, key@),
        forall|i: int| 0 <= i < r.1 ==> K::precedes((#[trigger] entries@[i]).0@, key@),
        !r.0 ==> forall|i: int|
            r.1 <= i < entries@.len() ==> K::precedes(key@, (#[trigger] entries@[i]).0@),
{
    let mut p: usize = 0;
    while p < entries.len() && entries[p].0.before(key)
        invariant
            p <= entries@.len(),
            forall|i: int| 0 <= i < p ==> K::precedes((#[trigger] entries@[i]).0@, key@),
        decreases entries@.len() - p,
    {
        p = p + 1;
    }
    if p < entries.len() && !key.before(&entries[p].0) {
        proof {
            K::total(key@, entries@[p as int].0@);
            lemma_index(entries@, p as int);
        }
        (true, p)
    } else {
        proof {
            assert forall|i: int| p <= i < entries@.len() implies K::precedes(
                key@,
                (#[trigger] entries@[i]).0@,
            ) by {
                if i > p {
                    K::transitive(key@, entries@[p as int].0@, entries@[i].0@);
                }
            }
            if map_of(entries@).dom().contains(key@) {
                let i = choose|i: int| at(entries@, i, key@);
                K::irreflexive(key@);
                assert(i < p ==> K::precedes(entries@[i].0@, key@));
            }
        }
        (false, p)
    }
}

impl<K: OrderedKey, T: Copy> Clone for OrderedMap<K, T> {
    fn clone(&self) -> (copy: Self)
        ensures
            copy.map() == self.map(),
    {
        proof {
            use_type_invariant(self);
        }
        let mut entries: Vec<(K, T)> = Vec::new();
        let mut i: usize = 0;
        while i < self.entries.len()
            invariant
                i <= self.entries@.len(),
                entries@.len() == i,
                in_order(self.entries@),
                forall|j: int|
                    0 <= j < i ==> (#[trigger] entries@[j]).0@ == self.entries@[j].0@
                        && entries@[j].1 == self.entries@[j].1,
            decreases self.entries@.len() - i,
        {
            let key = self.entries[i].0.copy_key();
            let value = self.entries[i].1;
            entries.push((key, value));
            i = i + 1;
        }
        assert forall|a: int, b: int| 0 <= a < b < entries@.len() implies K::precedes(
            (#[trigger] entries@[a]).0@,
            (#[trigger] entries@[b]).0@,
        ) by {
            assert(K::precedes(self.entries@[a].0@, self.entries@[b].0@));
        }
        let copy = OrderedMap { entries };
        proof {
            lemma_same_map(copy.entries@, self.entries@);
        }
        copy
    }
}

/// Entries with the same keys and values make the same map.
proof fn lemma_same_map<K: OrderedKey, T>(a: Seq<(K, T)>, b: Seq<(K, T)>)
    requires
        in_order(a),
        in_order(b),
        a.len() == b.len(),
        forall|j: int|
            0 <= j < a.len() ==> (#[trigger] a[j]).0@ == b[j].0@ && a[j].1 == b[j].1,
    ensures
        map_of(a) == map_of(b),
{
    assert forall|k: K::V| map_of(a).dom().contains(k) <==> map_of(b).dom().contains(k) by {
        if map_of(a).dom().contains(k) {
            let i = choose|i: int| at(a, i, k);
            assert(a[i].0@ == b[i].0@);
            assert(at(b, i, k));
        }
        if map_of(b).dom().contains(k) {
            let i = choose|i: int| at(b, i, k);
            assert(a[i].0@ == b[i].0@);
            assert(at(a, i, k));
        }
    }
    assert forall|k: K::V| map_of(a).dom().contains(k) implies map_of(a)[k] == map_of(b)[k] by {
        let i = choose|i: int| at(a, i, k);
        assert(a[i].0@ == b[i].0@);
        assert(at(b, i, k));
        lemma_index(a, i);
        lemma_index(b, i);
    }
    assert(map_of(a) =~= map_of(b));
}

impl<K: OrderedKey, T> OrderedMap<K, T> {
    /// The entries in key order.
    pub closed spec fn entries(&self) -> Seq<(K, T)> {
        self.entries@
    }

    #[verifier::type_invariant]
    spec fn valid(&self) -> bool {
        in_order(self.entries@)
    }

    /// The map from keys to values.
    pub open spec fn map(&self) -> Map<K::V, T> {
        map_of(self.entries())
    }

    /// The empty map.
    pub fn new() -> (m: Self)
        ensures
            m.map() == Map::<K::V, T>::empty(),
    {
        let m = OrderedMap { entries: Vec::new() };
        assert(m.map() =~= Map::<K::V, T>::empty());
        m
    }

    /// The number of entries.
    pub fn len(&self) -> (n: usize)
        ensures
            n == self.entries().len(),
            n == self.map().len(),
            self.map().dom().finite(),
            in_order(self.entries()),
            lists::<K>(keys_of(self.entries()), self.map().dom()),
            keys_of(self.entries()) == listing::<K>(self.map().dom()),
    {
        proof {
            use_type_invariant(self);
            lemma_len(self.entries());
            lemma_listing::<K>(keys_of(self.entries()), self.map().dom());
        }
        self.entries.len()
    }

    /// Whether `key` is in the map.
    pub fn contains_key(&self, key: &K) -> (r: bool)
        ensures
            r == self.map().dom().contains(key@),
    {
        proof {
            use_type_invariant(self);
        }
        find(&self.entries, key).0
    }

    /// The value under `key`.
    pub fn get(&self, key: &K) -> (r: Option<&T>)
        ensures
            match r {
                Some(v) => self.map().dom().contains(key@) && self.map()[key@] == *v,
                None => !self.map().dom().contains(key@),
            },
    {
        proof {
            use_type_invariant(self);
        }
        let (found, p) = find(&self.entries, key);
        if found {
            proof {
                lemma_index(self.entries(), p as int);
            }
            Some(&self.entries[p].1)
        } else {
            None
        }
    }

    /// The map with `value` under `key`, in place of what stood there.
    pub fn insert(self, key: K, value: T) -> (m: Self)
        ensures
            m.map() == self.map().insert(key@, value),
    {
        proof {
            use_type_invariant(&self);
        }
        let mut entries = self.entries;
        let (found, p) = find(&entries, &key);
        let ghost before = entries@;
        if found {
            proof {
                lemma_update(before, p as int, key, value);
            }
            entries.remove(p);
            entries.insert(p, (key, value));
            assert(entries@ =~= before.update(p as int, (key, value)));
        } else {
            proof {
                lemma_insert(before, p as int, key, value);
            }
            entries.insert(p, (key, value));
            assert(entries@ =~= before.insert(p as int, (key, value)));
        }
        OrderedMap { entries }
    }

    /// The map without `key`, and what stood under it.
    pub fn remove(self, key: &K) -> (r: (Self, Option<T>))
        ensures
            r.0.map() == self.map().remove(key@),
            match r.1 {
                Some(v) => self.map().dom().contains(key@) && self.map()[key@] == v,
                None => !self.map().dom().contains(key@),
            },
    {
        proof {
            use_type_invariant(&self);
        }
        let mut entries = self.entries;
        let (found, p) = find(&entries, key);
        if !found {
            assert(self.map().remove(key@) =~= self.map());
            return (OrderedMap { entries }, None);
        }
        let ghost before = entries@;
        proof {
            lemma_index(before, p as int);
            lemma_remove(before, p as int);
        }
        let (_, value) = entries.remove(p);
        assert(entries@ =~= before.remove(p as int));
        (OrderedMap { entries }, Some(value))
    }

    /// The key and value at an index.
    pub fn entry(&self, i: usize) -> (r: (&K, &T))
        requires
            i < self.map().len(),
        ensures
            *r.0 == self.entries()[i as int].0,
            *r.1 == self.entries()[i as int].1,
            self.map().dom().contains(r.0@),
            self.map()[r.0@] == *r.1,
    {
        proof {
            use_type_invariant(self);
            lemma_len(self.entries());
            lemma_index(self.entries(), i as int);
        }
        let e = &self.entries[i];
        (&e.0, &e.1)
    }

    /// The keys in ascending order.
    pub fn keys(&self) -> (keys: Vec<K>)
        ensures
            keys@.len() == self.map().len(),
            lists::<K>(keys@.map_values(|k: K| k@), self.map().dom()),
            keys@.map_values(|k: K| k@) == listing::<K>(self.map().dom()),
    {
        let mut keys: Vec<K> = Vec::new();
        let mut i: usize = 0;
        while i < self.entries.len()
            invariant
                i <= self.entries().len(),
                keys@.len() == i,
                forall|j: int| 0 <= j < i ==> (#[trigger] keys@[j])@ == self.entries()[j].0@,
            decreases self.entries().len() - i,
        {
            keys.push(self.entries[i].0.copy_key());
            i = i + 1;
        }
        proof {
            use_type_invariant(self);
            lemma_len(self.entries());
            lemma_listing::<K>(keys_of(self.entries()), self.map().dom());
        }
        assert(keys@.map_values(|k: K| k@) =~= keys_of(self.entries()));
        keys
    }
}

} // verus!
