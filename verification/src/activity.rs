//! Bounded tables: the entry that was touched longest ago makes room, and
//! idle entries are swept.
use vstd::prelude::*;
use crate::ordered_map::{
    at, in_order, lemma_index, lemma_listing, listing, lists, map_of, OrderedKey, OrderedMap,
};

verus! {

/// The tick after `tick`; the counter wraps around.
pub open spec fn tick_after(tick: u64) -> u64 {
    if tick == u64::MAX { 0 } else { (tick + 1) as u64 }
}

/// The tick after `tick`.
pub fn next_tick(tick: u64) -> (next: u64)
    ensures
        next == tick_after(tick),
{
    if tick == u64::MAX { 0 } else { tick + 1 }
}

/// The tick below which an entry is idle.
pub open spec fn idle_cutoff(tick: u64, max_idle_ticks: u64) -> u64 {
    if tick >= max_idle_ticks { (tick - max_idle_ticks) as u64 } else { 0 }
}

/// The tick below which an entry is idle.
pub fn cutoff(tick: u64, max_idle_ticks: u64) -> (r: u64)
    ensures
        r == idle_cutoff(tick, max_idle_ticks),
{
    if tick >= max_idle_ticks { tick - max_idle_ticks } else { 0 }
}

/// Something that remembers the tick at which it was last touched.
pub trait Touched {
    /// That tick.
    spec fn touched(&self) -> u64;

    /// That tick.
    fn last_activity(&self) -> (tick: u64)
        ensures
            tick == self.touched(),
    ;
}

/// When each entry was last touched.
pub open spec fn activity_of<A, T: Touched>(map: Map<A, T>) -> Map<A, u64> {
    map.map_values(|t: T| t.touched())
}

/// `k` was touched longest ago; among equals it is the smallest key.
pub open spec fn is_lru<K: OrderedKey>(activity: Map<K::V, u64>, k: K::V) -> bool {
    activity.dom().contains(k) && forall|o: K::V|
        #![trigger activity.dom().contains(o)]
        activity.dom().contains(o) ==> activity[k] < activity[o] || (activity[k] == activity[o] && (k
            == o || K::precedes(k, o)))
}

/// The entry that makes room.
pub open spec fn lru<K: OrderedKey>(activity: Map<K::V, u64>) -> K::V {
    choose|k: K::V| is_lru::<K>(activity, k)
}

/// Only one key was touched longest ago.
pub proof fn lemma_lru_unique<K: OrderedKey>(activity: Map<K::V, u64>, k: K::V)
    requires
        is_lru::<K>(activity, k),
    ensures
        lru::<K>(activity) == k,
{
    let l = lru::<K>(activity);
    assert(is_lru::<K>(activity, l));
    assert(activity.dom().contains(k) && activity.dom().contains(l));
    if l != k {
        K::transitive(k, l, k);
        K::irreflexive(k);
    }
}

/// The table with `v` under `k`: where `k` is new and the table full, the
/// entry that was touched longest ago leaves first.
pub open spec fn bounded_insert<K: OrderedKey, T>(
    map: Map<K::V, T>,
    activity: Map<K::V, u64>,
    k: K::V,
    v: T,
    cap: nat,
) -> Map<K::V, T> {
    if !map.dom().contains(k) && map.len() >= cap && map.len() > 0 {
        map.remove(lru::<K>(activity)).insert(k, v)
    } else {
        map.insert(k, v)
    }
}

/// A bounded insertion keeps a table within a bound of at least one.
pub proof fn lemma_bounded_insert_len<K: OrderedKey, T>(
    map: Map<K::V, T>,
    activity: Map<K::V, u64>,
    k: K::V,
    v: T,
    cap: nat,
)
    requires
        map.dom().finite(),
        map.len() <= cap,
        cap >= 1,
        activity.dom() == map.dom(),
        exists|x: K::V| map.len() > 0 ==> is_lru::<K>(activity, x),
    ensures
        bounded_insert::<K, T>(map, activity, k, v, cap).dom().finite(),
        bounded_insert::<K, T>(map, activity, k, v, cap).len() <= cap,
        bounded_insert::<K, T>(map, activity, k, v, cap).dom().contains(k),
{
    if !map.dom().contains(k) && map.len() >= cap && map.len() > 0 {
        let x = choose|x: K::V| map.len() > 0 ==> is_lru::<K>(activity, x);
        lemma_lru_unique::<K>(activity, x);
        assert(map.dom().contains(lru::<K>(activity)));
    }
}

/// In a table that is not empty some entry was touched longest ago.
pub proof fn some_entry_is_oldest<K: OrderedKey>(activity: Map<K::V, u64>) -> (oldest: K::V)
    requires
        activity.dom().finite(),
        activity.dom().len() > 0,
    ensures
        is_lru::<K>(activity, oldest),
    decreases activity.dom().len(),
{
    let x = activity.dom().choose();
    let rest = activity.remove(x);
    if rest.dom().len() == 0 {
        assert forall|o: K::V| #![trigger activity.dom().contains(o)]
            activity.dom().contains(o) implies o == x by {
            if o != x {
                assert(rest.dom().contains(o));
            }
        }
        x
    } else {
        let y = some_entry_is_oldest::<K>(rest);
        K::total(x, y);
        let older = activity[x] < activity[y] || (activity[x] == activity[y] && K::precedes(x, y));
        let z = if older {
            x
        } else {
            y
        };
        assert(rest.dom().contains(y));
        assert forall|o: K::V| #![trigger activity.dom().contains(o)]
            activity.dom().contains(o) implies activity[z] < activity[o] || (activity[z]
            == activity[o] && (z == o || K::precedes(z, o))) by {
            if o != x {
                assert(rest.dom().contains(o));
                if older && activity[x] == activity[o] && y != o {
                    K::transitive(x, y, o);
                }
            }
        }
        z
    }
}

/// A bounded insertion puts the entry in and keeps all others, but where a new entry
/// finds the table full: then one entry leaves, and no other was touched earlier.
pub proof fn full_tables_lose_their_oldest<K: OrderedKey, T>(
    map: Map<K::V, T>,
    activity: Map<K::V, u64>,
    k: K::V,
    v: T,
    cap: nat,
)
    requires
        map.dom().finite(),
        activity.dom() == map.dom(),
        cap >= 1,
    ensures
        ({
            let after = bounded_insert::<K, T>(map, activity, k, v, cap);
            &&& after.dom().contains(k) && after[k] == v
            &&& after.dom().finite()
            &&& forall|o: K::V|
                o != k && #[trigger] after.dom().contains(o) ==> map.dom().contains(o) && after[o]
                    == map[o]
            &&& map.dom().contains(k) || map.len() < cap ==> forall|o: K::V|
                map.dom().contains(o) ==> #[trigger] after.dom().contains(o)
            &&& !map.dom().contains(k) && map.len() >= cap ==> after.len() == map.len()
            &&& forall|o: K::V, x: K::V|
                map.dom().contains(o) && !#[trigger] after.dom().contains(o)
                    && #[trigger] map.dom().contains(x) ==> activity[o] <= activity[x]
        }),
{
    if !map.dom().contains(k) && map.len() >= cap && map.len() > 0 {
        let oldest = some_entry_is_oldest::<K>(activity);
        lemma_lru_unique::<K>(activity, oldest);
        assert(map.dom().contains(oldest));
    }
}

/// Bounded insertion commutes with a view of the entries.
pub proof fn lemma_bounded_insert_map<K: OrderedKey, T, U>(
    map: Map<K::V, T>,
    activity: Map<K::V, u64>,
    k: K::V,
    v: T,
    cap: nat,
    f: spec_fn(T) -> U,
)
    ensures
        bounded_insert::<K, T>(map, activity, k, v, cap).map_values(f) == bounded_insert::<K, U>(
            map.map_values(f),
            activity,
            k,
            f(v),
            cap,
        ),
{
    assert(map.map_values(f).dom() =~= map.dom());
    assert(bounded_insert::<K, T>(map, activity, k, v, cap).map_values(f) =~= bounded_insert::<
        K,
        U,
    >(map.map_values(f), activity, k, f(v), cap));
}

/// The index of the entry that was touched longest ago.
fn lru_index<K: OrderedKey, T: Touched>(map: &OrderedMap<K, T>) -> (p: usize)
    requires
        map.map().len() > 0,
    ensures
        p < map.map().len(),
        is_lru::<K>(activity_of(map.map()), map.entries()[p as int].0@),
{
    let n: usize = map.len();
    let ghost entries = map.entries();
    let mut p: usize = 0;
    let mut best: u64 = map.entry(0).1.last_activity();
    let mut i: usize = 1;
    while i < n
        invariant
            n == map.map().len(),
            n == entries.len(),
            entries == map.entries(),
            p < i <= n,
            best == entries[p as int].1.touched(),
            forall|j: int|
                0 <= j < i ==> best < (#[trigger] entries[j]).1.touched() || (best
                    == entries[j].1.touched() && p <= j),
        decreases n - i,
    {
        let t: u64 = map.entry(i).1.last_activity();
        if t < best {
            best = t;
            p = i;
        }
        i = i + 1;
    }
    proof {
        let activity = activity_of(map.map());
        let k = entries[p as int].0@;
        lemma_index(entries, p as int);
        assert forall|o: K::V|
            #![trigger activity.dom().contains(o)]
            activity.dom().contains(o) implies activity[k] < activity[o] || (activity[k]
            == activity[o] && (k == o || K::precedes(k, o))) by {
            let j = choose|j: int| at(entries, j, o);
            lemma_index(entries, j);
            if activity[k] == activity[o] && p < j {
                assert(K::precedes(entries[p as int].0@, entries[j].0@));
            }
        }
    }
    p
}

/// Puts `entry` under `key` in a table of at most `cap` entries.
pub fn insert_with_lru<K: OrderedKey, T: Touched>(
    map: OrderedMap<K, T>,
    key: K,
    entry: T,
    cap: usize,
) -> (r: OrderedMap<K, T>)
    ensures
        r.map() == bounded_insert::<K, T>(
            map.map(),
            activity_of(map.map()),
            key@,
            entry,
            cap as nat,
        ),
        map.map().dom().finite(),
        map.map().len() <= cap && cap >= 1 ==> r.map().dom().finite() && r.map().len() <= cap,
{
    let n: usize = map.len();
    if n > 0 {
        let p = lru_index(&map);
        let (victim, _) = map.entry(p);
        let victim = victim.copy_key();
        proof {
            let activity = activity_of(map.map());
            assert(activity.dom() =~= map.map().dom());
            lemma_lru_unique::<K>(activity, victim@);
            if map.map().len() <= cap && cap >= 1 {
                lemma_bounded_insert_len::<K, T>(map.map(), activity, key@, entry, cap as nat);
            }
        }
        if !map.contains_key(&key) && n >= cap {
            let (rest, _) = map.remove(&victim);
            return rest.insert(key, entry);
        }
    }
    map.insert(key, entry)
}

/// The entries that were touched at `cutoff` or later.
pub open spec fn kept<A, T>(map: Map<A, T>, activity: Map<A, u64>, cutoff: u64) -> Map<A, T> {
    Map::new(|k: A| map.dom().contains(k) && activity[k] >= cutoff, |k: A| map[k])
}

/// The keys of the entries that were last touched before `cutoff`.
pub open spec fn swept<A, T>(map: Map<A, T>, activity: Map<A, u64>, cutoff: u64) -> Set<A> {
    Set::new(|k: A| map.dom().contains(k) && activity[k] < cutoff)
}

/// Takes out every entry that was last touched before `cutoff`, and lists their
/// keys in ascending order.
pub fn sweep_idle<K: OrderedKey, T: Touched>(map: OrderedMap<K, T>, cutoff: u64) -> (r: (
    OrderedMap<K, T>,
    Vec<K>,
))
    ensures
        r.0.map() == kept(map.map(), activity_of(map.map()), cutoff),
        r.1@.map_values(|k: K| k@) == listing::<K>(
            swept(map.map(), activity_of(map.map()), cutoff),
        ),
        lists::<K>(
            r.1@.map_values(|k: K| k@),
            swept(map.map(), activity_of(map.map()), cutoff),
        ),
{
    let n: usize = map.len();
    let ghost entries = map.entries();
    let ghost activity = activity_of(map.map());
    let mut evicted: Vec<K> = Vec::new();
    let mut i: usize = 0;
    let ghost mut places: Seq<int> = Seq::empty();
    while i < n
        invariant
            n == map.map().len(),
            n == entries.len(),
            entries == map.entries(),
            in_order(entries),
            map.map() == map_of(entries),
            activity == activity_of(map.map()),
            i <= n,
            places.len() == evicted@.len(),
            forall|j: int|
                0 <= j < places.len() ==> 0 <= #[trigger] places[j] < i && evicted@[j]@
                    == entries[places[j]].0@ && entries[places[j]].1.touched() < cutoff,
            forall|j: int, l: int|
                0 <= j < l < places.len() ==> #[trigger] places[j] < #[trigger] places[l],
            forall|p: int|
                0 <= p < i && (#[trigger] entries[p]).1.touched() < cutoff ==> places.contains(p),
        decreases n - i,
    {
        let (key, entry) = map.entry(i);
        if entry.last_activity() < cutoff {
            evicted.push(key.copy_key());
            proof {
                let before = places;
                places = places.push(i as int);
                assert(places[places.len() - 1] == i);
                assert forall|p: int|
                    0 <= p < i + 1 && (#[trigger] entries[p]).1.touched()
                        < cutoff implies places.contains(p) by {
                    if p < i {
                        assert(before.contains(p));
                        let j = before.index_of(p);
                        assert(places[j] == p);
                    }
                }
            }
        }
        i = i + 1;
    }
    let ghost names = evicted@.map_values(|k: K| k@);
    let ghost gone = swept(map.map(), activity, cutoff);
    proof {
        assert forall|j: int, l: int| 0 <= j < l < names.len() implies K::precedes(
            #[trigger] names[j],
            #[trigger] names[l],
        ) by {
            assert(places[j] < places[l]);
            assert(K::precedes(entries[places[j]].0@, entries[places[l]].0@));
        }
        assert forall|k: K::V| names.contains(k) <==> #[trigger] gone.contains(k) by {
            if names.contains(k) {
                let j = names.index_of(k);
                lemma_index(entries, places[j]);
            }
            if gone.contains(k) {
                let p = choose|p: int| at(entries, p, k);
                lemma_index(entries, p);
                assert(places.contains(p));
                let j = places.index_of(p);
                assert(names[j] == k);
            }
        }
        assert(lists::<K>(names, gone));
        lemma_listing::<K>(names, gone);
    }
    let ghost start = map.map();
    let mut rest = map;
    let mut j: usize = 0;
    while j < evicted.len()
        invariant
            j <= evicted@.len(),
            names == evicted@.map_values(|k: K| k@),
            rest.map() == start.remove_keys(names.take(j as int).to_set()),
        decreases evicted@.len() - j,
    {
        let ghost gone_before = names.take(j as int).to_set();
        let (next, _) = rest.remove(&evicted[j]);
        proof {
            let gone_after = names.take(j + 1).to_set();
            assert(names.take(j + 1) =~= names.take(j as int).push(names[j as int]));
            assert(gone_after =~= gone_before.insert(names[j as int])) by {
                assert forall|k: K::V| gone_after.contains(k) == gone_before.insert(
                    names[j as int],
                ).contains(k) by {
                    let t0 = names.take(j as int);
                    let t1 = names.take(j + 1);
                    if t1.contains(k) {
                        let q = t1.index_of(k);
                        if q < j {
                            assert(t0[q] == k);
                        }
                    }
                    if t0.contains(k) {
                        let q = t0.index_of(k);
                        assert(t1[q] == k);
                    }
                    assert(t1[j as int] == names[j as int]);
                }
            }
            assert(next.map() =~= start.remove_keys(gone_after));
        }
        rest = next;
        j = j + 1;
    }
    proof {
        assert(names.take(j as int) =~= names);
        assert(names.to_set() =~= gone) by {
            assert forall|k: K::V| names.to_set().contains(k) == gone.contains(k) by {
                assert(gone.contains(k) == names.contains(k));
            }
        }
        assert(rest.map() =~= kept(start, activity, cutoff)) by {
            assert forall|k: K::V| rest.map().dom().contains(k) == kept(
                start,
                activity,
                cutoff,
            ).dom().contains(k) by {
                assert(activity.dom() =~= start.dom());
            }
        }
    }
    (rest, evicted)
}

} // verus!
