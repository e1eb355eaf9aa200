//! Insertion-ordered collections of object ids, provided by the `indexmap`
//! crate and used for priority passes, per-player card zones, blocker lists
//! and per-blocker damage bookkeeping.
//!
//! The collections are opaque to the verifier.  What each one holds is named
//! by an uninterpreted sequence (`id_set_elems`, `damage_entries`), and every
//! method the engine calls goes through a wrapper whose contract states, over
//! that sequence, what the `indexmap` documentation promises.

use vstd::prelude::*;

use indexmap::IndexMap;
use indexmap::IndexSet;
use rand::seq::SliceRandom;

verus! {

#[verifier::external_type_specification]
#[verifier::external_body]
#[verifier::reject_recursive_types(T)]
#[verifier::reject_recursive_types(S)]
pub struct ExIndexSet<T, S>(IndexSet<T, S>);

#[verifier::external_type_specification]
#[verifier::external_body]
#[verifier::reject_recursive_types(K)]
#[verifier::reject_recursive_types(V)]
#[verifier::reject_recursive_types(S)]
pub struct ExIndexMap<K, V, S>(IndexMap<K, V, S>);

/// The elements of an id set, in insertion order.
pub uninterp spec fn id_set_elems(s: IndexSet<usize>) -> Seq<usize>;

/// The key-value entries of a damage map, in insertion order.
pub uninterp spec fn damage_entries(m: IndexMap<usize, i16>) -> Seq<(usize, i16)>;

/// Whether some entry of `s` carries the key `k`.
pub open spec fn has_key(s: Seq<(usize, i16)>, k: usize) -> bool {
    exists|i: int| 0 <= i < s.len() && (#[trigger] s[i]).0 == k
}

/// The index of the first entry of `s` carrying the key `k`.
pub open spec fn key_index(s: Seq<(usize, i16)>, k: usize) -> int
    decreases s.len(),
{
    if s.len() == 0 {
        0
    } else if s[0].0 == k {
        0
    } else {
        1 + key_index(s.drop_first(), k)
    }
}

/// The value stored for `k`, or `or` where no entry carries `k`.
pub open spec fn key_value_or(s: Seq<(usize, i16)>, k: usize, or: i16) -> i16
    decreases s.len(),
{
    if s.len() == 0 {
        or
    } else if s[0].0 == k {
        s[0].1
    } else {
        key_value_or(s.drop_first(), k, or)
    }
}

/// `s` with the value for `k` replaced in place, or a new entry appended
/// where no entry carries `k`.
pub open spec fn key_store(s: Seq<(usize, i16)>, k: usize, v: i16) -> Seq<(usize, i16)> {
    if has_key(s, k) {
        s.update(key_index(s, k), (k, v))
    } else {
        s.push((k, v))
    }
}

/// A key that no entry carries reads as the fallback value.
pub proof fn lemma_key_value_or_absent(s: Seq<(usize, i16)>, k: usize, or: i16)
    requires
        !has_key(s, k),
    ensures
        key_value_or(s, k, or) == or,
    decreases s.len(),
{
    if s.len() > 0 {
        assert(s[0].0 != k);
        assert forall|i: int| 0 <= i < s.drop_first().len() implies (#[trigger] s.drop_first()[i]).0
            != k by {
            assert(s.drop_first()[i] == s[i + 1]);
        }
        lemma_key_value_or_absent(s.drop_first(), k, or);
    }
}

/// Storing one key changes what that key reads and nothing else.
pub proof fn lemma_key_store_reads(s: Seq<(usize, i16)>, k: usize, v: i16, k2: usize)
    requires
        k2 != k,
    ensures
        key_value_or(key_store(s, k, v), k2, 0) == key_value_or(s, k2, 0),
        has_key(key_store(s, k, v), k2) == has_key(s, k2),
    decreases s.len(),
{
    lemma_key_store_reads_all(s, k, v, k2);
}

/// What any key reads after a store: the stored value for the stored key,
/// the old value for every other.
pub proof fn lemma_key_store_reads_all(s: Seq<(usize, i16)>, k: usize, v: i16, k2: usize)
    ensures
        k2 == k ==> key_value_or(key_store(s, k, v), k2, 0) == v,
        k2 != k ==> key_value_or(key_store(s, k, v), k2, 0) == key_value_or(s, k2, 0),
        k2 != k ==> has_key(key_store(s, k, v), k2) == has_key(s, k2),
        has_key(key_store(s, k, v), k),
    decreases s.len(),
{
    if has_key(s, k) {
        lemma_key_index_props(s, k);
        lemma_update_reads(s, key_index(s, k), (k, v), k2);
    } else {
        lemma_push_reads(s, (k, v), k2);
    }
}

/// The first entry index of a present key is in range and carries it, and
/// nothing before it does.
pub proof fn lemma_key_index_props(s: Seq<(usize, i16)>, k: usize)
    requires
        has_key(s, k),
    ensures
        0 <= key_index(s, k) < s.len(),
        s[key_index(s, k)].0 == k,
        forall|j: int| 0 <= j < key_index(s, k) ==> (#[trigger] s[j]).0 != k,
        key_value_or(s, k, 0) == s[key_index(s, k)].1,
    decreases s.len(),
{
    if s.len() > 0 && s[0].0 != k {
        assert(has_key(s.drop_first(), k)) by {
            let i = choose|i: int| 0 <= i < s.len() && (#[trigger] s[i]).0 == k;
            assert(s.drop_first()[i - 1] == s[i]);
        }
        lemma_key_index_props(s.drop_first(), k);
        assert forall|j: int| 0 <= j < key_index(s, k) implies (#[trigger] s[j]).0 != k by {
            if j > 0 {
                assert(s.drop_first()[j - 1] == s[j]);
            }
        }
    }
}

/// Reading a key after an in-place update at the first index of another
/// present key.
proof fn lemma_update_reads(s: Seq<(usize, i16)>, i: int, e: (usize, i16), k2: usize)
    requires
        0 <= i < s.len(),
        s[i].0 == e.0,
        forall|j: int| 0 <= j < i ==> (#[trigger] s[j]).0 != e.0,
    ensures
        k2 == e.0 ==> key_value_or(s.update(i, e), k2, 0) == e.1,
        k2 != e.0 ==> key_value_or(s.update(i, e), k2, 0) == key_value_or(s, k2, 0),
        k2 != e.0 ==> has_key(s.update(i, e), k2) == has_key(s, k2),
        has_key(s.update(i, e), e.0),
    decreases s.len(),
{
    let s2 = s.update(i, e);
    assert(s2[i].0 == e.0);
    assert(has_key(s2, e.0));
    if i == 0 {
        if k2 != e.0 {
            assert(s2.drop_first() =~= s.drop_first());
            if has_key(s2, k2) {
                let j = choose|j: int| 0 <= j < s2.len() && (#[trigger] s2[j]).0 == k2;
                assert(s.drop_first()[j - 1].0 == k2);
                assert(has_key(s, k2));
            }
            if has_key(s, k2) {
                let j = choose|j: int| 0 <= j < s.len() && (#[trigger] s[j]).0 == k2;
                assert(s2[j].0 == k2);
                assert(has_key(s2, k2));
            }
        }
    } else {
        assert(s2[0] == s[0]);
        assert(s2.drop_first() =~= s.drop_first().update(i - 1, e));
        assert forall|j: int| 0 <= j < i - 1 implies (#[trigger] s.drop_first()[j]).0 != e.0 by {
            assert(s.drop_first()[j] == s[j + 1]);
        }
        lemma_update_reads(s.drop_first(), i - 1, e, k2);
        if k2 != e.0 {
            if has_key(s2, k2) {
                if s2[0].0 != k2 {
                    assert(has_key(s2.drop_first(), k2)) by {
                        let j = choose|j: int| 0 <= j < s2.len() && (#[trigger] s2[j]).0 == k2;
                        assert(s2.drop_first()[j - 1] == s2[j]);
                    }
                }
                assert(has_key(s, k2)) by {
                    if s[0].0 != k2 {
                        assert(has_key(s.drop_first(), k2));
                        let j = choose|j: int|
                            0 <= j < s.drop_first().len() && (#[trigger] s.drop_first()[j]).0 == k2;
                        assert(s[j + 1].0 == k2);
                    }
                }
            }
            if has_key(s, k2) {
                if s[0].0 != k2 {
                    assert(has_key(s.drop_first(), k2)) by {
                        let j = choose|j: int| 0 <= j < s.len() && (#[trigger] s[j]).0 == k2;
                        assert(s.drop_first()[j - 1] == s[j]);
                    }
                }
                assert(has_key(s2, k2)) by {
                    if s2[0].0 != k2 {
                        assert(has_key(s2.drop_first(), k2));
                        let j = choose|j: int|
                            0 <= j < s2.drop_first().len() && (#[trigger] s2.drop_first()[j]).0
                                == k2;
                        assert(s2[j + 1].0 == k2);
                    }
                }
            }
        }
    }
}

/// Reading a key after appending an entry for an absent key.
proof fn lemma_push_reads(s: Seq<(usize, i16)>, e: (usize, i16), k2: usize)
    requires
        !has_key(s, e.0),
    ensures
        k2 == e.0 ==> key_value_or(s.push(e), k2, 0) == e.1,
        k2 != e.0 ==> key_value_or(s.push(e), k2, 0) == key_value_or(s, k2, 0),
        k2 != e.0 ==> has_key(s.push(e), k2) == has_key(s, k2),
        has_key(s.push(e), e.0),
    decreases s.len(),
{
    let s2 = s.push(e);
    assert(s2[s.len() as int] == e);
    assert(has_key(s2, e.0));
    if s.len() == 0 {
        assert(s2[0] == e);
        assert(s2.drop_first() =~= Seq::<(usize, i16)>::empty());
        if k2 != e.0 {
            assert(key_value_or(s2, k2, 0) == key_value_or(s2.drop_first(), k2, 0));
            assert(key_value_or(s2.drop_first(), k2, 0) == 0);
            assert(key_value_or(s, k2, 0) == 0);
            if has_key(s2, k2) {
                let j = choose|j: int| 0 <= j < s2.len() && (#[trigger] s2[j]).0 == k2;
                assert(j == 0);
            }
        }
    } else {
        assert(s2[0] == s[0]);
        assert(s2.drop_first() =~= s.drop_first().push(e));
        assert(!has_key(s.drop_first(), e.0)) by {
            if has_key(s.drop_first(), e.0) {
                let j = choose|j: int|
                    0 <= j < s.drop_first().len() && (#[trigger] s.drop_first()[j]).0 == e.0;
                assert(s[j + 1].0 == e.0);
            }
        }
        lemma_push_reads(s.drop_first(), e, k2);
        if k2 != e.0 {
            if has_key(s2, k2) && s2[0].0 != k2 {
                assert(has_key(s2.drop_first(), k2)) by {
                    let j = choose|j: int| 0 <= j < s2.len() && (#[trigger] s2[j]).0 == k2;
                    assert(s2.drop_first()[j - 1] == s2[j]);
                }
            }
            if has_key(s, k2) && s[0].0 != k2 {
                assert(has_key(s.drop_first(), k2)) by {
                    let j = choose|j: int| 0 <= j < s.len() && (#[trigger] s[j]).0 == k2;
                    assert(s.drop_first()[j - 1] == s[j]);
                }
            }
            if has_key(s.drop_first(), k2) {
                let j = choose|j: int|
                    0 <= j < s.drop_first().len() && (#[trigger] s.drop_first()[j]).0 == k2;
                assert(s[j + 1].0 == k2);
                assert(s2[j + 1].0 == k2);
            }
        }
    }
}

/// Relies on `IndexSet::new`: creates an empty set.
#[verifier::external_body]
pub fn id_set_new() -> (r: IndexSet<usize>)
    ensures
        id_set_elems(r) == Seq::<usize>::empty(),
{
    IndexSet::new()
}

/// Relies on `IndexSet::insert`: appends a missing value and returns `true`;
/// leaves the set and its order unchanged for a present value, returning
/// `false`.
#[verifier::external_body]
pub fn id_set_insert(s: &mut IndexSet<usize>, v: usize) -> (r: bool)
    ensures
        r == !id_set_elems(*old(s)).contains(v),
        id_set_elems(*final(s)) == if id_set_elems(*old(s)).contains(v) {
            id_set_elems(*old(s))
        } else {
            id_set_elems(*old(s)).push(v)
        },
        id_set_elems(*final(s)).no_duplicates(),
{
    s.insert(v)
}

/// Relies on `IndexSet::contains`.
#[verifier::external_body]
pub fn id_set_contains(s: &IndexSet<usize>, v: usize) -> (r: bool)
    ensures
        r == id_set_elems(*s).contains(v),
{
    s.contains(&v)
}

/// Relies on `IndexSet::len`.
#[verifier::external_body]
pub fn id_set_len(s: &IndexSet<usize>) -> (r: usize)
    ensures
        r == id_set_elems(*s).len(),
{
    s.len()
}

/// Relies on `IndexSet::clear`: removes every element.
#[verifier::external_body]
pub fn id_set_clear(s: &mut IndexSet<usize>)
    ensures
        id_set_elems(*final(s)) == Seq::<usize>::empty(),
{
    s.clear()
}

/// Relies on `IndexSet::pop`: removes and returns the last element,
/// preserving the order of the rest.
#[verifier::external_body]
pub fn id_set_pop(s: &mut IndexSet<usize>) -> (r: Option<usize>)
    ensures
        id_set_elems(*old(s)).len() == 0 ==> r is None && id_set_elems(*final(s))
            == id_set_elems(*old(s)),
        id_set_elems(*old(s)).len() > 0 ==> r == Some(id_set_elems(*old(s)).last())
            && id_set_elems(*final(s)) == id_set_elems(*old(s)).drop_last() && !id_set_elems(
            *final(s),
        ).contains(id_set_elems(*old(s)).last()),
        id_set_elems(*final(s)).no_duplicates(),
{
    s.pop()
}

/// Relies on `IndexSet::shift_insert`: inserts a missing value at the given
/// position, shifting the elements that follow.
#[verifier::external_body]
pub fn id_set_shift_insert(s: &mut IndexSet<usize>, index: usize, v: usize)
    requires
        index <= id_set_elems(*old(s)).len(),
        !id_set_elems(*old(s)).contains(v),
    ensures
        id_set_elems(*final(s)) == id_set_elems(*old(s)).insert(index as int, v),
        id_set_elems(*final(s)).no_duplicates(),
{
    s.shift_insert(index, v);
}

/// Relies on `IndexSet::shift_remove`: removes a present value, shifting the
/// elements that follow it and preserving their order; returns whether the
/// value was present.
#[verifier::external_body]
pub fn id_set_shift_remove(s: &mut IndexSet<usize>, v: usize) -> (r: bool)
    ensures
        r == id_set_elems(*old(s)).contains(v),
        !id_set_elems(*old(s)).contains(v) ==> id_set_elems(*final(s)) == id_set_elems(*old(s)),
        id_set_elems(*old(s)).contains(v) ==> id_set_elems(*final(s)) == id_set_elems(
            *old(s),
        ).remove(id_set_elems(*old(s)).index_of(v)),
        !id_set_elems(*final(s)).contains(v),
        id_set_elems(*final(s)).no_duplicates(),
{
    s.shift_remove(&v)
}

/// Relies on `SliceRandom::shuffle` of the `rand` crate: reorders the
/// elements in place.  Which order comes out depends on the thread's
/// random-number generator, so only the multiset of elements is promised.
#[verifier::external_body]
pub fn shuffle_ids(v: &mut Vec<usize>)
    ensures
        final(v)@.to_multiset() == old(v)@.to_multiset(),
        final(v)@.len() == old(v)@.len(),
        old(v)@.no_duplicates() ==> final(v)@.no_duplicates(),
{
    v.shuffle(&mut rand::rng());
}

/// Relies on `IndexSet::iter`: hands the elements out in insertion order.
#[verifier::external_body]
pub fn id_set_to_vec(s: &IndexSet<usize>) -> (r: Vec<usize>)
    ensures
        r@ == id_set_elems(*s),
        r@.no_duplicates(),
{
    s.iter().cloned().collect()
}

/// Relies on `IndexMap::new`: creates an empty map.
#[verifier::external_body]
pub fn damage_map_new() -> (r: IndexMap<usize, i16>)
    ensures
        damage_entries(r) == Seq::<(usize, i16)>::empty(),
{
    IndexMap::new()
}

/// Relies on `IndexMap::insert`: updates the value of a present key in
/// place, keeping its position, or appends a new entry; returns the replaced
/// value, if any.
#[verifier::external_body]
pub fn damage_map_insert(m: &mut IndexMap<usize, i16>, k: usize, v: i16) -> (r: Option<i16>)
    ensures
        r == if has_key(damage_entries(*old(m)), k) {
            Some(key_value_or(damage_entries(*old(m)), k, 0))
        } else {
            Option::<i16>::None
        },
        damage_entries(*final(m)) == key_store(damage_entries(*old(m)), k, v),
{
    m.insert(k, v)
}

/// Relies on `IndexMap::get`: returns the value stored for the key, if any.
#[verifier::external_body]
pub fn damage_map_get(m: &IndexMap<usize, i16>, k: usize) -> (r: Option<i16>)
    ensures
        r == if has_key(damage_entries(*m), k) {
            Some(key_value_or(damage_entries(*m), k, 0))
        } else {
            Option::<i16>::None
        },
{
    m.get(&k).copied()
}

/// Relies on `IndexMap::clear`: removes every entry.
#[verifier::external_body]
pub fn damage_map_clear(m: &mut IndexMap<usize, i16>)
    ensures
        damage_entries(*final(m)) == Seq::<(usize, i16)>::empty(),
{
    m.clear()
}

/// Relies on `IndexMap::iter`: hands the entries out in insertion order.
#[verifier::external_body]
pub fn damage_map_to_vec(m: &IndexMap<usize, i16>) -> (r: Vec<(usize, i16)>)
    ensures
        r@ == damage_entries(*m),
{
    m.iter().map(|(k, v)| (*k, *v)).collect()
}

} // verus!
