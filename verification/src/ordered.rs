//! Ordered collections: the keys that the library uses and the lists of what
//! such a collection holds.
use std::collections::{BTreeMap, BTreeSet};
use vstd::prelude::*;
use vstd::std_specs::cmp::OrdSpec;

verus! {

/// The keys that the library's ordered collections have are totally ordered.
pub proof fn lemma_ordered_keys()
    ensures
        vstd::laws_cmp::obeys_cmp::<usize>(),
        vstd::laws_cmp::obeys_cmp::<isize>(),
        vstd::laws_cmp::obeys_cmp::<(u32, usize)>(),
        vstd::std_specs::btree::key_obeys_cmp_spec::<usize>(),
        vstd::std_specs::btree::key_obeys_cmp_spec::<isize>(),
        vstd::std_specs::btree::key_obeys_cmp_spec::<(u32, usize)>(),
{
    broadcast use {
        vstd::std_specs::btree::group_btree_axioms,
        vstd::laws_cmp::group_laws_cmp,
    };
}

/// Lists the elements of a set, each once.
pub fn set_elements<K: Ord + Copy>(s: &BTreeSet<K>) -> (out: Vec<K>)
    requires
        vstd::std_specs::btree::key_obeys_cmp_spec::<K>(),
    ensures
        forall|i: int| 0 <= i < out@.len() ==> s@.contains(#[trigger] out@[i]),
        forall|v: K| #[trigger] s@.contains(v) ==> out@.contains(v),
        out@.no_duplicates(),
        out@.len() == s@.len(),
        out@.to_set() == s@,
        forall|i: int, j: int|
            0 <= i < j < out@.len() ==> (#[trigger] out@[i]).cmp_spec(#[trigger] &out@[j]) is Less,
{
    broadcast use {
        vstd::std_specs::btree::group_btree_axioms,
        vstd::laws_cmp::group_laws_cmp,
    };
    let mut out: Vec<K> = Vec::new();
    for v in it: s.iter()
        invariant
            it.seq().unref().to_set() == s@,
            it.seq().len() == s@.len(),
            it.seq().no_duplicates(),
            vstd::std_specs::btree::increasing_seq(it.seq()),
            vstd::laws_cmp::obeys_cmp::<&K>(),
            forall|i: int, j: int| 0 <= i < j < out@.len() ==> out@[i] != out@[j],
            forall|i: int, j: int|
                0 <= i < j < out@.len() ==> (#[trigger] out@[i]).cmp_spec(#[trigger] &out@[j]) is Less,
            out@.len() == it.index(),
            forall|i: int| 0 <= i < out@.len() ==> out@[i] == *#[trigger] it.seq()[i],
            forall|v: K| #[trigger]
                s@.contains(v) ==> exists|i: int|
                    0 <= i < it.seq().len() && *#[trigger] it.seq()[i] == v,
            forall|i: int| 0 <= i < out@.len() ==> s@.contains(#[trigger] out@[i]),
    {
        proof {
            assert(it.seq().unref()[it.index()] == *v);
            assert(it.seq().unref().to_set().contains(*v));
            let n = it.index();
            assert forall|i: int| 0 <= i < n implies out@[i] != *v && out@[i].cmp_spec(v) is Less by {
                assert(it.seq()[i] != it.seq()[n]);
                assert(OrdSpec::cmp_spec(&it.seq()[i], &it.seq()[n]) is Less);
            }
        }
        out.push(*v);
    }
    assert(out@.to_set() =~= s@);
    out
}

/// Lists the keys of a map in ascending order.
pub fn map_keys<V>(m: &BTreeMap<usize, V>) -> (keys: Vec<usize>)
    ensures
        keys@.to_set() == m@.dom(),
        forall|i: int| 0 <= i < keys@.len() ==> m@.contains_key(#[trigger] keys@[i]),
        forall|i: int, j: int| 0 <= i < j < keys@.len() ==> keys@[i] < keys@[j],
{
    broadcast use {
        vstd::std_specs::btree::group_btree_axioms,
        vstd::laws_cmp::group_laws_cmp,
    };
    let mut keys: Vec<usize> = Vec::new();
    for k in it: m.keys()
        invariant
            it.seq().unref().to_set() == m@.dom(),
            vstd::std_specs::btree::increasing_seq(it.seq()),
            vstd::laws_cmp::obeys_cmp::<&usize>(),
            keys@.len() == it.index(),
            forall|i: int| 0 <= i < keys@.len() ==> keys@[i] == *#[trigger] it.seq()[i],
            forall|k: usize| #[trigger]
                m@.dom().contains(k) ==> exists|i: int|
                    0 <= i < it.seq().len() && *#[trigger] it.seq()[i] == k,
            forall|i: int| 0 <= i < keys@.len() ==> m@.dom().contains(#[trigger] keys@[i]),
            forall|i: int, j: int| 0 <= i < j < keys@.len() ==> keys@[i] < keys@[j],
    {
        proof {
            assert(it.seq().unref()[it.index()] == *k);
            assert(it.seq().unref().to_set().contains(*k));
            let n = it.index();
            assert forall|i: int| 0 <= i < n implies keys@[i] < *k by {
                assert(OrdSpec::cmp_spec(&it.seq()[i], &it.seq()[n]) is Less);
            }
        }
        keys.push(*k);
    }
    assert(keys@.to_set() =~= m@.dom());
    keys
}

/// Lists the values of a map in the order of their keys.
pub fn map_values<V: Copy>(m: &BTreeMap<usize, V>) -> (out: Vec<V>)
    ensures
        exists|keys: Seq<usize>| #[trigger] lists_values(m@, keys, out@),
{
    broadcast use vstd::std_specs::btree::group_btree_axioms;

    proof {
        lemma_ordered_keys();
    }
    let keys = map_keys(m);
    let mut out: Vec<V> = Vec::new();
    let mut i: usize = 0;
    while i < keys.len()
        invariant
            i <= keys@.len(),
            out@.len() == i,
            forall|j: int| 0 <= j < keys@.len() ==> m@.contains_key(#[trigger] keys@[j]),
            forall|j: int| 0 <= j < i ==> #[trigger] out@[j] == m@[keys@[j]],
        decreases keys@.len() - i,
    {
        broadcast use vstd::std_specs::btree::group_btree_axioms;

        proof {
            lemma_ordered_keys();
        }
        assert(m@.contains_key(keys@[i as int]));
        out.push(*m.get(&keys[i]).unwrap());
        i = i + 1;
    }
    assert(lists_values(m@, keys@, out@));
    out
}

/// Whether `keys` are the keys of a map in ascending order, and `values` the
/// values that they lead to.
pub open spec fn lists_values<V>(m: Map<usize, V>, keys: Seq<usize>, values: Seq<V>) -> bool {
    &&& keys.to_set() == m.dom()
    &&& forall|i: int, j: int| 0 <= i < j < keys.len() ==> keys[i] < keys[j]
    &&& values.len() == keys.len()
    &&& forall|i: int| 0 <= i < keys.len() ==> #[trigger] values[i] == m[keys[i]]
}

} // verus!
