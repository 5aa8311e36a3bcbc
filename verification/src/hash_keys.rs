//! Listing the keys of a hash map.

use vstd::prelude::*;
use std::collections::HashMap;

verus! {

broadcast use vstd::std_specs::hash::group_hash_axioms;

/// Every key of a map, each once, in the map's order.
pub(crate) fn map_keys<K: Copy, V>(m: &HashMap<K, V>) -> (ids: Vec<K>)
    requires
        vstd::std_specs::hash::obeys_key_model::<K>(),
    ensures
        ids@.no_duplicates(),
        ids@.to_set() == m@.dom(),
{
    let ghost all = vstd::std_specs::iter::IteratorSpec::remaining(&vstd::std_specs::hash::spec_keys_iter(m)).map_values(
        |r: &K| *r,
    );
    proof {
        vstd::std_specs::hash::axiom_spec_keys_iter(m);
        assert(all =~= vstd::std_specs::iter::IteratorSpec::remaining(&vstd::std_specs::hash::spec_keys_iter(m)).unref());
    }
    let mut ids: Vec<K> = Vec::new();
    for k in it: m.keys()
        invariant
            all == it.seq().map_values(|r: &K| *r),
            ids@ == all.take(it.index() as int),
    {
        ids.push(*k);
        proof {
            assert(all.take(it.index() + 1) =~= all.take(it.index() as int).push(*k));
        }
    }
    proof {
        assert(ids@ =~= all);
    }
    ids
}

} // verus!
