//! Maps by the ids of sub-pools.
use std::collections::HashMap;

use vstd::prelude::*;
use vstd::std_specs::iter::IteratorSpec;

verus! {

/// The ids that a map has, each once. Their order is that in which the map is
/// walked, and no order at all is promised.
pub fn ids_of<V>(m: &HashMap<u32, V>) -> (r: Vec<u32>)
    ensures
        r@.no_duplicates(),
        forall|id: u32| #[trigger] r@.contains(id) <==> m@.contains_key(id),
{
    let mut ids: Vec<u32> = Vec::new();
    for id in it: m.keys()
        invariant
            ids@.len() == it.index(),
            forall|j: int| 0 <= j < ids@.len() ==> ids@[j] == *it.seq()[j],
    {
        ids.push(*id);
    }
    proof {
        let walked = m.keys().remaining();
        assert(ids@ =~= walked.unref());
        assert forall|id: u32| #[trigger] ids@.contains(id) <==> m@.contains_key(id) by {
            assert(ids@.to_set().contains(id) == ids@.contains(id));
        }
        assert forall|i: int, j: int| 0 <= i < j < ids@.len() implies ids@[i] != ids@[j] by {
            assert(walked[i] != walked[j]);
        }
    }
    ids
}

} // verus!
