//! Ordering of render passes.

use vstd::prelude::*;

verus! {

/// When a pass runs: passes with a lower priority run earlier.
#[derive(Copy, Clone, Debug, PartialEq, Eq, Structural)]
pub enum RenderPassPriority {
    /// Sky and environment (0).
    Background,
    /// Terrain and meshes (100).
    Geometry,
    /// Alpha-blended objects (200).
    Translucent,
    /// Post-processing (300).
    PostProcess,
    /// The user interface, on top (400).
    UI,
}

/// The numeric priority of each level.
pub open spec fn priority_value(p: RenderPassPriority) -> u32 {
    match p {
        RenderPassPriority::Background => 0,
        RenderPassPriority::Geometry => 100,
        RenderPassPriority::Translucent => 200,
        RenderPassPriority::PostProcess => 300,
        RenderPassPriority::UI => 400,
    }
}

impl RenderPassPriority {
    /// The numeric priority: 0, 100, 200, 300 or 400.
    pub fn value(self) -> (v: u32)
        ensures
            v == priority_value(self),
    {
        match self {
            RenderPassPriority::Background => 0,
            RenderPassPriority::Geometry => 100,
            RenderPassPriority::Translucent => 200,
            RenderPassPriority::PostProcess => 300,
            RenderPassPriority::UI => 400,
        }
    }
}

/// Whether `order` lists each index below `n` exactly once.
pub open spec fn is_permutation_of_indices(order: Seq<usize>, n: int) -> bool {
    &&& order.len() == n
    &&& forall|i: int| 0 <= i < n ==> (#[trigger] order[i]) < n
    &&& forall|i: int, j: int| 0 <= i < j < n ==> order[i] != order[j]
}

/// Whether `order` runs the passes by ascending priority, passes of equal priority in the
/// order they were added.
pub open spec fn is_stable_priority_order(priorities: Seq<RenderPassPriority>, order: Seq<usize>) -> bool {
    forall|i: int, j: int| #![trigger order[i], order[j]] 0 <= i < j < order.len() ==> {
        let a = priority_value(priorities[order[i] as int]);
        let b = priority_value(priorities[order[j] as int]);
        a < b || (a == b && order[i] < order[j])
    }
}

/// The order in which to run passes added with the given priorities: by ascending priority,
/// passes of equal priority in the order they were added.
pub fn pass_order(priorities: &[RenderPassPriority]) -> (order: Vec<usize>)
    ensures
        is_permutation_of_indices(order@, priorities@.len() as int),
        is_stable_priority_order(priorities@, order@),
{
    let n = priorities.len();
    let mut order: Vec<usize> = Vec::new();
    let mut k: usize = 0;
    // Insertion sort: insert pass k after every pass that must run before it.
    while k < n
        invariant
            n == priorities@.len(),
            k <= n,
            order@.len() == k,
            forall|i: int| 0 <= i < k ==> (#[trigger] order@[i]) < k,
            forall|i: int, j: int| 0 <= i < j < k ==> order@[i] != order@[j],
            is_stable_priority_order(priorities@, order@),
        decreases n - k,
    {
        let pk = priorities[k].value();
        let mut pos: usize = order.len();
        while pos > 0 && priorities[order[pos - 1]].value() > pk
            invariant
                n == priorities@.len(),
                k < n,
                order@.len() == k,
                pos <= k,
                forall|i: int| 0 <= i < k ==> (#[trigger] order@[i]) < k,
                pk == priority_value(priorities@[k as int]),
                forall|i: int| pos <= i < k ==> priority_value(priorities@[#[trigger] order@[i] as int]) > pk,
            decreases pos,
        {
            pos = pos - 1;
        }
        let ghost before = order@;
        order.insert(pos, k);
        proof {
            assert(order@ == before.insert(pos as int, k));
            assert forall|i: int| 0 <= i < k + 1 implies (#[trigger] order@[i]) < k + 1 by {
                if i < pos {
                    assert(order@[i] == before[i]);
                } else if i > pos {
                    assert(order@[i] == before[i - 1]);
                }
            }
            assert forall|i: int, j: int| 0 <= i < j < k + 1 implies order@[i] != order@[j] by {
                if i < pos && j < pos {
                    assert(order@[i] == before[i] && order@[j] == before[j]);
                } else if i < pos && j == pos {
                    assert(order@[i] == before[i]);
                } else if i < pos && j > pos {
                    assert(order@[i] == before[i] && order@[j] == before[j - 1]);
                } else if i == pos {
                    assert(order@[j] == before[j - 1]);
                } else {
                    assert(order@[i] == before[i - 1] && order@[j] == before[j - 1]);
                }
            }
            assert forall|i: int, j: int| #![trigger order@[i], order@[j]] 0 <= i < j < order@.len() implies {
                let a = priority_value(priorities@[order@[i] as int]);
                let b = priority_value(priorities@[order@[j] as int]);
                a < b || (a == b && order@[i] < order@[j])
            } by {
                if i < pos && j < pos {
                    assert(order@[i] == before[i] && order@[j] == before[j]);
                } else if i < pos && j == pos {
                    assert(order@[i] == before[i]);
                    if pos > 0 {
                        // the element just before the insertion point does not exceed pk
                        assert(priority_value(priorities@[before[pos - 1] as int]) <= pk);
                        if i < pos - 1 {
                            let a0 = priority_value(priorities@[before[i] as int]);
                            let b0 = priority_value(priorities@[before[pos - 1] as int]);
                            assert(a0 < b0 || (a0 == b0 && before[i] < before[pos - 1]));
                        }
                    }
                } else if i < pos && j > pos {
                    assert(order@[i] == before[i] && order@[j] == before[j - 1]);
                } else if i == pos {
                    assert(order@[j] == before[j - 1]);
                    assert(priority_value(priorities@[before[j - 1] as int]) > pk);
                } else {
                    assert(order@[i] == before[i - 1] && order@[j] == before[j - 1]);
                }
            }
        }
        k = k + 1;
    }
    order
}

} // verus!
