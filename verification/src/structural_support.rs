//! Structural support of building blocks: which blocks still stand when one loses support.
//!
//! Every block carries support flags. The support graph lists, for each block, the blocks
//! directly below it that it rests on. When a block is re-checked and finds no support it
//! comes loose, and every block resting on it is re-checked in turn: a collapse cascades
//! upward. What takes geometry (whether a block touches the ground, which blocks lie under
//! which) is measured by the caller and handed in as sets and lists of block ids.

use vstd::prelude::*;
use std::collections::{HashMap, HashSet};
use crate::hash_keys::map_keys;

verus! {

broadcast use vstd::std_specs::hash::group_hash_axioms;

/// Identifier of a building block.
pub type BlockId = u32;

/// The discrete part of a block's physics state.
#[derive(Copy, Clone, Debug, PartialEq, Eq, Structural)]
pub struct SupportFlags {
    /// Resting on something solid.
    pub grounded: bool,
    /// Held up by the structure below it.
    pub structurally_supported: bool,
    /// Anchored to the terrain when it was placed.
    pub terrain_anchored: bool,
    /// Detached rubble: neither gives nor takes structural support.
    pub is_loose: bool,
}

impl SupportFlags {
    /// A freshly placed block: not yet known to be supported; the next support check decides.
    pub fn placed() -> (flags: SupportFlags)
        ensures
            flags == (SupportFlags { grounded: false, structurally_supported: false, terrain_anchored: false, is_loose: false }),
    {
        SupportFlags { grounded: false, structurally_supported: false, terrain_anchored: false, is_loose: false }
    }

    /// A block placed on the terrain: grounded, supported and anchored.
    pub fn on_terrain() -> (flags: SupportFlags)
        ensures
            flags == (SupportFlags { grounded: true, structurally_supported: true, terrain_anchored: true, is_loose: false }),
    {
        SupportFlags { grounded: true, structurally_supported: true, terrain_anchored: true, is_loose: false }
    }

    /// A block placed on other blocks: supported by the structure, not resting on terrain.
    pub fn on_structure() -> (flags: SupportFlags)
        ensures
            flags == (SupportFlags { grounded: false, structurally_supported: true, terrain_anchored: false, is_loose: false }),
    {
        SupportFlags { grounded: false, structurally_supported: true, terrain_anchored: false, is_loose: false }
    }

    /// A block that has come loose (it lost support, or was knocked or pushed off).
    pub fn loose() -> (flags: SupportFlags)
        ensures
            flags == loose_flags(),
    {
        SupportFlags { grounded: false, structurally_supported: false, terrain_anchored: false, is_loose: true }
    }

    /// Whether the block is falling: neither grounded nor held by the structure.
    pub fn is_falling(&self) -> (falling: bool)
        ensures
            falling == !held(*self),
    {
        !self.grounded && !self.structurally_supported
    }
}

/// The flags of a block that has come loose.
pub open spec fn loose_flags() -> SupportFlags {
    SupportFlags { grounded: false, structurally_supported: false, terrain_anchored: false, is_loose: true }
}

/// The block stands: grounded or held by the structure.
pub open spec fn held(f: SupportFlags) -> bool {
    f.grounded || f.structurally_supported
}

/// The block can carry the blocks above it: it stands and is not loose.
pub open spec fn bears_load(f: SupportFlags) -> bool {
    held(f) && !f.is_loose
}

/// Some block of `supporters` that has flags in `states` bears load.
pub open spec fn rests_on_load_bearer(states: Map<BlockId, SupportFlags>, supporters: Seq<BlockId>) -> bool {
    exists|i: int| 0 <= i < supporters.len() && states.contains_key(supporters[i]) && bears_load(states[supporters[i]])
}

/// Whether block `id` has structural support: it exists, is not loose, and is anchored to
/// the terrain, touches the ground (`on_ground`), or rests on a block that bears load.
pub open spec fn spec_has_support(
    id: BlockId,
    states: Map<BlockId, SupportFlags>,
    graph: Map<BlockId, Vec<BlockId>>,
    present: Set<BlockId>,
    on_ground: Set<BlockId>,
) -> bool {
    &&& present.contains(id)
    &&& !(states.contains_key(id) && states[id].is_loose)
    &&& {
        ||| (states.contains_key(id) && states[id].terrain_anchored)
        ||| on_ground.contains(id)
        ||| (graph.contains_key(id) && rests_on_load_bearer(states, graph[id]@))
    }
}

/// Block `b` rests, in `graph`, on one of the first `n` blocks of `lost`.
pub open spec fn rests_on_lost(graph: Map<BlockId, Vec<BlockId>>, b: BlockId, lost: Seq<BlockId>, n: int) -> bool {
    graph.contains_key(b) && exists|j: int| 0 <= j < n && #[trigger] graph[b]@.contains(lost[j])
}

/// Block `b` rests, in `graph`, on one block only (listed at least once, and nothing else).
pub open spec fn sole_supporter(graph: Map<BlockId, Vec<BlockId>>, b: BlockId) -> bool {
    &&& graph.contains_key(b)
    &&& graph[b]@.len() > 0
    &&& forall|i: int| 0 <= i < graph[b]@.len() ==> #[trigger] graph[b]@[i] == graph[b]@[0]
}

/// Block `b` (not `start`) bore load before without being anchored or on the ground, and
/// rests on one block only: once that block has come loose, `b` has no support left.
pub open spec fn hangs_on_one(
    start: BlockId,
    before: Map<BlockId, SupportFlags>,
    graph: Map<BlockId, Vec<BlockId>>,
    on_ground: Set<BlockId>,
    b: BlockId,
) -> bool {
    &&& b != start
    &&& before.contains_key(b)
    &&& bears_load(before[b])
    &&& !before[b].terrain_anchored
    &&& !on_ground.contains(b)
    &&& sole_supporter(graph, b)
}

/// Block `s` has flags in `m` and bears load there.
pub open spec fn bears_in(m: Map<BlockId, SupportFlags>, s: BlockId) -> bool {
    m.contains_key(s) && bears_load(m[s])
}

/// No block that `b` rests on bore load both in `before` and in `after`.
pub open spec fn no_steady_bearer(
    before: Map<BlockId, SupportFlags>,
    after: Map<BlockId, SupportFlags>,
    graph: Map<BlockId, Vec<BlockId>>,
    b: BlockId,
) -> bool {
    graph.contains_key(b) ==> forall|k: int| 0 <= k < graph[b]@.len()
        ==> !(bears_in(before, #[trigger] graph[b]@[k]) && bears_in(after, graph[b]@[k]))
}

/// Some block that `b` rests on bore load in `before` or bears load in `after`.
pub open spec fn some_bearer(
    before: Map<BlockId, SupportFlags>,
    after: Map<BlockId, SupportFlags>,
    graph: Map<BlockId, Vec<BlockId>>,
    b: BlockId,
) -> bool {
    graph.contains_key(b) && exists|k: int| 0 <= k < graph[b]@.len()
        && (bears_in(before, #[trigger] graph[b]@[k]) || bears_in(after, graph[b]@[k]))
}

/// What a re-checked block that stayed up must have had: it exists, and it is anchored to
/// the terrain, on the ground, or rests on a block that bore load before or bears load after.
pub open spec fn stood_on_something(
    before: Map<BlockId, SupportFlags>,
    after: Map<BlockId, SupportFlags>,
    graph: Map<BlockId, Vec<BlockId>>,
    present: Set<BlockId>,
    on_ground: Set<BlockId>,
    b: BlockId,
) -> bool {
    &&& present.contains(b)
    &&& (before[b].terrain_anchored || on_ground.contains(b) || some_bearer(before, after, graph, b))
}

/// A block that came loose while it existed had no supporter bearing load throughout; a
/// checked block that bore load and stayed up had something to stand on.
spec fn witness_inv(
    before: Map<BlockId, SupportFlags>,
    states: Map<BlockId, SupportFlags>,
    checked: Set<BlockId>,
    lost: Seq<BlockId>,
    graph: Map<BlockId, Vec<BlockId>>,
    present: Set<BlockId>,
    on_ground: Set<BlockId>,
) -> bool {
    &&& forall|i: int| 0 <= i < lost.len() && present.contains(#[trigger] lost[i])
        ==> no_steady_bearer(before, states, graph, lost[i])
    &&& forall|b: BlockId| #[trigger] checked.contains(b) && !lost.contains(b) && bears_in(before, b)
        ==> stood_on_something(before, states, graph, present, on_ground, b)
}

/// The flags of the blocks as they stood when the blocks of `done` had been checked (and
/// nothing else): `after` for those, `before` for the others.
pub open spec fn snapshot(
    before: Map<BlockId, SupportFlags>,
    after: Map<BlockId, SupportFlags>,
    done: Seq<BlockId>,
) -> Map<BlockId, SupportFlags> {
    Map::new(|y: BlockId| before.contains_key(y), |y: BlockId| if done.contains(y) { after[y] } else { before[y] })
}

/// The flags a standing, non-loose block `f` gets from a check that finds `supported`: loose
/// when it stood and has no support, else its structural support set to `supported`.
pub open spec fn checked_as(f: SupportFlags, supported: bool) -> SupportFlags {
    if held(f) && !supported {
        loose_flags()
    } else {
        SupportFlags { structurally_supported: supported, ..f }
    }
}

/// The check of `order[i]`, made against the flags left by the checks before it, gave its
/// flags in `after` and decided whether it is in `lost`; a block without flags, or loose,
/// is left as it was.
pub open spec fn step_ok(
    before: Map<BlockId, SupportFlags>,
    after: Map<BlockId, SupportFlags>,
    lost: Seq<BlockId>,
    order: Seq<BlockId>,
    graph: Map<BlockId, Vec<BlockId>>,
    present: Set<BlockId>,
    on_ground: Set<BlockId>,
    i: int,
) -> bool {
    let x = order[i];
    if before.contains_key(x) && !before[x].is_loose {
        let sup = spec_has_support(x, snapshot(before, after, order.take(i)), graph, present, on_ground);
        &&& after[x] == checked_as(before[x], sup)
        &&& (lost.contains(x) <==> held(before[x]) && !sup)
    } else {
        &&& !lost.contains(x)
        &&& (before.contains_key(x) ==> after[x] == before[x])
    }
}

/// `order[i]` was checked because it rests on a block checked before it that came loose.
pub open spec fn caused(graph: Map<BlockId, Vec<BlockId>>, lost: Seq<BlockId>, order: Seq<BlockId>, i: int) -> bool {
    graph.contains_key(order[i]) && exists|j: int| 0 <= j < i && lost.contains(order[j]) && #[trigger] graph[order[i]]@.contains(order[j])
}

/// `order` is an order in which the cascade checked its blocks: `start` first, each other
/// block after a block it rests on came loose, each check made against the flags the checks
/// before it left, and `after` and `lost` as those checks decided.
pub open spec fn order_inv(
    start: BlockId,
    before: Map<BlockId, SupportFlags>,
    after: Map<BlockId, SupportFlags>,
    lost: Seq<BlockId>,
    order: Seq<BlockId>,
    graph: Map<BlockId, Vec<BlockId>>,
    present: Set<BlockId>,
    on_ground: Set<BlockId>,
) -> bool {
    &&& order.no_duplicates()
    &&& order.len() > 0 ==> order[0] == start
    &&& forall|i: int| 0 < i < order.len() ==> #[trigger] caused(graph, lost, order, i)
    &&& forall|i: int| 0 <= i < order.len() ==> #[trigger] step_ok(before, after, lost, order, graph, present, on_ground, i)
}

/// The cascade from `start` can be told as checks in the order `order`, which holds exactly
/// `start` and the blocks resting on a block that came loose.
pub open spec fn cascade_order(
    start: BlockId,
    before: Map<BlockId, SupportFlags>,
    after: Map<BlockId, SupportFlags>,
    lost: Seq<BlockId>,
    order: Seq<BlockId>,
    graph: Map<BlockId, Vec<BlockId>>,
    present: Set<BlockId>,
    on_ground: Set<BlockId>,
) -> bool {
    &&& order_inv(start, before, after, lost, order, graph, present, on_ground)
    &&& order.len() > 0
    &&& forall|b: BlockId| #[trigger] order.contains(b) <==> (b == start || rests_on_lost(graph, b, lost, lost.len() as int))
}

/// Every checked block that hangs on one block came loose.
spec fn sole_inv(
    start: BlockId,
    before: Map<BlockId, SupportFlags>,
    checked: Set<BlockId>,
    lost: Seq<BlockId>,
    graph: Map<BlockId, Vec<BlockId>>,
    on_ground: Set<BlockId>,
) -> bool {
    forall|b: BlockId| #[trigger] checked.contains(b) && hangs_on_one(start, before, graph, on_ground, b) ==> lost.contains(b)
}

/// The block kept its ground contact, anchoring and looseness (only its structural support
/// may have been re-evaluated).
pub open spec fn keeps_footing(before: SupportFlags, after: SupportFlags) -> bool {
    &&& after.grounded == before.grounded
    &&& after.terrain_anchored == before.terrain_anchored
    &&& after.is_loose == before.is_loose
}

/// Block `b` collapsed: it bore load before, is loose now, and was neither anchored to the
/// terrain nor on the ground (unless it no longer exists).
pub open spec fn collapsed(
    before: Map<BlockId, SupportFlags>,
    after: Map<BlockId, SupportFlags>,
    b: BlockId,
    present: Set<BlockId>,
    on_ground: Set<BlockId>,
) -> bool {
    &&& before.contains_key(b)
    &&& bears_load(before[b])
    &&& after[b] == loose_flags()
    &&& present.contains(b) ==> !before[b].terrain_anchored && !on_ground.contains(b)
}

/// Whether `list` holds `x`.
fn lists(list: &Vec<BlockId>, x: BlockId) -> (found: bool)
    ensures
        found == list@.contains(x),
{
    let mut i: usize = 0;
    while i < list.len()
        invariant
            i <= list@.len(),
            forall|k: int| 0 <= k < i ==> list@[k] != x,
        decreases list@.len() - i,
    {
        if list[i] == x {
            return true;
        }
        i = i + 1;
    }
    false
}

/// Whether the block has structural support (see `spec_has_support`): `present` holds the
/// blocks that exist and `on_ground` those touching the ground.
pub fn has_support(
    block_id: BlockId,
    states: &HashMap<BlockId, SupportFlags>,
    graph: &HashMap<BlockId, Vec<BlockId>>,
    present: &HashSet<BlockId>,
    on_ground: &HashSet<BlockId>,
) -> (supported: bool)
    ensures
        supported == spec_has_support(block_id, states@, graph@, present@, on_ground@),
{
    if !present.contains(&block_id) {
        return false;
    }
    match states.get(&block_id) {
        Some(f) => {
            if f.is_loose {
                return false;
            }
            if f.terrain_anchored {
                return true;
            }
        },
        None => {},
    }
    if on_ground.contains(&block_id) {
        return true;
    }
    match graph.get(&block_id) {
        Some(supporters) => {
            let mut i: usize = 0;
            while i < supporters.len()
                invariant
                    i <= supporters@.len(),
                    graph@.contains_key(block_id),
                    graph@[block_id]@ == supporters@,
                    present@.contains(block_id),
                    !on_ground@.contains(block_id),
                    !(states@.contains_key(block_id) && (states@[block_id].is_loose || states@[block_id].terrain_anchored)),
                    forall|k: int| #![trigger supporters@[k]] 0 <= k < i ==> !(states@.contains_key(supporters@[k])
                        && bears_load(states@[supporters@[k]])),
                decreases supporters@.len() - i,
            {
                let s = supporters[i];
                match states.get(&s) {
                    Some(f) => {
                        if (f.grounded || f.structurally_supported) && !f.is_loose {
                            proof {
                                assert(states@.contains_key(supporters@[i as int]) && bears_load(states@[supporters@[i as int]]));
                            }
                            return true;
                        }
                    },
                    None => {},
                }
                i = i + 1;
            }
            false
        },
        None => false,
    }
}

/// Resting on one of the first `n` blocks of `lost` stays true when `lost` is extended and
/// more of it is counted.
proof fn lemma_rests_on_longer(
    graph: Map<BlockId, Vec<BlockId>>,
    b: BlockId,
    lost: Seq<BlockId>,
    n: int,
    longer: Seq<BlockId>,
    m: int,
)
    requires
        rests_on_lost(graph, b, lost, n),
        0 <= n <= m,
        n <= lost.len(),
        n <= longer.len(),
        forall|j: int| 0 <= j < n ==> longer[j] == lost[j],
    ensures
        rests_on_lost(graph, b, longer, m),
{
    let j = choose|j: int| 0 <= j < n && #[trigger] graph[b]@.contains(lost[j]);
    assert(longer[j] == lost[j]);
    assert(graph[b]@.contains(longer[j]));
}

/// What holds between the steps of `cascade_support_check`: `before` are the flags at the
/// start, `checked` the blocks checked so far, `to_check` the blocks waiting and `h0` the
/// support of `start` at the start.
spec fn cascade_inv(
    start: BlockId,
    universe: Set<BlockId>,
    before: Map<BlockId, SupportFlags>,
    states: Map<BlockId, SupportFlags>,
    checked: Set<BlockId>,
    lost: Seq<BlockId>,
    to_check: Seq<BlockId>,
    graph: Map<BlockId, Vec<BlockId>>,
    present: Set<BlockId>,
    on_ground: Set<BlockId>,
    h0: bool,
) -> bool {
    &&& checked.subset_of(universe)
    &&& forall|i: int| 0 <= i < to_check.len() ==> universe.contains(#[trigger] to_check[i])
    &&& states.dom() == before.dom()
    &&& forall|b: BlockId| #![trigger states[b]] states.contains_key(b) && !checked.contains(b) ==> states[b] == before[b]
    &&& forall|b: BlockId| #![trigger states[b]] states.contains_key(b) && states[b] != before[b] ==> checked.contains(b)
    // the blocks that came loose
    &&& lost.no_duplicates()
    &&& lost.len() > 0 ==> lost[0] == start
    &&& forall|i: int| 0 <= i < lost.len() ==> checked.contains(#[trigger] lost[i])
    &&& forall|i: int| 0 <= i < lost.len() ==> collapsed(before, states, #[trigger] lost[i], present, on_ground)
    &&& forall|i: int| 0 < i < lost.len() ==> rests_on_lost(graph, #[trigger] lost[i], lost, i)
    &&& forall|b: BlockId| #![trigger states[b]] states.contains_key(b) && !lost.contains(b) ==> keeps_footing(before[b], states[b])
    // every block checked or waiting is the start or rests on a block that came loose
    &&& forall|b: BlockId| #[trigger] checked.contains(b) ==> b == start || rests_on_lost(graph, b, lost, lost.len() as int)
    &&& forall|i: int| 0 <= i < to_check.len() ==> #[trigger] to_check[i] == start
        || rests_on_lost(graph, to_check[i], lost, lost.len() as int)
    // every block resting on a block that came loose is checked or waiting
    &&& forall|j: int, k: BlockId| 0 <= j < lost.len() && graph.contains_key(k) && #[trigger] graph[k]@.contains(#[trigger] lost[j])
        ==> checked.contains(k) || to_check.contains(k)
    &&& checked.contains(start) || to_check.contains(start)
    // a checked block that bore load came loose or is supported
    &&& forall|b: BlockId| #![trigger states[b]] checked.contains(b) && before.contains_key(b) && bears_load(before[b])
        ==> lost.contains(b) || states[b].structurally_supported
    // the start is checked first, against the flags as they were
    &&& checked.len() == 0 ==> states == before && to_check == seq![start] && lost.len() == 0
    &&& checked.len() > 0 ==> checked.contains(start)
    &&& checked.contains(start) && before.contains_key(start) && !before[start].is_loose ==> {
        &&& states[start].structurally_supported == h0
        &&& (lost.contains(start) <==> held(before[start]) && !h0)
    }
}

/// A block taken again from `to_check` after it was checked changes nothing.
proof fn lemma_cascade_revisit(
    start: BlockId,
    b: BlockId,
    universe: Set<BlockId>,
    before: Map<BlockId, SupportFlags>,
    states: Map<BlockId, SupportFlags>,
    checked: Set<BlockId>,
    lost: Seq<BlockId>,
    w: Seq<BlockId>,
    graph: Map<BlockId, Vec<BlockId>>,
    present: Set<BlockId>,
    on_ground: Set<BlockId>,
    h0: bool,
)
    requires
        cascade_inv(start, universe, before, states, checked, lost, w, graph, present, on_ground, h0),
        universe.finite(),
        w.len() > 0,
        b == w[w.len() - 1],
        checked.contains(b),
    ensures
        cascade_inv(start, universe, before, states, checked, lost, w.drop_last(), graph, present, on_ground, h0),
{
    let t = w.drop_last();
    vstd::set_lib::lemma_len_subset(checked, universe);
    vstd::set_lib::lemma_set_empty_equivalency_len(checked);
    assert(checked.len() > 0);
    assert forall|i: int| 0 <= i < t.len() implies universe.contains(#[trigger] t[i]) by {
        assert(t[i] == w[i]);
    }
    assert forall|i: int| 0 <= i < t.len() implies #[trigger] t[i] == start
        || rests_on_lost(graph, t[i], lost, lost.len() as int) by {
        assert(t[i] == w[i]);
    }
    assert forall|j: int, k: BlockId| 0 <= j < lost.len() && graph.contains_key(k) && #[trigger] graph[k]@.contains(#[trigger] lost[j])
        implies checked.contains(k) || t.contains(k) by {
        if !checked.contains(k) {
            assert(w.contains(k));
            let i = choose|i: int| 0 <= i < w.len() && w[i] == k;
            assert(t[i] == k);
        }
    }
    if !checked.contains(start) {
        let i = choose|i: int| 0 <= i < w.len() && w[i] == start;
        assert(t[i] == start);
    }
}

/// Checking a block that has no flags, or is loose, changes no flags.
proof fn lemma_cascade_untouched(
    start: BlockId,
    b: BlockId,
    universe: Set<BlockId>,
    before: Map<BlockId, SupportFlags>,
    states: Map<BlockId, SupportFlags>,
    checked: Set<BlockId>,
    lost: Seq<BlockId>,
    w: Seq<BlockId>,
    graph: Map<BlockId, Vec<BlockId>>,
    present: Set<BlockId>,
    on_ground: Set<BlockId>,
    h0: bool,
)
    requires
        cascade_inv(start, universe, before, states, checked, lost, w, graph, present, on_ground, h0),
        universe.finite(),
        w.len() > 0,
        b == w[w.len() - 1],
        !checked.contains(b),
        !(states.contains_key(b) && !states[b].is_loose),
    ensures
        cascade_inv(start, universe, before, states, checked.insert(b), lost, w.drop_last(), graph, present, on_ground, h0),
{
    let t = w.drop_last();
    let c = checked.insert(b);
    vstd::set_lib::lemma_len_subset(checked, universe);
    assert(universe.contains(b));
    assert(c.len() == checked.len() + 1);
    assert(checked.len() == 0 ==> b == start);
    assert forall|i: int| 0 <= i < t.len() implies universe.contains(#[trigger] t[i]) by {
        assert(t[i] == w[i]);
    }
    assert forall|i: int| 0 <= i < t.len() implies #[trigger] t[i] == start
        || rests_on_lost(graph, t[i], lost, lost.len() as int) by {
        assert(t[i] == w[i]);
    }
    assert forall|x: BlockId| #[trigger] c.contains(x) implies x == start || rests_on_lost(graph, x, lost, lost.len() as int) by {
        if x == b {
            assert(w[w.len() - 1] == b);
        }
    }
    assert forall|j: int, k: BlockId| 0 <= j < lost.len() && graph.contains_key(k) && #[trigger] graph[k]@.contains(#[trigger] lost[j])
        implies c.contains(k) || t.contains(k) by {
        if !c.contains(k) {
            assert(w.contains(k));
            let i = choose|i: int| 0 <= i < w.len() && w[i] == k;
            assert(t[i] == k);
        }
    }
    if !c.contains(start) {
        let i = choose|i: int| 0 <= i < w.len() && w[i] == start;
        assert(t[i] == start);
    }
}

/// Checking a block that stays up (or was not standing) sets its structural support flag to
/// whether it has support.
proof fn lemma_cascade_keep(
    start: BlockId,
    b: BlockId,
    universe: Set<BlockId>,
    before: Map<BlockId, SupportFlags>,
    states: Map<BlockId, SupportFlags>,
    checked: Set<BlockId>,
    lost: Seq<BlockId>,
    w: Seq<BlockId>,
    graph: Map<BlockId, Vec<BlockId>>,
    present: Set<BlockId>,
    on_ground: Set<BlockId>,
    h0: bool,
    supported: bool,
)
    requires
        cascade_inv(start, universe, before, states, checked, lost, w, graph, present, on_ground, h0),
        h0 == spec_has_support(start, before, graph, present, on_ground),
        universe.finite(),
        w.len() > 0,
        b == w[w.len() - 1],
        !checked.contains(b),
        states.contains_key(b),
        !states[b].is_loose,
        supported == spec_has_support(b, states, graph, present, on_ground),
        !(held(states[b]) && !supported),
    ensures
        cascade_inv(
            start,
            universe,
            before,
            states.insert(b, SupportFlags { structurally_supported: supported, ..states[b] }),
            checked.insert(b),
            lost,
            w.drop_last(),
            graph,
            present,
            on_ground,
            h0,
        ),
{
    let t = w.drop_last();
    let c = checked.insert(b);
    let s = states.insert(b, SupportFlags { structurally_supported: supported, ..states[b] });
    vstd::set_lib::lemma_len_subset(checked, universe);
    assert(universe.contains(b));
    assert(c.len() == checked.len() + 1);
    assert(checked.len() == 0 ==> b == start && states == before);
    assert(!lost.contains(b));
    assert(states[b] == before[b]);
    assert(s.dom() =~= before.dom());
    assert forall|i: int| 0 <= i < t.len() implies universe.contains(#[trigger] t[i]) by {
        assert(t[i] == w[i]);
    }
    assert forall|i: int| 0 <= i < t.len() implies #[trigger] t[i] == start
        || rests_on_lost(graph, t[i], lost, lost.len() as int) by {
        assert(t[i] == w[i]);
    }
    assert forall|x: BlockId| #[trigger] c.contains(x) implies x == start || rests_on_lost(graph, x, lost, lost.len() as int) by {
        if x == b {
            assert(w[w.len() - 1] == b);
        }
    }
    assert forall|i: int| 0 <= i < lost.len() implies collapsed(before, s, #[trigger] lost[i], present, on_ground) by {
        assert(collapsed(before, states, lost[i], present, on_ground));
        assert(checked.contains(lost[i]));
    }
    assert forall|j: int, k: BlockId| 0 <= j < lost.len() && graph.contains_key(k) && #[trigger] graph[k]@.contains(#[trigger] lost[j])
        implies c.contains(k) || t.contains(k) by {
        if !c.contains(k) {
            assert(w.contains(k));
            let i = choose|i: int| 0 <= i < w.len() && w[i] == k;
            assert(t[i] == k);
        }
    }
    if !c.contains(start) {
        let i = choose|i: int| 0 <= i < w.len() && w[i] == start;
        assert(t[i] == start);
    }
}

/// Checking a standing block that finds no support makes it loose and queues every block
/// resting on it (`t` is `w` without its last block, followed by those blocks).
#[verifier::spinoff_prover]
#[verifier::rlimit(60)]
proof fn lemma_cascade_collapse(
    start: BlockId,
    b: BlockId,
    universe: Set<BlockId>,
    before: Map<BlockId, SupportFlags>,
    states: Map<BlockId, SupportFlags>,
    checked: Set<BlockId>,
    lost: Seq<BlockId>,
    w: Seq<BlockId>,
    t: Seq<BlockId>,
    graph: Map<BlockId, Vec<BlockId>>,
    present: Set<BlockId>,
    on_ground: Set<BlockId>,
    h0: bool,
)
    requires
        cascade_inv(start, universe, before, states, checked, lost, w, graph, present, on_ground, h0),
        h0 == spec_has_support(start, before, graph, present, on_ground),
        universe.finite(),
        universe == graph.dom().insert(start),
        w.len() > 0,
        b == w[w.len() - 1],
        !checked.contains(b),
        states.contains_key(b),
        !states[b].is_loose,
        held(states[b]),
        !spec_has_support(b, states, graph, present, on_ground),
        w.len() - 1 <= t.len(),
        forall|i: int| 0 <= i < w.len() - 1 ==> t[i] == w[i],
        forall|i: int| w.len() - 1 <= i < t.len() ==> graph.contains_key(#[trigger] t[i]) && graph[t[i]]@.contains(b),
        forall|k: BlockId| graph.contains_key(k) && #[trigger] graph[k]@.contains(b) ==> checked.insert(b).contains(k) || t.contains(k),
    ensures
        cascade_inv(
            start,
            universe,
            before,
            states.insert(b, loose_flags()),
            checked.insert(b),
            lost.push(b),
            t,
            graph,
            present,
            on_ground,
            h0,
        ),
{
    let c = checked.insert(b);
    let s = states.insert(b, loose_flags());
    let l = lost.push(b);
    let n = lost.len() as int;
    vstd::set_lib::lemma_len_subset(checked, universe);
    assert(universe.contains(b));
    assert(c.len() == checked.len() + 1);
    assert(checked.len() == 0 ==> b == start && states == before && lost.len() == 0);
    assert(!lost.contains(b));
    assert(states[b] == before[b]);
    assert(s.dom() =~= before.dom());
    assert(lost.len() > 0 ==> b != start);
    assert(b == start || rests_on_lost(graph, b, lost, n));
    // blocks resting on lost blocks stay so as `lost` grows
    assert forall|x: BlockId| rests_on_lost(graph, x, lost, n) implies #[trigger] rests_on_lost(graph, x, l, n + 1) by {
        lemma_rests_on_longer(graph, x, lost, n, l, n + 1);
    }
    assert forall|x: BlockId| graph.contains_key(x) && #[trigger] graph[x]@.contains(b) implies rests_on_lost(graph, x, l, n + 1) by {
        assert(l[n] == b);
    }
    assert forall|i: int| 0 <= i < t.len() implies universe.contains(#[trigger] t[i]) by {
        if i < w.len() - 1 {
            assert(t[i] == w[i]);
        }
    }
    assert forall|i: int| 0 <= i < t.len() implies #[trigger] t[i] == start || rests_on_lost(graph, t[i], l, n + 1) by {
        if i < w.len() - 1 {
            assert(t[i] == w[i]);
            if w[i] != start {
                assert(rests_on_lost(graph, w[i], lost, n));
            }
        } else {
            assert(graph[t[i]]@.contains(b));
        }
    }
    assert forall|x: BlockId| #[trigger] c.contains(x) implies x == start || rests_on_lost(graph, x, l, n + 1) by {
        if x == b {
            assert(w[w.len() - 1] == b);
            if b != start {
                assert(rests_on_lost(graph, b, lost, n));
            }
        } else if x != start {
            assert(checked.contains(x));
            assert(rests_on_lost(graph, x, lost, n));
        }
    }
    assert forall|i: int| 0 <= i < l.len() implies c.contains(#[trigger] l[i]) by {
        if i < n {
            assert(l[i] == lost[i]);
        }
    }
    assert forall|i: int| 0 <= i < l.len() implies collapsed(before, s, #[trigger] l[i], present, on_ground) by {
        if i < n {
            assert(l[i] == lost[i]);
            assert(collapsed(before, states, lost[i], present, on_ground));
            assert(checked.contains(lost[i]));
        }
    }
    assert forall|i: int| 0 < i < l.len() implies rests_on_lost(graph, #[trigger] l[i], l, i) by {
        if i < n {
            assert(l[i] == lost[i]);
            assert(rests_on_lost(graph, lost[i], lost, i));
            lemma_rests_on_longer(graph, lost[i], lost, i, l, i);
        } else {
            assert(l[i] == b);
            assert(b != start);
            assert(rests_on_lost(graph, b, lost, n));
            lemma_rests_on_longer(graph, b, lost, n, l, n);
        }
    }
    assert forall|x: BlockId| #![trigger s[x]] s.contains_key(x) && !l.contains(x) implies keeps_footing(before[x], s[x]) by {
        if lost.contains(x) {
            let i = choose|i: int| 0 <= i < lost.len() && lost[i] == x;
            assert(l[i] == x);
        }
        assert(x != b) by {
            assert(l[n] == b);
        }
        assert(s[x] == states[x]);
    }
    assert forall|x: BlockId| #![trigger s[x]] c.contains(x) && before.contains_key(x) && bears_load(before[x])
        implies l.contains(x) || s[x].structurally_supported by {
        if x == b {
            assert(l[n] == b);
        } else if lost.contains(x) {
            let i = choose|i: int| 0 <= i < lost.len() && lost[i] == x;
            assert(l[i] == x);
        }
    }
    assert forall|j: int, k: BlockId| 0 <= j < l.len() && graph.contains_key(k) && #[trigger] graph[k]@.contains(#[trigger] l[j])
        implies c.contains(k) || t.contains(k) by {
        if j < n {
            assert(l[j] == lost[j]);
            if !c.contains(k) {
                assert(w.contains(k));
                let i = choose|i: int| 0 <= i < w.len() && w[i] == k;
                assert(i != w.len() - 1);
                assert(t[i] == k);
            }
        } else {
            assert(l[j] == b);
        }
    }
    if !c.contains(start) {
        let i = choose|i: int| 0 <= i < w.len() && w[i] == start;
        assert(i != w.len() - 1);
        assert(t[i] == start);
    }
    assert(l.no_duplicates()) by {
        assert forall|i: int, j: int| 0 <= i < l.len() && 0 <= j < l.len() && i != j implies l[i] != l[j] by {
            if i < n && j < n {
                assert(l[i] == lost[i] && l[j] == lost[j]);
            } else if i < n {
                assert(l[i] == lost[i]);
            } else if j < n {
                assert(l[j] == lost[j]);
            }
        }
    }
    assert(b == start ==> checked.len() == 0);
    assert(l[n] == b);
    assert(l.contains(b));
}

/// Checking a block that stays up keeps `sole_inv`: a block hanging on one block is checked
/// only once that block has come loose, and then has no support.
proof fn lemma_sole_keep(
    start: BlockId,
    b: BlockId,
    universe: Set<BlockId>,
    before: Map<BlockId, SupportFlags>,
    states: Map<BlockId, SupportFlags>,
    checked: Set<BlockId>,
    lost: Seq<BlockId>,
    w: Seq<BlockId>,
    graph: Map<BlockId, Vec<BlockId>>,
    present: Set<BlockId>,
    on_ground: Set<BlockId>,
    h0: bool,
    supported: bool,
)
    requires
        cascade_inv(start, universe, before, states, checked, lost, w, graph, present, on_ground, h0),
        sole_inv(start, before, checked, lost, graph, on_ground),
        w.len() > 0,
        b == w[w.len() - 1],
        !checked.contains(b),
        states.contains_key(b),
        !states[b].is_loose,
        supported == spec_has_support(b, states, graph, present, on_ground),
        !(held(states[b]) && !supported),
    ensures
        sole_inv(start, before, checked.insert(b), lost, graph, on_ground),
{
    if hangs_on_one(start, before, graph, on_ground, b) {
        assert(states[b] == before[b]);
        assert(rests_on_lost(graph, b, lost, lost.len() as int));
        let j = choose|j: int| 0 <= j < lost.len() && #[trigger] graph[b]@.contains(lost[j]);
        let sup = graph[b]@;
        assert(collapsed(before, states, lost[j], present, on_ground));
        assert forall|i: int| 0 <= i < sup.len() implies !(states.contains_key(sup[i]) && bears_load(states[sup[i]])) by {
            let k = choose|k: int| 0 <= k < sup.len() && sup[k] == lost[j];
            assert(sup[k] == sup[0]);
            assert(sup[i] == sup[0]);
        }
        assert(!rests_on_load_bearer(states, sup));
    }
}

/// Checking a block that has no flags, or is loose, keeps `sole_inv`.
proof fn lemma_sole_untouched(
    start: BlockId,
    b: BlockId,
    universe: Set<BlockId>,
    before: Map<BlockId, SupportFlags>,
    states: Map<BlockId, SupportFlags>,
    checked: Set<BlockId>,
    lost: Seq<BlockId>,
    w: Seq<BlockId>,
    graph: Map<BlockId, Vec<BlockId>>,
    present: Set<BlockId>,
    on_ground: Set<BlockId>,
    h0: bool,
)
    requires
        cascade_inv(start, universe, before, states, checked, lost, w, graph, present, on_ground, h0),
        sole_inv(start, before, checked, lost, graph, on_ground),
        !checked.contains(b),
        !(states.contains_key(b) && !states[b].is_loose),
    ensures
        sole_inv(start, before, checked.insert(b), lost, graph, on_ground),
{
    if hangs_on_one(start, before, graph, on_ground, b) {
        assert(states.contains_key(b));
        assert(states[b] == before[b]);
    }
}

/// A block that comes loose keeps `sole_inv`.
proof fn lemma_sole_collapse(
    start: BlockId,
    b: BlockId,
    before: Map<BlockId, SupportFlags>,
    checked: Set<BlockId>,
    lost: Seq<BlockId>,
    graph: Map<BlockId, Vec<BlockId>>,
    on_ground: Set<BlockId>,
)
    requires
        sole_inv(start, before, checked, lost, graph, on_ground),
    ensures
        sole_inv(start, before, checked.insert(b), lost.push(b), graph, on_ground),
{
    assert forall|x: BlockId| #[trigger] checked.insert(b).contains(x) && hangs_on_one(start, before, graph, on_ground, x)
        implies lost.push(b).contains(x) by {
        if x == b {
            assert(lost.push(b)[lost.len() as int] == b);
        } else {
            let i = choose|i: int| 0 <= i < lost.len() && lost[i] == x;
            assert(lost.push(b)[i] == x);
        }
    }
}

/// Changing the flags of `x`, whose flags were still those of `before`, keeps what
/// `witness_inv` says of the blocks other than `x`.
proof fn lemma_witness_frame(
    before: Map<BlockId, SupportFlags>,
    states: Map<BlockId, SupportFlags>,
    new_states: Map<BlockId, SupportFlags>,
    checked: Set<BlockId>,
    lost: Seq<BlockId>,
    graph: Map<BlockId, Vec<BlockId>>,
    present: Set<BlockId>,
    on_ground: Set<BlockId>,
    x: BlockId,
)
    requires
        witness_inv(before, states, checked, lost, graph, present, on_ground),
        states.contains_key(x) ==> before.contains_key(x) && states[x] == before[x],
        new_states.dom() == states.dom(),
        forall|y: BlockId| y != x && states.contains_key(y) ==> new_states[y] == states[y],
        !lost.contains(x),
    ensures
        forall|i: int| 0 <= i < lost.len() && present.contains(#[trigger] lost[i])
            ==> no_steady_bearer(before, new_states, graph, lost[i]),
        forall|b: BlockId| #[trigger] checked.contains(b) && !lost.contains(b) && bears_in(before, b) && b != x
            ==> stood_on_something(before, new_states, graph, present, on_ground, b),
{
    assert forall|i: int| 0 <= i < lost.len() && present.contains(#[trigger] lost[i])
        implies no_steady_bearer(before, new_states, graph, lost[i]) by {
        let b = lost[i];
        if graph.contains_key(b) {
            assert forall|k: int| 0 <= k < graph[b]@.len()
                implies !(bears_in(before, #[trigger] graph[b]@[k]) && bears_in(new_states, graph[b]@[k])) by {
                let sp = graph[b]@[k];
                assert(!(bears_in(before, sp) && bears_in(states, sp)));
            }
        }
    }
    assert forall|b: BlockId| #[trigger] checked.contains(b) && !lost.contains(b) && bears_in(before, b) && b != x
        implies stood_on_something(before, new_states, graph, present, on_ground, b) by {
        assert(stood_on_something(before, states, graph, present, on_ground, b));
        if !(before[b].terrain_anchored || on_ground.contains(b)) {
            let k = choose|k: int| 0 <= k < graph[b]@.len()
                && (bears_in(before, #[trigger] graph[b]@[k]) || bears_in(states, graph[b]@[k]));
            let sp = graph[b]@[k];
            assert(bears_in(before, sp) || bears_in(new_states, sp));
        }
    }
}

/// Checking a block that stays up keeps `witness_inv`.
proof fn lemma_witness_keep(
    start: BlockId,
    x: BlockId,
    universe: Set<BlockId>,
    before: Map<BlockId, SupportFlags>,
    states: Map<BlockId, SupportFlags>,
    checked: Set<BlockId>,
    lost: Seq<BlockId>,
    w: Seq<BlockId>,
    graph: Map<BlockId, Vec<BlockId>>,
    present: Set<BlockId>,
    on_ground: Set<BlockId>,
    h0: bool,
    supported: bool,
)
    requires
        cascade_inv(start, universe, before, states, checked, lost, w, graph, present, on_ground, h0),
        witness_inv(before, states, checked, lost, graph, present, on_ground),
        !checked.contains(x),
        states.contains_key(x),
        !states[x].is_loose,
        supported == spec_has_support(x, states, graph, present, on_ground),
        !(held(states[x]) && !supported),
    ensures
        witness_inv(
            before,
            states.insert(x, SupportFlags { structurally_supported: supported, ..states[x] }),
            checked.insert(x),
            lost,
            graph,
            present,
            on_ground,
        ),
{
    let ns = states.insert(x, SupportFlags { structurally_supported: supported, ..states[x] });
    assert(states[x] == before[x]);
    assert(!lost.contains(x));
    assert(ns.dom() =~= states.dom());
    lemma_witness_frame(before, states, ns, checked, lost, graph, present, on_ground, x);
    if bears_in(before, x) {
        assert(supported);
        if !(before[x].terrain_anchored || on_ground.contains(x)) {
            let g = graph[x]@;
            let i = choose|i: int| 0 <= i < g.len() && states.contains_key(g[i]) && bears_load(states[g[i]]);
            if g[i] == x {
                assert(bears_in(before, g[i]));
            } else {
                assert(bears_in(ns, g[i]));
            }
        }
        assert(stood_on_something(before, ns, graph, present, on_ground, x));
    }
}

/// A block that comes loose keeps `witness_inv`.
proof fn lemma_witness_collapse(
    start: BlockId,
    x: BlockId,
    universe: Set<BlockId>,
    before: Map<BlockId, SupportFlags>,
    states: Map<BlockId, SupportFlags>,
    checked: Set<BlockId>,
    lost: Seq<BlockId>,
    w: Seq<BlockId>,
    graph: Map<BlockId, Vec<BlockId>>,
    present: Set<BlockId>,
    on_ground: Set<BlockId>,
    h0: bool,
)
    requires
        cascade_inv(start, universe, before, states, checked, lost, w, graph, present, on_ground, h0),
        witness_inv(before, states, checked, lost, graph, present, on_ground),
        !checked.contains(x),
        states.contains_key(x),
        !states[x].is_loose,
        !spec_has_support(x, states, graph, present, on_ground),
    ensures
        witness_inv(before, states.insert(x, loose_flags()), checked.insert(x), lost.push(x), graph, present, on_ground),
{
    let ns = states.insert(x, loose_flags());
    let l = lost.push(x);
    assert(states[x] == before[x]);
    assert(!lost.contains(x));
    assert(ns.dom() =~= states.dom());
    lemma_witness_frame(before, states, ns, checked, lost, graph, present, on_ground, x);
    assert forall|i: int| 0 <= i < l.len() && present.contains(#[trigger] l[i])
        implies no_steady_bearer(before, ns, graph, l[i]) by {
        if i < lost.len() {
            assert(l[i] == lost[i]);
        } else {
            assert(l[i] == x);
            if graph.contains_key(x) {
                assert forall|k: int| 0 <= k < graph[x]@.len()
                    implies !(bears_in(before, #[trigger] graph[x]@[k]) && bears_in(ns, graph[x]@[k])) by {
                    let sp = graph[x]@[k];
                    if sp != x {
                        assert(!(states.contains_key(sp) && bears_load(states[sp])));
                    }
                }
            }
        }
    }
    assert forall|b: BlockId| #[trigger] checked.insert(x).contains(b) && !l.contains(b) && bears_in(before, b)
        implies stood_on_something(before, ns, graph, present, on_ground, b) by {
        if b == x {
            assert(l[lost.len() as int] == x);
        } else {
            if lost.contains(b) {
                let i = choose|i: int| 0 <= i < lost.len() && lost[i] == b;
                assert(l[i] == b);
            }
        }
    }
}

/// Checking a block that has no flags, or is loose, keeps `witness_inv`.
proof fn lemma_witness_untouched(
    start: BlockId,
    x: BlockId,
    universe: Set<BlockId>,
    before: Map<BlockId, SupportFlags>,
    states: Map<BlockId, SupportFlags>,
    checked: Set<BlockId>,
    lost: Seq<BlockId>,
    w: Seq<BlockId>,
    graph: Map<BlockId, Vec<BlockId>>,
    present: Set<BlockId>,
    on_ground: Set<BlockId>,
    h0: bool,
)
    requires
        cascade_inv(start, universe, before, states, checked, lost, w, graph, present, on_ground, h0),
        witness_inv(before, states, checked, lost, graph, present, on_ground),
        !checked.contains(x),
        !(states.contains_key(x) && !states[x].is_loose),
    ensures
        witness_inv(before, states, checked.insert(x), lost, graph, present, on_ground),
{
    if bears_in(before, x) {
        assert(states.contains_key(x));
        assert(states[x] == before[x]);
    }
}

/// Checking `x` next, as the cascade does, extends `order_inv` by `x`.
#[verifier::rlimit(40)]
proof fn lemma_order_step(
    start: BlockId,
    x: BlockId,
    universe: Set<BlockId>,
    before: Map<BlockId, SupportFlags>,
    states: Map<BlockId, SupportFlags>,
    new_states: Map<BlockId, SupportFlags>,
    checked: Set<BlockId>,
    lost: Seq<BlockId>,
    new_lost: Seq<BlockId>,
    w: Seq<BlockId>,
    order: Seq<BlockId>,
    graph: Map<BlockId, Vec<BlockId>>,
    present: Set<BlockId>,
    on_ground: Set<BlockId>,
    h0: bool,
)
    requires
        cascade_inv(start, universe, before, states, checked, lost, w, graph, present, on_ground, h0),
        order_inv(start, before, states, lost, order, graph, present, on_ground),
        forall|b: BlockId| checked.contains(b) <==> #[trigger] order.contains(b),
        !checked.contains(x),
        order.len() == 0 ==> x == start,
        order.len() > 0 ==> rests_on_lost(graph, x, lost, lost.len() as int),
        new_states.dom() == states.dom(),
        forall|y: BlockId| y != x && states.contains_key(y) ==> new_states[y] == states[y],
        if states.contains_key(x) && !states[x].is_loose {
            let sup = spec_has_support(x, states, graph, present, on_ground);
            &&& new_states[x] == checked_as(states[x], sup)
            &&& new_lost == (if held(states[x]) && !sup { lost.push(x) } else { lost })
        } else {
            new_states == states && new_lost == lost
        },
    ensures
        order_inv(start, before, new_states, new_lost, order.push(x), graph, present, on_ground),
{
    let o = order.push(x);
    let n = order.len() as int;
    assert(!order.contains(x));
    assert(!lost.contains(x));
    assert(forall|i: int| 0 <= i < lost.len() ==> new_lost.contains(#[trigger] lost[i])) by {
        assert forall|i: int| 0 <= i < lost.len() implies new_lost.contains(#[trigger] lost[i]) by {
            if new_lost != lost {
                assert(new_lost[i] == lost[i]);
            }
        }
    }
    assert(forall|y: BlockId| lost.contains(y) ==> new_lost.contains(y));
    assert(forall|y: BlockId| y != x ==> (new_lost.contains(y) <==> lost.contains(y))) by {
        assert forall|y: BlockId| y != x implies (new_lost.contains(y) <==> lost.contains(y)) by {
            if new_lost != lost && new_lost.contains(y) {
                let i = choose|i: int| 0 <= i < new_lost.len() && new_lost[i] == y;
                assert(i < lost.len());
                assert(lost[i] == y);
            }
        }
    }
    // no duplicates
    assert(o.no_duplicates()) by {
        assert forall|i: int, j: int| 0 <= i < o.len() && 0 <= j < o.len() && i != j implies o[i] != o[j] by {
            if i < n && j < n {
                assert(o[i] == order[i] && o[j] == order[j]);
            } else if i < n {
                assert(o[i] == order[i]);
            } else if j < n {
                assert(o[j] == order[j]);
            }
        }
    }
    // the earlier checks are unchanged
    assert forall|i: int| 0 <= i < n implies #[trigger] step_ok(before, new_states, new_lost, o, graph, present, on_ground, i) by {
        assert(step_ok(before, states, lost, order, graph, present, on_ground, i));
        assert(o[i] == order[i]);
        assert(o.take(i) =~= order.take(i));
        assert(!order.take(i).contains(x));
        let s1 = snapshot(before, states, order.take(i));
        let s2 = snapshot(before, new_states, o.take(i));
        assert(s1 =~= s2) by {
            assert forall|y: BlockId| #[trigger] s2.contains_key(y) implies s1[y] == s2[y] by {
                if order.take(i).contains(y) {
                    assert(y != x);
                    assert(states.contains_key(y)) by {
                        let k = choose|k: int| 0 <= k < order.take(i).len() && order.take(i)[k] == y;
                        assert(order[k] == y);
                        assert(order.contains(y));
                        assert(checked.contains(y));
                        assert(checked.subset_of(universe));
                    }
                }
            }
        }
        assert(order[i] != x) by {
            assert(order.contains(order[i]));
        }
        if before.contains_key(order[i]) {
            assert(states.contains_key(order[i]));
        }
    }
    // the new check
    assert(step_ok(before, new_states, new_lost, o, graph, present, on_ground, n)) by {
        assert(o[n] == x);
        assert(o.take(n) =~= order);
        let sn = snapshot(before, new_states, order);
        assert(sn =~= states) by {
            assert forall|y: BlockId| #[trigger] sn.contains_key(y) implies sn[y] == states[y] by {
                if order.contains(y) {
                    assert(y != x);
                } else {
                    assert(!checked.contains(y));
                }
            }
        }
        if states.contains_key(x) {
            assert(states[x] == before[x]);
        }
        if new_lost != lost {
            assert(new_lost[lost.len() as int] == x);
        }
    }
    assert forall|i: int| 0 <= i < o.len() implies #[trigger] step_ok(before, new_states, new_lost, o, graph, present, on_ground, i) by {
        if i < n {
        } else {
        }
    }
    // causes
    assert forall|i: int| 0 < i < o.len() implies #[trigger] caused(graph, new_lost, o, i) by {
        if i < n {
            assert(caused(graph, lost, order, i));
            assert(o[i] == order[i]);
            let j = choose|j: int| 0 <= j < i && lost.contains(order[j]) && #[trigger] graph[order[i]]@.contains(order[j]);
            assert(o[j] == order[j]);
            assert(new_lost.contains(o[j]));
            assert(graph[o[i]]@.contains(o[j]));
        } else {
            assert(o[i] == x);
            let jl = choose|jl: int| 0 <= jl < lost.len() && #[trigger] graph[x]@.contains(lost[jl]);
            assert(checked.contains(lost[jl]));
            assert(order.contains(lost[jl]));
            let j = choose|j: int| 0 <= j < order.len() && order[j] == lost[jl];
            assert(o[j] == lost[jl]);
            assert(new_lost.contains(lost[jl]));
            assert(graph[o[i]]@.contains(o[j]));
        }
    }
    if n == 0 {
        assert(o[0] == x);
    } else {
        assert(o[0] == order[0]);
    }
}

/// Re-checks the support of `start` and cascades upward: a block that stood (`held`, not
/// loose) and finds no support comes loose (`loose_flags`), and every block resting on it is
/// re-checked in turn; a re-checked block's `structurally_supported` flag is set to whether
/// it has support at that moment. Each block is checked at most once; loose blocks are
/// skipped. Returns the blocks that came loose, in the order they did.
pub fn cascade_support_check(
    start: BlockId,
    states: &mut HashMap<BlockId, SupportFlags>,
    graph: &HashMap<BlockId, Vec<BlockId>>,
    present: &HashSet<BlockId>,
    on_ground: &HashSet<BlockId>,
) -> (lost: Vec<BlockId>)
    ensures
        final(states)@.dom() == old(states)@.dom(),
        lost@.no_duplicates(),
        lost@.len() > 0 ==> lost@[0] == start,
        forall|i: int| 0 <= i < lost@.len() ==> collapsed(old(states)@, final(states)@, #[trigger] lost@[i], present@, on_ground@),
        forall|i: int| 0 < i < lost@.len() ==> rests_on_lost(graph@, #[trigger] lost@[i], lost@, i),
        forall|b: BlockId| #![trigger final(states)@[b]] final(states)@.contains_key(b) && !lost@.contains(b)
            ==> keeps_footing(old(states)@[b], final(states)@[b]),
        forall|b: BlockId| #![trigger final(states)@[b]] final(states)@.contains_key(b) && final(states)@[b] != old(states)@[b]
            ==> b == start || rests_on_lost(graph@, b, lost@, lost@.len() as int),
        forall|b: BlockId| #![trigger old(states)@[b]] old(states)@.contains_key(b) && bears_load(old(states)@[b])
            && (b == start || rests_on_lost(graph@, b, lost@, lost@.len() as int))
            ==> lost@.contains(b) || final(states)@[b].structurally_supported,
        forall|b: BlockId| #[trigger] hangs_on_one(start, old(states)@, graph@, on_ground@, b) && lost@.contains(graph@[b]@[0])
            ==> lost@.contains(b),
        exists|order: Seq<BlockId>| #[trigger] cascade_order(start, old(states)@, final(states)@, lost@, order, graph@, present@, on_ground@),
        forall|i: int| 0 <= i < lost@.len() && present@.contains(#[trigger] lost@[i])
            ==> no_steady_bearer(old(states)@, final(states)@, graph@, lost@[i]),
        forall|b: BlockId| (b == start || #[trigger] rests_on_lost(graph@, b, lost@, lost@.len() as int))
            && bears_in(old(states)@, b) && !lost@.contains(b)
            ==> stood_on_something(old(states)@, final(states)@, graph@, present@, on_ground@, b),
        old(states)@.contains_key(start) && !old(states)@[start].is_loose ==> {
            &&& final(states)@[start].structurally_supported == spec_has_support(start, old(states)@, graph@, present@, on_ground@)
            &&& (lost@.contains(start) <==> held(old(states)@[start]) && !spec_has_support(start, old(states)@, graph@, present@, on_ground@))
        },
{
    let ghost old_states = states@;
    let ghost universe = graph@.dom().insert(start);
    let ghost h0 = spec_has_support(start, old_states, graph@, present@, on_ground@);
    let keys = map_keys(graph);
    let mut to_check: Vec<BlockId> = Vec::new();
    to_check.push(start);
    let mut checked: HashSet<BlockId> = HashSet::new();
    let mut lost: Vec<BlockId> = Vec::new();
    let ghost mut order: Seq<BlockId> = Seq::empty();
    proof {
        assert(graph@.dom().finite());
        assert(to_check@ =~= seq![start]);
        assert(checked@ =~= Set::<BlockId>::empty());
        assert(checked@.len() == 0);
        assert(to_check@[0] == start);
        assert(lost@ =~= Seq::<BlockId>::empty());
    }
    while to_check.len() > 0
        invariant
            universe == graph@.dom().insert(start),
            universe.finite(),
            keys@.to_set() == graph@.dom(),
            h0 == spec_has_support(start, old_states, graph@, present@, on_ground@),
            cascade_inv(start, universe, old_states, states@, checked@, lost@, to_check@, graph@, present@, on_ground@, h0),
            sole_inv(start, old_states, checked@, lost@, graph@, on_ground@),
            witness_inv(old_states, states@, checked@, lost@, graph@, present@, on_ground@),
            order_inv(start, old_states, states@, lost@, order, graph@, present@, on_ground@),
            forall|x: BlockId| checked@.contains(x) <==> #[trigger] order.contains(x),
        decreases universe.len() - checked@.len(), to_check@.len(),
    {
        let ghost w = to_check@;
        let b = match to_check.pop() {
            Some(x) => x,
            None => start,
        };
        proof {
            assert(b == w[w.len() - 1]);
            assert(w =~= to_check@.push(b));
            vstd::set_lib::lemma_len_subset(checked@, universe);
        }
        if !checked.contains(&b) {
            let ghost c0 = checked@;
            let ghost s0 = states@;
            let ghost l0 = lost@;
            checked.insert(b);
            proof {
                assert(universe.contains(b));
                assert(checked@ == c0.insert(b));
                vstd::set_lib::lemma_len_subset(c0, universe);
                assert(checked@.len() == c0.len() + 1);
                assert(checked@.subset_of(universe));
                vstd::set_lib::lemma_len_subset(checked@, universe);
                assert(!l0.contains(b));
                assert(b == start || rests_on_lost(graph@, b, l0, l0.len() as int));
                assert(c0.len() == 0 ==> b == start);
                if order.len() == 0 {
                    assert forall|x: BlockId| !c0.contains(x) by {
                        assert(!order.contains(x));
                    }
                    assert(c0 =~= Set::<BlockId>::empty());
                } else {
                    assert(order.contains(order[0]));
                    assert(b != start);
                }
                assert(order.len() > 0 ==> rests_on_lost(graph@, b, l0, l0.len() as int));
            }
            let current = match states.get(&b) {
                Some(f) => Some(*f),
                None => None,
            };
            match current {
                Some(f) => {
                    if !f.is_loose {
                        let supported = has_support(b, states, graph, present, on_ground);
                        let was = f.grounded || f.structurally_supported;
                        if was && !supported {
                            states.insert(b, SupportFlags::loose());
                            lost.push(b);
                            let ghost t0 = to_check@;
                            let mut j: usize = 0;
                            while j < keys.len()
                                invariant
                                    j <= keys@.len(),
                                    keys@.to_set() == graph@.dom(),
                                    universe == graph@.dom().insert(start),
                                    t0.len() <= to_check@.len(),
                                    forall|i: int| 0 <= i < t0.len() ==> to_check@[i] == t0[i],
                                    forall|i: int| t0.len() <= i < to_check@.len() ==> graph@.contains_key(#[trigger] to_check@[i])
                                        && graph@[to_check@[i]]@.contains(b),
                                    forall|m: int| 0 <= m < j && graph@.contains_key(#[trigger] keys@[m]) && graph@[keys@[m]]@.contains(b)
                                        ==> checked@.contains(keys@[m]) || to_check@.contains(keys@[m]),
                                decreases keys@.len() - j,
                            {
                                let k = keys[j];
                                let ghost before = to_check@;
                                match graph.get(&k) {
                                    Some(supporters) => {
                                        if lists(supporters, b) && !checked.contains(&k) {
                                            to_check.push(k);
                                        }
                                    },
                                    None => {},
                                }
                                proof {
                                    assert forall|m: int| 0 <= m < j + 1 && graph@.contains_key(#[trigger] keys@[m]) && graph@[keys@[m]]@.contains(b)
                                        implies checked@.contains(keys@[m]) || to_check@.contains(keys@[m]) by {
                                        if m < j {
                                            if before.contains(keys@[m]) {
                                                let i = choose|i: int| 0 <= i < before.len() && before[i] == keys@[m];
                                                assert(to_check@[i] == keys@[m]);
                                            }
                                        } else {
                                            if !checked@.contains(k) {
                                                assert(to_check@[to_check@.len() - 1] == k);
                                            }
                                        }
                                    }
                                }
                                j = j + 1;
                            }
                            proof {
                                assert forall|k: BlockId| graph@.contains_key(k) && #[trigger] graph@[k]@.contains(b)
                                    implies checked@.contains(k) || to_check@.contains(k) by {
                                    assert(keys@.to_set().contains(k));
                                    let m = choose|m: int| 0 <= m < keys@.len() && keys@[m] == k;
                                }
                                lemma_cascade_collapse(
                                    start, b, universe, old_states, s0, c0, l0, w, to_check@, graph@, present@, on_ground@, h0,
                                );
                                lemma_sole_collapse(start, b, old_states, c0, l0, graph@, on_ground@);
                                lemma_witness_collapse(start, b, universe, old_states, s0, c0, l0, w, graph@, present@, on_ground@, h0);
                                lemma_order_step(
                                    start, b, universe, old_states, s0, states@, c0, l0, lost@, w, order, graph@, present@, on_ground@, h0,
                                );
                                assert(states@ == s0.insert(b, loose_flags()));
                                assert(lost@ == l0.push(b));
                            }
                        } else {
                            states.insert(b, SupportFlags { structurally_supported: supported, ..f });
                            proof {
                                lemma_cascade_keep(start, b, universe, old_states, s0, c0, l0, w, graph@, present@, on_ground@, h0, supported);
                                lemma_sole_keep(start, b, universe, old_states, s0, c0, l0, w, graph@, present@, on_ground@, h0, supported);
                                lemma_witness_keep(start, b, universe, old_states, s0, c0, l0, w, graph@, present@, on_ground@, h0, supported);
                                lemma_order_step(
                                    start, b, universe, old_states, s0, states@, c0, l0, lost@, w, order, graph@, present@, on_ground@, h0,
                                );
                            }
                        }
                    } else {
                        proof {
                            lemma_cascade_untouched(start, b, universe, old_states, s0, c0, l0, w, graph@, present@, on_ground@, h0);
                            lemma_sole_untouched(start, b, universe, old_states, s0, c0, l0, w, graph@, present@, on_ground@, h0);
                            lemma_witness_untouched(start, b, universe, old_states, s0, c0, l0, w, graph@, present@, on_ground@, h0);
                            lemma_order_step(start, b, universe, old_states, s0, s0, c0, l0, l0, w, order, graph@, present@, on_ground@, h0);
                        }
                    }
                },
                None => {
                    proof {
                        lemma_cascade_untouched(start, b, universe, old_states, s0, c0, l0, w, graph@, present@, on_ground@, h0);
                        lemma_sole_untouched(start, b, universe, old_states, s0, c0, l0, w, graph@, present@, on_ground@, h0);
                        lemma_witness_untouched(start, b, universe, old_states, s0, c0, l0, w, graph@, present@, on_ground@, h0);
                        lemma_order_step(start, b, universe, old_states, s0, s0, c0, l0, l0, w, order, graph@, present@, on_ground@, h0);
                    }
                },
            }
            proof {
                let o0 = order;
                order = order.push(b);
                assert forall|x: BlockId| checked@.contains(x) <==> #[trigger] order.contains(x) by {
                    if x == b {
                        assert(order[o0.len() as int] == b);
                    } else {
                        if o0.contains(x) {
                            let i = choose|i: int| 0 <= i < o0.len() && o0[i] == x;
                            assert(order[i] == x);
                        }
                        if order.contains(x) {
                            let i = choose|i: int| 0 <= i < order.len() && order[i] == x;
                            assert(o0[i] == x);
                        }
                    }
                }
            }
        } else {
            proof {
                lemma_cascade_revisit(start, b, universe, old_states, states@, checked@, lost@, w, graph@, present@, on_ground@, h0);
                assert(to_check@ == w.drop_last());
            }
        }
    }
    proof {
        assert forall|b: BlockId| #![trigger old_states[b]] old_states.contains_key(b) && bears_load(old_states[b])
            && (b == start || rests_on_lost(graph@, b, lost@, lost@.len() as int))
            implies lost@.contains(b) || states@[b].structurally_supported by {
            if b != start {
                let j = choose|j: int| 0 <= j < lost@.len() && #[trigger] graph@[b]@.contains(lost@[j]);
                assert(checked@.contains(b) || to_check@.contains(b));
            }
            assert(checked@.contains(b));
        }
        assert forall|b: BlockId| #[trigger] hangs_on_one(start, old_states, graph@, on_ground@, b) && lost@.contains(graph@[b]@[0])
            implies lost@.contains(b) by {
            let j = choose|j: int| 0 <= j < lost@.len() && lost@[j] == graph@[b]@[0];
            assert(graph@[b]@.contains(lost@[j]));
            assert(rests_on_lost(graph@, b, lost@, lost@.len() as int));
            assert(checked@.contains(b) || to_check@.contains(b));
            assert(checked@.contains(b));
        }
        assert forall|b: BlockId| (b == start || #[trigger] rests_on_lost(graph@, b, lost@, lost@.len() as int))
            && bears_in(old_states, b) && !lost@.contains(b)
            implies stood_on_something(old_states, states@, graph@, present@, on_ground@, b) by {
            if b != start {
                let j = choose|j: int| 0 <= j < lost@.len() && #[trigger] graph@[b]@.contains(lost@[j]);
                assert(checked@.contains(b) || to_check@.contains(b));
            }
            assert(checked@.contains(b));
        }
        assert(checked@.len() > 0);
        assert(checked@.contains(start));
        assert(order.contains(start));
        assert forall|b: BlockId| #[trigger] order.contains(b) <==> (b == start || rests_on_lost(graph@, b, lost@, lost@.len() as int)) by {
            if b != start && rests_on_lost(graph@, b, lost@, lost@.len() as int) {
                let j = choose|j: int| 0 <= j < lost@.len() && #[trigger] graph@[b]@.contains(lost@[j]);
                assert(checked@.contains(b) || to_check@.contains(b));
            }
            if order.contains(b) {
                assert(checked@.contains(b));
            }
        }
        assert(cascade_order(start, old_states, states@, lost@, order, graph@, present@, on_ground@));
    }
    lost
}

} // verus!
