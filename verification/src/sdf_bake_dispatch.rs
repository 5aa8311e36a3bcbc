//! Book-keeping of the SDF bake passes: which entities still render from their equation.

use vstd::prelude::*;
use std::collections::{HashSet, VecDeque};
use crate::bake_queue::{EntityId, MAX_BAKES_PER_FRAME};

verus! {

broadcast use vstd::std_specs::hash::group_hash_axioms;

/// Bytes of the bake parameters uniform as the bake shader lays it out.
pub const BAKE_PARAMS_SIZE: usize = 112;

/// Voxels in one baked SDF slot (64³); slot `n` starts at voxel `n * SDF_SLOT_VOXELS`.
pub const SDF_SLOT_VOXELS: u32 = 262_144;

/// Workgroups per axis of one bake dispatch (64 voxels per axis, 4 per workgroup).
pub const BAKE_WORKGROUPS_PER_AXIS: u32 = 16;

/// First voxel of SDF slot `slot_id` in the brick cache.
pub fn brick_offset(slot_id: u32) -> (offset: u32)
    requires
        slot_id * SDF_SLOT_VOXELS <= u32::MAX,
    ensures
        offset == slot_id * SDF_SLOT_VOXELS,
{
    slot_id * SDF_SLOT_VOXELS
}

/// The entities whose bake has not completed: they render from their SDF equation.
pub struct FallbackState {
    pending_entities: HashSet<EntityId>,
}

impl View for FallbackState {
    type V = Set<EntityId>;

    /// The entities still pending.
    closed spec fn view(&self) -> Set<EntityId> {
        self.pending_entities@
    }
}

impl FallbackState {
    /// No entity pending.
    pub fn new() -> (state: FallbackState)
        ensures
            state@ == Set::<EntityId>::empty(),
    {
        FallbackState { pending_entities: HashSet::new() }
    }

    /// Whether the entity still renders from its equation (its bake is not done).
    pub fn uses_equation_fallback(&self, entity_id: EntityId) -> (pending: bool)
        ensures
            pending == self@.contains(entity_id),
    {
        self.pending_entities.contains(&entity_id)
    }

    /// Marks the entity as waiting for its bake.
    pub fn mark_pending(&mut self, entity_id: EntityId)
        ensures
            final(self)@ == old(self)@.insert(entity_id),
    {
        self.pending_entities.insert(entity_id);
    }

    /// Marks the entity's bake as done.
    pub fn mark_complete(&mut self, entity_id: EntityId)
        ensures
            final(self)@ == old(self)@.remove(entity_id),
    {
        self.pending_entities.remove(&entity_id);
    }
}

impl Default for FallbackState {
    /// No entity pending.
    fn default() -> (state: FallbackState)
        ensures
            state@ == Set::<EntityId>::empty(),
    {
        FallbackState::new()
    }
}


/// What happened to the bake request at the front of the dispatcher's queue.
pub enum DispatchOutcome<P> {
    /// No SDF slot was free: the request stays at the front of the queue.
    Deferred,
    /// The request is dispatched into `slot`, whose voxels start at `brick_offset`; the
    /// entity no longer uses the equation fallback.
    Dispatched { entity_id: EntityId, params: P, slot: u32, brick_offset: u32 },
}

/// The queue of bake requests (each carrying its bake parameters `P`) and the entities still
/// rendering from their equation.
pub struct SdfBakeDispatcher<P> {
    queue: VecDeque<(EntityId, P)>,
    fallback: FallbackState,
}

impl<P> SdfBakeDispatcher<P> {
    /// Queued requests, front first.
    pub closed spec fn requests(&self) -> Seq<(EntityId, P)> {
        self.queue@
    }

    /// The entities still rendering from their equation.
    pub closed spec fn pending(&self) -> Set<EntityId> {
        self.fallback@
    }

    /// No request queued and no entity pending.
    pub fn new() -> (dispatcher: SdfBakeDispatcher<P>)
        ensures
            dispatcher.requests() == Seq::<(EntityId, P)>::empty(),
            dispatcher.pending() == Set::<EntityId>::empty(),
    {
        SdfBakeDispatcher { queue: VecDeque::new(), fallback: FallbackState::new() }
    }

    /// Queues a bake for the entity, which renders from its equation until it is dispatched.
    pub fn queue_bake(&mut self, entity_id: EntityId, bake_params: P)
        ensures
            final(self).requests() == old(self).requests().push((entity_id, bake_params)),
            final(self).pending() == old(self).pending().insert(entity_id),
    {
        self.fallback.mark_pending(entity_id);
        self.queue.push_back((entity_id, bake_params));
    }

    /// Dispatches the request at the front of the queue into `slot`, the slot just allocated
    /// for it, or defers it when no slot was free.
    pub fn dispatch_next(&mut self, slot: Option<u32>) -> (outcome: DispatchOutcome<P>)
        requires
            old(self).requests().len() > 0,
            slot matches Some(s) ==> s * SDF_SLOT_VOXELS <= u32::MAX,
        ensures
            match outcome {
                DispatchOutcome::Deferred => {
                    &&& slot is None
                    &&& final(self).requests() == old(self).requests()
                    &&& final(self).pending() == old(self).pending()
                },
                DispatchOutcome::Dispatched { entity_id, params, slot: s, brick_offset } => {
                    &&& slot == Some(s)
                    &&& brick_offset == s * SDF_SLOT_VOXELS
                    &&& (entity_id, params) == old(self).requests()[0]
                    &&& final(self).requests() == old(self).requests().drop_first()
                    &&& final(self).pending() == old(self).pending().remove(entity_id)
                },
            },
    {
        match slot {
            None => DispatchOutcome::Deferred,
            Some(s) => {
                match self.queue.pop_front() {
                    Some((entity_id, params)) => {
                        let offset = brick_offset(s);
                        self.fallback.mark_complete(entity_id);
                        proof {
                            assert(self.queue@ =~= old(self).queue@.drop_first());
                        }
                        DispatchOutcome::Dispatched { entity_id, params, slot: s, brick_offset: offset }
                    },
                    None => DispatchOutcome::Deferred,
                }
            },
        }
    }

    /// Whether the entity still renders from its equation.
    pub fn uses_equation_fallback(&self, entity_id: EntityId) -> (pending: bool)
        ensures
            pending == self.pending().contains(entity_id),
    {
        self.fallback.uses_equation_fallback(entity_id)
    }

    /// The entities still rendering from their equation.
    pub fn fallback_state(&self) -> (state: &FallbackState)
        ensures
            state@ == self.pending(),
    {
        &self.fallback
    }

    /// Number of queued requests.
    pub fn pending_count(&self) -> (n: usize)
        ensures
            n == self.requests().len(),
    {
        self.queue.len()
    }

    /// Whether a frame that has dispatched `dispatched_this_frame` bakes so far tries another:
    /// a request waits and fewer than `MAX_BAKES_PER_FRAME` were dispatched. (A frame also
    /// stops at the first request deferred for want of a slot.)
    pub fn wants_another_dispatch(&self, dispatched_this_frame: usize) -> (more: bool)
        ensures
            more == (dispatched_this_frame < MAX_BAKES_PER_FRAME && self.requests().len() > 0),
    {
        dispatched_this_frame < MAX_BAKES_PER_FRAME && self.queue.len() > 0
    }
}

/// An entity uses the equation fallback after it is marked pending and until it is marked
/// complete; marking one entity leaves the answer for every other entity unchanged.
pub proof fn lemma_fallback_marks(s: Set<EntityId>, id: EntityId, other: EntityId)
    requires
        other != id,
    ensures
        s.insert(id).contains(id),
        !s.remove(id).contains(id),
        s.insert(id).contains(other) == s.contains(other),
        s.remove(id).contains(other) == s.contains(other),
{
}

} // verus!
