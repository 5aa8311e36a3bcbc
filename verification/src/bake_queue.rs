//! The SDF bake queue: which entities wait for a bake, which SDF slot each one holds, and
//! which old slots must be freed once a re-bake lands.
//!
//! Entities are queued when they spawn (or when their shape changes) and baked first in,
//! first out, a few per frame. A baked entity first blends from its equation to the baked
//! SDF (`Transitioning`) and then uses the bake alone (`Baked`). The timing of that blend is
//! kept by the caller; this queue only records the states.

use vstd::prelude::*;
use std::collections::{HashMap, VecDeque};
use crate::hash_keys::map_keys;

verus! {

broadcast use vstd::std_specs::hash::group_hash_axioms;

/// Most SDF bakes started in one frame.
pub const MAX_BAKES_PER_FRAME: usize = 5;

/// Length in milliseconds of the blend from equation rendering to the baked SDF.
pub const TRANSITION_DURATION_MS: u32 = 300;

/// Identifier of an entity in the bake system.
pub type EntityId = u64;

/// Where an entity is in its bake.
#[derive(Copy, Clone, Debug, PartialEq, Eq, Structural)]
pub enum BakeState {
    /// Waiting in the queue.
    Pending,
    /// Being baked.
    Baking,
    /// Baked into `baked_sdf_id`, blending from the equation to the bake.
    Transitioning { baked_sdf_id: u32 },
    /// Baked into `baked_sdf_id` and using it alone.
    Baked { baked_sdf_id: u32 },
}

/// The SDF slot an entity in state `s` holds, if any.
pub open spec fn held_slot(s: BakeState) -> Option<u32> {
    match s {
        BakeState::Transitioning { baked_sdf_id } => Some(baked_sdf_id),
        BakeState::Baked { baked_sdf_id } => Some(baked_sdf_id),
        _ => None,
    }
}

/// What happened to the job at the front of the queue.
pub enum BakeOutcome<J> {
    /// No SDF slot was free: the job stays at the front of the queue.
    Deferred,
    /// The job was baked into `slot`; `freed_old` is the slot of the entity's previous bake,
    /// now to be freed.
    Baked { entity_id: EntityId, job: J, slot: u32, freed_old: Option<u32> },
}

/// The jobs of `jobs` that are not for entity `id`, in order.
pub open spec fn jobs_without<J>(jobs: Seq<(EntityId, J)>, id: EntityId) -> Seq<(EntityId, J)>
    decreases jobs.len(),
{
    if jobs.len() == 0 {
        Seq::empty()
    } else {
        jobs_without(jobs.drop_last(), id) + if jobs.last().0 != id {
            seq![jobs.last()]
        } else {
            Seq::empty()
        }
    }
}

/// The slots freed when entity `id` is removed: the slot its state holds, then the old slot
/// waiting to be freed after a re-bake.
pub open spec fn slots_released(states: Map<EntityId, BakeState>, frees: Map<EntityId, u32>, id: EntityId) -> Seq<u32> {
    (if states.contains_key(id) && held_slot(states[id]) is Some {
        seq![held_slot(states[id])->0]
    } else {
        Seq::empty()
    }) + (if frees.contains_key(id) {
        seq![frees[id]]
    } else {
        Seq::empty()
    })
}

/// The slots released by removing the entities of `ids` one after the other.
pub open spec fn slots_released_all(states: Map<EntityId, BakeState>, frees: Map<EntityId, u32>, ids: Seq<EntityId>) -> Seq<u32>
    decreases ids.len(),
{
    if ids.len() == 0 {
        Seq::empty()
    } else {
        slots_released_all(states, frees, ids.drop_last()) + slots_released(states, frees, ids.last())
    }
}

/// The old slot of a re-bake is handed back exactly once, by the bake that replaces it: after
/// `queue_rebake` records `old_slot` for `id` (`frees().insert`), a `process_job` baking `id`
/// returns `Some(old_slot)` as `freed_old` and stops waiting for it (`frees().remove`), while
/// the waiting slots of other entities are untouched.
pub proof fn lemma_rebake_slot_handed_back(frees: Map<EntityId, u32>, id: EntityId, old_slot: u32, other: EntityId)
    ensures
        ({
            let waiting = frees.insert(id, old_slot);
            let freed_old = if waiting.contains_key(id) { Some(waiting[id]) } else { None };
            &&& freed_old == Some(old_slot)
            &&& !waiting.remove(id).contains_key(id)
            &&& other != id ==> waiting.remove(id).contains_key(other) == frees.contains_key(other)
            &&& other != id && frees.contains_key(other) ==> waiting.remove(id)[other] == frees[other]
        }),
{
}

/// A baked entity keeps its slot: once `process_job` has baked it into `slot`, the slot is
/// what `get_baked_sdf_id` reports, through the blend (`Transitioning`) and after it
/// (`complete_transition` makes it `Baked` in the same slot).
pub proof fn lemma_baked_slot_kept(states: Map<EntityId, BakeState>, id: EntityId, slot: u32)
    ensures
        ({
            let baked = states.insert(id, BakeState::Transitioning { baked_sdf_id: slot });
            let done = baked.insert(id, BakeState::Baked { baked_sdf_id: baked[id]->Transitioning_baked_sdf_id });
            &&& held_slot(baked[id]) == Some(slot)
            &&& held_slot(done[id]) == Some(slot)
        }),
{
}

/// The queue of bake jobs, each carrying a payload `J` (the bake parameters), and the
/// bake state of every tracked entity.
pub struct BakeQueue<J> {
    pending_jobs: VecDeque<(EntityId, J)>,
    entity_states: HashMap<EntityId, BakeState>,
    next_entity_id: EntityId,
    pending_sdf_frees: HashMap<EntityId, u32>,
}

impl<J> BakeQueue<J> {
    /// Queued jobs, front first.
    pub closed spec fn jobs(&self) -> Seq<(EntityId, J)> {
        self.pending_jobs@
    }

    /// Bake state of every tracked entity.
    pub closed spec fn states(&self) -> Map<EntityId, BakeState> {
        self.entity_states@
    }

    /// For each re-baked entity, the old slot to free once its new bake lands.
    pub closed spec fn frees(&self) -> Map<EntityId, u32> {
        self.pending_sdf_frees@
    }

    /// The next identifier `generate_entity_id` hands out.
    pub closed spec fn next_id(&self) -> EntityId {
        self.next_entity_id
    }

    /// Only tracked entities have an old slot waiting, and every queued job is for a tracked
    /// entity.
    pub open spec fn wf(&self) -> bool {
        &&& self.frees().dom().subset_of(self.states().dom())
        &&& forall|i: int| 0 <= i < self.jobs().len() ==> self.states().contains_key(#[trigger] self.jobs()[i].0)
    }

    /// An empty queue; identifiers start at 1.
    pub fn new() -> (queue: BakeQueue<J>)
        ensures
            queue.wf(),
            queue.jobs() == Seq::<(EntityId, J)>::empty(),
            queue.states() == Map::<EntityId, BakeState>::empty(),
            queue.frees() == Map::<EntityId, u32>::empty(),
            queue.next_id() == 1,
    {
        BakeQueue {
            pending_jobs: VecDeque::new(),
            entity_states: HashMap::new(),
            next_entity_id: 1,
            pending_sdf_frees: HashMap::new(),
        }
    }

    /// The identifier `generate_entity_id` hands out next.
    pub fn next_entity_id(&self) -> (id: EntityId)
        ensures
            id == self.next_id(),
    {
        self.next_entity_id
    }

    /// A fresh entity identifier: the counter's value, which is then incremented.
    pub fn generate_entity_id(&mut self) -> (id: EntityId)
        requires
            old(self).next_id() < u64::MAX,
        ensures
            id == old(self).next_id(),
            final(self).next_id() == old(self).next_id() + 1,
            final(self).jobs() == old(self).jobs(),
            final(self).states() == old(self).states(),
            final(self).frees() == old(self).frees(),
    {
        let id = self.next_entity_id;
        self.next_entity_id = self.next_entity_id + 1;
        id
    }

    /// Queues a bake job for `entity_id`; the entity becomes `Pending`.
    pub fn queue_bake(&mut self, entity_id: EntityId, job: J)
        requires
            old(self).wf(),
        ensures
            final(self).wf(),
            final(self).jobs() == old(self).jobs().push((entity_id, job)),
            final(self).states() == old(self).states().insert(entity_id, BakeState::Pending),
            final(self).frees() == old(self).frees(),
            final(self).next_id() == old(self).next_id(),
    {
        self.pending_jobs.push_back((entity_id, job));
        self.entity_states.insert(entity_id, BakeState::Pending);
        proof {
            assert forall|i: int| 0 <= i < self.jobs().len() implies self.states().contains_key(
                #[trigger] self.jobs()[i].0,
            ) by {
                if i < old(self).jobs().len() {
                    assert(self.jobs()[i] == old(self).jobs()[i]);
                }
            }
        }
    }

    /// Queues a re-bake job for `entity_id` whose shape changed; `old_sdf_id`, when given, is
    /// the slot to free once the new bake lands. The entity becomes `Pending`.
    pub fn queue_rebake(&mut self, entity_id: EntityId, old_sdf_id: Option<u32>, job: J)
        requires
            old(self).wf(),
        ensures
            final(self).wf(),
            final(self).jobs() == old(self).jobs().push((entity_id, job)),
            final(self).states() == old(self).states().insert(entity_id, BakeState::Pending),
            final(self).frees() == match old_sdf_id {
                Some(o) => old(self).frees().insert(entity_id, o),
                None => old(self).frees(),
            },
            final(self).next_id() == old(self).next_id(),
    {
        if let Some(old_id) = old_sdf_id {
            self.pending_sdf_frees.insert(entity_id, old_id);
        }
        self.pending_jobs.push_back((entity_id, job));
        self.entity_states.insert(entity_id, BakeState::Pending);
        proof {
            assert forall|i: int| 0 <= i < self.jobs().len() implies self.states().contains_key(
                #[trigger] self.jobs()[i].0,
            ) by {
                if i < old(self).jobs().len() {
                    assert(self.jobs()[i] == old(self).jobs()[i]);
                }
            }
        }
    }

    /// Whether the entity has an old slot waiting to be freed.
    pub fn has_pending_free(&self, entity_id: EntityId) -> (waiting: bool)
        ensures
            waiting == self.frees().contains_key(entity_id),
    {
        self.pending_sdf_frees.contains_key(&entity_id)
    }

    /// The old slot waiting to be freed for the entity, if any.
    pub fn get_pending_free(&self, entity_id: EntityId) -> (slot: Option<u32>)
        ensures
            slot == (if self.frees().contains_key(entity_id) { Some(self.frees()[entity_id]) } else { None }),
    {
        match self.pending_sdf_frees.get(&entity_id) {
            Some(s) => Some(*s),
            None => None,
        }
    }

    /// Number of queued jobs.
    pub fn pending_count(&self) -> (n: usize)
        ensures
            n == self.jobs().len(),
    {
        self.pending_jobs.len()
    }

    /// Whether a frame that has baked `baked_this_frame` jobs so far tries another: a job
    /// waits and fewer than `MAX_BAKES_PER_FRAME` were baked. (A frame also stops at the first
    /// job deferred for want of a slot.)
    pub fn wants_another_bake(&self, baked_this_frame: usize) -> (more: bool)
        ensures
            more == (baked_this_frame < MAX_BAKES_PER_FRAME && self.jobs().len() > 0),
    {
        baked_this_frame < MAX_BAKES_PER_FRAME && self.pending_jobs.len() > 0
    }

    /// Number of old slots waiting to be freed.
    pub fn pending_free_count(&self) -> (n: usize)
        ensures
            n == self.frees().len(),
    {
        self.pending_sdf_frees.len()
    }

    /// The bake state of the entity, if it is tracked.
    pub fn get_state(&self, entity_id: EntityId) -> (state: Option<BakeState>)
        ensures
            state == (if self.states().contains_key(entity_id) { Some(self.states()[entity_id]) } else { None }),
    {
        match self.entity_states.get(&entity_id) {
            Some(s) => Some(*s),
            None => None,
        }
    }

    /// Whether the entity is queued or being baked.
    pub fn is_entity_pending(&self, entity_id: EntityId) -> (pending: bool)
        ensures
            pending == (self.states().contains_key(entity_id) && (self.states()[entity_id] == BakeState::Pending
                || self.states()[entity_id] == BakeState::Baking)),
    {
        match self.entity_states.get(&entity_id) {
            Some(BakeState::Pending) => true,
            Some(BakeState::Baking) => true,
            _ => false,
        }
    }

    /// The slot the entity's bake lives in, once baked (during the blend too).
    pub fn get_baked_sdf_id(&self, entity_id: EntityId) -> (slot: Option<u32>)
        ensures
            slot == (if self.states().contains_key(entity_id) { held_slot(self.states()[entity_id]) } else { None }),
    {
        match self.entity_states.get(&entity_id) {
            Some(BakeState::Transitioning { baked_sdf_id }) => Some(*baked_sdf_id),
            Some(BakeState::Baked { baked_sdf_id }) => Some(*baked_sdf_id),
            _ => None,
        }
    }

    /// Bakes the job at the front of the queue into `slot`, the slot just allocated for it,
    /// or defers it when no slot was free. A baked entity starts blending (`Transitioning`)
    /// and hands back the old slot of a re-bake, which is no longer waiting.
    pub fn process_job(&mut self, slot: Option<u32>) -> (outcome: BakeOutcome<J>)
        requires
            old(self).wf(),
            old(self).jobs().len() > 0,
        ensures
            final(self).wf(),
            final(self).next_id() == old(self).next_id(),
            match outcome {
                BakeOutcome::Deferred => {
                    &&& slot is None
                    &&& final(self).jobs() == old(self).jobs()
                    &&& final(self).states() == old(self).states()
                    &&& final(self).frees() == old(self).frees()
                },
                BakeOutcome::Baked { entity_id, job, slot: s, freed_old } => {
                    &&& slot == Some(s)
                    &&& (entity_id, job) == old(self).jobs()[0]
                    &&& final(self).jobs() == old(self).jobs().drop_first()
                    &&& final(self).states() == old(self).states().insert(
                        entity_id,
                        BakeState::Transitioning { baked_sdf_id: s },
                    )
                    &&& freed_old == (if old(self).frees().contains_key(entity_id) {
                        Some(old(self).frees()[entity_id])
                    } else {
                        None
                    })
                    &&& final(self).frees() == old(self).frees().remove(entity_id)
                },
            },
    {
        match slot {
            None => BakeOutcome::Deferred,
            Some(s) => {
                let ghost old_jobs = self.pending_jobs@;
                let front = self.pending_jobs.pop_front();
                match front {
                    Some((entity_id, job)) => {
                        self.entity_states.insert(entity_id, BakeState::Baking);
                        self.entity_states.insert(entity_id, BakeState::Transitioning { baked_sdf_id: s });
                        let freed_old = self.pending_sdf_frees.remove(&entity_id);
                        proof {
                            assert(self.pending_jobs@ =~= old_jobs.drop_first());
                            assert forall|i: int| 0 <= i < self.jobs().len() implies self.states().contains_key(
                                #[trigger] self.jobs()[i].0,
                            ) by {
                                assert(self.jobs()[i] == old_jobs[i + 1]);
                            }
                        }
                        BakeOutcome::Baked { entity_id, job, slot: s, freed_old }
                    },
                    None => BakeOutcome::Deferred,
                }
            },
        }
    }

    /// Stops tracking `entity_id`: forgets its state, its waiting old slot and its queued
    /// jobs, and returns the slots to free (the one its state holds, then the waiting one).
    pub fn free_entity(&mut self, entity_id: EntityId) -> (freed: Vec<u32>)
        requires
            old(self).wf(),
        ensures
            final(self).wf(),
            freed@ == slots_released(old(self).states(), old(self).frees(), entity_id),
            final(self).states() == old(self).states().remove(entity_id),
            final(self).frees() == old(self).frees().remove(entity_id),
            final(self).jobs() == jobs_without(old(self).jobs(), entity_id),
            final(self).next_id() == old(self).next_id(),
    {
        let ghost old_states = self.entity_states@;
        let ghost old_frees = self.pending_sdf_frees@;
        let ghost old_jobs = self.pending_jobs@;
        let mut freed: Vec<u32> = Vec::new();
        let removed = self.entity_states.remove(&entity_id);
        match removed {
            Some(BakeState::Transitioning { baked_sdf_id }) => freed.push(baked_sdf_id),
            Some(BakeState::Baked { baked_sdf_id }) => freed.push(baked_sdf_id),
            _ => {},
        }
        let old_free = self.pending_sdf_frees.remove(&entity_id);
        if let Some(old_slot) = old_free {
            freed.push(old_slot);
        }
        proof {
            assert(freed@ =~= slots_released(old_states, old_frees, entity_id));
        }
        let mut kept: VecDeque<(EntityId, J)> = VecDeque::new();
        let n = self.pending_jobs.len();
        let mut i: usize = 0;
        while i < n
            invariant
                n == old_jobs.len(),
                i <= n,
                self.entity_states@ == old_states.remove(entity_id),
                self.pending_sdf_frees@ == old_frees.remove(entity_id),
                self.next_entity_id == old(self).next_entity_id,
                self.pending_jobs@ == old_jobs.subrange(i as int, n as int),
                kept@ == jobs_without(old_jobs.take(i as int), entity_id),
                forall|k: int| 0 <= k < kept@.len() ==> (#[trigger] kept@[k]).0 != entity_id,
                forall|k: int| 0 <= k < kept@.len() ==> old_jobs.contains(#[trigger] kept@[k]),
            decreases n - i,
        {
            let front = self.pending_jobs.pop_front();
            let ghost before = kept@;
            match front {
                Some(job) => {
                    proof {
                        assert(job == old_jobs[i as int]);
                    }
                    if job.0 != entity_id {
                        kept.push_back(job);
                    }
                },
                None => {},
            }
            proof {
                let t = old_jobs.take(i + 1);
                assert(t.drop_last() =~= old_jobs.take(i as int));
                assert(t.last() == old_jobs[i as int]);
                assert(kept@ =~= jobs_without(t, entity_id));
                assert(self.pending_jobs@ =~= old_jobs.subrange(i + 1, n as int));
                assert forall|k: int| 0 <= k < kept@.len() implies old_jobs.contains(#[trigger] kept@[k]) by {
                    if k < before.len() {
                        assert(kept@[k] == before[k]);
                    } else {
                        assert(kept@[k] == old_jobs[i as int]);
                    }
                }
            }
            i = i + 1;
        }
        proof {
            assert(old_jobs.take(n as int) =~= old_jobs);
        }
        self.pending_jobs = kept;
        proof {
            assert forall|k: int| 0 <= k < self.jobs().len() implies self.states().contains_key(
                #[trigger] self.jobs()[k].0,
            ) by {
                let j = self.jobs()[k];
                assert(self.jobs() == kept@);
                assert(j == kept@[k]);
                assert(old_jobs.contains(j));
                let m = choose|m: int| 0 <= m < old_jobs.len() && old_jobs[m] == j;
                assert(old(self).jobs()[m] == old_jobs[m]);
                assert(old_states.contains_key(old(self).jobs()[m].0));
                assert(j.0 != entity_id);
                assert(self.entity_states@ == old_states.remove(entity_id));
                assert(self.states() == old_states.remove(entity_id));
                assert(self.states().contains_key(j.0));
            }
        }
        freed
    }

    /// Stops tracking every entity and empties the queue; returns every slot to free: for
    /// each tracked entity (in the map's order) its held slot, then its waiting old slot.
    pub fn clear(&mut self) -> (freed: Vec<u32>)
        requires
            old(self).wf(),
        ensures
            final(self).wf(),
            exists|order: Seq<EntityId>| {
                &&& order.no_duplicates()
                &&& order.to_set() == old(self).states().dom()
                &&& freed@ == slots_released_all(old(self).states(), old(self).frees(), order)
            },
            final(self).jobs() == Seq::<(EntityId, J)>::empty(),
            final(self).states() == Map::<EntityId, BakeState>::empty(),
            final(self).frees() == Map::<EntityId, u32>::empty(),
            final(self).next_id() == old(self).next_id(),
    {
        let ids = map_keys(&self.entity_states);
        let ghost old_states = self.states();
        let ghost old_frees = self.frees();
        let mut freed: Vec<u32> = Vec::new();
        let mut i: usize = 0;
        while i < ids.len()
            invariant
                self.wf(),
                i <= ids@.len(),
                ids@.no_duplicates(),
                ids@.to_set() == old_states.dom(),
                old_frees.dom().subset_of(old_states.dom()),
                self.next_id() == old(self).next_id(),
                self.states() == old_states.remove_keys(ids@.take(i as int).to_set()),
                self.frees() == old_frees.remove_keys(ids@.take(i as int).to_set()),
                freed@ == slots_released_all(old_states, old_frees, ids@.take(i as int)),
            decreases ids@.len() - i,
        {
            let id = ids[i];
            proof {
                assert(!ids@.take(i as int).contains(id)) by {
                    if ids@.take(i as int).contains(id) {
                        let m = choose|m: int| 0 <= m < i && ids@.take(i as int)[m] == id;
                        assert(ids@[m] == ids@[i as int]);
                    }
                }
                assert(self.states().contains_key(id) == old_states.contains_key(id));
                assert(self.states().contains_key(id) ==> self.states()[id] == old_states[id]);
                assert(self.frees().contains_key(id) == old_frees.contains_key(id));
                assert(self.frees().contains_key(id) ==> self.frees()[id] == old_frees[id]);
                assert(slots_released(self.states(), self.frees(), id) =~= slots_released(old_states, old_frees, id));
            }
            let mut released = self.free_entity(id);
            freed.append(&mut released);
            proof {
                let t = ids@.take(i + 1);
                assert(t.drop_last() =~= ids@.take(i as int));
                assert(t =~= ids@.take(i as int).push(id));
                assert forall|x: EntityId| #[trigger] t.to_set().contains(x) <==> ids@.take(i as int).to_set().insert(id).contains(x) by {
                    if t.contains(x) {
                        let m = choose|m: int| 0 <= m < t.len() && t[m] == x;
                        if m < i {
                            assert(ids@.take(i as int)[m] == x);
                        }
                    }
                    if ids@.take(i as int).contains(x) {
                        let m = choose|m: int| 0 <= m < i && ids@.take(i as int)[m] == x;
                        assert(t[m] == x);
                    }
                    if x == id {
                        assert(t[i as int] == id);
                    }
                }
                assert(t.to_set() =~= ids@.take(i as int).to_set().insert(id));
                assert(self.states() =~= old_states.remove_keys(t.to_set()));
                assert(self.frees() =~= old_frees.remove_keys(t.to_set()));
            }
            i = i + 1;
        }
        proof {
            assert(ids@.take(ids@.len() as int) =~= ids@);
            assert(self.states() =~= Map::<EntityId, BakeState>::empty());
            assert(self.frees() =~= Map::<EntityId, u32>::empty());
        }
        self.pending_jobs.clear();
        self.entity_states.clear();
        self.pending_sdf_frees.clear();
        freed
    }

    /// The entities that are blending from their equation to their bake, each once, in no
    /// particular order.
    pub fn transitioning_entities(&self) -> (ids: Vec<EntityId>)
        ensures
            ids@.no_duplicates(),
            forall|id: EntityId| #[trigger] ids@.contains(id) <==> (self.states().contains_key(id)
                && self.states()[id] is Transitioning),
    {
        let all = map_keys(&self.entity_states);
        let mut ids: Vec<EntityId> = Vec::new();
        let mut i: usize = 0;
        while i < all.len()
            invariant
                i <= all@.len(),
                all@.no_duplicates(),
                all@.to_set() == self.states().dom(),
                ids@.no_duplicates(),
                forall|id: EntityId| #[trigger] ids@.contains(id) <==> (all@.take(i as int).contains(id)
                    && self.states()[id] is Transitioning),
            decreases all@.len() - i,
        {
            let id = all[i];
            proof {
                assert(all@.to_set().contains(id));
                assert(!all@.take(i as int).contains(id)) by {
                    if all@.take(i as int).contains(id) {
                        let m = choose|m: int| 0 <= m < i && all@.take(i as int)[m] == id;
                        assert(all@[m] == all@[i as int]);
                    }
                }
            }
            let ghost before = ids@;
            let state = self.get_state(id);
            if let Some(BakeState::Transitioning { .. }) = state {
                ids.push(id);
            }
            proof {
                assert(all@.take(i + 1) =~= all@.take(i as int).push(id));
                assert forall|x: EntityId| #[trigger] ids@.contains(x) <==> (all@.take(i + 1).contains(x)
                    && self.states()[x] is Transitioning) by {
                    if x == id {
                        assert(all@.take(i + 1)[i as int] == id);
                        assert(self.states().contains_key(id));
                        if !(self.states()[id] is Transitioning) {
                            assert(ids@ == before);
                            assert(!before.contains(id));
                        } else {
                            assert(ids@[ids@.len() - 1] == id);
                        }
                    } else {
                        if ids@.contains(x) {
                            let m = choose|m: int| 0 <= m < ids@.len() && ids@[m] == x;
                            assert(before[m] == x);
                        }
                        if before.contains(x) {
                            let m = choose|m: int| 0 <= m < before.len() && before[m] == x;
                            assert(ids@[m] == x);
                        }
                        if all@.take(i as int).contains(x) {
                            let m = choose|m: int| 0 <= m < i && all@.take(i as int)[m] == x;
                            assert(all@.take(i + 1)[m] == x);
                        }
                        if all@.take(i + 1).contains(x) {
                            let t = all@.take(i + 1);
                            let m = choose|m: int| 0 <= m < t.len() && t[m] == x;
                            assert(m != i);
                            assert(all@.take(i as int)[m] == x);
                        }
                    }
                }
                if ids@.len() > before.len() {
                    assert(!before.contains(id));
                    assert forall|a: int, b: int| 0 <= a < b < ids@.len() implies ids@[a] != ids@[b] by {
                        if b == before.len() {
                            assert(ids@[a] == before[a]);
                        }
                    }
                }
            }
            i = i + 1;
        }
        proof {
            assert(all@.take(all@.len() as int) =~= all@);
            assert forall|id: EntityId| #[trigger] ids@.contains(id) <==> (self.states().contains_key(id)
                && self.states()[id] is Transitioning) by {
                assert(all@.to_set().contains(id) == all@.contains(id));
            }
        }
        ids
    }

    /// Ends the blend of an entity: a `Transitioning` entity becomes `Baked` in the same slot;
    /// any other state is left as it is.
    pub fn complete_transition(&mut self, entity_id: EntityId)
        requires
            old(self).wf(),
        ensures
            final(self).wf(),
            final(self).jobs() == old(self).jobs(),
            final(self).frees() == old(self).frees(),
            final(self).next_id() == old(self).next_id(),
            final(self).states() == (if old(self).states().contains_key(entity_id) && old(self).states()[entity_id] is Transitioning {
                old(self).states().insert(
                    entity_id,
                    BakeState::Baked { baked_sdf_id: old(self).states()[entity_id]->Transitioning_baked_sdf_id },
                )
            } else {
                old(self).states()
            }),
    {
        let current = match self.entity_states.get(&entity_id) {
            Some(s) => Some(*s),
            None => None,
        };
        if let Some(BakeState::Transitioning { baked_sdf_id }) = current {
            self.entity_states.insert(entity_id, BakeState::Baked { baked_sdf_id });
        }
        proof {
            assert forall|i: int| 0 <= i < self.jobs().len() implies self.states().contains_key(
                #[trigger] self.jobs()[i].0,
            ) by {
                assert(old(self).states().contains_key(old(self).jobs()[i].0));
            }
        }
    }
}

} // verus!
