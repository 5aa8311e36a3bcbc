//! Dirty tracking of the shape parameters that a baked SDF depends on.
//!
//! Each tracked entity keeps its last shape parameters (`P`), the SDF slot of its current
//! bake, and a dirty flag raised when its shape changes. Whether a change is significant is
//! decided by the caller (who compares the parameters); the tracker records the outcome.

use vstd::prelude::*;
use std::collections::HashMap;
use crate::bake_queue::EntityId;
use crate::hash_keys::map_keys;

verus! {

broadcast use vstd::std_specs::hash::group_hash_axioms;

/// What the tracker knows of one entity.
#[derive(Copy, Clone, Debug)]
pub struct TrackedEntity<P> {
    /// Last known shape parameters.
    pub params: P,
    /// Slot of the current bake, once baked.
    pub baked_sdf_id: Option<u32>,
    /// Whether the shape changed since the current bake.
    pub dirty: bool,
}

/// An entity that needs a re-bake.
#[derive(Copy, Clone, Debug)]
pub struct DirtyEntity<P> {
    /// The entity.
    pub entity_id: EntityId,
    /// The shape parameters to bake.
    pub params: P,
    /// Slot of the bake to free once the new one lands.
    pub old_sdf_id: Option<u32>,
}

/// The shape parameters and bake slots of tracked entities.
pub struct RebakeTracker<P> {
    entities: HashMap<EntityId, TrackedEntity<P>>,
}

/// The dirty entity record of tracked entity `id`.
pub open spec fn dirty_record<P>(id: EntityId, t: TrackedEntity<P>) -> DirtyEntity<P> {
    DirtyEntity { entity_id: id, params: t.params, old_sdf_id: t.baked_sdf_id }
}

/// The ids of the dirty entities of `m`.
pub open spec fn dirty_ids<P>(m: Map<EntityId, TrackedEntity<P>>) -> Set<EntityId> {
    m.dom().filter(|id: EntityId| m[id].dirty)
}

/// An entity whose shape changed stays dirty until its new bake is recorded: `update_params`
/// with a change marks it dirty, `set_baked_sdf_id` records the new slot and clears the flag,
/// keeping the new parameters.
pub proof fn lemma_dirty_until_rebaked<P>(entries: Map<EntityId, TrackedEntity<P>>, id: EntityId, params: P, slot: u32)
    requires
        entries.contains_key(id),
    ensures
        ({
            let marked = entries.insert(id, TrackedEntity { params, baked_sdf_id: entries[id].baked_sdf_id, dirty: true });
            let rebaked = marked.insert(id, TrackedEntity { params: marked[id].params, baked_sdf_id: Some(slot), dirty: false });
            &&& dirty_ids(marked).contains(id)
            &&& !dirty_ids(rebaked).contains(id)
            &&& rebaked[id].baked_sdf_id == Some(slot)
            &&& rebaked[id].params == params
        }),
{
}

impl<P: Copy> RebakeTracker<P> {
    /// What the tracker knows, per entity.
    pub closed spec fn entries(&self) -> Map<EntityId, TrackedEntity<P>> {
        self.entities@
    }

    /// Tracks nothing.
    pub fn new() -> (tracker: RebakeTracker<P>)
        ensures
            tracker.entries() == Map::<EntityId, TrackedEntity<P>>::empty(),
    {
        RebakeTracker { entities: HashMap::new() }
    }

    /// Starts tracking an entity (replacing what was known of it), not dirty.
    pub fn register_entity(&mut self, entity_id: EntityId, params: P, baked_sdf_id: Option<u32>)
        ensures
            final(self).entries() == old(self).entries().insert(
                entity_id,
                TrackedEntity { params, baked_sdf_id, dirty: false },
            ),
    {
        self.entities.insert(entity_id, TrackedEntity { params, baked_sdf_id, dirty: false });
    }

    /// Records the slot of a finished bake and clears the dirty flag; untracked entities are
    /// ignored.
    pub fn set_baked_sdf_id(&mut self, entity_id: EntityId, baked_sdf_id: u32)
        ensures
            final(self).entries() == (if old(self).entries().contains_key(entity_id) {
                old(self).entries().insert(
                    entity_id,
                    TrackedEntity {
                        params: old(self).entries()[entity_id].params,
                        baked_sdf_id: Some(baked_sdf_id),
                        dirty: false,
                    },
                )
            } else {
                old(self).entries()
            }),
    {
        let current = match self.entities.get(&entity_id) {
            Some(t) => Some(*t),
            None => None,
        };
        if let Some(t) = current {
            self.entities.insert(entity_id, TrackedEntity { params: t.params, baked_sdf_id: Some(baked_sdf_id), dirty: false });
        }
    }

    /// Takes new shape parameters for an entity. `changed` is the caller's comparison of the
    /// new parameters with the stored ones (`true` when they differ beyond its tolerance).
    /// A tracked entity whose parameters changed gets them and is marked dirty, and `true` is
    /// returned; otherwise nothing changes and `false` is returned.
    pub fn update_params(&mut self, entity_id: EntityId, new_params: P, changed: bool) -> (marked: bool)
        ensures
            marked == (old(self).entries().contains_key(entity_id) && changed),
            final(self).entries() == (if marked {
                old(self).entries().insert(
                    entity_id,
                    TrackedEntity {
                        params: new_params,
                        baked_sdf_id: old(self).entries()[entity_id].baked_sdf_id,
                        dirty: true,
                    },
                )
            } else {
                old(self).entries()
            }),
    {
        let current = match self.entities.get(&entity_id) {
            Some(t) => Some(*t),
            None => None,
        };
        match current {
            Some(t) => {
                if changed {
                    self.entities.insert(entity_id, TrackedEntity { params: new_params, baked_sdf_id: t.baked_sdf_id, dirty: true });
                    true
                } else {
                    false
                }
            },
            None => false,
        }
    }

    /// Whether the entity is tracked and dirty.
    pub fn is_dirty(&self, entity_id: EntityId) -> (dirty: bool)
        ensures
            dirty == (self.entries().contains_key(entity_id) && self.entries()[entity_id].dirty),
    {
        match self.entities.get(&entity_id) {
            Some(t) => t.dirty,
            None => false,
        }
    }

    /// The dirty entities, each once, in no particular order; the dirty flags stay raised
    /// until the new bake lands (`set_baked_sdf_id`).
    pub fn take_dirty_entities(&self) -> (dirty: Vec<DirtyEntity<P>>)
        ensures
            forall|k: int| 0 <= k < dirty@.len() ==> {
                let d = #[trigger] dirty@[k];
                &&& self.entries().contains_key(d.entity_id)
                &&& self.entries()[d.entity_id].dirty
                &&& d == dirty_record(d.entity_id, self.entries()[d.entity_id])
            },
            forall|a: int, b: int| 0 <= a < b < dirty@.len() ==> dirty@[a].entity_id != dirty@[b].entity_id,
            forall|id: EntityId| self.entries().contains_key(id) && #[trigger] self.entries()[id].dirty ==>
                exists|k: int| 0 <= k < dirty@.len() && dirty@[k].entity_id == id,
    {
        let ids = map_keys(&self.entities);
        let mut dirty: Vec<DirtyEntity<P>> = Vec::new();
        let mut i: usize = 0;
        while i < ids.len()
            invariant
                i <= ids@.len(),
                ids@.no_duplicates(),
                ids@.to_set() == self.entries().dom(),
                forall|k: int| 0 <= k < dirty@.len() ==> {
                    let d = #[trigger] dirty@[k];
                    &&& ids@.take(i as int).contains(d.entity_id)
                    &&& self.entries().contains_key(d.entity_id)
                    &&& self.entries()[d.entity_id].dirty
                    &&& d == dirty_record(d.entity_id, self.entries()[d.entity_id])
                },
                forall|a: int, b: int| 0 <= a < b < dirty@.len() ==> dirty@[a].entity_id != dirty@[b].entity_id,
                forall|m: int| 0 <= m < i && #[trigger] self.entries()[ids@[m]].dirty ==>
                    exists|k: int| 0 <= k < dirty@.len() && dirty@[k].entity_id == ids@[m],
            decreases ids@.len() - i,
        {
            let id = ids[i];
            proof {
                assert(ids@.to_set().contains(id));
                assert(!ids@.take(i as int).contains(id)) by {
                    if ids@.take(i as int).contains(id) {
                        let m = choose|m: int| 0 <= m < i && ids@.take(i as int)[m] == id;
                        assert(ids@[m] == ids@[i as int]);
                    }
                }
            }
            let ghost before = dirty@;
            let entry = match self.entities.get(&id) {
                Some(t) => Some(*t),
                None => None,
            };
            if let Some(t) = entry {
                if t.dirty {
                    dirty.push(DirtyEntity { entity_id: id, params: t.params, old_sdf_id: t.baked_sdf_id });
                }
            }
            proof {
                assert(ids@.take(i + 1) =~= ids@.take(i as int).push(id));
                assert forall|k: int| 0 <= k < dirty@.len() implies ids@.take(i + 1).contains((#[trigger] dirty@[k]).entity_id) by {
                    if k < before.len() {
                        let m = choose|m: int| 0 <= m < i && ids@.take(i as int)[m] == before[k].entity_id;
                        assert(ids@.take(i + 1)[m] == before[k].entity_id);
                    } else {
                        assert(ids@.take(i + 1)[i as int] == id);
                    }
                }
                assert forall|a: int, b: int| 0 <= a < b < dirty@.len() implies dirty@[a].entity_id != dirty@[b].entity_id by {
                    if b >= before.len() {
                        assert(before[a] == dirty@[a]);
                        assert(ids@.take(i as int).contains(before[a].entity_id));
                    }
                }
                assert forall|m: int| 0 <= m < i + 1 && #[trigger] self.entries()[ids@[m]].dirty implies
                    exists|k: int| 0 <= k < dirty@.len() && dirty@[k].entity_id == ids@[m] by {
                    if m < i {
                        let k = choose|k: int| 0 <= k < before.len() && before[k].entity_id == ids@[m];
                        assert(dirty@[k] == before[k]);
                    } else {
                        assert(dirty@[dirty@.len() - 1].entity_id == id);
                    }
                }
            }
            i = i + 1;
        }
        proof {
            assert(ids@.take(ids@.len() as int) =~= ids@);
            assert forall|id: EntityId| self.entries().contains_key(id) && #[trigger] self.entries()[id].dirty implies
                exists|k: int| 0 <= k < dirty@.len() && dirty@[k].entity_id == id by {
                assert(ids@.to_set().contains(id));
                let m = choose|m: int| 0 <= m < ids@.len() && ids@[m] == id;
                assert(self.entries()[ids@[m]].dirty);
            }
        }
        dirty
    }

    /// Number of dirty entities.
    pub fn dirty_count(&self) -> (n: usize)
        ensures
            n == dirty_ids(self.entries()).len(),
    {
        let dirty = self.take_dirty_entities();
        proof {
            let ids = dirty@.map_values(|d: DirtyEntity<P>| d.entity_id);
            assert forall|a: int, b: int| 0 <= a < b < ids.len() implies ids[a] != ids[b] by {}
            assert(ids.no_duplicates());
            assert forall|id: EntityId| #[trigger] ids.to_set().contains(id) <==> dirty_ids(self.entries()).contains(id) by {
                if ids.contains(id) {
                    let k = choose|k: int| 0 <= k < ids.len() && ids[k] == id;
                    assert(dirty@[k].entity_id == id);
                }
                if dirty_ids(self.entries()).contains(id) {
                    assert(self.entries()[id].dirty);
                    let k = choose|k: int| 0 <= k < dirty@.len() && dirty@[k].entity_id == id;
                    assert(ids[k] == id);
                }
            }
            assert(ids.to_set() =~= dirty_ids(self.entries()));
            ids.unique_seq_to_set();
        }
        dirty.len()
    }

    /// Stops tracking the entity; returns the slot of its bake, to free.
    pub fn remove_entity(&mut self, entity_id: EntityId) -> (slot: Option<u32>)
        ensures
            final(self).entries() == old(self).entries().remove(entity_id),
            slot == (if old(self).entries().contains_key(entity_id) {
                old(self).entries()[entity_id].baked_sdf_id
            } else {
                None
            }),
    {
        match self.entities.remove(&entity_id) {
            Some(t) => t.baked_sdf_id,
            None => None,
        }
    }

    /// The shape parameters of the entity, if tracked.
    pub fn get_params(&self, entity_id: EntityId) -> (params: Option<P>)
        ensures
            params == (if self.entries().contains_key(entity_id) {
                Some(self.entries()[entity_id].params)
            } else {
                None
            }),
    {
        match self.entities.get(&entity_id) {
            Some(t) => Some(t.params),
            None => None,
        }
    }

    /// The slot of the entity's bake, if tracked and baked.
    pub fn get_baked_sdf_id(&self, entity_id: EntityId) -> (slot: Option<u32>)
        ensures
            slot == (if self.entries().contains_key(entity_id) {
                self.entries()[entity_id].baked_sdf_id
            } else {
                None
            }),
    {
        match self.entities.get(&entity_id) {
            Some(t) => t.baked_sdf_id,
            None => None,
        }
    }

    /// Stops tracking every entity; returns `(entity, slot)` for each entity that had a
    /// bake, each once, in no particular order.
    pub fn clear(&mut self) -> (to_free: Vec<(EntityId, u32)>)
        ensures
            final(self).entries() == Map::<EntityId, TrackedEntity<P>>::empty(),
            to_free@.no_duplicates(),
            forall|id: EntityId, slot: u32| #[trigger] to_free@.contains((id, slot)) <==> (
                old(self).entries().contains_key(id) && old(self).entries()[id].baked_sdf_id == Some(slot)),
    {
        let ids = map_keys(&self.entities);
        let mut to_free: Vec<(EntityId, u32)> = Vec::new();
        let mut i: usize = 0;
        while i < ids.len()
            invariant
                i <= ids@.len(),
                ids@.no_duplicates(),
                ids@.to_set() == self.entries().dom(),
                self.entries() == old(self).entries(),
                to_free@.no_duplicates(),
                forall|id: EntityId, slot: u32| #[trigger] to_free@.contains((id, slot)) <==> (
                    ids@.take(i as int).contains(id) && self.entries()[id].baked_sdf_id == Some(slot)),
            decreases ids@.len() - i,
        {
            let id = ids[i];
            proof {
                assert(ids@.to_set().contains(id));
                assert(!ids@.take(i as int).contains(id)) by {
                    if ids@.take(i as int).contains(id) {
                        let m = choose|m: int| 0 <= m < i && ids@.take(i as int)[m] == id;
                        assert(ids@[m] == ids@[i as int]);
                    }
                }
            }
            let ghost before = to_free@;
            let slot = match self.entities.get(&id) {
                Some(t) => t.baked_sdf_id,
                None => None,
            };
            if let Some(s) = slot {
                to_free.push((id, s));
            }
            proof {
                assert(ids@.take(i + 1) =~= ids@.take(i as int).push(id));
                assert forall|x: EntityId, sl: u32| #[trigger] to_free@.contains((x, sl)) <==> (
                    ids@.take(i + 1).contains(x) && self.entries()[x].baked_sdf_id == Some(sl)) by {
                    if to_free@.contains((x, sl)) {
                        let k = choose|k: int| 0 <= k < to_free@.len() && to_free@[k] == (x, sl);
                        if k < before.len() {
                            assert(before[k] == (x, sl));
                            assert(before.contains((x, sl)));
                            let m = choose|m: int| 0 <= m < i && ids@.take(i as int)[m] == x;
                            assert(ids@.take(i + 1)[m] == x);
                        } else {
                            assert(ids@.take(i + 1)[i as int] == x);
                        }
                    }
                    if ids@.take(i + 1).contains(x) && self.entries()[x].baked_sdf_id == Some(sl) {
                        let t = ids@.take(i + 1);
                        let m = choose|m: int| 0 <= m < t.len() && t[m] == x;
                        if m < i {
                            assert(ids@.take(i as int)[m] == x);
                            assert(before.contains((x, sl)));
                            let k = choose|k: int| 0 <= k < before.len() && before[k] == (x, sl);
                            assert(to_free@[k] == (x, sl));
                        } else {
                            assert(to_free@[to_free@.len() - 1] == (x, sl));
                        }
                    }
                }
                assert forall|a: int, b: int| 0 <= a < b < to_free@.len() implies to_free@[a] != to_free@[b] by {
                    if b >= before.len() {
                        assert(to_free@[a] == before[a]);
                        let (x, sl) = before[a];
                        assert(before.contains((x, sl)));
                        assert(ids@.take(i as int).contains(x));
                    }
                }
            }
            i = i + 1;
        }
        proof {
            assert(ids@.take(ids@.len() as int) =~= ids@);
            assert forall|id: EntityId, slot: u32| #[trigger] to_free@.contains((id, slot)) <==> (
                old(self).entries().contains_key(id) && old(self).entries()[id].baked_sdf_id == Some(slot)) by {
                assert(ids@.to_set().contains(id) == ids@.contains(id));
            }
        }
        self.entities.clear();
        to_free
    }

    /// Number of tracked entities.
    pub fn entity_count(&self) -> (n: usize)
        ensures
            n == self.entries().len(),
    {
        self.entities.len()
    }
}

} // verus!
