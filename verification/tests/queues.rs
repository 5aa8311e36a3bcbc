use battle_tok_render::bake_queue::{BakeOutcome, BakeQueue, BakeState};
use battle_tok_render::point_lights::{light_count_uniform, TorchList, MAX_POINT_LIGHTS};
use battle_tok_render::rebake_tracker::RebakeTracker;
use battle_tok_render::sdf_bake_dispatch::{DispatchOutcome, SdfBakeDispatcher, SDF_SLOT_VOXELS};

/// The bake parameters a test queues: what the engine's bake job carries.
#[allow(dead_code)]
#[derive(Clone, Copy, Debug, PartialEq)]
struct BakeJob {
    entity_id: u64,
    sdf_type: u32,
    position: [f32; 3],
    scale: [f32; 3],
    rotation: [f32; 4],
}

impl BakeJob {
    fn new(entity_id: u64, sdf_type: u32, position: [f32; 3], scale: [f32; 3], rotation: [f32; 4]) -> Self {
        BakeJob { entity_id, sdf_type, position, scale, rotation }
    }
}

const PARAM_EPSILON: f32 = 0.0001;

/// The shape parameters a test tracks, with the engine's tolerance comparison.
#[derive(Clone, Copy, Debug, PartialEq)]
struct ShapeParams {
    scale: [f32; 3],
    noise_amplitude: f32,
    noise_frequency: f32,
    noise_octaves: u32,
    sdf_type: u32,
}

impl ShapeParams {
    fn new(scale: [f32; 3], sdf_type: u32) -> Self {
        ShapeParams { scale, noise_amplitude: 0.0, noise_frequency: 1.0, noise_octaves: 4, sdf_type }
    }

    fn approx_eq(&self, other: &Self) -> bool {
        self.sdf_type == other.sdf_type
            && self.noise_octaves == other.noise_octaves
            && (0..3).all(|i| (self.scale[i] - other.scale[i]).abs() <= PARAM_EPSILON)
            && (self.noise_amplitude - other.noise_amplitude).abs() <= PARAM_EPSILON
            && (self.noise_frequency - other.noise_frequency).abs() <= PARAM_EPSILON
    }
}

fn update_params(tracker: &mut RebakeTracker<ShapeParams>, id: u64, new_params: ShapeParams) -> bool {
    let changed = match tracker.get_params(id) {
        Some(old) => !old.approx_eq(&new_params),
        None => false,
    };
    tracker.update_params(id, new_params, changed)
}

fn update_scale(tracker: &mut RebakeTracker<ShapeParams>, id: u64, scale: [f32; 3]) -> bool {
    match tracker.get_params(id) {
        Some(p) => update_params(tracker, id, ShapeParams { scale, ..p }),
        None => false,
    }
}

fn update_noise(tracker: &mut RebakeTracker<ShapeParams>, id: u64, amplitude: f32, frequency: f32, octaves: u32) -> bool {
    match tracker.get_params(id) {
        Some(p) => update_params(
            tracker,
            id,
            ShapeParams { noise_amplitude: amplitude, noise_frequency: frequency, noise_octaves: octaves, ..p },
        ),
        None => false,
    }
}

#[test]
fn test_bake_queue_basic() {
    let mut queue = BakeQueue::new();

    let id1 = queue.generate_entity_id();
    let id2 = queue.generate_entity_id();
    assert_eq!(id1, 1);
    assert_eq!(id2, 2);

    let job1 = BakeJob::new(id1, 0, [0.0, 0.0, 0.0], [1.0, 1.0, 1.0], [0.0, 0.0, 0.0, 1.0]);
    let job2 = BakeJob::new(id2, 1, [5.0, 0.0, 0.0], [2.0, 2.0, 2.0], [0.0, 0.0, 0.0, 1.0]);

    queue.queue_bake(job1.entity_id, job1);
    queue.queue_bake(job2.entity_id, job2);

    assert_eq!(queue.pending_count(), 2);
    assert!(queue.is_entity_pending(id1));
    assert!(queue.is_entity_pending(id2));
}

#[test]
fn test_queue_rebake() {
    let mut queue = BakeQueue::new();
    let entity_id = 42;
    let old_sdf_id = 10;

    let job = BakeJob::new(entity_id, 0, [0.0, 0.0, 0.0], [2.0, 2.0, 2.0], [0.0, 0.0, 0.0, 1.0]);
    queue.queue_rebake(entity_id, Some(old_sdf_id), job);

    assert_eq!(queue.pending_count(), 1);
    assert!(queue.is_entity_pending(entity_id));
    assert!(queue.has_pending_free(entity_id));
    assert_eq!(queue.get_pending_free(entity_id), Some(old_sdf_id));
}

#[test]
fn test_rebake_no_old_sdf() {
    let mut queue = BakeQueue::new();
    let job = BakeJob::new(42, 0, [0.0, 0.0, 0.0], [2.0, 2.0, 2.0], [0.0, 0.0, 0.0, 1.0]);
    queue.queue_rebake(42, None, job);

    assert!(!queue.has_pending_free(42));
    assert_eq!(queue.get_pending_free(42), None);
}

#[test]
fn test_pending_free_count() {
    let mut queue = BakeQueue::new();
    let job = |id: u64| BakeJob::new(id, 0, [0.0; 3], [1.0; 3], [0.0, 0.0, 0.0, 1.0]);
    queue.queue_rebake(1, Some(10), job(1));
    queue.queue_rebake(2, Some(20), job(2));
    queue.queue_rebake(3, None, job(3));

    assert_eq!(queue.pending_free_count(), 2);
}

#[test]
fn bake_queue_processes_first_in_first_out() {
    let mut queue: BakeQueue<u32> = BakeQueue::new();
    queue.queue_bake(7, 70);
    queue.queue_bake(8, 80);

    match queue.process_job(None) {
        BakeOutcome::Deferred => {},
        BakeOutcome::Baked { .. } => panic!("a job without a slot must be deferred"),
    }
    assert_eq!(queue.pending_count(), 2);
    assert_eq!(queue.get_state(7), Some(BakeState::Pending));

    match queue.process_job(Some(3)) {
        BakeOutcome::Baked { entity_id, job, slot, freed_old } => {
            assert_eq!((entity_id, job, slot, freed_old), (7, 70, 3, None));
        },
        BakeOutcome::Deferred => panic!("a job with a slot must be baked"),
    }
    assert_eq!(queue.pending_count(), 1);
    assert_eq!(queue.get_state(7), Some(BakeState::Transitioning { baked_sdf_id: 3 }));
    assert_eq!(queue.get_baked_sdf_id(7), Some(3));
    assert!(!queue.is_entity_pending(7));
    assert!(queue.is_entity_pending(8));
    assert_eq!(queue.transitioning_entities(), vec![7]);

    queue.complete_transition(7);
    assert_eq!(queue.get_state(7), Some(BakeState::Baked { baked_sdf_id: 3 }));
    assert_eq!(queue.get_baked_sdf_id(7), Some(3));
    assert!(queue.transitioning_entities().is_empty());
}

#[test]
fn rebake_frees_old_slot_only_when_new_bake_lands() {
    let mut queue: BakeQueue<u32> = BakeQueue::new();
    queue.queue_bake(5, 1);
    if let BakeOutcome::Deferred = queue.process_job(Some(10)) {
        panic!("a job with a slot must be baked");
    }
    queue.complete_transition(5);

    queue.queue_rebake(5, Some(10), 2);
    assert_eq!(queue.get_pending_free(5), Some(10));
    assert_eq!(queue.get_baked_sdf_id(5), None);

    match queue.process_job(Some(11)) {
        BakeOutcome::Baked { entity_id, job, slot, freed_old } => {
            assert_eq!((entity_id, job, slot, freed_old), (5, 2, 11, Some(10)));
        },
        BakeOutcome::Deferred => panic!("a job with a slot must be baked"),
    }
    assert!(!queue.has_pending_free(5));
    assert_eq!(queue.pending_free_count(), 0);
    assert_eq!(queue.get_baked_sdf_id(5), Some(11));
}

#[test]
fn free_entity_returns_held_and_waiting_slots() {
    let mut queue: BakeQueue<u32> = BakeQueue::new();
    queue.queue_bake(1, 100);
    queue.queue_bake(2, 200);
    if let BakeOutcome::Deferred = queue.process_job(Some(4)) {
        panic!("a job with a slot must be baked");
    }
    // Entity 1 holds slot 4; a re-bake is queued with slot 4 waiting to be freed.
    queue.queue_rebake(1, Some(4), 101);
    assert_eq!(queue.pending_count(), 2);

    let freed = queue.free_entity(1);
    assert_eq!(freed, vec![4]);
    assert_eq!(queue.get_state(1), None);
    assert!(!queue.has_pending_free(1));
    // Only entity 2's job remains.
    assert_eq!(queue.pending_count(), 1);
    match queue.process_job(Some(9)) {
        BakeOutcome::Baked { entity_id, job, .. } => assert_eq!((entity_id, job), (2, 200)),
        BakeOutcome::Deferred => panic!("a job with a slot must be baked"),
    }

    // A baked entity with no re-bake frees just its slot; an unknown one frees nothing.
    assert_eq!(queue.free_entity(2), vec![9]);
    assert!(queue.free_entity(77).is_empty());
}

#[test]
fn clear_returns_every_slot() {
    let mut queue: BakeQueue<u32> = BakeQueue::new();
    queue.queue_bake(1, 0);
    queue.queue_bake(2, 0);
    queue.queue_bake(3, 0);
    for slot in [20, 21] {
        if let BakeOutcome::Deferred = queue.process_job(Some(slot)) {
            panic!("a job with a slot must be baked");
        }
    }
    queue.queue_rebake(2, Some(21), 0);

    let mut freed = queue.clear();
    freed.sort();
    assert_eq!(freed, vec![20, 21]);
    assert_eq!(queue.pending_count(), 0);
    assert_eq!(queue.pending_free_count(), 0);
    assert_eq!(queue.get_state(1), None);
    assert_eq!(queue.get_state(3), None);
}

#[test]
fn test_tracker_register_entity() {
    let mut tracker = RebakeTracker::new();
    let params = ShapeParams::new([1.0, 1.0, 1.0], 0);

    tracker.register_entity(1, params, None);
    assert_eq!(tracker.entity_count(), 1);
    assert!(!tracker.is_dirty(1));
    assert_eq!(tracker.get_params(1), Some(params));
    assert_eq!(tracker.get_baked_sdf_id(1), None);
}

#[test]
fn test_tracker_set_baked_sdf_id() {
    let mut tracker = RebakeTracker::new();
    let params = ShapeParams::new([1.0, 1.0, 1.0], 0);

    tracker.register_entity(1, params, None);
    tracker.set_baked_sdf_id(1, 42);
    assert_eq!(tracker.get_baked_sdf_id(1), Some(42));
}

#[test]
fn test_tracker_update_params_dirty() {
    let mut tracker = RebakeTracker::new();
    let params = ShapeParams::new([1.0, 1.0, 1.0], 0);

    tracker.register_entity(1, params, Some(10));
    assert!(!tracker.is_dirty(1));

    let new_params = ShapeParams::new([2.0, 2.0, 2.0], 0);
    let became_dirty = update_params(&mut tracker, 1, new_params);
    assert!(became_dirty);
    assert!(tracker.is_dirty(1));
    assert_eq!(tracker.dirty_count(), 1);

    let same_became_dirty = update_params(&mut tracker, 1, new_params);
    assert!(!same_became_dirty);
    assert!(tracker.is_dirty(1));
}

#[test]
fn test_tracker_update_scale() {
    let mut tracker = RebakeTracker::new();
    let params = ShapeParams::new([1.0, 1.0, 1.0], 0);

    tracker.register_entity(1, params, Some(10));

    let became_dirty = update_scale(&mut tracker, 1, [2.0, 2.0, 2.0]);
    assert!(became_dirty);
    assert!(tracker.is_dirty(1));
}

#[test]
fn test_tracker_update_noise() {
    let mut tracker = RebakeTracker::new();
    let params = ShapeParams::new([1.0, 1.0, 1.0], 0);

    tracker.register_entity(1, params, Some(10));

    let became_dirty = update_noise(&mut tracker, 1, 0.5, 3.0, 8);
    assert!(became_dirty);
    assert!(tracker.is_dirty(1));

    let stored = tracker.get_params(1).unwrap();
    assert_eq!(stored.noise_amplitude, 0.5);
    assert_eq!(stored.noise_frequency, 3.0);
    assert_eq!(stored.noise_octaves, 8);
}

#[test]
fn test_tracker_take_dirty_entities() {
    let mut tracker = RebakeTracker::new();

    tracker.register_entity(1, ShapeParams::new([1.0, 1.0, 1.0], 0), Some(10));
    tracker.register_entity(2, ShapeParams::new([1.0, 1.0, 1.0], 1), Some(20));
    tracker.register_entity(3, ShapeParams::new([1.0, 1.0, 1.0], 2), Some(30));

    update_scale(&mut tracker, 1, [2.0, 2.0, 2.0]);
    update_noise(&mut tracker, 3, 0.1, 2.0, 4);

    assert_eq!(tracker.dirty_count(), 2);

    let dirty = tracker.take_dirty_entities();
    assert_eq!(dirty.len(), 2);

    let e1 = dirty.iter().find(|e| e.entity_id == 1).unwrap();
    assert_eq!(e1.old_sdf_id, Some(10));
    assert_eq!(e1.params.scale, [2.0, 2.0, 2.0]);

    let e3 = dirty.iter().find(|e| e.entity_id == 3).unwrap();
    assert_eq!(e3.old_sdf_id, Some(30));
    assert_eq!(e3.params.noise_amplitude, 0.1);

    assert!(tracker.is_dirty(1));
    assert!(tracker.is_dirty(3));
}

#[test]
fn test_tracker_clear_dirty_after_rebake() {
    let mut tracker = RebakeTracker::new();

    tracker.register_entity(1, ShapeParams::new([1.0, 1.0, 1.0], 0), Some(10));
    update_scale(&mut tracker, 1, [2.0, 2.0, 2.0]);
    assert!(tracker.is_dirty(1));

    tracker.set_baked_sdf_id(1, 11);
    assert!(!tracker.is_dirty(1));
    assert_eq!(tracker.get_baked_sdf_id(1), Some(11));
}

#[test]
fn test_tracker_remove_entity() {
    let mut tracker = RebakeTracker::new();

    tracker.register_entity(1, ShapeParams::new([1.0, 1.0, 1.0], 0), Some(10));
    assert_eq!(tracker.entity_count(), 1);

    let old_sdf = tracker.remove_entity(1);
    assert_eq!(old_sdf, Some(10));
    assert_eq!(tracker.entity_count(), 0);
}

#[test]
fn test_tracker_clear() {
    let mut tracker = RebakeTracker::new();

    tracker.register_entity(1, ShapeParams::new([1.0, 1.0, 1.0], 0), Some(10));
    tracker.register_entity(2, ShapeParams::new([1.0, 1.0, 1.0], 1), Some(20));
    tracker.register_entity(3, ShapeParams::new([1.0, 1.0, 1.0], 2), None);

    let to_free = tracker.clear();
    assert_eq!(to_free.len(), 2);
    assert!(to_free.contains(&(1, 10)));
    assert!(to_free.contains(&(2, 20)));
    assert_eq!(tracker.entity_count(), 0);
}

#[test]
fn test_position_rotation_do_not_affect_dirty() {
    let mut tracker = RebakeTracker::new();
    let params = ShapeParams::new([1.0, 1.0, 1.0], 0);

    tracker.register_entity(1, params, Some(10));
    assert!(!tracker.is_dirty(1));

    update_scale(&mut tracker, 1, [2.0, 2.0, 2.0]);
    assert!(tracker.is_dirty(1));
}

#[test]
fn untracked_entity_is_never_marked() {
    let mut tracker: RebakeTracker<u32> = RebakeTracker::new();
    assert!(!tracker.update_params(9, 1, true));
    assert!(!tracker.is_dirty(9));
    assert_eq!(tracker.entity_count(), 0);
    tracker.set_baked_sdf_id(9, 3);
    assert_eq!(tracker.get_baked_sdf_id(9), None);
    assert_eq!(tracker.remove_entity(9), None);
}

#[test]
fn test_dispatcher_queue() {
    let mut dispatcher = SdfBakeDispatcher::new();
    let params = BakeJob::new(42, 0, [0.0, 0.0, 0.0], [1.0, 1.0, 1.0], [0.0, 0.0, 0.0, 1.0]);

    dispatcher.queue_bake(42, params);
    assert_eq!(dispatcher.pending_count(), 1);
    assert!(dispatcher.fallback_state().uses_equation_fallback(42));
}

#[test]
fn dispatcher_hands_out_brick_offset_of_slot() {
    let mut dispatcher: SdfBakeDispatcher<u8> = SdfBakeDispatcher::new();
    dispatcher.queue_bake(1, 11);
    dispatcher.queue_bake(2, 22);

    match dispatcher.dispatch_next(None) {
        DispatchOutcome::Deferred => {},
        DispatchOutcome::Dispatched { .. } => panic!("no slot, no dispatch"),
    }
    assert!(dispatcher.uses_equation_fallback(1));

    match dispatcher.dispatch_next(Some(3)) {
        DispatchOutcome::Dispatched { entity_id, params, slot, brick_offset } => {
            assert_eq!((entity_id, params, slot), (1, 11, 3));
            assert_eq!(brick_offset, 3 * SDF_SLOT_VOXELS);
            assert_eq!(brick_offset, 786_432);
        },
        DispatchOutcome::Deferred => panic!("a slot was given"),
    }
    assert!(!dispatcher.uses_equation_fallback(1));
    assert!(dispatcher.uses_equation_fallback(2));
    assert_eq!(dispatcher.pending_count(), 1);
}

#[test]
fn torch_list_holds_at_most_sixteen() {
    let mut torches: TorchList<u32> = TorchList::new();
    for i in 0..MAX_POINT_LIGHTS {
        assert_eq!(torches.add(i as u32), Some(i));
    }
    assert!(torches.is_full());
    assert_eq!(torches.add(99), None);
    assert_eq!(torches.len(), MAX_POINT_LIGHTS);

    assert!(torches.remove(0));
    assert_eq!(torches.get(0), Some(&1));
    assert_eq!(torches.len(), MAX_POINT_LIGHTS - 1);
    assert!(!torches.remove(MAX_POINT_LIGHTS));

    assert!(torches.set(2, 50));
    assert_eq!(torches.get(2), Some(&50));
    assert!(!torches.set(40, 1));
    assert_eq!(torches.get(40), None);

    torches.clear();
    assert_eq!(torches.len(), 0);
    assert!(!torches.is_full());
}

#[test]
fn light_count_uniform_pads_count() {
    assert_eq!(light_count_uniform(3), [3, 0, 0, 0]);
    assert_eq!(light_count_uniform(0), [0, 0, 0, 0]);
}

#[test]
fn test_frame_bake_cap() {
    let mut queue: BakeQueue<u32> = BakeQueue::new();
    assert!(!queue.wants_another_bake(0));
    for id in 1..=7u64 {
        queue.queue_bake(id, id as u32);
    }
    let mut baked = 0;
    let mut slot = 0u32;
    while queue.wants_another_bake(baked) {
        match queue.process_job(Some(slot)) {
            BakeOutcome::Baked { .. } => baked += 1,
            BakeOutcome::Deferred => break,
        }
        slot += 1;
    }
    assert_eq!(baked, 5);
    assert_eq!(queue.pending_count(), 2);
    assert!(queue.wants_another_bake(0));
    assert!(!queue.wants_another_bake(5));
}

#[test]
fn test_frame_dispatch_cap() {
    let mut dispatcher: SdfBakeDispatcher<u32> = SdfBakeDispatcher::new();
    assert!(!dispatcher.wants_another_dispatch(0));
    dispatcher.queue_bake(1, 10);
    assert!(dispatcher.wants_another_dispatch(4));
    assert!(!dispatcher.wants_another_dispatch(5));
}
