//! Face directions, modes and the selection and drag state of the sculpting tools.
//!
//! Geometry (ray tests, face centres and normals, drag distances) is floating point and is
//! the caller's; this module keeps what is selected, what the tool is doing, and which blocks
//! an extrusion has created.

use vstd::prelude::*;

verus! {

/// The six faces of a box-like block.
#[derive(Copy, Clone, Debug, PartialEq, Eq, Structural)]
pub enum FaceDirection {
    PositiveX,
    NegativeX,
    PositiveY,
    NegativeY,
    PositiveZ,
    NegativeZ,
}

/// The face on the other side of the block.
pub open spec fn spec_opposite(f: FaceDirection) -> FaceDirection {
    match f {
        FaceDirection::PositiveX => FaceDirection::NegativeX,
        FaceDirection::NegativeX => FaceDirection::PositiveX,
        FaceDirection::PositiveY => FaceDirection::NegativeY,
        FaceDirection::NegativeY => FaceDirection::PositiveY,
        FaceDirection::PositiveZ => FaceDirection::NegativeZ,
        FaceDirection::NegativeZ => FaceDirection::PositiveZ,
    }
}

/// The axis a face is perpendicular to: 0 for x, 1 for y, 2 for z.
pub open spec fn face_axis(f: FaceDirection) -> int {
    match f {
        FaceDirection::PositiveX | FaceDirection::NegativeX => 0,
        FaceDirection::PositiveY | FaceDirection::NegativeY => 1,
        FaceDirection::PositiveZ | FaceDirection::NegativeZ => 2,
    }
}

/// The six faces in the order +x, -x, +y, -y, +z, -z.
pub open spec fn spec_all_faces() -> Seq<FaceDirection> {
    seq![
        FaceDirection::PositiveX,
        FaceDirection::NegativeX,
        FaceDirection::PositiveY,
        FaceDirection::NegativeY,
        FaceDirection::PositiveZ,
        FaceDirection::NegativeZ,
    ]
}

impl FaceDirection {
    /// The six faces in the order +x, -x, +y, -y, +z, -z.
    pub fn all() -> (faces: [FaceDirection; 6])
        ensures
            faces@ == spec_all_faces(),
    {
        let faces = [
            FaceDirection::PositiveX,
            FaceDirection::NegativeX,
            FaceDirection::PositiveY,
            FaceDirection::NegativeY,
            FaceDirection::PositiveZ,
            FaceDirection::NegativeZ,
        ];
        assert(faces@ =~= spec_all_faces());
        faces
    }

    /// The face on the other side of the block.
    pub fn opposite(&self) -> (face: FaceDirection)
        ensures
            face == spec_opposite(*self),
    {
        match self {
            FaceDirection::PositiveX => FaceDirection::NegativeX,
            FaceDirection::NegativeX => FaceDirection::PositiveX,
            FaceDirection::PositiveY => FaceDirection::NegativeY,
            FaceDirection::NegativeY => FaceDirection::PositiveY,
            FaceDirection::PositiveZ => FaceDirection::NegativeZ,
            FaceDirection::NegativeZ => FaceDirection::PositiveZ,
        }
    }
}

/// Taking the opposite face twice gives the face back; the opposite face is another face on
/// the same axis.
pub proof fn lemma_opposite_involution(f: FaceDirection)
    ensures
        spec_opposite(spec_opposite(f)) == f,
        spec_opposite(f) != f,
        face_axis(spec_opposite(f)) == face_axis(f),
{
}

/// `all` lists every face exactly once.
pub proof fn lemma_all_faces_complete(f: FaceDirection)
    ensures
        spec_all_faces().contains(f),
        forall|i: int, j: int| 0 <= i < j < 6 ==> spec_all_faces()[i] != spec_all_faces()[j],
{
    let all = spec_all_faces();
    match f {
        FaceDirection::PositiveX => assert(all[0] == f),
        FaceDirection::NegativeX => assert(all[1] == f),
        FaceDirection::PositiveY => assert(all[2] == f),
        FaceDirection::NegativeY => assert(all[3] == f),
        FaceDirection::PositiveZ => assert(all[4] == f),
        FaceDirection::NegativeZ => assert(all[5] == f),
    }
}

/// What dragging does.
#[derive(Copy, Clone, Debug, PartialEq, Eq, Structural)]
pub enum SculptMode {
    /// Extrude faces (the default).
    Extrude,
    /// Pull edges.
    PullEdge,
    /// Pull vertices.
    PullVertex,
}

impl Default for SculptMode {
    /// Face extrusion.
    fn default() -> (mode: SculptMode)
        ensures
            mode == SculptMode::Extrude,
    {
        SculptMode::Extrude
    }
}

/// What the sculpting tool is doing.
#[derive(Copy, Clone, Debug, PartialEq, Eq, Structural)]
pub enum SculptState {
    /// Nothing in progress.
    Idle,
    /// An element is selected.
    Selecting,
    /// A drag (extrusion or pull) is in progress.
    Dragging,
}

impl Default for SculptState {
    /// Nothing in progress.
    fn default() -> (state: SculptState)
        ensures
            state == SculptState::Idle,
    {
        SculptState::Idle
    }
}

/// The selected element of a block.
#[derive(Copy, Clone, Debug, PartialEq, Eq, Structural)]
pub enum SelectionType {
    /// Nothing selected.
    Nothing,
    /// A face of block `block_id`.
    Face { block_id: u32, direction: FaceDirection },
    /// Edge `edge_index` of block `block_id`.
    Edge { block_id: u32, edge_index: u8 },
    /// Vertex `vertex_index` of block `block_id`.
    Vertex { block_id: u32, vertex_index: u8 },
}

impl Default for SelectionType {
    /// Nothing selected.
    fn default() -> (selection: SelectionType)
        ensures
            selection == SelectionType::Nothing,
    {
        SelectionType::Nothing
    }
}

/// The state of the sculpting tools: whether they are enabled, the mode, the selection, what
/// is in progress, the material of new blocks, and the blocks created by the extrusion in
/// progress, one per step, in order.
pub struct SculptingManager {
    mode: SculptMode,
    state: SculptState,
    selection: SelectionType,
    active_extrusion: Option<Vec<u32>>,
    default_material: u8,
    enabled: bool,
}

/// The state of a `SculptingManager`.
pub struct SculptModel {
    pub mode: SculptMode,
    pub state: SculptState,
    pub selection: SelectionType,
    /// The blocks created by the extrusion in progress, if one is.
    pub extrusion: Option<Seq<u32>>,
    pub material: u8,
    pub enabled: bool,
}

/// `m` after a cancel: idle, nothing selected, no extrusion.
pub open spec fn cancelled(m: SculptModel) -> SculptModel {
    SculptModel { state: SculptState::Idle, selection: SelectionType::Nothing, extrusion: None, ..m }
}

impl View for SculptingManager {
    type V = SculptModel;

    closed spec fn view(&self) -> SculptModel {
        SculptModel {
            mode: self.mode,
            state: self.state,
            selection: self.selection,
            extrusion: match self.active_extrusion {
                Some(v) => Some(v@),
                None => None,
            },
            material: self.default_material,
            enabled: self.enabled,
        }
    }
}

impl SculptingManager {
    /// Disabled, extruding faces, idle, nothing selected, material 0.
    pub fn new() -> (manager: SculptingManager)
        ensures
            manager@ == (SculptModel {
                mode: SculptMode::Extrude,
                state: SculptState::Idle,
                selection: SelectionType::Nothing,
                extrusion: None,
                material: 0,
                enabled: false,
            }),
    {
        SculptingManager {
            mode: SculptMode::Extrude,
            state: SculptState::Idle,
            selection: SelectionType::Nothing,
            active_extrusion: None,
            default_material: 0,
            enabled: false,
        }
    }

    /// Enables or disables the tools; disabling cancels what is in progress.
    pub fn set_enabled(&mut self, enabled: bool)
        ensures
            final(self)@ == (if enabled {
                SculptModel { enabled: true, ..old(self)@ }
            } else {
                cancelled(SculptModel { enabled: false, ..old(self)@ })
            }),
    {
        self.enabled = enabled;
        if !enabled {
            self.cancel();
        }
    }

    /// Whether the tools are enabled.
    pub fn is_enabled(&self) -> (enabled: bool)
        ensures
            enabled == self@.enabled,
    {
        self.enabled
    }

    /// Switches the mode; switching to another mode cancels what is in progress.
    pub fn set_mode(&mut self, mode: SculptMode)
        ensures
            final(self)@ == (if mode != old(self)@.mode {
                cancelled(SculptModel { mode, ..old(self)@ })
            } else {
                old(self)@
            }),
    {
        if self.mode != mode {
            self.cancel();
            self.mode = mode;
        }
    }

    /// The mode.
    pub fn mode(&self) -> (mode: SculptMode)
        ensures
            mode == self@.mode,
    {
        self.mode
    }

    /// What is in progress.
    pub fn state(&self) -> (state: SculptState)
        ensures
            state == self@.state,
    {
        self.state
    }

    /// The selection.
    pub fn selection(&self) -> (selection: SelectionType)
        ensures
            selection == self@.selection,
    {
        self.selection
    }

    /// Sets the material of the blocks an extrusion creates.
    pub fn set_material(&mut self, material: u8)
        ensures
            final(self)@ == (SculptModel { material, ..old(self)@ }),
    {
        self.default_material = material;
    }

    /// The material of the blocks an extrusion creates.
    pub fn material(&self) -> (material: u8)
        ensures
            material == self@.material,
    {
        self.default_material
    }

    /// Selects the face that the caller's ray test hit first (`hit`: block and face), when the
    /// tools are enabled in extrude mode; returns whether a face was selected. Nothing changes
    /// when it returns false.
    pub fn try_select_face(&mut self, hit: Option<(u32, FaceDirection)>) -> (selected: bool)
        ensures
            selected == (old(self)@.enabled && old(self)@.mode == SculptMode::Extrude && hit is Some),
            final(self)@ == (match hit {
                Some((block_id, direction)) if selected => SculptModel {
                    selection: SelectionType::Face { block_id, direction },
                    state: SculptState::Selecting,
                    ..old(self)@
                },
                _ => old(self)@,
            }),
    {
        if !self.enabled || self.mode != SculptMode::Extrude {
            return false;
        }
        match hit {
            Some((block_id, direction)) => {
                self.selection = SelectionType::Face { block_id, direction };
                self.state = SculptState::Selecting;
                true
            },
            None => false,
        }
    }

    /// Starts a drag. With a face selected it starts an extrusion, when the caller found the
    /// face's block and it can be extruded (`extrudable`); with an edge or a vertex selected it
    /// starts a pull. Returns whether a drag started; nothing changes when it did not.
    pub fn start_drag(&mut self, extrudable: bool) -> (started: bool)
        ensures
            started == (old(self)@.enabled && match old(self)@.selection {
                SelectionType::Nothing => false,
                SelectionType::Face { .. } => extrudable,
                _ => true,
            }),
            final(self)@ == (if !started {
                old(self)@
            } else if old(self)@.selection is Face {
                SculptModel { state: SculptState::Dragging, extrusion: Some(Seq::empty()), ..old(self)@ }
            } else {
                SculptModel { state: SculptState::Dragging, ..old(self)@ }
            }),
    {
        if !self.enabled {
            return false;
        }
        match self.selection {
            SelectionType::Face { .. } => {
                if extrudable {
                    self.active_extrusion = Some(Vec::new());
                    self.state = SculptState::Dragging;
                    proof {
                        assert(self@.extrusion == Some(Seq::<u32>::empty()));
                    }
                    true
                } else {
                    false
                }
            },
            SelectionType::Edge { .. } | SelectionType::Vertex { .. } => {
                self.state = SculptState::Dragging;
                true
            },
            SelectionType::Nothing => false,
        }
    }

    /// How many more steps the extrusion in progress needs to reach `target_steps` (the
    /// drag distance in whole steps); 0 when none is in progress or the tools are disabled.
    pub fn missing_steps(&self, target_steps: usize) -> (n: usize)
        ensures
            n == (match self@.extrusion {
                Some(steps) if self@.enabled && self@.state == SculptState::Dragging && steps.len() < target_steps =>
                    (target_steps - steps.len()) as usize,
                _ => 0usize,
            }),
    {
        if !self.enabled {
            return 0;
        }
        match self.state {
            SculptState::Dragging => {},
            _ => return 0,
        }
        match &self.active_extrusion {
            Some(steps) => {
                if steps.len() < target_steps {
                    target_steps - steps.len()
                } else {
                    0
                }
            },
            None => 0,
        }
    }

    /// Records the block created for the next step of the extrusion in progress; without one
    /// nothing changes.
    pub fn push_step(&mut self, block_id: u32)
        ensures
            final(self)@ == (match old(self)@.extrusion {
                Some(steps) => SculptModel { extrusion: Some(steps.push(block_id)), ..old(self)@ },
                None => old(self)@,
            }),
    {
        match self.active_extrusion.take() {
            Some(mut steps) => {
                steps.push(block_id);
                self.active_extrusion = Some(steps);
            },
            None => {},
        }
    }

    /// Takes back the steps of the extrusion in progress beyond `target_steps` (the drag got
    /// shorter), last first; returns their blocks, to remove. Returns nothing when the tools
    /// are disabled, no drag is in progress, or no extrusion is.
    pub fn retract_steps(&mut self, target_steps: usize) -> (removed: Vec<u32>)
        ensures
            match old(self)@.extrusion {
                Some(steps) if old(self)@.enabled && old(self)@.state == SculptState::Dragging && steps.len() > target_steps => {
                    &&& final(self)@ == (SculptModel { extrusion: Some(steps.take(target_steps as int)), ..old(self)@ })
                    &&& removed@ == steps.skip(target_steps as int).reverse()
                },
                _ => final(self)@ == old(self)@ && removed@.len() == 0,
            },
    {
        let mut removed: Vec<u32> = Vec::new();
        if !self.enabled {
            return removed;
        }
        match self.state {
            SculptState::Dragging => {},
            _ => return removed,
        }
        match self.active_extrusion.take() {
            Some(mut steps) => {
                let ghost all = steps@;
                while steps.len() > target_steps
                    invariant
                        target_steps <= steps@.len() <= all.len() || (steps@.len() <= target_steps && steps@ == all),
                        steps@ == all.take(steps@.len() as int),
                        removed@ == all.skip(steps@.len() as int).reverse(),
                    decreases steps@.len(),
                {
                    let ghost before = steps@;
                    match steps.pop() {
                        Some(id) => {
                            removed.push(id);
                            proof {
                                assert(steps@ =~= all.take(steps@.len() as int));
                                assert(all.skip(steps@.len() as int) =~= seq![id] + all.skip(before.len() as int));
                                assert(removed@ =~= all.skip(steps@.len() as int).reverse());
                            }
                        },
                        None => {},
                    }
                }
                proof {
                    if all.len() <= target_steps {
                        assert(steps@ == all);
                        assert(all.skip(all.len() as int) =~= Seq::<u32>::empty());
                    } else {
                        assert(steps@.len() == target_steps);
                    }
                }
                self.active_extrusion = Some(steps);
                proof {
                    if all.len() <= target_steps {
                        assert(all.take(all.len() as int) =~= all);
                    }
                }
            },
            None => {},
        }
        removed
    }

    /// Ends the drag: the tools go idle (the selection stays) and the blocks the extrusion
    /// created, in order, are returned.
    pub fn end_drag(&mut self) -> (created: Vec<u32>)
        ensures
            final(self)@ == (SculptModel { state: SculptState::Idle, extrusion: None, ..old(self)@ }),
            created@ == (match old(self)@.extrusion {
                Some(steps) => steps,
                None => Seq::empty(),
            }),
    {
        self.state = SculptState::Idle;
        match self.active_extrusion.take() {
            Some(steps) => steps,
            None => Vec::new(),
        }
    }

    /// Cancels what is in progress: idle, nothing selected, no extrusion (its blocks stay).
    pub fn cancel(&mut self)
        ensures
            final(self)@ == cancelled(old(self)@),
    {
        self.state = SculptState::Idle;
        self.selection = SelectionType::Nothing;
        self.active_extrusion = None;
    }

    /// Cancels what is in progress and returns the blocks the extrusion created, to remove.
    pub fn cancel_with_cleanup(&mut self) -> (created: Vec<u32>)
        ensures
            final(self)@ == cancelled(old(self)@),
            created@ == (match old(self)@.extrusion {
                Some(steps) => steps,
                None => Seq::empty(),
            }),
    {
        let created = match self.active_extrusion.take() {
            Some(steps) => steps,
            None => Vec::new(),
        };
        self.cancel();
        created
    }

    /// Whether an extrusion is in progress.
    pub fn has_active_extrusion(&self) -> (active: bool)
        ensures
            active == self@.extrusion is Some,
    {
        self.active_extrusion.is_some()
    }

    /// Number of steps of the extrusion in progress (0 without one).
    pub fn extrusion_step_count(&self) -> (n: usize)
        ensures
            n == (match self@.extrusion {
                Some(steps) => steps.len(),
                None => 0,
            }),
    {
        match &self.active_extrusion {
            Some(steps) => steps.len(),
            None => 0,
        }
    }
}

impl Default for SculptingManager {
    /// Disabled, extruding faces, idle, nothing selected, material 0.
    fn default() -> (manager: SculptingManager)
        ensures
            manager@ == (SculptModel {
                mode: SculptMode::Extrude,
                state: SculptState::Idle,
                selection: SelectionType::Nothing,
                extrusion: None,
                material: 0,
                enabled: false,
            }),
    {
        SculptingManager::new()
    }
}

} // verus!
