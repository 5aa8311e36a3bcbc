//! Checks of bind group layouts against the bindings that the shaders declare.
//!
//! The expected bindings below are the reference: they restate the WGSL declarations. A
//! layout is compared with them binding number by binding number; each expected binding that
//! is missing or has another type, and each layout binding that no shader expects, is one
//! mismatch.

use vstd::prelude::*;

verus! {

/// The kind of buffer a layout entry binds.
#[derive(Copy, Clone, Debug, PartialEq, Eq, Structural)]
pub enum BufferBindingKind {
    /// A uniform buffer.
    Uniform,
    /// A storage buffer, read-only or read-write.
    Storage { read_only: bool },
}

/// What a bind group layout entry binds, as far as the validator looks at it.
#[derive(Copy, Clone, Debug, PartialEq, Eq, Structural)]
pub enum LayoutBindingType {
    /// A buffer.
    Buffer(BufferBindingKind),
    /// A sampler.
    Sampler,
    /// A sampled texture; `cube` when its view dimension is a cube.
    Texture { cube: bool },
    /// Anything else (storage textures, acceleration structures, ...).
    Other,
}

/// One entry of a bind group layout: its binding number and what it binds.
#[derive(Copy, Clone, Debug)]
pub struct LayoutEntry {
    /// Binding number.
    pub binding: u32,
    /// What is bound there.
    pub ty: LayoutBindingType,
}

/// The binding types that the shaders declare.
#[derive(Copy, Clone, Debug, PartialEq, Eq, Structural)]
pub enum ExpectedBindingType {
    UniformBuffer,
    StorageBufferReadOnly,
    StorageBufferReadWrite,
    TextureCube,
    Sampler,
}

/// Words for messages about a binding type.
pub open spec fn spec_description(t: ExpectedBindingType) -> &'static str {
    match t {
        ExpectedBindingType::UniformBuffer => "uniform buffer",
        ExpectedBindingType::StorageBufferReadOnly => "storage buffer (read-only)",
        ExpectedBindingType::StorageBufferReadWrite => "storage buffer (read-write)",
        ExpectedBindingType::TextureCube => "texture cube",
        ExpectedBindingType::Sampler => "sampler",
    }
}

impl ExpectedBindingType {
    /// Words for messages.
    pub fn description(&self) -> (words: &'static str)
        ensures
            words == spec_description(*self),
    {
        match self {
            ExpectedBindingType::UniformBuffer => "uniform buffer",
            ExpectedBindingType::StorageBufferReadOnly => "storage buffer (read-only)",
            ExpectedBindingType::StorageBufferReadWrite => "storage buffer (read-write)",
            ExpectedBindingType::TextureCube => "texture cube",
            ExpectedBindingType::Sampler => "sampler",
        }
    }
}

/// The type a layout entry counts as: buffers by their kind, cube textures and samplers as
/// such, and everything else (other textures included) as a uniform buffer.
pub open spec fn classify(ty: LayoutBindingType) -> ExpectedBindingType {
    match ty {
        LayoutBindingType::Buffer(BufferBindingKind::Uniform) => ExpectedBindingType::UniformBuffer,
        LayoutBindingType::Buffer(BufferBindingKind::Storage { read_only }) => if read_only {
            ExpectedBindingType::StorageBufferReadOnly
        } else {
            ExpectedBindingType::StorageBufferReadWrite
        },
        LayoutBindingType::Texture { cube } => if cube {
            ExpectedBindingType::TextureCube
        } else {
            ExpectedBindingType::UniformBuffer
        },
        LayoutBindingType::Sampler => ExpectedBindingType::Sampler,
        LayoutBindingType::Other => ExpectedBindingType::UniformBuffer,
    }
}

/// The type a layout entry counts as (see `classify`).
pub fn classify_entry(entry: &LayoutEntry) -> (ty: ExpectedBindingType)
    ensures
        ty == classify(entry.ty),
{
    match entry.ty {
        LayoutBindingType::Buffer(BufferBindingKind::Uniform) => ExpectedBindingType::UniformBuffer,
        LayoutBindingType::Buffer(BufferBindingKind::Storage { read_only }) => if read_only {
            ExpectedBindingType::StorageBufferReadOnly
        } else {
            ExpectedBindingType::StorageBufferReadWrite
        },
        LayoutBindingType::Texture { cube } => if cube {
            ExpectedBindingType::TextureCube
        } else {
            ExpectedBindingType::UniformBuffer
        },
        LayoutBindingType::Sampler => ExpectedBindingType::Sampler,
        LayoutBindingType::Other => ExpectedBindingType::UniformBuffer,
    }
}

/// A binding that a shader declares.
#[derive(Copy, Clone, Debug)]
pub struct ExpectedBinding {
    /// Binding number.
    pub binding: u32,
    /// Declared type.
    pub binding_type: ExpectedBindingType,
    /// What the shader calls it.
    pub label: &'static str,
}

/// The bindings one bind group of a pipeline is expected to have.
pub struct ExpectedBindGroup {
    /// Pipeline name, for messages.
    pub pipeline_name: &'static str,
    /// Bind group index, for messages.
    pub group_index: u32,
    /// Expected bindings, in declaration order.
    pub bindings: Vec<ExpectedBinding>,
}

/// What is wrong with one binding.
#[derive(Copy, Clone, Debug)]
pub enum MismatchKind {
    /// An expected binding that the layout lacks.
    Missing { expected: ExpectedBindingType, label: &'static str },
    /// An expected binding whose layout entry has another type.
    WrongType { expected: ExpectedBindingType, label: &'static str, actual: ExpectedBindingType },
    /// A layout binding that no shader expects.
    Extra { actual: ExpectedBindingType },
}

/// One mismatch found in a bind group.
#[derive(Copy, Clone, Debug)]
pub struct BindingMismatch {
    /// Pipeline of the bind group.
    pub pipeline_name: &'static str,
    /// Index of the bind group.
    pub group_index: u32,
    /// Binding number concerned.
    pub binding: u32,
    /// What is wrong.
    pub kind: MismatchKind,
}

/// The first layout entry with binding number `b`, if any.
pub open spec fn find_entry(actual: Seq<LayoutEntry>, b: u32) -> Option<LayoutEntry>
    decreases actual.len(),
{
    if actual.len() == 0 {
        None
    } else if actual[0].binding == b {
        Some(actual[0])
    } else {
        find_entry(actual.drop_first(), b)
    }
}

/// Whether some expected binding has number `b`.
pub open spec fn expects_binding(expected: Seq<ExpectedBinding>, b: u32) -> bool {
    exists|j: int| 0 <= j < expected.len() && (#[trigger] expected[j]).binding == b
}

/// The mismatch, if any, of one expected binding against a layout.
pub open spec fn check_expected(
    name: &'static str,
    group: u32,
    e: ExpectedBinding,
    actual: Seq<LayoutEntry>,
) -> Seq<BindingMismatch> {
    match find_entry(actual, e.binding) {
        None => seq![BindingMismatch {
            pipeline_name: name,
            group_index: group,
            binding: e.binding,
            kind: MismatchKind::Missing { expected: e.binding_type, label: e.label },
        }],
        Some(a) => if classify(a.ty) != e.binding_type {
            seq![BindingMismatch {
                pipeline_name: name,
                group_index: group,
                binding: e.binding,
                kind: MismatchKind::WrongType { expected: e.binding_type, label: e.label, actual: classify(a.ty) },
            }]
        } else {
            Seq::empty()
        },
    }
}

/// The mismatches of the expected bindings, in their order.
pub open spec fn expected_mismatches(
    name: &'static str,
    group: u32,
    expected: Seq<ExpectedBinding>,
    actual: Seq<LayoutEntry>,
) -> Seq<BindingMismatch>
    decreases expected.len(),
{
    if expected.len() == 0 {
        Seq::empty()
    } else {
        expected_mismatches(name, group, expected.drop_last(), actual) + check_expected(name, group, expected.last(), actual)
    }
}

/// The layout bindings that no expected binding names, in layout order.
pub open spec fn extra_mismatches(
    name: &'static str,
    group: u32,
    expected: Seq<ExpectedBinding>,
    actual: Seq<LayoutEntry>,
) -> Seq<BindingMismatch>
    decreases actual.len(),
{
    if actual.len() == 0 {
        Seq::empty()
    } else {
        let a = actual.last();
        extra_mismatches(name, group, expected, actual.drop_last()) + if expects_binding(expected, a.binding) {
            Seq::empty()
        } else {
            seq![BindingMismatch {
                pipeline_name: name,
                group_index: group,
                binding: a.binding,
                kind: MismatchKind::Extra { actual: classify(a.ty) },
            }]
        }
    }
}

/// All mismatches of a bind group: first those of the expected bindings, then the extras.
pub open spec fn group_mismatches(
    name: &'static str,
    group: u32,
    expected: Seq<ExpectedBinding>,
    actual: Seq<LayoutEntry>,
) -> Seq<BindingMismatch> {
    expected_mismatches(name, group, expected, actual) + extra_mismatches(name, group, expected, actual)
}

/// Finding from position `i` on is the same as finding in the whole when the prefix has no match.
proof fn lemma_find_entry_skip(actual: Seq<LayoutEntry>, b: u32, i: int)
    requires
        0 <= i <= actual.len(),
        forall|j: int| 0 <= j < i ==> (#[trigger] actual[j]).binding != b,
    ensures
        find_entry(actual, b) == find_entry(actual.subrange(i, actual.len() as int), b),
    decreases i,
{
    if i > 0 {
        let rest = actual.drop_first();
        assert forall|j: int| 0 <= j < i - 1 implies (#[trigger] rest[j]).binding != b by {
            assert(rest[j] == actual[j + 1]);
        }
        lemma_find_entry_skip(rest, b, i - 1);
        assert(rest.subrange(i - 1, rest.len() as int) =~= actual.subrange(i, actual.len() as int));
    } else {
        assert(actual.subrange(0, actual.len() as int) =~= actual);
    }
}

/// The first entry of `actual` with binding number `b`.
fn find_layout_entry(actual: &[LayoutEntry], b: u32) -> (found: Option<LayoutEntry>)
    ensures
        found == find_entry(actual@, b),
{
    let mut i: usize = 0;
    while i < actual.len()
        invariant
            i <= actual@.len(),
            forall|j: int| 0 <= j < i ==> (#[trigger] actual@[j]).binding != b,
        decreases actual@.len() - i,
    {
        if actual[i].binding == b {
            proof {
                lemma_find_entry_skip(actual@, b, i as int);
                let rest = actual@.subrange(i as int, actual@.len() as int);
                assert(rest[0] == actual@[i as int]);
            }
            return Some(actual[i]);
        }
        i = i + 1;
    }
    proof {
        lemma_find_entry_skip(actual@, b, i as int);
        assert(actual@.subrange(i as int, actual@.len() as int).len() == 0);
    }
    None
}

/// Whether some expected binding has number `b`.
fn has_expected_binding(expected: &Vec<ExpectedBinding>, b: u32) -> (found: bool)
    ensures
        found == expects_binding(expected@, b),
{
    let mut i: usize = 0;
    while i < expected.len()
        invariant
            i <= expected@.len(),
            forall|j: int| 0 <= j < i ==> (#[trigger] expected@[j]).binding != b,
        decreases expected@.len() - i,
    {
        if expected[i].binding == b {
            assert(expected@[i as int].binding == b);
            return true;
        }
        i = i + 1;
    }
    false
}

/// Compares a layout's entries with the bindings a bind group is expected to have and lists
/// every mismatch: for each expected binding in order, a missing entry or an entry of another
/// type (the first entry with that number is the one compared); then, in layout order, each
/// entry whose number no expected binding has.
pub fn validate_bind_group(expected: &ExpectedBindGroup, actual_entries: &[LayoutEntry]) -> (mismatches: Vec<BindingMismatch>)
    ensures
        mismatches@ == group_mismatches(expected.pipeline_name, expected.group_index, expected.bindings@, actual_entries@),
{
    let name = expected.pipeline_name;
    let group = expected.group_index;
    let ghost exp = expected.bindings@;
    let ghost act = actual_entries@;
    let mut mismatches: Vec<BindingMismatch> = Vec::new();
    let mut i: usize = 0;
    while i < expected.bindings.len()
        invariant
            exp == expected.bindings@,
            act == actual_entries@,
            name == expected.pipeline_name,
            group == expected.group_index,
            i <= exp.len(),
            mismatches@ == expected_mismatches(name, group, exp.take(i as int), act),
        decreases exp.len() - i,
    {
        let e = expected.bindings[i];
        let ghost before = mismatches@;
        match find_layout_entry(actual_entries, e.binding) {
            None => {
                mismatches.push(BindingMismatch {
                    pipeline_name: name,
                    group_index: group,
                    binding: e.binding,
                    kind: MismatchKind::Missing { expected: e.binding_type, label: e.label },
                });
            },
            Some(a) => {
                let actual_type = classify_entry(&a);
                if actual_type != e.binding_type {
                    mismatches.push(BindingMismatch {
                        pipeline_name: name,
                        group_index: group,
                        binding: e.binding,
                        kind: MismatchKind::WrongType { expected: e.binding_type, label: e.label, actual: actual_type },
                    });
                }
            },
        }
        proof {
            let t = exp.take(i + 1);
            assert(t.drop_last() =~= exp.take(i as int));
            assert(t.last() == e);
            assert(mismatches@ =~= before + check_expected(name, group, e, act));
        }
        i = i + 1;
    }
    assert(exp.take(exp.len() as int) =~= exp);
    let ghost first_part = mismatches@;
    let mut k: usize = 0;
    while k < actual_entries.len()
        invariant
            exp == expected.bindings@,
            act == actual_entries@,
            name == expected.pipeline_name,
            group == expected.group_index,
            k <= act.len(),
            mismatches@ == first_part + extra_mismatches(name, group, exp, act.take(k as int)),
        decreases act.len() - k,
    {
        let a = actual_entries[k];
        let ghost before = mismatches@;
        if !has_expected_binding(&expected.bindings, a.binding) {
            let actual_type = classify_entry(&a);
            mismatches.push(BindingMismatch {
                pipeline_name: name,
                group_index: group,
                binding: a.binding,
                kind: MismatchKind::Extra { actual: actual_type },
            });
        }
        proof {
            let t = act.take(k + 1);
            assert(t.drop_last() =~= act.take(k as int));
            assert(t.last() == a);
            let added = if expects_binding(exp, a.binding) {
                Seq::<BindingMismatch>::empty()
            } else {
                seq![BindingMismatch {
                    pipeline_name: name,
                    group_index: group,
                    binding: a.binding,
                    kind: MismatchKind::Extra { actual: classify(a.ty) },
                }]
            };
            assert(extra_mismatches(name, group, exp, t) == extra_mismatches(name, group, exp, act.take(k as int)) + added);
            assert(mismatches@ =~= first_part + extra_mismatches(name, group, exp, t));
        }
        k = k + 1;
    }
    assert(act.take(act.len() as int) =~= act);
    mismatches
}


/// The bindings that the shaders declare for group 0 of the render pipeline (the ray marcher).
pub open spec fn spec_render_group0() -> Seq<ExpectedBinding> {
    seq![
        ExpectedBinding { binding: 0, binding_type: ExpectedBindingType::UniformBuffer, label: "GpuUniforms" },
        ExpectedBinding { binding: 1, binding_type: ExpectedBindingType::StorageBufferReadOnly, label: "EntityBuffer" },
        ExpectedBinding { binding: 2, binding_type: ExpectedBindingType::UniformBuffer, label: "SkySettings" },
        ExpectedBinding { binding: 3, binding_type: ExpectedBindingType::StorageBufferReadOnly, label: "FroxelBoundsBuffer" },
        ExpectedBinding { binding: 4, binding_type: ExpectedBindingType::StorageBufferReadOnly, label: "FroxelSDFListBuffer" },
        ExpectedBinding { binding: 5, binding_type: ExpectedBindingType::StorageBufferReadOnly, label: "TileBuffer" },
        ExpectedBinding { binding: 8, binding_type: ExpectedBindingType::TextureCube, label: "SkyCubemap" },
        ExpectedBinding { binding: 9, binding_type: ExpectedBindingType::Sampler, label: "SkySampler" },
    ]
}

/// The expected bind group of group 0 of the render pipeline (the ray marcher).
pub fn render_group0_expected() -> (group: ExpectedBindGroup)
    ensures
        group.pipeline_name == "Render",
        group.group_index == 0,
        group.bindings@ == spec_render_group0(),
{
    let bindings = vec![
        ExpectedBinding { binding: 0, binding_type: ExpectedBindingType::UniformBuffer, label: "GpuUniforms" },
        ExpectedBinding { binding: 1, binding_type: ExpectedBindingType::StorageBufferReadOnly, label: "EntityBuffer" },
        ExpectedBinding { binding: 2, binding_type: ExpectedBindingType::UniformBuffer, label: "SkySettings" },
        ExpectedBinding { binding: 3, binding_type: ExpectedBindingType::StorageBufferReadOnly, label: "FroxelBoundsBuffer" },
        ExpectedBinding { binding: 4, binding_type: ExpectedBindingType::StorageBufferReadOnly, label: "FroxelSDFListBuffer" },
        ExpectedBinding { binding: 5, binding_type: ExpectedBindingType::StorageBufferReadOnly, label: "TileBuffer" },
        ExpectedBinding { binding: 8, binding_type: ExpectedBindingType::TextureCube, label: "SkyCubemap" },
        ExpectedBinding { binding: 9, binding_type: ExpectedBindingType::Sampler, label: "SkySampler" },
    ];
    ExpectedBindGroup { pipeline_name: "Render", group_index: 0, bindings }
}

/// The bindings that the shaders declare for group 1 of the render pipeline (the brick cache).
pub open spec fn spec_render_group1() -> Seq<ExpectedBinding> {
    seq![
        ExpectedBinding { binding: 0, binding_type: ExpectedBindingType::StorageBufferReadOnly, label: "BrickCache SSBO" },
    ]
}

/// The expected bind group of group 1 of the render pipeline (the brick cache).
pub fn render_group1_expected() -> (group: ExpectedBindGroup)
    ensures
        group.pipeline_name == "Render",
        group.group_index == 1,
        group.bindings@ == spec_render_group1(),
{
    let bindings = vec![
        ExpectedBinding { binding: 0, binding_type: ExpectedBindingType::StorageBufferReadOnly, label: "BrickCache SSBO" },
    ];
    ExpectedBindGroup { pipeline_name: "Render", group_index: 1, bindings }
}

/// The bindings that the shaders declare for the SDF bake pass.
pub open spec fn spec_sdf_bake_group() -> Seq<ExpectedBinding> {
    seq![
        ExpectedBinding { binding: 0, binding_type: ExpectedBindingType::UniformBuffer, label: "BakeParams" },
        ExpectedBinding { binding: 1, binding_type: ExpectedBindingType::StorageBufferReadWrite, label: "SDF output" },
    ]
}

/// The expected bind group of the SDF bake pass.
pub fn sdf_bake_group_expected() -> (group: ExpectedBindGroup)
    ensures
        group.pipeline_name == "SDF Bake",
        group.group_index == 0,
        group.bindings@ == spec_sdf_bake_group(),
{
    let bindings = vec![
        ExpectedBinding { binding: 0, binding_type: ExpectedBindingType::UniformBuffer, label: "BakeParams" },
        ExpectedBinding { binding: 1, binding_type: ExpectedBindingType::StorageBufferReadWrite, label: "SDF output" },
    ];
    ExpectedBindGroup { pipeline_name: "SDF Bake", group_index: 0, bindings }
}

/// The bindings that the shaders declare for the froxel clear pass.
pub open spec fn spec_froxel_clear_group() -> Seq<ExpectedBinding> {
    seq![
        ExpectedBinding { binding: 0, binding_type: ExpectedBindingType::StorageBufferReadWrite, label: "FroxelSDFListBuffer" },
    ]
}

/// The expected bind group of the froxel clear pass.
pub fn froxel_clear_group_expected() -> (group: ExpectedBindGroup)
    ensures
        group.pipeline_name == "Froxel Clear",
        group.group_index == 0,
        group.bindings@ == spec_froxel_clear_group(),
{
    let bindings = vec![
        ExpectedBinding { binding: 0, binding_type: ExpectedBindingType::StorageBufferReadWrite, label: "FroxelSDFListBuffer" },
    ];
    ExpectedBindGroup { pipeline_name: "Froxel Clear", group_index: 0, bindings }
}

/// The bindings that the shaders declare for the froxel assignment pass.
pub open spec fn spec_froxel_assign_group() -> Seq<ExpectedBinding> {
    seq![
        ExpectedBinding { binding: 0, binding_type: ExpectedBindingType::StorageBufferReadOnly, label: "SdfBoundsBuffer" },
        ExpectedBinding { binding: 1, binding_type: ExpectedBindingType::StorageBufferReadOnly, label: "FroxelBoundsBuffer" },
        ExpectedBinding { binding: 2, binding_type: ExpectedBindingType::StorageBufferReadWrite, label: "FroxelSDFListBuffer" },
        ExpectedBinding { binding: 3, binding_type: ExpectedBindingType::UniformBuffer, label: "AssignmentUniforms" },
    ]
}

/// The expected bind group of the froxel assignment pass.
pub fn froxel_assign_group_expected() -> (group: ExpectedBindGroup)
    ensures
        group.pipeline_name == "Froxel Assign",
        group.group_index == 0,
        group.bindings@ == spec_froxel_assign_group(),
{
    let bindings = vec![
        ExpectedBinding { binding: 0, binding_type: ExpectedBindingType::StorageBufferReadOnly, label: "SdfBoundsBuffer" },
        ExpectedBinding { binding: 1, binding_type: ExpectedBindingType::StorageBufferReadOnly, label: "FroxelBoundsBuffer" },
        ExpectedBinding { binding: 2, binding_type: ExpectedBindingType::StorageBufferReadWrite, label: "FroxelSDFListBuffer" },
        ExpectedBinding { binding: 3, binding_type: ExpectedBindingType::UniformBuffer, label: "AssignmentUniforms" },
    ];
    ExpectedBindGroup { pipeline_name: "Froxel Assign", group_index: 0, bindings }
}

/// The bindings that the shaders declare for the tile culling pass.
pub open spec fn spec_tile_culling_group() -> Seq<ExpectedBinding> {
    seq![
        ExpectedBinding { binding: 0, binding_type: ExpectedBindingType::StorageBufferReadWrite, label: "TileBuffer" },
        ExpectedBinding { binding: 1, binding_type: ExpectedBindingType::StorageBufferReadOnly, label: "EntityBuffer" },
        ExpectedBinding { binding: 2, binding_type: ExpectedBindingType::UniformBuffer, label: "CullingUniforms" },
    ]
}

/// The expected bind group of the tile culling pass.
pub fn tile_culling_group_expected() -> (group: ExpectedBindGroup)
    ensures
        group.pipeline_name == "Tile Culling",
        group.group_index == 0,
        group.bindings@ == spec_tile_culling_group(),
{
    let bindings = vec![
        ExpectedBinding { binding: 0, binding_type: ExpectedBindingType::StorageBufferReadWrite, label: "TileBuffer" },
        ExpectedBinding { binding: 1, binding_type: ExpectedBindingType::StorageBufferReadOnly, label: "EntityBuffer" },
        ExpectedBinding { binding: 2, binding_type: ExpectedBindingType::UniformBuffer, label: "CullingUniforms" },
    ];
    ExpectedBindGroup { pipeline_name: "Tile Culling", group_index: 0, bindings }
}

/// Validates the two bind groups of the render pipeline and lists their mismatches, group 0
/// first.
pub fn validate_render_bindings(group0_entries: &[LayoutEntry], group1_entries: &[LayoutEntry]) -> (mismatches: Vec<BindingMismatch>)
    ensures
        mismatches@ == group_mismatches("Render", 0, spec_render_group0(), group0_entries@)
            + group_mismatches("Render", 1, spec_render_group1(), group1_entries@),
{
    let mut mismatches = validate_bind_group(&render_group0_expected(), group0_entries);
    let mut more = validate_bind_group(&render_group1_expected(), group1_entries);
    mismatches.append(&mut more);
    mismatches
}

/// Validates the bind groups of the four compute pipelines (SDF bake, froxel clear, froxel
/// assignment, tile culling) and lists their mismatches in that order.
pub fn validate_compute_bindings(
    sdf_bake_entries: &[LayoutEntry],
    froxel_clear_entries: &[LayoutEntry],
    froxel_assign_entries: &[LayoutEntry],
    tile_culling_entries: &[LayoutEntry],
) -> (mismatches: Vec<BindingMismatch>)
    ensures
        mismatches@ == group_mismatches("SDF Bake", 0, spec_sdf_bake_group(), sdf_bake_entries@)
            + group_mismatches("Froxel Clear", 0, spec_froxel_clear_group(), froxel_clear_entries@)
            + group_mismatches("Froxel Assign", 0, spec_froxel_assign_group(), froxel_assign_entries@)
            + group_mismatches("Tile Culling", 0, spec_tile_culling_group(), tile_culling_entries@),
{
    let mut mismatches = validate_bind_group(&sdf_bake_group_expected(), sdf_bake_entries);
    let mut clear = validate_bind_group(&froxel_clear_group_expected(), froxel_clear_entries);
    let mut assign = validate_bind_group(&froxel_assign_group_expected(), froxel_assign_entries);
    let mut culling = validate_bind_group(&tile_culling_group_expected(), tile_culling_entries);
    mismatches.append(&mut clear);
    mismatches.append(&mut assign);
    mismatches.append(&mut culling);
    mismatches
}

/// Validates every bind group used at startup: the render pipeline's, then the compute
/// pipelines'.
pub fn validate_all_startup_bindings(
    render_group0: &[LayoutEntry],
    render_group1: &[LayoutEntry],
    sdf_bake: &[LayoutEntry],
    froxel_clear: &[LayoutEntry],
    froxel_assign: &[LayoutEntry],
    tile_culling: &[LayoutEntry],
) -> (mismatches: Vec<BindingMismatch>)
    ensures
        mismatches@ == group_mismatches("Render", 0, spec_render_group0(), render_group0@)
            + group_mismatches("Render", 1, spec_render_group1(), render_group1@)
            + group_mismatches("SDF Bake", 0, spec_sdf_bake_group(), sdf_bake@)
            + group_mismatches("Froxel Clear", 0, spec_froxel_clear_group(), froxel_clear@)
            + group_mismatches("Froxel Assign", 0, spec_froxel_assign_group(), froxel_assign@)
            + group_mismatches("Tile Culling", 0, spec_tile_culling_group(), tile_culling@),
{
    let mut mismatches = validate_render_bindings(render_group0, render_group1);
    let mut compute = validate_compute_bindings(sdf_bake, froxel_clear, froxel_assign, tile_culling);
    mismatches.append(&mut compute);
    mismatches
}

/// Whether the layout entry for expected binding `e` is present with the declared type.
pub open spec fn binding_matches(e: ExpectedBinding, actual: Seq<LayoutEntry>) -> bool {
    match find_entry(actual, e.binding) {
        None => false,
        Some(a) => classify(a.ty) == e.binding_type,
    }
}

/// No expected binding yields a mismatch exactly when all of them match.
proof fn lemma_expected_mismatches_empty(name: &'static str, group: u32, expected: Seq<ExpectedBinding>, actual: Seq<LayoutEntry>)
    ensures
        expected_mismatches(name, group, expected, actual).len() == 0
            <==> forall|j: int| 0 <= j < expected.len() ==> binding_matches(#[trigger] expected[j], actual),
    decreases expected.len(),
{
    if expected.len() > 0 {
        let init = expected.drop_last();
        lemma_expected_mismatches_empty(name, group, init, actual);
        if forall|j: int| 0 <= j < expected.len() ==> binding_matches(#[trigger] expected[j], actual) {
            assert forall|j: int| 0 <= j < init.len() implies binding_matches(#[trigger] init[j], actual) by {
                assert(init[j] == expected[j]);
            }
            assert(binding_matches(expected[expected.len() - 1], actual));
        }
        if expected_mismatches(name, group, expected, actual).len() == 0 {
            assert forall|j: int| 0 <= j < expected.len() implies binding_matches(#[trigger] expected[j], actual) by {
                if j < expected.len() - 1 {
                    assert(init[j] == expected[j]);
                }
            }
        }
    }
}

/// No layout entry is an extra exactly when every one of them is expected.
proof fn lemma_extra_mismatches_empty(name: &'static str, group: u32, expected: Seq<ExpectedBinding>, actual: Seq<LayoutEntry>)
    ensures
        extra_mismatches(name, group, expected, actual).len() == 0
            <==> forall|k: int| 0 <= k < actual.len() ==> expects_binding(expected, (#[trigger] actual[k]).binding),
    decreases actual.len(),
{
    if actual.len() > 0 {
        let init = actual.drop_last();
        lemma_extra_mismatches_empty(name, group, expected, init);
        if forall|k: int| 0 <= k < actual.len() ==> expects_binding(expected, (#[trigger] actual[k]).binding) {
            assert forall|k: int| 0 <= k < init.len() implies expects_binding(expected, (#[trigger] init[k]).binding) by {
                assert(init[k] == actual[k]);
            }
            assert(expects_binding(expected, actual[actual.len() - 1].binding));
        }
        if extra_mismatches(name, group, expected, actual).len() == 0 {
            assert forall|k: int| 0 <= k < actual.len() implies expects_binding(expected, (#[trigger] actual[k]).binding) by {
                if k < actual.len() - 1 {
                    assert(init[k] == actual[k]);
                }
            }
        }
    }
}

/// A bind group validates with no mismatch exactly when every expected binding is present with
/// its declared type and every layout binding is one that the shader expects.
pub proof fn lemma_no_mismatch_iff_layout_agrees(
    name: &'static str,
    group: u32,
    expected: Seq<ExpectedBinding>,
    actual: Seq<LayoutEntry>,
)
    ensures
        group_mismatches(name, group, expected, actual).len() == 0 <==> {
            &&& forall|j: int| 0 <= j < expected.len() ==> binding_matches(#[trigger] expected[j], actual)
            &&& forall|k: int| 0 <= k < actual.len() ==> expects_binding(expected, (#[trigger] actual[k]).binding)
        },
{
    lemma_expected_mismatches_empty(name, group, expected, actual);
    lemma_extra_mismatches_empty(name, group, expected, actual);
}

} // verus!
