//! The materials that the renderer knows.

use vstd::prelude::*;

verus! {

/// One shader pipeline per kind of surface.
#[derive(Copy, Clone, Debug, Hash, PartialEq, Eq, Structural)]
pub enum MaterialType {
    /// Procedural hex terrain.
    Terrain,
    /// Medieval stone with mortar.
    CastleStone,
    /// Brown wood with grain.
    WoodPlank,
    /// Metallic steel.
    ChainMetal,
    /// Team-coloured cloth.
    Flag,
    /// Flowing lava.
    Lava,
    /// Glowing particles.
    EmberParticle,
}

/// Every material, in declaration order.
pub open spec fn spec_all_materials() -> Seq<MaterialType> {
    seq![
        MaterialType::Terrain,
        MaterialType::CastleStone,
        MaterialType::WoodPlank,
        MaterialType::ChainMetal,
        MaterialType::Flag,
        MaterialType::Lava,
        MaterialType::EmberParticle,
    ]
}

/// The human-readable name of a material.
pub open spec fn spec_material_name(m: MaterialType) -> &'static str {
    match m {
        MaterialType::Terrain => "Terrain",
        MaterialType::CastleStone => "Castle Stone",
        MaterialType::WoodPlank => "Wood Plank",
        MaterialType::ChainMetal => "Chain Metal",
        MaterialType::Flag => "Flag",
        MaterialType::Lava => "Lava",
        MaterialType::EmberParticle => "Ember Particle",
    }
}

impl MaterialType {
    /// Every material, in declaration order.
    pub fn all() -> (all: Vec<MaterialType>)
        ensures
            all@ == spec_all_materials(),
    {
        vec![
            MaterialType::Terrain,
            MaterialType::CastleStone,
            MaterialType::WoodPlank,
            MaterialType::ChainMetal,
            MaterialType::Flag,
            MaterialType::Lava,
            MaterialType::EmberParticle,
        ]
    }

    /// The human-readable name of the material.
    pub fn name(&self) -> (name: &'static str)
        ensures
            name == spec_material_name(*self),
    {
        match self {
            MaterialType::Terrain => "Terrain",
            MaterialType::CastleStone => "Castle Stone",
            MaterialType::WoodPlank => "Wood Plank",
            MaterialType::ChainMetal => "Chain Metal",
            MaterialType::Flag => "Flag",
            MaterialType::Lava => "Lava",
            MaterialType::EmberParticle => "Ember Particle",
        }
    }
}

/// `all` lists every material exactly once.
pub proof fn lemma_all_materials_complete(m: MaterialType)
    ensures
        spec_all_materials().contains(m),
        spec_all_materials().len() == 7,
        forall|i: int, j: int| 0 <= i < j < 7 ==> spec_all_materials()[i] != spec_all_materials()[j],
{
    let all = spec_all_materials();
    match m {
        MaterialType::Terrain => assert(all[0] == m),
        MaterialType::CastleStone => assert(all[1] == m),
        MaterialType::WoodPlank => assert(all[2] == m),
        MaterialType::ChainMetal => assert(all[3] == m),
        MaterialType::Flag => assert(all[4] == m),
        MaterialType::Lava => assert(all[5] == m),
        MaterialType::EmberParticle => assert(all[6] == m),
    }
}

/// Bind group slots that drawing with a material uses.
#[derive(Copy, Clone, Debug, PartialEq, Eq, Structural)]
pub struct MaterialBindSlots {
    /// Slot of the shared scene bind group, when the material uses the scene uniforms.
    pub scene: Option<u32>,
    /// Slot of the material's own bind group, when it has one.
    pub material: Option<u32>,
}

/// Where a material's bind groups go: the scene uniforms at slot 0 when used, and the
/// material's own group right after them (slot 1, or slot 0 without scene uniforms).
pub fn material_bind_slots(uses_scene_uniforms: bool, has_bind_group: bool) -> (slots: MaterialBindSlots)
    ensures
        slots.scene == (if uses_scene_uniforms { Some(0u32) } else { None }),
        slots.material == (if !has_bind_group {
            None
        } else if uses_scene_uniforms {
            Some(1u32)
        } else {
            Some(0u32)
        }),
{
    let scene = if uses_scene_uniforms { Some(0u32) } else { None };
    let material = if has_bind_group {
        if uses_scene_uniforms { Some(1u32) } else { Some(0u32) }
    } else {
        None
    };
    MaterialBindSlots { scene, material }
}

/// Position of a material in `spec_all_materials`.
pub open spec fn material_slot(m: MaterialType) -> int {
    match m {
        MaterialType::Terrain => 0,
        MaterialType::CastleStone => 1,
        MaterialType::WoodPlank => 2,
        MaterialType::ChainMetal => 3,
        MaterialType::Flag => 4,
        MaterialType::Lava => 5,
        MaterialType::EmberParticle => 6,
    }
}

/// Position of the material in `MaterialType::all`.
fn slot_of(m: MaterialType) -> (slot: usize)
    ensures
        slot == material_slot(m),
        spec_all_materials()[slot as int] == m,
{
    match m {
        MaterialType::Terrain => 0,
        MaterialType::CastleStone => 1,
        MaterialType::WoodPlank => 2,
        MaterialType::ChainMetal => 3,
        MaterialType::Flag => 4,
        MaterialType::Lava => 5,
        MaterialType::EmberParticle => 6,
    }
}

/// The materials of `spec_all_materials()[0..n]` that have an entry in `slots`, in that
/// order.
pub open spec fn registered_prefix<E>(slots: Seq<Option<E>>, n: int) -> Seq<MaterialType>
    decreases n,
{
    if n <= 0 {
        Seq::empty()
    } else {
        registered_prefix(slots, n - 1) + if slots[n - 1] is Some {
            seq![spec_all_materials()[n - 1]]
        } else {
            Seq::empty()
        }
    }
}

/// The registered pipelines (entries `E`), at most one per material.
pub struct MaterialRegistry<E> {
    slots: Vec<Option<E>>,
}

impl<E> MaterialRegistry<E> {
    /// The entry of each material, by `material_slot`.
    pub closed spec fn entries(&self) -> Seq<Option<E>> {
        self.slots@
    }

    /// One slot per material.
    pub closed spec fn wf(&self) -> bool {
        self.slots@.len() == 7
    }

    /// No material registered.
    pub fn new() -> (registry: MaterialRegistry<E>)
        ensures
            registry.wf(),
            forall|i: int| 0 <= i < 7 ==> #[trigger] registry.entries()[i] is None,
    {
        let mut slots: Vec<Option<E>> = Vec::new();
        let mut i: usize = 0;
        while i < 7
            invariant
                i <= 7,
                slots@.len() == i,
                forall|k: int| 0 <= k < i ==> #[trigger] slots@[k] is None,
            decreases 7 - i,
        {
            slots.push(None);
            i = i + 1;
        }
        MaterialRegistry { slots }
    }

    /// Registers the entry of a material, replacing any earlier one.
    pub fn register_material(&mut self, material_type: MaterialType, entry: E)
        requires
            old(self).wf(),
        ensures
            final(self).wf(),
            final(self).entries() == old(self).entries().update(material_slot(material_type), Some(entry)),
    {
        let slot = slot_of(material_type);
        self.slots.set(slot, Some(entry));
    }

    /// Whether the material has an entry.
    pub fn has_material(&self, material_type: MaterialType) -> (found: bool)
        requires
            self.wf(),
        ensures
            found == self.entries()[material_slot(material_type)] is Some,
    {
        self.slots[slot_of(material_type)].is_some()
    }

    /// The entry of the material, if registered.
    pub fn get_material(&self, material_type: MaterialType) -> (entry: Option<&E>)
        requires
            self.wf(),
        ensures
            match self.entries()[material_slot(material_type)] {
                Some(e) => entry == Some(&e),
                None => entry is None,
            },
    {
        match &self.slots[slot_of(material_type)] {
            Some(e) => Some(e),
            None => None,
        }
    }

    /// The registered materials, in declaration order.
    pub fn registered_materials(&self) -> (materials: Vec<MaterialType>)
        requires
            self.wf(),
        ensures
            materials@ == registered_prefix(self.entries(), 7),
    {
        let all = MaterialType::all();
        let mut materials: Vec<MaterialType> = Vec::new();
        let mut i: usize = 0;
        while i < 7
            invariant
                i <= 7,
                self.wf(),
                all@ == spec_all_materials(),
                materials@ == registered_prefix(self.entries(), i as int),
            decreases 7 - i,
        {
            if self.slots[i].is_some() {
                materials.push(all[i]);
            }
            proof {
                assert(materials@ =~= registered_prefix(self.entries(), i + 1));
            }
            i = i + 1;
        }
        materials
    }

    /// Number of registered materials.
    pub fn material_count(&self) -> (n: usize)
        requires
            self.wf(),
        ensures
            n == registered_prefix(self.entries(), 7).len(),
    {
        self.registered_materials().len()
    }
}

/// A material is listed as registered exactly when it has an entry, and at most once.
pub proof fn lemma_registered_materials<E>(slots: Seq<Option<E>>, m: MaterialType)
    requires
        slots.len() == 7,
    ensures
        registered_prefix(slots, 7).contains(m) <==> slots[material_slot(m)] is Some,
        registered_prefix(slots, 7).no_duplicates(),
{
    lemma_registered_prefix(slots, 7, m);
}

/// `registered_prefix(slots, n)` lists, once each and in order, the materials before `n`
/// that have an entry.
proof fn lemma_registered_prefix<E>(slots: Seq<Option<E>>, n: int, m: MaterialType)
    requires
        0 <= n <= 7,
        slots.len() == 7,
    ensures
        registered_prefix(slots, n).contains(m) <==> (material_slot(m) < n && slots[material_slot(m)] is Some),
        registered_prefix(slots, n).no_duplicates(),
        forall|k: int| 0 <= k < registered_prefix(slots, n).len() ==> material_slot(#[trigger] registered_prefix(slots, n)[k]) < n,
    decreases n,
{
    lemma_all_materials_complete(m);
    assert(spec_all_materials()[material_slot(m)] == m) by {
        match m {
            MaterialType::Terrain => {},
            MaterialType::CastleStone => {},
            MaterialType::WoodPlank => {},
            MaterialType::ChainMetal => {},
            MaterialType::Flag => {},
            MaterialType::Lava => {},
            MaterialType::EmberParticle => {},
        }
    }
    if n > 0 {
        lemma_registered_prefix(slots, n - 1, m);
        let prev = registered_prefix(slots, n - 1);
        let cur = registered_prefix(slots, n);
        let last = spec_all_materials()[n - 1];
        assert(material_slot(last) == n - 1);
        assert forall|k: int| 0 <= k < cur.len() implies material_slot(#[trigger] cur[k]) < n by {
            if k < prev.len() {
                assert(cur[k] == prev[k]);
            }
        }
        if slots[n - 1] is Some {
            assert(cur == prev.push(last));
            assert(!prev.contains(last));
            if material_slot(m) == n - 1 {
                assert(m == last);
                assert(cur[prev.len() as int] == m);
            }
            if cur.contains(m) && !prev.contains(m) {
                let k = choose|k: int| 0 <= k < cur.len() && cur[k] == m;
                assert(k == prev.len());
            }
            if prev.contains(m) {
                let k = choose|k: int| 0 <= k < prev.len() && prev[k] == m;
                assert(cur[k] == m);
            }
            assert forall|a: int, b: int| 0 <= a < b < cur.len() implies cur[a] != cur[b] by {
                if b == prev.len() {
                    assert(cur[a] == prev[a]);
                    assert(material_slot(prev[a]) < n - 1);
                }
            }
        } else {
            assert(cur =~= prev);
        }
    }
}

} // verus!
