//! Per-froxel lists of SDF indices, laid out as the froxel shaders read them.

use vstd::prelude::*;
use crate::froxel_config::{
    froxel_index, spec_froxel_index, MAX_SDFS_PER_FROXEL, TOTAL_FROXELS,
};

verus! {

/// Bytes of one froxel's world-space bounds (min and max corner, each padded to 16 bytes).
pub const FROXEL_BOUNDS_SIZE: usize = 32;

/// Bytes of one froxel SDF list: count, three padding words, 64 indices.
pub const FROXEL_SDF_LIST_SIZE: usize = 272;

/// Bytes of the bounds buffer: a 16-byte header and one bounds entry per froxel.
pub const FROXEL_BOUNDS_BUFFER_SIZE: usize = 16 + FROXEL_BOUNDS_SIZE * 6144;

/// Bytes of the SDF list buffer: a 16-byte header and one list per froxel.
pub const FROXEL_SDF_LIST_BUFFER_SIZE: usize = 16 + FROXEL_SDF_LIST_SIZE * 6144;

/// SDF indices assigned to one froxel: the first `count` entries of `sdf_indices` are valid.
#[derive(Copy, Clone, Debug)]
pub struct FroxelSDFList {
    /// Number of valid indices (0 to 64).
    pub count: u32,
    /// Padding so that the array starts on a 16-byte boundary.
    pub _pad0: u32,
    pub _pad1: u32,
    pub _pad2: u32,
    /// SDF indices; only the first `count` are valid.
    pub sdf_indices: [u32; 64],
}

impl View for FroxelSDFList {
    type V = Seq<u32>;

    /// The valid SDF indices, in the order they were added.
    open spec fn view(&self) -> Seq<u32> {
        self.sdf_indices@.take(self.count as int)
    }
}

impl FroxelSDFList {
    /// The count never exceeds the capacity.
    pub open spec fn wf(&self) -> bool {
        self.count <= MAX_SDFS_PER_FROXEL
    }

    /// Whether another index fits.
    pub open spec fn has_room(&self) -> bool {
        self.count < MAX_SDFS_PER_FROXEL
    }

    /// The list after offering it `sdf_index`: appended when there is room, unchanged otherwise.
    pub open spec fn with_sdf(self, sdf_index: u32) -> FroxelSDFList {
        if self.has_room() {
            FroxelSDFList {
                count: (self.count + 1) as u32,
                sdf_indices: vstd::array::spec_array_update(self.sdf_indices, self.count as int, sdf_index),
                ..self
            }
        } else {
            self
        }
    }

    /// The list with its count reset and everything else kept.
    pub open spec fn cleared(self) -> FroxelSDFList {
        FroxelSDFList { count: 0, ..self }
    }

    /// Whether every field is zero.
    pub open spec fn is_zeroed(&self) -> bool {
        &&& self.count == 0
        &&& self._pad0 == 0
        &&& self._pad1 == 0
        &&& self._pad2 == 0
        &&& self.sdf_indices@ == Seq::new(64, |i: int| 0u32)
    }

    /// An empty list, every field zero.
    pub fn new() -> (list: FroxelSDFList)
        ensures
            list.wf(),
            list.is_zeroed(),
            list@ == Seq::<u32>::empty(),
    {
        let list = FroxelSDFList { count: 0, _pad0: 0, _pad1: 0, _pad2: 0, sdf_indices: [0u32; 64] };
        assert(list.sdf_indices@ =~= Seq::new(64, |i: int| 0u32));
        list
    }

    /// Appends an SDF index; returns false, changing nothing, when the list is full (its
    /// count is 64 or more).
    pub fn add(&mut self, sdf_index: u32) -> (added: bool)
        ensures
            added == old(self).has_room(),
            *final(self) == old(self).with_sdf(sdf_index),
            old(self).wf() ==> final(self).wf(),
            added ==> final(self)@ == old(self)@.push(sdf_index),
            !added ==> final(self)@ == old(self)@,
    {
        if self.count >= MAX_SDFS_PER_FROXEL {
            return false;
        }
        let ghost old_list = *self;
        let count = self.count as usize;
        self.sdf_indices[count] = sdf_index;
        self.count = self.count + 1;
        proof {
            let expected = vstd::array::spec_array_update(old_list.sdf_indices, count as int, sdf_index);
            assert(self.sdf_indices =~= expected);
            assert(self@ =~= old_list@.push(sdf_index));
        }
        true
    }

    /// Resets the count to 0; the stored indices are left as they were.
    pub fn clear(&mut self)
        ensures
            *final(self) == old(self).cleared(),
            final(self)@ == Seq::<u32>::empty(),
    {
        self.count = 0;
    }

    /// Whether the list holds no index.
    pub fn is_empty(&self) -> (empty: bool)
        ensures
            empty == (self.count == 0),
    {
        self.count == 0
    }

    /// Whether the list is at capacity.
    pub fn is_full(&self) -> (full: bool)
        ensures
            full == !self.has_room(),
    {
        self.count >= MAX_SDFS_PER_FROXEL
    }

    /// Number of SDF indices in the list.
    pub fn len(&self) -> (n: u32)
        ensures
            n == self.count,
    {
        self.count
    }

    /// The valid SDF indices, in the order they were added.
    pub fn iter(&self) -> (indices: Vec<u32>)
        requires
            self.wf(),
        ensures
            indices@ == self@,
    {
        let n = self.count as usize;
        let mut indices: Vec<u32> = Vec::new();
        let mut i: usize = 0;
        while i < n
            invariant
                n == self.count,
                n <= 64,
                i <= n,
                indices@ == self.sdf_indices@.take(i as int),
            decreases n - i,
        {
            indices.push(self.sdf_indices[i]);
            assert(self.sdf_indices@.take(i as int).push(self.sdf_indices@[i as int])
                =~= self.sdf_indices@.take(i + 1));
            i = i + 1;
        }
        indices
    }
}

impl Default for FroxelSDFList {
    /// An empty list, every field zero.
    fn default() -> (list: FroxelSDFList)
        ensures
            list.wf(),
            list.is_zeroed(),
    {
        FroxelSDFList::new()
    }
}

/// The SDF lists of every froxel, indexed as `froxel_index` says.
#[derive(Copy, Clone)]
pub struct FroxelSDFListBuffer {
    /// Number of froxels (always `TOTAL_FROXELS`).
    pub count: u32,
    /// Padding to a 16-byte header.
    pub _pad0: u32,
    pub _pad1: u32,
    pub _pad2: u32,
    /// One list per froxel.
    pub lists: [FroxelSDFList; 6144],
}

impl FroxelSDFListBuffer {
    /// Every list is well formed.
    pub open spec fn wf(&self) -> bool {
        forall|i: int| 0 <= i < TOTAL_FROXELS ==> (#[trigger] self.lists@[i]).wf()
    }

    /// A buffer with `count == TOTAL_FROXELS` and every list empty and zeroed.
    pub fn new() -> (buffer: FroxelSDFListBuffer)
        ensures
            buffer.wf(),
            buffer.count == TOTAL_FROXELS,
            buffer._pad0 == 0 && buffer._pad1 == 0 && buffer._pad2 == 0,
            forall|i: int| 0 <= i < TOTAL_FROXELS ==> (#[trigger] buffer.lists@[i]).is_zeroed(),
    {
        let empty = FroxelSDFList::new();
        FroxelSDFListBuffer { count: TOTAL_FROXELS, _pad0: 0, _pad1: 0, _pad2: 0, lists: [empty; 6144] }
    }

    /// Linear index of froxel `(x, y, z)`.
    pub fn froxel_index(x: u32, y: u32, z: u32) -> (index: usize)
        requires
            spec_froxel_index(x as int, y as int, z as int) <= u32::MAX,
        ensures
            index == spec_froxel_index(x as int, y as int, z as int),
    {
        froxel_index(x, y, z)
    }

    /// The list of froxel `(x, y, z)`.
    pub fn get(&self, x: u32, y: u32, z: u32) -> (list: &FroxelSDFList)
        requires
            spec_froxel_index(x as int, y as int, z as int) < TOTAL_FROXELS,
        ensures
            *list == self.lists@[spec_froxel_index(x as int, y as int, z as int)],
    {
        &self.lists[froxel_index(x, y, z)]
    }

    /// The list of froxel `(x, y, z)`, for changing it.
    pub fn get_mut(&mut self, x: u32, y: u32, z: u32) -> (list: &mut FroxelSDFList)
        requires
            spec_froxel_index(x as int, y as int, z as int) < TOTAL_FROXELS,
        ensures
            *list == old(self).lists@[spec_froxel_index(x as int, y as int, z as int)],
            final(self).lists@ == old(self).lists@.update(spec_froxel_index(x as int, y as int, z as int), *final(list)),
            final(self).count == old(self).count,
            final(self)._pad0 == old(self)._pad0,
            final(self)._pad1 == old(self)._pad1,
            final(self)._pad2 == old(self)._pad2,
    {
        let idx = froxel_index(x, y, z);
        &mut self.lists[idx]
    }

    /// Resets the count of every list to 0.
    pub fn clear_all(&mut self)
        ensures
            final(self).count == old(self).count,
            final(self)._pad0 == old(self)._pad0,
            final(self)._pad1 == old(self)._pad1,
            final(self)._pad2 == old(self)._pad2,
            forall|i: int| 0 <= i < TOTAL_FROXELS ==> #[trigger] final(self).lists@[i] == old(self).lists@[i].cleared(),
            final(self).wf(),
    {
        let mut i: usize = 0;
        while i < 6144
            invariant
                i <= 6144,
                self.count == old(self).count,
                self._pad0 == old(self)._pad0,
                self._pad1 == old(self)._pad1,
                self._pad2 == old(self)._pad2,
                forall|j: int| 0 <= j < i ==> #[trigger] self.lists@[j] == old(self).lists@[j].cleared(),
                forall|j: int| i <= j < 6144 ==> #[trigger] self.lists@[j] == old(self).lists@[j],
            decreases 6144 - i,
        {
            let mut list = self.lists[i];
            list.clear();
            self.lists[i] = list;
            i = i + 1;
        }
    }

    /// Appends an SDF index to froxel `(x, y, z)`; returns false, changing nothing, when that
    /// froxel's list is full.
    pub fn add_sdf(&mut self, x: u32, y: u32, z: u32, sdf_index: u32) -> (added: bool)
        requires
            spec_froxel_index(x as int, y as int, z as int) < TOTAL_FROXELS,
        ensures
            ({
                let i = spec_froxel_index(x as int, y as int, z as int);
                &&& added == old(self).lists@[i].has_room()
                &&& final(self).lists@ == old(self).lists@.update(i, old(self).lists@[i].with_sdf(sdf_index))
            }),
            final(self).count == old(self).count,
            final(self)._pad0 == old(self)._pad0,
            final(self)._pad1 == old(self)._pad1,
            final(self)._pad2 == old(self)._pad2,
            old(self).wf() ==> final(self).wf(),
    {
        let idx = froxel_index(x, y, z);
        let mut list = self.lists[idx];
        let added = list.add(sdf_index);
        self.lists[idx] = list;
        added
    }
}

impl Default for FroxelSDFListBuffer {
    /// A buffer with every list empty.
    fn default() -> (buffer: FroxelSDFListBuffer)
        ensures
            buffer.wf(),
            buffer.count == TOTAL_FROXELS,
            forall|i: int| 0 <= i < TOTAL_FROXELS ==> (#[trigger] buffer.lists@[i]).is_zeroed(),
    {
        FroxelSDFListBuffer::new()
    }
}

} // verus!
