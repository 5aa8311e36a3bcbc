//! Capacity of the torch lighting buffers.

use vstd::prelude::*;

verus! {

/// Most point lights at once.
pub const MAX_POINT_LIGHTS: usize = 16;

/// Bytes of one point light on the GPU (position, radius, colour, intensity).
pub const POINT_LIGHT_SIZE: usize = 32;

/// Bytes of the point light buffer.
pub const POINT_LIGHT_BUFFER_SIZE: usize = MAX_POINT_LIGHTS * POINT_LIGHT_SIZE;

/// Bytes of the light count uniform (a count padded to 16 bytes).
pub const LIGHT_COUNT_BUFFER_SIZE: usize = 16;

/// The torches of the light manager, in the order they were added; at most
/// `MAX_POINT_LIGHTS` of them. A torch is named by its position in the list.
pub struct TorchList<L> {
    lights: Vec<L>,
}

impl<L> View for TorchList<L> {
    type V = Seq<L>;

    /// The torches, in order.
    closed spec fn view(&self) -> Seq<L> {
        self.lights@
    }
}

impl<L> TorchList<L> {
    /// Never more than `MAX_POINT_LIGHTS` torches.
    pub open spec fn wf(&self) -> bool {
        self@.len() <= MAX_POINT_LIGHTS
    }

    /// No torch.
    pub fn new() -> (list: TorchList<L>)
        ensures
            list@ == Seq::<L>::empty(),
            list.wf(),
    {
        TorchList { lights: Vec::new() }
    }

    /// Appends a torch and returns its index, or returns `None`, changing nothing, when the
    /// list is full.
    pub fn add(&mut self, light: L) -> (index: Option<usize>)
        requires
            old(self).wf(),
        ensures
            final(self).wf(),
            old(self)@.len() < MAX_POINT_LIGHTS ==> index == Some(old(self)@.len() as usize)
                && final(self)@ == old(self)@.push(light),
            old(self)@.len() >= MAX_POINT_LIGHTS ==> index is None && final(self)@ == old(self)@,
    {
        if self.lights.len() >= MAX_POINT_LIGHTS {
            return None;
        }
        let index = self.lights.len();
        self.lights.push(light);
        Some(index)
    }

    /// Removes the torch at `index` (later torches move down by one); returns false, changing
    /// nothing, for an index past the end.
    pub fn remove(&mut self, index: usize) -> (removed: bool)
        requires
            old(self).wf(),
        ensures
            final(self).wf(),
            removed == (index < old(self)@.len()),
            removed ==> final(self)@ == old(self)@.remove(index as int),
            !removed ==> final(self)@ == old(self)@,
    {
        if index < self.lights.len() {
            self.lights.remove(index);
            true
        } else {
            false
        }
    }

    /// Removes every torch.
    pub fn clear(&mut self)
        ensures
            final(self)@ == Seq::<L>::empty(),
            final(self).wf(),
    {
        self.lights.clear();
    }

    /// Number of torches.
    pub fn len(&self) -> (n: usize)
        ensures
            n == self@.len(),
    {
        self.lights.len()
    }

    /// Whether no further torch fits.
    pub fn is_full(&self) -> (full: bool)
        ensures
            full == (self@.len() >= MAX_POINT_LIGHTS),
    {
        self.lights.len() >= MAX_POINT_LIGHTS
    }

    /// The torch at `index`, if any.
    pub fn get(&self, index: usize) -> (light: Option<&L>)
        ensures
            index < self@.len() ==> light == Some(&self@[index as int]),
            index >= self@.len() ==> light is None,
    {
        if index < self.lights.len() {
            Some(&self.lights[index])
        } else {
            None
        }
    }

    /// Replaces the torch at `index`; returns false, changing nothing, for an index past the
    /// end.
    pub fn set(&mut self, index: usize, light: L) -> (replaced: bool)
        requires
            old(self).wf(),
        ensures
            final(self).wf(),
            replaced == (index < old(self)@.len()),
            replaced ==> final(self)@ == old(self)@.update(index as int, light),
            !replaced ==> final(self)@ == old(self)@,
    {
        if index < self.lights.len() {
            self.lights.set(index, light);
            true
        } else {
            false
        }
    }
}

/// The light count uniform for `count` lights: the count followed by three zero words.
pub fn light_count_uniform(count: usize) -> (words: [u32; 4])
    requires
        count <= u32::MAX,
    ensures
        words@ == seq![count as u32, 0u32, 0u32, 0u32],
{
    let words = [count as u32, 0, 0, 0];
    assert(words@ =~= seq![count as u32, 0u32, 0u32, 0u32]);
    words
}

} // verus!
