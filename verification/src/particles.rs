//! Ember particle capacity and the particles' pseudo-random generator.

use vstd::prelude::*;

verus! {

/// Most live particles.
pub const MAX_PARTICLES: usize = 1024;

/// Bytes of one particle on the GPU (position, size, colour, life).
pub const GPU_PARTICLE_SIZE: usize = 32;

/// Bytes of the particle buffer.
pub const PARTICLE_BUFFER_SIZE: usize = MAX_PARTICLES * GPU_PARTICLE_SIZE;

/// Bytes of the particle uniforms.
pub const PARTICLE_UNIFORMS_SIZE: usize = 128;

/// One xorshift32 step: `x ^= x << 13; x ^= x >> 17; x ^= x << 5`.
pub open spec fn xorshift32(x: u32) -> u32 {
    let a = x ^ (x << 13u32);
    let b = a ^ (a >> 17u32);
    b ^ (b << 5u32)
}

/// A deterministic xorshift32 generator for particle variation.
pub struct SimpleRng {
    state: u32,
}

impl View for SimpleRng {
    type V = u32;

    /// The current state.
    closed spec fn view(&self) -> u32 {
        self.state
    }
}

impl SimpleRng {
    /// The state is never 0 (xorshift would then be stuck at 0).
    pub closed spec fn wf(&self) -> bool {
        self.state != 0
    }

    /// A generator seeded with `seed`, or with 1 when `seed` is 0.
    pub fn new(seed: u32) -> (rng: SimpleRng)
        ensures
            rng@ == (if seed > 1 { seed } else { 1 }),
            rng.wf(),
    {
        SimpleRng { state: if seed > 1 { seed } else { 1 } }
    }

    /// Advances the state by one xorshift32 step and returns the new state.
    pub fn next_u32(&mut self) -> (x: u32)
        requires
            old(self).wf(),
        ensures
            x == xorshift32(old(self)@),
            final(self)@ == x,
            final(self).wf(),
    {
        let mut x = self.state;
        x = x ^ (x << 13u32);
        x = x ^ (x >> 17u32);
        x = x ^ (x << 5u32);
        proof {
            lemma_xorshift32_nonzero(self.state);
        }
        self.state = x;
        x
    }
}

/// An xorshift32 step maps a nonzero state to a nonzero state, so a seeded generator never
/// gets stuck.
pub proof fn lemma_xorshift32_nonzero(x: u32)
    requires
        x != 0,
    ensures
        xorshift32(x) != 0,
{
    assert(x != 0 ==> {
        let a = x ^ (x << 13u32);
        let b = a ^ (a >> 17u32);
        b ^ (b << 5u32) != 0
    }) by (bit_vector);
}

} // verus!
