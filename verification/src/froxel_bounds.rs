//! Detection of camera changes that invalidate the cached froxel bounds.

use vstd::prelude::*;
use vstd::arithmetic::power::pow;

verus! {

/// `h` plus the 64-bit two's-complement pattern of `v`, modulo 2^64.
pub open spec fn hash_add(h: u64, v: i32) -> u64 {
    ((h + (v as u64)) % 0x1_0000_0000_0000_0000) as u64
}

/// `h` times 31, modulo 2^64.
pub open spec fn hash_mul(h: u64) -> u64 {
    ((h * 31) % 0x1_0000_0000_0000_0000) as u64
}

/// The running hash after folding in every parameter of `q`, each followed by the multiply.
pub open spec fn prefix_hash(q: Seq<i32>) -> u64
    decreases q.len(),
{
    if q.len() == 0 {
        0
    } else {
        hash_mul(hash_add(prefix_hash(q.drop_last()), q.last()))
    }
}

/// The change hash of the quantised camera parameters `q`: starting from 0, each parameter is
/// added and the sum multiplied by 31 (both modulo 2^64), except that the last parameter is
/// only added.
pub open spec fn spec_change_hash(q: Seq<i32>) -> u64 {
    if q.len() == 0 {
        0
    } else {
        hash_add(prefix_hash(q.drop_last()), q.last())
    }
}

/// The camera parameters read as a polynomial in 31: `v_0 * 31^(n-1) + ... + v_(n-1)`, where
/// `v_i` is the 64-bit two's-complement pattern of `q_i`, without any wrapping.
pub open spec fn camera_poly(q: Seq<i32>) -> int
    decreases q.len(),
{
    if q.len() == 0 {
        0
    } else {
        (q[0] as u64) * pow(31, (q.len() - 1) as nat) + camera_poly(q.drop_first())
    }
}

/// Appending a parameter multiplies the polynomial by 31 and adds the parameter.
proof fn lemma_camera_poly_push(q: Seq<i32>, x: i32)
    ensures
        camera_poly(q.push(x)) == camera_poly(q) * 31 + (x as u64),
    decreases q.len(),
{
    reveal(pow);
    let qx = q.push(x);
    if q.len() == 0 {
        assert(qx.drop_first() =~= Seq::<i32>::empty());
        assert(pow(31, 0) == 1);
        assert(qx[0] == x);
        let xv = (x as u64) as int;
        assert(xv * 1 == xv);
        assert(camera_poly(qx) == xv * pow(31, 0) + camera_poly(qx.drop_first()));
    } else {
        assert(qx.drop_first() =~= q.drop_first().push(x));
        lemma_camera_poly_push(q.drop_first(), x);
        let p = pow(31, (q.len() - 1) as nat);
        assert(pow(31, q.len() as nat) == 31 * p);
        let a = (q[0] as u64) as int;
        assert(a * (31 * p) == (a * p) * 31) by (nonlinear_arith);
        assert(qx[0] == q[0]);
        let rest = camera_poly(q.drop_first());
        assert(camera_poly(qx) == a * pow(31, q.len() as nat) + camera_poly(qx.drop_first()));
        assert(camera_poly(q) == a * p + rest);
        assert((a * p + rest) * 31 == (a * p) * 31 + rest * 31) by (nonlinear_arith);
    }
}

/// The running hash of `q` is `31` times its polynomial, modulo 2^64.
proof fn lemma_prefix_hash_poly(q: Seq<i32>)
    ensures
        prefix_hash(q) == (camera_poly(q) * 31) % 0x1_0000_0000_0000_0000,
    decreases q.len(),
{
    let m: int = 0x1_0000_0000_0000_0000;
    if q.len() > 0 {
        let p = q.drop_last();
        let x = q.last();
        lemma_prefix_hash_poly(p);
        assert(q =~= p.push(x));
        lemma_camera_poly_push(p, x);
        let a = camera_poly(p) * 31;
        let xv = (x as u64) as int;
        vstd::arithmetic::div_mod::lemma_add_mod_noop(a, xv, m);
        vstd::arithmetic::div_mod::lemma_small_mod(xv as nat, m as nat);
        vstd::arithmetic::div_mod::lemma_mul_mod_noop_left(a + xv, 31, m);
    }
}

/// The change hash is the camera polynomial modulo 2^64: folding each parameter in with a
/// wrapping add and multiply by 31 loses nothing but the wrap.
pub proof fn lemma_change_hash_is_polynomial(q: Seq<i32>)
    ensures
        spec_change_hash(q) == camera_poly(q) % 0x1_0000_0000_0000_0000,
{
    let m: int = 0x1_0000_0000_0000_0000;
    if q.len() > 0 {
        let p = q.drop_last();
        let x = q.last();
        lemma_prefix_hash_poly(p);
        assert(q =~= p.push(x));
        lemma_camera_poly_push(p, x);
        let a = camera_poly(p) * 31;
        let xv = (x as u64) as int;
        vstd::arithmetic::div_mod::lemma_add_mod_noop(a, xv, m);
        vstd::arithmetic::div_mod::lemma_small_mod(xv as nat, m as nat);
    }
}

/// The change hash of the camera parameters (position, forward direction, field of view,
/// aspect ratio, near and far planes), each already scaled by 1000 and truncated to `i32`.
pub fn change_hash(quantised: &[i32; 10]) -> (hash: u64)
    ensures
        hash == spec_change_hash(quantised@),
        hash == camera_poly(quantised@) % 0x1_0000_0000_0000_0000,
{
    proof {
        lemma_change_hash_is_polynomial(quantised@);
    }
    let mut hash: u64 = 0;
    let mut i: usize = 0;
    while i < 9
        invariant
            i <= 9,
            hash == prefix_hash(quantised@.take(i as int)),
        decreases 9 - i,
    {
        let v = quantised[i];
        hash = hash.wrapping_add(v as u64);
        hash = hash.wrapping_mul(31);
        assert(quantised@.take(i + 1).drop_last() =~= quantised@.take(i as int));
        i = i + 1;
    }
    hash = hash.wrapping_add(quantised[9] as u64);
    assert(quantised@.drop_last() =~= quantised@.take(9));
    hash
}

/// Whether the froxel bounds must be recomputed: when the camera's hash differs from the one
/// they were computed for, or when none are cached.
pub fn needs_update(last_camera_hash: u64, current_hash: u64, has_cached_bounds: bool) -> (update: bool)
    ensures
        update == (last_camera_hash != current_hash || !has_cached_bounds),
{
    last_camera_hash != current_hash || !has_cached_bounds
}

} // verus!
