//! How big the renderer's buffers are.
//!
//! The GPU side of drawing is the platform layer's; what is decided here is
//! how much room a frame needs: how many quads the instance buffer holds and
//! how many rows of colour ramp the gradient texture has.

use vstd::arithmetic::power2::{lemma_pow2_unfold, pow2};
use vstd::prelude::*;

verus! {

/// How many samples across each gradient is baked at.
///
/// A gradient is a smooth ramp and the texture is filtered, so this is about
/// banding rather than about resolution. 256 is one byte's worth of steps per
/// channel, which is the point past which more samples cannot show.
pub const GRADIENT_SAMPLES: u32 = 256;

/// How many quads the instance buffer holds before the first frame asks for
/// more.
pub const FIRST_QUAD_CAPACITY: u64 = 256;

/// `power` is the smallest power of two that is at least `n`.
pub open spec fn is_next_power_of_two(power: int, n: int) -> bool {
    exists|e: nat| power == #[trigger] pow2(e) && n <= power && (e == 0 || pow2((e - 1) as nat) < n)
}

/// How many quads the instance buffer holds once a frame of `quads` has been
/// uploaded into one holding `capacity`.
///
/// Doubling rather than fitting exactly: a scene that grows by one quad a
/// frame would otherwise reallocate every frame. So a buffer that is too
/// small becomes the next power of two that is big enough, and one that is
/// big enough is kept.
pub fn quad_capacity(capacity: u64, quads: u64) -> (grown: u64)
    requires
        quads <= 0x8000_0000_0000_0000,
    ensures
        quads <= capacity ==> grown == capacity,
        quads > capacity ==> is_next_power_of_two(grown as int, quads as int),
{
    if quads <= capacity {
        return capacity;
    }
    let mut power: u64 = 1;
    let ghost mut e: nat = 0;
    assert(pow2(0) == 1) by {
        vstd::arithmetic::power2::lemma2_to64();
    }
    while power < quads
        invariant
            power == pow2(e),
            power >= 1,
            e == 0 || pow2((e - 1) as nat) < quads,
            quads <= 0x8000_0000_0000_0000,
        decreases 2 * quads - power,
    {
        proof {
            lemma_pow2_unfold(e + 1);
            e = e + 1;
        }
        power = power * 2;
    }
    proof {
        assert(power == pow2(e) && quads <= power && (e == 0 || pow2((e - 1) as nat) < quads));
    }
    power
}

/// How many rows of colour ramp `ramp_len` samples make: one per gradient,
/// and never fewer than one, so that there is always a texture to bind.
pub fn ramp_rows(ramp_len: usize) -> (rows: u32)
    requires
        (ramp_len as int) / (GRADIENT_SAMPLES as int) <= u32::MAX,
    ensures
        rows == (if (ramp_len as int) / (GRADIENT_SAMPLES as int) < 1 { 1 } else { (ramp_len as int) / (GRADIENT_SAMPLES as int) }),
{
    let whole = ramp_len / (GRADIENT_SAMPLES as usize);
    if whole < 1 {
        1
    } else {
        whole as u32
    }
}

} // verus!
