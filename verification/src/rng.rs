//! The renderer's explicit randomness source: a pure linear-congruential
//! stream over `u64` keys. Every draw is a function of the seed handed to the
//! render call, so a render is reproducible value for value.

use vstd::prelude::*;
use vstd::arithmetic::div_mod::lemma_div_is_ordered;

verus! {

/// Multiplier of the linear-congruential step.
pub const MUL_K: u64 = 6364136223846793005;

/// Increment of the linear-congruential step.
pub const INC_K: u64 = 1442695040888963407;

/// Stride separating derived streams.
pub const STREAM_K: u64 = 0x9e3779b97f4a7c15;

/// Relies on rand::random: draws a value from the thread's generator. Nothing
/// can be promised of the value; a fresh render seed is the only use.
pub assume_specification<T>[ rand::random::<T> ]() -> (r: T)
    where
        rand::distributions::Standard: rand::distributions::Distribution<T>,
;

/// One step of the linear-congruential generator.
pub open spec fn next_state_spec(s: u64) -> u64 {
    vstd::wrapping::u64_specs::wrapping_add(vstd::wrapping::u64_specs::wrapping_mul(s, MUL_K), INC_K)
}

pub fn next_state(s: u64) -> (r: u64)
    ensures
        r == next_state_spec(s),
{
    s.wrapping_mul(MUL_K).wrapping_add(INC_K)
}

/// The key of the `i`-th stream derived from `key`.
pub open spec fn mix_spec(key: u64, i: u64) -> u64 {
    next_state_spec(
        vstd::wrapping::u64_specs::wrapping_add(
            key,
            vstd::wrapping::u64_specs::wrapping_mul(i, STREAM_K),
        ),
    )
}

pub fn mix(key: u64, i: u64) -> (r: u64)
    ensures
        r == mix_spec(key, i),
{
    next_state(key.wrapping_add(i.wrapping_mul(STREAM_K)))
}

/// A centred variate built from a random word: the sum of its four 16-bit
/// chunks, shifted to mean zero. The sum of independent uniform chunks
/// approximates a normal draw.
pub open spec fn variate_spec(w: u64) -> int {
    (w as int) % 65536 + ((w as int) / 65536) % 65536 + ((w as int) / 4294967296) % 65536 + (
    w as int) / 281474976710656 - 131070
}

pub fn variate(w: u64) -> (r: i64)
    ensures
        r as int == variate_spec(w),
        -131070 <= r <= 131070,
{
    let c0 = w % 65536;
    let c1 = (w / 65536) % 65536;
    let c2 = (w / 4294967296) % 65536;
    let c3 = w / 281474976710656;
    proof {
        lemma_div_is_ordered(w as int, u64::MAX as int, 281474976710656);
    }
    ((c0 + c1 + c2 + c3) as i64) - 131070
}

} // verus!
