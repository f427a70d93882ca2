//! Per-pixel seeding of the sample streams.

use vstd::prelude::*;

verus! {

/// The SplitMix64 finaliser: two xor-shift/multiply rounds and a last
/// xor-shift.
pub open spec fn splitmix_finalize(h0: u64) -> u64 {
    let h1 = h0 ^ (h0 >> 30u64);
    let h2 = h1.wrapping_mul(0xBF58_476D_1CE4_E5B9u64);
    let h3 = h2 ^ (h2 >> 27u64);
    let h4 = h3.wrapping_mul(0x94D0_49BB_1331_11EBu64);
    h4 ^ (h4 >> 31u64)
}

/// The seed of pixel `(x, y)` in pass `sample`: `x` in the high word, `y` in
/// the low word, the pass index spread by the golden-ratio constant, then
/// finalised.
pub open spec fn spec_pixel_seed(x: u32, y: u32, sample: u32) -> u64 {
    let packed = ((x as u64) << 32u64) | (y as u64);
    let spread = (sample as u64).wrapping_mul(0x9E37_79B9_7F4A_7C15u64);
    splitmix_finalize(packed ^ spread)
}

/// Hash (pixel x, pixel y, sample index) into a 64-bit seed via SplitMix64.
/// The same arguments give the same seed on every run and platform.
pub fn pixel_seed(x: u32, y: u32, sample: u32) -> (seed: u64)
    ensures
        seed == spec_pixel_seed(x, y, sample),
{
    let mut h: u64 = ((x as u64) << 32u64) | (y as u64);
    h = h ^ (sample as u64).wrapping_mul(0x9E37_79B9_7F4A_7C15u64);
    h = h ^ (h >> 30u64);
    h = h.wrapping_mul(0xBF58_476D_1CE4_E5B9u64);
    h = h ^ (h >> 27u64);
    h = h.wrapping_mul(0x94D0_49BB_1331_11EBu64);
    h ^ (h >> 31u64)
}

proof fn lemma_unshift(x: u64)
    ensures
        ({
            let y = x ^ (x >> 30u64);
            y ^ (y >> 30u64) ^ (y >> 60u64)
        }) == x,
        ({
            let y = x ^ (x >> 27u64);
            y ^ (y >> 27u64) ^ (y >> 54u64)
        }) == x,
        ({
            let y = x ^ (x >> 31u64);
            y ^ (y >> 31u64) ^ (y >> 62u64)
        }) == x,
{
    assert(({
        let y = x ^ (x >> 30u64);
        y ^ (y >> 30u64) ^ (y >> 60u64)
    }) == x) by (bit_vector);
    assert(({
        let y = x ^ (x >> 27u64);
        y ^ (y >> 27u64) ^ (y >> 54u64)
    }) == x) by (bit_vector);
    assert(({
        let y = x ^ (x >> 31u64);
        y ^ (y >> 31u64) ^ (y >> 62u64)
    }) == x) by (bit_vector);
}

/// Multiplying by `c` modulo 2^64 is undone by multiplying by `ci` when
/// `c * ci` is 1 modulo 2^64.
proof fn lemma_mul_undo(x: u64, c: u64, ci: u64)
    requires
        (c as int * ci as int) % 0x1_0000_0000_0000_0000int == 1,
    ensures
        x.wrapping_mul(c).wrapping_mul(ci) == x,
{
    let m: int = 0x1_0000_0000_0000_0000int;
    let y = x.wrapping_mul(c);
    assert(y as int == (x as int * c as int) % m);
    vstd::arithmetic::div_mod::lemma_mul_mod_noop_left(x as int * c as int, ci as int, m);
    vstd::arithmetic::mul::lemma_mul_is_associative(x as int, c as int, ci as int);
    vstd::arithmetic::div_mod::lemma_mul_mod_noop_right(x as int, c as int * ci as int, m);
    assert(x as int * 1 == x as int);
    vstd::arithmetic::div_mod::lemma_small_mod(x as nat, m as nat);
}

/// The inverse of the SplitMix64 finaliser.
pub open spec fn splitmix_unfinalize(h5: u64) -> u64 {
    let h4 = h5 ^ (h5 >> 31u64) ^ (h5 >> 62u64);
    let h3 = h4.wrapping_mul(0x319642B2D24D8EC3u64);
    let h2 = h3 ^ (h3 >> 27u64) ^ (h3 >> 54u64);
    let h1 = h2.wrapping_mul(0x96DE1B173F119089u64);
    h1 ^ (h1 >> 30u64) ^ (h1 >> 60u64)
}

/// The finaliser is a bijection of `u64`: its inverse undoes it.
pub proof fn lemma_unfinalize(h0: u64)
    ensures
        splitmix_unfinalize(splitmix_finalize(h0)) == h0,
{
    let h1 = h0 ^ (h0 >> 30u64);
    let h2 = h1.wrapping_mul(0xBF58_476D_1CE4_E5B9u64);
    let h3 = h2 ^ (h2 >> 27u64);
    let h4 = h3.wrapping_mul(0x94D0_49BB_1331_11EBu64);
    lemma_unshift(h4);
    lemma_mul_undo(h3, 0x94D0_49BB_1331_11EBu64, 0x319642B2D24D8EC3u64);
    lemma_unshift(h2);
    lemma_mul_undo(h1, 0xBF58_476D_1CE4_E5B9u64, 0x96DE1B173F119089u64);
    lemma_unshift(h0);
}

/// Distinct pixels of one pass, and distinct passes of one pixel, never
/// share a seed.
pub proof fn law_pixel_seeds_distinct(x1: u32, y1: u32, s1: u32, x2: u32, y2: u32, s2: u32)
    requires
        s1 == s2 || (x1 == x2 && y1 == y2),
    ensures
        spec_pixel_seed(x1, y1, s1) == spec_pixel_seed(x2, y2, s2) ==> x1 == x2 && y1 == y2
            && s1 == s2,
{
    let p1 = ((x1 as u64) << 32u64) | (y1 as u64);
    let p2 = ((x2 as u64) << 32u64) | (y2 as u64);
    let g = 0x9E37_79B9_7F4A_7C15u64;
    let d1 = (s1 as u64).wrapping_mul(g);
    let d2 = (s2 as u64).wrapping_mul(g);
    if spec_pixel_seed(x1, y1, s1) == spec_pixel_seed(x2, y2, s2) {
        lemma_unfinalize(p1 ^ d1);
        lemma_unfinalize(p2 ^ d2);
        assert(p1 ^ d1 == p2 ^ d2);
        if s1 == s2 {
            assert(d1 == d2);
            assert(((((x1 as u64) << 32u64) | (y1 as u64)) ^ d1) == ((((x2 as u64) << 32u64) | (
            y2 as u64)) ^ d2) && d1 == d2 ==> x1 == x2 && y1 == y2) by (bit_vector);
        } else {
            assert(p1 == p2);
            assert(p1 ^ d1 == p1 ^ d2 ==> d1 == d2) by (bit_vector);
            lemma_mul_undo(s1 as u64, g, 0xF1DE83E19937733Du64);
            lemma_mul_undo(s2 as u64, g, 0xF1DE83E19937733Du64);
        }
    }
}

} // verus!
