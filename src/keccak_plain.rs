//! The scalar engine: 25 lanes held in ordinary 64-bit words.
use vstd::prelude::*;

use crate::model::{chi, iota, lemma_each_lane, permutation, rho_pi, rotl, round, round_with, rounds, theta, keccak_f_spec, xor_into, le_word};
use crate::ROUND_CONSTANTS;

verus! {

/// Left rotation by `n` bits, `0 < n < 64`.
pub fn rol(x: u64, n: u32) -> (r: u64)
    requires
        0 < n < 64,
    ensures
        r == rotl(x, n as u64),
{
    (x << n) | (x >> (64 - n))
}

/// One round of Keccak-f[1600] with iota constant `rc`; rho and pi are fused into
/// a single pass over the theta output.
pub fn keccak_round(a: &[u64; 25], rc: u64) -> (r: [u64; 25])
    ensures
        r@ == round_with(a@, rc),
{
    let c0 = a[0] ^ a[5] ^ a[10] ^ a[15] ^ a[20];
    let c1 = a[1] ^ a[6] ^ a[11] ^ a[16] ^ a[21];
    let c2 = a[2] ^ a[7] ^ a[12] ^ a[17] ^ a[22];
    let c3 = a[3] ^ a[8] ^ a[13] ^ a[18] ^ a[23];
    let c4 = a[4] ^ a[9] ^ a[14] ^ a[19] ^ a[24];

    let d0 = c4 ^ rol(c1, 1);
    let d1 = c0 ^ rol(c2, 1);
    let d2 = c1 ^ rol(c3, 1);
    let d3 = c2 ^ rol(c4, 1);
    let d4 = c3 ^ rol(c0, 1);

    let b00 = a[0] ^ d0;
    let b01 = rol(a[6] ^ d1, 44);
    let b02 = rol(a[12] ^ d2, 43);
    let b03 = rol(a[18] ^ d3, 21);
    let b04 = rol(a[24] ^ d4, 14);
    let b05 = rol(a[3] ^ d3, 28);
    let b06 = rol(a[9] ^ d4, 20);
    let b07 = rol(a[10] ^ d0, 3);
    let b08 = rol(a[16] ^ d1, 45);
    let b09 = rol(a[22] ^ d2, 61);
    let b10 = rol(a[1] ^ d1, 1);
    let b11 = rol(a[7] ^ d2, 6);
    let b12 = rol(a[13] ^ d3, 25);
    let b13 = rol(a[19] ^ d4, 8);
    let b14 = rol(a[20] ^ d0, 18);
    let b15 = rol(a[4] ^ d4, 27);
    let b16 = rol(a[5] ^ d0, 36);
    let b17 = rol(a[11] ^ d1, 10);
    let b18 = rol(a[17] ^ d2, 15);
    let b19 = rol(a[23] ^ d3, 56);
    let b20 = rol(a[2] ^ d2, 62);
    let b21 = rol(a[8] ^ d3, 55);
    let b22 = rol(a[14] ^ d4, 39);
    let b23 = rol(a[15] ^ d0, 41);
    let b24 = rol(a[21] ^ d1, 2);

    let b = [
        b00, b01, b02, b03, b04,
        b05, b06, b07, b08, b09,
        b10, b11, b12, b13, b14,
        b15, b16, b17, b18, b19,
        b20, b21, b22, b23, b24,
    ];
    proof {
        let t = theta(a@);
        lemma_each_lane(|i: int| b@[i] == rho_pi(t)[i]);
        assert(b@ =~= rho_pi(t));
    }

    let r = [
        b00 ^ (!b01 & b02) ^ rc, b01 ^ (!b02 & b03), b02 ^ (!b03 & b04), b03 ^ (!b04 & b00), b04 ^ (!b00 & b01),
        b05 ^ (!b06 & b07), b06 ^ (!b07 & b08), b07 ^ (!b08 & b09), b08 ^ (!b09 & b05), b09 ^ (!b05 & b06),
        b10 ^ (!b11 & b12), b11 ^ (!b12 & b13), b12 ^ (!b13 & b14), b13 ^ (!b14 & b10), b14 ^ (!b10 & b11),
        b15 ^ (!b16 & b17), b16 ^ (!b17 & b18), b17 ^ (!b18 & b19), b18 ^ (!b19 & b15), b19 ^ (!b15 & b16),
        b20 ^ (!b21 & b22), b21 ^ (!b22 & b23), b22 ^ (!b23 & b24), b23 ^ (!b24 & b20), b24 ^ (!b20 & b21),
    ];
    proof {
        let c = chi(b@);
        lemma_each_lane(|i: int| r@[i] == iota(c, rc)[i]);
        assert(r@ =~= iota(c, rc));
        reveal(round_with);
    }
    r
}

/// Keccak-p[1600, ROUNDS]: writes to `dst` the state that the last `ROUNDS` rounds of
/// the 24-round schedule make of `src` (round indices `24 - ROUNDS .. 24`).
pub fn keccak_p<const ROUNDS: usize>(dst: &mut [u64; 25], src: &[u64; 25])
    requires
        ROUNDS <= 24,
    ensures
        final(dst)@ == permutation(src@, ROUNDS as int),
        final(dst)@ == rounds(src@, 24 - ROUNDS, 24),
{
    let mut s: [u64; 25] = *src;
    let mut i: usize = 24 - ROUNDS;
    while i < 24
        invariant
            24 - ROUNDS <= i <= 24,
            s@ == rounds(src@, 24 - ROUNDS, i as int),
        decreases 24 - i,
    {
        s = keccak_round(&s, ROUND_CONSTANTS[i]);
        i = i + 1;
    }
    *dst = s;
}

/// Keccak-f[1600]: the full 24-round permutation.
pub fn keccak_f(src: &[u64; 25]) -> (r: [u64; 25])
    ensures
        r@ == keccak_f_spec(src@),
{
    let mut dst: [u64; 25] = [0; 25];
    keccak_p::<24>(&mut dst, src);
    dst
}

/// Xors `lanes` into `state` at lanes `offset .. offset + LANES`; the other lanes keep
/// their value.
pub fn xor_lanes<const LANES: usize>(state: &mut [u64; 25], offset: usize, lanes: &[u64; LANES])
    requires
        offset + LANES <= 25,
    ensures
        final(state)@ == xor_into(old(state)@, offset as int, lanes@),
{
    let mut l: usize = 0;
    while l < LANES
        invariant
            l <= LANES,
            offset + LANES <= 25,
            forall|k: int|
                0 <= k < 25 ==> #[trigger] state[k] == if offset <= k < offset + l {
                    old(state)[k] ^ lanes[k - offset]
                } else {
                    old(state)[k]
                },
        decreases LANES - l,
    {
        let w = state[offset + l] ^ lanes[l];
        state[offset + l] = w;
        l = l + 1;
    }
    assert(state@ =~= xor_into(old(state)@, offset as int, lanes@));
}

/// The little-endian word in bytes `at .. at + 8` of `b`.
pub fn read_le_u64(b: &[u8], at: usize) -> (r: u64)
    requires
        at + 8 <= b@.len(),
    ensures
        r == le_word(b@, at as int),
{
    (b[at] as u64) | ((b[at + 1] as u64) << 8) | ((b[at + 2] as u64) << 16) | ((b[at + 3] as u64) << 24)
        | ((b[at + 4] as u64) << 32) | ((b[at + 5] as u64) << 40) | ((b[at + 6] as u64) << 48) | ((
    b[at + 7] as u64) << 56)
}

} // verus!
