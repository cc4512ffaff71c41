//! The mathematical model of Keccak-p[1600]: a state is a sequence of 25 lanes,
//! lane `(x, y)` at index `x + 5 * y`.
use vstd::prelude::*;

use crate::{RHO_OFFSETS, ROUND_CONSTANTS};

verus! {

/// Left rotation of a 64-bit word by `n` bits, `n < 64`.
pub open spec fn rotl(x: u64, n: u64) -> u64 {
    if n == 0 {
        x
    } else {
        (x << n) | (x >> ((64 - n) as u64))
    }
}

/// A state is well formed when it holds exactly 25 lanes.
pub open spec fn is_state(a: Seq<u64>) -> bool {
    a.len() == 25
}

/// Parity of column `x`: the xor of the five lanes `(x, 0) .. (x, 4)`.
pub open spec fn column_parity(a: Seq<u64>, x: int) -> u64 {
    a[x] ^ a[x + 5] ^ a[x + 10] ^ a[x + 15] ^ a[x + 20]
}

/// What theta xors into every lane of column `x`.
pub open spec fn theta_effect(a: Seq<u64>, x: int) -> u64 {
    column_parity(a, (x + 4) % 5) ^ rotl(column_parity(a, (x + 1) % 5), 1)
}

pub open spec fn theta(a: Seq<u64>) -> Seq<u64> {
    Seq::new(25, |i: int| a[i] ^ theta_effect(a, i % 5))
}

/// The lane that pi moves to position `i`: pi sends `(x, y)` to `(y, 2x + 3y)`,
/// so position `(X, Y)` receives lane `(X + 3Y, X)`.
pub open spec fn pi_source(i: int) -> int {
    (i % 5 + 3 * (i / 5)) % 5 + 5 * (i % 5)
}

/// Rho followed by pi: every lane is rotated by its own offset, then moved.
pub open spec fn rho_pi(a: Seq<u64>) -> Seq<u64> {
    Seq::new(25, |i: int| rotl(a[pi_source(i)], RHO_OFFSETS[pi_source(i)]))
}

pub open spec fn chi(a: Seq<u64>) -> Seq<u64> {
    Seq::new(
        25,
        |i: int| a[i] ^ (!a[i - i % 5 + (i + 1) % 5] & a[i - i % 5 + (i + 2) % 5]),
    )
}

pub open spec fn iota(a: Seq<u64>, rc: u64) -> Seq<u64> {
    a.update(0, a[0] ^ rc)
}

/// One round with iota constant `rc`.
#[verifier::opaque]
pub open spec fn round_with(a: Seq<u64>, rc: u64) -> Seq<u64> {
    iota(chi(rho_pi(theta(a))), rc)
}

/// Round number `r` (0-based) of the 24-round schedule.
pub open spec fn round(a: Seq<u64>, r: int) -> Seq<u64> {
    round_with(a, ROUND_CONSTANTS[r])
}

/// Rounds `start .. end` of the schedule, applied in order.
pub open spec fn rounds(a: Seq<u64>, start: int, end: int) -> Seq<u64>
    decreases end - start,
{
    if end <= start {
        a
    } else {
        round(rounds(a, start, end - 1), end - 1)
    }
}

/// Keccak-p[1600, n]: the last `n` rounds of the schedule.
pub open spec fn permutation(a: Seq<u64>, n: int) -> Seq<u64> {
    rounds(a, 24 - n, 24)
}

/// Keccak-f[1600]: all 24 rounds.
pub open spec fn keccak_f_spec(a: Seq<u64>) -> Seq<u64> {
    permutation(a, 24)
}

/// `s` with `lanes` xored into positions `offset .. offset + lanes.len()`; every other
/// lane is left as it was.
pub open spec fn xor_into(s: Seq<u64>, offset: int, lanes: Seq<u64>) -> Seq<u64> {
    Seq::new(
        s.len(),
        |l: int|
            if offset <= l < offset + lanes.len() {
                s[l] ^ lanes[l - offset]
            } else {
                s[l]
            },
    )
}

/// The rows of a two-dimensional array, each as a sequence.
pub open spec fn rows<const M: usize, const N: usize>(a: [[u64; M]; N]) -> Seq<Seq<u64>> {
    Seq::new(N as nat, |i: int| a[i]@)
}

/// The transpose of a matrix given by its rows, each `width` long: row `j` of the
/// result is column `j` of `m`.
pub open spec fn transpose(m: Seq<Seq<u64>>, width: nat) -> Seq<Seq<u64>> {
    Seq::new(width, |j: int| Seq::new(m.len(), |i: int| m[i][j]))
}

/// The instances held by a lane-major layout: instance `p` is column `p`.
pub open spec fn instances<const N: usize>(v: [[u64; N]; 25]) -> Seq<Seq<u64>> {
    transpose(rows(v), N as nat)
}

/// Every row of `m` is `width` long.
pub open spec fn is_matrix(m: Seq<Seq<u64>>, width: nat) -> bool {
    forall|i: int| 0 <= i < m.len() ==> #[trigger] m[i].len() == width
}

/// Transposing twice gives the matrix back.
pub proof fn lemma_transpose_twice(m: Seq<Seq<u64>>, width: nat)
    requires
        is_matrix(m, width),
    ensures
        transpose(transpose(m, width), m.len()) == m,
{
    let t = transpose(transpose(m, width), m.len());
    assert forall|i: int| 0 <= i < m.len() implies #[trigger] t[i] == m[i] by {
        assert(t[i] =~= m[i]);
    }
    assert(t =~= m);
}

/// The rows of an array form a matrix of the array's width.
pub proof fn lemma_rows_matrix<const M: usize, const N: usize>(a: [[u64; M]; N])
    ensures
        is_matrix(rows(a), M as nat),
        rows(a).len() == N,
{
}

/// The little-endian 64-bit word in bytes `at .. at + 8` of `b`.
pub open spec fn le_word(b: Seq<u8>, at: int) -> u64 {
    (b[at] as u64) | ((b[at + 1] as u64) << 8) | ((b[at + 2] as u64) << 16) | ((b[at + 3] as u64) << 24)
        | ((b[at + 4] as u64) << 32) | ((b[at + 5] as u64) << 40) | ((b[at + 6] as u64) << 48) | ((
    b[at + 7] as u64) << 56)
}

/// The `n` little-endian words that start at byte `start` of `b`, one every 8 bytes.
pub open spec fn le_words(b: Seq<u8>, start: int, n: int) -> Seq<u64> {
    Seq::new(n as nat, |j: int| le_word(b, start + 8 * j))
}

/// The array whose first `k` elements are `f(0) .. f(k - 1)`; the others are `f(0)`.
pub open spec fn array_of<T: Copy, const N: usize>(f: spec_fn(int) -> T, k: int) -> [T; N]
    decreases k,
{
    if k <= 0 {
        vstd::array::spec_array_fill_for_copy_type(f(0))
    } else {
        vstd::array::spec_array_update(array_of::<T, N>(f, k - 1), k - 1, f(k - 1))
    }
}

pub proof fn lemma_array_of<T: Copy, const N: usize>(f: spec_fn(int) -> T, k: int)
    requires
        0 <= k <= N,
    ensures
        forall|i: int| 0 <= i < k ==> #[trigger] array_of::<T, N>(f, k)[i] == f(i),
    decreases k,
{
    if k > 0 {
        lemma_array_of::<T, N>(f, k - 1);
        let prev = array_of::<T, N>(f, k - 1);
        assert(array_of::<T, N>(f, k)@ == prev@.update(k - 1, f(k - 1)));
    }
}

/// A property of lane positions holds of all 25 once it holds of each.
pub proof fn lemma_each_lane(p: spec_fn(int) -> bool)
    requires
        p(0), p(1), p(2), p(3), p(4),
        p(5), p(6), p(7), p(8), p(9),
        p(10), p(11), p(12), p(13), p(14),
        p(15), p(16), p(17), p(18), p(19),
        p(20), p(21), p(22), p(23), p(24),
    ensures
        forall|i: int| 0 <= i < 25 ==> #[trigger] p(i),
{
}

} // verus!
