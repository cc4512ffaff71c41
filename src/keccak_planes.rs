//! The plane engine: one state in five 8-word registers, one register per row of
//! five lanes plus three padding words that stay zero. Rounds go in pairs: the even
//! round leaves the state by columns, a harmonizing shuffle turns that into a
//! diagonal arrangement, and the odd round, whose pi step then stays inside each
//! register, brings it back to rows.
use vstd::prelude::*;

use crate::keccak_plain::rol;
use crate::model::{
    array_of, lemma_array_of,
    chi, iota, lemma_each_lane, permutation, rho_pi, rotl, round_with, rounds, theta, xor_into,
};
use crate::ROUND_CONSTANTS;

verus! {

/// Eight 64-bit words, as held by one 512-bit register.
pub type Word8 = [u64; 8];

/// Lane rotations within the five used words: `THETA_PERM[d - 1]` moves the word at
/// `k` to `k + d` (mod 5).
pub const THETA_PERM: [[usize; 8]; 4] = [
    [4, 0, 1, 2, 3, 5, 6, 7],
    [3, 4, 0, 1, 2, 5, 6, 7],
    [2, 3, 4, 0, 1, 5, 6, 7],
    [1, 2, 3, 4, 0, 5, 6, 7],
];

/// Rotation offsets: rows 0 to 4 are the rho offsets of rows 0 to 4 of the state;
/// rows 5 to 9 those of the diagonal registers of the odd round.
pub const RHOTATES: [[u32; 8]; 10] = [
    [0, 1, 62, 28, 27, 0, 0, 0],
    [36, 44, 6, 55, 20, 0, 0, 0],
    [3, 10, 43, 25, 39, 0, 0, 0],
    [41, 45, 15, 21, 8, 0, 0, 0],
    [18, 2, 61, 56, 14, 0, 0, 0],
    [0, 44, 43, 21, 14, 0, 0, 0],
    [18, 1, 6, 25, 8, 0, 0, 0],
    [41, 2, 62, 55, 39, 0, 0, 0],
    [3, 45, 61, 28, 20, 0, 0, 0],
    [36, 10, 15, 56, 27, 0, 0, 0],
];

/// The pi step of the even round: register `y` of rotated row `y` becomes column
/// `y`, word `Y` taking the lane of row `y` that pi sends to row `Y`.
pub const PI_PERM: [[usize; 8]; 5] = [
    [0, 3, 1, 4, 2, 5, 6, 7],
    [1, 4, 2, 0, 3, 5, 6, 7],
    [2, 0, 3, 1, 4, 5, 6, 7],
    [3, 1, 4, 2, 0, 5, 6, 7],
    [4, 2, 0, 3, 1, 5, 6, 7],
];

/// Lanes by rows: register `y`, word `x` holds lane `(x, y)`.
pub open spec fn row_layout(s: [Word8; 5]) -> Seq<u64> {
    Seq::new(25, |i: int| s[i / 5][i % 5])
}

/// Lanes by columns: register `x`, word `y` holds lane `(x, y)`.
pub open spec fn column_layout(s: [Word8; 5]) -> Seq<u64> {
    Seq::new(25, |i: int| s[i % 5][i / 5])
}

/// Lanes by diagonals: register `x - y` (mod 5), word `x` holds lane `(x, y)`.
pub open spec fn diagonal_layout(s: [Word8; 5]) -> Seq<u64> {
    Seq::new(25, |i: int| s[(i % 5 + 5 - i / 5) % 5][i % 5])
}

/// The odd round after rho: register `y` holds row `y` of the pi output, its lane
/// `x` at word `x + 3y` (mod 5).
pub open spec fn skewed_row_layout(s: [Word8; 5]) -> Seq<u64> {
    Seq::new(25, |i: int| s[i / 5][(i % 5 + 3 * (i / 5)) % 5])
}

/// The three padding words of every register are zero.
pub open spec fn padding_clear(s: [Word8; 5]) -> bool {
    forall|y: int, k: int| 0 <= y < 5 && 5 <= k < 8 ==> #[trigger] s[y][k] == 0
}

proof fn lemma_zero_words()
    ensures
        0u64 ^ 0u64 == 0u64,
        0u64 ^ (!0u64 & 0u64) == 0u64,
        rotl(0u64, 1) == 0u64,
{
    assert(0u64 ^ 0u64 == 0u64) by (bit_vector);
    assert(0u64 ^ (!0u64 & 0u64) == 0u64) by (bit_vector);
    assert((0u64 << 1u64) | (0u64 >> 63u64) == 0u64) by (bit_vector);
}

/// The five ways in which the odd round meets the lanes of a column give its parity.
proof fn lemma_parity_orders(e0: u64, e1: u64, e2: u64, e3: u64, e4: u64)
    ensures
        e0 ^ e4 ^ e3 ^ e2 ^ e1 == e0 ^ e1 ^ e2 ^ e3 ^ e4,
        e1 ^ e0 ^ e4 ^ e3 ^ e2 == e0 ^ e1 ^ e2 ^ e3 ^ e4,
        e2 ^ e1 ^ e0 ^ e4 ^ e3 == e0 ^ e1 ^ e2 ^ e3 ^ e4,
        e3 ^ e2 ^ e1 ^ e0 ^ e4 == e0 ^ e1 ^ e2 ^ e3 ^ e4,
        e4 ^ e3 ^ e2 ^ e1 ^ e0 == e0 ^ e1 ^ e2 ^ e3 ^ e4,
{
    assert(e0 ^ e4 ^ e3 ^ e2 ^ e1 == e0 ^ e1 ^ e2 ^ e3 ^ e4) by (bit_vector);
    assert(e1 ^ e0 ^ e4 ^ e3 ^ e2 == e0 ^ e1 ^ e2 ^ e3 ^ e4) by (bit_vector);
    assert(e2 ^ e1 ^ e0 ^ e4 ^ e3 == e0 ^ e1 ^ e2 ^ e3 ^ e4) by (bit_vector);
    assert(e3 ^ e2 ^ e1 ^ e0 ^ e4 == e0 ^ e1 ^ e2 ^ e3 ^ e4) by (bit_vector);
    assert(e4 ^ e3 ^ e2 ^ e1 ^ e0 == e0 ^ e1 ^ e2 ^ e3 ^ e4) by (bit_vector);
}

fn xor(a: &Word8, b: &Word8) -> (r: Word8)
    ensures
        forall|k: int| 0 <= k < 8 ==> #[trigger] r[k] == a[k] ^ b[k],
{
    [
        a[0] ^ b[0], a[1] ^ b[1], a[2] ^ b[2], a[3] ^ b[3],
        a[4] ^ b[4], a[5] ^ b[5], a[6] ^ b[6], a[7] ^ b[7],
    ]
}

/// The xor of five registers, word by word, in argument order.
fn xor5(a: &Word8, b: &Word8, c: &Word8, d: &Word8, e: &Word8) -> (r: Word8)
    ensures
        forall|k: int| 0 <= k < 8 ==> #[trigger] r[k] == a[k] ^ b[k] ^ c[k] ^ d[k] ^ e[k],
{
    xor(&xor(&xor(&xor(a, b), c), d), e)
}

/// `a ^ (!b & c)`, word by word.
fn chi3(a: &Word8, b: &Word8, c: &Word8) -> (r: Word8)
    ensures
        forall|k: int| 0 <= k < 8 ==> #[trigger] r[k] == a[k] ^ (!b[k] & c[k]),
{
    [
        a[0] ^ (!b[0] & c[0]), a[1] ^ (!b[1] & c[1]), a[2] ^ (!b[2] & c[2]),
        a[3] ^ (!b[3] & c[3]), a[4] ^ (!b[4] & c[4]), a[5] ^ (!b[5] & c[5]),
        a[6] ^ (!b[6] & c[6]), a[7] ^ (!b[7] & c[7]),
    ]
}

/// Word `k` of the result is word `idx[k]` of `a`.
fn perm(idx: &[usize; 8], a: &Word8) -> (r: Word8)
    requires
        forall|k: int| 0 <= k < 8 ==> #[trigger] idx[k] < 8,
    ensures
        forall|k: int| 0 <= k < 8 ==> #[trigger] r[k] == a[idx[k] as int],
{
    [
        a[idx[0]], a[idx[1]], a[idx[2]], a[idx[3]],
        a[idx[4]], a[idx[5]], a[idx[6]], a[idx[7]],
    ]
}

fn rot(x: u64, n: u32) -> (r: u64)
    requires
        n < 64,
    ensures
        r == rotl(x, n as u64),
{
    if n == 0 {
        x
    } else {
        rol(x, n)
    }
}

/// Word `k` rotated left by `n[k]`.
fn rolv(a: &Word8, n: &[u32; 8]) -> (r: Word8)
    requires
        forall|k: int| 0 <= k < 8 ==> #[trigger] n[k] < 64,
    ensures
        forall|k: int| 0 <= k < 8 ==> #[trigger] r[k] == rotl(a[k], n[k] as u64),
{
    [
        rot(a[0], n[0]), rot(a[1], n[1]), rot(a[2], n[2]), rot(a[3], n[3]),
        rot(a[4], n[4]), rot(a[5], n[5]), rot(a[6], n[6]), rot(a[7], n[7]),
    ]
}

/// Word `k` of register `k` for the five used words; the padding of `a`.
fn build(a: &Word8, b: &Word8, c: &Word8, d: &Word8, e: &Word8) -> (r: Word8)
    ensures
        r[0] == a[0],
        r[1] == b[1],
        r[2] == c[2],
        r[3] == d[3],
        r[4] == e[4],
        r[5] == a[5],
        r[6] == a[6],
        r[7] == a[7],
{
    [a[0], b[1], c[2], d[3], e[4], a[5], a[6], a[7]]
}

fn rol1(a: &Word8) -> (r: Word8)
    ensures
        forall|k: int| 0 <= k < 8 ==> #[trigger] r[k] == rotl(a[k], 1),
{
    [
        rol(a[0], 1), rol(a[1], 1), rol(a[2], 1), rol(a[3], 1),
        rol(a[4], 1), rol(a[5], 1), rol(a[6], 1), rol(a[7], 1),
    ]
}

/// Xors the round constant into word 0.
fn iota_word(a: &Word8, rc: u64) -> (r: Word8)
    ensures
        r[0] == a[0] ^ rc,
        forall|k: int| 1 <= k < 8 ==> #[trigger] r[k] == a[k],
{
    [a[0] ^ rc, a[1], a[2], a[3], a[4], a[5], a[6], a[7]]
}

/// What theta xors into every lane of column `x`, from the parity `c[x]` of each
/// column.
fn theta_effects(c: &Word8) -> (d: Word8)
    ensures
        forall|x: int| 0 <= x < 5 ==> #[trigger] d[x] == c[(x + 4) % 5] ^ rotl(c[(x + 1) % 5], 1),
        forall|k: int| 5 <= k < 8 ==> #[trigger] d[k] == c[k] ^ rotl(c[k], 1),
{
    let t6 = perm(&THETA_PERM[3], &rol1(c));
    let t5 = perm(&THETA_PERM[0], c);
    xor(&t5, &t6)
}

/// What theta xors into each column of the state held by `s`, whose column parities
/// are `c`.
fn theta_of_parities(c: &Word8, Ghost(a): Ghost<Seq<u64>>) -> (d: Word8)
    requires
        forall|x: int| 0 <= x < 5 ==> #[trigger] c[x] == crate::model::column_parity(a, x),
        forall|k: int| 5 <= k < 8 ==> #[trigger] c[k] == 0,
    ensures
        forall|x: int| 0 <= x < 5 ==> #[trigger] d[x] == crate::model::theta_effect(a, x),
        forall|k: int| 5 <= k < 8 ==> #[trigger] d[k] == 0,
{
    let d = theta_effects(c);
    proof {
        lemma_zero_words();
        assert forall|x: int| 0 <= x < 5 implies #[trigger] d[x] == crate::model::theta_effect(a, x) by {
            assert(c[(x + 4) % 5] == crate::model::column_parity(a, (x + 4) % 5));
            assert(c[(x + 1) % 5] == crate::model::column_parity(a, (x + 1) % 5));
        }
    }
    d
}

/// Theta, rho and pi of the even round: the rows of `s` with `d` xored in, rotated,
/// and laid out by columns.
fn even_rho_pi(s: &[Word8; 5], d: &Word8) -> (b: [Word8; 5])
    requires
        padding_clear(*s),
        forall|x: int| 0 <= x < 5 ==> #[trigger] d[x] == crate::model::theta_effect(row_layout(*s), x),
        forall|k: int| 5 <= k < 8 ==> #[trigger] d[k] == 0,
    ensures
        column_layout(b) == rho_pi(theta(row_layout(*s))),
        padding_clear(b),
{
    let b0 = perm(&PI_PERM[0], &rolv(&xor(&s[0], d), &RHOTATES[0]));
    let b1 = perm(&PI_PERM[1], &rolv(&xor(&s[1], d), &RHOTATES[1]));
    let b2 = perm(&PI_PERM[2], &rolv(&xor(&s[2], d), &RHOTATES[2]));
    let b3 = perm(&PI_PERM[3], &rolv(&xor(&s[3], d), &RHOTATES[3]));
    let b4 = perm(&PI_PERM[4], &rolv(&xor(&s[4], d), &RHOTATES[4]));
    let b = [b0, b1, b2, b3, b4];
    proof {
        lemma_zero_words();
        let t = theta(row_layout(*s));
        lemma_each_lane(|i: int| column_layout(b)[i] == rho_pi(t)[i]);
        assert(column_layout(b) =~= rho_pi(t));
    }
    b
}

/// Chi and iota on a state held by columns.
fn chi_iota_columns(b: &[Word8; 5], rc: u64) -> (r: [Word8; 5])
    requires
        padding_clear(*b),
    ensures
        column_layout(r) == iota(chi(column_layout(*b)), rc),
        padding_clear(r),
{
    let a0 = iota_word(&chi3(&b[0], &b[1], &b[2]), rc);
    let a1 = chi3(&b[1], &b[2], &b[3]);
    let a2 = chi3(&b[2], &b[3], &b[4]);
    let a3 = chi3(&b[3], &b[4], &b[0]);
    let a4 = chi3(&b[4], &b[0], &b[1]);
    let r = [a0, a1, a2, a3, a4];
    proof {
        lemma_zero_words();
        let e = chi(column_layout(*b));
        lemma_each_lane(|i: int| column_layout(r)[i] == iota(e, rc)[i]);
        assert(column_layout(r) =~= iota(e, rc));
    }
    r
}

/// A round on a state held by rows; the result is held by columns.
fn even_round(s: &[Word8; 5], rc: u64) -> (r: [Word8; 5])
    requires
        padding_clear(*s),
    ensures
        column_layout(r) == round_with(row_layout(*s), rc),
        padding_clear(r),
{
    let c = xor5(&s[0], &s[1], &s[2], &s[3], &s[4]);
    proof {
        lemma_zero_words();
    }
    let d = theta_of_parities(&c, Ghost(row_layout(*s)));
    let b = even_rho_pi(s, &d);
    let r = chi_iota_columns(&b, rc);
    proof {
        reveal(round_with);
    }
    r
}

/// Turns a state held by columns into the same state held by diagonals.
fn harmonize(a: &[Word8; 5]) -> (s: [Word8; 5])
    requires
        padding_clear(*a),
    ensures
        diagonal_layout(s) == column_layout(*a),
        padding_clear(s),
{
    let s0 = build(&a[0], &a[1], &a[2], &a[3], &a[4]);
    let s1 = perm(&THETA_PERM[0], &build(&a[1], &a[2], &a[3], &a[4], &a[0]));
    let s2 = perm(&THETA_PERM[1], &build(&a[2], &a[3], &a[4], &a[0], &a[1]));
    let s3 = perm(&THETA_PERM[2], &build(&a[3], &a[4], &a[0], &a[1], &a[2]));
    let s4 = perm(&THETA_PERM[3], &build(&a[4], &a[0], &a[1], &a[2], &a[3]));
    let s = [s0, s1, s2, s3, s4];
    proof {
        lemma_each_lane(|i: int| diagonal_layout(s)[i] == column_layout(*a)[i]);
        assert(diagonal_layout(s) =~= column_layout(*a));
    }
    s
}

/// Turns a state held by columns into the same state held by rows.
fn columns_to_rows(a: &[Word8; 5]) -> (s: [Word8; 5])
    requires
        padding_clear(*a),
    ensures
        row_layout(s) == column_layout(*a),
        padding_clear(s),
{
    let s0 = build(
        &a[0],
        &perm(&THETA_PERM[0], &a[1]),
        &perm(&THETA_PERM[1], &a[2]),
        &perm(&THETA_PERM[2], &a[3]),
        &perm(&THETA_PERM[3], &a[4]),
    );
    let s1 = build(
        &perm(&THETA_PERM[3], &a[0]),
        &a[1],
        &perm(&THETA_PERM[0], &a[2]),
        &perm(&THETA_PERM[1], &a[3]),
        &perm(&THETA_PERM[2], &a[4]),
    );
    let s2 = build(
        &perm(&THETA_PERM[2], &a[0]),
        &perm(&THETA_PERM[3], &a[1]),
        &a[2],
        &perm(&THETA_PERM[0], &a[3]),
        &perm(&THETA_PERM[1], &a[4]),
    );
    let s3 = build(
        &perm(&THETA_PERM[1], &a[0]),
        &perm(&THETA_PERM[2], &a[1]),
        &perm(&THETA_PERM[3], &a[2]),
        &a[3],
        &perm(&THETA_PERM[0], &a[4]),
    );
    let s4 = build(
        &perm(&THETA_PERM[0], &a[0]),
        &perm(&THETA_PERM[1], &a[1]),
        &perm(&THETA_PERM[2], &a[2]),
        &perm(&THETA_PERM[3], &a[3]),
        &a[4],
    );
    let s = [s0, s1, s2, s3, s4];
    proof {
        lemma_each_lane(|i: int| row_layout(s)[i] == column_layout(*a)[i]);
        assert(row_layout(s) =~= column_layout(*a));
    }
    s
}

/// Column parities of a state held by diagonals.
fn diagonal_parities(s: &[Word8; 5]) -> (c: Word8)
    requires
        padding_clear(*s),
    ensures
        forall|x: int| 0 <= x < 5 ==> #[trigger] c[x] == crate::model::column_parity(diagonal_layout(*s), x),
        forall|k: int| 5 <= k < 8 ==> #[trigger] c[k] == 0,
{
    let c = xor5(&s[0], &s[1], &s[2], &s[3], &s[4]);
    proof {
        lemma_zero_words();
        let a = diagonal_layout(*s);
        lemma_parity_orders(a[0], a[5], a[10], a[15], a[20]);
        lemma_parity_orders(a[1], a[6], a[11], a[16], a[21]);
        lemma_parity_orders(a[2], a[7], a[12], a[17], a[22]);
        lemma_parity_orders(a[3], a[8], a[13], a[18], a[23]);
        lemma_parity_orders(a[4], a[9], a[14], a[19], a[24]);
        assert(c[0] == crate::model::column_parity(a, 0));
        assert(c[1] == crate::model::column_parity(a, 1));
        assert(c[2] == crate::model::column_parity(a, 2));
        assert(c[3] == crate::model::column_parity(a, 3));
        assert(c[4] == crate::model::column_parity(a, 4));
    }
    c
}

/// Theta, rho and pi of the odd round: each diagonal register, with `d` xored in and
/// rotated, holds one row of the pi output.
fn odd_rho_pi(s: &[Word8; 5], d: &Word8) -> (a: [Word8; 5])
    requires
        padding_clear(*s),
        forall|x: int| 0 <= x < 5 ==> #[trigger] d[x] == crate::model::theta_effect(diagonal_layout(*s), x),
        forall|k: int| 5 <= k < 8 ==> #[trigger] d[k] == 0,
    ensures
        skewed_row_layout(a) == rho_pi(theta(diagonal_layout(*s))),
        padding_clear(a),
{
    let a0 = rolv(&xor(&s[0], d), &RHOTATES[5]);
    let a1 = rolv(&xor(&s[3], d), &RHOTATES[8]);
    let a2 = rolv(&xor(&s[1], d), &RHOTATES[6]);
    let a3 = rolv(&xor(&s[4], d), &RHOTATES[9]);
    let a4 = rolv(&xor(&s[2], d), &RHOTATES[7]);
    let a = [a0, a1, a2, a3, a4];
    proof {
        lemma_zero_words();
        let t = theta(diagonal_layout(*s));
        lemma_each_lane(|i: int| skewed_row_layout(a)[i] == rho_pi(t)[i]);
        assert(skewed_row_layout(a) =~= rho_pi(t));
    }
    a
}

/// Chi and iota of the odd round, which leave the state held by rows.
fn odd_chi_iota(a: &[Word8; 5], rc: u64) -> (r: [Word8; 5])
    requires
        padding_clear(*a),
    ensures
        row_layout(r) == iota(chi(skewed_row_layout(*a)), rc),
        padding_clear(r),
{
    let r0 = iota_word(
        &chi3(&a[0], &perm(&THETA_PERM[3], &a[0]), &perm(&THETA_PERM[2], &a[0])),
        rc,
    );
    let r1 = chi3(&perm(&THETA_PERM[1], &a[1]), &perm(&THETA_PERM[0], &a[1]), &a[1]);
    let r2 = chi3(
        &perm(&THETA_PERM[3], &a[2]),
        &perm(&THETA_PERM[2], &a[2]),
        &perm(&THETA_PERM[1], &a[2]),
    );
    let r3 = chi3(&perm(&THETA_PERM[0], &a[3]), &a[3], &perm(&THETA_PERM[3], &a[3]));
    let r4 = chi3(
        &perm(&THETA_PERM[2], &a[4]),
        &perm(&THETA_PERM[1], &a[4]),
        &perm(&THETA_PERM[0], &a[4]),
    );
    let r = [r0, r1, r2, r3, r4];
    proof {
        lemma_zero_words();
        let e = chi(skewed_row_layout(*a));
        lemma_each_lane(|i: int| row_layout(r)[i] == iota(e, rc)[i]);
        assert(row_layout(r) =~= iota(e, rc));
    }
    r
}

/// A round on a state held by diagonals; the result is held by rows.
fn odd_round(s: &[Word8; 5], rc: u64) -> (r: [Word8; 5])
    requires
        padding_clear(*s),
    ensures
        row_layout(r) == round_with(diagonal_layout(*s), rc),
        padding_clear(r),
{
    let c = diagonal_parities(s);
    let d = theta_of_parities(&c, Ghost(diagonal_layout(*s)));
    let a = odd_rho_pi(s, &d);
    let r = odd_chi_iota(&a, rc);
    proof {
        reveal(round_with);
    }
    r
}

/// Lane `(x, y)` is at index `x + 5 * y`.
proof fn lemma_lane_index(x: int, y: int)
    requires
        0 <= x < 5,
        0 <= y < 5,
    ensures
        (5 * y + x) / 5 == y,
        (5 * y + x) % 5 == x,
{
    assert((5 * y + x) / 5 == y && (5 * y + x) % 5 == x) by (nonlinear_arith)
        requires
            0 <= x < 5,
            0 <= y < 5,
    ;
}

proof fn lemma_word_equality(a: u64, b: u64, c: u64)
    ensures
        (a ^ b) == 0 <==> a == b,
        (a | c) == 0 <==> a == 0 && c == 0,
{
    assert((a ^ b) == 0 <==> a == b) by (bit_vector);
    assert((a | c) == 0 <==> a == 0 && c == 0) by (bit_vector);
}

fn or(a: &Word8, b: &Word8) -> (r: Word8)
    ensures
        forall|k: int| 0 <= k < 8 ==> #[trigger] r[k] == a[k] | b[k],
{
    [
        a[0] | b[0], a[1] | b[1], a[2] | b[2], a[3] | b[3],
        a[4] | b[4], a[5] | b[5], a[6] | b[6], a[7] | b[7],
    ]
}

/// A Keccak-f[1600] state held by rows in five 8-word registers.
#[derive(Debug, Clone, Copy)]
pub struct KeccakState {
    planes: [Word8; 5],
}

impl View for KeccakState {
    type V = Seq<u64>;

    /// The canonical state: lane `(x, y)` at index `x + 5 * y`.
    open spec fn view(&self) -> Seq<u64> {
        Seq::new(25, |i: int| self.lane(i))
    }
}

impl KeccakState {
    /// Lane `i` of the canonical state.
    pub closed spec fn lane(&self, i: int) -> u64 {
        self.planes[i / 5][i % 5]
    }

    /// The padding words are zero, so the lanes determine the value.
    pub closed spec fn well_formed(&self) -> bool {
        padding_clear(self.planes)
    }

    #[verifier::type_invariant]
    closed spec fn padding_is_clear(&self) -> bool {
        self.well_formed()
    }

    proof fn lemma_view_is_rows(&self)
        ensures
            self@ == row_layout(self.planes),
    {
        assert(self@ =~= row_layout(self.planes));
    }

    /// Two well-formed states with the same lanes are the same value.
    pub proof fn lemma_view_determines(&self, other: &Self)
        requires
            self.well_formed(),
            other.well_formed(),
            self@ == other@,
        ensures
            *self == *other,
    {
        assert forall|y: int| 0 <= y < 5 implies self.planes[y] == other.planes[y] by {
            assert forall|k: int| 0 <= k < 8 implies self.planes[y][k] == other.planes[y][k] by {
                if k < 5 {
                    lemma_lane_index(k, y);
                    assert(self@[5 * y + k] == other@[5 * y + k]);
                    assert(self@[5 * y + k] == self.lane(5 * y + k));
                    assert(other@[5 * y + k] == other.lane(5 * y + k));
                    assert(self.lane(5 * y + k) == self.planes[y][k]);
                    assert(other.lane(5 * y + k) == other.planes[y][k]);
                } else {
                    assert(padding_clear(self.planes));
                    assert(padding_clear(other.planes));
                    assert(self.planes[y][k] == 0);
                    assert(other.planes[y][k] == 0);
                }
            }
            assert(self.planes[y] =~= other.planes[y]);
        }
        assert(self.planes =~= other.planes);
    }

    /// The state holding `lanes`.
    fn from_lanes(v: &[u64; 25]) -> (r: Self)
        ensures
            r@ == v@,
            r.well_formed(),
    {
        let planes = [
            [v[0], v[1], v[2], v[3], v[4], 0, 0, 0],
            [v[5], v[6], v[7], v[8], v[9], 0, 0, 0],
            [v[10], v[11], v[12], v[13], v[14], 0, 0, 0],
            [v[15], v[16], v[17], v[18], v[19], 0, 0, 0],
            [v[20], v[21], v[22], v[23], v[24], 0, 0, 0],
        ];
        let r = KeccakState { planes };
        proof {
            lemma_each_lane(|i: int| r@[i] == v@[i]);
            assert(r@ =~= v@);
        }
        r
    }

    /// The 25 lanes in canonical order.
    fn to_lanes(&self) -> (r: [u64; 25])
        ensures
            r@ == self@,
    {
        let p = &self.planes;
        let r = [
            p[0][0], p[0][1], p[0][2], p[0][3], p[0][4],
            p[1][0], p[1][1], p[1][2], p[1][3], p[1][4],
            p[2][0], p[2][1], p[2][2], p[2][3], p[2][4],
            p[3][0], p[3][1], p[3][2], p[3][3], p[3][4],
            p[4][0], p[4][1], p[4][2], p[4][3], p[4][4],
        ];
        proof {
            lemma_each_lane(|i: int| r@[i] == self@[i]);
            assert(r@ =~= self@);
        }
        r
    }

    /// Keccak-p[1600, ROUNDS]: the last `ROUNDS` rounds of the schedule, two rounds
    /// per pass.
    pub fn keccak_p<const ROUNDS: usize>(&self) -> (r: KeccakState)
        requires
            ROUNDS <= 24,
        ensures
            r@ == permutation(self@, ROUNDS as int),
            r.well_formed(),
    {
        proof {
            use_type_invariant(self);
            self.lemma_view_is_rows();
        }
        let start: usize = 24 - ROUNDS;
        let mut s = self.planes;
        let mut r: usize = start;
        while r < 24
            invariant
                start <= r <= 24,
                start == 24 - ROUNDS,
                padding_clear(s),
                row_layout(s) == rounds(self@, start as int, r as int),
            decreases 24 - r,
        {
            let a = even_round(&s, ROUND_CONSTANTS[r]);
            if r == 23 {
                s = columns_to_rows(&a);
                r = 24;
            } else {
                let h = harmonize(&a);
                s = odd_round(&h, ROUND_CONSTANTS[r + 1]);
                assert(rounds(self@, start as int, r + 2) == crate::model::round(
                    rounds(self@, start as int, r + 1),
                    r + 1,
                ));
                r = r + 2;
            }
        }
        let out = KeccakState { planes: s };
        proof {
            out.lemma_view_is_rows();
        }
        out
    }

    /// Xors `lanes` into lanes `offset .. offset + LANES`; the other lanes keep their
    /// value.
    pub fn xor_lanes<const LANES: usize>(&mut self, offset: usize, lanes: &[u64; LANES])
        requires
            0 < LANES <= 24,
            offset + LANES <= 25,
        ensures
            final(self)@ == xor_into(old(self)@, offset as int, lanes@),
            final(self).well_formed(),
    {
        proof {
            use_type_invariant(&*self);
        }
        let mut v = self.to_lanes();
        crate::keccak_plain::xor_lanes(&mut v, offset, lanes);
        *self = Self::from_lanes(&v);
    }
}

/// Every 25 lanes have a state that holds them, so the conversion into a state is
/// well defined.
pub proof fn lemma_from_lanes_view(v: [u64; 25])
    ensures
        <KeccakState as vstd::std_specs::convert::FromSpec<[u64; 25]>>::from_spec(v)@ == v@,
        <KeccakState as vstd::std_specs::convert::FromSpec<[u64; 25]>>::from_spec(v).well_formed(),
{
    let f = |y: int| array_of::<u64, 8>(|k: int| if k < 5 { v[5 * y + k] } else { 0 }, 8);
    let planes = array_of::<[u64; 8], 5>(f, 5);
    lemma_array_of::<[u64; 8], 5>(f, 5);
    assert forall|y: int, k: int| 0 <= y < 5 && 0 <= k < 8 implies #[trigger] planes[y][k] == (if k < 5 {
        v[5 * y + k]
    } else {
        0
    }) by {
        lemma_array_of::<u64, 8>(|j: int| if j < 5 { v[5 * y + j] } else { 0 }, 8);
    }
    let w = KeccakState { planes };
    assert forall|i: int| 0 <= i < 25 implies #[trigger] w@[i] == v@[i] by {
        assert(w@[i] == w.lane(i));
        assert(0 <= i / 5 < 5 && 0 <= i % 5 < 5);
        assert(i == 5 * (i / 5) + i % 5);
    }
    assert(w@ =~= v@);
    assert(w.well_formed());
}

/// Every state has an array that holds its lanes, so the conversion out of a state is
/// well defined.
pub proof fn lemma_to_lanes_view(s: KeccakState)
    ensures
        <[u64; 25] as vstd::std_specs::convert::FromSpec<KeccakState>>::from_spec(s)@ == s@,
{
    let a = array_of::<u64, 25>(|i: int| s@[i], 25);
    lemma_array_of::<u64, 25>(|i: int| s@[i], 25);
    assert(a@ =~= s@);
}

impl From<[u64; 25]> for KeccakState {
    /// The state holding `value`, lane `(x, y)` taken from index `x + 5 * y`.
    fn from(value: [u64; 25]) -> (r: Self) {
        let r = Self::from_lanes(&value);
        proof {
            let c = choose|s: KeccakState| s.well_formed() && s@ == value@;
            r.lemma_view_determines(&c);
        }
        r
    }
}

impl vstd::std_specs::convert::FromSpecImpl<[u64; 25]> for KeccakState {
    open spec fn obeys_from_spec() -> bool {
        true
    }

    open spec fn from_spec(v: [u64; 25]) -> Self {
        choose|s: KeccakState| s.well_formed() && s@ == v@
    }
}

impl From<KeccakState> for [u64; 25] {
    /// The lanes of `value` in canonical order.
    fn from(value: KeccakState) -> (r: Self) {
        let r = value.to_lanes();
        proof {
            let c = choose|a: [u64; 25]| a@ == value@;
            assert(c =~= r);
        }
        r
    }
}

impl vstd::std_specs::convert::FromSpecImpl<KeccakState> for [u64; 25] {
    open spec fn obeys_from_spec() -> bool {
        true
    }

    open spec fn from_spec(v: KeccakState) -> Self {
        choose|a: [u64; 25]| a@ == v@
    }
}

impl PartialEq for KeccakState {
    /// Compares the lanes: the word-wise differences of all registers are or-ed
    /// together and tested for zero.
    fn eq(&self, other: &Self) -> (r: bool) {
        let p = &self.planes;
        let q = &other.planes;
        let acc = or(
            &or(&or(&xor(&p[0], &q[0]), &xor(&p[1], &q[1])), &or(&xor(&p[2], &q[2]), &xor(&p[3], &q[3]))),
            &xor(&p[4], &q[4]),
        );
        let r = acc[0] == 0 && acc[1] == 0 && acc[2] == 0 && acc[3] == 0 && acc[4] == 0;
        proof {
            assert forall|y: int, x: int| 0 <= y < 5 && 0 <= x < 5 implies (p[y][x] == q[y][x] <==> #[trigger] (p[y][x] ^ q[y][x]) == 0) by {
                lemma_word_equality(p[y][x], q[y][x], 0);
            }
            assert forall|a: u64, c: u64| #[trigger] (a | c) == 0 <==> a == 0 && c == 0 by {
                lemma_word_equality(a, a, c);
            }
            if r {
                assert(self@ =~= other@);
            } else if self@ == other@ {
                assert forall|y: int, x: int| 0 <= y < 5 && 0 <= x < 5 implies #[trigger] p[y][x] == q[y][x] by {
                    lemma_lane_index(x, y);
                    assert(self@[5 * y + x] == other@[5 * y + x]);
                }
                assert forall|x: int| 0 <= x < 5 implies #[trigger] acc[x] == 0 by {
                    lemma_word_equality(p[0][x] ^ q[0][x], 0, p[1][x] ^ q[1][x]);
                    lemma_word_equality(p[2][x] ^ q[2][x], 0, p[3][x] ^ q[3][x]);
                    lemma_word_equality(
                        (p[0][x] ^ q[0][x]) | (p[1][x] ^ q[1][x]),
                        0,
                        (p[2][x] ^ q[2][x]) | (p[3][x] ^ q[3][x]),
                    );
                    lemma_word_equality(
                        ((p[0][x] ^ q[0][x]) | (p[1][x] ^ q[1][x])) | ((p[2][x] ^ q[2][x]) | (p[3][x] ^ q[3][x])),
                        0,
                        p[4][x] ^ q[4][x],
                    );
                }
                assert(acc[0] == 0 && acc[1] == 0 && acc[2] == 0 && acc[3] == 0 && acc[4] == 0);
            }
        }
        r
    }
}

impl vstd::std_specs::cmp::PartialEqSpecImpl for KeccakState {
    open spec fn obeys_eq_spec() -> bool {
        true
    }

    open spec fn eq_spec(&self, other: &KeccakState) -> bool {
        self@ == other@
    }
}

impl Eq for KeccakState {

}

impl<const LANES: usize> core::ops::BitXor<[u64; LANES]> for KeccakState {
    type Output = KeccakState;

    /// Xors `rhs` into lanes `0 .. LANES`.
    fn bitxor(self, rhs: [u64; LANES]) -> (r: KeccakState) {
        let mut r = self;
        r.xor_lanes(0, &rhs);
        proof {
            use_type_invariant(&r);
            let c = choose|s: KeccakState| s.well_formed() && s@ == xor_into(self@, 0, rhs@);
            r.lemma_view_determines(&c);
        }
        r
    }
}

impl<const LANES: usize> vstd::std_specs::ops::BitXorSpecImpl<[u64; LANES]> for KeccakState {
    open spec fn obeys_bitxor_spec() -> bool {
        true
    }

    open spec fn bitxor_req(self, rhs: [u64; LANES]) -> bool {
        0 < LANES <= 24
    }

    open spec fn bitxor_spec(self, rhs: [u64; LANES]) -> KeccakState {
        choose|s: KeccakState| s.well_formed() && s@ == xor_into(self@, 0, rhs@)
    }
}

} // verus!