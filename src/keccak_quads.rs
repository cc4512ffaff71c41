//! The quad engine: one state in seven 4-word registers. Register 0 holds lane
//! `(0, 0)` in all four words, register 1 the rest of row 0, and registers 2 to 6
//! the other lanes in an order chosen so that pi becomes a handful of word
//! permutations and blends.
use vstd::prelude::*;

use crate::keccak_plain::rol;
use crate::model::{
    array_of, lemma_array_of,chi, iota, lemma_each_lane, permutation, pi_source, rho_pi, rotl, round_with, rounds, theta, xor_into};
use crate::{RHO_OFFSETS, ROUND_CONSTANTS};

verus! {

/// Four 64-bit words, as held by one 256-bit register.
pub type Word4 = [u64; 4];

/// The register that holds each lane.
pub const LANE_REGISTER: [usize; 25] = [
    0, 1, 1, 1, 1,
    2, 6, 3, 4, 5,
    2, 4, 6, 5, 3,
    2, 3, 5, 6, 4,
    2, 5, 4, 3, 6,
];

/// The word of its register that holds each lane.
pub const LANE_WORD: [usize; 25] = [
    0, 0, 1, 2, 3,
    2, 0, 1, 2, 3,
    0, 0, 1, 2, 3,
    3, 0, 1, 2, 3,
    1, 0, 1, 2, 3,
];

/// The rho offsets of the lanes of registers 1 to 6, word by word.
pub const ROTATIONS: [[u32; 4]; 6] = [
    [1, 62, 28, 27],
    [3, 18, 36, 41],
    [45, 6, 56, 39],
    [10, 61, 55, 8],
    [2, 15, 25, 20],
    [44, 43, 21, 14],
];

/// Word permutations: word `k` of the result is word `P[k]` of the argument.
pub const PERM_ROTATE_UP: [usize; 4] = [3, 0, 1, 2];
pub const PERM_ROTATE_DOWN: [usize; 4] = [1, 2, 3, 0];
pub const PERM_BROADCAST: [usize; 4] = [0, 0, 0, 0];
pub const PERM_SWAP_HALVES: [usize; 4] = [2, 3, 0, 1];
pub const PERM_ODD_EVEN: [usize; 4] = [1, 3, 0, 2];
pub const PERM_REVERSE: [usize; 4] = [3, 2, 1, 0];
pub const PERM_EVEN_ODD: [usize; 4] = [2, 0, 3, 1];
pub const PERM_HIGH_FIRST: [usize; 4] = [2, 3, 1, 0];

/// The lane held by each word of each register.
pub const POSITION_LANE: [[usize; 4]; 7] = [
    [0, 0, 0, 0],
    [1, 2, 3, 4],
    [10, 20, 5, 15],
    [16, 7, 23, 14],
    [11, 22, 8, 19],
    [21, 17, 13, 9],
    [6, 12, 18, 24],
];

/// A property of register words holds of all 28 once it holds of each.
proof fn lemma_each_word(p: spec_fn(int, int) -> bool)
    requires
        p(0, 0), p(0, 1), p(0, 2), p(0, 3),
        p(1, 0), p(1, 1), p(1, 2), p(1, 3),
        p(2, 0), p(2, 1), p(2, 2), p(2, 3),
        p(3, 0), p(3, 1), p(3, 2), p(3, 3),
        p(4, 0), p(4, 1), p(4, 2), p(4, 3),
        p(5, 0), p(5, 1), p(5, 2), p(5, 3),
        p(6, 0), p(6, 1), p(6, 2), p(6, 3),
    ensures
        forall|y: int, k: int| 0 <= y < 7 && 0 <= k < 4 ==> #[trigger] p(y, k),
{
}

/// The canonical state held by seven registers.
pub open spec fn quad_layout(t: [Word4; 7]) -> Seq<u64> {
    Seq::new(25, |i: int| t[LANE_REGISTER[i] as int][LANE_WORD[i] as int])
}

/// All four words are equal.
pub open spec fn is_broadcast(v: Word4) -> bool {
    v[1] == v[0] && v[2] == v[0] && v[3] == v[0]
}

/// Rho alone: every lane rotated by its offset, in place.
pub open spec fn rho(a: Seq<u64>) -> Seq<u64> {
    Seq::new(25, |i: int| rotl(a[i], RHO_OFFSETS[i]))
}

/// Pi alone: position `i` receives lane `pi_source(i)`.
pub open spec fn pi(a: Seq<u64>) -> Seq<u64> {
    Seq::new(25, |i: int| a[pi_source(i)])
}

proof fn lemma_rho_then_pi(a: Seq<u64>)
    ensures
        pi(rho(a)) == rho_pi(a),
{
    assert forall|i: int| 0 <= i < 25 implies #[trigger] pi(rho(a))[i] == rho_pi(a)[i] by {
        assert(0 <= pi_source(i) < 25);
    }
    assert(pi(rho(a)) =~= rho_pi(a));
}

/// The orders in which the registers meet the lanes of a column give its parity.
proof fn lemma_parity_orders(e0: u64, e1: u64, e2: u64, e3: u64, e4: u64)
    ensures
        e0 ^ e3 ^ e2 ^ (e4 ^ e1) == e0 ^ e1 ^ e2 ^ e3 ^ e4,
        e0 ^ e1 ^ e4 ^ (e3 ^ e2) == e0 ^ e1 ^ e2 ^ e3 ^ e4,
        e0 ^ e4 ^ e1 ^ (e2 ^ e3) == e0 ^ e1 ^ e2 ^ e3 ^ e4,
        e0 ^ e2 ^ e3 ^ (e1 ^ e4) == e0 ^ e1 ^ e2 ^ e3 ^ e4,
        (e2 ^ e4) ^ e0 ^ (e1 ^ e3) == e0 ^ e1 ^ e2 ^ e3 ^ e4,
        (e4 ^ e2) ^ e0 ^ (e3 ^ e1) == e0 ^ e1 ^ e2 ^ e3 ^ e4,
        (e1 ^ e3) ^ e0 ^ (e2 ^ e4) == e0 ^ e1 ^ e2 ^ e3 ^ e4,
        (e3 ^ e1) ^ e0 ^ (e4 ^ e2) == e0 ^ e1 ^ e2 ^ e3 ^ e4,
{
    assert(e0 ^ e3 ^ e2 ^ (e4 ^ e1) == e0 ^ e1 ^ e2 ^ e3 ^ e4) by (bit_vector);
    assert(e0 ^ e1 ^ e4 ^ (e3 ^ e2) == e0 ^ e1 ^ e2 ^ e3 ^ e4) by (bit_vector);
    assert(e0 ^ e4 ^ e1 ^ (e2 ^ e3) == e0 ^ e1 ^ e2 ^ e3 ^ e4) by (bit_vector);
    assert(e0 ^ e2 ^ e3 ^ (e1 ^ e4) == e0 ^ e1 ^ e2 ^ e3 ^ e4) by (bit_vector);
    assert((e2 ^ e4) ^ e0 ^ (e1 ^ e3) == e0 ^ e1 ^ e2 ^ e3 ^ e4) by (bit_vector);
    assert((e4 ^ e2) ^ e0 ^ (e3 ^ e1) == e0 ^ e1 ^ e2 ^ e3 ^ e4) by (bit_vector);
    assert((e1 ^ e3) ^ e0 ^ (e2 ^ e4) == e0 ^ e1 ^ e2 ^ e3 ^ e4) by (bit_vector);
    assert((e3 ^ e1) ^ e0 ^ (e4 ^ e2) == e0 ^ e1 ^ e2 ^ e3 ^ e4) by (bit_vector);
}

fn xor(a: &Word4, b: &Word4) -> (r: Word4)
    ensures
        forall|k: int| 0 <= k < 4 ==> #[trigger] r[k] == a[k] ^ b[k],
{
    [a[0] ^ b[0], a[1] ^ b[1], a[2] ^ b[2], a[3] ^ b[3]]
}

/// `!a & b`, word by word.
fn and_not(a: &Word4, b: &Word4) -> (r: Word4)
    ensures
        forall|k: int| 0 <= k < 4 ==> #[trigger] r[k] == !a[k] & b[k],
{
    [!a[0] & b[0], !a[1] & b[1], !a[2] & b[2], !a[3] & b[3]]
}

fn perm(idx: &[usize; 4], a: &Word4) -> (r: Word4)
    requires
        forall|k: int| 0 <= k < 4 ==> #[trigger] idx[k] < 4,
    ensures
        forall|k: int| 0 <= k < 4 ==> #[trigger] r[k] == a[idx[k] as int],
{
    [a[idx[0]], a[idx[1]], a[idx[2]], a[idx[3]]]
}

/// Swaps the two words of each 128-bit half.
fn swap_pairs(a: &Word4) -> (r: Word4)
    ensures
        r[0] == a[1] && r[1] == a[0] && r[2] == a[3] && r[3] == a[2],
{
    [a[1], a[0], a[3], a[2]]
}

/// Shifts each 128-bit half right by one word.
fn shift_pairs(a: &Word4) -> (r: Word4)
    ensures
        r[0] == a[1] && r[1] == 0 && r[2] == a[3] && r[3] == 0,
{
    [a[1], 0, a[3], 0]
}

/// Word 0 from `b`, the rest from `a`.
fn blend_first(a: &Word4, b: &Word4) -> (r: Word4)
    ensures
        r[0] == b[0] && r[1] == a[1] && r[2] == a[2] && r[3] == a[3],
{
    [b[0], a[1], a[2], a[3]]
}

/// Word 2 from `b`, the rest from `a`.
fn blend_third(a: &Word4, b: &Word4) -> (r: Word4)
    ensures
        r[0] == a[0] && r[1] == a[1] && r[2] == b[2] && r[3] == a[3],
{
    [a[0], a[1], b[2], a[3]]
}

/// Word 3 from `b`, the rest from `a`.
fn blend_last(a: &Word4, b: &Word4) -> (r: Word4)
    ensures
        r[0] == a[0] && r[1] == a[1] && r[2] == a[2] && r[3] == b[3],
{
    [a[0], a[1], a[2], b[3]]
}

/// Word `k` from the `k`-th argument.
fn build(a: &Word4, b: &Word4, c: &Word4, d: &Word4) -> (r: Word4)
    ensures
        r[0] == a[0] && r[1] == b[1] && r[2] == c[2] && r[3] == d[3],
{
    [a[0], b[1], c[2], d[3]]
}

/// Word `k` rotated left by `n[k]`.
fn rolv(a: &Word4, n: &[u32; 4]) -> (r: Word4)
    requires
        forall|k: int| 0 <= k < 4 ==> 0 < #[trigger] n[k] < 64,
    ensures
        forall|k: int| 0 <= k < 4 ==> #[trigger] r[k] == rotl(a[k], n[k] as u64),
{
    [rol(a[0], n[0]), rol(a[1], n[1]), rol(a[2], n[2]), rol(a[3], n[3])]
}

fn rol1(a: &Word4) -> (r: Word4)
    ensures
        forall|k: int| 0 <= k < 4 ==> #[trigger] r[k] == rotl(a[k], 1),
{
    [rol(a[0], 1), rol(a[1], 1), rol(a[2], 1), rol(a[3], 1)]
}

/// What theta xors into column 0 (every word of the first result) and into columns
/// 1 to 4 (word `k` of the second result for column `k + 1`).
fn theta_effects(t: &[Word4; 7]) -> (d: (Word4, Word4))
    requires
        is_broadcast(t[0]),
    ensures
        forall|k: int| 0 <= k < 4 ==> #[trigger] d.0[k] == crate::model::theta_effect(quad_layout(*t), 0),
        forall|k: int| 0 <= k < 4 ==> #[trigger] d.1[k] == crate::model::theta_effect(quad_layout(*t), k + 1),
{
    let ghost a = quad_layout(*t);
    let t12 = xor(&xor(&xor(&t[1], &t[3]), &t[4]), &xor(&t[5], &t[6]));
    let t11 = perm(&PERM_ROTATE_UP, &t12);
    let t13 = xor(&t[2], &swap_pairs(&t[2]));
    let t8 = rol1(&t12);
    let t15 = perm(&PERM_ROTATE_DOWN, &t8);
    let t14 = perm(&PERM_BROADCAST, &xor(&t11, &t8));
    let t13 = xor(&xor(&t13, &t[0]), &perm(&PERM_SWAP_HALVES, &t13));
    let t8 = rol1(&t13);
    let t15 = xor(&blend_first(&t11, &t13), &blend_last(&t15, &t8));
    proof {
        lemma_parity_orders(a[0], a[5], a[10], a[15], a[20]);
        lemma_parity_orders(a[1], a[6], a[11], a[16], a[21]);
        lemma_parity_orders(a[2], a[7], a[12], a[17], a[22]);
        lemma_parity_orders(a[3], a[8], a[13], a[18], a[23]);
        lemma_parity_orders(a[4], a[9], a[14], a[19], a[24]);
        assert(t12[0] == crate::model::column_parity(a, 1));
        assert(t12[1] == crate::model::column_parity(a, 2));
        assert(t12[2] == crate::model::column_parity(a, 3));
        assert(t12[3] == crate::model::column_parity(a, 4));
        assert(t13[0] == crate::model::column_parity(a, 0));
        assert(t13[1] == crate::model::column_parity(a, 0));
        assert(t13[2] == crate::model::column_parity(a, 0));
        assert(t13[3] == crate::model::column_parity(a, 0));
    }
    (t14, t15)
}

/// Theta and rho: every lane with its column's effect xored in, rotated in place.
fn theta_rho(t: &[Word4; 7], d0: &Word4, d: &Word4) -> (u: [Word4; 7])
    requires
        is_broadcast(t[0]),
        forall|k: int| 0 <= k < 4 ==> #[trigger] d0[k] == crate::model::theta_effect(quad_layout(*t), 0),
        forall|k: int| 0 <= k < 4 ==> #[trigger] d[k] == crate::model::theta_effect(quad_layout(*t), k + 1),
    ensures
        quad_layout(u) == rho(theta(quad_layout(*t))),
        is_broadcast(u[0]),
{
    let u0 = xor(&t[0], d0);
    let u1 = rolv(&xor(&t[1], d), &ROTATIONS[0]);
    let u2 = rolv(&xor(&t[2], d0), &ROTATIONS[1]);
    let u3 = rolv(&xor(&t[3], d), &ROTATIONS[2]);
    let u4 = rolv(&xor(&t[4], d), &ROTATIONS[3]);
    let u5 = rolv(&xor(&t[5], d), &ROTATIONS[4]);
    let u6 = rolv(&xor(&t[6], d), &ROTATIONS[5]);
    let u = [u0, u1, u2, u3, u4, u5, u6];
    proof {
        let r = rho(theta(quad_layout(*t)));
        lemma_each_lane(|i: int| quad_layout(u)[i] == r[i]);
        assert(quad_layout(u) =~= r);
    }
    u
}

/// Pi, chi and iota on a state whose lanes have been through theta and rho.
fn pi_chi_iota(u: &[Word4; 7], rc: u64) -> (r: [Word4; 7])
    requires
        is_broadcast(u[0]),
    ensures
        quad_layout(r) == iota(chi(pi(quad_layout(*u))), rc),
        is_broadcast(r[0]),
{
    let t10 = perm(&PERM_ODD_EVEN, &u[2]);
    let t11 = perm(&PERM_ODD_EVEN, &u[3]);
    let t12 = perm(&PERM_REVERSE, &u[4]);
    let t13 = perm(&PERM_EVEN_ODD, &u[5]);
    let t9 = &u[1];
    let t8 = &u[6];
    let t7 = and_not(t8, &shift_pairs(t8));
    let c1 = and_not(
        &blend_last(&perm(&PERM_ROTATE_DOWN, t8), &u[0]),
        &blend_third(&perm(&PERM_HIGH_FIRST, t8), &u[0]),
    );
    let c2 = and_not(&build(&t11, &t12, &t13, &t10), &build(&t13, &t11, &t10, &t12));
    let c3 = and_not(&build(t9, &t13, &t11, &t12), &build(&t11, t9, &t12, &t13));
    let c4 = and_not(&build(&t13, &t10, &t12, t9), &build(&t12, &t13, t9, &t10));
    let c5 = and_not(&build(&t10, &t11, t9, &t13), &build(t9, &t10, &t13, &t11));
    let c6 = and_not(&build(&t12, t9, &t10, &t11), &build(&t10, &t12, &t11, t9));
    let r0 = xor(&xor(&u[0], &perm(&PERM_BROADCAST, &t7)), &[rc, rc, rc, rc]);
    let r1 = xor(t8, &c1);
    let r2 = xor(t9, &c2);
    let r3 = perm(&PERM_REVERSE, &xor(&t10, &c3));
    let r4 = xor(&t11, &c4);
    let r5 = perm(&PERM_ODD_EVEN, &xor(&t12, &c5));
    let r6 = perm(&PERM_EVEN_ODD, &xor(&t13, &c6));
    let r = [r0, r1, r2, r3, r4, r5, r6];
    proof {
        let e = iota(chi(pi(quad_layout(*u))), rc);
        lemma_each_lane(|i: int| quad_layout(r)[i] == e[i]);
        assert(quad_layout(r) =~= e);
    }
    r
}

/// One round with iota constant `rc`.
fn quad_round(t: &[Word4; 7], rc: u64) -> (r: [Word4; 7])
    requires
        is_broadcast(t[0]),
    ensures
        quad_layout(r) == round_with(quad_layout(*t), rc),
        is_broadcast(r[0]),
{
    let (d0, d) = theta_effects(t);
    let u = theta_rho(t, &d0, &d);
    let r = pi_chi_iota(&u, rc);
    proof {
        lemma_rho_then_pi(theta(quad_layout(*t)));
        reveal(round_with);
    }
    r
}

proof fn lemma_word_equality(a: u64, b: u64, c: u64)
    ensures
        (a ^ b) == 0 <==> a == b,
        (a | c) == 0 <==> a == 0 && c == 0,
{
    assert((a ^ b) == 0 <==> a == b) by (bit_vector);
    assert((a | c) == 0 <==> a == 0 && c == 0) by (bit_vector);
}

fn or(a: &Word4, b: &Word4) -> (r: Word4)
    ensures
        forall|k: int| 0 <= k < 4 ==> #[trigger] r[k] == a[k] | b[k],
{
    [a[0] | b[0], a[1] | b[1], a[2] | b[2], a[3] | b[3]]
}

/// A Keccak-f[1600] state in seven 4-word registers.
#[derive(Debug, Clone, Copy)]
pub struct KeccakState {
    regs: [Word4; 7],
}

impl View for KeccakState {
    type V = Seq<u64>;

    /// The canonical state: lane `(x, y)` at index `x + 5 * y`.
    open spec fn view(&self) -> Seq<u64> {
        Seq::new(25, |i: int| self.lane(i))
    }
}

impl KeccakState {
    /// Lane `i` of the canonical state.
    pub closed spec fn lane(&self, i: int) -> u64 {
        self.regs[LANE_REGISTER[i] as int][LANE_WORD[i] as int]
    }

    /// Register 0 holds lane `(0, 0)` in all its words, so the lanes determine the
    /// value.
    pub closed spec fn well_formed(&self) -> bool {
        is_broadcast(self.regs[0])
    }

    #[verifier::type_invariant]
    closed spec fn first_register_is_broadcast(&self) -> bool {
        self.well_formed()
    }

    proof fn lemma_view_is_layout(&self)
        ensures
            self@ == quad_layout(self.regs),
    {
        assert(self@ =~= quad_layout(self.regs));
    }

    /// Two well-formed states with the same lanes are the same value.
    pub proof fn lemma_view_determines(&self, other: &Self)
        requires
            self.well_formed(),
            other.well_formed(),
            self@ == other@,
        ensures
            *self == *other,
    {
        assert forall|i: int| 0 <= i < 25 implies #[trigger] self.lane(i) == other.lane(i) by {
            assert(self@[i] == other@[i]);
            assert(self@[i] == self.lane(i));
            assert(other@[i] == other.lane(i));
        }
        lemma_each_word(
            |y: int, k: int|
                0 <= POSITION_LANE[y][k] < 25 && (self.lane(POSITION_LANE[y][k] as int) == other.lane(
                    POSITION_LANE[y][k] as int,
                ) ==> self.regs[y][k] == other.regs[y][k]),
        );
        assert forall|y: int| 0 <= y < 7 implies self.regs[y] == other.regs[y] by {
            assert forall|k: int| 0 <= k < 4 implies self.regs[y][k] == other.regs[y][k] by {
                assert(self.lane(POSITION_LANE[y][k] as int) == other.lane(POSITION_LANE[y][k] as int));
            }
            assert(self.regs[y] =~= other.regs[y]);
        }
        assert(self.regs =~= other.regs);
    }

    /// The state holding `v`.
    fn from_lanes(v: &[u64; 25]) -> (r: Self)
        ensures
            r@ == v@,
            r.well_formed(),
    {
        let regs = [
            [v[0], v[0], v[0], v[0]],
            [v[1], v[2], v[3], v[4]],
            [v[10], v[20], v[5], v[15]],
            [v[16], v[7], v[23], v[14]],
            [v[11], v[22], v[8], v[19]],
            [v[21], v[17], v[13], v[9]],
            [v[6], v[12], v[18], v[24]],
        ];
        let r = KeccakState { regs };
        proof {
            lemma_each_lane(|i: int| r@[i] == v@[i]);
            assert(r@ =~= v@);
        }
        r
    }

    /// The 25 lanes in canonical order.
    fn to_lanes(&self) -> (r: [u64; 25])
        ensures
            r@ == self@,
    {
        let t = &self.regs;
        let r = [
            t[0][0], t[1][0], t[1][1], t[1][2], t[1][3],
            t[2][2], t[6][0], t[3][1], t[4][2], t[5][3],
            t[2][0], t[4][0], t[6][1], t[5][2], t[3][3],
            t[2][3], t[3][0], t[5][1], t[6][2], t[4][3],
            t[2][1], t[5][0], t[4][1], t[3][2], t[6][3],
        ];
        proof {
            lemma_each_lane(|i: int| r@[i] == self@[i]);
            assert(r@ =~= self@);
        }
        r
    }

    /// Keccak-p[1600, ROUNDS]: the last `ROUNDS` rounds of the schedule.
    pub fn keccak_p<const ROUNDS: usize>(&self) -> (r: KeccakState)
        requires
            ROUNDS <= 24,
        ensures
            r@ == permutation(self@, ROUNDS as int),
            r.well_formed(),
    {
        proof {
            use_type_invariant(self);
            self.lemma_view_is_layout();
        }
        let start: usize = 24 - ROUNDS;
        let mut t = self.regs;
        let mut i: usize = start;
        while i < 24
            invariant
                start <= i <= 24,
                start == 24 - ROUNDS,
                is_broadcast(t[0]),
                quad_layout(t) == rounds(self@, start as int, i as int),
            decreases 24 - i,
        {
            t = quad_round(&t, ROUND_CONSTANTS[i]);
            i = i + 1;
        }
        let out = KeccakState { regs: t };
        proof {
            out.lemma_view_is_layout();
        }
        out
    }

    /// Xors `lanes` into lanes `offset .. offset + LANES`; the other lanes keep their
    /// value.
    pub fn xor_lanes<const LANES: usize>(&mut self, offset: usize, lanes: &[u64; LANES])
        requires
            0 < LANES <= 24,
            offset + LANES <= 25,
        ensures
            final(self)@ == xor_into(old(self)@, offset as int, lanes@),
            final(self).well_formed(),
    {
        let mut v = self.to_lanes();
        crate::keccak_plain::xor_lanes(&mut v, offset, lanes);
        *self = Self::from_lanes(&v);
    }
}

/// Every 25 lanes have a state that holds them, so the conversion into a state is
/// well defined.
pub proof fn lemma_from_lanes_view(v: [u64; 25])
    ensures
        <KeccakState as vstd::std_specs::convert::FromSpec<[u64; 25]>>::from_spec(v)@ == v@,
        <KeccakState as vstd::std_specs::convert::FromSpec<[u64; 25]>>::from_spec(v).well_formed(),
{
    let f = |y: int| array_of::<u64, 4>(|k: int| v[POSITION_LANE[y][k] as int], 4);
    let regs = array_of::<[u64; 4], 7>(f, 7);
    lemma_array_of::<[u64; 4], 7>(f, 7);
    assert forall|y: int, k: int| 0 <= y < 7 && 0 <= k < 4 implies #[trigger] regs[y][k] == v[POSITION_LANE[y][k] as int] by {
        lemma_array_of::<u64, 4>(|j: int| v[POSITION_LANE[y][j] as int], 4);
    }
    let w = KeccakState { regs };
    lemma_each_lane(|i: int| w@[i] == v@[i]);
    assert(w@ =~= v@);
    assert(w.well_formed());
}

/// Every state has an array that holds its lanes, so the conversion out of a state is
/// well defined.
pub proof fn lemma_to_lanes_view(s: KeccakState)
    ensures
        <[u64; 25] as vstd::std_specs::convert::FromSpec<KeccakState>>::from_spec(s)@ == s@,
{
    let a = array_of::<u64, 25>(|i: int| s@[i], 25);
    lemma_array_of::<u64, 25>(|i: int| s@[i], 25);
    assert(a@ =~= s@);
}

impl From<[u64; 25]> for KeccakState {
    /// The state holding `value`, lane `(x, y)` taken from index `x + 5 * y`.
    fn from(value: [u64; 25]) -> (r: Self) {
        let r = Self::from_lanes(&value);
        proof {
            let c = choose|s: KeccakState| s.well_formed() && s@ == value@;
            r.lemma_view_determines(&c);
        }
        r
    }
}

impl vstd::std_specs::convert::FromSpecImpl<[u64; 25]> for KeccakState {
    open spec fn obeys_from_spec() -> bool {
        true
    }

    open spec fn from_spec(v: [u64; 25]) -> Self {
        choose|s: KeccakState| s.well_formed() && s@ == v@
    }
}

impl From<KeccakState> for [u64; 25] {
    /// The lanes of `value` in canonical order.
    fn from(value: KeccakState) -> (r: Self) {
        let r = value.to_lanes();
        proof {
            let c = choose|a: [u64; 25]| a@ == value@;
            assert(c =~= r);
        }
        r
    }
}

impl vstd::std_specs::convert::FromSpecImpl<KeccakState> for [u64; 25] {
    open spec fn obeys_from_spec() -> bool {
        true
    }

    open spec fn from_spec(v: KeccakState) -> Self {
        choose|a: [u64; 25]| a@ == v@
    }
}

impl PartialEq for KeccakState {
    /// Compares the lanes: the word-wise differences of all registers are or-ed
    /// together and tested for zero.
    fn eq(&self, other: &Self) -> (r: bool) {
        proof {
            use_type_invariant(self);
            use_type_invariant(other);
        }
        let p = &self.regs;
        let q = &other.regs;
        let x01 = or(&xor(&p[0], &q[0]), &xor(&p[1], &q[1]));
        let x23 = or(&xor(&p[2], &q[2]), &xor(&p[3], &q[3]));
        let x45 = or(&xor(&p[4], &q[4]), &xor(&p[5], &q[5]));
        let x456 = or(&x45, &xor(&p[6], &q[6]));
        let acc = or(&or(&x01, &x23), &x456);
        let r = acc[0] == 0 && acc[1] == 0 && acc[2] == 0 && acc[3] == 0;
        proof {
            assert forall|k: int| 0 <= k < 4 implies (#[trigger] acc[k] == 0 <==> (p[0][k] == q[0][k]
                && p[1][k] == q[1][k] && p[2][k] == q[2][k] && p[3][k] == q[3][k] && p[4][k] == q[4][k]
                && p[5][k] == q[5][k] && p[6][k] == q[6][k])) by {
                lemma_word_equality(p[0][k], q[0][k], 0);
                lemma_word_equality(p[1][k], q[1][k], 0);
                lemma_word_equality(p[2][k], q[2][k], 0);
                lemma_word_equality(p[3][k], q[3][k], 0);
                lemma_word_equality(p[4][k], q[4][k], 0);
                lemma_word_equality(p[5][k], q[5][k], 0);
                lemma_word_equality(p[6][k], q[6][k], 0);
                lemma_word_equality(p[0][k] ^ q[0][k], 0, p[1][k] ^ q[1][k]);
                lemma_word_equality(p[2][k] ^ q[2][k], 0, p[3][k] ^ q[3][k]);
                lemma_word_equality(p[4][k] ^ q[4][k], 0, p[5][k] ^ q[5][k]);
                lemma_word_equality(x45[k], 0, p[6][k] ^ q[6][k]);
                lemma_word_equality(x01[k], 0, x23[k]);
                lemma_word_equality(x01[k] | x23[k], 0, x456[k]);
            }
            if r {
                lemma_each_lane(|i: int| self@[i] == other@[i]);
                assert(self@ =~= other@);
            } else if self@ == other@ {
                self.lemma_view_determines(other);
                assert(acc[0] == 0 && acc[1] == 0 && acc[2] == 0 && acc[3] == 0);
            }
        }
        r
    }
}

impl vstd::std_specs::cmp::PartialEqSpecImpl for KeccakState {
    open spec fn obeys_eq_spec() -> bool {
        true
    }

    open spec fn eq_spec(&self, other: &KeccakState) -> bool {
        self@ == other@
    }
}

impl Eq for KeccakState {

}

impl<const LANES: usize> core::ops::BitXor<[u64; LANES]> for KeccakState {
    type Output = KeccakState;

    /// Xors `rhs` into lanes `0 .. LANES`.
    fn bitxor(self, rhs: [u64; LANES]) -> (r: KeccakState) {
        let mut r = self;
        r.xor_lanes(0, &rhs);
        proof {
            use_type_invariant(&r);
            let c = choose|s: KeccakState| s.well_formed() && s@ == xor_into(self@, 0, rhs@);
            r.lemma_view_determines(&c);
        }
        r
    }
}

impl<const LANES: usize> vstd::std_specs::ops::BitXorSpecImpl<[u64; LANES]> for KeccakState {
    open spec fn obeys_bitxor_spec() -> bool {
        true
    }

    open spec fn bitxor_req(self, rhs: [u64; LANES]) -> bool {
        0 < LANES <= 24
    }

    open spec fn bitxor_spec(self, rhs: [u64; LANES]) -> KeccakState {
        choose|s: KeccakState| s.well_formed() && s@ == xor_into(self@, 0, rhs@)
    }
}

} // verus!
