//! One round algorithm for every batching width: it is written against four
//! operations on a vector that holds the same lane of several instances, one word
//! per instance.
use vstd::prelude::*;

use crate::keccak_plain::rol;
use crate::model::{
    chi, instances, iota, lemma_each_lane, permutation, rho_pi, rotl, round, round_with, theta,
};
use crate::ROUND_CONSTANTS;

verus! {

/// A vector of 64-bit words, word `p` belonging to instance `p`.
pub trait LaneVector: Sized + Copy {
    /// The words, one per instance.
    spec fn words(&self) -> Seq<u64>;

    /// Number of instances.
    spec fn width() -> nat;

    proof fn lemma_width(&self)
        ensures
            self.words().len() == Self::width(),
    ;

    fn xor(&self, other: &Self) -> (r: Self)
        ensures
            forall|p: int|
                0 <= p < Self::width() ==> #[trigger] r.words()[p] == self.words()[p]
                    ^ other.words()[p],
    ;

    fn rotate_left(&self, n: u32) -> (r: Self)
        requires
            0 < n < 64,
        ensures
            forall|p: int|
                0 <= p < Self::width() ==> #[trigger] r.words()[p] == rotl(
                    self.words()[p],
                    n as u64,
                ),
    ;

    /// `a ^ (!b & c)`, word by word.
    fn chi(a: &Self, b: &Self, c: &Self) -> (r: Self)
        ensures
            forall|p: int|
                0 <= p < Self::width() ==> #[trigger] r.words()[p] == a.words()[p] ^ (
                !b.words()[p] & c.words()[p]),
    ;

    /// `x` in every word.
    fn broadcast(x: u64) -> (r: Self)
        ensures
            forall|p: int| 0 <= p < Self::width() ==> #[trigger] r.words()[p] == x,
    ;
}

impl<const N: usize> LaneVector for [u64; N] {
    open spec fn words(&self) -> Seq<u64> {
        self@
    }

    open spec fn width() -> nat {
        N as nat
    }

    proof fn lemma_width(&self) {
    }

    fn xor(&self, other: &Self) -> (r: Self) {
        let mut r: [u64; N] = [0; N];
        let mut p: usize = 0;
        while p < N
            invariant
                p <= N,
                forall|q: int| 0 <= q < p ==> #[trigger] r[q] == self[q] ^ other[q],
            decreases N - p,
        {
            r[p] = self[p] ^ other[p];
            p = p + 1;
        }
        r
    }

    fn rotate_left(&self, n: u32) -> (r: Self) {
        let mut r: [u64; N] = [0; N];
        let mut p: usize = 0;
        while p < N
            invariant
                p <= N,
                0 < n < 64,
                forall|q: int| 0 <= q < p ==> #[trigger] r[q] == rotl(self[q], n as u64),
            decreases N - p,
        {
            r[p] = rol(self[p], n);
            p = p + 1;
        }
        r
    }

    fn chi(a: &Self, b: &Self, c: &Self) -> (r: Self) {
        let mut r: [u64; N] = [0; N];
        let mut p: usize = 0;
        while p < N
            invariant
                p <= N,
                forall|q: int| 0 <= q < p ==> #[trigger] r[q] == a[q] ^ (!b[q] & c[q]),
            decreases N - p,
        {
            r[p] = a[p] ^ (!b[p] & c[p]);
            p = p + 1;
        }
        r
    }

    fn broadcast(x: u64) -> (r: Self) {
        [x; N]
    }
}

/// Instance `p` of 25 lane vectors.
pub open spec fn instance<V: LaneVector>(a: [V; 25], p: int) -> Seq<u64> {
    Seq::new(25, |l: int| a[l].words()[p])
}

/// Theta, rho and pi on every instance at once.
fn theta_rho_pi<V: LaneVector>(a: &[V; 25]) -> (b: [V; 25])
    ensures
        forall|p: int|
            0 <= p < V::width() ==> #[trigger] instance(b, p) == rho_pi(theta(instance(*a, p))),
{
    let c0 = a[0].xor(&a[5]).xor(&a[10]).xor(&a[15]).xor(&a[20]);
    let c1 = a[1].xor(&a[6]).xor(&a[11]).xor(&a[16]).xor(&a[21]);
    let c2 = a[2].xor(&a[7]).xor(&a[12]).xor(&a[17]).xor(&a[22]);
    let c3 = a[3].xor(&a[8]).xor(&a[13]).xor(&a[18]).xor(&a[23]);
    let c4 = a[4].xor(&a[9]).xor(&a[14]).xor(&a[19]).xor(&a[24]);

    let d0 = c4.xor(&c1.rotate_left(1));
    let d1 = c0.xor(&c2.rotate_left(1));
    let d2 = c1.xor(&c3.rotate_left(1));
    let d3 = c2.xor(&c4.rotate_left(1));
    let d4 = c3.xor(&c0.rotate_left(1));

    let b = [
        a[0].xor(&d0),
        a[6].xor(&d1).rotate_left(44),
        a[12].xor(&d2).rotate_left(43),
        a[18].xor(&d3).rotate_left(21),
        a[24].xor(&d4).rotate_left(14),
        a[3].xor(&d3).rotate_left(28),
        a[9].xor(&d4).rotate_left(20),
        a[10].xor(&d0).rotate_left(3),
        a[16].xor(&d1).rotate_left(45),
        a[22].xor(&d2).rotate_left(61),
        a[1].xor(&d1).rotate_left(1),
        a[7].xor(&d2).rotate_left(6),
        a[13].xor(&d3).rotate_left(25),
        a[19].xor(&d4).rotate_left(8),
        a[20].xor(&d0).rotate_left(18),
        a[4].xor(&d4).rotate_left(27),
        a[5].xor(&d0).rotate_left(36),
        a[11].xor(&d1).rotate_left(10),
        a[17].xor(&d2).rotate_left(15),
        a[23].xor(&d3).rotate_left(56),
        a[2].xor(&d2).rotate_left(62),
        a[8].xor(&d3).rotate_left(55),
        a[14].xor(&d4).rotate_left(39),
        a[15].xor(&d0).rotate_left(41),
        a[21].xor(&d1).rotate_left(2),
    ];
    proof {
        assert forall|p: int| 0 <= p < V::width() implies #[trigger] instance(b, p) == rho_pi(
            theta(instance(*a, p)),
        ) by {
            let t = theta(instance(*a, p));
            lemma_each_lane(|i: int| instance(b, p)[i] == rho_pi(t)[i]);
            assert(instance(b, p) =~= rho_pi(t));
        }
    }
    b
}

/// Chi and iota on every instance at once.
fn chi_iota<V: LaneVector>(b: &[V; 25], rc: u64) -> (r: [V; 25])
    ensures
        forall|p: int|
            0 <= p < V::width() ==> #[trigger] instance(r, p) == iota(chi(instance(*b, p)), rc),
{
    let constant = V::broadcast(rc);
    let r = [
        V::chi(&b[0], &b[1], &b[2]).xor(&constant), V::chi(&b[1], &b[2], &b[3]),
        V::chi(&b[2], &b[3], &b[4]), V::chi(&b[3], &b[4], &b[0]), V::chi(&b[4], &b[0], &b[1]),
        V::chi(&b[5], &b[6], &b[7]), V::chi(&b[6], &b[7], &b[8]), V::chi(&b[7], &b[8], &b[9]),
        V::chi(&b[8], &b[9], &b[5]), V::chi(&b[9], &b[5], &b[6]),
        V::chi(&b[10], &b[11], &b[12]), V::chi(&b[11], &b[12], &b[13]),
        V::chi(&b[12], &b[13], &b[14]), V::chi(&b[13], &b[14], &b[10]),
        V::chi(&b[14], &b[10], &b[11]),
        V::chi(&b[15], &b[16], &b[17]), V::chi(&b[16], &b[17], &b[18]),
        V::chi(&b[17], &b[18], &b[19]), V::chi(&b[18], &b[19], &b[15]),
        V::chi(&b[19], &b[15], &b[16]),
        V::chi(&b[20], &b[21], &b[22]), V::chi(&b[21], &b[22], &b[23]),
        V::chi(&b[22], &b[23], &b[24]), V::chi(&b[23], &b[24], &b[20]),
        V::chi(&b[24], &b[20], &b[21]),
    ];
    proof {
        assert forall|p: int| 0 <= p < V::width() implies #[trigger] instance(r, p) == iota(
            chi(instance(*b, p)),
            rc,
        ) by {
            let c = chi(instance(*b, p));
            lemma_each_lane(|i: int| instance(r, p)[i] == iota(c, rc)[i]);
            assert(instance(r, p) =~= iota(c, rc));
        }
    }
    r
}

/// One round with iota constant `rc` on every instance.
pub fn keccak_round_lanes<V: LaneVector>(a: &[V; 25], rc: u64) -> (r: [V; 25])
    ensures
        forall|p: int|
            0 <= p < V::width() ==> #[trigger] instance(r, p) == round_with(instance(*a, p), rc),
{
    let b = theta_rho_pi(a);
    let r = chi_iota(&b, rc);
    proof {
        reveal(round_with);
    }
    r
}

/// Keccak-p[1600, rounds] on every instance: the last `rounds` rounds of the
/// schedule.
pub fn keccak_p_lanes<V: LaneVector>(a: &[V; 25], rounds: usize) -> (r: [V; 25])
    requires
        rounds <= 24,
    ensures
        forall|p: int|
            0 <= p < V::width() ==> #[trigger] instance(r, p) == permutation(
                instance(*a, p),
                rounds as int,
            ),
{
    let start: usize = 24 - rounds;
    let mut s: [V; 25] = *a;
    let mut i: usize = start;
    while i < 24
        invariant
            start <= i <= 24,
            start == 24 - rounds,
            forall|p: int|
                0 <= p < V::width() ==> #[trigger] instance(s, p) == crate::model::rounds(
                    instance(*a, p),
                    start as int,
                    i as int,
                ),
        decreases 24 - i,
    {
        let ghost before = s;
        s = keccak_round_lanes(&s, ROUND_CONSTANTS[i]);
        assert forall|p: int| 0 <= p < V::width() implies #[trigger] instance(s, p) == crate::model::rounds(
            instance(*a, p),
            start as int,
            i + 1,
        ) by {
            assert(instance(s, p) == round(instance(before, p), i as int));
        }
        i = i + 1;
    }
    s
}

/// For vectors that are arrays, instance `p` is column `p` of the lane-major layout.
pub proof fn lemma_instance_is_column<const N: usize>(a: [[u64; N]; 25], p: int)
    requires
        0 <= p < N,
    ensures
        instance(a, p) == instances(a)[p],
{
    assert(instance(a, p) =~= instances(a)[p]);
}

} // verus!
