//! N independent Keccak states held lane-major: lane `l` of every instance sits in
//! `states[l]`, one word per instance, so that each step of a round is the same
//! operation across all N instances.
use vstd::prelude::*;

use crate::keccak_plain::{read_le_u64, xor_lanes as xor_state};
use crate::lane_vector::{instance, keccak_p_lanes};
use crate::model::{array_of, keccak_f_spec, lemma_array_of, le_words, permutation, rows, xor_into};

verus! {

#[derive(Debug, Clone, Copy, PartialEq, Eq)]
pub struct ParallelKeccakState<const N: usize> {
    states: [[u64; N]; 25],
}

impl<const N: usize> View for ParallelKeccakState<N> {
    type V = Seq<Seq<u64>>;

    /// The N instances, each as a canonical state of 25 lanes.
    open spec fn view(&self) -> Seq<Seq<u64>> {
        Seq::new(N as nat, |p: int| Seq::new(25, |l: int| self.word(l, p)))
    }
}

impl<const N: usize> ParallelKeccakState<N> {
    /// Lane `l` of instance `p`.
    pub closed spec fn word(&self, l: int, p: int) -> u64 {
        self.states[l][p]
    }

    /// Two containers with the same instances are the same value.
    pub proof fn lemma_view_determines(&self, other: &Self)
        requires
            self@ == other@,
        ensures
            *self == *other,
    {
        assert forall|l: int| 0 <= l < 25 implies self.states[l] == other.states[l] by {
            assert forall|p: int| 0 <= p < N implies self.states[l][p] == other.states[l][p] by {
                assert(self@[p][l] == other@[p][l]);
                assert(self@[p][l] == self.word(l, p));
            }
            assert(self.states[l] =~= other.states[l]);
        }
        assert(self.states =~= other.states);
    }

    /// Instance `p` as a canonical state.
    fn instance(&self, p: usize) -> (r: [u64; 25])
        requires
            p < N,
        ensures
            r@ == self@[p as int],
    {
        let mut r: [u64; 25] = [0; 25];
        let mut l: usize = 0;
        while l < 25
            invariant
                l <= 25,
                p < N,
                forall|k: int| 0 <= k < l ==> r[k] == self.word(k, p as int),
            decreases 25 - l,
        {
            r[l] = self.states[l][p];
            l = l + 1;
        }
        assert(r@ =~= self@[p as int]);
        r
    }

    /// Replaces instance `p` by `s`.
    fn set_instance(&mut self, p: usize, s: &[u64; 25])
        requires
            p < N,
        ensures
            final(self)@ == old(self)@.update(p as int, s@),
    {
        let mut l: usize = 0;
        while l < 25
            invariant
                l <= 25,
                p < N,
                forall|k: int, q: int|
                    0 <= k < 25 && 0 <= q < N ==> #[trigger] self.states[k][q] == if q == p && k < l {
                        s[k]
                    } else {
                        old(self).states[k][q]
                    },
            decreases 25 - l,
        {
            let mut row = self.states[l];
            row[p] = s[l];
            self.states[l] = row;
            l = l + 1;
        }
        assert forall|q: int| 0 <= q < N implies #[trigger] self@[q] == old(self)@.update(
            p as int,
            s@,
        )[q] by {
            assert(self@[q] =~= old(self)@.update(p as int, s@)[q]);
        }
        assert(self@ =~= old(self)@.update(p as int, s@));
    }

    /// Xors `lane[p]` into lane `lane_idx` of instance `p`, for every instance.
    pub fn xor_lane(&mut self, lane_idx: usize, lane: [u64; N])
        requires
            lane_idx < 25,
        ensures
            forall|p: int|
                0 <= p < N ==> #[trigger] final(self)@[p] == xor_into(
                    old(self)@[p],
                    lane_idx as int,
                    seq![lane[p]],
                ),
    {
        let mut row = self.states[lane_idx];
        let mut p: usize = 0;
        while p < N
            invariant
                p <= N,
                forall|q: int| 0 <= q < N ==> #[trigger] row[q] == if q < p {
                    old(self).word(lane_idx as int, q) ^ lane[q]
                } else {
                    old(self).word(lane_idx as int, q)
                },
            decreases N - p,
        {
            let w = row[p] ^ lane[p];
            row[p] = w;
            p = p + 1;
        }
        self.states[lane_idx] = row;
        assert forall|q: int| 0 <= q < N implies #[trigger] self@[q] == xor_into(
            old(self)@[q],
            lane_idx as int,
            seq![lane[q]],
        ) by {
            assert(self@[q] =~= xor_into(old(self)@[q], lane_idx as int, seq![lane[q]]));
        }
    }

    /// Xors `lanes[p]` into lanes `offset .. offset + LANES` of instance `p`, for every
    /// instance; the other lanes keep their value.
    pub fn xor_lanes<const LANES: usize>(&mut self, offset: usize, lanes: [[u64; LANES]; N])
        requires
            offset + LANES <= 25,
        ensures
            forall|p: int|
                0 <= p < N ==> #[trigger] final(self)@[p] == xor_into(
                    old(self)@[p],
                    offset as int,
                    lanes[p]@,
                ),
    {
        let mut p: usize = 0;
        while p < N
            invariant
                p <= N,
                offset + LANES <= 25,
                forall|q: int|
                    0 <= q < N ==> #[trigger] self@[q] == if q < p {
                        xor_into(old(self)@[q], offset as int, lanes[q]@)
                    } else {
                        old(self)@[q]
                    },
            decreases N - p,
        {
            let mut s = self.instance(p);
            xor_state(&mut s, offset, &lanes[p]);
            self.set_instance(p, &s);
            p = p + 1;
        }
    }

    /// The `LANES` little-endian words that start at byte `start` of `b`.
    fn load_words<const LANES: usize>(b: &[u8], start: usize) -> (r: [u64; LANES])
        requires
            start + 8 * LANES <= b@.len(),
        ensures
            r@ == le_words(b@, start as int, LANES as int),
    {
        let len = b.len();
        let mut r: [u64; LANES] = [0; LANES];
        let mut l: usize = 0;
        while l < LANES
            invariant
                l <= LANES,
                len == b@.len(),
                start + 8 * LANES <= b@.len(),
                forall|k: int| 0 <= k < l ==> #[trigger] r[k] == le_words(b@, start as int, LANES as int)[k],
            decreases LANES - l,
        {
            r[l] = read_le_u64(b, start + 8 * l);
            l = l + 1;
        }
        assert(r@ =~= le_words(b@, start as int, LANES as int));
        r
    }

    /// Reads `LANES` little-endian words from the front of `lanes[p]` and xors them
    /// into lanes `offset .. offset + LANES` of instance `p`, for every instance.
    pub fn load_and_xor<const LANES: usize>(&mut self, offset: usize, lanes: [&[u8]; N])
        requires
            offset + LANES <= 25,
            forall|p: int| 0 <= p < N ==> 8 * LANES <= (#[trigger] lanes[p])@.len(),
        ensures
            forall|p: int|
                0 <= p < N ==> #[trigger] final(self)@[p] == xor_into(
                    old(self)@[p],
                    offset as int,
                    le_words(lanes[p]@, 0, LANES as int),
                ),
    {
        let mut p: usize = 0;
        while p < N
            invariant
                p <= N,
                offset + LANES <= 25,
                forall|q: int| 0 <= q < N ==> 8 * LANES <= (#[trigger] lanes[q])@.len(),
                forall|q: int|
                    0 <= q < N ==> #[trigger] self@[q] == if q < p {
                        xor_into(old(self)@[q], offset as int, le_words(lanes[q]@, 0, LANES as int))
                    } else {
                        old(self)@[q]
                    },
            decreases N - p,
        {
            let words: [u64; LANES] = Self::load_words(lanes[p], 0);
            let mut s = self.instance(p);
            xor_state(&mut s, offset, &words);
            self.set_instance(p, &s);
            p = p + 1;
        }
    }

    /// Reads, for every instance `p`, `LANES` little-endian words from `start` at byte
    /// `p * interleaving`, and xors them into lanes `offset .. offset + LANES` of
    /// instance `p`.
    pub fn load_interleaved_and_xor<const LANES: usize>(
        &mut self,
        offset: usize,
        start: &[u8],
        interleaving: usize,
    )
        requires
            offset + LANES <= 25,
            N == 0 || (N - 1) * interleaving + 8 * LANES <= start@.len(),
        ensures
            forall|p: int|
                0 <= p < N ==> #[trigger] final(self)@[p] == xor_into(
                    old(self)@[p],
                    offset as int,
                    le_words(start@, p * interleaving, LANES as int),
                ),
    {
        let len = start.len();
        let mut p: usize = 0;
        while p < N
            invariant
                p <= N,
                offset + LANES <= 25,
                len == start@.len(),
                N == 0 || (N - 1) * interleaving + 8 * LANES <= start@.len(),
                forall|q: int|
                    0 <= q < N ==> #[trigger] self@[q] == if q < p {
                        xor_into(
                            old(self)@[q],
                            offset as int,
                            le_words(start@, q * interleaving, LANES as int),
                        )
                    } else {
                        old(self)@[q]
                    },
            decreases N - p,
        {
            assert(p * interleaving <= (N - 1) * interleaving) by (nonlinear_arith)
                requires
                    p < N,
            ;
            let words: [u64; LANES] = Self::load_words(start, p * interleaving);
            let mut s = self.instance(p);
            xor_state(&mut s, offset, &words);
            self.set_instance(p, &s);
            p = p + 1;
        }
    }

    /// Lane `lane_idx` of every instance.
    pub fn extract_lane(&self, lane_idx: usize) -> (r: [u64; N])
        requires
            lane_idx < 25,
        ensures
            forall|p: int| 0 <= p < N ==> #[trigger] r[p] == self@[p][lane_idx as int],
    {
        self.states[lane_idx]
    }

    /// Lanes `offset .. offset + LANES` of every instance.
    pub fn extract_lanes<const LANES: usize>(&self, offset: usize) -> (r: [[u64; LANES]; N])
        requires
            offset + LANES <= 25,
        ensures
            forall|p: int|
                0 <= p < N ==> #[trigger] r[p]@ == self@[p].subrange(
                    offset as int,
                    offset + LANES,
                ),
    {
        let mut dst: [[u64; LANES]; N] = [[0; LANES]; N];
        let mut p: usize = 0;
        while p < N
            invariant
                p <= N,
                offset + LANES <= 25,
                forall|q: int|
                    0 <= q < p ==> #[trigger] dst[q]@ == self@[q].subrange(
                        offset as int,
                        offset + LANES,
                    ),
            decreases N - p,
        {
            let s = self.instance(p);
            let mut row: [u64; LANES] = [0; LANES];
            let mut l: usize = 0;
            while l < LANES
                invariant
                    l <= LANES,
                    offset + LANES <= 25,
                    s@ == self@[p as int],
                    forall|k: int| 0 <= k < l ==> #[trigger] row[k] == s[offset + k],
                decreases LANES - l,
            {
                row[l] = s[offset + l];
                l = l + 1;
            }
            assert(row@ =~= self@[p as int].subrange(offset as int, offset + LANES));
            dst[p] = row;
            p = p + 1;
        }
        dst
    }

    /// Keccak-p[1600, rounds] on every instance: the last `rounds` rounds of the
    /// schedule, each instance advanced on its own.
    pub fn keccak_p(&mut self, rounds: usize)
        requires
            rounds <= 24,
        ensures
            forall|p: int|
                0 <= p < N ==> #[trigger] final(self)@[p] == permutation(
                    old(self)@[p],
                    rounds as int,
                ),
    {
        let states = keccak_p_lanes(&self.states, rounds);
        let ghost before = *self;
        self.states = states;
        proof {
            assert forall|p: int| 0 <= p < N implies #[trigger] self@[p] == permutation(
                before@[p],
                rounds as int,
            ) by {
                assert(self@[p] =~= instance(states, p));
                assert(before@[p] =~= instance(before.states, p));
            }
        }
    }

    /// Keccak-f[1600] on every instance.
    pub fn keccak_f(&mut self)
        ensures
            forall|p: int|
                0 <= p < N ==> #[trigger] final(self)@[p] == keccak_f_spec(old(self)@[p]),
    {
        self.keccak_p(24)
    }
}

impl<const N: usize> ParallelKeccakState<N> {
    /// Gathers lane `l` of every input state into `states[l]`.
    fn from_states(src: &[[u64; 25]; N]) -> (r: Self)
        ensures
            r@ == rows(*src),
    {
        let mut dst: [[u64; N]; 25] = [[0; N]; 25];
        let mut lane: usize = 0;
        while lane < 25
            invariant
                lane <= 25,
                forall|l: int, p: int|
                    0 <= l < lane && 0 <= p < N ==> #[trigger] dst[l][p] == src[p][l],
            decreases 25 - lane,
        {
            let mut row: [u64; N] = [0; N];
            let mut p: usize = 0;
            while p < N
                invariant
                    p <= N,
                    lane < 25,
                    forall|q: int| 0 <= q < p ==> #[trigger] row[q] == src[q][lane as int],
                decreases N - p,
            {
                row[p] = src[p][lane];
                p = p + 1;
            }
            dst[lane] = row;
            lane = lane + 1;
        }
        let r = ParallelKeccakState { states: dst };
        assert forall|p: int| 0 <= p < N implies #[trigger] r@[p] == rows(*src)[p] by {
            assert(r@[p] =~= src[p]@);
        }
        assert(r@ =~= rows(*src));
        r
    }

    /// The instances as an array of canonical states.
    fn to_states(&self) -> (r: [[u64; 25]; N])
        ensures
            rows(r) == self@,
    {
        let mut dst: [[u64; 25]; N] = [[0; 25]; N];
        let mut p: usize = 0;
        while p < N
            invariant
                p <= N,
                forall|q: int| 0 <= q < p ==> #[trigger] dst[q]@ == self@[q],
            decreases N - p,
        {
            dst[p] = self.instance(p);
            p = p + 1;
        }
        assert(rows(dst) =~= self@);
        dst
    }
}

/// Two arrays of states with the same canonical states are the same value.
pub proof fn lemma_instances_determine<const N: usize>(a: [[u64; 25]; N], b: [[u64; 25]; N])
    requires
        rows(a) == rows(b),
    ensures
        a == b,
{
    assert forall|p: int| 0 <= p < N implies a[p] == b[p] by {
        assert(rows(a)[p] == rows(b)[p]);
        assert(a[p] =~= b[p]);
    }
    assert(a =~= b);
}

/// Every array of N states has a container that holds them, so the conversion into
/// a container is well defined.
pub proof fn lemma_from_states_view<const N: usize>(v: [[u64; 25]; N])
    ensures
        <ParallelKeccakState<N> as vstd::std_specs::convert::FromSpec<[[u64; 25]; N]>>::from_spec(v)@ == rows(v),
{
    let f = |l: int| array_of::<u64, N>(|p: int| v[p][l], N as int);
    let states = array_of::<[u64; N], 25>(f, 25);
    lemma_array_of::<[u64; N], 25>(f, 25);
    assert forall|l: int, p: int| 0 <= l < 25 && 0 <= p < N implies #[trigger] states[l][p] == v[p][l] by {
        lemma_array_of::<u64, N>(|q: int| v[q][l], N as int);
    }
    let w = ParallelKeccakState::<N> { states };
    assert forall|p: int| 0 <= p < N implies #[trigger] w@[p] == rows(v)[p] by {
        assert(w@[p] =~= rows(v)[p]);
    }
    assert(w@ =~= rows(v));
}

/// Every container has an array of N states that holds its instances, so the
/// conversion out of a container is well defined.
pub proof fn lemma_to_states_view<const N: usize>(s: ParallelKeccakState<N>)
    ensures
        rows(<[[u64; 25]; N] as vstd::std_specs::convert::FromSpec<ParallelKeccakState<N>>>::from_spec(s)) == s@,
{
    let g = |p: int| array_of::<u64, 25>(|l: int| s.word(l, p), 25);
    let a = array_of::<[u64; 25], N>(g, N as int);
    lemma_array_of::<[u64; 25], N>(g, N as int);
    assert forall|p: int| 0 <= p < N implies #[trigger] rows(a)[p] == s@[p] by {
        lemma_array_of::<u64, 25>(|l: int| s.word(l, p), 25);
        assert(rows(a)[p] =~= s@[p]);
    }
    assert(rows(a) =~= s@);
}

impl<const N: usize> From<[[u64; 25]; N]> for ParallelKeccakState<N> {
    /// Interleaves N canonical states: lane `l` of state `p` goes to lane `l` of
    /// instance `p`.
    fn from(src: [[u64; 25]; N]) -> (r: Self) {
        let r = Self::from_states(&src);
        proof {
            let c = choose|s: Self| s@ == rows(src);
            c.lemma_view_determines(&r);
        }
        r
    }
}

impl<const N: usize> vstd::std_specs::convert::FromSpecImpl<[[u64; 25]; N]> for ParallelKeccakState<N> {
    open spec fn obeys_from_spec() -> bool {
        true
    }

    open spec fn from_spec(v: [[u64; 25]; N]) -> Self {
        choose|s: Self| s@ == rows(v)
    }
}

impl<const N: usize> From<ParallelKeccakState<N>> for [[u64; 25]; N] {
    /// Reads the N instances back as canonical states.
    fn from(src: ParallelKeccakState<N>) -> (r: Self) {
        let r = src.to_states();
        proof {
            let c = choose|a: [[u64; 25]; N]| rows(a) == src@;
            lemma_instances_determine(c, r);
        }
        r
    }
}

impl<const N: usize> vstd::std_specs::convert::FromSpecImpl<ParallelKeccakState<N>> for [[u64; 25]; N] {
    open spec fn obeys_from_spec() -> bool {
        true
    }

    open spec fn from_spec(v: ParallelKeccakState<N>) -> Self {
        choose|a: [[u64; 25]; N]| rows(a) == v@
    }
}

} // verus!
