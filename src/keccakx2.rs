//! 2-way batching: 2 instances advanced together, one vector of 2 words per lane.
use vstd::prelude::*;

use crate::interleave::{fast_interleave, interleave_state, uninterleave_state};
use crate::model::{instances, keccak_f_spec, permutation, rows, transpose};
use crate::lane_vector::{keccak_p_lanes, lemma_instance_is_column};

verus! {

/// A vector of 2 words, word `p` belonging to instance `p`.
pub type U64x2 = [u64; 2];

/// Packs word `p` of `lanes` into position `p` of a vector.
pub fn interleave2(lanes: [u64; 2]) -> (r: U64x2)
    ensures
        r@ == lanes@,
{
    lanes
}

/// The 2 words of a vector, in position order.
pub fn uninterleave2(src: U64x2) -> (r: [u64; 2])
    ensures
        r@ == src@,
{
    src
}

/// Transposes 2 vectors: 2 consecutive lanes of 2 instances become 2 lanes of
/// all instances, and back.
pub fn fast_interleave2(a: [U64x2; 2]) -> (r: [U64x2; 2])
    ensures
        rows(r) == transpose(rows(a), 2),
{
    fast_interleave(&a)
}

/// The lane-major layout of 2 canonical states.
pub fn interleave_state2(state: &[[u64; 25]; 2]) -> (r: [U64x2; 25])
    ensures
        instances(r) == rows(*state),
{
    let r = interleave_state(state);
    proof {
        crate::laws::lemma_interleave_round_trip(*state);
    }
    r
}

/// The 2 canonical states of a lane-major layout.
pub fn uninterleave_state2(state: &[U64x2; 25]) -> (r: [[u64; 25]; 2])
    ensures
        rows(r) == instances(*state),
{
    uninterleave_state(state)
}

/// Keccak-p[1600, ROUNDS] on each of the 2 instances.
pub fn keccak_p_parallel2<const ROUNDS: usize>(state: &[U64x2; 25]) -> (r: [U64x2; 25])
    requires
        ROUNDS <= 24,
    ensures
        forall|p: int|
            0 <= p < 2 ==> #[trigger] instances(r)[p] == permutation(
                instances(*state)[p],
                ROUNDS as int,
            ),
{
    let r = keccak_p_lanes(state, ROUNDS);
    proof {
        assert forall|p: int| 0 <= p < 2 implies #[trigger] instances(r)[p] == permutation(
            instances(*state)[p],
            ROUNDS as int,
        ) by {
            lemma_instance_is_column(r, p);
            lemma_instance_is_column(*state, p);
        }
    }
    r
}

/// Keccak-f[1600] on each of the 2 instances.
pub fn keccak_f_parallel2(state: &[U64x2; 25]) -> (r: [U64x2; 25])
    ensures
        forall|p: int|
            0 <= p < 2 ==> #[trigger] instances(r)[p] == keccak_f_spec(instances(*state)[p]),
{
    keccak_p_parallel2::<24>(state)
}

} // verus!
