//! 4-way batching: 4 instances advanced together, one vector of 4 words per lane.
use vstd::prelude::*;

use crate::interleave::{fast_interleave, interleave_state, uninterleave_state};
use crate::model::{instances, keccak_f_spec, permutation, rows, transpose};
use crate::lane_vector::{keccak_p_lanes, lemma_instance_is_column};

verus! {

/// A vector of 4 words, word `p` belonging to instance `p`.
pub type U64x4 = [u64; 4];

/// Packs word `p` of `lanes` into position `p` of a vector.
pub fn interleave4(lanes: [u64; 4]) -> (r: U64x4)
    ensures
        r@ == lanes@,
{
    lanes
}

/// The 4 words of a vector, in position order.
pub fn uninterleave4(src: U64x4) -> (r: [u64; 4])
    ensures
        r@ == src@,
{
    src
}

/// Transposes 4 vectors: 4 consecutive lanes of 4 instances become 4 lanes of
/// all instances, and back.
pub fn fast_interleave4(a: [U64x4; 4]) -> (r: [U64x4; 4])
    ensures
        rows(r) == transpose(rows(a), 4),
{
    fast_interleave(&a)
}

/// The lane-major layout of 4 canonical states.
pub fn interleave_state4(state: &[[u64; 25]; 4]) -> (r: [U64x4; 25])
    ensures
        instances(r) == rows(*state),
{
    let r = interleave_state(state);
    proof {
        crate::laws::lemma_interleave_round_trip(*state);
    }
    r
}

/// The 4 canonical states of a lane-major layout.
pub fn uninterleave_state4(state: &[U64x4; 25]) -> (r: [[u64; 25]; 4])
    ensures
        rows(r) == instances(*state),
{
    uninterleave_state(state)
}

/// Keccak-p[1600, ROUNDS] on each of the 4 instances.
pub fn keccak_p_parallel4<const ROUNDS: usize>(state: &[U64x4; 25]) -> (r: [U64x4; 25])
    requires
        ROUNDS <= 24,
    ensures
        forall|p: int|
            0 <= p < 4 ==> #[trigger] instances(r)[p] == permutation(
                instances(*state)[p],
                ROUNDS as int,
            ),
{
    let r = keccak_p_lanes(state, ROUNDS);
    proof {
        assert forall|p: int| 0 <= p < 4 implies #[trigger] instances(r)[p] == permutation(
            instances(*state)[p],
            ROUNDS as int,
        ) by {
            lemma_instance_is_column(r, p);
            lemma_instance_is_column(*state, p);
        }
    }
    r
}

/// Keccak-f[1600] on each of the 4 instances.
pub fn keccak_f_parallel4(state: &[U64x4; 25]) -> (r: [U64x4; 25])
    ensures
        forall|p: int|
            0 <= p < 4 ==> #[trigger] instances(r)[p] == keccak_f_spec(instances(*state)[p]),
{
    keccak_p_parallel4::<24>(state)
}

} // verus!
