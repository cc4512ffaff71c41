//! 8-way batching: 8 instances advanced together, one vector of 8 words per lane.
use vstd::prelude::*;

use crate::interleave::{fast_interleave, interleave_state, uninterleave_state};
use crate::model::{instances, keccak_f_spec, permutation, rows, transpose};
use crate::lane_vector::{keccak_p_lanes, lemma_instance_is_column};

verus! {

/// A vector of 8 words, word `p` belonging to instance `p`.
pub type U64x8 = [u64; 8];

/// Packs word `p` of `lanes` into position `p` of a vector.
pub fn interleave8(lanes: [u64; 8]) -> (r: U64x8)
    ensures
        r@ == lanes@,
{
    lanes
}

/// The 8 words of a vector, in position order.
pub fn uninterleave8(src: U64x8) -> (r: [u64; 8])
    ensures
        r@ == src@,
{
    src
}

/// Transposes 8 vectors: 8 consecutive lanes of 8 instances become 8 lanes of
/// all instances, and back.
pub fn fast_interleave8(a: [U64x8; 8]) -> (r: [U64x8; 8])
    ensures
        rows(r) == transpose(rows(a), 8),
{
    fast_interleave(&a)
}

/// The lane-major layout of 8 canonical states.
pub fn interleave_state8(state: &[[u64; 25]; 8]) -> (r: [U64x8; 25])
    ensures
        instances(r) == rows(*state),
{
    let r = interleave_state(state);
    proof {
        crate::laws::lemma_interleave_round_trip(*state);
    }
    r
}

/// The 8 canonical states of a lane-major layout.
pub fn uninterleave_state8(state: &[U64x8; 25]) -> (r: [[u64; 25]; 8])
    ensures
        rows(r) == instances(*state),
{
    uninterleave_state(state)
}

/// Keccak-p[1600, ROUNDS] on each of the 8 instances.
pub fn keccak_p_parallel8<const ROUNDS: usize>(state: &[U64x8; 25]) -> (r: [U64x8; 25])
    requires
        ROUNDS <= 24,
    ensures
        forall|p: int|
            0 <= p < 8 ==> #[trigger] instances(r)[p] == permutation(
                instances(*state)[p],
                ROUNDS as int,
            ),
{
    let r = keccak_p_lanes(state, ROUNDS);
    proof {
        assert forall|p: int| 0 <= p < 8 implies #[trigger] instances(r)[p] == permutation(
            instances(*state)[p],
            ROUNDS as int,
        ) by {
            lemma_instance_is_column(r, p);
            lemma_instance_is_column(*state, p);
        }
    }
    r
}

/// Keccak-f[1600] on each of the 8 instances.
pub fn keccak_f_parallel8(state: &[U64x8; 25]) -> (r: [U64x8; 25])
    ensures
        forall|p: int|
            0 <= p < 8 ==> #[trigger] instances(r)[p] == keccak_f_spec(instances(*state)[p]),
{
    keccak_p_parallel8::<24>(state)
}

} // verus!
