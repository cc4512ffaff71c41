//! Properties that relate several operations of the library.
use vstd::prelude::*;

use crate::keccak_planes;
use crate::keccak_quads;
use crate::parallel_keccak::{lemma_from_states_view, lemma_to_states_view, ParallelKeccakState};
use crate::model::{
    instances, is_state, lemma_rows_matrix, lemma_transpose_twice, permutation, rounds, rows, transpose,
    xor_into,
};

verus! {

/// Interleaving N states and un-interleaving the result gives the states back.
pub proof fn lemma_interleave_round_trip<const N: usize>(states: [[u64; 25]; N])
    ensures
        transpose(transpose(rows(states), 25), N as nat) == rows(states),
{
    lemma_rows_matrix(states);
    lemma_transpose_twice(rows(states), 25);
}

/// The block transpose undoes itself.
pub proof fn lemma_fast_interleave_involution<const N: usize>(x: [[u64; N]; N])
    ensures
        transpose(transpose(rows(x), N as nat), N as nat) == rows(x),
{
    lemma_rows_matrix(x);
    lemma_transpose_twice(rows(x), N as nat);
}

/// Xoring lanes at `offset` leaves every lane outside `offset .. offset + lanes.len()`
/// as it was.
pub proof fn lemma_absorb_locality(s: Seq<u64>, offset: int, lanes: Seq<u64>, l: int)
    requires
        is_state(s),
        0 <= offset,
        offset + lanes.len() <= 25,
        0 <= l < 25,
        !(offset <= l < offset + lanes.len()),
    ensures
        xor_into(s, offset, lanes)[l] == s[l],
{
}

/// Running rounds `a .. b` and then rounds `b .. c` is running rounds `a .. c`.
pub proof fn lemma_rounds_compose(s: Seq<u64>, a: int, b: int, c: int)
    requires
        a <= b <= c,
    ensures
        rounds(rounds(s, a, b), b, c) == rounds(s, a, c),
    decreases c - b,
{
    if b < c {
        lemma_rounds_compose(s, a, b, c - 1);
    }
}

/// Keccak-p[1600, r] is the tail of Keccak-f[1600]: the first `24 - r` rounds of the
/// schedule followed by Keccak-p[1600, r] make up the full permutation.
pub proof fn lemma_reduced_rounds_are_schedule_tail(s: Seq<u64>, r: int)
    requires
        0 <= r <= 24,
    ensures
        permutation(rounds(s, 0, 24 - r), r) == permutation(s, 24),
{
    lemma_rounds_compose(s, 0, 24 - r, 24);
}

/// A lane-major layout of one instance holds exactly that state, so the batched
/// engine run at width one computes what the scalar engine computes.
pub proof fn lemma_single_instance_matches_scalar(v: [[u64; 1]; 25], s: [u64; 25], r: int)
    requires
        forall|l: int| 0 <= l < 25 ==> #[trigger] v[l][0] == s[l],
    ensures
        instances(v)[0] == s@,
        permutation(instances(v)[0], r) == permutation(s@, r),
{
    assert(instances(v)[0] =~= s@);
}

/// Batching keeps instances apart: N states put into a container, advanced together
/// by Keccak-p[1600, r] and read back give each state's own permutation.
pub proof fn lemma_batched_instances_stay_apart<const N: usize>(
    states: [[u64; 25]; N],
    batch: ParallelKeccakState<N>,
    after: ParallelKeccakState<N>,
    out: [[u64; 25]; N],
    r: int,
)
    requires
        batch == <ParallelKeccakState<N> as vstd::std_specs::convert::FromSpec<[[u64; 25]; N]>>::from_spec(states),
        forall|p: int| 0 <= p < N ==> #[trigger] after@[p] == permutation(batch@[p], r),
        out == <[[u64; 25]; N] as vstd::std_specs::convert::FromSpec<ParallelKeccakState<N>>>::from_spec(after),
    ensures
        forall|p: int| 0 <= p < N ==> #[trigger] out[p]@ == permutation(states[p]@, r),
{
    lemma_from_states_view(states);
    lemma_to_states_view(after);
    assert forall|p: int| 0 <= p < N implies #[trigger] out[p]@ == permutation(states[p]@, r) by {
        assert(rows(out)[p] == after@[p]);
        assert(batch@[p] == rows(states)[p]);
    }
}

/// The register engines agree with the scalar engine: lanes converted into the
/// plane layout or the quad layout, advanced by Keccak-p[1600, r] and converted back
/// are Keccak-p[1600, r] of the lanes.
pub proof fn lemma_register_engines_agree(
    v: [u64; 25],
    planes_after: keccak_planes::KeccakState,
    planes_out: [u64; 25],
    quads_after: keccak_quads::KeccakState,
    quads_out: [u64; 25],
    r: int,
)
    requires
        planes_after@ == permutation(
            <keccak_planes::KeccakState as vstd::std_specs::convert::FromSpec<[u64; 25]>>::from_spec(v)@,
            r,
        ),
        planes_out == <[u64; 25] as vstd::std_specs::convert::FromSpec<keccak_planes::KeccakState>>::from_spec(planes_after),
        quads_after@ == permutation(
            <keccak_quads::KeccakState as vstd::std_specs::convert::FromSpec<[u64; 25]>>::from_spec(v)@,
            r,
        ),
        quads_out == <[u64; 25] as vstd::std_specs::convert::FromSpec<keccak_quads::KeccakState>>::from_spec(quads_after),
    ensures
        planes_out@ == permutation(v@, r),
        quads_out@ == permutation(v@, r),
{
    keccak_planes::lemma_from_lanes_view(v);
    keccak_planes::lemma_to_lanes_view(planes_after);
    keccak_quads::lemma_from_lanes_view(v);
    keccak_quads::lemma_to_lanes_view(quads_after);
}

} // verus!
