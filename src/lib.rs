//! Keccak-f[1600] and Keccak-p[1600, n_r], with a lane-interleaved batching layer that
//! advances several independent states in lockstep.
//!
//! - [`model`] defines the permutation on a sequence of 25 lanes; every engine is
//!   proved to compute it.
//! - [`keccak_plain`] is the scalar engine on 25 words.
//! - [`keccak_quads`] and [`keccak_planes`] hold one state in seven 4-word or five
//!   8-word registers, with rounds built from word permutations and blends.
//! - [`lane_vector`] is the batched round, written once against four vector
//!   operations; [`interleave`] converts between N states and the lane-major layout
//!   it works on; [`keccakx2`], [`keccakx4`] and [`keccakx8`] are its entry points
//!   for 2, 4 and 8 instances.
//! - [`parallel_keccak`] is the batched container, generic over the number of
//!   instances.
//! - [`laws`] states the properties that relate several operations.
use vstd::prelude::*;

pub mod model;
pub mod keccak_plain;
pub mod parallel_keccak;
pub mod interleave;
pub mod lane_vector;
pub mod keccakx2;
pub mod keccakx4;
pub mod keccakx8;
pub mod laws;
pub mod keccak_planes;
pub mod keccak_quads;

pub use keccak_plain::{keccak_f, keccak_p};
pub use parallel_keccak::ParallelKeccakState;

verus! {

/// The iota constants of the 24 rounds of Keccak-f[1600], in round order.
pub const ROUND_CONSTANTS: [u64; 24] = [
    0x0000000000000001,
    0x0000000000008082,
    0x800000000000808a,
    0x8000000080008000,
    0x000000000000808b,
    0x0000000080000001,
    0x8000000080008081,
    0x8000000000008009,
    0x000000000000008a,
    0x0000000000000088,
    0x0000000080008009,
    0x000000008000000a,
    0x000000008000808b,
    0x800000000000008b,
    0x8000000000008089,
    0x8000000000008003,
    0x8000000000008002,
    0x8000000000000080,
    0x000000000000800a,
    0x800000008000000a,
    0x8000000080008081,
    0x8000000000008080,
    0x0000000080000001,
    0x8000000080008008,
];

/// The rho rotation offset of each lane, indexed by `x + 5 * y`.
pub const RHO_OFFSETS: [u64; 25] = [
    0, 1, 62, 28, 27,
    36, 44, 6, 55, 20,
    3, 10, 43, 25, 39,
    41, 45, 15, 21, 8,
    18, 2, 61, 56, 14,
];

} // verus!
