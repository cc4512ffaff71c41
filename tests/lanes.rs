use keccak::keccak_plain::keccak_round;
use keccak::lane_vector::{keccak_p_lanes, keccak_round_lanes, LaneVector};
use keccak::{keccak_f, keccak_p, ROUND_CONSTANTS};

fn lane_major<const N: usize>(states: &[[u64; 25]; N]) -> [[u64; N]; 25] {
    let mut out = [[0u64; N]; 25];
    for l in 0..25 {
        for p in 0..N {
            out[l][p] = states[p][l];
        }
    }
    out
}

fn states_of<const N: usize>(lanes: &[[u64; N]; 25]) -> [[u64; 25]; N] {
    let mut out = [[0u64; 25]; N];
    for l in 0..25 {
        for p in 0..N {
            out[p][l] = lanes[l][p];
        }
    }
    out
}

fn sample(p: usize) -> [u64; 25] {
    let mut s = [0u64; 25];
    for (l, w) in s.iter_mut().enumerate() {
        *w = ((p as u64 + 1) * 0x9e37_79b9_7f4a_7c15).rotate_left(l as u32) ^ l as u64;
    }
    s
}

#[test]
fn vector_primitives_act_word_by_word() {
    let a = [1u64, 2, 0x8000_0000_0000_0000];
    let b = [3u64, 3, 0];
    let c = [5u64, 5, 7];
    assert_eq!(a.xor(&b), [2, 1, 0x8000_0000_0000_0000]);
    assert_eq!(a.rotate_left(1), [2, 4, 1]);
    assert_eq!(<[u64; 3]>::chi(&a, &b, &c), [1 ^ (!3 & 5), 2 ^ (!3 & 5), 0x8000_0000_0000_0000 ^ 7]);
    assert_eq!(<[u64; 3]>::broadcast(9), [9, 9, 9]);
}

#[test]
fn generic_round_matches_scalar_round_at_width_three() {
    let states = [sample(0), sample(1), sample(2)];
    let lanes = keccak_round_lanes(&lane_major(&states), ROUND_CONSTANTS[7]);
    let out = states_of(&lanes);
    for p in 0..3 {
        assert_eq!(out[p], keccak_round(&states[p], ROUND_CONSTANTS[7]));
    }
}

#[test]
fn generic_permutation_at_width_sixteen() {
    let mut states = [[0u64; 25]; 16];
    for (p, s) in states.iter_mut().enumerate() {
        *s = sample(p);
    }
    let out = states_of(&keccak_p_lanes(&lane_major(&states), 24));
    for p in 0..16 {
        assert_eq!(out[p], keccak_f(&states[p]));
    }
    let out = states_of(&keccak_p_lanes(&lane_major(&states), 7));
    for p in 0..16 {
        let mut expected = [0u64; 25];
        keccak_p::<7>(&mut expected, &states[p]);
        assert_eq!(out[p], expected);
    }
}
