use keccak::keccak_plain::{keccak_round, xor_lanes};
use keccak::keccakx2::{
    fast_interleave2, interleave2, interleave_state2, keccak_f_parallel2, keccak_p_parallel2,
    uninterleave2, uninterleave_state2,
};
use keccak::keccakx4::{
    fast_interleave4, interleave4, interleave_state4, keccak_p_parallel4, uninterleave4,
    uninterleave_state4,
};
use keccak::keccakx8::{
    fast_interleave8, interleave8, interleave_state8, keccak_f_parallel8, uninterleave8,
    uninterleave_state8,
};
use keccak::{keccak_f, keccak_p, ParallelKeccakState, ROUND_CONSTANTS};

const AFTER_ONE: [u64; 25] = [
    0xf1258f7940e1dde7, 0x84d5ccf933c0478a, 0xd598261ea65aa9ee, 0xbd1547306f80494d, 0x8b284e056253d057,
    0xff97a42d7f8e6fd4, 0x90fee5a0a44647c4, 0x8c5bda0cd6192e76, 0xad30a6f71b19059c, 0x30935ab7d08ffc64,
    0xeb5aa93f2317d635, 0xa9a6e6260d712103, 0x81a57c16dbcf555f, 0x43b831cd0347c826, 0x01f22f1a11a5569f,
    0x05e5635a21d9ae61, 0x64befef28cc970f2, 0x613670957bc46611, 0xb87c5a554fd00ecb, 0x8c3ee88a1ccf32c8,
    0x940c7922ae3a2614, 0x1841f924a2c509e4, 0x16f53526e70465c2, 0x75f644e97f30a13b, 0xeaf1ff7b5ceca249,
];

const AFTER_TWO: [u64; 25] = [
    0x2d5c954df96ecb3c, 0x6a332cd07057b56d, 0x093d8d1270d76b6c, 0x8a20d9b25569d094, 0x4f9c4f99e5e7f156,
    0xf957b9a2da65fb38, 0x85773dae1275af0d, 0xfaf4f247c3d810f7, 0x1f1b9ee6f79a8759, 0xe4fecc0fee98b425,
    0x68ce61b6b9ce68a1, 0xdeea66c4ba8f974f, 0x33c43d836eafb1f5, 0xe00654042719dbd9, 0x7cf8a9f009831265,
    0xfd5449a6bf174743, 0x97ddad33d8994b40, 0x48ead5fc5d0be774, 0xe3b8c8ee55b7b03c, 0x91a0226e649e42e9,
    0x900e3129e7badd7b, 0x202a9ec5faa3cce8, 0x5b3402464e1c3db6, 0x609f4e62a44c1059, 0x20d06cd26a8fbf5c,
];

/// A small deterministic generator for test states.
struct Lcg(u64);

impl Lcg {
    fn next(&mut self) -> u64 {
        self.0 = self.0.wrapping_mul(6364136223846793005).wrapping_add(1442695040888963407);
        let hi = self.0 >> 32;
        self.0 = self.0.wrapping_mul(6364136223846793005).wrapping_add(1442695040888963407);
        (hi << 32) | (self.0 >> 32)
    }

    fn state(&mut self) -> [u64; 25] {
        let mut s = [0; 25];
        for w in s.iter_mut() {
            *w = self.next();
        }
        s
    }
}

fn scalar_p(rounds: usize, s: &[u64; 25]) -> [u64; 25] {
    let mut dst = [0; 25];
    match rounds {
        0 => keccak_p::<0>(&mut dst, s),
        1 => keccak_p::<1>(&mut dst, s),
        2 => keccak_p::<2>(&mut dst, s),
        3 => keccak_p::<3>(&mut dst, s),
        4 => keccak_p::<4>(&mut dst, s),
        5 => keccak_p::<5>(&mut dst, s),
        6 => keccak_p::<6>(&mut dst, s),
        7 => keccak_p::<7>(&mut dst, s),
        8 => keccak_p::<8>(&mut dst, s),
        9 => keccak_p::<9>(&mut dst, s),
        10 => keccak_p::<10>(&mut dst, s),
        11 => keccak_p::<11>(&mut dst, s),
        12 => keccak_p::<12>(&mut dst, s),
        13 => keccak_p::<13>(&mut dst, s),
        14 => keccak_p::<14>(&mut dst, s),
        15 => keccak_p::<15>(&mut dst, s),
        16 => keccak_p::<16>(&mut dst, s),
        17 => keccak_p::<17>(&mut dst, s),
        18 => keccak_p::<18>(&mut dst, s),
        19 => keccak_p::<19>(&mut dst, s),
        20 => keccak_p::<20>(&mut dst, s),
        21 => keccak_p::<21>(&mut dst, s),
        22 => keccak_p::<22>(&mut dst, s),
        23 => keccak_p::<23>(&mut dst, s),
        24 => keccak_p::<24>(&mut dst, s),
        _ => unreachable!(),
    }
    dst
}

#[test]
fn keccak_f_test() {
    let mut input = [0; 25];
    input = keccak_f(&input);
    assert_eq!(input, AFTER_ONE);
    input = keccak_f(&input);
    assert_eq!(input, AFTER_TWO);
}

#[test]
fn parallel_keccak_test() {
    let states = [[0; 25], [1; 25]];
    let mut parallel = ParallelKeccakState::from(states);
    parallel.keccak_f();
    let results = <[[u64; 25]; 2]>::from(parallel);
    assert_eq!(results[0], keccak_f(&states[0]));
    assert_eq!(results[1], keccak_f(&states[1]));
}

#[test]
fn golden_vectors_through_keccak_p() {
    let mut dst = [7; 25];
    keccak_p::<24>(&mut dst, &[0; 25]);
    assert_eq!(dst, AFTER_ONE);
    let src = dst;
    keccak_p::<24>(&mut dst, &src);
    assert_eq!(dst, AFTER_TWO);
}

#[test]
fn zero_rounds_is_identity() {
    let s = Lcg(1).state();
    assert_eq!(scalar_p(0, &s), s);
    let mut parallel = ParallelKeccakState::from([s, AFTER_ONE]);
    parallel.keccak_p(0);
    assert_eq!(<[[u64; 25]; 2]>::from(parallel), [s, AFTER_ONE]);
}

#[test]
fn reduced_rounds_use_tail_of_schedule() {
    let s = Lcg(2).state();
    for r in 0..=24 {
        let mut head = s;
        for i in 0..24 - r {
            head = keccak_round(&head, ROUND_CONSTANTS[i]);
        }
        assert_eq!(scalar_p(r, &head), keccak_f(&s));
    }
    // One round of Keccak-p[1600, 1] uses the last constant, not the first.
    assert_eq!(scalar_p(1, &s), keccak_round(&s, ROUND_CONSTANTS[23]));
    assert_ne!(scalar_p(1, &s), keccak_round(&s, ROUND_CONSTANTS[0]));
}

#[test]
fn engines_agree_on_random_states() {
    let mut g = Lcg(3);
    for k in 0..1000 {
        let s = g.state();
        let rounds = k % 25;
        let scalar = scalar_p(rounds, &s);
        let mut single = ParallelKeccakState::from([s]);
        single.keccak_p(rounds);
        assert_eq!(<[[u64; 25]; 1]>::from(single), [scalar]);
    }
}

#[test]
fn engines_agree_for_every_round_count() {
    let mut g = Lcg(4);
    let a = g.state();
    let b = g.state();
    for rounds in 0..=24 {
        let mut batch = ParallelKeccakState::from([a, b]);
        batch.keccak_p(rounds);
        assert_eq!(<[[u64; 25]; 2]>::from(batch), [scalar_p(rounds, &a), scalar_p(rounds, &b)]);
    }
    let lanes = interleave_state2(&[a, b]);
    let out = uninterleave_state2(&keccak_p_parallel2::<5>(&lanes));
    assert_eq!(out, [scalar_p(5, &a), scalar_p(5, &b)]);
    let out4 = uninterleave_state4(&keccak_p_parallel4::<17>(&interleave_state4(&[a, b, b, a])));
    assert_eq!(out4, [scalar_p(17, &a), scalar_p(17, &b), scalar_p(17, &b), scalar_p(17, &a)]);
}

#[test]
fn no_cross_instance_leakage() {
    let mut g = Lcg(5);
    let states: [[u64; 25]; 8] = [
        g.state(), g.state(), g.state(), g.state(), g.state(), g.state(), g.state(), g.state(),
    ];
    let mut batch = ParallelKeccakState::from(states);
    batch.keccak_p(24);
    let out = <[[u64; 25]; 8]>::from(batch);
    for i in 0..8 {
        assert_eq!(out[i], keccak_f(&states[i]));
    }
    let lanes = keccak_f_parallel8(&interleave_state8(&states));
    let out8 = uninterleave_state8(&lanes);
    for i in 0..8 {
        assert_eq!(out8[i], keccak_f(&states[i]));
    }
    let out2 = uninterleave_state2(&keccak_f_parallel2(&interleave_state2(&[[0; 25], [1; 25]])));
    assert_eq!(out2, [AFTER_ONE, keccak_f(&[1; 25])]);
}

#[test]
fn interleave_round_trip() {
    let mut g = Lcg(6);
    let two = [g.state(), g.state()];
    assert_eq!(uninterleave_state2(&interleave_state2(&two)), two);
    let four = [g.state(), g.state(), g.state(), g.state()];
    assert_eq!(uninterleave_state4(&interleave_state4(&four)), four);
    let eight = [
        g.state(), g.state(), g.state(), g.state(), g.state(), g.state(), g.state(), g.state(),
    ];
    assert_eq!(uninterleave_state8(&interleave_state8(&eight)), eight);
}

#[test]
fn interleave_layout_is_lane_major() {
    let a: [u64; 25] = core::array::from_fn(|i| i as u64);
    let b: [u64; 25] = core::array::from_fn(|i| 100 + i as u64);
    let lanes = interleave_state2(&[a, b]);
    assert_eq!(lanes[0], [0, 100]);
    assert_eq!(lanes[13], [13, 113]);
    assert_eq!(lanes[24], [24, 124]);
    assert_eq!(interleave2([5, 6]), [5, 6]);
    assert_eq!(uninterleave2([5, 6]), [5, 6]);
    assert_eq!(interleave4([1, 2, 3, 4]), [1, 2, 3, 4]);
    assert_eq!(uninterleave4([1, 2, 3, 4]), [1, 2, 3, 4]);
    assert_eq!(interleave8([1, 2, 3, 4, 5, 6, 7, 8]), [1, 2, 3, 4, 5, 6, 7, 8]);
    assert_eq!(uninterleave8([1, 2, 3, 4, 5, 6, 7, 8]), [1, 2, 3, 4, 5, 6, 7, 8]);
}

#[test]
fn fast_interleave_transposes_and_is_involution() {
    let x2 = [[1, 2], [3, 4]];
    assert_eq!(fast_interleave2(x2), [[1, 3], [2, 4]]);
    assert_eq!(fast_interleave2(fast_interleave2(x2)), x2);
    let x4: [[u64; 4]; 4] = core::array::from_fn(|i| core::array::from_fn(|j| (10 * i + j) as u64));
    let t4 = fast_interleave4(x4);
    assert_eq!(t4[1][3], 31);
    assert_eq!(t4[3][1], 13);
    assert_eq!(fast_interleave4(t4), x4);
    let x8: [[u64; 8]; 8] = core::array::from_fn(|i| core::array::from_fn(|j| (10 * i + j) as u64));
    let t8 = fast_interleave8(x8);
    assert_eq!(t8[2][7], 72);
    assert_eq!(t8[7][2], 27);
    assert_eq!(fast_interleave8(t8), x8);
}

#[test]
fn absorb_scenario() {
    let mut state = [0u64; 25];
    xor_lanes(&mut state, 0, &[1, 2, 3, 4, 5, 6]);
    let mut expected = [0u64; 25];
    expected[..6].copy_from_slice(&[1, 2, 3, 4, 5, 6]);
    assert_eq!(state, expected);
    xor_lanes(&mut state, 0, &[1, 2, 3]);
    let mut expected = [0u64; 25];
    expected[3..6].copy_from_slice(&[4, 5, 6]);
    assert_eq!(state, expected);
}

#[test]
fn absorb_locality() {
    let s = Lcg(7).state();
    for len_case in 0..3 {
        let mut t = s;
        match len_case {
            0 => xor_lanes(&mut t, 0, &[u64::MAX; 17]),
            1 => xor_lanes(&mut t, 0, &[0x0707070707070707; 21]),
            _ => xor_lanes(&mut t, 4, &[1; 21]),
        }
        let (lo, hi) = match len_case {
            0 => (0, 17),
            1 => (0, 21),
            _ => (4, 25),
        };
        for l in 0..25 {
            if l < lo || l >= hi {
                assert_eq!(t[l], s[l]);
            } else {
                assert_ne!(t[l], s[l]);
            }
        }
    }
}

#[test]
fn batched_absorb_and_extract() {
    let mut g = Lcg(8);
    let a = g.state();
    let b = g.state();
    let mut batch = ParallelKeccakState::from([a, b]);
    batch.xor_lanes(2, [[1, 2, 3], [4, 5, 6]]);
    batch.xor_lane(24, [9, 10]);
    let out = <[[u64; 25]; 2]>::from(batch);
    for l in 0..25 {
        let (da, db) = match l {
            2 => (1, 4),
            3 => (2, 5),
            4 => (3, 6),
            24 => (9, 10),
            _ => (0, 0),
        };
        assert_eq!(out[0][l], a[l] ^ da);
        assert_eq!(out[1][l], b[l] ^ db);
    }
    assert_eq!(batch.extract_lane(3), [a[3] ^ 2, b[3] ^ 5]);
    let taken: [[u64; 4]; 2] = batch.extract_lanes(21);
    assert_eq!(taken, [[a[21], a[22], a[23], a[24] ^ 9], [b[21], b[22], b[23], b[24] ^ 10]]);
    let mut zero = ParallelKeccakState::from([[0u64; 25]; 2]);
    zero.xor_lanes(0, [[1, 2, 3, 4, 5, 6], [1, 2, 3, 4, 5, 6]]);
    zero.xor_lanes(0, [[1, 2, 3], [1, 2, 3]]);
    let lanes: [[u64; 6]; 2] = zero.extract_lanes(0);
    assert_eq!(lanes, [[0, 0, 0, 4, 5, 6], [0, 0, 0, 4, 5, 6]]);
}

#[test]
fn single_round_matches_reference_vector() {
    // One round on the zero state only applies iota.
    let r = keccak_round(&[0; 25], ROUND_CONSTANTS[0]);
    let mut expected = [0u64; 25];
    expected[0] = 1;
    assert_eq!(r, expected);
}

#[test]
fn load_and_xor_reads_little_endian_words() {
    let a: Vec<u8> = (0u8..24).collect();
    let b: Vec<u8> = (100u8..124).collect();
    let mut batch = ParallelKeccakState::from([[0u64; 25]; 2]);
    batch.load_and_xor::<3>(5, [&a[..], &b[..]]);
    let out = <[[u64; 25]; 2]>::from(batch);
    for l in 0..3 {
        assert_eq!(out[0][5 + l], u64::from_le_bytes(a[8 * l..8 * l + 8].try_into().unwrap()));
        assert_eq!(out[1][5 + l], u64::from_le_bytes(b[8 * l..8 * l + 8].try_into().unwrap()));
    }
    assert_eq!(out[0][5], 0x0706050403020100);
    assert_eq!(out[0][4], 0);
    assert_eq!(out[0][8], 0);
}

#[test]
fn load_interleaved_and_xor_strides_between_instances() {
    let bytes: Vec<u8> = (0u8..64).collect();
    let mut batch = ParallelKeccakState::from([[1u64; 25]; 4]);
    batch.load_interleaved_and_xor::<1>(0, &bytes, 16);
    let out = <[[u64; 25]; 4]>::from(batch);
    for p in 0..4 {
        let word = u64::from_le_bytes(bytes[16 * p..16 * p + 8].try_into().unwrap());
        assert_eq!(out[p][0], 1 ^ word);
        assert_eq!(out[p][1], 1);
    }
}

#[test]
fn read_le_u64_decodes_bytes() {
    let bytes = [0xefu8, 0xcd, 0xab, 0x89, 0x67, 0x45, 0x23, 0x01, 0xff];
    assert_eq!(keccak::keccak_plain::read_le_u64(&bytes, 0), 0x0123456789abcdef);
    assert_eq!(keccak::keccak_plain::read_le_u64(&bytes, 1), 0xff0123456789abcd);
}
