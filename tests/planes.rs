use keccak::keccak_planes::KeccakState;
use keccak::{keccak_f, keccak_p};

fn next(seed: &mut u64) -> u64 {
    *seed ^= *seed << 13;
    *seed ^= *seed >> 7;
    *seed ^= *seed << 17;
    *seed
}

fn random_state(seed: &mut u64) -> [u64; 25] {
    let mut s = [0; 25];
    for w in s.iter_mut() {
        *w = next(seed);
    }
    s
}

fn planes_p(rounds: usize, s: KeccakState) -> KeccakState {
    match rounds {
        0 => s.keccak_p::<0>(),
        1 => s.keccak_p::<1>(),
        2 => s.keccak_p::<2>(),
        3 => s.keccak_p::<3>(),
        4 => s.keccak_p::<4>(),
        5 => s.keccak_p::<5>(),
        6 => s.keccak_p::<6>(),
        7 => s.keccak_p::<7>(),
        8 => s.keccak_p::<8>(),
        9 => s.keccak_p::<9>(),
        10 => s.keccak_p::<10>(),
        11 => s.keccak_p::<11>(),
        12 => s.keccak_p::<12>(),
        13 => s.keccak_p::<13>(),
        14 => s.keccak_p::<14>(),
        15 => s.keccak_p::<15>(),
        16 => s.keccak_p::<16>(),
        17 => s.keccak_p::<17>(),
        18 => s.keccak_p::<18>(),
        19 => s.keccak_p::<19>(),
        20 => s.keccak_p::<20>(),
        21 => s.keccak_p::<21>(),
        22 => s.keccak_p::<22>(),
        23 => s.keccak_p::<23>(),
        24 => s.keccak_p::<24>(),
        _ => unreachable!(),
    }
}

fn scalar_rounds(rounds: usize, s: &[u64; 25]) -> [u64; 25] {
    let mut dst = [0; 25];
    match rounds {
        1 => keccak_p::<1>(&mut dst, s),
        3 => keccak_p::<3>(&mut dst, s),
        12 => keccak_p::<12>(&mut dst, s),
        23 => keccak_p::<23>(&mut dst, s),
        24 => keccak_p::<24>(&mut dst, s),
        _ => unreachable!(),
    }
    dst
}

#[test]
fn planes_round_trip() {
    let mut seed = 0x1234_5678_9abc_def1;
    let s = random_state(&mut seed);
    assert_eq!(<[u64; 25]>::from(KeccakState::from(s)), s);
}

#[test]
fn planes_golden_vectors() {
    let once = KeccakState::from([0u64; 25]).keccak_p::<24>();
    let lanes = <[u64; 25]>::from(once);
    assert_eq!(lanes[0], 0xf1258f7940e1dde7);
    assert_eq!(lanes[1], 0x84d5ccf933c0478a);
    assert_eq!(lanes[24], 0xeaf1ff7b5ceca249);
    assert_eq!(lanes, keccak_f(&[0; 25]));
    let twice = <[u64; 25]>::from(once.keccak_p::<24>());
    assert_eq!(twice[0], 0x2d5c954df96ecb3c);
    assert_eq!(twice[24], 0x20d06cd26a8fbf5c);
}

#[test]
fn planes_match_scalar_for_every_round_count() {
    let mut seed = 0x0bad_5eed_0bad_5eed;
    for k in 0..1000 {
        let s = random_state(&mut seed);
        let rounds = k % 25;
        let planes = <[u64; 25]>::from(planes_p(rounds, KeccakState::from(s)));
        let mut batch = keccak::ParallelKeccakState::from([s]);
        batch.keccak_p(rounds);
        assert_eq!([planes], <[[u64; 25]; 1]>::from(batch));
    }
    let s = random_state(&mut seed);
    for rounds in [1, 3, 12, 23, 24] {
        assert_eq!(<[u64; 25]>::from(planes_p(rounds, KeccakState::from(s))), scalar_rounds(rounds, &s));
    }
}

#[test]
fn planes_absorb_scenario() {
    let zero = KeccakState::from([0u64; 25]);
    let once = zero ^ [1u64, 2, 3, 4, 5, 6];
    let mut expected = [0u64; 25];
    expected[..6].copy_from_slice(&[1, 2, 3, 4, 5, 6]);
    assert_eq!(<[u64; 25]>::from(once), expected);
    let twice = once ^ [1u64, 2, 3];
    let mut expected = [0u64; 25];
    expected[3..6].copy_from_slice(&[4, 5, 6]);
    assert_eq!(<[u64; 25]>::from(twice), expected);
}

#[test]
fn planes_absorb_locality_and_offset() {
    let mut seed = 77;
    let s = random_state(&mut seed);
    let wide = KeccakState::from(s) ^ [u64::MAX; 21];
    let lanes = <[u64; 25]>::from(wide);
    for l in 0..25 {
        if l < 21 {
            assert_eq!(lanes[l], !s[l]);
        } else {
            assert_eq!(lanes[l], s[l]);
        }
    }
    let mut st = KeccakState::from(s);
    st.xor_lanes(7, &[1u64, 1, 1]);
    let lanes = <[u64; 25]>::from(st);
    for l in 0..25 {
        let expected = if (7..10).contains(&l) { s[l] ^ 1 } else { s[l] };
        assert_eq!(lanes[l], expected);
    }
}

#[test]
fn planes_equality_compares_lanes() {
    let mut seed = 99;
    let s = random_state(&mut seed);
    let a = KeccakState::from(s);
    let b = KeccakState::from(s);
    assert!(a == b);
    for l in [0usize, 4, 5, 12, 24] {
        let mut t = s;
        t[l] ^= 1 << 63;
        assert!(a != KeccakState::from(t));
    }
}
