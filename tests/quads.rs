use keccak::keccak_planes::KeccakState as PlaneState;
use keccak::keccak_quads::KeccakState as QuadState;
use keccak::{keccak_f, keccak_p, ParallelKeccakState};

fn step(seed: &mut u64) -> u64 {
    *seed = seed.wrapping_mul(0x5851_f42d_4c95_7f2d).wrapping_add(0x1405_7b7e_f767_814f);
    *seed ^ (*seed >> 29)
}

fn random_lanes(seed: &mut u64) -> [u64; 25] {
    let mut s = [0; 25];
    for w in s.iter_mut() {
        *w = step(seed);
    }
    s
}

fn quads_p(rounds: usize, s: QuadState) -> QuadState {
    match rounds {
        0 => s.keccak_p::<0>(),
        1 => s.keccak_p::<1>(),
        2 => s.keccak_p::<2>(),
        3 => s.keccak_p::<3>(),
        4 => s.keccak_p::<4>(),
        5 => s.keccak_p::<5>(),
        6 => s.keccak_p::<6>(),
        7 => s.keccak_p::<7>(),
        8 => s.keccak_p::<8>(),
        9 => s.keccak_p::<9>(),
        10 => s.keccak_p::<10>(),
        11 => s.keccak_p::<11>(),
        12 => s.keccak_p::<12>(),
        13 => s.keccak_p::<13>(),
        14 => s.keccak_p::<14>(),
        15 => s.keccak_p::<15>(),
        16 => s.keccak_p::<16>(),
        17 => s.keccak_p::<17>(),
        18 => s.keccak_p::<18>(),
        19 => s.keccak_p::<19>(),
        20 => s.keccak_p::<20>(),
        21 => s.keccak_p::<21>(),
        22 => s.keccak_p::<22>(),
        23 => s.keccak_p::<23>(),
        24 => s.keccak_p::<24>(),
        _ => unreachable!(),
    }
}

#[test]
fn quads_round_trip() {
    let mut seed = 11;
    let s = random_lanes(&mut seed);
    assert_eq!(<[u64; 25]>::from(QuadState::from(s)), s);
}

#[test]
fn quads_golden_vectors() {
    let once = QuadState::from([0u64; 25]).keccak_p::<24>();
    let lanes = <[u64; 25]>::from(once);
    assert_eq!(lanes[0], 0xf1258f7940e1dde7);
    assert_eq!(lanes[1], 0x84d5ccf933c0478a);
    assert_eq!(lanes[24], 0xeaf1ff7b5ceca249);
    let twice = <[u64; 25]>::from(once.keccak_p::<24>());
    assert_eq!(twice[0], 0x2d5c954df96ecb3c);
    assert_eq!(twice[24], 0x20d06cd26a8fbf5c);
    assert_eq!(twice, keccak_f(&keccak_f(&[0; 25])));
}

#[test]
fn all_engines_agree() {
    let mut seed = 0x5eed;
    for k in 0..1000 {
        let s = random_lanes(&mut seed);
        let rounds = k % 25;
        let quads = <[u64; 25]>::from(quads_p(rounds, QuadState::from(s)));
        let mut batch = ParallelKeccakState::from([s]);
        batch.keccak_p(rounds);
        assert_eq!([quads], <[[u64; 25]; 1]>::from(batch));
        if rounds == 24 {
            let planes = <[u64; 25]>::from(PlaneState::from(s).keccak_p::<24>());
            let mut scalar = [0; 25];
            keccak_p::<24>(&mut scalar, &s);
            assert_eq!(quads, planes);
            assert_eq!(quads, scalar);
        }
    }
}

#[test]
fn quads_absorb_scenario() {
    let zero = QuadState::from([0u64; 25]);
    let once = zero ^ [1u64, 2, 3, 4, 5, 6];
    let mut expected = [0u64; 25];
    expected[..6].copy_from_slice(&[1, 2, 3, 4, 5, 6]);
    assert_eq!(<[u64; 25]>::from(once), expected);
    let twice = once ^ [1u64, 2, 3];
    let mut expected = [0u64; 25];
    expected[3..6].copy_from_slice(&[4, 5, 6]);
    assert_eq!(<[u64; 25]>::from(twice), expected);
}

#[test]
fn quads_absorb_every_width() {
    let mut seed = 21;
    let s = random_lanes(&mut seed);
    let full = QuadState::from(s) ^ [u64::MAX; 24];
    let lanes = <[u64; 25]>::from(full);
    for l in 0..24 {
        assert_eq!(lanes[l], !s[l]);
    }
    assert_eq!(lanes[24], s[24]);
    let mut st = QuadState::from(s);
    st.xor_lanes(20, &[3u64, 3, 3, 3, 3]);
    let lanes = <[u64; 25]>::from(st);
    for l in 0..25 {
        let expected = if l >= 20 { s[l] ^ 3 } else { s[l] };
        assert_eq!(lanes[l], expected);
    }
}

#[test]
fn quads_equality_compares_lanes() {
    let mut seed = 31;
    let s = random_lanes(&mut seed);
    let a = QuadState::from(s);
    assert!(a == QuadState::from(s));
    for l in 0..25 {
        let mut t = s;
        t[l] ^= 1;
        assert!(a != QuadState::from(t));
    }
}
