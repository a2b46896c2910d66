use max_image_sender::pow::check_nonce;
use max_image_sender::pow::digest_meets;
use max_image_sender::pow::encode_counter;
use max_image_sender::solver::check_counter;
use max_image_sender::solver::draw_nonce;
use max_image_sender::solver::solve_pow_within;
use max_image_sender::solve_pow;
use max_image_sender::solve_pow_parallel;
use sha2::Digest;
use sha2::Sha256;

/// The predicate, computed the long way round: hash, reverse, accumulate the
/// last sixteen bytes, mask.
fn independent_check(prefix: &[u8], nonce: &[u8], difficulty: u8) -> bool {
    let mut hasher = Sha256::new();
    hasher.update(prefix);
    hasher.update(nonce);
    let mut hash = hasher.finalize().to_vec();
    hash.reverse();
    let mut num = 0u128;
    for byte in &hash {
        num = (num << 8) | u128::from(*byte);
    }
    assert!(difficulty < 128);
    num & ((1u128 << difficulty) - 1) == 0
}

#[test]
fn sequential_solver_finds_valid_nonces_up_to_difficulty_16() {
    for d in 0..=16u8 {
        let prefix: [u8; 24] = rand::random();
        let nonce = solve_pow(&prefix, d).expect("a nonce");
        assert_eq!(nonce.len(), 16);
        assert!(nonce.iter().all(|b| b.is_ascii_alphanumeric()));
        assert!(independent_check(&prefix, &nonce, d), "difficulty {}", d);
        assert!(check_nonce(&prefix, &nonce, d));
    }
}

#[test]
fn parallel_solver_finds_valid_nonces_up_to_difficulty_16() {
    for d in 0..=16u8 {
        let prefix: [u8; 24] = rand::random();
        let nonce = solve_pow_parallel(&prefix, d);
        assert_eq!(nonce.len(), 16);
        assert!(independent_check(&prefix, &nonce, d), "difficulty {}", d);
        assert!(check_nonce(&prefix, &nonce, d));
    }
}

#[test]
fn both_solvers_answer_the_same_prefix() {
    let prefix = [13u8; 16];
    let a = solve_pow(&prefix, 10).expect("a nonce");
    let b = solve_pow_parallel(&prefix, 10);
    assert!(independent_check(&prefix, &a, 10));
    assert!(independent_check(&prefix, &b, 10));
    assert!(check_nonce(&prefix, &a, 10));
    assert!(check_nonce(&prefix, &b, 10));

    for d in [0u8, 3, 7, 12] {
        let prefix: [u8; 20] = rand::random();
        let a = solve_pow(&prefix, d).expect("a nonce");
        let b = solve_pow_parallel(&prefix, d);
        assert!(independent_check(&prefix, &a, d));
        assert!(independent_check(&prefix, &b, d));
    }
}

#[test]
fn what_meets_a_difficulty_meets_every_lower_one() {
    let prefix: [u8; 24] = rand::random();
    let nonce = solve_pow_parallel(&prefix, 12);
    for d in 0..=12u8 {
        assert!(check_nonce(&prefix, &nonce, d), "difficulty {}", d);
    }
    let digest = [0u8, 0xf0, 1, 2];
    for d in 0..=12u8 {
        assert!(digest_meets(&digest, d));
    }
    for d in 13..=40u8 {
        assert!(!digest_meets(&digest, d));
    }
}

#[test]
fn difficulty_zero_is_met_on_the_first_attempt() {
    for seed in 0..20u8 {
        let prefix = [seed; 24];
        assert!(solve_pow_within(&prefix, 0, 1).is_some());
        assert!(check_nonce(&prefix, &[seed], 0));
        assert!(check_nonce(&prefix, &[], 0));
    }
}

#[test]
fn no_attempts_no_nonce() {
    assert_eq!(solve_pow_within(&[1, 2, 3], 0, 0), None);
    assert_eq!(solve_pow_within(&[1, 2, 3], 200, 0), None);
}

#[test]
fn an_impossible_difficulty_runs_out_of_attempts() {
    assert_eq!(solve_pow_within(b"prefix", 255, 50), None);
}

#[test]
fn drawn_nonces_are_sixteen_letters_and_digits() {
    for _ in 0..100 {
        let nonce = draw_nonce();
        assert_eq!(nonce.len(), 16);
        assert!(nonce.iter().all(|b| b.is_ascii_alphanumeric()));
    }
}

#[test]
fn drawn_nonces_differ() {
    let a = draw_nonce();
    let b = draw_nonce();
    let c = draw_nonce();
    assert!(a != b || b != c);
}

#[test]
fn counters_are_little_endian() {
    assert_eq!(encode_counter(0), vec![0u8; 16]);
    assert_eq!(encode_counter(1), 1u128.to_le_bytes().to_vec());
    assert_eq!(encode_counter(0x0102), vec![2, 1, 0, 0, 0, 0, 0, 0, 0, 0, 0, 0, 0, 0, 0, 0]);
    assert_eq!(encode_counter(u128::MAX), vec![0xffu8; 16]);
    let n = 0x0123_4567_89ab_cdef_0011_2233_4455_6677u128;
    assert_eq!(encode_counter(n), n.to_le_bytes().to_vec());
}

#[test]
fn check_counter_agrees_with_check_nonce() {
    let prefix = [7u8; 24];
    for c in 0..200u128 {
        for d in [0u8, 1, 3, 8] {
            assert_eq!(check_counter(&prefix, c, d), check_nonce(&prefix, &c.to_le_bytes(), d));
            assert_eq!(check_counter(&prefix, c, d), independent_check(&prefix, &c.to_le_bytes(), d));
        }
    }
}

#[test]
fn digest_meets_counts_bits_from_the_first_byte() {
    let mut digest = [0u8; 32];
    digest[0] = 0b0000_1000;
    assert!(digest_meets(&digest, 0));
    assert!(digest_meets(&digest, 1));
    assert!(digest_meets(&digest, 3));
    assert!(!digest_meets(&digest, 4));
    assert!(!digest_meets(&digest, 8));
    assert!(!digest_meets(&digest, 255));

    let mut digest = [0u8; 32];
    digest[1] = 0b0001_0000;
    assert!(digest_meets(&digest, 8));
    assert!(digest_meets(&digest, 12));
    assert!(!digest_meets(&digest, 13));

    let mut digest = [0u8; 32];
    digest[31] = 0x80;
    assert!(digest_meets(&digest, 255));
    digest[31] = 0x40;
    assert!(!digest_meets(&digest, 255));
    assert!(digest_meets(&digest, 254));

    assert!(digest_meets(&[0u8; 32], 255));
    assert!(!digest_meets(&[0xffu8; 32], 1));
    assert!(digest_meets(&[0xffu8; 32], 0));
}

#[test]
fn digest_meets_treats_missing_bytes_as_zero() {
    assert!(digest_meets(&[], 200));
    assert!(digest_meets(&[0, 0], 200));
    assert!(!digest_meets(&[0, 1], 200));
}

#[test]
fn check_nonce_hashes_prefix_then_nonce() {
    // SHA-256("abc") = ba7816bf 8f01cfea ...: the first byte is 0xba = 1011_1010.
    assert!(check_nonce(b"abc", b"", 1));
    assert!(!check_nonce(b"abc", b"", 2));
    assert!(check_nonce(b"a", b"bc", 1));
    assert!(!check_nonce(b"a", b"bc", 2));
    assert!(check_nonce(b"", b"abc", 1));
    // SHA-256("") = e3b0c442 ...: the first byte is 0xe3, an odd number.
    assert!(!check_nonce(b"", b"", 1));
    // SHA-256("cba") differs from SHA-256("abc").
    let forward = (0..=16u8).map(|d| check_nonce(b"ab", b"c", d)).collect::<Vec<bool>>();
    let digest = Sha256::digest(b"abc");
    let expect = (0..=16u8).map(|d| digest_meets(&digest, d)).collect::<Vec<bool>>();
    assert_eq!(forward, expect);
}
