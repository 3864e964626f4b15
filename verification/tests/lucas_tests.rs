use prime_checker::checkpoint::{decode_checkpoint, encode_checkpoint};
use prime_checker::lucas::{lucas_lehmer, LucasLehmerEngine};
use prime_checker::PrimeError;

#[test]
fn known_mersenne_prime_exponents() {
    for p in [2u128, 3, 5, 7, 13, 17, 19, 31] {
        assert_eq!(lucas_lehmer(p), Ok(true), "2^{} - 1 should be prime", p);
    }
}

#[test]
fn known_composite_mersenne_exponents() {
    for p in [11u128, 23] {
        assert_eq!(lucas_lehmer(p), Ok(false), "2^{} - 1 should be composite", p);
    }
}

#[test]
fn base_case_exponent_two_is_prime() {
    assert_eq!(lucas_lehmer(2), Ok(true));
}

#[test]
fn exponents_below_two_are_invalid() {
    assert_eq!(lucas_lehmer(0), Err(PrimeError::InvalidInput));
    assert_eq!(lucas_lehmer(1), Err(PrimeError::InvalidInput));
}

#[test]
fn exponent_past_word_width_overflows() {
    assert_eq!(lucas_lehmer(65), Err(PrimeError::ArithmeticOverflow));
    assert_eq!(lucas_lehmer(1_000_000), Err(PrimeError::ArithmeticOverflow));
}

#[test]
fn widest_representable_exponent_still_runs() {
    // 2^64 - 1 = 3 * 5 * 17 * 257 * 641 * 65537 * 6700417 is composite.
    assert_eq!(lucas_lehmer(64), Ok(false));
}

#[test]
fn engine_single_step_settles_smallest_case() {
    // p = 3: M = 7, one transition of s = 4 gives (16 - 2) mod 7 = 0.
    let mut engine = LucasLehmerEngine::new(3).unwrap();
    assert!(!engine.is_complete());
    assert_eq!(engine.modulus(), 7);
    assert_eq!(engine.state(), 4);
    engine.step();
    assert!(engine.is_complete());
    assert_eq!(engine.state(), 0);
    assert!(engine.verdict());
}

#[test]
fn engine_run_respects_budget_and_completion() {
    let mut engine = LucasLehmerEngine::new(19).unwrap();
    assert_eq!(engine.run(0), 0);
    assert_eq!(engine.run(5), 5);
    assert_eq!(engine.iteration(), 5);
    // A budget past the end stops exactly at completion: 17 transitions total.
    assert_eq!(engine.run(1000), 12);
    assert!(engine.is_complete());
    assert_eq!(engine.run(1000), 0);
    assert!(engine.verdict());
}

#[test]
fn fresh_engine_checkpoint_encodes_seed_and_zero_counter() {
    let engine = LucasLehmerEngine::new(31).unwrap();
    let bytes = engine.checkpoint();
    assert_eq!(decode_checkpoint(&bytes), Some((4, 0)));
}

#[test]
fn halted_run_resumed_from_checkpoint_matches_uninterrupted_run() {
    for p in [11u128, 13, 19, 23, 31] {
        let uninterrupted = lucas_lehmer(p).unwrap();

        // Halt after a few iterations, persist, and restart from the bytes.
        let mut first = LucasLehmerEngine::new(p).unwrap();
        first.run(4);
        let saved = first.checkpoint();
        let (state, iteration) = decode_checkpoint(&saved).unwrap();
        let mut second = LucasLehmerEngine::resume(p, state, iteration).unwrap();
        while !second.is_complete() {
            second.run(3);
        }
        assert_eq!(second.verdict(), uninterrupted, "exponent {}", p);
    }
}

#[test]
fn checkpoint_round_trip_recovers_snapshot() {
    for (state, iteration) in [
        (0u64, 0u128),
        (4, 1),
        (123_456_789, 100_000_000),
        (u64::MAX, u128::MAX),
    ] {
        let bytes = encode_checkpoint(state, iteration);
        assert_eq!(bytes.len(), 24);
        assert_eq!(decode_checkpoint(&bytes), Some((state, iteration)));
    }
}

#[test]
fn checkpoint_layout_is_little_endian_state_then_counter() {
    let bytes = encode_checkpoint(0x0807060504030201, 2);
    assert_eq!(bytes[..8], [1, 2, 3, 4, 5, 6, 7, 8]);
    assert_eq!(bytes[8], 2);
    assert_eq!(&bytes[9..], &[0; 15]);
}

#[test]
fn truncated_or_oversized_checkpoints_are_rejected() {
    assert_eq!(decode_checkpoint(&[]), None);
    assert_eq!(decode_checkpoint(&[0u8; 8]), None);
    assert_eq!(decode_checkpoint(&[0u8; 23]), None);
    assert_eq!(decode_checkpoint(&[0u8; 25]), None);
}

#[test]
fn resume_validates_the_snapshot_against_the_exponent() {
    // Iteration counter past p - 2 means the run is already over.
    assert_eq!(
        LucasLehmerEngine::resume(19, 0, 18).err(),
        Some(PrimeError::InvalidInput)
    );
    // A state word not reduced modulo M cannot come from this run.
    assert_eq!(
        LucasLehmerEngine::resume(5, 31, 0).err(),
        Some(PrimeError::InvalidInput)
    );
    // The recurrence engine only exists for exponents past the base case.
    assert_eq!(
        LucasLehmerEngine::resume(2, 0, 0).err(),
        Some(PrimeError::InvalidInput)
    );
    assert_eq!(
        LucasLehmerEngine::resume(70, 0, 0).err(),
        Some(PrimeError::ArithmeticOverflow)
    );
    // A snapshot that fits is accepted as-is.
    let engine = LucasLehmerEngine::resume(19, 10, 17).unwrap();
    assert_eq!(engine.state(), 10);
    assert_eq!(engine.iteration(), 17);
    assert!(engine.is_complete());
}
