use prime_checker::sieve::{evaluate_batch, fermat_probable_prime, generate_primes};
use prime_checker::PrimeError;

/// Trial-division oracle for ranges the exhaustive tests cover.
fn is_prime_by_trial_division(n: u128) -> bool {
    if n < 2 {
        return false;
    }
    let mut d: u128 = 2;
    while d * d <= n {
        if n % d == 0 {
            return false;
        }
        d += 1;
    }
    true
}

/// The Fermat pseudoprimes to base 2 below 1,000: odd composites with
/// 2^(n-1) = 1 mod n, which the sieve's screen cannot reject.
const BASE_2_FERMAT_PSEUDOPRIMES: [u128; 3] = [341, 561, 645];

#[test]
fn small_range_matches_the_prime_list_exactly() {
    assert_eq!(
        generate_primes(0, 30),
        Ok(vec![2, 3, 5, 7, 11, 13, 17, 19, 23, 29])
    );
}

#[test]
fn range_bounds_are_inclusive_exclusive() {
    assert_eq!(generate_primes(11, 30), Ok(vec![11, 13, 17, 19, 23, 29]));
    assert_eq!(generate_primes(12, 29), Ok(vec![13, 17, 19, 23]));
}

#[test]
fn sieve_matches_trial_division_below_one_thousand_modulo_pseudoprimes() {
    let got = generate_primes(0, 1000).unwrap();
    let expected: Vec<u128> = (0u128..1000)
        .filter(|&n| {
            is_prime_by_trial_division(n) || BASE_2_FERMAT_PSEUDOPRIMES.contains(&n)
        })
        .collect();
    assert_eq!(got, expected);
}

#[test]
fn members_are_strictly_ascending_and_within_range() {
    let primes = generate_primes(100, 400).unwrap();
    for window in primes.windows(2) {
        assert!(window[0] < window[1]);
    }
    for &p in &primes {
        assert!((100..400).contains(&p));
    }
}

#[test]
fn empty_range_yields_empty_output() {
    assert_eq!(generate_primes(5, 5), Ok(vec![]));
    assert_eq!(generate_primes(0, 0), Ok(vec![]));
}

#[test]
fn backwards_range_is_invalid() {
    assert_eq!(generate_primes(10, 5), Err(PrimeError::InvalidInput));
}

#[test]
fn range_reaching_past_the_lane_width_overflows() {
    let limit = u64::MAX as u128;
    assert_eq!(
        generate_primes(limit - 1, limit + 2),
        Err(PrimeError::WidthOverflow)
    );
    // The widest representable candidate itself is still evaluated.
    let at_limit = generate_primes(limit, limit + 1);
    assert!(at_limit.is_ok());
}

#[test]
fn window_past_the_thirty_two_bit_line_matches_trial_division() {
    // 4294967291 = 2^32 - 5 is prime.  4294967297 = 2^32 + 1 is the fifth
    // Fermat number, composite (641 * 6700417), and like every composite
    // Fermat number it satisfies 2^(n-1) = 1 mod n, so the base-2 screen
    // cannot reject it.
    let start: u128 = 4_294_967_290;
    let end: u128 = 4_294_967_310;
    let got = generate_primes(start, end).unwrap();
    let expected: Vec<u128> = (start..end)
        .filter(|&n| is_prime_by_trial_division(n) || n == 4_294_967_297)
        .collect();
    assert_eq!(got, expected);
    assert!(got.contains(&4_294_967_291));
}

#[test]
fn batch_results_preserve_candidate_order() {
    let candidates = vec![7u128, 8, 341, 9, 2, 0, 1];
    let flags = evaluate_batch(&candidates, 2).unwrap();
    assert_eq!(flags, vec![true, false, true, false, true, false, false]);
}

#[test]
fn batch_with_a_candidate_past_the_lane_width_fails_whole() {
    let candidates = vec![7u128, 1u128 << 64, 11];
    assert_eq!(evaluate_batch(&candidates, 2), Err(PrimeError::WidthOverflow));
}

#[test]
fn batch_rejects_witness_bases_below_two() {
    let candidates = vec![7u128, 11];
    assert_eq!(evaluate_batch(&candidates, 0), Err(PrimeError::InvalidInput));
    assert_eq!(evaluate_batch(&candidates, 1), Err(PrimeError::InvalidInput));
}

#[test]
fn lane_predicate_matches_the_fermat_criterion() {
    assert!(!fermat_probable_prime(0, 2));
    assert!(!fermat_probable_prime(1, 2));
    assert!(fermat_probable_prime(2, 2));
    assert!(!fermat_probable_prime(4, 2));
    assert!(fermat_probable_prime(5, 2));
    // 91 = 7 * 13: 2^90 = 64 mod 91, so the screen rejects it.
    assert!(!fermat_probable_prime(91, 2));
    // 341 = 11 * 31 slips through at base 2 but not at base 3.
    assert!(fermat_probable_prime(341, 2));
    assert!(!fermat_probable_prime(341, 3));
}
