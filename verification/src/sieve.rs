//! The range screener: one synchronous batch evaluation of a fixed-base
//! Fermat probable-prime predicate over every candidate of a contiguous
//! range, order-preserving, with explicit width validation so that no
//! candidate is ever silently truncated to the native lane.

use vstd::prelude::*;
use vstd::arithmetic::power::pow;

use crate::arith::mod_pow;
use crate::PrimeError;

verus! {

/// The lane predicate: candidates below 2 never pass, 2 passes, larger even
/// candidates never pass, and an odd candidate passes exactly when
/// base^(n-1) = 1 mod n.  A Fermat pseudoprime to the base also passes:
/// this is a probabilistic screen, not trial division.
pub open spec fn spec_fermat_probable_prime(n: nat, base: nat) -> bool {
    if n < 2 {
        false
    } else if n == 2 {
        true
    } else if n % 2 == 0 {
        false
    } else {
        pow(base as int, (n - 1) as nat) % (n as int) == 1
    }
}

/// One lane of the batch: the Fermat probable-prime predicate on a native
/// word.
pub fn fermat_probable_prime(n: u64, base: u64) -> (r: bool)
    ensures
        r == spec_fermat_probable_prime(n as nat, base as nat),
{
    if n < 2 {
        return false;
    }
    if n == 2 {
        return true;
    }
    if n % 2 == 0 {
        return false;
    }
    let x = mod_pow(base as u128, (n - 1) as u128, n as u128);
    x == 1
}

/// Evaluate the lane predicate over a whole batch in one blocking call:
/// one result per candidate, in the candidates' order.  A witness base
/// below 2 is rejected before any computation starts.  Every candidate is
/// validated against the native lane width; a batch holding any value too
/// wide fails whole with WidthOverflow rather than truncating, and no
/// partial results are returned.
pub fn evaluate_batch(candidates: &Vec<u128>, base: u64) -> (r: Result<Vec<bool>, PrimeError>)
    ensures
        match r {
            Ok(flags) => {
                &&& base >= 2
                &&& flags.len() == candidates.len()
                &&& forall|j: int| 0 <= j < candidates.len() ==> candidates[j] <= u64::MAX
                &&& forall|j: int|
                    0 <= j < candidates.len() ==> flags[j] == spec_fermat_probable_prime(
                        candidates[j] as nat,
                        base as nat,
                    )
            },
            Err(err) => {
                &&& (err == PrimeError::InvalidInput || err == PrimeError::WidthOverflow)
                &&& (err == PrimeError::InvalidInput <==> base < 2)
                &&& (err == PrimeError::WidthOverflow <==> (base >= 2 && exists|j: int|
                    0 <= j < candidates.len() && candidates[j] > u64::MAX))
            },
        },
{
    if base < 2 {
        return Err(PrimeError::InvalidInput);
    }
    let mut flags: Vec<bool> = Vec::new();
    let mut idx: usize = 0;
    while idx < candidates.len()
        invariant
            base >= 2,
            idx <= candidates.len(),
            flags.len() == idx,
            forall|j: int| 0 <= j < idx ==> candidates[j] <= u64::MAX,
            forall|j: int|
                0 <= j < idx ==> flags[j] == spec_fermat_probable_prime(
                    candidates[j] as nat,
                    base as nat,
                ),
        decreases candidates.len() - idx,
    {
        let c = candidates[idx];
        if c > u64::MAX as u128 {
            proof {
                assert(0 <= idx < candidates.len() && candidates[idx as int] > u64::MAX);
            }
            return Err(PrimeError::WidthOverflow);
        }
        flags.push(fermat_probable_prime(c as u64, base));
        idx = idx + 1;
    }
    Ok(flags)
}

/// The candidates whose flag is set, kept in candidate order.
pub open spec fn spec_collect_flagged(candidates: Seq<u128>, flags: Seq<bool>) -> Seq<u128>
    recommends
        candidates.len() == flags.len(),
    decreases candidates.len(),
{
    if candidates.len() == 0 {
        Seq::empty()
    } else if flags.last() {
        spec_collect_flagged(candidates.drop_last(), flags.drop_last()).push(candidates.last())
    } else {
        spec_collect_flagged(candidates.drop_last(), flags.drop_last())
    }
}

/// Order-preserving collection of the candidates whose batch flag came back
/// true: the step that turns a backend's lane results into the sieve's
/// output, verified for every flag vector whatever produced it.
pub fn collect_flagged(candidates: &Vec<u128>, flags: &Vec<bool>) -> (r: Vec<u128>)
    requires
        candidates.len() == flags.len(),
    ensures
        r@ == spec_collect_flagged(candidates@, flags@),
{
    let mut out: Vec<u128> = Vec::new();
    let mut idx: usize = 0;
    while idx < candidates.len()
        invariant
            candidates.len() == flags.len(),
            idx <= candidates.len(),
            out@ == spec_collect_flagged(
                candidates@.subrange(0, idx as int),
                flags@.subrange(0, idx as int),
            ),
        decreases candidates.len() - idx,
    {
        if flags[idx] {
            out.push(candidates[idx]);
        }
        idx = idx + 1;
        proof {
            let c = candidates@.subrange(0, idx as int);
            let f = flags@.subrange(0, idx as int);
            assert(c.drop_last() =~= candidates@.subrange(0, idx - 1));
            assert(f.drop_last() =~= flags@.subrange(0, idx - 1));
        }
    }
    proof {
        assert(candidates@.subrange(0, candidates@.len() as int) =~= candidates@);
        assert(flags@.subrange(0, flags@.len() as int) =~= flags@);
    }
    out
}

/// The probable primes of [start, end) in ascending order: exactly the
/// range members that pass the lane predicate.
pub open spec fn spec_primes_in_range(start: u128, end: u128, base: nat) -> Seq<u128>
    decreases end - start,
{
    if start >= end {
        Seq::empty()
    } else {
        let last = (end - 1) as u128;
        let prefix = spec_primes_in_range(start, last, base);
        if spec_fermat_probable_prime(last as nat, base) {
            prefix.push(last)
        } else {
            prefix
        }
    }
}

/// The sieve's output is strictly ascending, lies within [start, end), and
/// holds exactly the range members that pass the predicate.
pub proof fn lemma_primes_in_range_properties(start: u128, end: u128, base: nat)
    ensures
        forall|idx: int|
            0 <= idx < spec_primes_in_range(start, end, base).len() ==> start <= #[trigger] spec_primes_in_range(start, end, base)[idx] < end,
        forall|i: int, j: int|
            0 <= i < j < spec_primes_in_range(start, end, base).len()
                ==> spec_primes_in_range(start, end, base)[i] < spec_primes_in_range(
                start,
                end,
                base,
            )[j],
        forall|c: u128|
            #[trigger] spec_primes_in_range(start, end, base).contains(c) <==> (start <= c < end
                && spec_fermat_probable_prime(c as nat, base)),
    decreases end - start,
{
    if start < end {
        let last = (end - 1) as u128;
        let prefix = spec_primes_in_range(start, last, base);
        let whole = spec_primes_in_range(start, end, base);
        lemma_primes_in_range_properties(start, last, base);
        if spec_fermat_probable_prime(last as nat, base) {
            assert(whole == prefix.push(last));
            assert forall|c: u128| #[trigger] whole.contains(c) implies (start <= c < end
                && spec_fermat_probable_prime(c as nat, base)) by {
                let i = choose|i: int| 0 <= i < whole.len() && whole[i] == c;
                if i < prefix.len() {
                    assert(prefix.contains(c));
                }
            }
            assert forall|c: u128|
                start <= c < end && spec_fermat_probable_prime(
                    c as nat,
                    base,
                ) implies #[trigger] whole.contains(c) by {
                if c < last {
                    assert(prefix.contains(c));
                    let i = choose|i: int| 0 <= i < prefix.len() && prefix[i] == c;
                    assert(whole[i] == c);
                } else {
                    assert(whole[prefix.len() as int] == last);
                }
            }
        } else {
            assert(whole == prefix);
            assert forall|c: u128|
                start <= c < end && spec_fermat_probable_prime(
                    c as nat,
                    base,
                ) implies #[trigger] whole.contains(c) by {
                assert(c != last);
                assert(prefix.contains(c));
            }
        }
    }
}

/// Collecting a contiguous range's candidates by their lane flags yields
/// exactly the sieve of that range, whenever the flags agree pointwise with
/// the lane predicate.
pub proof fn lemma_collect_matches_range_sieve(
    start: u128,
    end: u128,
    base: nat,
    candidates: Seq<u128>,
    flags: Seq<bool>,
)
    requires
        start <= end,
        candidates.len() == end - start,
        flags.len() == candidates.len(),
        forall|j: int| 0 <= j < candidates.len() ==> #[trigger] candidates[j] == start + j,
        forall|j: int|
            0 <= j < flags.len() ==> #[trigger] flags[j] == spec_fermat_probable_prime(
                candidates[j] as nat,
                base,
            ),
    ensures
        spec_collect_flagged(candidates, flags) == spec_primes_in_range(start, end, base),
    decreases end - start,
{
    if start < end {
        let c1 = candidates.drop_last();
        let f1 = flags.drop_last();
        assert forall|j: int| 0 <= j < c1.len() implies #[trigger] c1[j] == start + j by {
            assert(c1[j] == candidates[j]);
        }
        assert forall|j: int|
            0 <= j < f1.len() implies #[trigger] f1[j] == spec_fermat_probable_prime(
            c1[j] as nat,
            base,
        ) by {
            assert(f1[j] == flags[j]);
            assert(c1[j] == candidates[j]);
        }
        lemma_collect_matches_range_sieve(start, (end - 1) as u128, base, c1, f1);
        assert(candidates.last() == end - 1);
        assert(flags.last() == spec_fermat_probable_prime((end - 1) as nat, base));
    }
}

/// The probable primes of the range [start, end), screened in one batch of
/// the fixed witness base 2.  Ranges that run backwards are rejected as
/// invalid; ranges reaching past the native lane width are rejected whole
/// with WidthOverflow.  The whole range and its result buffer are held in
/// memory at once, so the caller bounds the range to the machine's word.
pub fn generate_primes(start: u128, end: u128) -> (r: Result<Vec<u128>, PrimeError>)
    requires
        end - start <= usize::MAX,
    ensures
        match r {
            Ok(v) => {
                &&& start <= end
                &&& (start < end ==> end - 1 <= u64::MAX)
                &&& v@ == spec_primes_in_range(start, end, 2)
            },
            Err(err) => {
                &&& (err == PrimeError::InvalidInput <==> end < start)
                &&& (err == PrimeError::WidthOverflow <==> (start < end && end - 1 > u64::MAX))
                &&& (end < start || (start < end && end - 1 > u64::MAX))
            },
        },
{
    if end < start {
        return Err(PrimeError::InvalidInput);
    }
    // Materialize the candidate sequence.
    let mut range: Vec<u128> = Vec::new();
    let mut cur = start;
    while cur < end
        invariant
            start <= cur <= end,
            end - start <= usize::MAX,
            range.len() == cur - start,
            forall|j: int| 0 <= j < range.len() ==> range[j] == start + j,
        decreases end - cur,
    {
        range.push(cur);
        cur = cur + 1;
    }
    // One synchronous dispatch over all lanes.
    let flags = match evaluate_batch(&range, 2) {
        Ok(f) => f,
        Err(err) => {
            proof {
                let j = choose|j: int| 0 <= j < range.len() && range[j] > u64::MAX;
                assert(start + j <= end - 1);
            }
            return Err(err);
        },
    };
    // Collect the candidates whose flag came back true, preserving order.
    let primes = collect_flagged(&range, &flags);
    proof {
        lemma_collect_matches_range_sieve(start, end, 2, range@, flags@);
    }
    Ok(primes)
}

} // verus!
