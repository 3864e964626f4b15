//! The Lucas-Lehmer engine: the strictly serial squaring recurrence
//! s <- (s*s - 2) mod M over M = 2^p - 1, its verdict, and a resumable
//! stepper for long runs that checkpoint and may be cancelled between steps.

use vstd::prelude::*;
use vstd::arithmetic::div_mod::{
    lemma_add_mod_noop, lemma_mod_add_multiples_vanish, lemma_mod_bound, lemma_small_mod,
};
use vstd::arithmetic::mul::lemma_mul_upper_bound;
use vstd::arithmetic::power2::{lemma2_to64, lemma_pow2_pos, lemma_pow2_strictly_increases, pow2};
use vstd::bits::{lemma_u64_pow2_no_overflow, lemma_u64_shl_is_mul};

use crate::checkpoint::spec_checkpoint_bytes;
use crate::checkpoint::encode_checkpoint;
use crate::PrimeError;

verus! {

/// The Mersenne number with exponent p.
pub open spec fn mersenne(p: nat) -> int {
    pow2(p) - 1
}

/// One transition of the Lucas-Lehmer recurrence modulo m.
pub open spec fn ll_step(s: int, m: int) -> int {
    (s * s - 2) % m
}

/// The value reached after k transitions starting from s.
pub open spec fn ll_from(m: int, s: int, k: nat) -> int
    decreases k,
{
    if k == 0 {
        s
    } else {
        ll_from(m, ll_step(s, m), (k - 1) as nat)
    }
}

/// The recurrence value after i transitions from the fixed seed 4.
pub open spec fn ll_value(m: int, i: nat) -> int {
    ll_from(m, 4, i)
}

/// The Lucas-Lehmer verdict for exponent p: 2^p - 1 is prime exactly when
/// the recurrence from 4 reaches 0 after p - 2 transitions (p = 2 is the
/// hard-coded base case M = 3).
pub open spec fn spec_lucas_lehmer_prime(p: nat) -> bool
    recommends
        p >= 2,
{
    p == 2 || ll_value(mersenne(p), (p - 2) as nat) == 0
}

/// Running the recurrence k1 steps and then k2 more lands exactly where one
/// uninterrupted run of k1 + k2 steps does.
pub proof fn lemma_ll_from_adds(m: int, s: int, k1: nat, k2: nat)
    ensures
        ll_from(m, ll_from(m, s, k1), k2) == ll_from(m, s, k1 + k2),
    decreases k1,
{
    if k1 > 0 {
        lemma_ll_from_adds(m, ll_step(s, m), (k1 - 1) as nat, k2);
    }
}

/// A run resumed from the state a checkpoint captured after i transitions
/// finishes at the same value as the run that was never interrupted.
pub proof fn lemma_resume_matches_uninterrupted(m: int, i: nat, total: nat)
    requires
        i <= total,
    ensures
        ll_from(m, ll_value(m, i), (total - i) as nat) == ll_value(m, total),
{
    lemma_ll_from_adds(m, 4, i, (total - i) as nat);
}

/// 2^p - 1 as a native word, for the exponents where it fits.
pub fn mersenne_u64(p: u64) -> (r: u64)
    requires
        1 <= p <= 64,
    ensures
        r == mersenne(p as nat),
{
    if p == 64 {
        proof {
            lemma2_to64();
        }
        u64::MAX
    } else {
        proof {
            lemma_u64_pow2_no_overflow(p as nat);
            lemma_u64_shl_is_mul(1u64, p);
            lemma_pow2_pos(p as nat);
        }
        (1u64 << p) - 1
    }
}

/// One exact transition of the recurrence on native words, using a
/// double-width intermediate so the square never wraps.
pub fn ll_step_u64(s: u64, m: u64) -> (r: u64)
    requires
        m >= 3,
        s < m,
    ensures
        r == ll_step(s as int, m as int),
        r < m,
{
    let mi = m as u128;
    proof {
        lemma_mul_upper_bound(s as int, u64::MAX as int, s as int, u64::MAX as int);
    }
    let sq = ((s as u128) * (s as u128)) % mi;
    proof {
        lemma_mod_bound((s as int) * (s as int), mi as int);
        lemma_small_mod((m - 2) as nat, mi as nat);
        lemma_add_mod_noop((s as int) * (s as int), (m - 2) as int, mi as int);
        lemma_mod_add_multiples_vanish((s as int) * (s as int) - 2, mi as int);
        lemma_mod_bound((s as int) * (s as int) + (m - 2), mi as int);
    }
    ((sq + (mi - 2)) % mi) as u64
}

/// Owner of one Lucas-Lehmer run: the modulus M = 2^p - 1, the current
/// recurrence value, and how many transitions produced it.
pub struct LucasLehmerEngine {
    p: u128,
    m: u64,
    s: u64,
    i: u128,
}

impl LucasLehmerEngine {
    /// The exponent of the Mersenne candidate under test.
    pub closed spec fn spec_exponent(&self) -> u128 {
        self.p
    }

    /// The current recurrence value.
    pub closed spec fn spec_state(&self) -> u64 {
        self.s
    }

    /// How many transitions have been applied so far.
    pub closed spec fn spec_iteration(&self) -> u128 {
        self.i
    }

    /// The modulus the recurrence runs over.
    pub closed spec fn spec_modulus(&self) -> u64 {
        self.m
    }

    /// Well-formedness: the modulus is the Mersenne number of an exponent
    /// that fits the word width, the value is reduced, and the counter has
    /// not run past the p - 2 transitions the test prescribes.
    pub open spec fn wf(&self) -> bool {
        &&& 3 <= self.spec_exponent() <= 64
        &&& self.spec_modulus() == mersenne(self.spec_exponent() as nat)
        &&& self.spec_iteration() <= self.spec_exponent() - 2
        &&& self.spec_state() < self.spec_modulus()
    }

    /// Start an engine from a restored snapshot (state, iteration), after
    /// validating it: a counter past p - 2 or an unreduced state word means
    /// the snapshot does not belong to a run of this exponent.
    pub fn resume(p: u128, state: u64, iteration: u128) -> (r: Result<Self, PrimeError>)
        ensures
            match r {
                Ok(e) => {
                    &&& 3 <= p <= 64
                    &&& iteration <= p - 2
                    &&& state < mersenne(p as nat)
                    &&& e.wf()
                    &&& e.spec_exponent() == p
                    &&& e.spec_state() == state
                    &&& e.spec_iteration() == iteration
                },
                Err(err) => {
                    &&& (p < 3 || p > 64 || iteration > p - 2 || state >= mersenne(p as nat))
                    &&& (err == PrimeError::ArithmeticOverflow <==> p > 64)
                    &&& (err == PrimeError::InvalidInput <==> p <= 64)
                },
            },
    {
        if p < 3 {
            return Err(PrimeError::InvalidInput);
        }
        if p > 64 {
            return Err(PrimeError::ArithmeticOverflow);
        }
        let m = mersenne_u64(p as u64);
        if iteration > p - 2 || state >= m {
            return Err(PrimeError::InvalidInput);
        }
        Ok(LucasLehmerEngine { p, m, s: state, i: iteration })
    }

    /// Start a fresh engine at the seed value 4 and iteration 0.
    pub fn new(p: u128) -> (r: Result<Self, PrimeError>)
        ensures
            match r {
                Ok(e) => {
                    &&& 3 <= p <= 64
                    &&& e.wf()
                    &&& e.spec_exponent() == p
                    &&& e.spec_state() == 4
                    &&& e.spec_iteration() == 0
                },
                Err(err) => {
                    &&& (p < 3 || p > 64)
                    &&& (err == PrimeError::ArithmeticOverflow <==> p > 64)
                    &&& (err == PrimeError::InvalidInput <==> p < 3)
                },
            },
    {
        proof {
            if 3 <= p <= 64 {
                lemma2_to64();
                if p > 3 {
                    lemma_pow2_strictly_increases(3, p as nat);
                }
                assert(mersenne(p as nat) >= 7);
            }
        }
        Self::resume(p, 4, 0)
    }

    /// Apply one transition of the recurrence.
    pub fn step(&mut self)
        requires
            old(self).wf(),
            old(self).spec_iteration() < old(self).spec_exponent() - 2,
        ensures
            final(self).wf(),
            final(self).spec_exponent() == old(self).spec_exponent(),
            final(self).spec_iteration() == old(self).spec_iteration() + 1,
            final(self).spec_state() == ll_step(
                old(self).spec_state() as int,
                final(self).spec_modulus() as int,
            ),
    {
        proof {
            lemma_pow2_strictly_increases(2, self.p as nat);
            lemma2_to64();
        }
        self.s = ll_step_u64(self.s, self.m);
        self.i = self.i + 1;
    }

    /// Apply up to `budget` transitions, stopping early when the run is
    /// complete; the caller interleaves checkpoint writes, progress
    /// reporting and cancellation checks between such bounded bursts.
    pub fn run(&mut self, budget: u128) -> (done: u128)
        requires
            old(self).wf(),
        ensures
            final(self).wf(),
            final(self).spec_exponent() == old(self).spec_exponent(),
            done <= budget,
            final(self).spec_iteration() == old(self).spec_iteration() + done,
            done == budget || final(self).spec_iteration() == final(self).spec_exponent() - 2,
            final(self).spec_state() == ll_from(
                final(self).spec_modulus() as int,
                old(self).spec_state() as int,
                done as nat,
            ),
    {
        let p = self.p;
        let m = self.m;
        let mut s = self.s;
        let mut i = self.i;
        let ghost s0 = s as int;
        let ghost mi = m as int;
        let mut done: u128 = 0;
        proof {
            lemma_pow2_strictly_increases(2, p as nat);
            lemma2_to64();
        }
        while done < budget && i < p - 2
            invariant
                3 <= p <= 64,
                m == mersenne(p as nat),
                m >= 3,
                mi == m as int,
                s0 == old(self).spec_state() as int,
                i <= p - 2,
                s < m,
                done <= budget,
                i == old(self).spec_iteration() + done,
                s as int == ll_from(mi, s0, done as nat),
            decreases budget - done,
        {
            let ghost prev = s as int;
            s = ll_step_u64(s, m);
            proof {
                lemma_ll_from_adds(mi, s0, done as nat, 1);
                assert(ll_from(mi, prev, 1) == ll_from(mi, ll_step(prev, mi), 0));
                assert(ll_from(mi, ll_step(prev, mi), 0) == ll_step(prev, mi));
            }
            i = i + 1;
            done = done + 1;
        }
        self.s = s;
        self.i = i;
        done
    }

    /// Whether all p - 2 transitions have been applied.
    pub fn is_complete(&self) -> (r: bool)
        requires
            self.wf(),
        ensures
            r == (self.spec_iteration() == self.spec_exponent() - 2),
    {
        self.i == self.p - 2
    }

    /// The verdict of a completed run: M is prime exactly when the final
    /// recurrence value is 0.
    pub fn verdict(&self) -> (r: bool)
        requires
            self.wf(),
            self.spec_iteration() == self.spec_exponent() - 2,
        ensures
            r == (self.spec_state() == 0),
            self.spec_state() == ll_value(self.spec_modulus() as int, self.spec_iteration() as nat)
                ==> r == spec_lucas_lehmer_prime(self.spec_exponent() as nat),
    {
        self.s == 0
    }

    /// The modulus M = 2^p - 1 as a native word.
    pub fn modulus(&self) -> (r: u64)
        ensures
            r == self.spec_modulus(),
    {
        self.m
    }

    /// The current recurrence value.
    pub fn state(&self) -> (r: u64)
        ensures
            r == self.spec_state(),
    {
        self.s
    }

    /// How many transitions have been applied.
    pub fn iteration(&self) -> (r: u128)
        ensures
            r == self.spec_iteration(),
    {
        self.i
    }

    /// The exponent under test.
    pub fn exponent(&self) -> (r: u128)
        ensures
            r == self.spec_exponent(),
    {
        self.p
    }

    /// The durable snapshot of this run in the checkpoint byte layout.
    pub fn checkpoint(&self) -> (r: Vec<u8>)
        ensures
            r@ == spec_checkpoint_bytes(self.spec_state(), self.spec_iteration()),
    {
        encode_checkpoint(self.s, self.i)
    }
}

/// The complete Lucas-Lehmer test for 2^p - 1, run start to finish in one
/// call: rejects p < 2, short-circuits the base case p = 2 without
/// constructing M, and refuses exponents whose M exceeds the word width.
pub fn lucas_lehmer(p: u128) -> (r: Result<bool, PrimeError>)
    ensures
        match r {
            Ok(v) => 2 <= p <= 64 && v == spec_lucas_lehmer_prime(p as nat),
            Err(err) => {
                &&& (p < 2 || p > 64)
                &&& (err == PrimeError::InvalidInput <==> p < 2)
                &&& (err == PrimeError::ArithmeticOverflow <==> p > 64)
            },
        },
{
    if p < 2 {
        return Err(PrimeError::InvalidInput);
    }
    if p == 2 {
        return Ok(true);
    }
    let mut engine = match LucasLehmerEngine::new(p) {
        Ok(e) => e,
        Err(err) => {
            return Err(err);
        },
    };
    let total = p - 2;
    let _steps = engine.run(total);
    proof {
        lemma_resume_matches_uninterrupted(engine.spec_modulus() as int, 0, total as nat);
    }
    Ok(engine.verdict())
}

} // verus!
