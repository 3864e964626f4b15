//! The stateless probable-prime witness test: a Miller-Rabin-style strong
//! probable-prime check of an odd candidate against one witness base.

use vstd::prelude::*;
use vstd::arithmetic::div_mod::{lemma_fundamental_div_mod, lemma_small_mod};
use vstd::arithmetic::mul::lemma_mul_inequality;
use vstd::arithmetic::power::{lemma_pow_adds, pow};
use vstd::arithmetic::power2::{lemma2_to64, lemma_pow2_adds, lemma_pow2_strictly_increases, pow2};
use vstd::arithmetic::div_mod::lemma_mul_mod_noop_general;

use crate::arith::{mod_mul, mod_pow};

verus! {

/// The odd part of x: x with every factor of two divided out.
pub open spec fn odd_part(x: nat) -> nat
    decreases x,
{
    if x > 0 && x % 2 == 0 {
        odd_part(x / 2)
    } else {
        x
    }
}

/// How many factors of two x carries.
pub open spec fn two_valuation(x: nat) -> nat
    decreases x,
{
    if x > 0 && x % 2 == 0 {
        1 + two_valuation(x / 2)
    } else {
        0
    }
}

/// The witness chain value after j squarings: base^(d * 2^j) mod n.
pub open spec fn mr_round(n: nat, base: nat, d: nat, j: nat) -> int {
    pow(base as int, d * pow2(j)) % (n as int)
}

/// n is a strong probable prime to the given base: writing n - 1 = d * 2^s
/// with d odd, either base^d = 1 mod n, or base^(d * 2^j) = n - 1 mod n for
/// some j < s.  "True" certifies nothing: strong pseudoprimes exist per base.
pub open spec fn spec_strong_probable_prime(n: nat, base: nat) -> bool
    recommends
        n >= 3,
        n % 2 == 1,
{
    let d = odd_part((n - 1) as nat);
    let s = two_valuation((n - 1) as nat);
    ||| mr_round(n, base, d, 0) == 1
    ||| exists|j: nat| j < s && #[trigger] mr_round(n, base, d, j) == n - 1
}

/// A power of two no greater than u128::MAX has exponent below 128.
proof fn lemma_pow2_exponent_bound(e: nat)
    requires
        pow2(e) <= u128::MAX,
    ensures
        e < 128,
{
    if e >= 128 {
        lemma_pow2_adds(64, 64);
        lemma2_to64();
        if e > 128 {
            lemma_pow2_strictly_increases(128, e);
        }
    }
}

/// Squaring advances the witness chain by one step.
proof fn lemma_mr_square(n: nat, base: nat, d: nat, j: nat)
    requires
        n >= 2,
    ensures
        mr_round(n, base, d, j + 1) == (mr_round(n, base, d, j) * mr_round(n, base, d, j)) % (
        n as int),
{
    let b = base as int;
    let e = d * pow2(j);
    let ni = n as int;
    lemma_pow2_adds(j, 1);
    lemma2_to64();
    assert(d * pow2(j + 1) == e + e) by (nonlinear_arith)
        requires
            pow2(j + 1) == pow2(j) * 2,
            e == d * pow2(j),
    ;
    lemma_pow_adds(b, e, e);
    lemma_mul_mod_noop_general(pow(b, e), pow(b, e), ni);
}

/// Once the witness chain reaches 1 it stays at 1 for every later step.
proof fn lemma_mr_one_stays(n: nat, base: nat, d: nat, j0: nat, j: nat)
    requires
        n >= 2,
        mr_round(n, base, d, j0) == 1,
        j0 <= j,
    ensures
        mr_round(n, base, d, j) == 1,
    decreases j - j0,
{
    if j > j0 {
        lemma_mr_one_stays(n, base, d, j0, (j - 1) as nat);
        lemma_mr_square(n, base, d, (j - 1) as nat);
        lemma_small_mod(1, n);
    }
}

/// The strong probable-prime verdict is a function of its arguments alone:
/// any two evaluations on identical arguments agree.
pub proof fn lemma_is_prp_idempotent(n: u128, base: u128, first: bool, second: bool)
    requires
        first == spec_strong_probable_prime(n as nat, base as nat),
        second == spec_strong_probable_prime(n as nat, base as nat),
    ensures
        first == second,
{
}

/// The strong probable-prime test of an odd candidate n >= 3 against one
/// witness base.  Callers special-case n < 3 and even n, and reject witness
/// bases below 2, before invoking this.
pub fn is_prp(n: u128, base: u128) -> (r: bool)
    requires
        n >= 3,
        n % 2 == 1,
        base >= 2,
    ensures
        r == spec_strong_probable_prime(n as nat, base as nat),
{
    let nm1 = n - 1;
    let ghost nn = n as nat;
    let ghost bb = base as nat;
    let mut d = nm1;
    let mut s: u32 = 0;
    proof {
        lemma2_to64();
    }
    while d % 2 == 0
        invariant
            1 <= d <= nm1,
            nm1 == n - 1,
            n >= 3,
            odd_part(nm1 as nat) == odd_part(d as nat),
            two_valuation(nm1 as nat) == s + two_valuation(d as nat),
            d as nat * pow2(s as nat) == nm1 as nat,
            pow2(s as nat) <= nm1 as nat,
            s <= 127,
        decreases d,
    {
        let ghost d0 = d as nat;
        let ghost s0 = s as nat;
        proof {
            lemma2_to64();
            lemma_fundamental_div_mod(d0 as int, 2);
            lemma_pow2_adds(s0, 1);
            assert((d0 / 2) * pow2(s0 + 1) == d0 * pow2(s0)) by (nonlinear_arith)
                requires
                    d0 == 2 * (d0 / 2),
                    pow2(s0 + 1) == pow2(s0) * 2,
            ;
            lemma_mul_inequality(1, (d0 / 2) as int, pow2(s0 + 1) as int);
            lemma_pow2_exponent_bound(s0 + 1);
        }
        d = d / 2;
        s = s + 1;
    }
    let ghost dd = d as nat;
    let ghost ss = two_valuation(nm1 as nat);
    proof {
        lemma2_to64();
        assert(odd_part(dd) == dd);
        assert(two_valuation(dd) == 0);
        assert(dd == odd_part((nn - 1) as nat));
        assert(s as nat == ss);
        // n - 1 is even, so at least one factor of two was divided out.
        assert(ss >= 1);
    }
    let mut x = mod_pow(base, d, n);
    proof {
        assert(dd * pow2(0) == dd);
        assert(x == mr_round(nn, bb, dd, 0));
    }
    if x == 1 {
        return true;
    }
    if x == n - 1 {
        proof {
            assert(0 < ss && mr_round(nn, bb, dd, 0) == nn - 1);
        }
        return true;
    }
    let mut k: u32 = 0;
    while k < s - 1
        invariant
            n >= 3,
            x < n,
            nn == n as nat,
            bb == base as nat,
            dd == odd_part((nn - 1) as nat),
            ss == two_valuation((nn - 1) as nat),
            s as nat == ss,
            1 <= ss,
            k < s,
            x == mr_round(nn, bb, dd, k as nat),
            mr_round(nn, bb, dd, 0) != 1,
            forall|j: nat| j <= k as nat ==> #[trigger] mr_round(nn, bb, dd, j) != nn - 1,
        decreases s - 1 - k,
    {
        let ghost k0 = k as nat;
        x = mod_mul(x, x, n);
        k = k + 1;
        proof {
            lemma_mr_square(nn, bb, dd, k0);
        }
        if x == 1 {
            proof {
                assert forall|j: nat| j < ss implies #[trigger] mr_round(nn, bb, dd, j) != nn
                    - 1 by {
                    if j > k0 {
                        lemma_mr_one_stays(nn, bb, dd, k0 + 1, j);
                    }
                }
            }
            return false;
        }
        if x == n - 1 {
            proof {
                assert((k as nat) < ss && mr_round(nn, bb, dd, k as nat) == nn - 1);
            }
            return true;
        }
    }
    proof {
        assert(forall|j: nat| j < ss ==> #[trigger] mr_round(nn, bb, dd, j) != nn - 1);
    }
    false
}

} // verus!
