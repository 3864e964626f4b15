//! Exact modular arithmetic on native words: addition, multiplication and
//! exponentiation modulo an arbitrary non-zero `u128`, each proved against
//! the mathematical operation it implements.

use vstd::prelude::*;
use vstd::arithmetic::div_mod::{
    lemma_add_mod_noop, lemma_fundamental_div_mod, lemma_mod_bound, lemma_mod_sub_multiples_vanish,
    lemma_mul_mod_noop_general, lemma_small_mod,
};
use vstd::arithmetic::mul::lemma_mul_is_associative;
use vstd::arithmetic::power::{lemma_pow1, lemma_pow_adds, lemma_pow_mod_noop, lemma_pow_multiplies, lemma_square_is_pow2, pow};

verus! {

/// Modular sum of two already-reduced operands, computed without overflow.
pub fn mod_add(a: u128, b: u128, n: u128) -> (r: u128)
    requires
        a < n,
        b < n,
    ensures
        r == (a + b) % (n as int),
        r < n,
{
    if b != 0 && a >= n - b {
        proof {
            lemma_mod_sub_multiples_vanish((a + b) as int, n as int);
            lemma_small_mod((a + b - n) as nat, n as nat);
        }
        a - (n - b)
    } else {
        proof {
            lemma_small_mod((a + b) as nat, n as nat);
        }
        a + b
    }
}

/// Modular product by shift-and-add, so that no intermediate exceeds the
/// word width whatever the modulus is.
pub fn mod_mul(a: u128, b: u128, n: u128) -> (r: u128)
    requires
        n >= 1,
    ensures
        r == (a as int * b as int) % (n as int),
        r < n,
{
    let mut x: u128 = a % n;
    let mut y: u128 = b % n;
    let mut acc: u128 = 0;
    proof {
        lemma_mul_mod_noop_general(a as int, b as int, n as int);
        lemma_mod_bound(a as int, n as int);
        lemma_mod_bound(b as int, n as int);
    }
    while x > 0
        invariant
            n >= 1,
            y < n,
            acc < n,
            (acc + x as int * y as int) % (n as int) == (a as int * b as int) % (n as int),
        decreases x,
    {
        let ghost acc0 = acc as int;
        let ghost x0 = x as int;
        let ghost y0 = y as int;
        if x % 2 == 1 {
            acc = mod_add(acc, y, n);
        }
        y = mod_add(y, y, n);
        x = x / 2;
        proof {
            let ni = n as int;
            let k = x as int;
            let bit = x0 % 2;
            let acc1 = acc as int;
            let y1 = y as int;
            lemma_fundamental_div_mod(x0, 2);
            assert(x0 == 2 * k + bit);
            assert(y1 == (2 * y0) % ni);
            // acc and y were folded modulo n; pull both reductions back out.
            assert(acc1 == (acc0 + bit * y0) % ni) by {
                if bit == 1 {
                    assert(bit * y0 == y0) by (nonlinear_arith)
                        requires
                            bit == 1,
                    ;
                } else {
                    assert(bit * y0 == 0) by (nonlinear_arith)
                        requires
                            bit == 0,
                    ;
                    lemma_small_mod(acc0 as nat, ni as nat);
                }
            }
            assert((acc1 + k * y1) % ni == (acc0 + bit * y0 + k * (2 * y0)) % ni) by {
                lemma_mul_mod_noop_general(k, 2 * y0, ni);
                assert((k * y1) % ni == (k * (2 * y0)) % ni);
                lemma_small_mod(acc1 as nat, ni as nat);
                lemma_add_mod_noop(acc1, k * y1, ni);
                lemma_add_mod_noop(acc0 + bit * y0, k * (2 * y0), ni);
            }
            assert(acc0 + bit * y0 + k * (2 * y0) == acc0 + x0 * y0) by (nonlinear_arith)
                requires
                    x0 == 2 * k + bit,
            ;
        }
    }
    proof {
        lemma_small_mod(acc as nat, n as nat);
    }
    acc
}

/// Modular exponentiation by square-and-multiply: `base^exp mod n`.
pub fn mod_pow(base: u128, exp: u128, n: u128) -> (r: u128)
    requires
        n >= 1,
    ensures
        r == pow(base as int, exp as nat) % (n as int),
        r < n,
{
    let mut result: u128 = 1 % n;
    let mut b: u128 = base % n;
    let mut e: u128 = exp;
    proof {
        let ni = n as int;
        lemma_pow_mod_noop(base as int, exp as nat, ni);
        lemma_mod_bound(base as int, ni);
        lemma_mod_bound(1int, ni);
        lemma_mul_mod_noop_general(1int, pow(b as int, e as nat), ni);
    }
    while e > 0
        invariant
            n >= 1,
            result < n,
            b < n,
            (result * pow(b as int, e as nat)) % (n as int) == pow(
                base as int,
                exp as nat,
            ) % (n as int),
        decreases e,
    {
        let ghost r0 = result as int;
        let ghost b0 = b as int;
        let ghost e0 = e as nat;
        if e % 2 == 1 {
            result = mod_mul(result, b, n);
        }
        b = mod_mul(b, b, n);
        e = e / 2;
        proof {
            let ni = n as int;
            let k = e as nat;
            lemma_fundamental_div_mod(e0 as int, 2);
            assert(e0 == 2 * k + e0 % 2);
            // pow(b0^2 mod n, k) collapses to pow(b0, 2k) modulo n.
            lemma_square_is_pow2(b0);
            lemma_pow_mod_noop(b0 * b0, k, ni);
            lemma_pow_multiplies(b0, 2, k);
            lemma_mul_mod_noop_general(r0 * (if e0 % 2 == 1 { b0 } else { 1int }), pow(b0, (2 * k) as nat), ni);
            if e0 % 2 == 1 {
                lemma_pow1(b0);
                lemma_pow_adds(b0, 1, (2 * k) as nat);
                lemma_mul_mod_noop_general(r0 * b0, pow(b as int, k), ni);
                lemma_mul_mod_noop_general(result as int, pow(b as int, k), ni);
                lemma_small_mod(result as nat, ni as nat);
                assert(r0 * (b0 * pow(b0, (2 * k) as nat)) == (r0 * b0) * pow(b0, (2 * k) as nat)) by {
                    lemma_mul_is_associative(r0, b0, pow(b0, (2 * k) as nat));
                }
                assert((result * pow(b as int, k)) % ni == (r0 * pow(b0, e0)) % ni) by {
                    assert(pow(b0, e0) == pow(b0, 1 + 2 * k));
                    assert(((r0 * b0) % ni * (pow(b0, (2 * k) as nat) % ni)) % ni == ((r0 * b0)
                        * pow(b0, (2 * k) as nat)) % ni);
                    assert(pow(b as int, k) % ni == pow(b0, (2 * k) as nat) % ni);
                }
            } else {
                lemma_mul_mod_noop_general(r0, pow(b as int, k), ni);
                lemma_small_mod(r0 as nat, ni as nat);
                assert((result * pow(b as int, k)) % ni == (r0 * pow(b0, e0)) % ni) by {
                    assert(pow(b as int, k) % ni == pow(b0, (2 * k) as nat) % ni);
                    assert((r0 * pow(b as int, k)) % ni == (r0 * pow(b0, (2 * k) as nat)) % ni);
                }
            }
        }
    }
    proof {
        vstd::arithmetic::power::lemma_pow0(b as int);
        lemma_small_mod(result as nat, n as nat);
    }
    result
}

} // verus!
