//! Arithmetic in the prime field of order `PRIME = 2^32 - 5`, including the
//! Montgomery-domain encoding used by the permutation: `montify` carries a
//! canonical field element into Montgomery form (multiplication by `2^32`
//! modulo the prime, computed by genuine Montgomery multiplication), and
//! `mont_reduction` carries it back (multiplication by the inverse of `2^32`).

use vstd::prelude::*;
use vstd::arithmetic::div_mod::{
    lemma_add_mod_noop, lemma_fundamental_div_mod, lemma_fundamental_div_mod_converse_mod,
    lemma_mod_bound, lemma_mod_multiples_basic, lemma_mod_multiples_vanish,
    lemma_mul_mod_noop_left, lemma_mul_mod_noop_right, lemma_small_mod,
    lemma_multiply_divide_lt,
};
use vstd::arithmetic::mul::{lemma_mul_inequality, lemma_mul_is_associative};

verus! {

/// The field's modulus, `2^32 - 5`.
pub const PRIME: u64 = 4294967291;

/// The Montgomery radix `R = 2^32`.
pub const MONT_RADIX: u64 = 4294967296;

/// `R^-1 mod PRIME`: multiplying by it undoes one factor of the radix.
pub const MONT_RADIX_INV: u64 = 3435973833;

/// `R^2 mod PRIME`, the constant whose Montgomery product with `x` is `x * R`.
pub const MONT_RADIX_SQUARED: u64 = 25;

/// `-PRIME^-1 mod R`, the multiplier of the reduction step.
pub const PRIME_NEG_INV: u64 = 3435973837;

/// Addition in the field.
pub open spec fn add_mod(a: int, b: int) -> int {
    (a + b) % (PRIME as int)
}

/// Multiplication in the field.
pub open spec fn mul_mod(a: int, b: int) -> int {
    (a * b) % (PRIME as int)
}

/// `b^e` in the field.
pub open spec fn pow_mod(b: int, e: nat) -> int
    decreases e,
{
    if e == 0 {
        1
    } else {
        mul_mod(b, pow_mod(b, (e - 1) as nat))
    }
}

/// The Montgomery form of `x`: `x * R mod PRIME`.
pub open spec fn montify_spec(x: int) -> int {
    (x * (MONT_RADIX as int)) % (PRIME as int)
}

/// The canonical element whose Montgomery form is `x`: `x * R^-1 mod PRIME`.
pub open spec fn mont_reduction_spec(x: int) -> int {
    (x * (MONT_RADIX_INV as int)) % (PRIME as int)
}

/// Reduces an arbitrary machine word to its canonical field representative.
pub fn reduce(x: u64) -> (r: u64)
    ensures
        r == x % PRIME,
        r < PRIME,
{
    x % PRIME
}

/// Field addition of two canonical representatives.
pub fn badd(a: u64, b: u64) -> (r: u64)
    requires
        a < PRIME,
        b < PRIME,
    ensures
        r == add_mod(a as int, b as int),
        r < PRIME,
{
    let s: u64 = a + b;
    if s >= PRIME {
        proof {
            lemma_fundamental_div_mod_converse_mod(s as int, PRIME as int, 1, s - PRIME);
        }
        s - PRIME
    } else {
        proof {
            lemma_small_mod(s as nat, PRIME as nat);
        }
        s
    }
}

/// Field multiplication of two canonical representatives.
pub fn bmul(a: u64, b: u64) -> (r: u64)
    requires
        a < PRIME,
        b < PRIME,
    ensures
        r == mul_mod(a as int, b as int),
        r < PRIME,
{
    proof {
        lemma_mul_inequality(a as int, (PRIME - 1) as int, b as int);
        lemma_mul_inequality(b as int, (PRIME - 1) as int, (PRIME - 1) as int);
        assert((PRIME - 1) * (PRIME - 1) < u64::MAX) by (nonlinear_arith);
        lemma_mod_bound((a * b) as int, PRIME as int);
    }
    (a * b) % PRIME
}

/// One Montgomery reduction step: for `t` below `PRIME * MONT_RADIX`, returns
/// `t * R^-1 mod PRIME` without ever dividing by the prime. The multiplier
/// `m` is chosen so that `t + m * PRIME` is an exact multiple of the radix,
/// which a word shift (here an exact division) then removes.
fn mont_redc(t: u64) -> (r: u64)
    requires
        t <= (PRIME - 1) * (PRIME - 1),
    ensures
        r == mont_reduction_spec(t as int),
        r < PRIME,
{
    proof {
        assert((MONT_RADIX - 1) * (PRIME_NEG_INV as int) < u64::MAX) by (nonlinear_arith);
        lemma_mod_bound(t as int, MONT_RADIX as int);
        lemma_mul_inequality((t as int) % (MONT_RADIX as int), (MONT_RADIX - 1) as int,
            PRIME_NEG_INV as int);
        lemma_mod_bound(((t % MONT_RADIX) * PRIME_NEG_INV) as int, MONT_RADIX as int);
    }
    let m: u64 = ((t % MONT_RADIX) * PRIME_NEG_INV) % MONT_RADIX;
    proof {
        lemma_mul_inequality(m as int, (MONT_RADIX - 1) as int, PRIME as int);
        assert((MONT_RADIX - 1) * (PRIME as int) < u64::MAX) by (nonlinear_arith);
    }
    let s: u128 = (t as u128) + (m as u128) * (PRIME as u128);
    proof {
        let p = PRIME as int;
        let rr = MONT_RADIX as int;
        let ti = t as int;
        let mi = m as int;
        let np = PRIME_NEG_INV as int;
        assert((PRIME_NEG_INV as int) * (PRIME as int) % (MONT_RADIX as int)
            == MONT_RADIX - 1) by (nonlinear_arith);
        assert((np * p) % rr == rr - 1);
        // The multiplier makes t + m * PRIME divisible by the radix.
        assert((mi * p) % rr == (ti * (rr - 1)) % rr) by {
            lemma_mul_mod_noop_left((ti % rr) * np, p, rr);
            lemma_mul_is_associative(ti % rr, np, p);
            lemma_mul_mod_noop_right(ti % rr, np * p, rr);
            lemma_mul_mod_noop_left(ti, rr - 1, rr);
            assert(((ti % rr) * (np * p)) % rr == ((ti % rr) * ((np * p) % rr)) % rr);
        }
        assert((ti + mi * p) % rr == 0) by {
            lemma_add_mod_noop(ti, mi * p, rr);
            lemma_add_mod_noop(ti, ti * (rr - 1), rr);
            assert(ti + ti * (rr - 1) == ti * rr) by {
                vstd::arithmetic::mul::lemma_mul_is_distributive_sub(ti, rr, 1);
            }
            lemma_mod_multiples_basic(ti, rr);
        }
        lemma_fundamental_div_mod(s as int, rr);
        // s stays below the radix times twice the prime, so the quotient is small.
        lemma_mul_inequality(ti, (PRIME - 1) * (PRIME - 1), 1);
        assert((PRIME - 1) * (PRIME - 1) + (MONT_RADIX - 1) * (PRIME as int)
            < (MONT_RADIX as int) * (2 * (PRIME as int))) by (nonlinear_arith);
        lemma_multiply_divide_lt(s as int, rr, 2 * p);
    }
    let q: u64 = (s / (MONT_RADIX as u128)) as u64;
    proof {
        let p = PRIME as int;
        let rr = MONT_RADIX as int;
        let ti = t as int;
        let mi = m as int;
        let qi = q as int;
        let rinv = MONT_RADIX_INV as int;
        assert(qi * rr == ti + mi * p);
        assert((qi * rr) % p == ti % p) by {
            assert(qi * rr == p * mi + ti);
            lemma_mod_multiples_vanish(mi, ti, p);
        }
        assert((MONT_RADIX as int) * (MONT_RADIX_INV as int) % (PRIME as int) == 1)
            by (nonlinear_arith);
        assert((rr * rinv) % p == 1);
        // q itself is congruent to t * R^-1 modulo the prime.
        assert(qi % p == (ti * rinv) % p) by {
            lemma_mul_mod_noop_right(qi, rr * rinv, p);
            lemma_mul_is_associative(qi, rr, rinv);
            lemma_mul_mod_noop_left(qi * rr, rinv, p);
            lemma_mul_mod_noop_left(ti, rinv, p);
            assert(qi % p == (qi * ((rr * rinv) % p)) % p) by {
                lemma_small_mod((qi % p) as nat, p as nat);
                lemma_mod_bound(qi, p);
                lemma_mul_mod_noop_left(qi, 1, p);
            }
        }
    }
    if q >= PRIME {
        proof {
            lemma_fundamental_div_mod_converse_mod(q as int, PRIME as int, 1, q - PRIME);
        }
        q - PRIME
    } else {
        proof {
            lemma_small_mod(q as nat, PRIME as nat);
        }
        q
    }
}

/// Montgomery multiplication: the product of two canonical representatives
/// with one factor of the radix removed.
pub fn mont_mul(a: u64, b: u64) -> (r: u64)
    requires
        a < PRIME,
        b < PRIME,
    ensures
        r == mont_reduction_spec((a * b) as int),
        r < PRIME,
{
    proof {
        lemma_mul_inequality(a as int, (PRIME - 1) as int, b as int);
        lemma_mul_inequality(b as int, (PRIME - 1) as int, (PRIME - 1) as int);
        assert((PRIME - 1) * (PRIME - 1) < u64::MAX) by (nonlinear_arith);
    }
    mont_redc(a * b)
}

/// Carries `x` into Montgomery form by a Montgomery multiplication with
/// `R^2 mod PRIME`, never by a bare reduction of `x` itself.
pub fn montify(x: u64) -> (r: u64)
    requires
        x < PRIME,
    ensures
        r == montify_spec(x as int),
        r < PRIME,
{
    let r = mont_mul(x, MONT_RADIX_SQUARED);
    proof {
        let p = PRIME as int;
        let xi = x as int;
        let rinv = MONT_RADIX_INV as int;
        let r2 = MONT_RADIX_SQUARED as int;
        assert((MONT_RADIX_SQUARED as int) * (MONT_RADIX_INV as int) % (PRIME as int) == 5)
            by (nonlinear_arith);
        assert((r2 * rinv) % p == 5);
        assert((MONT_RADIX as int) % p == 5);
        assert(((xi * r2) * rinv) % p == (xi * 5) % p) by {
            lemma_mul_is_associative(xi, r2, rinv);
            lemma_mul_mod_noop_right(xi, r2 * rinv, p);
        }
        assert((xi * (MONT_RADIX as int)) % p == (xi * 5) % p) by {
            lemma_mul_mod_noop_right(xi, MONT_RADIX as int, p);
        }
    }
    r
}

/// Carries a Montgomery-form element back to its canonical representative.
pub fn mont_reduction(x: u64) -> (r: u64)
    requires
        x < PRIME,
    ensures
        r == mont_reduction_spec(x as int),
        r < PRIME,
{
    proof {
        lemma_mul_inequality(1, (PRIME - 1) as int, (PRIME - 1) as int);
    }
    mont_redc(x)
}

/// The Montgomery encoding is bijective on the field: carrying any canonical
/// element into Montgomery form and back returns it unchanged.
pub proof fn lemma_montgomery_round_trip(x: u64)
    requires
        x < PRIME,
    ensures
        mont_reduction_spec(montify_spec(x as int)) == x,
{
    let p = PRIME as int;
    let xi = x as int;
    let rr = MONT_RADIX as int;
    let rinv = MONT_RADIX_INV as int;
    assert((MONT_RADIX as int) * (MONT_RADIX_INV as int) % (PRIME as int) == 1)
        by (nonlinear_arith);
    assert((rr * rinv) % p == 1);
    assert((((xi * rr) % p) * rinv) % p == ((xi * rr) * rinv) % p) by {
        lemma_mul_mod_noop_left(xi * rr, rinv, p);
    }
    assert(((xi * rr) * rinv) % p == (xi * ((rr * rinv) % p)) % p) by {
        lemma_mul_is_associative(xi, rr, rinv);
        lemma_mul_mod_noop_right(xi, rr * rinv, p);
    }
    assert((xi * 1) % p == xi % p);
    lemma_small_mod(x as nat, PRIME as nat);
}

/// Field exponentiation by repeated multiplication.
pub fn bpow(base: u64, exp: u64) -> (r: u64)
    requires
        base < PRIME,
    ensures
        r == pow_mod(base as int, exp as nat),
        r < PRIME,
{
    let mut acc: u64 = 1;
    let mut i: u64 = 0;
    while i < exp
        invariant
            i <= exp,
            base < PRIME,
            acc < PRIME,
            acc == pow_mod(base as int, i as nat),
        decreases exp - i,
    {
        acc = bmul(acc, base);
        i = i + 1;
    }
    acc
}

} // verus!
