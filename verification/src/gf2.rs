//! Polynomials over GF(2), held as the bits of a `u64`: bit `i` is the
//! coefficient of `x^i`. The arithmetic itself is done by the `g2poly` crate;
//! this module states what the rest of the library relies on.

use g2poly::G2Poly;
use vstd::prelude::*;

verus! {

/// Number of significant bits of `x`: zero for the zero polynomial, otherwise
/// the degree plus one.
pub open spec fn bit_len(x: u64) -> nat
    decreases x,
{
    if x == 0 {
        0
    } else {
        1 + bit_len(x / 2)
    }
}

/// The remainder `a mod m` of polynomial division over GF(2), as `g2poly`
/// computes it.
pub uninterp spec fn poly_rem(a: u64, m: u64) -> u64;

/// The power `base^power mod modulus` over GF(2), as `g2poly` computes it.
pub uninterp spec fn poly_pow_mod(base: u64, power: u64, modulus: u64) -> u64;

/// Sum of two polynomials. Calls `G2Poly::add`, which is the bitwise
/// exclusive or of the two coefficient words.
#[verifier::external_body]
pub(crate) fn g2_add(a: u64, b: u64) -> (r: u64)
    ensures
        r == a ^ b,
{
    (G2Poly(a) + G2Poly(b)).0
}

/// Remainder of `a` modulo `m`. Calls `G2Poly::rem`, which panics on a zero
/// modulus. Trusted: the result is the named remainder, its degree is below
/// that of `m`, and a dividend whose degree is already below that of `m` comes
/// back unchanged.
#[verifier::external_body]
pub(crate) fn g2_rem(a: u64, m: u64) -> (r: u64)
    requires
        m != 0,
    ensures
        r == poly_rem(a, m),
        bit_len(r) < bit_len(m),
        bit_len(a) < bit_len(m) ==> r == a,
{
    (G2Poly(a) % G2Poly(m)).0
}

/// `base^power mod modulus`. Calls `G2Poly::pow_mod`, which reduces by the
/// modulus in every round and so panics on a zero modulus. Trusted: the result
/// is the named power, and its degree is below that of the modulus.
#[verifier::external_body]
pub(crate) fn g2_pow_mod(base: u64, power: u64, modulus: u64) -> (r: u64)
    requires
        modulus != 0,
    ensures
        r == poly_pow_mod(base, power, modulus),
        bit_len(r) < bit_len(modulus),
{
    G2Poly(base).pow_mod(power, G2Poly(modulus)).0
}

} // verus!
