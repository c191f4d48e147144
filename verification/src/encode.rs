//! Zigzag encoding of field elements: the signed value a residue stands
//! for is mapped to an unsigned 256-bit integer, small magnitudes first,
//! with the sign in the lowest bit.
use vstd::prelude::*;
use crate::scalar::{Scalar, field_order, max_signed_val, fmod};

verus! {

/// An unsigned 256-bit integer in two 128-bit halves.
#[derive(PartialEq, Eq, Structural, Clone, Copy, Debug)]
pub struct U256 {
    pub low: u128,
    pub high: u128,
}

/// The number a U256 stands for.
pub open spec fn u256_val(u: U256) -> nat {
    u.low as nat + u.high as nat * 0x100000000000000000000000000000000nat
}

/// The zigzag encoding of a residue: twice the magnitude of its signed
/// value, with one added for negative values.
pub open spec fn zigzag_spec(v: nat) -> nat {
    if v <= max_signed_val() {
        2 * v
    } else {
        2 * ((field_order() - v) as nat) + 1
    }
}

/// A type that zigzag-encodes into another.
pub trait ZigZag<T> {
    /// What the encoding asks of the value.
    spec fn zigzag_req(&self) -> bool;

    /// What the encoding returns.
    spec fn zigzag_ensures(&self, r: T) -> bool;

    /// Encodes this value into the target type.
    fn zigzag(&self) -> (r: T)
        requires
            self.zigzag_req(),
        ensures
            self.zigzag_ensures(r),
    ;
}

impl ZigZag<U256> for Scalar {
    open spec fn zigzag_req(&self) -> bool {
        self.wf()
    }

    open spec fn zigzag_ensures(&self, r: U256) -> bool {
        u256_val(r) == zigzag_spec(self@)
    }

    fn zigzag(&self) -> (r: U256) {
        scalar_zigzag(self)
    }
}

impl ZigZag<Scalar> for U256 {
    open spec fn zigzag_req(&self) -> bool {
        true
    }

    open spec fn zigzag_ensures(&self, r: Scalar) -> bool {
        &&& r.wf()
        &&& r@ == (if self.low % 2 == 0 {
            ((u256_val(*self) / 2) % field_order()) as int
        } else {
            fmod(field_order() - ((u256_val(*self) / 2) % field_order()))
        })
    }

    fn zigzag(&self) -> (r: Scalar) {
        u256_zigzag(self)
    }
}

/// Encodes a field element: the smaller of the residue and its negation
/// is doubled, with one added when the negation was smaller.
pub fn scalar_zigzag(s: &Scalar) -> (r: U256)
    requires
        s.wf(),
    ensures
        u256_val(r) == zigzag_spec(s@),
{
    let (xl, xh) = s.to_u128_pair();
    let neg = s.neg();
    let (yl, yh) = neg.to_u128_pair();
    proof {
        if s@ != 0 {
            vstd::arithmetic::div_mod::lemma_small_mod(
                (field_order() - s@) as nat,
                field_order(),
            );
        } else {
            vstd::arithmetic::div_mod::lemma_mod_self_0(field_order() as int);
        }
        assert(2 * max_signed_val() + 1 == field_order());
        lemma_u128_pair_order(xl, xh, yl, yh, s@, neg@);
    }
    if xh > yh || (xh == yh && xl > yl) {
        // the negation is smaller: encode it with the sign bit set
        let low_masked = yl % 0x80000000000000000000000000000000u128;
        let carry = yl / 0x80000000000000000000000000000000u128;
        let new_low = low_masked * 2 + 1;
        let new_high = yh * 2 + carry;
        proof {
            lemma_double_parts(yl, yh, neg@);
        }
        U256 { low: new_low, high: new_high }
    } else {
        let low_masked = xl % 0x80000000000000000000000000000000u128;
        let carry = xl / 0x80000000000000000000000000000000u128;
        let new_low = low_masked * 2;
        let new_high = xh * 2 + carry;
        proof {
            lemma_double_parts(xl, xh, s@);
        }
        U256 { low: new_low, high: new_high }
    }
}

/// Decodes a zigzag integer back to a field element: the halved value,
/// negated when the lowest bit is set.
pub fn u256_zigzag(u: &U256) -> (r: Scalar)
    ensures
        r@ == (if u.low % 2 == 0 {
            ((u256_val(*u) / 2) % field_order()) as int
        } else {
            fmod(field_order() - ((u256_val(*u) / 2) % field_order()))
        }),
        r.wf(),
{
    let zig_low = u.low / 2 + (u.high % 2) * 0x80000000000000000000000000000000u128;
    let zig_high = u.high / 2;
    proof {
        lemma_halve_parts(u.low, u.high);
    }
    let scal = Scalar::from_u128_pair(zig_low, zig_high);
    if u.low % 2 == 1 {
        proof {
            assert(u.low % 2 == 1 ==> !(u.low % 2 == 0));
        }
        scal.neg()
    } else {
        scal
    }
}

/// Decoding inverts encoding: for every canonical residue, halving its
/// zigzag encoding and restoring the sign returns the residue.
pub proof fn lemma_zigzag_round_trip(v: nat)
    requires
        v < field_order(),
    ensures
        ({
            let e = zigzag_spec(v);
            let h = (e / 2) % field_order();
            &&& (e % 2 == 0 ==> h == v)
            &&& (e % 2 == 1 ==> fmod(field_order() - h) == v)
        }),
{
    assert(2 * max_signed_val() + 1 == field_order());
    let e = zigzag_spec(v);
    if v <= max_signed_val() {
        assert(e == 2 * v);
        assert(e % 2 == 0 && e / 2 == v);
        vstd::arithmetic::div_mod::lemma_small_mod(v, field_order());
    } else {
        let m = (field_order() - v) as nat;
        assert(e == 2 * m + 1);
        assert(e % 2 == 1 && e / 2 == m);
        vstd::arithmetic::div_mod::lemma_small_mod(m, field_order());
        vstd::arithmetic::div_mod::lemma_small_mod(v, field_order());
        assert((field_order() - m) as nat == v);
    }
}

proof fn lemma_u128_pair_order(xl: u128, xh: u128, yl: u128, yh: u128, xv: nat, yv: nat)
    requires
        xv == xl + xh * 0x100000000000000000000000000000000nat,
        yv == yl + yh * 0x100000000000000000000000000000000nat,
    ensures
        (xh > yh || (xh == yh && xl > yl)) <==> xv > yv,
{
    let b = 0x100000000000000000000000000000000nat;
    if xh > yh {
        assert(xv > yv) by (nonlinear_arith)
            requires
                xv == xl + xh * b,
                yv == yl + yh * b,
                xh > yh,
                yl < b,
                b == 0x100000000000000000000000000000000nat,
        ;
    } else if xh < yh {
        assert(yv > xv) by (nonlinear_arith)
            requires
                xv == xl + xh * b,
                yv == yl + yh * b,
                yh > xh,
                xl < b,
                b == 0x100000000000000000000000000000000nat,
        ;
    } else {
        assert(xv > yv <==> xl > yl) by (nonlinear_arith)
            requires
                xv == xl + xh * b,
                yv == yl + yh * b,
                xh == yh,
        ;
    }
}

proof fn lemma_double_parts(l: u128, h: u128, v: nat)
    requires
        v == l + h * 0x100000000000000000000000000000000nat,
        v < field_order(),
    ensures
        h < 0x20000000000000000000000000000000nat,
        (l % 0x80000000000000000000000000000000u128) * 2 + (h * 2 + l
            / 0x80000000000000000000000000000000u128)
            * 0x100000000000000000000000000000000nat == 2 * v,
        (l % 0x80000000000000000000000000000000u128) * 2 + 1 < 0x100000000000000000000000000000000nat,
        h * 2 + l / 0x80000000000000000000000000000000u128 < 0x100000000000000000000000000000000nat,
{
    let half = 0x80000000000000000000000000000000nat;
    let b = 0x100000000000000000000000000000000nat;
    assert(h < 0x20000000000000000000000000000000nat) by (nonlinear_arith)
        requires
            v == l + h * b,
            v < field_order(),
            field_order() < 0x2000000000000000000000000000000000000000000000000000000000000000nat,
            b == 0x100000000000000000000000000000000nat,
            field_order()
                == 7237005577332262213973186563042994240857116359379907606001950938285454250989nat,
    ;
    let halfu: u128 = 0x80000000000000000000000000000000u128;
    vstd::arithmetic::div_mod::lemma_fundamental_div_mod(l as int, halfu as int);
    assert(l == halfu * (l / halfu) + l % halfu);
    assert((l % halfu) * 2 + (h * 2 + l / halfu) * b == 2 * v) by (nonlinear_arith)
        requires
            v == l + h * b,
            l == halfu * (l / halfu) + l % halfu,
            b == 2 * half,
            half == 0x80000000000000000000000000000000nat,
            halfu == 0x80000000000000000000000000000000u128,
    ;
    assert((l % halfu) < halfu) by (nonlinear_arith)
        requires halfu > 0
    ;
    assert(l / halfu <= 1) by (nonlinear_arith)
        requires l < 2 * (halfu as int), halfu > 0
    ;
}

proof fn lemma_halve_parts(l: u128, h: u128)
    ensures
        l / 2 + (h % 2) * 0x80000000000000000000000000000000u128 + (h / 2)
            * 0x100000000000000000000000000000000nat == (l + h
            * 0x100000000000000000000000000000000nat) / 2,
        l / 2 + (h % 2) * 0x80000000000000000000000000000000u128
            < 0x100000000000000000000000000000000nat,
{
    let half = 0x80000000000000000000000000000000nat;
    let b = 0x100000000000000000000000000000000nat;
    assert(h == 2 * (h / 2) + h % 2) by (nonlinear_arith);
    assert(l == 2 * (l / 2) + l % 2) by (nonlinear_arith);
    assert(l + h * b == 2 * (l / 2 + (h % 2) * half + (h / 2) * b) + l % 2) by (nonlinear_arith)
        requires
            h == 2 * (h / 2) + h % 2,
            l == 2 * (l / 2) + l % 2,
            b == 2 * half,
            half == 0x80000000000000000000000000000000nat,
    ;
    assert((l + h * b) / 2 == l / 2 + (h % 2) * half + (h / 2) * b) by (nonlinear_arith)
        requires
            l + h * b == 2 * (l / 2 + (h % 2) * half + (h / 2) * b) + l % 2,
            l % 2 < 2,
    ;
    assert(l / 2 < half) by (nonlinear_arith)
        requires l < 2 * half
    ;
}

} // verus!
