//! The scalar prime field all polynomial evaluations are computed over,
//! with a signed interpretation of residues: values at most `MAX_SIGNED`
//! are non-negative, larger residues are negative.
//!
//! Field arithmetic is carried out by an outside field implementation; each
//! element carries a ghost model of its canonical residue, and every trusted
//! operation states how the model of its result follows from the models of
//! its arguments.
use vstd::prelude::*;
use vstd::arithmetic::div_mod::{lemma_small_mod, lemma_mul_mod_noop_left, lemma_mod_multiples_vanish};
use core::cmp::Ordering;

verus! {

/// Opaque holder of the outside field element; Verus refuses a direct
/// declaration of the field type because of its trait-bounded generics.
#[verifier::external_body]
pub struct FrRepr {
    pub(crate) inner: ark_curve25519::Fr,
}

impl Clone for FrRepr {
    #[verifier::external_body]
    fn clone(&self) -> (r: FrRepr)
        ensures
            r == *self,
    {
        FrRepr { inner: self.inner }
    }
}

impl Copy for FrRepr {

}

#[verifier::external_type_specification]
#[verifier::external_body]
pub struct ExFormatter<'a>(core::fmt::Formatter<'a>);

#[verifier::external_type_specification]
#[verifier::external_body]
pub struct ExFmtError(core::fmt::Error);

/// The order of the scalar field: the prime
/// 2^252 + 27742317777372353535851937790883648493.
pub open spec fn field_order() -> nat {
    7237005577332262213973186563042994240857116359379907606001950938285454250989nat
}

/// The boundary of the non-negative range: (order - 1) / 2.
pub open spec fn max_signed_val() -> nat {
    3618502788666131106986593281521497120428558179689953803000975469142727125494nat
}

/// base^e over the integers.
pub open spec fn pow_nat(base: nat, e: nat) -> nat
    decreases e,
{
    if e == 0 {
        1
    } else {
        base * pow_nat(base, (e - 1) as nat)
    }
}

/// Reduction modulo the field order.
pub open spec fn fmod(x: int) -> int {
    x % (field_order() as int)
}

/// The signed integer a residue stands for.
pub open spec fn signed_value(v: nat) -> int {
    if v <= max_signed_val() {
        v as int
    } else {
        v - field_order()
    }
}

/// What the signed comparison of two residues returns: `Equal` exactly on
/// equal residues, `Less` exactly when the difference lands in the
/// negative range.
pub open spec fn signed_cmp_spec(a: nat, b: nat) -> core::cmp::Ordering {
    if a == b {
        core::cmp::Ordering::Equal
    } else if fmod(a + field_order() - b) > max_signed_val() {
        core::cmp::Ordering::Less
    } else {
        core::cmp::Ordering::Greater
    }
}

/// An element of the scalar field. The ghost component is the canonical
/// residue in [0, order).
#[derive(Clone, Copy)]
pub struct Scalar {
    inner: FrRepr,
    value: Ghost<nat>,
}

impl View for Scalar {
    type V = nat;

    closed spec fn view(&self) -> nat {
        self.value@
    }
}

impl Scalar {
    /// The model is a canonical residue.
    pub open spec fn wf(&self) -> bool {
        self@ < field_order()
    }

    /// Relies on the field's conversion from `u64`, which embeds values
    /// below the order without reduction.
    #[verifier::external_body]
    pub fn from_u64(x: u64) -> (r: Scalar)
        ensures
            r@ == x as nat,
            r.wf(),
    {
        Scalar { inner: FrRepr { inner: ark_curve25519::Fr::from(x) }, value: Ghost(arbitrary()) }
    }

    /// Relies on the field's conversion from `u128`, which embeds values
    /// below the order without reduction.
    #[verifier::external_body]
    pub fn from_u128(x: u128) -> (r: Scalar)
        ensures
            r@ == x as nat,
            r.wf(),
    {
        Scalar { inner: FrRepr { inner: ark_curve25519::Fr::from(x) }, value: Ghost(arbitrary()) }
    }

    /// Relies on the field's conversion from `i64`: the embedding of the
    /// absolute value, negated for negative inputs.
    #[verifier::external_body]
    pub fn from_i64(x: i64) -> (r: Scalar)
        ensures
            x >= 0 ==> r@ == x as nat,
            x < 0 ==> r@ == (field_order() - (-(x as int)) as nat) as nat,
            r.wf(),
    {
        Scalar { inner: FrRepr { inner: ark_curve25519::Fr::from(x) }, value: Ghost(arbitrary()) }
    }

    /// Relies on the field's conversion from `i128`: the embedding of the
    /// absolute value, negated for negative inputs.
    #[verifier::external_body]
    pub fn from_i128(x: i128) -> (r: Scalar)
        ensures
            x >= 0 ==> r@ == x as nat,
            x < 0 ==> r@ == (field_order() - (-(x as int)) as nat) as nat,
            r.wf(),
    {
        Scalar { inner: FrRepr { inner: ark_curve25519::Fr::from(x) }, value: Ghost(arbitrary()) }
    }

    /// Relies on the field's addition of canonical residues.
    #[verifier::external_body]
    pub fn add(&self, other: &Scalar) -> (r: Scalar)
        requires
            self.wf(),
            other.wf(),
        ensures
            r@ == fmod((self@ + other@) as int),
            r.wf(),
    {
        Scalar { inner: FrRepr { inner: self.inner.inner + other.inner.inner }, value: Ghost(arbitrary()) }
    }

    /// Relies on the field's subtraction of canonical residues.
    #[verifier::external_body]
    pub fn sub(&self, other: &Scalar) -> (r: Scalar)
        requires
            self.wf(),
            other.wf(),
        ensures
            r@ == fmod(self@ + field_order() - other@),
            r.wf(),
    {
        Scalar { inner: FrRepr { inner: self.inner.inner - other.inner.inner }, value: Ghost(arbitrary()) }
    }

    /// Relies on the field's multiplication of canonical residues.
    #[verifier::external_body]
    pub fn mul(&self, other: &Scalar) -> (r: Scalar)
        requires
            self.wf(),
            other.wf(),
        ensures
            r@ == fmod((self@ * other@) as int),
            r.wf(),
    {
        Scalar { inner: FrRepr { inner: self.inner.inner * other.inner.inner }, value: Ghost(arbitrary()) }
    }

    /// Relies on the field's negation of canonical residues.
    #[verifier::external_body]
    pub fn neg(&self) -> (r: Scalar)
        requires
            self.wf(),
        ensures
            r@ == fmod(field_order() - self@),
            r.wf(),
    {
        Scalar { inner: FrRepr { inner: -self.inner.inner }, value: Ghost(arbitrary()) }
    }

    /// Relies on the field's modular inversion, which returns `None`
    /// exactly on zero.
    #[verifier::external_body]
    pub fn inv(&self) -> (r: Scalar)
        requires
            self.wf(),
        ensures
            self@ == 0 ==> r@ == 0,
            self@ != 0 ==> fmod((self@ * r@) as int) == 1,
            r.wf(),
    {
        match ark_ff::Field::inverse(&self.inner.inner) {
            Some(x) => Scalar { inner: FrRepr { inner: x }, value: Ghost(arbitrary()) },
            None => Scalar { inner: self.inner, value: Ghost(arbitrary()) },
        }
    }

    /// Relies on the field's canonical bigint representation: the two
    /// 128-bit halves of the canonical residue, low half first.
    #[verifier::external_body]
    pub fn to_u128_pair(&self) -> (r: (u128, u128))
        requires
            self.wf(),
        ensures
            self@ == r.0 + r.1 * 0x100000000000000000000000000000000nat,
    {
        let limbs = <ark_curve25519::Fr as ark_ff::PrimeField>::into_bigint(self.inner.inner).0;
        let low = (limbs[0] as u128) | ((limbs[1] as u128) << 64);
        let high = (limbs[2] as u128) | ((limbs[3] as u128) << 64);
        (low, high)
    }

    /// Relies on the field's little-endian reduction: rebuilds an element
    /// from two 128-bit halves.
    #[verifier::external_body]
    pub fn from_u128_pair(low: u128, high: u128) -> (r: Scalar)
        ensures
            r@ == (low as nat + high as nat * 0x100000000000000000000000000000000nat) % field_order(),
            r.wf(),
    {
        let mut bytes = [0u8; 32];
        bytes[..16].copy_from_slice(&low.to_le_bytes());
        bytes[16..].copy_from_slice(&high.to_le_bytes());
        Scalar {
            inner: FrRepr {
                inner: <ark_curve25519::Fr as ark_ff::PrimeField>::from_le_bytes_mod_order(&bytes),
            },
            value: Ghost(arbitrary()),
        }
    }

    /// The opaque representation of the element, for other trusted
    /// wrappers of this crate.
    #[verifier::external_body]
    pub(crate) fn repr(&self) -> (r: FrRepr) {
        self.inner
    }

    /// Relies on the field's equality of canonical representations.
    #[verifier::external_body]
    pub fn eq_value(&self, other: &Scalar) -> (r: bool)
        ensures
            r == (self@ == other@),
    {
        self.inner.inner == other.inner.inner
    }

    /// Relies on the field's total order, which compares canonical
    /// residues as unsigned integers.
    #[verifier::external_body]
    pub fn lt_unsigned(&self, other: &Scalar) -> (r: bool)
        ensures
            r == (self@ < other@),
    {
        self.inner.inner < other.inner.inner
    }

    /// Whether the element is zero.
    pub fn is_zero(&self) -> (r: bool)
        requires
            self.wf(),
        ensures
            r == (self@ == 0),
    {
        self.eq_value(&Scalar::zero())
    }

    /// The additive identity.
    pub fn zero() -> (r: Scalar)
        ensures
            r@ == 0,
            r.wf(),
    {
        Scalar::from_u64(0)
    }

    /// The multiplicative identity.
    pub fn one() -> (r: Scalar)
        ensures
            r@ == 1,
            r.wf(),
    {
        Scalar::from_u64(1)
    }

    /// The largest residue counted as non-negative: (order - 1) / 2.
    pub fn max_signed() -> (r: Scalar)
        ensures
            r@ == max_signed_val(),
            r.wf(),
    {
        let hi = Scalar::from_u128(42535295865117307932921825928971026432u128);
        let shift = Scalar::from_u128(85070591730234615865843651857942052864u128);
        let lo = Scalar::from_u128(13871158888686176767925968895441824246u128);
        let prod = hi.mul(&shift);
        proof {
            lemma_small_mod(
                42535295865117307932921825928971026432nat
                    * 85070591730234615865843651857942052864nat,
                field_order() as int as nat,
            );
        }
        let r = prod.add(&lo);
        proof {
            lemma_small_mod(max_signed_val(), field_order() as int as nat);
        }
        r
    }

    /// 10^exponent in the field, by repeated multiplication.
    pub fn pow10(exponent: u8) -> (r: Scalar)
        ensures
            r@ == fmod(pow_nat(10, exponent as nat) as int),
            r.wf(),
    {
        let ten = Scalar::from_u64(10);
        let mut acc = Scalar::one();
        proof {
            lemma_small_mod(1nat, field_order() as int as nat);
        }
        let mut i: u8 = 0;
        while i < exponent
            invariant
                0 <= i <= exponent,
                acc@ == fmod(pow_nat(10, i as nat) as int),
                acc.wf(),
                ten@ == 10,
                ten.wf(),
            decreases exponent - i,
        {
            let next = acc.mul(&ten);
            proof {
                lemma_mul_mod_noop_left(
                    pow_nat(10, i as nat) as int,
                    10,
                    field_order() as int,
                );
                assert(pow_nat(10, (i + 1) as nat) == pow_nat(10, i as nat) * 10)
                    by (nonlinear_arith)
                    requires pow_nat(10, (i + 1) as nat) == 10 * pow_nat(10, i as nat)
                ;
            }
            acc = next;
            i += 1;
        }
        acc
    }

    /// Compares two field elements as signed numbers: the result is
    /// `Less` exactly when the difference self - other lands in the
    /// negative range, `Equal` exactly when they are equal.
    pub fn signed_cmp(&self, other: &Scalar) -> (r: Ordering)
        requires
            self.wf(),
            other.wf(),
        ensures
            r == signed_cmp_spec(self@, other@),
            r == Ordering::Equal <==> self@ == other@,
            r == Ordering::Less <==> fmod(self@ + field_order() - other@) > max_signed_val(),
            r == Ordering::Greater <==> (self@ != other@ && fmod(self@ + field_order() - other@) <= max_signed_val()),
    {
        let diff = self.sub(other);
        proof {
            if self@ == other@ {
                assert(fmod(self@ + field_order() - other@) == fmod(field_order() as int));
            } else {
                lemma_small_mod(
                    (self@ + field_order() - other@) as nat % field_order(),
                    field_order(),
                );
            }
        }
        if diff.is_zero() {
            proof {
                if self@ != other@ {
                    let d = (self@ + field_order() - other@) as int;
                    assert(0 < d < 2 * field_order());
                    assert(fmod(d) != 0) by {
                        if d < field_order() {
                            lemma_small_mod(d as nat, field_order());
                        } else {
                            lemma_small_mod((d - field_order()) as nat, field_order());
                            assert(fmod(d) == fmod(d - field_order()));
                        }
                    }
                }
            }
            Ordering::Equal
        } else if Scalar::max_signed().lt_unsigned(&diff) {
            Ordering::Less
        } else {
            Ordering::Greater
        }
    }
}

impl PartialEq for Scalar {
    fn eq(&self, other: &Scalar) -> (r: bool) {
        self.eq_value(other)
    }
}

impl core::fmt::Debug for Scalar {
    /// Relies on the field's own debug formatting.
    #[verifier::external_body]
    fn fmt(&self, f: &mut core::fmt::Formatter<'_>) -> core::fmt::Result {
        write!(f, "Scalar({:?})", self.inner.inner)
    }
}

impl vstd::std_specs::cmp::PartialEqSpecImpl for Scalar {
    open spec fn obeys_eq_spec() -> bool {
        true
    }

    open spec fn eq_spec(&self, other: &Scalar) -> bool {
        self@ == other@
    }
}

/// Replaces every element of the slice by its inverse, mapping zero to
/// zero.
pub fn batch_inversion(values: &mut Vec<Scalar>)
    requires
        forall|i: int| 0 <= i < old(values)@.len() ==> (#[trigger] old(values)@[i]).wf(),
    ensures
        final(values)@.len() == old(values)@.len(),
        forall|i: int| 0 <= i < old(values)@.len() ==> (#[trigger] final(values)@[i]).wf(),
        forall|i: int| 0 <= i < old(values)@.len() ==> (old(values)@[i]@ == 0
            ==> (#[trigger] final(values)@[i])@ == 0),
        forall|i: int| 0 <= i < old(values)@.len() ==> (old(values)@[i]@ != 0
            ==> fmod((old(values)@[i]@ * (#[trigger] final(values)@[i])@) as int) == 1),
{
    let n = values.len();
    let mut i: usize = 0;
    while i < n
        invariant
            n == old(values)@.len() == values@.len(),
            0 <= i <= n,
            forall|j: int| 0 <= j < n ==> (#[trigger] old(values)@[j]).wf(),
            forall|j: int| i <= j < n ==> #[trigger] values@[j] == old(values)@[j],
            forall|j: int| 0 <= j < i ==> (#[trigger] values@[j]).wf(),
            forall|j: int| 0 <= j < i ==> (old(values)@[j]@ == 0
                ==> (#[trigger] values@[j])@ == 0),
            forall|j: int| 0 <= j < i ==> (old(values)@[j]@ != 0
                ==> fmod((old(values)@[j]@ * (#[trigger] values@[j])@) as int) == 1),
        decreases n - i,
    {
        let x = values[i].inv();
        values.set(i, x);
        i += 1;
    }
}

/// The scalar a string hashes to. The digest is a function of the
/// characters alone, identical on prover and verifier.
pub uninterp spec fn varchar_hash(s: Seq<char>) -> nat;

/// Relies on merlin's transcript, a domain-separated hash: the squeezed
/// digest depends only on the domain label and the absorbed string bytes,
/// and the field's reduction of 64 little-endian bytes lands below the
/// order.
#[verifier::external_body]
pub fn hash_str(s: &str) -> (r: Scalar)
    ensures
        r@ == varchar_hash(s@),
        r.wf(),
{
    let mut t = merlin::Transcript::new(b"posql.varchar");
    t.append_message(b"str", s.as_bytes());
    let mut buf = [0u8; 64];
    t.challenge_bytes(b"hash", &mut buf);
    Scalar {
        inner: FrRepr { inner: <ark_curve25519::Fr as ark_ff::PrimeField>::from_le_bytes_mod_order(&buf) },
        value: Ghost(arbitrary()),
    }
}


/// The natural number a little-endian byte sequence encodes.
pub open spec fn le_bytes_to_nat(s: Seq<u8>) -> nat
    decreases s.len(),
{
    if s.len() == 0 {
        0
    } else {
        (le_bytes_to_nat(s.drop_last()) + s.last() * pow_nat(256, (s.len() - 1) as nat)) as nat
    }
}

impl Scalar {
    /// Relies on the field's little-endian reduction of a byte string
    /// modulo the order.
    #[verifier::external_body]
    pub fn from_le_bytes_mod_order(bytes: &[u8]) -> (r: Scalar)
        ensures
            r@ == le_bytes_to_nat(bytes@) % field_order(),
            r.wf(),
    {
        Scalar {
            inner: FrRepr {
                inner: <ark_curve25519::Fr as ark_ff::PrimeField>::from_le_bytes_mod_order(bytes),
            },
            value: Ghost(arbitrary()),
        }
    }
}


/// On residues whose signed values are less than the boundary apart, the
/// signed comparison is the comparison of the signed values themselves.
/// Residues further apart wrap around and compare in the other direction.
pub proof fn lemma_signed_cmp_characterizes(a: nat, b: nat)
    requires
        a < field_order(),
        b < field_order(),
        -(max_signed_val() as int) <= signed_value(a) - signed_value(b) <= max_signed_val() as int,
    ensures
        (signed_cmp_spec(a, b) == Ordering::Equal) <==> (signed_value(a) == signed_value(b)),
        (signed_cmp_spec(a, b) == Ordering::Less) <==> (signed_value(a) < signed_value(b)),
        (signed_cmp_spec(a, b) == Ordering::Greater) <==> (signed_value(a) > signed_value(b)),
{
    let ord = field_order() as int;
    let dd = signed_value(a) - signed_value(b);
    assert(2 * max_signed_val() + 1 == field_order());
    // signed values are injective on canonical residues
    assert(a == b <==> signed_value(a) == signed_value(b));
    if a != b {
        // the unsigned difference is the signed difference up to one
        // multiple of the order
        let raw = a + ord - b;
        assert(raw == dd + ord || raw == dd + 2 * ord || raw == dd);
        if dd >= 0 {
            assert(fmod(raw) == dd) by {
                if raw == dd + ord {
                    assert(raw == ord * 1 + dd);
                    lemma_mod_multiples_vanish(1, dd, ord);
                } else if raw == dd + 2 * ord {
                    assert(raw == ord * 2 + dd);
                    lemma_mod_multiples_vanish(2, dd, ord);
                } else {
                    assert(raw == ord * 0 + dd);
                    lemma_mod_multiples_vanish(0, dd, ord);
                }
                lemma_small_mod(dd as nat, field_order());
            }
        } else {
            assert(fmod(raw) == dd + ord) by {
                if raw == dd + ord {
                    assert(raw == ord * 0 + (dd + ord));
                    lemma_mod_multiples_vanish(0, dd + ord, ord);
                } else if raw == dd + 2 * ord {
                    assert(raw == ord * 1 + (dd + ord));
                    lemma_mod_multiples_vanish(1, dd + ord, ord);
                } else {
                    assert(raw == ord * (-1) + (dd + ord));
                    lemma_mod_multiples_vanish(-1, dd + ord, ord);
                }
                lemma_small_mod((dd + ord) as nat, field_order());
            }
            assert(fmod(raw) > max_signed_val());
        }
    }
}

/// On residues in the non-negative range, the signed comparison is the
/// comparison of the residues themselves.
pub proof fn lemma_signed_cmp_nonnegative(a: nat, b: nat)
    requires
        a <= max_signed_val(),
        b <= max_signed_val(),
    ensures
        signed_cmp_spec(a, b) == Ordering::Less <==> a < b,
        signed_cmp_spec(a, b) == Ordering::Equal <==> a == b,
        signed_cmp_spec(a, b) == Ordering::Greater <==> a > b,
{
    if a != b {
        let d = a + field_order() - b;
        if a > b {
            assert(d - field_order() == a - b);
            assert(0 < a - b <= max_signed_val());
            lemma_small_mod((a - b) as nat, field_order());
            assert(fmod(d) == fmod(d - field_order()));
        } else {
            assert(field_order() - max_signed_val() <= d < field_order());
            lemma_small_mod(d as nat, field_order());
            assert(fmod(d) == d);
            assert(2 * max_signed_val() + 1 == field_order());
        }
    }
}

/// The signed comparison is transitive on residues in the non-negative
/// range: if a compares below b and b below c, then a compares below c.
pub proof fn lemma_signed_cmp_transitive(a: nat, b: nat, c: nat)
    requires
        a <= max_signed_val(),
        b <= max_signed_val(),
        c <= max_signed_val(),
        signed_cmp_spec(a, b) == Ordering::Less,
        signed_cmp_spec(b, c) == Ordering::Less,
    ensures
        signed_cmp_spec(a, c) == Ordering::Less,
{
    lemma_signed_cmp_nonnegative(a, b);
    lemma_signed_cmp_nonnegative(b, c);
    lemma_signed_cmp_nonnegative(a, c);
}

} // verus!
