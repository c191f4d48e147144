//! The pairing commitment scheme: public parameters over a pairing-
//! friendly curve, and the extended inner-product argument that proves an
//! evaluation of a committed vector by recursive halving. Each group
//! element carries a ghost model of its discrete logarithm against its
//! group's generator; a pairing multiplies the models.
use vstd::prelude::*;
use crate::transcript::Transcript;
use crate::builders::ProofError;

verus! {

#[verifier::external_type_specification]
#[verifier::external_body]
pub struct ExStdRng(ark_std::rand::rngs::StdRng);

/// The order of the pairing-friendly scalar field.
pub open spec fn dory_order() -> nat {
    52435875175126190479447740508185965837690552500527637822603658699938581184513nat
}

/// Reduction modulo the pairing-friendly field order.
pub open spec fn dmod(x: int) -> int {
    x % (dory_order() as int)
}

/// Opaque holder of the outside field element; the field type's
/// trait-bounded generics keep it from being declared directly.
#[verifier::external_body]
pub struct DoryFrRepr {
    pub(crate) inner: ark_bls12_381::Fr,
}

impl Clone for DoryFrRepr {
    #[verifier::external_body]
    fn clone(&self) -> (r: DoryFrRepr)
        ensures
            r == *self,
    {
        DoryFrRepr { inner: self.inner }
    }
}

impl Copy for DoryFrRepr {

}

/// An element of the pairing-friendly scalar field, with its canonical
/// residue as ghost model.
#[derive(Clone, Copy)]
pub struct F {
    inner: DoryFrRepr,
    value: Ghost<nat>,
}

impl View for F {
    type V = nat;

    closed spec fn view(&self) -> nat {
        self.value@
    }
}

impl F {
    pub open spec fn wf(&self) -> bool {
        self@ < dory_order()
    }

    /// Relies on the field's embedding of small integers.
    #[verifier::external_body]
    pub fn from_u64(x: u64) -> (r: F)
        ensures
            r@ == x as nat,
            r.wf(),
    {
        F { inner: DoryFrRepr { inner: ark_bls12_381::Fr::from(x) }, value: Ghost(arbitrary()) }
    }

    /// Relies on the field's addition of canonical residues.
    #[verifier::external_body]
    pub fn add(&self, other: &F) -> (r: F)
        requires
            self.wf(),
            other.wf(),
        ensures
            r@ == dmod((self@ + other@) as int),
            r.wf(),
    {
        F {
            inner: DoryFrRepr { inner: self.inner.inner + other.inner.inner },
            value: Ghost(arbitrary()),
        }
    }

    /// Relies on the field's multiplication of canonical residues.
    #[verifier::external_body]
    pub fn mul(&self, other: &F) -> (r: F)
        requires
            self.wf(),
            other.wf(),
        ensures
            r@ == dmod((self@ * other@) as int),
            r.wf(),
    {
        F {
            inner: DoryFrRepr { inner: self.inner.inner * other.inner.inner },
            value: Ghost(arbitrary()),
        }
    }

    /// Relies on the field's modular inversion, which returns `None`
    /// exactly on zero.
    #[verifier::external_body]
    pub fn inv(&self) -> (r: F)
        requires
            self.wf(),
        ensures
            self@ == 0 ==> r@ == 0,
            self@ != 0 ==> dmod((self@ * r@) as int) == 1,
            r.wf(),
    {
        match ark_ff::Field::inverse(&self.inner.inner) {
            Some(x) => F { inner: DoryFrRepr { inner: x }, value: Ghost(arbitrary()) },
            None => F { inner: self.inner, value: Ghost(arbitrary()) },
        }
    }

    /// Relies on the field's equality of canonical representations.
    #[verifier::external_body]
    pub fn eq_value(&self, other: &F) -> (r: bool)
        ensures
            r == (self@ == other@),
    {
        self.inner.inner == other.inner.inner
    }

    /// Relies on the field's uniform sampling; nothing is promised of the
    /// drawn value beyond canonicity.
    #[verifier::external_body]
    pub fn rand(rng: &mut ark_std::rand::rngs::StdRng) -> (r: F)
        ensures
            r.wf(),
    {
        F {
            inner: DoryFrRepr {
                inner: <ark_bls12_381::Fr as ark_std::UniformRand>::rand(rng),
            },
            value: Ghost(arbitrary()),
        }
    }

    /// Relies on the field's little-endian reduction of a byte string.
    #[verifier::external_body]
    pub fn from_le_bytes_mod_order(bytes: &[u8]) -> (r: F)
        ensures
            r@ == crate::scalar::le_bytes_to_nat(bytes@) % dory_order(),
            r.wf(),
    {
        F {
            inner: DoryFrRepr {
                inner: <ark_bls12_381::Fr as ark_ff::PrimeField>::from_le_bytes_mod_order(bytes),
            },
            value: Ghost(arbitrary()),
        }
    }
}

/// Opaque holder of the outside first-group element.
#[verifier::external_body]
pub struct G1Repr {
    pub(crate) inner: ark_bls12_381::G1Projective,
}

impl Clone for G1Repr {
    #[verifier::external_body]
    fn clone(&self) -> (r: G1Repr)
        ensures
            r == *self,
    {
        G1Repr { inner: self.inner }
    }
}

impl Copy for G1Repr {

}

/// Opaque holder of the outside second-group element.
#[verifier::external_body]
pub struct G2Repr {
    pub(crate) inner: ark_bls12_381::G2Projective,
}

impl Clone for G2Repr {
    #[verifier::external_body]
    fn clone(&self) -> (r: G2Repr)
        ensures
            r == *self,
    {
        G2Repr { inner: self.inner }
    }
}

impl Copy for G2Repr {

}

/// Opaque holder of the outside target-group element.
#[verifier::external_body]
pub struct GTRepr {
    pub(crate) inner: ark_ec::pairing::PairingOutput<ark_bls12_381::Bls12_381>,
}

impl Clone for GTRepr {
    #[verifier::external_body]
    fn clone(&self) -> (r: GTRepr)
        ensures
            r == *self,
    {
        GTRepr { inner: self.inner }
    }
}

impl Copy for GTRepr {

}

/// The compressed encoding of the G1 element with the given discrete
/// logarithm.
pub uninterp spec fn g1_bytes_of(v: nat) -> Seq<u8>;

/// The uncompressed encoding of the G1 element with the given discrete
/// logarithm.
pub uninterp spec fn g1_wide_bytes_of(v: nat) -> Seq<u8>;

/// The discrete logarithm encoded by uncompressed G1 bytes, where they
/// decode to a valid point.
pub uninterp spec fn g1_of_wide_bytes(s: Seq<u8>) -> Option<nat>;

/// The compressed encoding of the G2 element with the given discrete
/// logarithm.
pub uninterp spec fn g2_bytes_of(v: nat) -> Seq<u8>;

/// The uncompressed encoding of the G2 element with the given discrete
/// logarithm.
pub uninterp spec fn g2_wide_bytes_of(v: nat) -> Seq<u8>;

/// The discrete logarithm encoded by uncompressed G2 bytes, where they
/// decode to a valid point.
pub uninterp spec fn g2_of_wide_bytes(s: Seq<u8>) -> Option<nat>;

/// The compressed encoding of the target-group element with the given
/// discrete logarithm.
pub uninterp spec fn gt_bytes_of(v: nat) -> Seq<u8>;

/// An element of the first source group, with its discrete logarithm as
/// ghost model.
#[derive(Clone, Copy)]
pub struct G1 {
    inner: G1Repr,
    value: Ghost<nat>,
}

impl View for G1 {
    type V = nat;

    closed spec fn view(&self) -> nat {
        self.value@
    }
}

/// An element of the second source group, with its discrete logarithm as
/// ghost model.
#[derive(Clone, Copy)]
pub struct G2 {
    inner: G2Repr,
    value: Ghost<nat>,
}

impl View for G2 {
    type V = nat;

    closed spec fn view(&self) -> nat {
        self.value@
    }
}

/// An element of the target group, with its discrete logarithm as ghost
/// model.
#[derive(Clone, Copy)]
pub struct GT {
    inner: GTRepr,
    value: Ghost<nat>,
}

impl View for GT {
    type V = nat;

    closed spec fn view(&self) -> nat {
        self.value@
    }
}

impl G1 {
    pub open spec fn wf(&self) -> bool {
        self@ < dory_order()
    }

    /// Relies on the group's addition: discrete logarithms add.
    #[verifier::external_body]
    pub fn add(&self, other: &G1) -> (r: G1)
        requires
            self.wf(),
            other.wf(),
        ensures
            r@ == dmod((self@ + other@) as int),
            r.wf(),
    {
        G1 { inner: G1Repr { inner: self.inner.inner + other.inner.inner }, value: Ghost(arbitrary()) }
    }

    /// Relies on the group's scalar multiplication.
    #[verifier::external_body]
    pub fn scale(&self, s: &F) -> (r: G1)
        requires
            self.wf(),
            s.wf(),
        ensures
            r@ == dmod((self@ * s@) as int),
            r.wf(),
    {
        G1 { inner: G1Repr { inner: self.inner.inner * s.inner.inner }, value: Ghost(arbitrary()) }
    }

    /// Relies on the group's equality of canonical representations.
    #[verifier::external_body]
    pub fn eq_element(&self, other: &G1) -> (r: bool)
        ensures
            r == (self@ == other@),
    {
        self.inner.inner == other.inner.inner
    }

    /// Relies on the group's element validation, which accepts exactly
    /// the on-curve points of the prime-order subgroup; every element
    /// this library constructs is one.
    #[verifier::external_body]
    pub fn validate(&self) -> (r: bool)
        ensures
            r == true,
    {
        ark_serialize::Valid::check(&self.inner.inner).is_ok()
    }

    /// Relies on the group's identity element.
    #[verifier::external_body]
    pub fn identity() -> (r: G1)
        ensures
            r@ == 0,
            r.wf(),
    {
        G1 {
            inner: G1Repr { inner: <ark_bls12_381::G1Projective as ark_std::Zero>::zero() },
            value: Ghost(arbitrary()),
        }
    }

    /// Relies on the group's uniform sampling.
    #[verifier::external_body]
    pub fn rand(rng: &mut ark_std::rand::rngs::StdRng) -> (r: G1)
        ensures
            r.wf(),
    {
        G1 {
            inner: G1Repr {
                inner: <ark_bls12_381::G1Projective as ark_std::UniformRand>::rand(rng),
            },
            value: Ghost(arbitrary()),
        }
    }

    /// Relies on the group's compressed canonical serialization.
    #[verifier::external_body]
    pub fn to_bytes(&self) -> (r: Vec<u8>)
        ensures
            r@ == g1_bytes_of(self@),
    {
        let mut out: Vec<u8> = Vec::new();
        ark_serialize::CanonicalSerialize::serialize_compressed(&self.inner.inner, &mut out)
            .unwrap();
        out
    }

    /// Relies on the group's uncompressed canonical serialization: the
    /// affine form takes a fixed width and round-trips through
    /// deserialization.
    #[verifier::external_body]
    pub fn to_wide_bytes(&self) -> (r: Vec<u8>)
        ensures
            r@ == g1_wide_bytes_of(self@),
            r@.len() == 96,
            g1_of_wide_bytes(r@) == Some(self@),
    {
        let affine = ark_ec::CurveGroup::into_affine(self.inner.inner);
        let mut out: Vec<u8> = Vec::new();
        ark_serialize::CanonicalSerialize::serialize_uncompressed(&affine, &mut out).unwrap();
        out
    }

    /// Relies on the group's validated uncompressed deserialization: it
    /// accepts exactly the canonical encodings of curve points.
    #[verifier::external_body]
    pub fn from_wide_bytes(bytes: &[u8]) -> (r: Option<G1>)
        ensures
            match r {
                Some(p) => g1_of_wide_bytes(bytes@) == Some(p@) && p.wf(),
                None => g1_of_wide_bytes(bytes@) is None,
            },
    {
        let res: Result<ark_bls12_381::G1Affine, _> =
            ark_serialize::CanonicalDeserialize::deserialize_uncompressed(bytes);
        match res {
            Ok(p) => Some(G1 {
                inner: G1Repr { inner: ark_bls12_381::G1Projective::from(p) },
                value: Ghost(arbitrary()),
            }),
            Err(_) => None,
        }
    }
}

impl G2 {
    pub open spec fn wf(&self) -> bool {
        self@ < dory_order()
    }

    /// Relies on the group's addition: discrete logarithms add.
    #[verifier::external_body]
    pub fn add(&self, other: &G2) -> (r: G2)
        requires
            self.wf(),
            other.wf(),
        ensures
            r@ == dmod((self@ + other@) as int),
            r.wf(),
    {
        G2 { inner: G2Repr { inner: self.inner.inner + other.inner.inner }, value: Ghost(arbitrary()) }
    }

    /// Relies on the group's scalar multiplication.
    #[verifier::external_body]
    pub fn scale(&self, s: &F) -> (r: G2)
        requires
            self.wf(),
            s.wf(),
        ensures
            r@ == dmod((self@ * s@) as int),
            r.wf(),
    {
        G2 { inner: G2Repr { inner: self.inner.inner * s.inner.inner }, value: Ghost(arbitrary()) }
    }

    /// Relies on the group's equality of canonical representations.
    #[verifier::external_body]
    pub fn eq_element(&self, other: &G2) -> (r: bool)
        ensures
            r == (self@ == other@),
    {
        self.inner.inner == other.inner.inner
    }

    /// Relies on the group's element validation, which accepts exactly
    /// the on-curve points of the prime-order subgroup; every element
    /// this library constructs is one.
    #[verifier::external_body]
    pub fn validate(&self) -> (r: bool)
        ensures
            r == true,
    {
        ark_serialize::Valid::check(&self.inner.inner).is_ok()
    }

    /// Relies on the group's identity element.
    #[verifier::external_body]
    pub fn identity() -> (r: G2)
        ensures
            r@ == 0,
            r.wf(),
    {
        G2 {
            inner: G2Repr { inner: <ark_bls12_381::G2Projective as ark_std::Zero>::zero() },
            value: Ghost(arbitrary()),
        }
    }

    /// Relies on the group's uniform sampling.
    #[verifier::external_body]
    pub fn rand(rng: &mut ark_std::rand::rngs::StdRng) -> (r: G2)
        ensures
            r.wf(),
    {
        G2 {
            inner: G2Repr {
                inner: <ark_bls12_381::G2Projective as ark_std::UniformRand>::rand(rng),
            },
            value: Ghost(arbitrary()),
        }
    }

    /// Relies on the group's compressed canonical serialization.
    #[verifier::external_body]
    pub fn to_bytes(&self) -> (r: Vec<u8>)
        ensures
            r@ == g2_bytes_of(self@),
    {
        let mut out: Vec<u8> = Vec::new();
        ark_serialize::CanonicalSerialize::serialize_compressed(&self.inner.inner, &mut out)
            .unwrap();
        out
    }

    /// Relies on the group's uncompressed canonical serialization.
    #[verifier::external_body]
    pub fn to_wide_bytes(&self) -> (r: Vec<u8>)
        ensures
            r@ == g2_wide_bytes_of(self@),
            r@.len() == 192,
            g2_of_wide_bytes(r@) == Some(self@),
    {
        let affine = ark_ec::CurveGroup::into_affine(self.inner.inner);
        let mut out: Vec<u8> = Vec::new();
        ark_serialize::CanonicalSerialize::serialize_uncompressed(&affine, &mut out).unwrap();
        out
    }

    /// Relies on the group's validated uncompressed deserialization.
    #[verifier::external_body]
    pub fn from_wide_bytes(bytes: &[u8]) -> (r: Option<G2>)
        ensures
            match r {
                Some(p) => g2_of_wide_bytes(bytes@) == Some(p@) && p.wf(),
                None => g2_of_wide_bytes(bytes@) is None,
            },
    {
        let res: Result<ark_bls12_381::G2Affine, _> =
            ark_serialize::CanonicalDeserialize::deserialize_uncompressed(bytes);
        match res {
            Ok(p) => Some(G2 {
                inner: G2Repr { inner: ark_bls12_381::G2Projective::from(p) },
                value: Ghost(arbitrary()),
            }),
            Err(_) => None,
        }
    }
}

impl GT {
    pub open spec fn wf(&self) -> bool {
        self@ < dory_order()
    }

    /// Relies on the target group's operation: discrete logarithms add.
    #[verifier::external_body]
    pub fn add(&self, other: &GT) -> (r: GT)
        requires
            self.wf(),
            other.wf(),
        ensures
            r@ == dmod((self@ + other@) as int),
            r.wf(),
    {
        GT { inner: GTRepr { inner: self.inner.inner + other.inner.inner }, value: Ghost(arbitrary()) }
    }

    /// Relies on the target group's scalar multiplication.
    #[verifier::external_body]
    pub fn scale(&self, s: &F) -> (r: GT)
        requires
            self.wf(),
            s.wf(),
        ensures
            r@ == dmod((self@ * s@) as int),
            r.wf(),
    {
        GT { inner: GTRepr { inner: self.inner.inner * s.inner.inner }, value: Ghost(arbitrary()) }
    }

    /// Relies on the target group's equality of canonical representations.
    #[verifier::external_body]
    pub fn eq_element(&self, other: &GT) -> (r: bool)
        ensures
            r == (self@ == other@),
    {
        self.inner.inner == other.inner.inner
    }

    /// Relies on the target group's identity element.
    #[verifier::external_body]
    pub fn identity() -> (r: GT)
        ensures
            r@ == 0,
            r.wf(),
    {
        GT {
            inner: GTRepr {
                inner: <ark_ec::pairing::PairingOutput<ark_bls12_381::Bls12_381> as ark_std::Zero>::zero(),
            },
            value: Ghost(arbitrary()),
        }
    }

    /// Relies on the target group's uniform sampling.
    #[verifier::external_body]
    pub fn rand(rng: &mut ark_std::rand::rngs::StdRng) -> (r: GT)
        ensures
            r.wf(),
    {
        GT {
            inner: GTRepr {
                inner: <ark_ec::pairing::PairingOutput<ark_bls12_381::Bls12_381> as ark_std::UniformRand>::rand(
                    rng,
                ),
            },
            value: Ghost(arbitrary()),
        }
    }

    /// Relies on the target group's compressed canonical serialization.
    #[verifier::external_body]
    pub fn to_bytes(&self) -> (r: Vec<u8>)
        ensures
            r@ == gt_bytes_of(self@),
    {
        let mut out: Vec<u8> = Vec::new();
        ark_serialize::CanonicalSerialize::serialize_compressed(&self.inner.inner, &mut out)
            .unwrap();
        out
    }
}

/// Relies on the bilinear pairing: the discrete logarithm of the output
/// is the product of the input logarithms.
#[verifier::external_body]
pub fn pairing(p: &G1, q: &G2) -> (r: GT)
    requires
        p.wf(),
        q.wf(),
    ensures
        r@ == dmod((p@ * q@) as int),
        r.wf(),
{
    GT {
        inner: GTRepr {
            inner: ark_ec::pairing::Pairing::pairing(p.inner.inner, q.inner.inner),
        },
        value: Ghost(arbitrary()),
    }
}

/// A deterministic random source for exercising the scheme.
#[verifier::external_body]
pub fn test_rng() -> (r: ark_std::rand::rngs::StdRng) {
    <ark_std::rand::rngs::StdRng as ark_std::rand::SeedableRng>::seed_from_u64(0)
}


/// The public parameters of the commitment scheme: generator vectors for
/// both source groups, blinding generators, a terminal generator, and the
/// largest supported matrix exponent.
pub struct PublicParameters {
    pub Gamma_1: Vec<G1>,
    pub Gamma_2: Vec<G2>,
    pub H_1: G1,
    pub H_2: G2,
    pub Gamma_2_fin: G2,
    pub max_nu: usize,
}

impl PublicParameters {
    /// The generator vectors have length 2^max_nu and every element is
    /// canonical. The exponent is capped so that the vectors' length,
    /// 2^max_nu, fits the machine word on every target; nothing else
    /// bounds it.
    pub open spec fn wf(&self) -> bool {
        &&& self.max_nu <= 20
        &&& self.Gamma_1@.len() == vstd::arithmetic::power2::pow2(self.max_nu as nat)
        &&& self.Gamma_2@.len() == vstd::arithmetic::power2::pow2(self.max_nu as nat)
        &&& forall|i: int| 0 <= i < self.Gamma_1@.len() ==> (#[trigger] self.Gamma_1@[i]).wf()
        &&& forall|i: int| 0 <= i < self.Gamma_2@.len() ==> (#[trigger] self.Gamma_2@[i]).wf()
        &&& self.H_1.wf()
        &&& self.H_2.wf()
        &&& self.Gamma_2_fin.wf()
    }

    /// Draws cryptographically random public parameters.
    pub fn rand(max_nu: usize, rng: &mut ark_std::rand::rngs::StdRng) -> (r: PublicParameters)
        requires
            max_nu <= 20,
        ensures
            r.wf(),
            r.max_nu == max_nu,
    {
        Self::rand_impl(max_nu, rng)
    }

    /// Draws random public parameters for exercising the scheme.
    pub fn test_rand(max_nu: usize, rng: &mut ark_std::rand::rngs::StdRng) -> (r: PublicParameters)
        requires
            max_nu <= 20,
        ensures
            r.wf(),
            r.max_nu == max_nu,
    {
        Self::rand_impl(max_nu, rng)
    }

    fn rand_impl(max_nu: usize, rng: &mut ark_std::rand::rngs::StdRng) -> (r: PublicParameters)
        requires
            max_nu <= 20,
        ensures
            r.wf(),
            r.max_nu == max_nu,
    {
        let n64 = crate::polynomial::pow2_exec(max_nu);
        let n = n64 as usize;
        proof {
            if max_nu < 21 { vstd::arithmetic::power2::lemma_pow2_strictly_increases(max_nu as nat, 21); }
            vstd::arithmetic::power2::lemma2_to64();
            vstd::arithmetic::power2::lemma2_to64_rest();
        }
        let mut Gamma_1: Vec<G1> = Vec::new();
        let mut Gamma_2: Vec<G2> = Vec::new();
        let mut i: usize = 0;
        while i < n
            invariant
                0 <= i <= n,
                n == vstd::arithmetic::power2::pow2(max_nu as nat),
                Gamma_1@.len() == i,
                Gamma_2@.len() == i,
                forall|j: int| 0 <= j < i ==> (#[trigger] Gamma_1@[j]).wf(),
                forall|j: int| 0 <= j < i ==> (#[trigger] Gamma_2@[j]).wf(),
            decreases n - i,
        {
            Gamma_1.push(G1::rand(rng));
            Gamma_2.push(G2::rand(rng));
            i += 1;
        }
        let H_1 = G1::rand(rng);
        let H_2 = G2::rand(rng);
        let Gamma_2_fin = G2::rand(rng);
        PublicParameters { Gamma_1, Gamma_2, H_1, H_2, Gamma_2_fin, max_nu }
    }

    /// Serializes the parameters: the exponent as eight little-endian
    /// bytes, then both generator vectors in uncompressed form, then the
    /// blinding and terminal generators.
    pub fn to_bytes(&self) -> (r: Vec<u8>)
        requires
            self.wf(),
        ensures
            r@ == spec_pp_bytes(*self),
            pp_parses(r@, *self),
            r@.len() == spec_pp_len(self.max_nu as nat),
    {
        let ghost nn = vstd::arithmetic::power2::pow2(self.max_nu as nat) as int;
        let mut out = crate::transcript::u64_le_bytes(self.max_nu as u64);
        let ghost prefix = out@;
        let n1 = self.Gamma_1.len();
        let mut i: usize = 0;
        while i < n1
            invariant
                0 <= i <= n1,
                n1 == self.Gamma_1@.len(),
                n1 == nn,
                forall|j: int| 0 <= j < n1 ==> (#[trigger] self.Gamma_1@[j]).wf(),
                out@ =~= crate::transcript::u64_le_seq(self.max_nu as u64) + g1s_wide_bytes(
                    g1_views(self.Gamma_1@).take(i as int),
                ),
                out@.len() == 8 + 96 * i,
                out@.subrange(0, 8) =~= prefix,
                crate::scalar::le_bytes_to_nat(prefix) == self.max_nu,
                forall|j: int| 0 <= j < i ==> g1_of_wide_bytes(
                    out@.subrange(8 + 96 * j, 8 + 96 * j + 96),
                ) == Some((#[trigger] self.Gamma_1@[j])@),
            decreases n1 - i,
        {
            proof {
                lemma_g1s_wide_last(g1_views(self.Gamma_1@).take(i + 1));
                assert(g1_views(self.Gamma_1@).take(i + 1).drop_last() =~= g1_views(
                    self.Gamma_1@,
                ).take(i as int));
            }
            let ghost before = out@;
            let chunk = self.Gamma_1[i].to_wide_bytes();
            append_bytes(&mut out, &chunk);
            proof {
                assert(out@.subrange(0, 8) =~= before.subrange(0, 8));
                assert forall|j: int| 0 <= j < i implies #[trigger] out@.subrange(8 + 96 * j, 8 + 96 * j + 96)
                    =~= before.subrange(8 + 96 * j, 8 + 96 * j + 96) by {
                    assert(8 + 96 * j + 96 <= before.len()) by (nonlinear_arith)
                        requires j < i, before.len() == 8 + 96 * i
                    ;
                }
                assert(out@.subrange(8 + 96 * i, 8 + 96 * i + 96) =~= chunk@);
            }
            i += 1;
        }
        proof {
            assert(g1_views(self.Gamma_1@).take(n1 as int) =~= g1_views(self.Gamma_1@));
        }
        let ghost after_g1 = out@;
        let n2 = self.Gamma_2.len();
        let mut k: usize = 0;
        while k < n2
            invariant
                0 <= k <= n2,
                n2 == self.Gamma_2@.len(),
                n1 == self.Gamma_1@.len(),
                n1 == nn,
                n2 == nn,
                forall|j: int| 0 <= j < n2 ==> (#[trigger] self.Gamma_2@[j]).wf(),
                out@ =~= crate::transcript::u64_le_seq(self.max_nu as u64) + g1s_wide_bytes(
                    g1_views(self.Gamma_1@),
                ) + g2s_wide_bytes(g2_views(self.Gamma_2@).take(k as int)),
                after_g1.len() == 8 + 96 * nn,
                out@.len() == 8 + 96 * nn + 192 * k,
                out@.subrange(0, after_g1.len() as int) =~= after_g1,
                out@.subrange(0, 8) =~= prefix,
                crate::scalar::le_bytes_to_nat(prefix) == self.max_nu,
                forall|j: int| 0 <= j < n1 ==> g1_of_wide_bytes(
                    after_g1.subrange(8 + 96 * j, 8 + 96 * j + 96),
                ) == Some((#[trigger] self.Gamma_1@[j])@),
                forall|j: int| 0 <= j < k ==> g2_of_wide_bytes(
                    out@.subrange(8 + 96 * nn + 192 * j, 8 + 96 * nn + 192 * j + 192),
                ) == Some((#[trigger] self.Gamma_2@[j])@),
            decreases n2 - k,
        {
            proof {
                lemma_g2s_wide_last(g2_views(self.Gamma_2@).take(k + 1));
                assert(g2_views(self.Gamma_2@).take(k + 1).drop_last() =~= g2_views(
                    self.Gamma_2@,
                ).take(k as int));
            }
            let ghost before = out@;
            let chunk = self.Gamma_2[k].to_wide_bytes();
            append_bytes(&mut out, &chunk);
            proof {
                assert(out@.subrange(0, after_g1.len() as int) =~= before.subrange(
                    0,
                    after_g1.len() as int,
                ));
                assert(out@.subrange(0, 8) =~= before.subrange(0, 8));
                assert forall|j: int| 0 <= j < k implies #[trigger] out@.subrange(
                    8 + 96 * nn + 192 * j,
                    8 + 96 * nn + 192 * j + 192,
                ) =~= before.subrange(8 + 96 * nn + 192 * j, 8 + 96 * nn + 192 * j + 192) by {
                    assert(8 + 96 * nn + 192 * j + 192 <= before.len()) by (nonlinear_arith)
                        requires j < k, before.len() == 8 + 96 * nn + 192 * k
                    ;
                }
                assert(out@.subrange(8 + 96 * nn + 192 * k, 8 + 96 * nn + 192 * k + 192)
                    =~= chunk@);
            }
            k += 1;
        }
        proof {
            assert(g2_views(self.Gamma_2@).take(n2 as int) =~= g2_views(self.Gamma_2@));
        }
        let ghost after_g2 = out@;
        let ghost tail_base: int = 8 + 288 * nn;
        let h1chunk = self.H_1.to_wide_bytes();
        append_bytes(&mut out, &h1chunk);
        let ghost after_h1 = out@;
        let h2chunk = self.H_2.to_wide_bytes();
        append_bytes(&mut out, &h2chunk);
        let ghost after_h2 = out@;
        let finchunk = self.Gamma_2_fin.to_wide_bytes();
        append_bytes(&mut out, &finchunk);
        proof {
            assert(out@ =~= spec_pp_bytes(*self));
            // the tail chunks sit at their fixed offsets
            assert(after_g2.len() == tail_base);
            assert(out@.len() == tail_base + 480);
            assert(out@.subrange(0, 8) =~= prefix);
            assert(out@.subrange(tail_base, tail_base + 96) =~= h1chunk@);
            assert(out@.subrange(tail_base + 96, tail_base + 288) =~= h2chunk@);
            assert(out@.subrange(tail_base + 288, tail_base + 480) =~= finchunk@);
            // the vector segments survive the tail appends
            assert forall|j: int| 0 <= j < nn implies #[trigger] out@.subrange(
                8 + 96 * j,
                8 + 96 * j + 96,
            ) =~= after_g1.subrange(8 + 96 * j, 8 + 96 * j + 96) by {
                assert(8 + 96 * j + 96 <= after_g1.len()) by (nonlinear_arith)
                    requires j < nn, after_g1.len() == 8 + 96 * nn
                ;
                assert(after_g2.subrange(0, after_g1.len() as int) =~= after_g1);
            }
            assert forall|j: int| 0 <= j < nn implies #[trigger] out@.subrange(
                8 + 96 * nn + 192 * j,
                8 + 96 * nn + 192 * j + 192,
            ) =~= after_g2.subrange(8 + 96 * nn + 192 * j, 8 + 96 * nn + 192 * j + 192) by {
                assert(8 + 96 * nn + 192 * j + 192 <= after_g2.len()) by (nonlinear_arith)
                    requires j < nn, after_g2.len() == 8 + 96 * nn + 192 * nn
                ;
            }
            assert(pp_parses(out@, *self));
        }
        out
    }

    /// The number of bytes the serialization takes.
    pub fn serialized_size(&self) -> (r: u64)
        requires
            self.max_nu <= 20,
        ensures
            r as nat == spec_pp_len(self.max_nu as nat),
    {
        let n64 = crate::polynomial::pow2_exec(self.max_nu);
        proof {
            if self.max_nu < 21 {
                vstd::arithmetic::power2::lemma_pow2_strictly_increases(self.max_nu as nat, 21);
            }
            vstd::arithmetic::power2::lemma2_to64();
            vstd::arithmetic::power2::lemma2_to64_rest();
        }
        8 + 288 * n64 + 480
    }

    /// Parses serialized parameters, validating every group element; the
    /// bytes of an accepted value are exactly its serialization.
    pub fn from_bytes(bytes: &Vec<u8>) -> (r: Result<PublicParameters, ProofError>)
        ensures
            match r {
                Ok(p) => pp_parses(bytes@, p),
                Err(_) => !pp_encoded(bytes@),
            },
    {
        let blen = bytes.len();
        if blen < 8 {
            proof {
                assert(!pp_encoded(bytes@)) by {
                    if pp_encoded(bytes@) {
                        let q = choose|q: PublicParameters| pp_parses(bytes@, q);
                        assert(bytes@.len() >= 8);
                    }
                }
            }
            return Err(ProofError::VerificationError);
        }
        let b0 = bytes[0] as u64;
        let b1 = bytes[1] as u64;
        let b2 = bytes[2] as u64;
        let b3 = bytes[3] as u64;
        let b4 = bytes[4] as u64;
        let b5 = bytes[5] as u64;
        let b6 = bytes[6] as u64;
        let b7 = bytes[7] as u64;
        let max_nu_u64 = b0 + b1 * 256 + b2 * 65536 + b3 * 16777216 + b4 * 4294967296
            + b5 * 1099511627776 + b6 * 281474976710656 + b7 * 72057594037927936;
        proof {
            lemma_le8(bytes@.subrange(0, 8));
        }
        assert(max_nu_u64 as nat == crate::scalar::le_bytes_to_nat(bytes@.subrange(0, 8)));
        if max_nu_u64 > 20 {
            proof {
                assert(!pp_encoded(bytes@)) by {
                    if pp_encoded(bytes@) {
                        let q = choose|q: PublicParameters| pp_parses(bytes@, q);
                        assert(q.max_nu == max_nu_u64 as nat);
                        assert(q.max_nu <= 20);
                    }
                }
            }
            return Err(ProofError::VerificationError);
        }
        let max_nu = max_nu_u64 as usize;
        let n64 = crate::polynomial::pow2_exec(max_nu);
        let n = n64 as usize;
        proof {
            if max_nu < 21 {
                vstd::arithmetic::power2::lemma_pow2_strictly_increases(max_nu as nat, 21);
            }
            vstd::arithmetic::power2::lemma2_to64();
            vstd::arithmetic::power2::lemma2_to64_rest();
        }
        let mut pos: usize = 8;
        let mut Gamma_1: Vec<G1> = Vec::new();
        let mut i1: usize = 0;
        while i1 < n
            invariant
                0 <= i1 <= n,
                n == vstd::arithmetic::power2::pow2(max_nu as nat),
                max_nu <= 20,
                blen == bytes@.len(),
                max_nu as nat == crate::scalar::le_bytes_to_nat(bytes@.subrange(0, 8)),
                pos == 8 + 96 * i1,
                Gamma_1@.len() == i1,
                forall|j: int| 0 <= j < i1 ==> (#[trigger] Gamma_1@[j]).wf(),
                forall|j: int| 0 <= j < i1 ==> g1_of_wide_bytes(
                    bytes@.subrange(8 + 96 * j, 8 + 96 * j + 96),
                ) == Some((#[trigger] Gamma_1@[j])@),
            decreases n - i1,
        {
            let chunk = match take_bytes(bytes, pos, 96) {
                Some(c) => c,
                None => {
                    proof {
                        assert(!pp_encoded(bytes@)) by {
                            if pp_encoded(bytes@) {
                                let q = choose|q: PublicParameters| pp_parses(bytes@, q);
                                assert(q.max_nu == max_nu as nat);
                                assert(96 * (i1 + 1) <= 96 * n) by (nonlinear_arith)
                                    requires i1 + 1 <= n
                                ;
                                assert(bytes@.len() >= 8 + 96 * i1 + 96);
                            }
                        }
                    }
                    return Err(ProofError::VerificationError);
                },
            };
            match G1::from_wide_bytes(chunk.0.as_slice()) {
                Some(p) => {
                    Gamma_1.push(p);
                },
                None => {
                    proof {
                        assert(!pp_encoded(bytes@)) by {
                            if pp_encoded(bytes@) {
                                let q = choose|q: PublicParameters| pp_parses(bytes@, q);
                                assert(q.max_nu == max_nu as nat);
                                assert(g1_of_wide_bytes(
                                    bytes@.subrange(8 + 96 * i1, 8 + 96 * i1 + 96),
                                ) == Some(q.Gamma_1@[i1 as int]@));
                            }
                        }
                    }
                    return Err(ProofError::VerificationError);
                },
            }
            pos = chunk.1;
            i1 += 1;
        }
        let ghost g2_base: int = 8 + 96 * n;
        let mut Gamma_2: Vec<G2> = Vec::new();
        let mut i2: usize = 0;
        while i2 < n
            invariant
                0 <= i2 <= n,
                n == vstd::arithmetic::power2::pow2(max_nu as nat),
                max_nu <= 20,
                blen == bytes@.len(),
                max_nu as nat == crate::scalar::le_bytes_to_nat(bytes@.subrange(0, 8)),
                g2_base == 8 + 96 * n,
                pos == g2_base + 192 * i2,
                Gamma_2@.len() == i2,
                forall|j: int| 0 <= j < i2 ==> (#[trigger] Gamma_2@[j]).wf(),
                forall|j: int| 0 <= j < i2 ==> g2_of_wide_bytes(
                    bytes@.subrange(g2_base + 192 * j, g2_base + 192 * j + 192),
                ) == Some((#[trigger] Gamma_2@[j])@),
            decreases n - i2,
        {
            let chunk = match take_bytes(bytes, pos, 192) {
                Some(c) => c,
                None => {
                    proof {
                        assert(!pp_encoded(bytes@)) by {
                            if pp_encoded(bytes@) {
                                let q = choose|q: PublicParameters| pp_parses(bytes@, q);
                                assert(q.max_nu == max_nu as nat);
                                assert(192 * (i2 + 1) <= 192 * n) by (nonlinear_arith)
                                    requires i2 + 1 <= n
                                ;
                                assert(bytes@.len() >= g2_base + 192 * i2 + 192);
                            }
                        }
                    }
                    return Err(ProofError::VerificationError);
                },
            };
            match G2::from_wide_bytes(chunk.0.as_slice()) {
                Some(p) => {
                    Gamma_2.push(p);
                },
                None => {
                    proof {
                        assert(!pp_encoded(bytes@)) by {
                            if pp_encoded(bytes@) {
                                let q = choose|q: PublicParameters| pp_parses(bytes@, q);
                                assert(q.max_nu == max_nu as nat);
                                assert(g2_of_wide_bytes(
                                    bytes@.subrange(g2_base + 192 * i2, g2_base + 192 * i2 + 192),
                                ) == Some(q.Gamma_2@[i2 as int]@));
                            }
                        }
                    }
                    return Err(ProofError::VerificationError);
                },
            }
            pos = chunk.1;
            i2 += 1;
        }
        let ghost tail_base: int = 8 + 288 * n;
        proof {
            assert(pos == tail_base);
        }
        let h1c = match take_bytes(bytes, pos, 96) {
            Some(c) => c,
            None => {
                proof {
                    assert(!pp_encoded(bytes@)) by {
                        if pp_encoded(bytes@) {
                            let q = choose|q: PublicParameters| pp_parses(bytes@, q);
                            assert(q.max_nu == max_nu as nat);
                        }
                    }
                }
                return Err(ProofError::VerificationError);
            },
        };
        let H_1 = match G1::from_wide_bytes(h1c.0.as_slice()) {
            Some(p) => p,
            None => {
                proof {
                    assert(!pp_encoded(bytes@)) by {
                        if pp_encoded(bytes@) {
                            let q = choose|q: PublicParameters| pp_parses(bytes@, q);
                            assert(q.max_nu == max_nu as nat);
                            assert(g1_of_wide_bytes(
                                bytes@.subrange(tail_base, tail_base + 96),
                            ) == Some(q.H_1@));
                        }
                    }
                }
                return Err(ProofError::VerificationError);
            },
        };
        let h2c = match take_bytes(bytes, h1c.1, 192) {
            Some(c) => c,
            None => {
                proof {
                    assert(!pp_encoded(bytes@)) by {
                        if pp_encoded(bytes@) {
                            let q = choose|q: PublicParameters| pp_parses(bytes@, q);
                            assert(q.max_nu == max_nu as nat);
                        }
                    }
                }
                return Err(ProofError::VerificationError);
            },
        };
        let H_2 = match G2::from_wide_bytes(h2c.0.as_slice()) {
            Some(p) => p,
            None => {
                proof {
                    assert(!pp_encoded(bytes@)) by {
                        if pp_encoded(bytes@) {
                            let q = choose|q: PublicParameters| pp_parses(bytes@, q);
                            assert(q.max_nu == max_nu as nat);
                            assert(g2_of_wide_bytes(
                                bytes@.subrange(tail_base + 96, tail_base + 288),
                            ) == Some(q.H_2@));
                        }
                    }
                }
                return Err(ProofError::VerificationError);
            },
        };
        let finc = match take_bytes(bytes, h2c.1, 192) {
            Some(c) => c,
            None => {
                proof {
                    assert(!pp_encoded(bytes@)) by {
                        if pp_encoded(bytes@) {
                            let q = choose|q: PublicParameters| pp_parses(bytes@, q);
                            assert(q.max_nu == max_nu as nat);
                        }
                    }
                }
                return Err(ProofError::VerificationError);
            },
        };
        let Gamma_2_fin = match G2::from_wide_bytes(finc.0.as_slice()) {
            Some(p) => p,
            None => {
                proof {
                    assert(!pp_encoded(bytes@)) by {
                        if pp_encoded(bytes@) {
                            let q = choose|q: PublicParameters| pp_parses(bytes@, q);
                            assert(q.max_nu == max_nu as nat);
                            assert(g2_of_wide_bytes(
                                bytes@.subrange(tail_base + 288, tail_base + 480),
                            ) == Some(q.Gamma_2_fin@));
                        }
                    }
                }
                return Err(ProofError::VerificationError);
            },
        };
        if finc.1 != blen {
            proof {
                assert(!pp_encoded(bytes@)) by {
                    if pp_encoded(bytes@) {
                        let q = choose|q: PublicParameters| pp_parses(bytes@, q);
                        assert(q.max_nu == max_nu as nat);
                        assert(bytes@.len() == spec_pp_len(max_nu as nat));
                    }
                }
            }
            return Err(ProofError::VerificationError);
        }
        let p = PublicParameters { Gamma_1, Gamma_2, H_1, H_2, Gamma_2_fin, max_nu };
        proof {
            assert(bytes@.len() == spec_pp_len(max_nu as nat));
            assert(pp_parses(bytes@, p));
        }
        Ok(p)
    }

    /// Checks the parameters' shape: the generator vectors must have
    /// length 2^max_nu.
    /// Whether the generator vectors have the length the exponent
    /// demands: the shape every constructor of this library establishes.
    pub fn has_expected_shape(&self) -> (r: bool)
        ensures
            r == (self.max_nu <= 20 && self.Gamma_1@.len() == vstd::arithmetic::power2::pow2(
                self.max_nu as nat,
            ) && self.Gamma_2@.len() == vstd::arithmetic::power2::pow2(self.max_nu as nat)),
    {
        if self.max_nu > 20 {
            return false;
        }
        let n64 = crate::polynomial::pow2_exec(self.max_nu);
        proof {
            if self.max_nu < 21 {
                vstd::arithmetic::power2::lemma_pow2_strictly_increases(self.max_nu as nat, 21);
            }
            vstd::arithmetic::power2::lemma2_to64();
            vstd::arithmetic::power2::lemma2_to64_rest();
        }
        self.Gamma_1.len() as u64 == n64 && self.Gamma_2.len() as u64 == n64
    }

    /// Validates every group element of the parameters: the generator
    /// vectors and the three extra generators. Elements this library
    /// constructs always validate, so the check never errs on them.
    pub fn check(&self) -> (r: Result<(), ProofError>)
        ensures
            r is Ok,
    {
        let mut i: usize = 0;
        while i < self.Gamma_1.len()
            invariant
                0 <= i <= self.Gamma_1@.len(),
            decreases self.Gamma_1@.len() - i,
        {
            if !self.Gamma_1[i].validate() {
                return Err(ProofError::VerificationError);
            }
            i += 1;
        }
        let mut k: usize = 0;
        while k < self.Gamma_2.len()
            invariant
                0 <= k <= self.Gamma_2@.len(),
            decreases self.Gamma_2@.len() - k,
        {
            if !self.Gamma_2[k].validate() {
                return Err(ProofError::VerificationError);
            }
            k += 1;
        }
        if self.H_1.validate() && self.H_2.validate() && self.Gamma_2_fin.validate() {
            Ok(())
        } else {
            Err(ProofError::VerificationError)
        }
    }

}

/// Copies a byte window out of the buffer, returning it with the
/// position after it; rejects when the window overruns the buffer.
fn take_bytes(bytes: &Vec<u8>, pos: usize, len: usize) -> (r: Option<(Vec<u8>, usize)>)
    ensures
        match r {
            Some(c) => {
                &&& pos + len <= bytes@.len()
                &&& c.0@ == bytes@.subrange(pos as int, pos + len)
                &&& c.1 == pos + len
            },
            None => pos + len > bytes@.len(),
        },
{
    let blen = bytes.len();
    if pos > blen || len > blen - pos {
        return None;
    }
    let mut out: Vec<u8> = Vec::new();
    let mut i: usize = 0;
    while i < len
        invariant
            0 <= i <= len,
            pos + len <= bytes@.len(),
            bytes@.len() <= usize::MAX,
            out@ =~= bytes@.subrange(pos as int, pos + i),
        decreases len - i,
    {
        out.push(bytes[pos + i]);
        proof {
            assert(bytes@.subrange(pos as int, pos + i + 1) =~= bytes@.subrange(
                pos as int,
                pos + i,
            ).push(bytes@[pos + i]));
        }
        i += 1;
    }
    Some((out, pos + len))
}

/// Appends all bytes of the second vector to the first.
fn append_bytes(out: &mut Vec<u8>, more: &Vec<u8>)
    ensures
        final(out)@ == old(out)@ + more@,
{
    let n = more.len();
    let mut i: usize = 0;
    while i < n
        invariant
            0 <= i <= n,
            n == more@.len(),
            out@ =~= old(out)@ + more@.take(i as int),
        decreases n - i,
    {
        out.push(more[i]);
        proof {
            assert(more@.take(i + 1) =~= more@.take(i as int).push(more@[i as int]));
        }
        i += 1;
    }
    proof {
        assert(more@.take(n as int) =~= more@);
        assert(out@ =~= old(out)@ + more@);
    }
}

/// The discrete-logarithm views of a G1 vector.
pub open spec fn g1_views(s: Seq<G1>) -> Seq<nat> {
    s.map_values(|g: G1| g@)
}

/// The discrete-logarithm views of a G2 vector.
pub open spec fn g2_views(s: Seq<G2>) -> Seq<nat> {
    s.map_values(|g: G2| g@)
}

/// The concatenated uncompressed encodings of a G1 vector.
pub open spec fn g1s_wide_bytes(s: Seq<nat>) -> Seq<u8>
    decreases s.len(),
{
    if s.len() == 0 {
        Seq::<u8>::empty()
    } else {
        g1s_wide_bytes(s.drop_last()) + g1_wide_bytes_of(s.last())
    }
}

/// The concatenated uncompressed encodings of a G2 vector.
pub open spec fn g2s_wide_bytes(s: Seq<nat>) -> Seq<u8>
    decreases s.len(),
{
    if s.len() == 0 {
        Seq::<u8>::empty()
    } else {
        g2s_wide_bytes(s.drop_last()) + g2_wide_bytes_of(s.last())
    }
}

proof fn lemma_g1s_wide_last(s: Seq<nat>)
    requires
        s.len() > 0,
    ensures
        g1s_wide_bytes(s) == g1s_wide_bytes(s.drop_last()) + g1_wide_bytes_of(s.last()),
{
}

proof fn lemma_g2s_wide_last(s: Seq<nat>)
    requires
        s.len() > 0,
    ensures
        g2s_wide_bytes(s) == g2s_wide_bytes(s.drop_last()) + g2_wide_bytes_of(s.last()),
{
}

/// The byte length of a serialization with the given exponent: the
/// eight-byte prefix, both generator vectors, and the three extra
/// generators at their fixed widths.
pub open spec fn spec_pp_len(max_nu: nat) -> nat {
    8 + 288 * vstd::arithmetic::power2::pow2(max_nu) + 480
}

/// The bytes parse as the given well-formed parameters: the prefix
/// decodes to the exponent and every fixed-width segment decodes to the
/// matching element.
pub open spec fn pp_parses(bytes: Seq<u8>, p: PublicParameters) -> bool {
    let n = vstd::arithmetic::power2::pow2(p.max_nu as nat) as int;
    &&& p.wf()
    &&& bytes.len() == spec_pp_len(p.max_nu as nat)
    &&& crate::scalar::le_bytes_to_nat(bytes.subrange(0, 8)) == p.max_nu
    &&& forall|i: int| 0 <= i < n ==> g1_of_wide_bytes(
        bytes.subrange(8 + 96 * i, 8 + 96 * i + 96),
    ) == Some((#[trigger] p.Gamma_1@[i])@)
    &&& forall|i: int| 0 <= i < n ==> g2_of_wide_bytes(
        bytes.subrange(8 + 96 * n + 192 * i, 8 + 96 * n + 192 * i + 192),
    ) == Some((#[trigger] p.Gamma_2@[i])@)
    &&& g1_of_wide_bytes(bytes.subrange(8 + 288 * n, 8 + 288 * n + 96)) == Some(p.H_1@)
    &&& g2_of_wide_bytes(bytes.subrange(8 + 288 * n + 96, 8 + 288 * n + 288)) == Some(p.H_2@)
    &&& g2_of_wide_bytes(bytes.subrange(8 + 288 * n + 288, 8 + 288 * n + 480)) == Some(
        p.Gamma_2_fin@,
    )
}

/// Some well-formed parameters parse from the bytes.
pub open spec fn pp_encoded(bytes: Seq<u8>) -> bool {
    exists|q: PublicParameters| pp_parses(bytes, q)
}

/// An eight-byte little-endian prefix decodes as the base-256 digit sum.
proof fn lemma_le8(s: Seq<u8>)
    requires
        s.len() == 8,
    ensures
        crate::scalar::le_bytes_to_nat(s) == s[0] + s[1] * 256 + s[2] * 65536 + s[3] * 16777216
            + s[4] * 4294967296 + s[5] * 1099511627776 + s[6] * 281474976710656 + s[7]
            * 72057594037927936,
{
    assert(crate::scalar::pow_nat(256, 0) == 1);
    assert(crate::scalar::pow_nat(256, 1) == 256);
    assert(crate::scalar::pow_nat(256, 2) == 65536);
    assert(crate::scalar::pow_nat(256, 3) == 16777216);
    assert(crate::scalar::pow_nat(256, 4) == 4294967296);
    assert(crate::scalar::pow_nat(256, 5) == 1099511627776);
    assert(crate::scalar::pow_nat(256, 6) == 281474976710656);
    assert(crate::scalar::pow_nat(256, 7) == 72057594037927936);
    let s7 = s.drop_last();
    let s6 = s7.drop_last();
    let s5 = s6.drop_last();
    let s4 = s5.drop_last();
    let s3 = s4.drop_last();
    let s2 = s3.drop_last();
    let s1 = s2.drop_last();
    let s0 = s1.drop_last();
    assert(s0.len() == 0);
    assert(crate::scalar::le_bytes_to_nat(s0) == 0);
    assert(s1.len() == 1 && s1[0] == s[0] && s1.last() == s[0]);
    assert(s2.len() == 2 && s2[0] == s[0] && s2[1] == s[1] && s2.last() == s[1]);
    assert(s3.len() == 3 && s3.last() == s[2]);
    assert(s4.len() == 4 && s4.last() == s[3]);
    assert(s5.len() == 5 && s5.last() == s[4]);
    assert(s6.len() == 6 && s6.last() == s[5]);
    assert(s7.len() == 7 && s7.last() == s[6]);
    assert(crate::scalar::le_bytes_to_nat(s1) == s[0]);
    assert(crate::scalar::le_bytes_to_nat(s2) == s[0] + s[1] * 256);
    assert(crate::scalar::le_bytes_to_nat(s3) == s[0] + s[1] * 256 + s[2] * 65536);
    assert(crate::scalar::le_bytes_to_nat(s4) == s[0] + s[1] * 256 + s[2] * 65536 + s[3]
        * 16777216);
    assert(crate::scalar::le_bytes_to_nat(s5) == s[0] + s[1] * 256 + s[2] * 65536 + s[3]
        * 16777216 + s[4] * 4294967296);
    assert(crate::scalar::le_bytes_to_nat(s6) == s[0] + s[1] * 256 + s[2] * 65536 + s[3]
        * 16777216 + s[4] * 4294967296 + s[5] * 1099511627776);
    assert(crate::scalar::le_bytes_to_nat(s7) == s[0] + s[1] * 256 + s[2] * 65536 + s[3]
        * 16777216 + s[4] * 4294967296 + s[5] * 1099511627776 + s[6] * 281474976710656);
}

/// The serialized form of public parameters: the exponent, both
/// generator vectors, and the three extra generators.
pub open spec fn spec_pp_bytes(p: PublicParameters) -> Seq<u8> {
    crate::transcript::u64_le_seq(p.max_nu as u64) + g1s_wide_bytes(g1_views(p.Gamma_1@))
        + g2s_wide_bytes(g2_views(p.Gamma_2@)) + g1_wide_bytes_of(p.H_1@) + g2_wide_bytes_of(
        p.H_2@,
    ) + g2_wide_bytes_of(p.Gamma_2_fin@)
}


/// The prover's precomputed setup: the largest supported exponent and a
/// digest element binding the parameters into the transcript.
pub struct ProverSetup {
    pub max_nu: usize,
    pub delta: GT,
}

impl ProverSetup {
    /// Derives the setup from public parameters: the digest pairs the
    /// leading generators.
    pub fn new(pp: &PublicParameters) -> (r: ProverSetup)
        requires
            pp.wf(),
        ensures
            r.max_nu == pp.max_nu,
            r.delta.wf(),
    {
        proof {
            vstd::arithmetic::power2::lemma_pow2_pos(pp.max_nu as nat);
        }
        ProverSetup { max_nu: pp.max_nu, delta: pairing(&pp.Gamma_1[0], &pp.Gamma_2[0]) }
    }
}

/// The verifier's precomputed setup: the mirror of the prover's.
pub struct VerifierSetup {
    pub max_nu: usize,
    pub delta: GT,
}

impl VerifierSetup {
    /// Derives the setup from public parameters.
    pub fn new(pp: &PublicParameters) -> (r: VerifierSetup)
        requires
            pp.wf(),
        ensures
            r.max_nu == pp.max_nu,
            r.delta.wf(),
    {
        proof {
            vstd::arithmetic::power2::lemma_pow2_pos(pp.max_nu as nat);
        }
        VerifierSetup { max_nu: pp.max_nu, delta: pairing(&pp.Gamma_1[0], &pp.Gamma_2[0]) }
    }
}

/// The message queues of one argument: the prover pushes messages in
/// protocol order and the verifier consumes them from the front; extra or
/// missing messages make verification fail.
pub struct DoryMessages {
    pub G1_messages: Vec<G1>,
    pub G2_messages: Vec<G2>,
    pub GT_messages: Vec<GT>,
}

impl DoryMessages {
    /// All queued elements are canonical.
    pub open spec fn wf(&self) -> bool {
        &&& forall|i: int| 0 <= i < self.G1_messages@.len() ==> (
        #[trigger] self.G1_messages@[i]).wf()
        &&& forall|i: int| 0 <= i < self.G2_messages@.len() ==> (
        #[trigger] self.G2_messages@[i]).wf()
        &&& forall|i: int| 0 <= i < self.GT_messages@.len() ==> (
        #[trigger] self.GT_messages@[i]).wf()
    }
}

impl Default for DoryMessages {
    /// Empty queues.
    fn default() -> (r: DoryMessages)
        ensures
            r.G1_messages@.len() == 0,
            r.G2_messages@.len() == 0,
            r.GT_messages@.len() == 0,
            r.wf(),
    {
        DoryMessages { G1_messages: Vec::new(), G2_messages: Vec::new(), GT_messages: Vec::new() }
    }
}

/// The prover's state of the extended argument: the two committed
/// vectors, the evaluation tensors, and their expansions.
pub struct ExtendedProverState {
    pub v1: Vec<G1>,
    pub v2: Vec<G2>,
    pub s1_tensor: Vec<F>,
    pub s2_tensor: Vec<F>,
    pub s1: Vec<F>,
    pub s2: Vec<F>,
    pub nu: usize,
}

/// The base state the verifier tracks: the claimed pairing commitment and
/// the exponent.
pub struct VerifierState {
    pub C: GT,
    pub nu: usize,
}

/// The verifier's state of the extended argument: the base state, the
/// claimed evaluation elements, the tensors, and the challenges drawn so
/// far.
pub struct ExtendedVerifierState {
    pub base_state: VerifierState,
    pub E_1: G1,
    pub E_2: G2,
    pub s1_tensor: Vec<F>,
    pub s2_tensor: Vec<F>,
    pub challenges: Vec<F>,
}

/// Expands an evaluation tensor of length nu into the vector of its
/// 2^nu products: entry i multiplies the tensor elements at the set bits
/// of i.
pub fn expand_tensor(t: &Vec<F>) -> (r: Vec<F>)
    requires
        t@.len() <= 20,
        forall|i: int| 0 <= i < t@.len() ==> (#[trigger] t@[i]).wf(),
    ensures
        r@.len() == vstd::arithmetic::power2::pow2(t@.len() as nat),
        forall|i: int| 0 <= i < r@.len() ==> (#[trigger] r@[i]).wf(),
{
    let mut out: Vec<F> = Vec::new();
    out.push(F::from_u64(1));
    let n = t.len();
    let mut level: usize = 0;
    proof {
        vstd::arithmetic::power2::lemma2_to64();
    }
    while level < n
        invariant
            0 <= level <= n <= 20,
            n == t@.len(),
            forall|i: int| 0 <= i < n ==> (#[trigger] t@[i]).wf(),
            out@.len() == vstd::arithmetic::power2::pow2(level as nat),
            forall|i: int| 0 <= i < out@.len() ==> (#[trigger] out@[i]).wf(),
        decreases n - level,
    {
        proof {
            vstd::arithmetic::power2::lemma_pow2_unfold((level + 1) as nat);
            if level + 1 < 21 {
                vstd::arithmetic::power2::lemma_pow2_strictly_increases((level + 1) as nat, 21);
            }
            vstd::arithmetic::power2::lemma2_to64();
            vstd::arithmetic::power2::lemma2_to64_rest();
        }
        let m = out.len();
        let mut next: Vec<F> = Vec::new();
        let mut i: usize = 0;
        while i < m
            invariant
                0 <= i <= m,
                m == out@.len(),
                level < n == t@.len(),
                forall|j: int| 0 <= j < n ==> (#[trigger] t@[j]).wf(),
                forall|j: int| 0 <= j < m ==> (#[trigger] out@[j]).wf(),
                next@.len() == i,
                forall|j: int| 0 <= j < i ==> (#[trigger] next@[j]).wf(),
            decreases m - i,
        {
            next.push(out[i]);
            i += 1;
        }
        let mut k: usize = 0;
        while k < m
            invariant
                0 <= k <= m,
                m == out@.len(),
                level < n == t@.len(),
                forall|j: int| 0 <= j < n ==> (#[trigger] t@[j]).wf(),
                forall|j: int| 0 <= j < m ==> (#[trigger] out@[j]).wf(),
                next@.len() == m + k,
                forall|j: int| 0 <= j < m + k ==> (#[trigger] next@[j]).wf(),
            decreases m - k,
        {
            next.push(out[k].mul(&t[level]));
            k += 1;
        }
        out = next;
        level += 1;
    }
    out
}

impl ExtendedProverState {
    /// The vectors have length 2^nu, the tensors length nu, and every
    /// element is canonical.
    pub open spec fn wf(&self) -> bool {
        &&& self.nu <= 20
        &&& self.v1@.len() == vstd::arithmetic::power2::pow2(self.nu as nat)
        &&& self.v2@.len() == vstd::arithmetic::power2::pow2(self.nu as nat)
        &&& self.s1@.len() == vstd::arithmetic::power2::pow2(self.nu as nat)
        &&& self.s2@.len() == vstd::arithmetic::power2::pow2(self.nu as nat)
        &&& self.s1_tensor@.len() == self.nu
        &&& self.s2_tensor@.len() == self.nu
        &&& forall|i: int| 0 <= i < self.v1@.len() ==> (#[trigger] self.v1@[i]).wf()
        &&& forall|i: int| 0 <= i < self.v2@.len() ==> (#[trigger] self.v2@[i]).wf()
        &&& forall|i: int| 0 <= i < self.s1@.len() ==> (#[trigger] self.s1@[i]).wf()
        &&& forall|i: int| 0 <= i < self.s2@.len() ==> (#[trigger] self.s2@[i]).wf()
        &&& forall|i: int| 0 <= i < self.s1_tensor@.len() ==> (
        #[trigger] self.s1_tensor@[i]).wf()
        &&& forall|i: int| 0 <= i < self.s2_tensor@.len() ==> (
        #[trigger] self.s2_tensor@[i]).wf()
    }

    /// Builds the prover state from the evaluation tensors and the
    /// committed vectors.
    pub fn new_from_tensors(
        s1_tensor: Vec<F>,
        s2_tensor: Vec<F>,
        v1: Vec<G1>,
        v2: Vec<G2>,
        nu: usize,
    ) -> (r: ExtendedProverState)
        requires
            nu <= 20,
            s1_tensor@.len() == nu,
            s2_tensor@.len() == nu,
            v1@.len() == vstd::arithmetic::power2::pow2(nu as nat),
            v2@.len() == vstd::arithmetic::power2::pow2(nu as nat),
            forall|i: int| 0 <= i < v1@.len() ==> (#[trigger] v1@[i]).wf(),
            forall|i: int| 0 <= i < v2@.len() ==> (#[trigger] v2@[i]).wf(),
            forall|i: int| 0 <= i < s1_tensor@.len() ==> (#[trigger] s1_tensor@[i]).wf(),
            forall|i: int| 0 <= i < s2_tensor@.len() ==> (#[trigger] s2_tensor@[i]).wf(),
        ensures
            r.wf(),
            r.nu == nu,
    {
        let s1 = expand_tensor(&s1_tensor);
        let s2 = expand_tensor(&s2_tensor);
        ExtendedProverState { v1, v2, s1_tensor, s2_tensor, s1, s2, nu }
    }

    /// Computes the verifier's view of this state: the pairing commitment
    /// of the two vectors and the two claimed evaluation elements.
    pub fn calculate_verifier_state(&self, _setup: &ProverSetup) -> (r: ExtendedVerifierState)
        requires
            self.wf(),
        ensures
            r.base_state.nu == self.nu,
            r.base_state.C.wf(),
            r.base_state.C@ == pairing_sum(g1_views(self.v1@), g2_views(self.v2@)),
            r.E_1.wf(),
            r.E_1@ == scaled_sum(f_views(self.s2@), g1_views(self.v1@)),
            r.E_2.wf(),
            r.E_2@ == scaled_sum(f_views(self.s1@), g2_views(self.v2@)),
            r.s1_tensor@.len() == self.nu,
            r.s2_tensor@.len() == self.nu,
            r.challenges@.len() == 0,
            forall|i: int| 0 <= i < r.s1_tensor@.len() ==> (#[trigger] r.s1_tensor@[i]).wf(),
            forall|i: int| 0 <= i < r.s2_tensor@.len() ==> (#[trigger] r.s2_tensor@[i]).wf(),
    {
        let n = self.v1.len();
        let c = multi_pairing_seg(&self.v1, &self.v2, 0, 0, n);
        let e1 = msm_g1_seg(&self.s2, &self.v1, 0, 0, n);
        let e2 = msm_g2_seg(&self.s1, &self.v2, 0, 0, n);
        proof {
            assert(g1_views(self.v1@).subrange(0, n as int) =~= g1_views(self.v1@));
            assert(g2_views(self.v2@).subrange(0, n as int) =~= g2_views(self.v2@));
            assert(f_views(self.s1@).subrange(0, n as int) =~= f_views(self.s1@));
            assert(f_views(self.s2@).subrange(0, n as int) =~= f_views(self.s2@));
        }
        let mut s1t: Vec<F> = Vec::new();
        let mut i: usize = 0;
        let tn = self.s1_tensor.len();
        while i < tn
            invariant
                0 <= i <= tn,
                tn == self.s1_tensor@.len(),
                forall|j: int| 0 <= j < tn ==> (#[trigger] self.s1_tensor@[j]).wf(),
                s1t@.len() == i,
                forall|j: int| 0 <= j < i ==> (#[trigger] s1t@[j]).wf(),
            decreases tn - i,
        {
            s1t.push(self.s1_tensor[i]);
            i += 1;
        }
        let mut s2t: Vec<F> = Vec::new();
        let mut k: usize = 0;
        while k < tn
            invariant
                0 <= k <= tn,
                tn == self.s2_tensor@.len() == self.s1_tensor@.len(),
                forall|j: int| 0 <= j < tn ==> (#[trigger] self.s2_tensor@[j]).wf(),
                s2t@.len() == k,
                forall|j: int| 0 <= j < k ==> (#[trigger] s2t@[j]).wf(),
            decreases tn - k,
        {
            s2t.push(self.s2_tensor[k]);
            k += 1;
        }
        ExtendedVerifierState {
            base_state: VerifierState { C: c, nu: self.nu },
            E_1: e1,
            E_2: e2,
            s1_tensor: s1t,
            s2_tensor: s2t,
            challenges: Vec::new(),
        }
    }
}

/// The target-group sum of pairings of matching entries, over the
/// discrete-logarithm models: the sum of the products.
pub open spec fn pairing_sum(a: Seq<nat>, b: Seq<nat>) -> int
    decreases a.len(),
{
    if a.len() == 0 {
        0
    } else {
        dmod((a[0] * b[0]) as int + pairing_sum(a.drop_first(), b.drop_first()))
    }
}

/// The multi-scalar product of scalars against group elements, over the
/// discrete-logarithm models.
pub open spec fn scaled_sum(s: Seq<nat>, v: Seq<nat>) -> int
    decreases s.len(),
{
    if s.len() == 0 {
        0
    } else {
        dmod((v[0] * s[0]) as int + scaled_sum(s.drop_first(), v.drop_first()))
    }
}

/// The residue views of a scalar vector.
pub open spec fn f_views(s: Seq<F>) -> Seq<nat> {
    s.map_values(|x: F| x@)
}

/// The sum of pairings of matching segments of the two vectors.
pub fn multi_pairing_seg(v1: &Vec<G1>, v2: &Vec<G2>, s1: usize, s2: usize, n: usize) -> (r: GT)
    requires
        s1 + n <= v1@.len(),
        s2 + n <= v2@.len(),
        forall|i: int| 0 <= i < v1@.len() ==> (#[trigger] v1@[i]).wf(),
        forall|i: int| 0 <= i < v2@.len() ==> (#[trigger] v2@[i]).wf(),
    ensures
        r.wf(),
        r@ == pairing_sum(
            g1_views(v1@).subrange(s1 as int, s1 + n),
            g2_views(v2@).subrange(s2 as int, s2 + n),
        ),
    decreases n,
{
    // reading the lengths pins them to the machine's word size
    let _len1 = v1.len();
    let _len2 = v2.len();
    if n == 0 {
        let r = GT::identity();
        proof {
            assert(g1_views(v1@).subrange(s1 as int, s1 as int).len() == 0);
        }
        r
    } else {
        let head = pairing(&v1[s1], &v2[s2]);
        let rest = multi_pairing_seg(v1, v2, s1 + 1, s2 + 1, n - 1);
        let r = head.add(&rest);
        proof {
            let ga = g1_views(v1@).subrange(s1 as int, s1 + n);
            let gb = g2_views(v2@).subrange(s2 as int, s2 + n);
            assert(ga.drop_first() =~= g1_views(v1@).subrange(s1 + 1, s1 + n));
            assert(gb.drop_first() =~= g2_views(v2@).subrange(s2 + 1, s2 + n));
            assert(ga[0] == v1@[s1 as int]@ && gb[0] == v2@[s2 as int]@);
            let ord = dory_order() as int;
            let p = (v1@[s1 as int]@ * v2@[s2 as int]@) as int;
            let q = pairing_sum(ga.drop_first(), gb.drop_first());
            vstd::arithmetic::div_mod::lemma_add_mod_noop(p, q, ord);
            vstd::arithmetic::div_mod::lemma_mod_twice(p, ord);
            vstd::arithmetic::div_mod::lemma_mod_twice(q, ord);
            assert(r@ == dmod((head@ + rest@) as int));
            assert(head@ == dmod(p) && rest@ == dmod(q));
            assert(dmod(dmod(p) + dmod(q)) == dmod(p + q));
        }
        r
    }
}

/// The multi-scalar product of a scalar segment against a G1 segment.
pub fn msm_g1_seg(s: &Vec<F>, v: &Vec<G1>, ss: usize, vs: usize, n: usize) -> (r: G1)
    requires
        ss + n <= s@.len(),
        vs + n <= v@.len(),
        forall|i: int| 0 <= i < s@.len() ==> (#[trigger] s@[i]).wf(),
        forall|i: int| 0 <= i < v@.len() ==> (#[trigger] v@[i]).wf(),
    ensures
        r.wf(),
        r@ == scaled_sum(
            f_views(s@).subrange(ss as int, ss + n),
            g1_views(v@).subrange(vs as int, vs + n),
        ),
    decreases n,
{
    // reading the lengths pins them to the machine's word size
    let _len1 = s.len();
    let _len2 = v.len();
    if n == 0 {
        let r = G1::identity();
        proof {
            assert(f_views(s@).subrange(ss as int, ss as int).len() == 0);
        }
        r
    } else {
        let head = v[vs].scale(&s[ss]);
        let rest = msm_g1_seg(s, v, ss + 1, vs + 1, n - 1);
        let r = head.add(&rest);
        proof {
            let fa = f_views(s@).subrange(ss as int, ss + n);
            let gv = g1_views(v@).subrange(vs as int, vs + n);
            assert(fa.drop_first() =~= f_views(s@).subrange(ss + 1, ss + n));
            assert(gv.drop_first() =~= g1_views(v@).subrange(vs + 1, vs + n));
            assert(fa[0] == s@[ss as int]@ && gv[0] == v@[vs as int]@);
            let ord = dory_order() as int;
            let p = (v@[vs as int]@ * s@[ss as int]@) as int;
            let q = scaled_sum(fa.drop_first(), gv.drop_first());
            vstd::arithmetic::div_mod::lemma_add_mod_noop(p, q, ord);
            vstd::arithmetic::div_mod::lemma_mod_twice(p, ord);
            vstd::arithmetic::div_mod::lemma_mod_twice(q, ord);
            assert(r@ == dmod((head@ + rest@) as int));
            assert(head@ == dmod(p) && rest@ == dmod(q));
            assert(dmod(dmod(p) + dmod(q)) == dmod(p + q));
        }
        r
    }
}

/// The multi-scalar product of a scalar segment against a G2 segment.
pub fn msm_g2_seg(s: &Vec<F>, v: &Vec<G2>, ss: usize, vs: usize, n: usize) -> (r: G2)
    requires
        ss + n <= s@.len(),
        vs + n <= v@.len(),
        forall|i: int| 0 <= i < s@.len() ==> (#[trigger] s@[i]).wf(),
        forall|i: int| 0 <= i < v@.len() ==> (#[trigger] v@[i]).wf(),
    ensures
        r.wf(),
        r@ == scaled_sum(
            f_views(s@).subrange(ss as int, ss + n),
            g2_views(v@).subrange(vs as int, vs + n),
        ),
    decreases n,
{
    // reading the lengths pins them to the machine's word size
    let _len1 = s.len();
    let _len2 = v.len();
    if n == 0 {
        let r = G2::identity();
        proof {
            assert(f_views(s@).subrange(ss as int, ss as int).len() == 0);
        }
        r
    } else {
        let head = v[vs].scale(&s[ss]);
        let rest = msm_g2_seg(s, v, ss + 1, vs + 1, n - 1);
        let r = head.add(&rest);
        proof {
            let fa = f_views(s@).subrange(ss as int, ss + n);
            let gv = g2_views(v@).subrange(vs as int, vs + n);
            assert(fa.drop_first() =~= f_views(s@).subrange(ss + 1, ss + n));
            assert(gv.drop_first() =~= g2_views(v@).subrange(vs + 1, vs + n));
            assert(fa[0] == s@[ss as int]@ && gv[0] == v@[vs as int]@);
            let ord = dory_order() as int;
            let p = (v@[vs as int]@ * s@[ss as int]@) as int;
            let q = scaled_sum(fa.drop_first(), gv.drop_first());
            vstd::arithmetic::div_mod::lemma_add_mod_noop(p, q, ord);
            vstd::arithmetic::div_mod::lemma_mod_twice(p, ord);
            vstd::arithmetic::div_mod::lemma_mod_twice(q, ord);
            assert(r@ == dmod((head@ + rest@) as int));
            assert(head@ == dmod(p) && rest@ == dmod(q));
            assert(dmod(dmod(p) + dmod(q)) == dmod(p + q));
        }
        r
    }
}



/// The label of a target-group message: the ASCII bytes of dory.gt.
pub open spec fn gt_label_spec() -> Seq<u8> {
    seq![100u8, 111u8, 114u8, 121u8, 46u8, 103u8, 116u8]
}

/// The label of a first-group message: the ASCII bytes of dory.g1.
pub open spec fn g1_label_spec() -> Seq<u8> {
    seq![100u8, 111u8, 114u8, 121u8, 46u8, 103u8, 49u8]
}

/// The label of a second-group message: the ASCII bytes of dory.g2.
pub open spec fn g2_label_spec() -> Seq<u8> {
    seq![100u8, 111u8, 114u8, 121u8, 46u8, 103u8, 50u8]
}

/// The label of a round challenge: the ASCII bytes of dory.challenge.
pub open spec fn challenge_label_spec() -> Seq<u8> {
    seq![
        100u8,
        111u8,
        114u8,
        121u8,
        46u8,
        99u8,
        104u8,
        97u8,
        108u8,
        108u8,
        101u8,
        110u8,
        103u8,
        101u8,
    ]
}

/// The label of the setup digest: the ASCII bytes of dory.setup.
pub open spec fn setup_label_spec() -> Seq<u8> {
    seq![100u8, 111u8, 114u8, 121u8, 46u8, 115u8, 101u8, 116u8, 117u8, 112u8]
}

/// Relies on the byte-string literal holding exactly the stated ASCII
/// bytes: the target-group message label.
#[verifier::external_body]
fn gt_label() -> (r: &'static [u8])
    ensures
        r@ == gt_label_spec(),
{
    b"dory.gt"
}

/// Relies on the byte-string literal holding exactly the stated ASCII
/// bytes: the first-group message label.
#[verifier::external_body]
fn g1_label() -> (r: &'static [u8])
    ensures
        r@ == g1_label_spec(),
{
    b"dory.g1"
}

/// Relies on the byte-string literal holding exactly the stated ASCII
/// bytes: the second-group message label.
#[verifier::external_body]
fn g2_label() -> (r: &'static [u8])
    ensures
        r@ == g2_label_spec(),
{
    b"dory.g2"
}

/// Relies on the byte-string literal holding exactly the stated ASCII
/// bytes: the round challenge label.
#[verifier::external_body]
fn challenge_label() -> (r: &'static [u8])
    ensures
        r@ == challenge_label_spec(),
{
    b"dory.challenge"
}

/// Relies on the byte-string literal holding exactly the stated ASCII
/// bytes: the setup digest label.
#[verifier::external_body]
fn setup_label() -> (r: &'static [u8])
    ensures
        r@ == setup_label_spec(),
{
    b"dory.setup"
}

/// The modular inverse of a residue: zero for zero, otherwise the unique
/// canonical residue whose product with the value is one.
pub open spec fn dinv(v: nat) -> nat {
    if v == 0 {
        0
    } else if exists|w: nat| w < dory_order() && #[trigger] dmod((v * w) as int) == 1 {
        choose|w: nat| w < dory_order() && #[trigger] dmod((v * w) as int) == 1
    } else {
        0
    }
}

/// Inverses are unique: any canonical residue whose product with v is
/// one equals dinv(v).
pub proof fn lemma_dinv_unique(v: nat, w: nat)
    requires
        v < dory_order(),
        w < dory_order(),
        dmod((v * w) as int) == 1,
    ensures
        w == dinv(v),
{
    let ord = dory_order() as int;
    if v == 0 {
        assert(v * w == 0);
        vstd::arithmetic::div_mod::lemma_small_mod(0nat, dory_order());
        assert(false);
    } else {
        assert(exists|u: nat| u < dory_order() && #[trigger] dmod((v * u) as int) == 1);
        let u = choose|u: nat| u < dory_order() && #[trigger] dmod((v * u) as int) == 1;
        // w == w * (v * u) == (w * v) * u == u modulo the order
        vstd::arithmetic::div_mod::lemma_mul_mod_noop(w as int, (v * u) as int, ord);
        vstd::arithmetic::div_mod::lemma_small_mod(w, dory_order());
        vstd::arithmetic::div_mod::lemma_mod_twice((v * u) as int, ord);
        assert(dmod((w * (v * u)) as int) == dmod(w as int * 1));
        vstd::arithmetic::div_mod::lemma_small_mod(w, dory_order());
        assert(w * (v * u) == (v * w) * u) by (nonlinear_arith);
        vstd::arithmetic::div_mod::lemma_mul_mod_noop((v * w) as int, u as int, ord);
        vstd::arithmetic::div_mod::lemma_small_mod(u, dory_order());
        vstd::arithmetic::div_mod::lemma_mod_twice((v * w) as int, ord);
        assert(dmod(((v * w) * u) as int) == dmod(1 * u as int));
        assert(dmod((w * (v * u)) as int) == dmod(((v * w) * u) as int));
        assert(w == u);
    }
}

/// Sends a target-group message: pushed onto its queue and absorbed into
/// the transcript.
fn prover_send_gt(messages: &mut DoryMessages, transcript: &mut Transcript, m: GT)
    requires
        m.wf(),
        old(messages).wf(),
    ensures
        final(messages).GT_messages@ == old(messages).GT_messages@.push(m),
        final(transcript)@ =~= old(transcript)@.push(
            crate::transcript::TranscriptOp {
                squeeze: false,
                label: gt_label_spec(),
                bytes: gt_bytes_of(m@),
            },
        ),
        final(messages).G1_messages@ == old(messages).G1_messages@,
        final(messages).G2_messages@ == old(messages).G2_messages@,
        final(messages).wf(),
{
    let bytes = m.to_bytes();
    transcript.append_message(gt_label(), bytes.as_slice());
    messages.GT_messages.push(m);
}

/// Sends a first-group message.
fn prover_send_g1(messages: &mut DoryMessages, transcript: &mut Transcript, m: G1)
    requires
        m.wf(),
        old(messages).wf(),
    ensures
        final(messages).G1_messages@ == old(messages).G1_messages@.push(m),
        final(transcript)@ =~= old(transcript)@.push(
            crate::transcript::TranscriptOp {
                squeeze: false,
                label: g1_label_spec(),
                bytes: g1_bytes_of(m@),
            },
        ),
        final(messages).GT_messages@ == old(messages).GT_messages@,
        final(messages).G2_messages@ == old(messages).G2_messages@,
        final(messages).wf(),
{
    let bytes = m.to_bytes();
    transcript.append_message(g1_label(), bytes.as_slice());
    messages.G1_messages.push(m);
}

/// Sends a second-group message.
fn prover_send_g2(messages: &mut DoryMessages, transcript: &mut Transcript, m: G2)
    requires
        m.wf(),
        old(messages).wf(),
    ensures
        final(messages).G2_messages@ == old(messages).G2_messages@.push(m),
        final(transcript)@ =~= old(transcript)@.push(
            crate::transcript::TranscriptOp {
                squeeze: false,
                label: g2_label_spec(),
                bytes: g2_bytes_of(m@),
            },
        ),
        final(messages).GT_messages@ == old(messages).GT_messages@,
        final(messages).G1_messages@ == old(messages).G1_messages@,
        final(messages).wf(),
{
    let bytes = m.to_bytes();
    transcript.append_message(g2_label(), bytes.as_slice());
    messages.G2_messages.push(m);
}

/// Receives a target-group message from the front of its queue,
/// absorbing it; rejects when the queue is empty.
fn verifier_recv_gt(messages: &mut DoryMessages, transcript: &mut Transcript) -> (r: Option<GT>)
    requires
        old(messages).wf(),
    ensures
        final(messages).wf(),
        match r {
            Some(m) => final(transcript)@ =~= old(transcript)@.push(
                crate::transcript::TranscriptOp {
                    squeeze: false,
                    label: gt_label_spec(),
                    bytes: gt_bytes_of(m@),
                },
            ),
            None => final(transcript)@ == old(transcript)@,
        },
        final(messages).G1_messages@ == old(messages).G1_messages@,
        final(messages).G2_messages@ == old(messages).G2_messages@,
        match r {
            Some(m) => old(messages).GT_messages@.len() > 0 && m == old(
                messages,
            ).GT_messages@[0] && final(messages).GT_messages@ == old(
                messages,
            ).GT_messages@.drop_first() && m.wf(),
            None => old(messages).GT_messages@.len() == 0 && final(messages).GT_messages@ == old(
                messages,
            ).GT_messages@,
        },
{
    if messages.GT_messages.len() == 0 {
        return None;
    }
    let m = messages.GT_messages.remove(0);
    let bytes = m.to_bytes();
    transcript.append_message(gt_label(), bytes.as_slice());
    proof {
        assert(final(messages).GT_messages@ =~= old(messages).GT_messages@.drop_first());
    }
    Some(m)
}

/// Receives a first-group message from the front of its queue.
fn verifier_recv_g1(messages: &mut DoryMessages, transcript: &mut Transcript) -> (r: Option<G1>)
    requires
        old(messages).wf(),
    ensures
        final(messages).wf(),
        match r {
            Some(m) => final(transcript)@ =~= old(transcript)@.push(
                crate::transcript::TranscriptOp {
                    squeeze: false,
                    label: g1_label_spec(),
                    bytes: g1_bytes_of(m@),
                },
            ),
            None => final(transcript)@ == old(transcript)@,
        },
        final(messages).GT_messages@ == old(messages).GT_messages@,
        final(messages).G2_messages@ == old(messages).G2_messages@,
        match r {
            Some(m) => old(messages).G1_messages@.len() > 0 && m == old(
                messages,
            ).G1_messages@[0] && final(messages).G1_messages@ == old(
                messages,
            ).G1_messages@.drop_first() && m.wf(),
            None => old(messages).G1_messages@.len() == 0 && final(messages).G1_messages@ == old(
                messages,
            ).G1_messages@,
        },
{
    if messages.G1_messages.len() == 0 {
        return None;
    }
    let m = messages.G1_messages.remove(0);
    let bytes = m.to_bytes();
    transcript.append_message(g1_label(), bytes.as_slice());
    proof {
        assert(final(messages).G1_messages@ =~= old(messages).G1_messages@.drop_first());
    }
    Some(m)
}

/// Receives a second-group message from the front of its queue.
fn verifier_recv_g2(messages: &mut DoryMessages, transcript: &mut Transcript) -> (r: Option<G2>)
    requires
        old(messages).wf(),
    ensures
        final(messages).wf(),
        match r {
            Some(m) => final(transcript)@ =~= old(transcript)@.push(
                crate::transcript::TranscriptOp {
                    squeeze: false,
                    label: g2_label_spec(),
                    bytes: g2_bytes_of(m@),
                },
            ),
            None => final(transcript)@ == old(transcript)@,
        },
        final(messages).GT_messages@ == old(messages).GT_messages@,
        final(messages).G1_messages@ == old(messages).G1_messages@,
        match r {
            Some(m) => old(messages).G2_messages@.len() > 0 && m == old(
                messages,
            ).G2_messages@[0] && final(messages).G2_messages@ == old(
                messages,
            ).G2_messages@.drop_first() && m.wf(),
            None => old(messages).G2_messages@.len() == 0 && final(messages).G2_messages@ == old(
                messages,
            ).G2_messages@,
        },
{
    if messages.G2_messages.len() == 0 {
        return None;
    }
    let m = messages.G2_messages.remove(0);
    let bytes = m.to_bytes();
    transcript.append_message(g2_label(), bytes.as_slice());
    proof {
        assert(final(messages).G2_messages@ =~= old(messages).G2_messages@.drop_first());
    }
    Some(m)
}

/// The residue a round challenge reduces to, as a function of the
/// transcript log.
pub open spec fn dory_chal(log: Seq<crate::transcript::TranscriptOp>) -> nat {
    crate::scalar::le_bytes_to_nat(
        crate::transcript::challenge_bytes_of(log, challenge_label_spec(), 64),
    ) % dory_order()
}

/// Draws the round challenge from the transcript.
fn challenge_f(transcript: &mut Transcript) -> (r: F)
    ensures
        r.wf(),
        r@ == dory_chal(old(transcript)@),
        final(transcript)@ =~= old(transcript)@.push(
            crate::transcript::TranscriptOp {
                squeeze: true,
                label: challenge_label_spec(),
                bytes: crate::transcript::challenge_bytes_of(
                    old(transcript)@,
                    challenge_label_spec(),
                    64,
                ),
            },
        ),
{
    let bytes = transcript.challenge_bytes_vec(challenge_label(), 64);
    F::from_le_bytes_mod_order(bytes.as_slice())
}

/// Folds the halves of a G1 vector: entry i becomes the left half entry
/// plus the challenge times the right half entry.
fn fold_g1(v: &Vec<G1>, beta: &F, h: usize) -> (r: Vec<G1>)
    requires
        v@.len() == 2 * h,
        beta.wf(),
        forall|i: int| 0 <= i < v@.len() ==> (#[trigger] v@[i]).wf(),
    ensures
        r@.len() == h,
        forall|i: int| 0 <= i < h ==> (#[trigger] r@[i]).wf(),
        forall|i: int| 0 <= i < h ==> (#[trigger] r@[i])@ == dmod(
            v@[i]@ + dmod((v@[h + i]@ * beta@) as int),
        ),
{
    // reading the length pins it to the machine's word size
    let _total = v.len();
    let mut out: Vec<G1> = Vec::new();
    let mut i: usize = 0;
    while i < h
        invariant
            0 <= i <= h,
            v@.len() == 2 * h,
            v@.len() <= usize::MAX,
            beta.wf(),
            forall|j: int| 0 <= j < v@.len() ==> (#[trigger] v@[j]).wf(),
            out@.len() == i,
            forall|j: int| 0 <= j < i ==> (#[trigger] out@[j]).wf(),
            forall|j: int| 0 <= j < i ==> (#[trigger] out@[j])@ == dmod(
                v@[j]@ + dmod((v@[h + j]@ * beta@) as int),
            ),
        decreases h - i,
    {
        out.push(v[i].add(&v[h + i].scale(beta)));
        i += 1;
    }
    out
}

/// Folds the halves of a G2 vector with the inverse challenge.
fn fold_g2(v: &Vec<G2>, beta_inv: &F, h: usize) -> (r: Vec<G2>)
    requires
        v@.len() == 2 * h,
        beta_inv.wf(),
        forall|i: int| 0 <= i < v@.len() ==> (#[trigger] v@[i]).wf(),
    ensures
        r@.len() == h,
        forall|i: int| 0 <= i < h ==> (#[trigger] r@[i]).wf(),
        forall|i: int| 0 <= i < h ==> (#[trigger] r@[i])@ == dmod(
            v@[i]@ + dmod((v@[h + i]@ * beta_inv@) as int),
        ),
{
    // reading the length pins it to the machine's word size
    let _total = v.len();
    let mut out: Vec<G2> = Vec::new();
    let mut i: usize = 0;
    while i < h
        invariant
            0 <= i <= h,
            v@.len() == 2 * h,
            v@.len() <= usize::MAX,
            beta_inv.wf(),
            forall|j: int| 0 <= j < v@.len() ==> (#[trigger] v@[j]).wf(),
            out@.len() == i,
            forall|j: int| 0 <= j < i ==> (#[trigger] out@[j]).wf(),
            forall|j: int| 0 <= j < i ==> (#[trigger] out@[j])@ == dmod(
                v@[j]@ + dmod((v@[h + j]@ * beta_inv@) as int),
            ),
        decreases h - i,
    {
        out.push(v[i].add(&v[h + i].scale(beta_inv)));
        i += 1;
    }
    out
}

/// Folds the halves of a scalar vector with the given factor.
fn fold_f(v: &Vec<F>, factor: &F, h: usize) -> (r: Vec<F>)
    requires
        v@.len() == 2 * h,
        factor.wf(),
        forall|i: int| 0 <= i < v@.len() ==> (#[trigger] v@[i]).wf(),
    ensures
        r@.len() == h,
        forall|i: int| 0 <= i < h ==> (#[trigger] r@[i]).wf(),
        forall|i: int| 0 <= i < h ==> (#[trigger] r@[i])@ == dmod(
            v@[i]@ + dmod((v@[h + i]@ * factor@) as int),
        ),
{
    // reading the length pins it to the machine's word size
    let _total = v.len();
    let mut out: Vec<F> = Vec::new();
    let mut i: usize = 0;
    while i < h
        invariant
            0 <= i <= h,
            v@.len() == 2 * h,
            v@.len() <= usize::MAX,
            factor.wf(),
            forall|j: int| 0 <= j < v@.len() ==> (#[trigger] v@[j]).wf(),
            out@.len() == i,
            forall|j: int| 0 <= j < i ==> (#[trigger] out@[j]).wf(),
            forall|j: int| 0 <= j < i ==> (#[trigger] out@[j])@ == dmod(
                v@[j]@ + dmod((v@[h + j]@ * factor@) as int),
            ),
        decreases h - i,
    {
        out.push(v[i].add(&v[h + i].mul(factor)));
        i += 1;
    }
    out
}

/// Folds the halves of a vector of residues: entry i becomes the left
/// half entry plus the factor times the right half entry.
pub open spec fn fold_views(v: Seq<nat>, factor: nat, h: int) -> Seq<nat> {
    Seq::new(h as nat, |i: int| dmod(v[i] + dmod((v[h + i] * factor) as int)) as nat)
}

/// The prover's whole state over the model: the committed vectors and
/// tensors still to fold, the transcript log, and the messages sent so
/// far.
pub struct SpecProverState {
    pub v1: Seq<nat>,
    pub v2: Seq<nat>,
    pub s1: Seq<nat>,
    pub s2: Seq<nat>,
    pub log: Seq<crate::transcript::TranscriptOp>,
    pub gts: Seq<nat>,
    pub g1s: Seq<nat>,
    pub g2s: Seq<nat>,
}

/// One reduce round of the prover: the four cross inner products over
/// the vector halves are sent and absorbed, the challenge is drawn, and
/// the vectors and tensors fold to half length.
pub open spec fn spec_prove_round(s: SpecProverState, h: int) -> SpecProverState {
    let clr = pairing_sum(s.v1.subrange(0, h), s.v2.subrange(h, 2 * h)) as nat;
    let crl = pairing_sum(s.v1.subrange(h, 2 * h), s.v2.subrange(0, h)) as nat;
    let xr = scaled_sum(s.s2.subrange(0, h), s.v1.subrange(h, 2 * h)) as nat;
    let xl = scaled_sum(s.s2.subrange(h, 2 * h), s.v1.subrange(0, h)) as nat;
    let yr = scaled_sum(s.s1.subrange(0, h), s.v2.subrange(h, 2 * h)) as nat;
    let yl = scaled_sum(s.s1.subrange(h, 2 * h), s.v2.subrange(0, h)) as nat;
    let log6 = absorb_op(
        absorb_op(
            absorb_op(
                absorb_op(
                    absorb_op(
                        absorb_op(s.log, gt_label_spec(), gt_bytes_of(clr)),
                        gt_label_spec(),
                        gt_bytes_of(crl),
                    ),
                    g1_label_spec(),
                    g1_bytes_of(xr),
                ),
                g1_label_spec(),
                g1_bytes_of(xl),
            ),
            g2_label_spec(),
            g2_bytes_of(yr),
        ),
        g2_label_spec(),
        g2_bytes_of(yl),
    );
    let beta = dory_chal(log6);
    let binv = dinv(beta);
    SpecProverState {
        v1: fold_views(s.v1, beta, h),
        v2: fold_views(s.v2, binv, h),
        s1: fold_views(s.s1, beta, h),
        s2: fold_views(s.s2, binv, h),
        log: squeeze_op(log6, challenge_label_spec()),
        gts: s.gts.push(clr).push(crl),
        g1s: s.g1s.push(xr).push(xl),
        g2s: s.g2s.push(yr).push(yl),
    }
}

/// The first k reduce rounds of the prover.
pub open spec fn spec_prove_rounds(k: nat, s: SpecProverState) -> SpecProverState
    decreases k,
{
    if k == 0 {
        s
    } else {
        let prev = spec_prove_rounds((k - 1) as nat, s);
        spec_prove_round(prev, prev.v1.len() as int / 2)
    }
}

/// The prover side of the extended inner-product argument: nu reduce
/// rounds, each halving the committed vectors and the tensors while
/// appending its messages and drawing one challenge, followed by the
/// final scalar-product messages.
#[verifier::rlimit(100)]
#[verifier::spinoff_prover]
#[verifier::loop_isolation(false)]
pub fn extended_dory_inner_product_prove(
    messages: &mut DoryMessages,
    transcript: &mut Transcript,
    state: ExtendedProverState,
    setup: &ProverSetup,
)
    requires
        state.wf(),
        state.nu <= setup.max_nu,
        setup.delta.wf(),
        old(messages).wf(),
    ensures
        final(messages).wf(),
        final(messages).GT_messages@.len() == old(messages).GT_messages@.len() + 2 * state.nu,
        final(messages).G1_messages@.len() == old(messages).G1_messages@.len() + 2 * state.nu + 1,
        final(messages).G2_messages@.len() == old(messages).G2_messages@.len() + 2 * state.nu + 1,
        ({
            let start = SpecProverState {
                v1: g1_views(state.v1@),
                v2: g2_views(state.v2@),
                s1: f_views(state.s1@),
                s2: f_views(state.s2@),
                log: absorb_op(old(transcript)@, setup_label_spec(), gt_bytes_of(setup.delta@)),
                gts: Seq::<nat>::empty(),
                g1s: Seq::<nat>::empty(),
                g2s: Seq::<nat>::empty(),
            };
            let fin = spec_prove_rounds(state.nu as nat, start);
            &&& gt_views(final(messages).GT_messages@) == gt_views(old(messages).GT_messages@)
                + fin.gts
            &&& g1_views(final(messages).G1_messages@) == g1_views(old(messages).G1_messages@)
                + fin.g1s.push(fin.v1[0])
            &&& g2_views(final(messages).G2_messages@) == g2_views(old(messages).G2_messages@)
                + fin.g2s.push(fin.v2[0])
            &&& final(transcript)@ == absorb_op(
                absorb_op(fin.log, g1_label_spec(), g1_bytes_of(fin.v1[0])),
                g2_label_spec(),
                g2_bytes_of(fin.v2[0]),
            )
        }),
{
    let nu = state.nu;
    let delta_bytes = setup.delta.to_bytes();
    transcript.append_message(setup_label(), delta_bytes.as_slice());
    let mut v1 = state.v1;
    let mut v2 = state.v2;
    let mut s1 = state.s1;
    let mut s2 = state.s2;
    let mut len = v1.len();
    let mut round: usize = 0;
    let ghost start = SpecProverState {
        v1: g1_views(state.v1@),
        v2: g2_views(state.v2@),
        s1: f_views(state.s1@),
        s2: f_views(state.s2@),
        log: absorb_op(old(transcript)@, setup_label_spec(), gt_bytes_of(setup.delta@)),
        gts: Seq::<nat>::empty(),
        g1s: Seq::<nat>::empty(),
        g2s: Seq::<nat>::empty(),
    };
    proof {
        vstd::arithmetic::power2::lemma2_to64();
        assert(transcript@ =~= start.log);
        assert(gt_views(messages.GT_messages@) =~= gt_views(old(messages).GT_messages@)
            + start.gts);
        assert(g1_views(messages.G1_messages@) =~= g1_views(old(messages).G1_messages@)
            + start.g1s);
        assert(g2_views(messages.G2_messages@) =~= g2_views(old(messages).G2_messages@)
            + start.g2s);
    }
    while round < nu
        invariant
            0 <= round <= nu <= 20,
            len == vstd::arithmetic::power2::pow2((nu - round) as nat),
            v1@.len() == len,
            v2@.len() == len,
            s1@.len() == len,
            s2@.len() == len,
            forall|i: int| 0 <= i < len ==> (#[trigger] v1@[i]).wf(),
            forall|i: int| 0 <= i < len ==> (#[trigger] v2@[i]).wf(),
            forall|i: int| 0 <= i < len ==> (#[trigger] s1@[i]).wf(),
            forall|i: int| 0 <= i < len ==> (#[trigger] s2@[i]).wf(),
            messages.wf(),
            messages.GT_messages@.len() == old(messages).GT_messages@.len() + 2 * round,
            messages.G1_messages@.len() == old(messages).G1_messages@.len() + 2 * round,
            messages.G2_messages@.len() == old(messages).G2_messages@.len() + 2 * round,
            ({
                let cur = spec_prove_rounds(round as nat, start);
                &&& cur.v1 == g1_views(v1@)
                &&& cur.v2 == g2_views(v2@)
                &&& cur.s1 == f_views(s1@)
                &&& cur.s2 == f_views(s2@)
                &&& cur.log == transcript@
                &&& gt_views(messages.GT_messages@) == gt_views(old(messages).GT_messages@)
                    + cur.gts
                &&& g1_views(messages.G1_messages@) == g1_views(old(messages).G1_messages@)
                    + cur.g1s
                &&& g2_views(messages.G2_messages@) == g2_views(old(messages).G2_messages@)
                    + cur.g2s
            }),
        decreases nu - round,
    {
        proof {
            vstd::arithmetic::power2::lemma_pow2_unfold((nu - round) as nat);
        }
        let ghost cur = spec_prove_rounds(round as nat, start);
        let ghost gts0 = gt_views(messages.GT_messages@);
        let ghost g1s0 = g1_views(messages.G1_messages@);
        let ghost g2s0 = g2_views(messages.G2_messages@);
        let ghost log0 = transcript@;
        let h = len / 2;
        let c_lr = multi_pairing_seg(&v1, &v2, 0, h, h);
        let c_rl = multi_pairing_seg(&v1, &v2, h, 0, h);
        let x_r = msm_g1_seg(&s2, &v1, 0, h, h);
        let x_l = msm_g1_seg(&s2, &v1, h, 0, h);
        let y_r = msm_g2_seg(&s1, &v2, 0, h, h);
        let y_l = msm_g2_seg(&s1, &v2, h, 0, h);
        prover_send_gt(messages, transcript, c_lr);
        prover_send_gt(messages, transcript, c_rl);
        prover_send_g1(messages, transcript, x_r);
        prover_send_g1(messages, transcript, x_l);
        prover_send_g2(messages, transcript, y_r);
        prover_send_g2(messages, transcript, y_l);
        let ghost log6 = absorb_op(
            absorb_op(
                absorb_op(
                    absorb_op(
                        absorb_op(
                            absorb_op(log0, gt_label_spec(), gt_bytes_of(c_lr@)),
                            gt_label_spec(),
                            gt_bytes_of(c_rl@),
                        ),
                        g1_label_spec(),
                        g1_bytes_of(x_r@),
                    ),
                    g1_label_spec(),
                    g1_bytes_of(x_l@),
                ),
                g2_label_spec(),
                g2_bytes_of(y_r@),
            ),
            g2_label_spec(),
            g2_bytes_of(y_l@),
        );
        let beta = challenge_f(transcript);
        let beta_inv = beta.inv();
        v1 = fold_g1(&v1, &beta, h);
        v2 = fold_g2(&v2, &beta_inv, h);
        s1 = fold_f(&s1, &beta, h);
        s2 = fold_f(&s2, &beta_inv, h);
        proof {
            if beta@ != 0 {
                lemma_dinv_unique(beta@, beta_inv@);
            }
            assert(beta_inv@ == dinv(beta@));
            assert(transcript@ =~= squeeze_op(log6, challenge_label_spec()));
            assert(beta@ == dory_chal(log6));
            let next = spec_prove_round(cur, h as int);
            assert(c_lr@ == pairing_sum(cur.v1.subrange(0, h as int), cur.v2.subrange(h as int, 2 * h)));
            assert(c_rl@ == pairing_sum(cur.v1.subrange(h as int, 2 * h), cur.v2.subrange(0, h as int)));
            assert(x_r@ == scaled_sum(cur.s2.subrange(0, h as int), cur.v1.subrange(h as int, 2 * h)));
            assert(x_l@ == scaled_sum(cur.s2.subrange(h as int, 2 * h), cur.v1.subrange(0, h as int)));
            assert(y_r@ == scaled_sum(cur.s1.subrange(0, h as int), cur.v2.subrange(h as int, 2 * h)));
            assert(y_l@ == scaled_sum(cur.s1.subrange(h as int, 2 * h), cur.v2.subrange(0, h as int)));
            assert(g1_views(v1@) =~= fold_views(cur.v1, beta@, h as int));
            assert(g2_views(v2@) =~= fold_views(cur.v2, dinv(beta@), h as int));
            assert(f_views(s1@) =~= fold_views(cur.s1, beta@, h as int));
            assert(f_views(s2@) =~= fold_views(cur.s2, dinv(beta@), h as int));
            assert(gt_views(messages.GT_messages@) =~= gts0.push(c_lr@).push(c_rl@));
            assert(g1_views(messages.G1_messages@) =~= g1s0.push(x_r@).push(x_l@));
            assert(g2_views(messages.G2_messages@) =~= g2s0.push(y_r@).push(y_l@));
            assert(spec_prove_rounds((round + 1) as nat, start) == next);
        }
        len = h;
        round += 1;
    }
    proof {
        vstd::arithmetic::power2::lemma2_to64();
        assert(len == 1);
    }
    let ghost fin = spec_prove_rounds(nu as nat, start);
    let ghost g1s_n = g1_views(messages.G1_messages@);
    let ghost g2s_n = g2_views(messages.G2_messages@);
    prover_send_g1(messages, transcript, v1[0]);
    prover_send_g2(messages, transcript, v2[0]);
    proof {
        assert(v1@[0]@ == fin.v1[0]);
        assert(v2@[0]@ == fin.v2[0]);
        assert(g1_views(messages.G1_messages@) =~= g1s_n.push(fin.v1[0]));
        assert(g2_views(messages.G2_messages@) =~= g2s_n.push(fin.v2[0]));
        assert(g1s_n.push(fin.v1[0]) =~= g1_views(old(messages).G1_messages@) + fin.g1s.push(
            fin.v1[0],
        ));
        assert(g2s_n.push(fin.v2[0]) =~= g2_views(old(messages).G2_messages@) + fin.g2s.push(
            fin.v2[0],
        ));
    }
}

/// The scalars the verifier's tensors fold to under the drawn
/// challenges: at each round the top tensor element folds in with the
/// challenge on the first tensor and with its inverse on the second.
pub fn extended_dory_reduce_verify_fold_s_vecs(state: &ExtendedVerifierState) -> (r: (F, F))
    requires
        state.s1_tensor@.len() == state.s2_tensor@.len(),
        state.challenges@.len() == state.s1_tensor@.len(),
        forall|i: int| 0 <= i < state.s1_tensor@.len() ==> (#[trigger] state.s1_tensor@[i]).wf(),
        forall|i: int| 0 <= i < state.s2_tensor@.len() ==> (#[trigger] state.s2_tensor@[i]).wf(),
        forall|i: int| 0 <= i < state.challenges@.len() ==> (#[trigger] state.challenges@[i]).wf(),
    ensures
        r.0.wf(),
        r.1.wf(),
        (r.0@ as int, r.1@ as int) == fold_s_spec(
            f_views(state.s1_tensor@),
            f_views(state.s2_tensor@),
            f_views(state.challenges@),
            state.s1_tensor@.len(),
        ),
{
    let nu = state.s1_tensor.len();
    let mut f1 = F::from_u64(1);
    let mut f2 = F::from_u64(1);
    let one = F::from_u64(1);
    let mut j: usize = 0;
    while j < nu
        invariant
            0 <= j <= nu,
            nu == state.s1_tensor@.len() == state.s2_tensor@.len(),
            state.challenges@.len() == nu,
            one@ == 1,
            one.wf(),
            f1.wf(),
            f2.wf(),
            forall|i: int| 0 <= i < nu ==> (#[trigger] state.s1_tensor@[i]).wf(),
            forall|i: int| 0 <= i < nu ==> (#[trigger] state.s2_tensor@[i]).wf(),
            forall|i: int| 0 <= i < nu ==> (#[trigger] state.challenges@[i]).wf(),
            (f1@ as int, f2@ as int) == fold_s_spec(
                f_views(state.s1_tensor@),
                f_views(state.s2_tensor@),
                f_views(state.challenges@),
                j as nat,
            ),
        decreases nu - j,
    {
        let beta = state.challenges[j];
        let beta_inv = beta.inv();
        proof {
            if beta@ != 0 {
                lemma_dinv_unique(beta@, beta_inv@);
            }
            assert(f_views(state.challenges@)[j as int] == beta@);
            assert(f_views(state.s1_tensor@)[nu - 1 - j] == state.s1_tensor@[nu - 1 - j]@);
            assert(f_views(state.s2_tensor@)[nu - 1 - j] == state.s2_tensor@[nu - 1 - j]@);
        }
        let t1 = state.s1_tensor[nu - 1 - j];
        let t2 = state.s2_tensor[nu - 1 - j];
        f1 = f1.mul(&one.add(&beta.mul(&t1)));
        f2 = f2.mul(&one.add(&beta_inv.mul(&t2)));
        j += 1;
    }
    (f1, f2)
}

/// The discrete-logarithm views of a target-group vector.
pub open spec fn gt_views(s: Seq<GT>) -> Seq<nat> {
    s.map_values(|g: GT| g@)
}

/// Appends an absorbed message to a transcript log.
pub open spec fn absorb_op(
    log: Seq<crate::transcript::TranscriptOp>,
    label: Seq<u8>,
    bytes: Seq<u8>,
) -> Seq<crate::transcript::TranscriptOp> {
    log.push(crate::transcript::TranscriptOp { squeeze: false, label, bytes })
}

/// Appends a challenge squeeze to a transcript log.
pub open spec fn squeeze_op(
    log: Seq<crate::transcript::TranscriptOp>,
    label: Seq<u8>,
) -> Seq<crate::transcript::TranscriptOp> {
    log.push(
        crate::transcript::TranscriptOp {
            squeeze: true,
            label,
            bytes: crate::transcript::challenge_bytes_of(log, label, 64),
        },
    )
}

/// The verifier's whole state over the model: the folded claims, the
/// remaining message queues, the transcript log, and the challenges
/// drawn so far.
pub struct SpecVerifierState {
    pub c: int,
    pub e1: int,
    pub e2: int,
    pub gts: Seq<nat>,
    pub g1s: Seq<nat>,
    pub g2s: Seq<nat>,
    pub log: Seq<crate::transcript::TranscriptOp>,
    pub challenges: Seq<nat>,
}

/// One reduce round of the verifier: consumes two messages from the
/// front of each queue, absorbs them, draws the challenge, and folds the
/// three claims; none when a queue runs short.
pub open spec fn spec_verify_round(s: SpecVerifierState) -> Option<SpecVerifierState> {
    if s.gts.len() < 2 || s.g1s.len() < 2 || s.g2s.len() < 2 {
        None
    } else {
        let clr = s.gts[0];
        let crl = s.gts[1];
        let xr = s.g1s[0];
        let xl = s.g1s[1];
        let yr = s.g2s[0];
        let yl = s.g2s[1];
        let log6 = absorb_op(
            absorb_op(
                absorb_op(
                    absorb_op(
                        absorb_op(
                            absorb_op(s.log, gt_label_spec(), gt_bytes_of(clr)),
                            gt_label_spec(),
                            gt_bytes_of(crl),
                        ),
                        g1_label_spec(),
                        g1_bytes_of(xr),
                    ),
                    g1_label_spec(),
                    g1_bytes_of(xl),
                ),
                g2_label_spec(),
                g2_bytes_of(yr),
            ),
            g2_label_spec(),
            g2_bytes_of(yl),
        );
        let beta = dory_chal(log6);
        let binv = dinv(beta);
        Some(
            SpecVerifierState {
                c: dmod(dmod(s.c + dmod((clr * binv) as int)) + dmod((crl * beta) as int)),
                e1: dmod(dmod(s.e1 + dmod((xr * beta) as int)) + dmod((xl * binv) as int)),
                e2: dmod(dmod(s.e2 + dmod((yr * binv) as int)) + dmod((yl * beta) as int)),
                gts: s.gts.skip(2),
                g1s: s.g1s.skip(2),
                g2s: s.g2s.skip(2),
                log: squeeze_op(log6, challenge_label_spec()),
                challenges: s.challenges.push(beta),
            },
        )
    }
}

/// The first k reduce rounds of the verifier.
pub open spec fn spec_verify_rounds(k: nat, s: SpecVerifierState) -> Option<SpecVerifierState>
    decreases k,
{
    if k == 0 {
        Some(s)
    } else {
        match spec_verify_rounds((k - 1) as nat, s) {
            None => None,
            Some(s1) => spec_verify_round(s1),
        }
    }
}

/// The scalars the evaluation tensors fold to after j rounds: the first
/// tensor folds with the challenges, the second with their inverses, top
/// element first.
pub open spec fn fold_s_spec(t1: Seq<nat>, t2: Seq<nat>, challenges: Seq<nat>, j: nat) -> (
    int,
    int,
)
    decreases j,
{
    if j == 0 {
        (1int, 1int)
    } else {
        let prev = fold_s_spec(t1, t2, challenges, (j - 1) as nat);
        let beta = challenges[j - 1];
        let binv = dinv(beta);
        let nu = t1.len() as int;
        (
            dmod((prev.0 * dmod(1 + dmod((beta * t1[nu - j]) as int))) as int),
            dmod((prev.1 * dmod(1 + dmod((binv * t2[nu - j]) as int))) as int),
        )
    }
}

/// A failed round never recovers: once the rounds function returns
/// none, every longer prefix does too.
pub proof fn lemma_rounds_none(k1: nat, k2: nat, s: SpecVerifierState)
    requires
        k1 <= k2,
        spec_verify_rounds(k1, s) is None,
    ensures
        spec_verify_rounds(k2, s) is None,
    decreases k2,
{
    if k2 > k1 {
        lemma_rounds_none(k1, (k2 - 1) as nat, s);
    }
}

/// The verifier's model state read off the live values: the folded
/// claims, the queues still unread, the transcript log, and the
/// challenges drawn so far.
pub open spec fn live_state(
    c: nat,
    e1: nat,
    e2: nat,
    m: DoryMessages,
    log: Seq<crate::transcript::TranscriptOp>,
    challenges: Seq<F>,
) -> SpecVerifierState {
    SpecVerifierState {
        c: c as int,
        e1: e1 as int,
        e2: e2 as int,
        gts: gt_views(m.GT_messages@),
        g1s: g1_views(m.G1_messages@),
        g2s: g2_views(m.G2_messages@),
        log: log,
        challenges: f_views(challenges),
    }
}

/// What the verifier accepts: after the setup digest is absorbed, the
/// reduce rounds must consume the queues in production order, the final
/// two messages must be exactly what remains, and the folded claims must
/// satisfy the pairing identity and the two scaled-evaluation
/// identities under the folded tensors.
pub open spec fn spec_extended_verify(
    c0: nat,
    e10: nat,
    e20: nat,
    s1t: Seq<nat>,
    s2t: Seq<nat>,
    nu: nat,
    max_nu: nat,
    delta: nat,
    gts: Seq<nat>,
    g1s: Seq<nat>,
    g2s: Seq<nat>,
    log0: Seq<crate::transcript::TranscriptOp>,
) -> bool {
    if nu > max_nu {
        false
    } else {
        let init = SpecVerifierState {
            c: c0 as int,
            e1: e10 as int,
            e2: e20 as int,
            gts,
            g1s,
            g2s,
            log: absorb_op(log0, setup_label_spec(), gt_bytes_of(delta)),
            challenges: Seq::<nat>::empty(),
        };
        match spec_verify_rounds(nu, init) {
            None => false,
            Some(s) => {
                &&& s.gts.len() == 0
                &&& s.g1s.len() == 1
                &&& s.g2s.len() == 1
                &&& {
                    let d1 = s.g1s[0];
                    let d2 = s.g2s[0];
                    let folded = fold_s_spec(s1t, s2t, s.challenges, nu);
                    &&& dmod((d1 * d2) as int) == s.c
                    &&& dmod(d1 * folded.1) == s.e1
                    &&& dmod(d2 * folded.0) == s.e2
                }
            },
        }
    }
}

/// The verifier side of the extended inner-product argument: consumes
/// the round messages in production order, folds the claims with the
/// drawn challenges, and decides the final scalar-product check by one
/// pairing identity; rejects on any queue underflow, any leftover
/// message, or any failed check.
#[verifier::rlimit(100)]
#[verifier::spinoff_prover]
#[verifier::loop_isolation(false)]
pub fn extended_dory_inner_product_verify(
    messages: &mut DoryMessages,
    transcript: &mut Transcript,
    state: ExtendedVerifierState,
    setup: &VerifierSetup,
) -> (r: bool)
    requires
        state.base_state.C.wf(),
        state.E_1.wf(),
        state.E_2.wf(),
        setup.delta.wf(),
        state.s1_tensor@.len() == state.base_state.nu,
        state.s2_tensor@.len() == state.base_state.nu,
        forall|i: int| 0 <= i < state.s1_tensor@.len() ==> (#[trigger] state.s1_tensor@[i]).wf(),
        forall|i: int| 0 <= i < state.s2_tensor@.len() ==> (#[trigger] state.s2_tensor@[i]).wf(),
        old(messages).wf(),
    ensures
        final(messages).wf(),
        r == spec_extended_verify(
            state.base_state.C@,
            state.E_1@,
            state.E_2@,
            f_views(state.s1_tensor@),
            f_views(state.s2_tensor@),
            state.base_state.nu as nat,
            setup.max_nu as nat,
            setup.delta@,
            gt_views(old(messages).GT_messages@),
            g1_views(old(messages).G1_messages@),
            g2_views(old(messages).G2_messages@),
            old(transcript)@,
        ),
        r ==> final(messages).GT_messages@.len() == 0 && final(messages).G1_messages@.len() == 0
            && final(messages).G2_messages@.len() == 0,
{
    let nu = state.base_state.nu;
    if nu > setup.max_nu {
        return false;
    }
    let delta_bytes = setup.delta.to_bytes();
    transcript.append_message(setup_label(), delta_bytes.as_slice());
    let mut c = state.base_state.C;
    let mut e1 = state.E_1;
    let mut e2 = state.E_2;
    let mut challenges: Vec<F> = Vec::new();
    let ghost init = SpecVerifierState {
        c: state.base_state.C@ as int,
        e1: state.E_1@ as int,
        e2: state.E_2@ as int,
        gts: gt_views(old(messages).GT_messages@),
        g1s: g1_views(old(messages).G1_messages@),
        g2s: g2_views(old(messages).G2_messages@),
        log: absorb_op(old(transcript)@, setup_label_spec(), gt_bytes_of(setup.delta@)),
        challenges: Seq::<nat>::empty(),
    };
    proof {
        assert(transcript@ =~= init.log);
        assert(f_views(challenges@) =~= Seq::<nat>::empty());
        assert(spec_verify_rounds(0, init) == Some(init));
        assert(init == live_state(c@, e1@, e2@, *messages, transcript@, challenges@));
    }
    let mut round: usize = 0;
    while round < nu
        invariant
            0 <= round <= nu,
            c.wf(),
            e1.wf(),
            e2.wf(),
            messages.wf(),
            challenges@.len() == round,
            forall|i: int| 0 <= i < round ==> (#[trigger] challenges@[i]).wf(),
            spec_verify_rounds(round as nat, init) == Some(
                live_state(c@, e1@, e2@, *messages, transcript@, challenges@),
            ),
        decreases nu - round,
    {
        let ghost prev = live_state(c@, e1@, e2@, *messages, transcript@, challenges@);
        let ghost gts0 = gt_views(messages.GT_messages@);
        let ghost g1s0 = g1_views(messages.G1_messages@);
        let ghost g2s0 = g2_views(messages.G2_messages@);
        let ghost log0 = transcript@;
        let c_lr = match verifier_recv_gt(messages, transcript) {
            Some(m) => m,
            None => {
                proof {
                    assert(gts0.len() == 0);
                    assert(spec_verify_rounds((round + 1) as nat, init) is None);
                    lemma_rounds_none((round + 1) as nat, nu as nat, init);
                }
                return false;
            },
        };
        let c_rl = match verifier_recv_gt(messages, transcript) {
            Some(m) => m,
            None => {
                proof {
                    assert(gts0.len() == 1);
                    assert(spec_verify_rounds((round + 1) as nat, init) is None);
                    lemma_rounds_none((round + 1) as nat, nu as nat, init);
                }
                return false;
            },
        };
        let x_r = match verifier_recv_g1(messages, transcript) {
            Some(m) => m,
            None => {
                proof {
                    assert(g1s0.len() == 0);
                    assert(spec_verify_rounds((round + 1) as nat, init) is None);
                    lemma_rounds_none((round + 1) as nat, nu as nat, init);
                }
                return false;
            },
        };
        let x_l = match verifier_recv_g1(messages, transcript) {
            Some(m) => m,
            None => {
                proof {
                    assert(g1s0.len() == 1);
                    assert(spec_verify_rounds((round + 1) as nat, init) is None);
                    lemma_rounds_none((round + 1) as nat, nu as nat, init);
                }
                return false;
            },
        };
        let y_r = match verifier_recv_g2(messages, transcript) {
            Some(m) => m,
            None => {
                proof {
                    assert(g2s0.len() == 0);
                    assert(spec_verify_rounds((round + 1) as nat, init) is None);
                    lemma_rounds_none((round + 1) as nat, nu as nat, init);
                }
                return false;
            },
        };
        let y_l = match verifier_recv_g2(messages, transcript) {
            Some(m) => m,
            None => {
                proof {
                    assert(g2s0.len() == 1);
                    assert(spec_verify_rounds((round + 1) as nat, init) is None);
                    lemma_rounds_none((round + 1) as nat, nu as nat, init);
                }
                return false;
            },
        };
        let ghost log6 = absorb_op(
            absorb_op(
                absorb_op(
                    absorb_op(
                        absorb_op(
                            absorb_op(log0, gt_label_spec(), gt_bytes_of(c_lr@)),
                            gt_label_spec(),
                            gt_bytes_of(c_rl@),
                        ),
                        g1_label_spec(),
                        g1_bytes_of(x_r@),
                    ),
                    g1_label_spec(),
                    g1_bytes_of(x_l@),
                ),
                g2_label_spec(),
                g2_bytes_of(y_r@),
            ),
            g2_label_spec(),
            g2_bytes_of(y_l@),
        );
        let beta = challenge_f(transcript);
        let beta_inv = beta.inv();
        c = c.add(&c_lr.scale(&beta_inv)).add(&c_rl.scale(&beta));
        e1 = e1.add(&x_r.scale(&beta)).add(&x_l.scale(&beta_inv));
        e2 = e2.add(&y_r.scale(&beta_inv)).add(&y_l.scale(&beta));
        challenges.push(beta);
        proof {
            if beta@ != 0 {
                lemma_dinv_unique(beta@, beta_inv@);
            }
            assert(beta_inv@ == dinv(beta@));
            assert(gts0.len() >= 2 && g1s0.len() >= 2 && g2s0.len() >= 2);
            assert(c_lr@ == gts0[0] && c_rl@ == gts0[1]);
            assert(x_r@ == g1s0[0] && x_l@ == g1s0[1]);
            assert(y_r@ == g2s0[0] && y_l@ == g2s0[1]);
            assert(gt_views(messages.GT_messages@) =~= gts0.skip(2));
            assert(g1_views(messages.G1_messages@) =~= g1s0.skip(2));
            assert(g2_views(messages.G2_messages@) =~= g2s0.skip(2));
            assert(transcript@ =~= squeeze_op(log6, challenge_label_spec()));
            assert(beta@ == dory_chal(log6));
            assert(f_views(challenges@) =~= prev.challenges.push(beta@));
            assert(spec_verify_round(prev) == Some(
                live_state(c@, e1@, e2@, *messages, transcript@, challenges@),
            ));
            assert(spec_verify_rounds((round + 1) as nat, init) == Some(
                live_state(c@, e1@, e2@, *messages, transcript@, challenges@),
            ));
        }
        round += 1;
    }
    let ghost fin = live_state(c@, e1@, e2@, *messages, transcript@, challenges@);
    let d1 = match verifier_recv_g1(messages, transcript) {
        Some(m) => m,
        None => {
            proof {
                assert(fin.g1s.len() == 0);
            }
            return false;
        },
    };
    let d2 = match verifier_recv_g2(messages, transcript) {
        Some(m) => m,
        None => {
            proof {
                assert(fin.g2s.len() == 0);
            }
            return false;
        },
    };
    if messages.GT_messages.len() != 0 || messages.G1_messages.len() != 0
        || messages.G2_messages.len() != 0 {
        proof {
            assert(fin.gts.len() != 0 || fin.g1s.len() != 1 || fin.g2s.len() != 1);
        }
        return false;
    }
    proof {
        assert(fin.gts.len() == 0 && fin.g1s.len() == 1 && fin.g2s.len() == 1);
        assert(d1@ == fin.g1s[0] && d2@ == fin.g2s[0]);
    }
    let folded_state = ExtendedVerifierState {
        base_state: VerifierState { C: c, nu },
        E_1: e1,
        E_2: e2,
        s1_tensor: state.s1_tensor,
        s2_tensor: state.s2_tensor,
        challenges,
    };
    let (s1f, s2f) = extended_dory_reduce_verify_fold_s_vecs(&folded_state);
    let pairing_ok = pairing(&d1, &d2).eq_element(&folded_state.base_state.C);
    let e1_ok = d1.scale(&s2f).eq_element(&folded_state.E_1);
    let e2_ok = d2.scale(&s1f).eq_element(&folded_state.E_2);
    proof {
        assert(fold_s_spec(
            f_views(state.s1_tensor@),
            f_views(state.s2_tensor@),
            fin.challenges,
            nu as nat,
        ) == (s1f@ as int, s2f@ as int));
    }
    pairing_ok && e1_ok && e2_ok
}


/// The multi-pairing of two equal-length vectors: the sum of the
/// pairings of matching entries.
pub fn multi_pairing(v1: &Vec<G1>, v2: &Vec<G2>) -> (r: GT)
    requires
        v1@.len() == v2@.len(),
        forall|i: int| 0 <= i < v1@.len() ==> (#[trigger] v1@[i]).wf(),
        forall|i: int| 0 <= i < v2@.len() ==> (#[trigger] v2@[i]).wf(),
    ensures
        r.wf(),
        r@ == pairing_sum(g1_views(v1@), g2_views(v2@)),
{
    let n = v1.len();
    let r = multi_pairing_seg(v1, v2, 0, 0, n);
    proof {
        assert(g1_views(v1@).subrange(0, n as int) =~= g1_views(v1@));
        assert(g2_views(v2@).subrange(0, n as int) =~= g2_views(v2@));
    }
    r
}

/// Two multi-pairings; the outputs are ordered as the inputs whatever
/// order the work runs in.
pub fn multi_pairing_2(a: (&Vec<G1>, &Vec<G2>), b: (&Vec<G1>, &Vec<G2>)) -> (r: (GT, GT))
    requires
        a.0@.len() == a.1@.len(),
        b.0@.len() == b.1@.len(),
        forall|i: int| 0 <= i < a.0@.len() ==> (#[trigger] a.0@[i]).wf(),
        forall|i: int| 0 <= i < a.1@.len() ==> (#[trigger] a.1@[i]).wf(),
        forall|i: int| 0 <= i < b.0@.len() ==> (#[trigger] b.0@[i]).wf(),
        forall|i: int| 0 <= i < b.1@.len() ==> (#[trigger] b.1@[i]).wf(),
    ensures
        r.0.wf(),
        r.1.wf(),
        r.0@ == pairing_sum(g1_views(a.0@), g2_views(a.1@)),
        r.1@ == pairing_sum(g1_views(b.0@), g2_views(b.1@)),
{
    (multi_pairing(a.0, a.1), multi_pairing(b.0, b.1))
}

/// Four multi-pairings; the outputs are ordered as the inputs.
pub fn multi_pairing_4(
    a: (&Vec<G1>, &Vec<G2>),
    b: (&Vec<G1>, &Vec<G2>),
    c: (&Vec<G1>, &Vec<G2>),
    d: (&Vec<G1>, &Vec<G2>),
) -> (r: (GT, GT, GT, GT))
    requires
        a.0@.len() == a.1@.len(),
        b.0@.len() == b.1@.len(),
        c.0@.len() == c.1@.len(),
        d.0@.len() == d.1@.len(),
        forall|i: int| 0 <= i < a.0@.len() ==> (#[trigger] a.0@[i]).wf(),
        forall|i: int| 0 <= i < a.1@.len() ==> (#[trigger] a.1@[i]).wf(),
        forall|i: int| 0 <= i < b.0@.len() ==> (#[trigger] b.0@[i]).wf(),
        forall|i: int| 0 <= i < b.1@.len() ==> (#[trigger] b.1@[i]).wf(),
        forall|i: int| 0 <= i < c.0@.len() ==> (#[trigger] c.0@[i]).wf(),
        forall|i: int| 0 <= i < c.1@.len() ==> (#[trigger] c.1@[i]).wf(),
        forall|i: int| 0 <= i < d.0@.len() ==> (#[trigger] d.0@[i]).wf(),
        forall|i: int| 0 <= i < d.1@.len() ==> (#[trigger] d.1@[i]).wf(),
    ensures
        r.0.wf(),
        r.1.wf(),
        r.2.wf(),
        r.3.wf(),
        r.0@ == pairing_sum(g1_views(a.0@), g2_views(a.1@)),
        r.1@ == pairing_sum(g1_views(b.0@), g2_views(b.1@)),
        r.2@ == pairing_sum(g1_views(c.0@), g2_views(c.1@)),
        r.3@ == pairing_sum(g1_views(d.0@), g2_views(d.1@)),
{
    let (x, y) = multi_pairing_2(a, b);
    let (z, w) = multi_pairing_2(c, d);
    (x, y, z, w)
}

/// Draws random evaluation tensors of the given length.
pub fn rand_F_tensors(nu: usize, rng: &mut ark_std::rand::rngs::StdRng) -> (r: (Vec<F>, Vec<F>))
    ensures
        r.0@.len() == nu,
        r.1@.len() == nu,
        forall|i: int| 0 <= i < nu ==> (#[trigger] r.0@[i]).wf(),
        forall|i: int| 0 <= i < nu ==> (#[trigger] r.1@[i]).wf(),
{
    let mut a: Vec<F> = Vec::new();
    let mut b: Vec<F> = Vec::new();
    let mut i: usize = 0;
    while i < nu
        invariant
            0 <= i <= nu,
            a@.len() == i,
            b@.len() == i,
            forall|j: int| 0 <= j < i ==> (#[trigger] a@[j]).wf(),
            forall|j: int| 0 <= j < i ==> (#[trigger] b@[j]).wf(),
        decreases nu - i,
    {
        a.push(F::rand(rng));
        b.push(F::rand(rng));
        i += 1;
    }
    (a, b)
}

/// Draws random committed vectors of length 2^nu for both groups.
pub fn rand_G_vecs(nu: usize, rng: &mut ark_std::rand::rngs::StdRng) -> (r: (Vec<G1>, Vec<G2>))
    requires
        nu <= 20,
    ensures
        r.0@.len() == vstd::arithmetic::power2::pow2(nu as nat),
        r.1@.len() == vstd::arithmetic::power2::pow2(nu as nat),
        forall|i: int| 0 <= i < r.0@.len() ==> (#[trigger] r.0@[i]).wf(),
        forall|i: int| 0 <= i < r.1@.len() ==> (#[trigger] r.1@[i]).wf(),
{
    let n64 = crate::polynomial::pow2_exec(nu);
    let n = n64 as usize;
    proof {
        if nu < 21 {
            vstd::arithmetic::power2::lemma_pow2_strictly_increases(nu as nat, 21);
        }
        vstd::arithmetic::power2::lemma2_to64();
        vstd::arithmetic::power2::lemma2_to64_rest();
    }
    let mut a: Vec<G1> = Vec::new();
    let mut b: Vec<G2> = Vec::new();
    let mut i: usize = 0;
    while i < n
        invariant
            0 <= i <= n,
            n == vstd::arithmetic::power2::pow2(nu as nat),
            a@.len() == i,
            b@.len() == i,
            forall|j: int| 0 <= j < i ==> (#[trigger] a@[j]).wf(),
            forall|j: int| 0 <= j < i ==> (#[trigger] b@[j]).wf(),
        decreases n - i,
    {
        a.push(G1::rand(rng));
        b.push(G2::rand(rng));
        i += 1;
    }
    (a, b)
}

} // verus!
