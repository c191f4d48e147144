//! Homomorphic column commitments over a prime-order group: a commitment
//! is a multi-scalar product of the column against a fixed vector of
//! generators, tagged with the column length and an optional bound on the
//! magnitude of the committed values. Each group element carries a ghost
//! model of its discrete logarithm against the group's base generator.
use vstd::prelude::*;
use vstd::arithmetic::div_mod::{
    lemma_small_mod,
    lemma_mul_mod_noop,
    lemma_add_mod_noop,
    lemma_mod_twice,
    lemma_mod_multiples_vanish,
};
use crate::scalar::{Scalar, fmod, field_order};

verus! {

/// Opaque holder of the outside group element.
#[verifier::external_body]
pub struct EdRepr {
    inner: ark_curve25519::EdwardsProjective,
}

impl Clone for EdRepr {
    #[verifier::external_body]
    fn clone(&self) -> (r: EdRepr)
        ensures
            r == *self,
    {
        EdRepr { inner: self.inner }
    }
}

impl Copy for EdRepr {

}

/// The discrete logarithm of the generator with the given index against
/// the group's base generator: the generators are derived
/// deterministically, so the value is a function of the index alone.
pub uninterp spec fn generator_value(i: nat) -> nat;

/// The compressed encoding of the group element with the given discrete
/// logarithm.
pub uninterp spec fn group_element_bytes(v: nat) -> Seq<u8>;

/// An element of the prime-order commitment group. The ghost component is
/// its discrete logarithm against the base generator, as a canonical
/// residue.
#[derive(Clone, Copy)]
pub struct GroupElement {
    inner: EdRepr,
    value: Ghost<nat>,
}

impl View for GroupElement {
    type V = nat;

    closed spec fn view(&self) -> nat {
        self.value@
    }
}

impl GroupElement {
    /// The model is a canonical residue of the group order.
    pub open spec fn wf(&self) -> bool {
        self@ < field_order()
    }

    /// Relies on the group's identity element.
    #[verifier::external_body]
    pub fn identity() -> (r: GroupElement)
        ensures
            r@ == 0,
            r.wf(),
    {
        GroupElement {
            inner: EdRepr { inner: <ark_curve25519::EdwardsProjective as ark_std::Zero>::zero() },
            value: Ghost(arbitrary()),
        }
    }

    /// Relies on the group's addition: discrete logarithms add.
    #[verifier::external_body]
    pub fn add(&self, other: &GroupElement) -> (r: GroupElement)
        requires
            self.wf(),
            other.wf(),
        ensures
            r@ == fmod((self@ + other@) as int),
            r.wf(),
    {
        GroupElement {
            inner: EdRepr { inner: self.inner.inner + other.inner.inner },
            value: Ghost(arbitrary()),
        }
    }

    /// Relies on the group's subtraction: discrete logarithms subtract.
    #[verifier::external_body]
    pub fn sub(&self, other: &GroupElement) -> (r: GroupElement)
        requires
            self.wf(),
            other.wf(),
        ensures
            r@ == fmod(self@ + field_order() - other@),
            r.wf(),
    {
        GroupElement {
            inner: EdRepr { inner: self.inner.inner - other.inner.inner },
            value: Ghost(arbitrary()),
        }
    }

    /// Relies on the group's scalar multiplication: the discrete logarithm
    /// multiplies by the scalar.
    #[verifier::external_body]
    pub fn scale(&self, s: &Scalar) -> (r: GroupElement)
        requires
            self.wf(),
            s.wf(),
        ensures
            r@ == fmod((self@ * s@) as int),
            r.wf(),
    {
        GroupElement {
            inner: EdRepr { inner: self.inner.inner * s.repr().inner },
            value: Ghost(arbitrary()),
        }
    }

    /// Relies on the group's equality, which on the prime-order subgroup
    /// decides equality of discrete logarithms.
    #[verifier::external_body]
    pub fn eq_element(&self, other: &GroupElement) -> (r: bool)
        ensures
            r == (self@ == other@),
    {
        self.inner.inner == other.inner.inner
    }

    /// Relies on the group's compressed canonical serialization: the
    /// bytes are a function of the element alone.
    #[verifier::external_body]
    pub fn to_bytes(&self) -> (r: Vec<u8>)
        ensures
            r@ == group_element_bytes(self@),
            r@.len() == 32,
    {
        let mut out: Vec<u8> = Vec::new();
        ark_serialize::CanonicalSerialize::serialize_compressed(&self.inner.inner, &mut out)
            .unwrap();
        out
    }
}

/// Relies on the deterministic derivation of the generator vector: the
/// element at each index is a fixed function of the index alone.
#[verifier::external_body]
pub fn generators(n: usize) -> (r: Vec<GroupElement>)
    ensures
        r@.len() == n,
        forall|i: int| 0 <= i < n ==> (#[trigger] r@[i])@ == generator_value(i as nat),
        forall|i: int| 0 <= i < n ==> (#[trigger] r@[i]).wf(),
{
    let mut out: Vec<GroupElement> = Vec::new();
    let mut rng = <ark_std::rand::rngs::StdRng as ark_std::rand::SeedableRng>::seed_from_u64(
        0x706f73716c67656e,
    );
    for _ in 0..n {
        out.push(GroupElement {
            inner: EdRepr {
                inner: <ark_curve25519::EdwardsProjective as ark_std::UniformRand>::rand(&mut rng),
            },
            value: Ghost(arbitrary()),
        });
    }
    out
}

/// The multi-scalar product of values against the generators starting at
/// the given index, as a discrete logarithm.
pub open spec fn msm_from(vals: Seq<nat>, i: nat) -> int
    decreases vals.len(),
{
    if vals.len() == 0 {
        0
    } else {
        fmod((vals[0] * generator_value(i)) as int + msm_from(vals.drop_first(), i + 1))
    }
}

/// The models of a scalar column.
pub open spec fn scalar_vals(s: Seq<Scalar>) -> Seq<nat> {
    s.map_values(|x: Scalar| x@)
}

/// A commitment to a column: a group element tagged with the column
/// length and an optional bound on the bit width of the committed values.
#[derive(Clone, Copy)]
pub struct Commitment {
    pub commitment: GroupElement,
    pub length: usize,
    pub log_max: Option<u8>,
}

impl Commitment {
    pub open spec fn wf(&self) -> bool {
        self.commitment.wf()
    }

    /// The homomorphic sum of two commitments: lengths must agree; the
    /// magnitude bound of the sum grows by one bit.
    pub fn add_commitment(&self, other: &Commitment) -> (r: Commitment)
        requires
            self.wf(),
            other.wf(),
            self.length == other.length,
        ensures
            r.commitment@ == fmod((self.commitment@ + other.commitment@) as int),
            r.length == self.length,
            r.wf(),
            r.log_max == spec_grow_log_max(self.log_max, other.log_max),
    {
        Commitment {
            commitment: self.commitment.add(&other.commitment),
            length: self.length,
            log_max: grow_log_max(self.log_max, other.log_max),
        }
    }

    /// The homomorphic difference of two commitments.
    pub fn sub_commitment(&self, other: &Commitment) -> (r: Commitment)
        requires
            self.wf(),
            other.wf(),
            self.length == other.length,
        ensures
            r.commitment@ == fmod(self.commitment@ + field_order() - other.commitment@),
            r.length == self.length,
            r.wf(),
            r.log_max == spec_grow_log_max(self.log_max, other.log_max),
    {
        Commitment {
            commitment: self.commitment.sub(&other.commitment),
            length: self.length,
            log_max: grow_log_max(self.log_max, other.log_max),
        }
    }
}

/// The magnitude bound of a homomorphic sum: one bit more than the larger
/// operand bound, where both are known and the result still fits.
pub open spec fn spec_grow_log_max(a: Option<u8>, b: Option<u8>) -> Option<u8> {
    match (a, b) {
        (Some(x), Some(y)) => {
            let m: u8 = if x >= y {
                x
            } else {
                y
            };
            if m < 255 {
                Some((m + 1) as u8)
            } else {
                None
            }
        },
        _ => None,
    }
}

fn grow_log_max(a: Option<u8>, b: Option<u8>) -> (r: Option<u8>)
    ensures
        r == spec_grow_log_max(a, b),
{
    match (a, b) {
        (Some(x), Some(y)) => {
            let m = if x >= y {
                x
            } else {
                y
            };
            if m < 255 {
                Some(m + 1)
            } else {
                None
            }
        },
        _ => None,
    }
}

/// Commits to a scalar column: the multi-scalar product of the values
/// against the generator vector.
pub fn compute_commitment(values: &Vec<Scalar>, log_max: Option<u8>) -> (r: Commitment)
    requires
        forall|i: int| 0 <= i < values@.len() ==> (#[trigger] values@[i]).wf(),
    ensures
        r.commitment@ == msm_from(scalar_vals(values@), 0),
        r.length == values@.len(),
        r.log_max == log_max,
        r.wf(),
{
    let gens = generators(values.len());
    let mut acc = GroupElement::identity();
    let n = values.len();
    let mut i: usize = 0;
    proof {
        lemma_small_mod(0nat, field_order());
    }
    while i < n
        invariant
            n == values@.len(),
            gens@.len() == n,
            0 <= i <= n,
            forall|j: int| 0 <= j < n ==> (#[trigger] values@[j]).wf(),
            forall|j: int| 0 <= j < n ==> (#[trigger] gens@[j])@ == generator_value(j as nat),
            forall|j: int| 0 <= j < n ==> (#[trigger] gens@[j]).wf(),
            acc.wf(),
            acc@ == fmod(msm_prefix(scalar_vals(values@), i as nat)),
        decreases n - i,
    {
        let term = gens[i].scale(&values[i]);
        let next = acc.add(&term);
        proof {
            lemma_msm_prefix_step(scalar_vals(values@), i as nat);
            let ord = field_order() as int;
            let p = msm_prefix(scalar_vals(values@), i as nat);
            let q = (values@[i as int]@ * generator_value(i as nat)) as int;
            lemma_mul_mod_noop(generator_value(i as nat) as int, values@[i as int]@ as int, ord);
            lemma_add_mod_noop(p, q, ord);
            lemma_mod_twice(p, ord);
            lemma_mod_twice(q, ord);
            assert((generator_value(i as nat) * values@[i as int]@) as int == q)
                by (nonlinear_arith)
                requires q == (values@[i as int]@ * generator_value(i as nat)) as int
            ;
            assert(term@ == fmod(q));
            assert(next@ == fmod(p + q));
        }
        acc = next;
        i += 1;
    }
    proof {
        lemma_msm_prefix_full(scalar_vals(values@));
        lemma_mod_twice(msm_from(scalar_vals(values@), 0), field_order() as int);
    }
    Commitment { commitment: acc, length: n, log_max }
}

/// The multi-scalar product of the first k values, unreduced at the top.
pub open spec fn msm_prefix(vals: Seq<nat>, k: nat) -> int
    decreases k,
{
    if k == 0 {
        0
    } else {
        msm_prefix(vals, (k - 1) as nat) + (vals[k - 1] * generator_value((k - 1) as nat)) as int
    }
}

proof fn lemma_msm_prefix_step(vals: Seq<nat>, k: nat)
    ensures
        msm_prefix(vals, k + 1) == msm_prefix(vals, k) + (vals[k as int] * generator_value(
            k,
        )) as int,
{
}

proof fn lemma_msm_shift(vals: Seq<nat>, i: nat, k: nat)
    requires
        k <= vals.len(),
    ensures
        fmod(msm_prefix_from(vals, i, k) + msm_from(vals.skip(k as int), i + k)) == msm_from(
            vals,
            i,
        ),
    decreases k,
{
    if k == 0 {
        assert(vals.skip(0) =~= vals);
        assert(msm_prefix_from(vals, i, 0) == 0);
        lemma_msm_reduced(vals, i);
    } else {
        lemma_msm_shift(vals, i, (k - 1) as nat);
        let ord = field_order() as int;
        let a = msm_prefix_from(vals, i, (k - 1) as nat);
        let b = (vals[k - 1] * generator_value((i + k - 1) as nat)) as int;
        let rest = msm_from(vals.skip(k as int), i + k);
        let rest1 = msm_from(vals.skip(k - 1), (i + k - 1) as nat);
        assert(vals.skip(k - 1).drop_first() =~= vals.skip(k as int));
        assert(vals.skip(k - 1)[0] == vals[k - 1]);
        assert(rest1 == fmod(b + rest));
        assert(msm_prefix_from(vals, i, k) == a + b);
        lemma_add_mod_noop(a, b + rest, ord);
        lemma_mod_twice(a, ord);
        lemma_mod_twice(b + rest, ord);
        lemma_add_mod_noop(a + b, rest, ord);
        lemma_mod_twice(a + b, ord);
        lemma_mod_twice(rest, ord);
        assert(fmod(a + rest1) == fmod(fmod(a) + fmod(b + rest)));
        assert(fmod(a + (b + rest)) == fmod((a + b) + rest));
        assert(fmod(a + rest1) == fmod(a + b + rest));
        assert(fmod(msm_prefix_from(vals, i, k) + rest) == fmod((a + b) + rest)) by {
            lemma_add_mod_noop(a + b, rest, ord);
        }
        assert(fmod(a + rest1) == msm_from(vals, i));
    }
}

/// The unreduced sum of terms i..i+k of the shifted multi-scalar product.
pub open spec fn msm_prefix_from(vals: Seq<nat>, i: nat, k: nat) -> int
    decreases k,
{
    if k == 0 {
        0
    } else {
        msm_prefix_from(vals, i, (k - 1) as nat) + (vals[k - 1] * generator_value(
            (i + k - 1) as nat,
        )) as int
    }
}

proof fn lemma_msm_reduced(vals: Seq<nat>, i: nat)
    ensures
        fmod(msm_from(vals, i)) == msm_from(vals, i),
    decreases vals.len(),
{
    if vals.len() == 0 {
        lemma_small_mod(0nat, field_order());
    } else {
        lemma_mod_twice(
            (vals[0] * generator_value(i)) as int + msm_from(vals.drop_first(), i + 1),
            field_order() as int,
        );
    }
}

proof fn lemma_msm_prefix_from_zero(vals: Seq<nat>, k: nat)
    requires
        k <= vals.len(),
    ensures
        msm_prefix_from(vals, 0, k) == msm_prefix(vals, k),
    decreases k,
{
    if k > 0 {
        lemma_msm_prefix_from_zero(vals, (k - 1) as nat);
    }
}

proof fn lemma_msm_prefix_full(vals: Seq<nat>)
    ensures
        fmod(msm_prefix(vals, vals.len())) == msm_from(vals, 0),
{
    lemma_msm_prefix_from_zero(vals, vals.len());
    lemma_msm_shift(vals, 0, vals.len());
    assert(vals.skip(vals.len() as int).len() == 0);
    assert(msm_from(vals.skip(vals.len() as int), vals.len()) == 0);
}

/// The element-wise field sum of two equal-length columns of residues.
pub open spec fn add_vals(a: Seq<nat>, b: Seq<nat>) -> Seq<nat> {
    Seq::new(a.len(), |i: int| fmod((a[i] + b[i]) as int) as nat)
}

/// The commitment homomorphism: committing to the element-wise sum of two
/// equal-length columns gives the group sum of their commitments.
pub proof fn lemma_commitment_homomorphism(a: Seq<nat>, b: Seq<nat>, i: nat)
    requires
        a.len() == b.len(),
    ensures
        fmod(msm_from(a, i) + msm_from(b, i)) == msm_from(add_vals(a, b), i),
    decreases a.len(),
{
    let ord = field_order() as int;
    if a.len() == 0 {
        assert(add_vals(a, b).len() == 0);
        lemma_small_mod(0nat, field_order());
    } else {
        lemma_commitment_homomorphism(a.drop_first(), b.drop_first(), i + 1);
        let g = generator_value(i) as int;
        let a0 = a[0] as int;
        let b0 = b[0] as int;
        let ra = msm_from(a.drop_first(), i + 1);
        let rb = msm_from(b.drop_first(), i + 1);
        let s = add_vals(a, b);
        assert(s[0] == fmod((a[0] + b[0]) as int) as nat);
        assert(s.drop_first() =~= add_vals(a.drop_first(), b.drop_first()));
        // left side: fmod(fmod(a0 g + ra) + fmod(b0 g + rb)) == fmod(a0 g + ra + b0 g + rb)
        lemma_add_mod_noop(a0 * g + ra, b0 * g + rb, ord);
        lemma_mod_twice(a0 * g + ra, ord);
        lemma_mod_twice(b0 * g + rb, ord);
        // right side: fmod(fmod(a0+b0) * g + msm(s'))
        //   == fmod((a0+b0) g + fmod(ra + rb))
        let s0 = fmod(a0 + b0);
        lemma_mul_mod_noop(a0 + b0, g, ord);
        lemma_mod_twice(a0 + b0, ord);
        lemma_mod_twice(g, ord);
        assert(fmod(s0 * fmod(g)) == fmod((a0 + b0) * g)) by {
            lemma_mul_mod_noop(s0, g, ord);
            lemma_mod_twice(s0, ord);
        }
        lemma_mul_mod_noop(s0, g, ord);
        let rs = msm_from(s.drop_first(), i + 1);
        assert(rs == fmod(ra + rb));
        lemma_add_mod_noop(s0 * g, rs, ord);
        lemma_mod_twice(s0 * g, ord);
        lemma_mod_twice(rs, ord);
        lemma_add_mod_noop(ra, rb, ord);
        lemma_mod_twice(ra, ord);
        lemma_mod_twice(rb, ord);
        // combine: fmod(s0 g + rs) == fmod((a0+b0) g + (ra + rb))
        lemma_add_mod_noop((a0 + b0) * g, ra + rb, ord);
        lemma_mod_twice((a0 + b0) * g, ord);
        lemma_mod_twice(ra + rb, ord);
        assert(fmod(s0 * g + rs) == fmod((a0 + b0) * g + (ra + rb))) by {
            assert(fmod(fmod(s0 * g) + fmod(rs)) == fmod(s0 * g + rs));
            assert(fmod(rs) == fmod(ra + rb)) by {
                lemma_mod_twice(ra + rb, ord);
            }
            assert(fmod(s0 * g) == fmod((a0 + b0) * g));
        }
        assert((a0 + b0) * g + (ra + rb) == (a0 * g + ra) + (b0 * g + rb)) by (nonlinear_arith);
    }
}


/// The element-wise field difference of two equal-length columns of
/// residues.
pub open spec fn sub_vals(a: Seq<nat>, b: Seq<nat>) -> Seq<nat> {
    Seq::new(a.len(), |i: int| fmod(a[i] + field_order() - b[i]) as nat)
}

proof fn lemma_cancel_add(x: int, y: int, c: int)
    requires
        0 <= x < field_order(),
        0 <= y < field_order(),
        0 <= c,
        fmod(x + c) == fmod(y + c),
    ensures
        x == y,
{
    let ord = field_order() as int;
    lemma_add_mod_noop(x, c, ord);
    lemma_add_mod_noop(y, c, ord);
    lemma_small_mod(x as nat, field_order());
    lemma_small_mod(y as nat, field_order());
    lemma_mod_twice(c, ord);
    assert(fmod(x + fmod(c)) == fmod(y + fmod(c)));
    let u = fmod(c);
    vstd::arithmetic::div_mod::lemma_mod_bound(c, ord);
    if x + u < ord {
        lemma_small_mod((x + u) as nat, field_order());
    } else {
        assert(x + u == ord * 1 + (x + u - ord));
        lemma_mod_multiples_vanish(1, x + u - ord, ord);
        lemma_small_mod((x + u - ord) as nat, field_order());
    }
    if y + u < ord {
        lemma_small_mod((y + u) as nat, field_order());
    } else {
        assert(y + u == ord * 1 + (y + u - ord));
        lemma_mod_multiples_vanish(1, y + u - ord, ord);
        lemma_small_mod((y + u - ord) as nat, field_order());
    }
}

/// The subtractive half of the commitment homomorphism: committing to the
/// element-wise difference of two equal-length columns gives the group
/// difference of their commitments.
pub proof fn lemma_commitment_homomorphism_sub(a: Seq<nat>, b: Seq<nat>, i: nat)
    requires
        a.len() == b.len(),
        forall|k: int| 0 <= k < a.len() ==> #[trigger] a[k] < field_order(),
    ensures
        fmod(msm_from(a, i) + field_order() - msm_from(b, i)) == msm_from(sub_vals(a, b), i),
{
    let ord = field_order() as int;
    let d = sub_vals(a, b);
    // adding b back to the difference returns the first column
    assert(add_vals(d, b) =~= a) by {
        assert forall|k: int| 0 <= k < a.len() implies add_vals(d, b)[k] == a[k] by {
            lemma_add_mod_noop(a[k] + field_order() - b[k], b[k] as int, ord);
            lemma_mod_twice(b[k] as int, ord);
            lemma_mod_twice(a[k] + field_order() - b[k], ord);
            assert(fmod((d[k] + b[k]) as int) == fmod(a[k] + field_order() - b[k] + b[k]));
            assert(a[k] + field_order() - b[k] + b[k] == ord * 1 + a[k]);
            lemma_mod_multiples_vanish(1, a[k] as int, ord);
            lemma_small_mod(a[k], field_order());
        }
    }
    lemma_commitment_homomorphism(d, b, i);
    assert(fmod(msm_from(d, i) + msm_from(b, i)) == msm_from(a, i));
    lemma_msm_reduced(d, i);
    lemma_msm_reduced(a, i);
    lemma_msm_reduced(b, i);
    vstd::arithmetic::div_mod::lemma_mod_bound(msm_from(d, i) + msm_from(b, i), ord);
    let target = fmod(msm_from(a, i) + field_order() - msm_from(b, i));
    // the target also returns the first column when b is added back
    assert(fmod(target + msm_from(b, i)) == msm_from(a, i)) by {
        lemma_add_mod_noop(
            msm_from(a, i) + field_order() - msm_from(b, i),
            msm_from(b, i),
            ord,
        );
        lemma_mod_twice(msm_from(a, i) + field_order() - msm_from(b, i), ord);
        lemma_mod_twice(msm_from(b, i), ord);
        assert(msm_from(a, i) + field_order() - msm_from(b, i) + msm_from(b, i) == ord * 1
            + msm_from(a, i));
        lemma_mod_multiples_vanish(1, msm_from(a, i), ord);
        lemma_mod_twice(msm_from(a, i), ord);
    }
    vstd::arithmetic::div_mod::lemma_mod_bound(msm_from(a, i) + field_order() - msm_from(b, i), ord);
    lemma_cancel_add(msm_from(d, i), target, msm_from(b, i));
}

} // verus!
