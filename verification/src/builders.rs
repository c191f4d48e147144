//! The single-pass proof builders: operators declare their budget in a
//! count pass, emit intermediate MLEs and sum-check subpolynomials on the
//! prover side, and consume MLE evaluations in the same order on the
//! verifier side.
use vstd::prelude::*;
use crate::scalar::{Scalar, fmod, field_order};

verus! {

/// Errors of proof construction and verification.
#[derive(Debug, Clone, Copy)]
pub enum ProofError {
    /// A cryptographic check failed or a declared budget was not met.
    VerificationError,
    /// A produced value exceeded the range its type allows.
    Overflow,
    /// A referenced column was missing or had an unexpected type.
    InvalidColumn,
}

/// How a sum-check subpolynomial constrains the hypercube: `Identity`
/// asserts it vanishes at every point, `ZeroSum` that its sum vanishes.
#[derive(PartialEq, Eq, Structural, Clone, Copy, Debug)]
pub enum SumcheckSubpolynomialType {
    Identity,
    ZeroSum,
}

/// One term of a subpolynomial: a coefficient times a product of columns.
pub struct SubpolynomialTerm {
    pub coefficient: Scalar,
    pub factors: Vec<Vec<Scalar>>,
}

/// A sum-check subpolynomial: a tagged sum of terms.
pub struct SumcheckSubpolynomial {
    pub kind: SumcheckSubpolynomialType,
    pub terms: Vec<SubpolynomialTerm>,
}

/// The product of the factor columns at one row, over the integers.
pub open spec fn factors_row_product(fs: Seq<Vec<Scalar>>, i: int) -> int
    decreases fs.len(),
{
    if fs.len() == 0 {
        1
    } else {
        fs[0]@[i]@ * factors_row_product(fs.drop_first(), i)
    }
}

/// The sum of the terms at one row, over the integers.
pub open spec fn terms_row_sum(ts: Seq<SubpolynomialTerm>, i: int) -> int
    decreases ts.len(),
{
    if ts.len() == 0 {
        0
    } else {
        ts[0].coefficient@ * factors_row_product(ts[0].factors@, i) + terms_row_sum(
            ts.drop_first(),
            i,
        )
    }
}

/// The value of a subpolynomial at one row of the hypercube, in the field.
pub open spec fn subpolynomial_row(sp: SumcheckSubpolynomial, i: int) -> int {
    fmod(terms_row_sum(sp.terms@, i))
}

/// The count pass: operators declare how many intermediate MLEs and
/// subpolynomials they will produce and the degree they need.
pub struct CountBuilder {
    pub subpolynomials: usize,
    pub intermediate_mles: usize,
    pub degree: usize,
}

impl CountBuilder {
    /// An empty budget.
    pub fn new() -> (r: CountBuilder)
        ensures
            r.subpolynomials == 0,
            r.intermediate_mles == 0,
            r.degree == 0,
    {
        CountBuilder { subpolynomials: 0, intermediate_mles: 0, degree: 0 }
    }

    /// Declares `n` more subpolynomials.
    pub fn count_subpolynomials(&mut self, n: usize)
        requires
            old(self).subpolynomials + n <= usize::MAX,
        ensures
            final(self).subpolynomials == old(self).subpolynomials + n,
            final(self).intermediate_mles == old(self).intermediate_mles,
            final(self).degree == old(self).degree,
    {
        self.subpolynomials = self.subpolynomials + n;
    }

    /// Declares `n` more intermediate MLEs.
    pub fn count_intermediate_mles(&mut self, n: usize)
        requires
            old(self).intermediate_mles + n <= usize::MAX,
        ensures
            final(self).intermediate_mles == old(self).intermediate_mles + n,
            final(self).subpolynomials == old(self).subpolynomials,
            final(self).degree == old(self).degree,
    {
        self.intermediate_mles = self.intermediate_mles + n;
    }

    /// Raises the declared degree to at least `d`.
    pub fn count_degree(&mut self, d: usize)
        ensures
            final(self).degree == (if old(self).degree < d {
                d as int
            } else {
                old(self).degree as int
            }),
            final(self).subpolynomials == old(self).subpolynomials,
            final(self).intermediate_mles == old(self).intermediate_mles,
    {
        if self.degree < d {
            self.degree = d;
        }
    }
}

/// The prover-side builder of the final sum-check round: collects the
/// intermediate MLEs and subpolynomials the operators emit, in order.
pub struct FinalRoundBuilder {
    table_length: usize,
    mles: Vec<Vec<Scalar>>,
    subpolynomials: Vec<SumcheckSubpolynomial>,
}

impl FinalRoundBuilder {
    /// The sequence of intermediate MLEs emitted so far.
    pub closed spec fn mles_seq(&self) -> Seq<Vec<Scalar>> {
        self.mles@
    }

    /// The sequence of subpolynomials emitted so far.
    pub closed spec fn subpolynomials_seq(&self) -> Seq<SumcheckSubpolynomial> {
        self.subpolynomials@
    }

    /// The length of the table this round ranges over.
    pub closed spec fn spec_table_length(&self) -> nat {
        self.table_length as nat
    }

    /// A builder for a table of the given length.
    pub fn new(table_length: usize) -> (r: FinalRoundBuilder)
        ensures
            r.spec_table_length() == table_length,
            r.mles_seq() =~= Seq::<Vec<Scalar>>::empty(),
            r.subpolynomials_seq() =~= Seq::<SumcheckSubpolynomial>::empty(),
    {
        FinalRoundBuilder { table_length, mles: Vec::new(), subpolynomials: Vec::new() }
    }

    /// The length of the table this round ranges over.
    pub fn table_length(&self) -> (r: usize)
        ensures
            r == self.spec_table_length(),
    {
        self.table_length
    }

    /// Emits one intermediate MLE.
    pub fn produce_intermediate_mle(&mut self, column: Vec<Scalar>)
        ensures
            final(self).mles_seq() =~= old(self).mles_seq().push(column),
            final(self).subpolynomials_seq() == old(self).subpolynomials_seq(),
            final(self).spec_table_length() == old(self).spec_table_length(),
    {
        self.mles.push(column);
    }

    /// Emits one sum-check subpolynomial.
    pub fn produce_sumcheck_subpolynomial(
        &mut self,
        kind: SumcheckSubpolynomialType,
        terms: Vec<SubpolynomialTerm>,
    )
        ensures
            final(self).subpolynomials_seq() =~= old(self).subpolynomials_seq().push(
                SumcheckSubpolynomial { kind, terms },
            ),
            final(self).mles_seq() == old(self).mles_seq(),
            final(self).spec_table_length() == old(self).spec_table_length(),
    {
        self.subpolynomials.push(SumcheckSubpolynomial { kind, terms });
    }
}

/// The verifier-side builder: hands out the MLE evaluations of the
/// sum-check output in the exact order the prover produced them, and
/// collects the verifier's subpolynomial evaluations.
pub struct VerificationBuilder {
    mle_evaluations: Vec<Scalar>,
    consumed: usize,
    subpolynomial_evaluations: Vec<(SumcheckSubpolynomialType, Scalar)>,
    input_one_evaluation: Scalar,
}

impl VerificationBuilder {
    /// The queue of MLE evaluations.
    pub closed spec fn evals_seq(&self) -> Seq<Scalar> {
        self.mle_evaluations@
    }

    /// How many evaluations were consumed.
    pub closed spec fn spec_consumed(&self) -> nat {
        self.consumed as nat
    }

    /// The subpolynomial evaluations registered so far.
    pub closed spec fn subpolynomial_evals_seq(&self) -> Seq<(SumcheckSubpolynomialType, Scalar)> {
        self.subpolynomial_evaluations@
    }

    /// The evaluation of the all-ones column at the challenge point.
    pub closed spec fn one_eval(&self) -> Scalar {
        self.input_one_evaluation
    }

    /// The evaluation of the all-ones column at the challenge point.
    pub fn input_one_evaluation(&self) -> (r: Scalar)
        ensures
            r == self.one_eval(),
    {
        self.input_one_evaluation
    }

    /// A builder over the sum-check's MLE evaluations.
    pub fn new(mle_evaluations: Vec<Scalar>, input_one_evaluation: Scalar) -> (r:
        VerificationBuilder)
        ensures
            r.evals_seq() == mle_evaluations@,
            r.spec_consumed() == 0,
            r.subpolynomial_evals_seq() =~= Seq::<(SumcheckSubpolynomialType, Scalar)>::empty(),
            r.one_eval() == input_one_evaluation,
    {
        VerificationBuilder {
            mle_evaluations,
            consumed: 0,
            subpolynomial_evaluations: Vec::new(),
            input_one_evaluation,
        }
    }

    /// Returns the next MLE evaluation, in production order; rejects when
    /// the queue is exhausted.
    pub fn consume_intermediate_mle(&mut self) -> (r: Result<Scalar, ProofError>)
        ensures
            match r {
                Ok(v) => {
                    &&& old(self).spec_consumed() < old(self).evals_seq().len()
                    &&& v == old(self).evals_seq()[old(self).spec_consumed() as int]
                    &&& final(self).spec_consumed() == old(self).spec_consumed() + 1
                },
                Err(_) => {
                    &&& old(self).spec_consumed() >= old(self).evals_seq().len()
                    &&& final(self).spec_consumed() == old(self).spec_consumed()
                },
            },
            final(self).evals_seq() == old(self).evals_seq(),
            final(self).subpolynomial_evals_seq() == old(self).subpolynomial_evals_seq(),
            final(self).one_eval() == old(self).one_eval(),
    {
        if self.consumed < self.mle_evaluations.len() {
            let v = self.mle_evaluations[self.consumed];
            self.consumed = self.consumed + 1;
            Ok(v)
        } else {
            Err(ProofError::VerificationError)
        }
    }

    /// Registers the verifier-side evaluation of one subpolynomial.
    pub fn produce_sumcheck_subpolynomial_evaluation(
        &mut self,
        kind: SumcheckSubpolynomialType,
        value: Scalar,
    )
        ensures
            final(self).subpolynomial_evals_seq() =~= old(self).subpolynomial_evals_seq().push(
                (kind, value),
            ),
            final(self).evals_seq() == old(self).evals_seq(),
            final(self).spec_consumed() == old(self).spec_consumed(),
            final(self).one_eval() == old(self).one_eval(),
    {
        self.subpolynomial_evaluations.push((kind, value));
    }
}

} // verus!
