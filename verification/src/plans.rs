//! Provable query plans: the projection operator over a single table, and
//! the binding of parsed result expressions to provable expression trees.
use vstd::prelude::*;
use crate::scalar::Scalar;
use crate::column::ColumnType;
use crate::identifier::Identifier;
use crate::parser::{AliasedResultExpr, Expression, ParsedLiteral, BinaryOperator, UnaryOperator};
use crate::column::LiteralValue;
use crate::proof_exprs::{DynProofExpr, EqualsExpr, ColumnRef, TableRef, Table};
use crate::builders::{
    ProofError,
    CountBuilder,
    FinalRoundBuilder,
    VerificationBuilder,
    SumcheckSubpolynomialType,
    subpolynomial_row,
};

verus! {

/// A result column of a plan: a name and its type.
#[derive(Debug, Clone)]
pub struct ColumnField {
    pub name: Identifier,
    pub data_type: ColumnType,
}

/// The table a plan reads from.
#[derive(Debug, Clone)]
pub struct TableExpr {
    pub table_ref: TableRef,
}

/// A provable expression paired with its output alias.
pub struct AliasedDynProofExpr {
    pub expr: DynProofExpr,
    pub alias: Identifier,
}

/// The projection plan: produces one result column per aliased expression
/// over all rows of one table.
pub struct ProjectionExec {
    pub aliased_results: Vec<AliasedDynProofExpr>,
    pub table: TableExpr,
}

/// The total intermediate-MLE budget of a list of aliased expressions:
/// each expression's own budget plus one MLE for its projected column.
pub open spec fn plan_count_mles(s: Seq<AliasedDynProofExpr>) -> nat
    decreases s.len(),
{
    if s.len() == 0 {
        0nat
    } else {
        s[0].expr.spec_count_mles() + 1 + plan_count_mles(s.drop_first())
    }
}

/// The total subpolynomial budget of a list of aliased expressions.
pub open spec fn plan_count_subpolynomials(s: Seq<AliasedDynProofExpr>) -> nat
    decreases s.len(),
{
    if s.len() == 0 {
        0nat
    } else {
        s[0].expr.spec_count_subpolynomials() + plan_count_subpolynomials(s.drop_first())
    }
}

/// All expressions of the plan are well-formed.
pub open spec fn plan_wf(s: Seq<AliasedDynProofExpr>) -> bool {
    forall|i: int| 0 <= i < s.len() ==> (#[trigger] s[i]).expr.wf()
}

/// All expressions of the plan resolve against the table.
pub open spec fn plan_resolves(s: Seq<AliasedDynProofExpr>, t: Table) -> bool {
    forall|i: int| 0 <= i < s.len() ==> (#[trigger] s[i]).expr.resolves(t)
}

proof fn lemma_plan_counts_prefix(s: Seq<AliasedDynProofExpr>, k: int)
    requires
        0 <= k <= s.len(),
    ensures
        plan_count_mles(s.take(k)) + plan_count_mles(s.skip(k)) == plan_count_mles(s),
        plan_count_subpolynomials(s.take(k)) + plan_count_subpolynomials(s.skip(k))
            == plan_count_subpolynomials(s),
    decreases k,
{
    if k == 0 {
        assert(s.take(0) =~= Seq::<AliasedDynProofExpr>::empty());
        assert(s.skip(0) =~= s);
    } else {
        let s1 = s.drop_first();
        lemma_plan_counts_prefix(s1, k - 1);
        assert(s.take(k).drop_first() =~= s1.take(k - 1));
        assert(s.skip(k) =~= s1.skip(k - 1));
        assert(plan_count_mles(s.take(k)) == s[0].expr.spec_count_mles() + 1 + plan_count_mles(
            s1.take(k - 1),
        ));
    }
}

/// The MLE budget of a longer prefix dominates a shorter one.
proof fn lemma_plan_count_mles_monotone(s: Seq<AliasedDynProofExpr>, a: int, b: int)
    requires
        0 <= a <= b <= s.len(),
    ensures
        plan_count_mles(s.take(a)) <= plan_count_mles(s.take(b)),
    decreases b - a,
{
    if a < b {
        lemma_plan_count_mles_monotone(s, a, b - 1);
        assert(s.take(b).drop_last() =~= s.take(b - 1));
        lemma_plan_counts_last(s.take(b));
    }
}

impl ProjectionExec {
    /// Makes a projection plan.
    pub fn new(aliased_results: Vec<AliasedDynProofExpr>, table: TableExpr) -> (r: ProjectionExec)
        ensures
            r.aliased_results == aliased_results,
            r.table == table,
    {
        ProjectionExec { aliased_results, table }
    }

    /// Declares the plan's proof budget: each expression's own budget plus
    /// one intermediate MLE per projected column.
    pub fn count(&self, builder: &mut CountBuilder)
        requires
            old(builder).intermediate_mles + plan_count_mles(self.aliased_results@) <= usize::MAX,
            old(builder).subpolynomials + plan_count_subpolynomials(self.aliased_results@)
                <= usize::MAX,
        ensures
            final(builder).intermediate_mles == old(builder).intermediate_mles + plan_count_mles(
                self.aliased_results@,
            ),
            final(builder).subpolynomials == old(builder).subpolynomials
                + plan_count_subpolynomials(self.aliased_results@),
    {
        let n = self.aliased_results.len();
        let mut k: usize = 0;
        proof {
            lemma_plan_counts_prefix(self.aliased_results@, 0);
        }
        while k < n
            invariant
                n == self.aliased_results@.len(),
                0 <= k <= n,
                builder.intermediate_mles == old(builder).intermediate_mles + plan_count_mles(
                    self.aliased_results@.take(k as int),
                ),
                builder.subpolynomials == old(builder).subpolynomials + plan_count_subpolynomials(
                    self.aliased_results@.take(k as int),
                ),
                old(builder).intermediate_mles + plan_count_mles(self.aliased_results@)
                    <= usize::MAX,
                old(builder).subpolynomials + plan_count_subpolynomials(self.aliased_results@)
                    <= usize::MAX,
            decreases n - k,
        {
            proof {
                lemma_plan_counts_prefix(self.aliased_results@, k as int);
                lemma_plan_counts_prefix(self.aliased_results@, k + 1);
                assert(self.aliased_results@.skip(k as int)[0] == self.aliased_results@[k as int]);
                assert(self.aliased_results@.take(k + 1).drop_last() =~= self.aliased_results@.take(
                    k as int,
                ));
                lemma_plan_counts_last(self.aliased_results@.take(k + 1));
            }
            self.aliased_results[k].expr.count(builder);
            builder.count_intermediate_mles(1);
            k += 1;
        }
        proof {
            assert(self.aliased_results@.take(n as int) =~= self.aliased_results@);
        }
    }

    /// The plan's result length: the length of its input table.
    pub fn get_length(&self, accessor: &Table) -> (r: usize)
        ensures
            r == accessor.spec_len(),
    {
        accessor.length()
    }

    /// The offset of the plan's input table within the commitments.
    pub fn get_offset(&self, accessor: &Table) -> (r: usize)
        ensures
            r == accessor.spec_offset(),
    {
        accessor.offset()
    }


    /// The columns the plan references, in visiting order, without
    /// repeats.
    pub fn get_column_references(&self) -> (r: Vec<crate::proof_exprs::ColumnRef>) {
        let mut columns: Vec<crate::proof_exprs::ColumnRef> = Vec::new();
        let n = self.aliased_results.len();
        let mut k: usize = 0;
        while k < n
            invariant
                n == self.aliased_results@.len(),
                0 <= k <= n,
            decreases n - k,
        {
            self.aliased_results[k].expr.get_column_references(&mut columns);
            k += 1;
        }
        columns
    }

    /// The names and types of the result columns, in projection order.
    pub fn get_column_result_fields(&self) -> (r: Vec<ColumnField>)
        ensures
            r@.len() == self.aliased_results@.len(),
            forall|i: int| 0 <= i < r@.len() ==> (#[trigger] r@[i]).name@
                == self.aliased_results@[i].alias@ && r@[i].data_type
                == self.aliased_results@[i].expr.spec_data_type(),
    {
        let n = self.aliased_results.len();
        let mut out: Vec<ColumnField> = Vec::new();
        let mut k: usize = 0;
        while k < n
            invariant
                n == self.aliased_results@.len(),
                0 <= k <= n,
                out@.len() == k,
                forall|i: int| 0 <= i < k ==> (#[trigger] out@[i]).name@
                    == self.aliased_results@[i].alias@ && out@[i].data_type
                    == self.aliased_results@[i].expr.spec_data_type(),
            decreases n - k,
        {
            let a = &self.aliased_results[k];
            out.push(ColumnField { name: a.alias.clone(), data_type: a.expr.data_type() });
            k += 1;
        }
        out
    }

    /// Produces the result columns, one per projected expression, without
    /// proof side effects; rejects exactly when a referenced column is
    /// missing.
    pub fn result_evaluate(&self, accessor: &Table) -> (r: Result<Vec<Vec<Scalar>>, ProofError>)
        requires
            accessor.wf(),
            plan_wf(self.aliased_results@),
        ensures
            match r {
                Ok(v) => {
                    &&& plan_resolves(self.aliased_results@, *accessor)
                    &&& v@.len() == self.aliased_results@.len()
                    &&& forall|k: int| 0 <= k < v@.len() ==> (#[trigger] v@[k])@.len()
                        == accessor.spec_len()
                    &&& forall|k: int, i: int| 0 <= k < v@.len() && 0 <= i < accessor.spec_len()
                        ==> (#[trigger] v@[k]@[i])@ == self.aliased_results@[k].expr.value_at(
                        *accessor,
                        i,
                    )
                },
                Err(_) => !plan_resolves(self.aliased_results@, *accessor),
            },
    {
        let n = self.aliased_results.len();
        let mut out: Vec<Vec<Scalar>> = Vec::new();
        let mut k: usize = 0;
        while k < n
            invariant
                n == self.aliased_results@.len(),
                0 <= k <= n,
                accessor.wf(),
                plan_wf(self.aliased_results@),
                out@.len() == k,
                forall|i: int| 0 <= i < k ==> (#[trigger] self.aliased_results@[i]).expr.resolves(
                    *accessor,
                ),
                forall|j: int| 0 <= j < k ==> (#[trigger] out@[j])@.len() == accessor.spec_len(),
                forall|j: int, i: int| 0 <= j < k && 0 <= i < accessor.spec_len()
                    ==> (#[trigger] out@[j]@[i])@ == self.aliased_results@[j].expr.value_at(
                    *accessor,
                    i,
                ),
            decreases n - k,
        {
            let v = self.aliased_results[k].expr.result_evaluate(accessor)?;
            out.push(v);
            k += 1;
        }
        Ok(out)
    }

    /// Produces the result columns and emits each expression's proof
    /// contributions plus one intermediate MLE per projected column.
    pub fn prover_evaluate(
        &self,
        builder: &mut FinalRoundBuilder,
        accessor: &Table,
    ) -> (r: Result<Vec<Vec<Scalar>>, ProofError>)
        requires
            accessor.wf(),
            plan_wf(self.aliased_results@),
            old(builder).spec_table_length() == accessor.spec_len(),
        ensures
            final(builder).spec_table_length() == old(builder).spec_table_length(),
            forall|k: int| old(builder).subpolynomials_seq().len() <= k
                < final(builder).subpolynomials_seq().len() ==> {
                &&& (#[trigger] final(builder).subpolynomials_seq()[k]).kind
                    == SumcheckSubpolynomialType::Identity
                &&& forall|i: int| 0 <= i < accessor.spec_len() ==> subpolynomial_row(
                    final(builder).subpolynomials_seq()[k],
                    i,
                ) == 0
            },
            match r {
                Ok(v) => {
                    &&& plan_resolves(self.aliased_results@, *accessor)
                    &&& v@.len() == self.aliased_results@.len()
                    &&& forall|k: int| 0 <= k < v@.len() ==> (#[trigger] v@[k])@.len()
                        == accessor.spec_len()
                    &&& forall|k: int, i: int| 0 <= k < v@.len() && 0 <= i < accessor.spec_len()
                        ==> (#[trigger] v@[k]@[i])@ == self.aliased_results@[k].expr.value_at(
                        *accessor,
                        i,
                    )
                    &&& final(builder).mles_seq().len() == old(builder).mles_seq().len()
                        + plan_count_mles(self.aliased_results@)
                    &&& final(builder).subpolynomials_seq().len() == old(
                        builder,
                    ).subpolynomials_seq().len() + plan_count_subpolynomials(self.aliased_results@)
                    &&& forall|kk: int|
                        0 <= kk < self.aliased_results@.len() ==> {
                            let mle = #[trigger] final(builder).mles_seq()[
                                (old(builder).mles_seq().len() + plan_count_mles(
                                    self.aliased_results@.take(kk),
                                ) + self.aliased_results@[kk].expr.spec_count_mles()) as int
                            ];
                            &&& mle@.len() == accessor.spec_len()
                            &&& forall|i: int| 0 <= i < accessor.spec_len()
                                ==> (#[trigger] mle@[i])@ == self.aliased_results@[
                                    kk
                                ].expr.value_at(*accessor, i)
                        }
                },
                Err(_) => !plan_resolves(self.aliased_results@, *accessor),
            },
    {
        let n = self.aliased_results.len();
        let mut out: Vec<Vec<Scalar>> = Vec::new();
        let mut k: usize = 0;
        proof {
            lemma_plan_counts_prefix(self.aliased_results@, 0);
        }
        while k < n
            invariant
                n == self.aliased_results@.len(),
                0 <= k <= n,
                accessor.wf(),
                plan_wf(self.aliased_results@),
                builder.spec_table_length() == old(builder).spec_table_length(),
                old(builder).spec_table_length() == accessor.spec_len(),
                out@.len() == k,
                forall|i: int| 0 <= i < k ==> (#[trigger] self.aliased_results@[i]).expr.resolves(
                    *accessor,
                ),
                forall|j: int| 0 <= j < k ==> (#[trigger] out@[j])@.len() == accessor.spec_len(),
                forall|j: int, i: int| 0 <= j < k && 0 <= i < accessor.spec_len()
                    ==> (#[trigger] out@[j]@[i])@ == self.aliased_results@[j].expr.value_at(
                    *accessor,
                    i,
                ),
                builder.mles_seq().len() == old(builder).mles_seq().len() + plan_count_mles(
                    self.aliased_results@.take(k as int),
                ),
                forall|kk: int|
                    0 <= kk < k ==> {
                        let mle = #[trigger] builder.mles_seq()[
                            (old(builder).mles_seq().len() + plan_count_mles(
                                self.aliased_results@.take(kk),
                            ) + self.aliased_results@[kk].expr.spec_count_mles()) as int
                        ];
                        &&& mle@.len() == accessor.spec_len()
                        &&& forall|i: int| 0 <= i < accessor.spec_len()
                            ==> (#[trigger] mle@[i])@ == self.aliased_results@[
                                kk
                            ].expr.value_at(*accessor, i)
                    },
                builder.subpolynomials_seq().len() == old(builder).subpolynomials_seq().len()
                    + plan_count_subpolynomials(self.aliased_results@.take(k as int)),
                forall|m: int| old(builder).subpolynomials_seq().len() <= m
                    < builder.subpolynomials_seq().len() ==> {
                    &&& (#[trigger] builder.subpolynomials_seq()[m]).kind
                        == SumcheckSubpolynomialType::Identity
                    &&& forall|i: int| 0 <= i < accessor.spec_len() ==> subpolynomial_row(
                        builder.subpolynomials_seq()[m],
                        i,
                    ) == 0
                },
            decreases n - k,
        {
            proof {
                lemma_plan_counts_prefix(self.aliased_results@, k as int);
                lemma_plan_counts_prefix(self.aliased_results@, k + 1);
                assert(self.aliased_results@.take(k + 1).drop_last() =~= self.aliased_results@.take(
                    k as int,
                ));
                lemma_plan_counts_last(self.aliased_results@.take(k + 1));
            }
            let v = self.aliased_results[k].expr.prover_evaluate(builder, accessor)?;
            let ghost mid_len = builder.mles_seq().len();
            builder.produce_intermediate_mle(crate::proof_exprs::copy_scalars(&v));
            out.push(v);
            proof {
                assert forall|kk: int| 0 <= kk < k + 1 implies {
                    let mle = #[trigger] builder.mles_seq()[
                        (old(builder).mles_seq().len() + plan_count_mles(
                            self.aliased_results@.take(kk),
                        ) + self.aliased_results@[kk].expr.spec_count_mles()) as int
                    ];
                    &&& mle@.len() == accessor.spec_len()
                    &&& forall|i: int| 0 <= i < accessor.spec_len()
                        ==> (#[trigger] mle@[i])@ == self.aliased_results@[kk].expr.value_at(
                            *accessor,
                            i,
                        )
                } by {
                    let idx = (old(builder).mles_seq().len() + plan_count_mles(
                        self.aliased_results@.take(kk),
                    ) + self.aliased_results@[kk].expr.spec_count_mles()) as int;
                    if kk < k {
                        assert(self.aliased_results@.take(kk + 1).drop_last()
                            =~= self.aliased_results@.take(kk));
                        lemma_plan_counts_last(self.aliased_results@.take(kk + 1));
                        lemma_plan_count_mles_monotone(self.aliased_results@, kk + 1, k as int);
                        assert(idx < mid_len);
                    } else {
                        assert(idx == mid_len as int);
                        assert(builder.mles_seq()[idx]@ =~= v@);
                    }
                }
            }
            k += 1;
        }
        proof {
            assert(self.aliased_results@.take(n as int) =~= self.aliased_results@);
        }
        Ok(out)
    }

    /// Consumes each expression's evaluations and then one projected-column
    /// evaluation per result, in order; returns the projected evaluations.
    pub fn verifier_evaluate(
        &self,
        builder: &mut VerificationBuilder,
        accessor: &crate::proof_exprs::CommitmentEvaluationAccessor,
    ) -> (r: Result<Vec<Scalar>, ProofError>)
        requires
            plan_wf(self.aliased_results@),
            accessor.wf(),
            old(builder).one_eval().wf(),
            forall|i: int| 0 <= i < old(builder).evals_seq().len()
                ==> (#[trigger] old(builder).evals_seq()[i]).wf(),
        ensures
            final(builder).evals_seq() == old(builder).evals_seq(),
            final(builder).one_eval() == old(builder).one_eval(),
            match r {
                Ok(v) => {
                    &&& v@.len() == self.aliased_results@.len()
                    &&& final(builder).spec_consumed() == old(builder).spec_consumed()
                        + plan_count_mles(self.aliased_results@)
                    &&& forall|i: int|
                        0 <= i < v@.len() ==> #[trigger] v@[i] == old(builder).evals_seq()[
                            (old(builder).spec_consumed() + plan_count_mles(
                                self.aliased_results@.take(i),
                            ) + self.aliased_results@[i].expr.spec_count_mles()) as int
                        ]
                },
                Err(_) => old(builder).spec_consumed() + plan_count_mles(self.aliased_results@)
                    > old(builder).evals_seq().len() || !(forall|i: int| 0 <= i
                    < self.aliased_results@.len() ==> (
                #[trigger] self.aliased_results@[i]).expr.verifier_resolves(*accessor)),
            },
    {
        let n = self.aliased_results.len();
        let mut out: Vec<Scalar> = Vec::new();
        let mut k: usize = 0;
        proof {
            lemma_plan_counts_prefix(self.aliased_results@, 0);
        }
        while k < n
            invariant
                n == self.aliased_results@.len(),
                0 <= k <= n,
                plan_wf(self.aliased_results@),
                accessor.wf(),
                builder.evals_seq() == old(builder).evals_seq(),
                builder.one_eval() == old(builder).one_eval(),
                old(builder).one_eval().wf(),
                forall|i: int| 0 <= i < old(builder).evals_seq().len()
                    ==> (#[trigger] old(builder).evals_seq()[i]).wf(),
                out@.len() == k,
                forall|i: int| 0 <= i < k ==> (
                #[trigger] self.aliased_results@[i]).expr.verifier_resolves(*accessor),
                forall|i: int|
                    0 <= i < k ==> #[trigger] out@[i] == old(builder).evals_seq()[
                        (old(builder).spec_consumed() + plan_count_mles(
                            self.aliased_results@.take(i),
                        ) + self.aliased_results@[i].expr.spec_count_mles()) as int
                    ],
                builder.spec_consumed() == old(builder).spec_consumed() + plan_count_mles(
                    self.aliased_results@.take(k as int),
                ),
            decreases n - k,
        {
            proof {
                lemma_plan_counts_prefix(self.aliased_results@, k as int);
                lemma_plan_counts_prefix(self.aliased_results@, k + 1);
                assert(self.aliased_results@.take(k + 1).drop_last() =~= self.aliased_results@.take(
                    k as int,
                ));
                lemma_plan_counts_last(self.aliased_results@.take(k + 1));
                assert(self.aliased_results@.skip(k as int)[0] == self.aliased_results@[k as int]);
            }
            let res = self.aliased_results[k].expr.verifier_evaluate(builder, accessor);
            let _ev = match res {
                Ok(v) => v,
                Err(e) => {
                    proof {
                        lemma_plan_counts_prefix(self.aliased_results@, k as int);
                        lemma_count_mles_skip_ge(self.aliased_results@, k as int);
                    }
                    return Err(e);
                },
            };
            let col_eval = match builder.consume_intermediate_mle() {
                Ok(v) => v,
                Err(e) => {
                    proof {
                        lemma_plan_counts_prefix(self.aliased_results@, k as int);
                        lemma_count_mles_skip_ge(self.aliased_results@, k as int);
                    }
                    return Err(e);
                },
            };
            out.push(col_eval);
            k += 1;
        }
        proof {
            assert(self.aliased_results@.take(n as int) =~= self.aliased_results@);
        }
        Ok(out)
    }
}

proof fn lemma_plan_counts_last(s: Seq<AliasedDynProofExpr>)
    requires
        s.len() > 0,
    ensures
        plan_count_mles(s) == plan_count_mles(s.drop_last()) + s.last().expr.spec_count_mles() + 1,
        plan_count_subpolynomials(s) == plan_count_subpolynomials(s.drop_last())
            + s.last().expr.spec_count_subpolynomials(),
    decreases s.len(),
{
    if s.len() == 1 {
        assert(s.drop_last() =~= Seq::<AliasedDynProofExpr>::empty());
        assert(s.drop_first() =~= Seq::<AliasedDynProofExpr>::empty());
    } else {
        let s1 = s.drop_first();
        lemma_plan_counts_last(s1);
        assert(s.drop_last().drop_first() =~= s1.drop_last());
        assert(s.drop_last()[0] == s[0]);
        assert(s1.last() == s.last());
    }
}

proof fn lemma_count_mles_skip_ge(s: Seq<AliasedDynProofExpr>, k: int)
    requires
        0 <= k < s.len(),
    ensures
        plan_count_mles(s.skip(k)) >= s[k].expr.spec_count_mles() + 1,
    decreases k,
{
    if k == 0 {
        assert(s.skip(0) =~= s);
    } else {
        let s1 = s.drop_first();
        lemma_count_mles_skip_ge(s1, k - 1);
        assert(s.skip(k) =~= s1.skip(k - 1));
    }
}

/// A parsed result expression enriched with its provable form, where one
/// exists. Where the expression cannot be turned into a provable plan the
/// original expression is kept and the plan is absent.
pub struct EnrichedExpr {
    /// The expression left for post-processing after the provable part
    /// was extracted.
    pub residue_expression: AliasedResultExpr,
    /// The extracted provable expression plan, where the expression is
    /// provable.
    pub dyn_proof_expr: Option<DynProofExpr>,
}

impl EnrichedExpr {
    /// Binds the expression against the column mapping: where the whole
    /// expression is provable the residue collapses to its alias column,
    /// otherwise the expression is kept and no plan is produced.
    pub fn new(
        expression: AliasedResultExpr,
        column_mapping: &Vec<(Identifier, ColumnRef)>,
    ) -> (r: EnrichedExpr)
        ensures
            (r.dyn_proof_expr is Some) <==> buildable(*expression.expr, column_mapping@),
            match r.dyn_proof_expr {
                Some(e) => {
                    &&& e.wf()
                    &&& r.residue_expression.alias@ == expression.alias@
                    &&& *r.residue_expression.expr is Column
                    &&& r.residue_expression.expr->Column_0@ == expression.alias@
                },
                None => r.residue_expression == expression,
            },
    {
        let res = build_dyn_proof_expr(&expression.expr, column_mapping);
        match res {
            Ok(dyn_proof_expr) => {
                let alias = expression.alias;
                EnrichedExpr {
                    residue_expression: AliasedResultExpr {
                        expr: Box::new(Expression::Column(alias.clone())),
                        alias,
                    },
                    dyn_proof_expr: Some(dyn_proof_expr),
                }
            },
            Err(_) => EnrichedExpr { residue_expression: expression, dyn_proof_expr: None },
        }
    }

    /// The alias of the residue expression, where it is a plain column.
    pub fn get_alias(&self) -> (r: Option<&Identifier>)
        ensures
            match r {
                Some(id) => *self.residue_expression.expr is Column && *id
                    == self.residue_expression.expr->Column_0,
                None => !(*self.residue_expression.expr is Column),
            },
    {
        self.residue_expression.try_as_identifier()
    }

    /// Whether a provable plan was extracted.
    pub fn is_provable(&self) -> (r: bool)
        ensures
            r == (self.dyn_proof_expr is Some),
    {
        self.dyn_proof_expr.is_some()
    }
}

/// The first column reference stored under the identifier view.
pub open spec fn mapping_lookup_spec(
    mapping: Seq<(Identifier, ColumnRef)>,
    id: Seq<u8>,
) -> Option<ColumnRef>
    decreases mapping.len(),
{
    if mapping.len() == 0 {
        None
    } else if mapping[0].0@ == id {
        Some(mapping[0].1)
    } else {
        mapping_lookup_spec(mapping.drop_first(), id)
    }
}

proof fn lemma_mapping_lookup_at(mapping: Seq<(Identifier, ColumnRef)>, id: Seq<u8>, k: int)
    requires
        0 <= k < mapping.len(),
        forall|j: int| 0 <= j < k ==> (#[trigger] mapping[j]).0@ != id,
        mapping[k].0@ == id,
    ensures
        mapping_lookup_spec(mapping, id) == Some(mapping[k].1),
    decreases k,
{
    if k > 0 {
        let m1 = mapping.drop_first();
        assert(forall|j: int| 0 <= j < k - 1 ==> (#[trigger] m1[j]).0@ != id);
        lemma_mapping_lookup_at(m1, id, k - 1);
    }
}

proof fn lemma_mapping_lookup_none(mapping: Seq<(Identifier, ColumnRef)>, id: Seq<u8>)
    requires
        forall|j: int| 0 <= j < mapping.len() ==> (#[trigger] mapping[j]).0@ != id,
    ensures
        mapping_lookup_spec(mapping, id) is None,
    decreases mapping.len(),
{
    if mapping.len() > 0 {
        lemma_mapping_lookup_none(mapping.drop_first(), id);
    }
}

/// Whether the expression lies in the provable fragment against the
/// mapping: every referenced column is mapped and every operator is one
/// the proof plans carry.
pub open spec fn buildable(e: Expression, mapping: Seq<(Identifier, ColumnRef)>) -> bool
    decreases e,
{
    match e {
        Expression::Column(id) => mapping_lookup_spec(mapping, id@) is Some,
        Expression::Literal(_) => true,
        Expression::Wildcard => false,
        Expression::Aggregation { op, expr } => false,
        Expression::Unary { op, expr } => buildable(*expr, mapping),
        Expression::Binary { op, left, right } => match op {
            BinaryOperator::Equal => buildable(*left, mapping) && buildable(*right, mapping),
            BinaryOperator::And => buildable(*left, mapping) && buildable(*right, mapping),
            BinaryOperator::Or => buildable(*left, mapping) && buildable(*right, mapping),
            _ => false,
        },
    }
}

/// Looks an identifier up in the column mapping.
fn mapping_lookup<'a>(
    column_mapping: &'a Vec<(Identifier, ColumnRef)>,
    id: &Identifier,
) -> (r: Option<&'a ColumnRef>)
    ensures
        match r {
            Some(c) => mapping_lookup_spec(column_mapping@, id@) == Some(*c),
            None => mapping_lookup_spec(column_mapping@, id@) is None,
        },
{
    let n = column_mapping.len();
    let mut i: usize = 0;
    while i < n
        invariant
            n == column_mapping@.len(),
            0 <= i <= n,
            forall|j: int| 0 <= j < i ==> (#[trigger] column_mapping@[j]).0@ != id@,
        decreases n - i,
    {
        if &column_mapping[i].0 == id {
            proof {
                lemma_mapping_lookup_at(column_mapping@, id@, i as int);
            }
            return Some(&column_mapping[i].1);
        }
        i += 1;
    }
    proof {
        lemma_mapping_lookup_none(column_mapping@, id@);
    }
    None
}

/// Turns a parsed expression into a provable expression tree; rejects
/// expressions outside the provable fragment and columns outside the
/// mapping.
pub fn build_dyn_proof_expr(
    expression: &Expression,
    column_mapping: &Vec<(Identifier, ColumnRef)>,
) -> (r: Result<DynProofExpr, ProofError>)
    ensures
        r is Ok <==> buildable(*expression, column_mapping@),
        match r {
            Ok(e) => e.wf(),
            Err(_) => true,
        },
    decreases expression,
{
    match expression {
        Expression::Column(id) => {
            match mapping_lookup(column_mapping, id) {
                Some(c) => Ok(DynProofExpr::Column(c.clone())),
                None => Err(ProofError::InvalidColumn),
            }
        },
        Expression::Literal(l) => {
            match l {
                ParsedLiteral::BigInt(x) => Ok(DynProofExpr::Literal(LiteralValue::BigInt(*x))),
                ParsedLiteral::Boolean(x) => Ok(DynProofExpr::Literal(LiteralValue::Boolean(*x))),
            }
        },
        Expression::Unary { op, expr } => {
            match op {
                UnaryOperator::Not => {
                    let inner = build_dyn_proof_expr(expr, column_mapping)?;
                    Ok(DynProofExpr::Not(Box::new(inner)))
                },
            }
        },
        Expression::Wildcard => Err(ProofError::InvalidColumn),
        Expression::Aggregation { op: _, expr: _ } => Err(ProofError::InvalidColumn),
        Expression::Binary { op, left, right } => {
            match op {
                BinaryOperator::Equal => {
                    let l = build_dyn_proof_expr(left, column_mapping)?;
                    let rgt = build_dyn_proof_expr(right, column_mapping)?;
                    Ok(DynProofExpr::Equals(EqualsExpr::new(Box::new(l), Box::new(rgt))))
                },
                BinaryOperator::And => {
                    let l = build_dyn_proof_expr(left, column_mapping)?;
                    let rgt = build_dyn_proof_expr(right, column_mapping)?;
                    Ok(DynProofExpr::And(Box::new(l), Box::new(rgt)))
                },
                BinaryOperator::Or => {
                    let l = build_dyn_proof_expr(left, column_mapping)?;
                    let rgt = build_dyn_proof_expr(right, column_mapping)?;
                    Ok(DynProofExpr::Or(Box::new(l), Box::new(rgt)))
                },
                _ => Err(ProofError::InvalidColumn),
            }
        },
    }
}

} // verus!
