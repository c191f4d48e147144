use proof_of_sql::builders::{CountBuilder, FinalRoundBuilder, VerificationBuilder};
use proof_of_sql::column::{Column, ColumnType, LiteralValue};
use proof_of_sql::identifier::{Identifier, ResourceId};
use proof_of_sql::parser::SelectStatementParser;
use proof_of_sql::plans::{
    build_dyn_proof_expr,
    AliasedDynProofExpr,
    EnrichedExpr,
    ProjectionExec,
    TableExpr,
};
use proof_of_sql::proof_exprs::{
    count_equals_zero,
    prover_evaluate_equals_zero,
    result_evaluate_equals_zero,
    verifier_evaluate_equals_zero,
    ColumnRef,
    CommitmentEvaluationAccessor,
    DynProofExpr,
    EqualsExpr,
    Table,
    TableRef,
};
use proof_of_sql::scalar::Scalar;

fn table_ref(schema: &str, name: &str) -> TableRef {
    TableRef { resource_id: ResourceId::try_new(schema, name).unwrap() }
}

fn column_ref(name: &str, t: ColumnType) -> ColumnRef {
    ColumnRef {
        table_ref: table_ref("eth", "tab"),
        column_id: Identifier::try_new(name).unwrap(),
        column_type: t,
    }
}

fn test_table() -> Table {
    let mut t = Table::new(4);
    t.push_column(
        Identifier::try_new("a").unwrap(),
        Column::BigInt(vec![3, 0, -2, 3]),
    );
    t.push_column(
        Identifier::try_new("b").unwrap(),
        Column::Boolean(vec![true, false, true, true]),
    );
    t
}

#[test]
fn the_equals_zero_selection_marks_exactly_the_zero_rows() {
    let lhs = vec![
        Scalar::from_i64(0),
        Scalar::from_i64(5),
        Scalar::from_i64(-5),
        Scalar::from_i64(0),
    ];
    let sel = result_evaluate_equals_zero(4, &lhs);
    assert_eq!(sel, vec![true, false, false, true]);

    let mut builder = FinalRoundBuilder::new(4);
    let sel2 = prover_evaluate_equals_zero(&mut builder, &lhs);
    assert_eq!(sel2, vec![true, false, false, true]);
}

#[test]
fn the_equals_zero_verifier_mirrors_the_prover() {
    // the verifier recomputes the selection evaluation as one minus the
    // non-selection evaluation
    let pseudo_inv_eval = Scalar::from_u64(7);
    let selection_not_eval = Scalar::from_u64(1);
    let one_eval = Scalar::from_u64(1);
    let mut builder = VerificationBuilder::new(vec![pseudo_inv_eval, selection_not_eval], one_eval);
    let r = verifier_evaluate_equals_zero(&mut builder, Scalar::from_u64(3)).unwrap();
    assert_eq!(r, Scalar::from_u64(0));

    // an exhausted queue is a structural rejection
    let mut short = VerificationBuilder::new(vec![pseudo_inv_eval], one_eval);
    assert!(verifier_evaluate_equals_zero(&mut short, Scalar::from_u64(3)).is_err());
}

#[test]
fn count_equals_zero_declares_the_gadget_budget() {
    let mut builder = CountBuilder::new();
    count_equals_zero(&mut builder);
    assert_eq!(builder.subpolynomials, 2);
    assert_eq!(builder.intermediate_mles, 2);
    assert_eq!(builder.degree, 3);
}

#[test]
fn an_equality_expression_evaluates_to_the_selection() {
    let t = test_table();
    let expr = DynProofExpr::Equals(EqualsExpr::new(
        Box::new(DynProofExpr::Column(column_ref("a", ColumnType::BigInt))),
        Box::new(DynProofExpr::Literal(LiteralValue::BigInt(3))),
    ));
    let vals = expr.result_evaluate(&t).unwrap();
    assert_eq!(
        vals,
        vec![Scalar::one(), Scalar::zero(), Scalar::zero(), Scalar::one()]
    );

    let mut builder = FinalRoundBuilder::new(4);
    let vals2 = expr.prover_evaluate(&mut builder, &t).unwrap();
    assert_eq!(vals, vals2);
}

#[test]
fn boolean_operators_evaluate_in_the_field() {
    let t = test_table();
    let b_col = || Box::new(DynProofExpr::Column(column_ref("b", ColumnType::Boolean)));
    let not_b = DynProofExpr::Not(b_col());
    let vals = not_b.result_evaluate(&t).unwrap();
    assert_eq!(
        vals,
        vec![Scalar::zero(), Scalar::one(), Scalar::zero(), Scalar::zero()]
    );

    let and = DynProofExpr::And(b_col(), Box::new(DynProofExpr::Literal(LiteralValue::Boolean(true))));
    assert_eq!(
        and.result_evaluate(&t).unwrap(),
        vec![Scalar::one(), Scalar::zero(), Scalar::one(), Scalar::one()]
    );

    let or = DynProofExpr::Or(b_col(), Box::new(DynProofExpr::Literal(LiteralValue::Boolean(false))));
    assert_eq!(
        or.result_evaluate(&t).unwrap(),
        vec![Scalar::one(), Scalar::zero(), Scalar::one(), Scalar::one()]
    );
}

#[test]
fn a_missing_column_is_rejected() {
    let t = test_table();
    let expr = DynProofExpr::Column(column_ref("missing", ColumnType::BigInt));
    assert!(expr.result_evaluate(&t).is_err());
}

#[test]
fn a_projection_produces_one_column_per_aliased_expression() {
    let t = test_table();
    let plan = ProjectionExec::new(
        vec![
            AliasedDynProofExpr {
                expr: DynProofExpr::Column(column_ref("a", ColumnType::BigInt)),
                alias: Identifier::try_new("x").unwrap(),
            },
            AliasedDynProofExpr {
                expr: DynProofExpr::Column(column_ref("b", ColumnType::Boolean)),
                alias: Identifier::try_new("y").unwrap(),
            },
        ],
        TableExpr { table_ref: table_ref("eth", "tab") },
    );
    assert_eq!(plan.get_length(&t), 4);
    assert_eq!(plan.get_offset(&t), 0);
    let fields = plan.get_column_result_fields();
    assert_eq!(fields.len(), 2);
    assert_eq!(fields[0].data_type, ColumnType::BigInt);
    assert_eq!(fields[1].data_type, ColumnType::Boolean);

    let cols = plan.result_evaluate(&t).unwrap();
    assert_eq!(cols.len(), 2);
    assert_eq!(cols[0].len(), 4);
    assert_eq!(cols[0][0], Scalar::from_i64(3));
    assert_eq!(cols[1][1], Scalar::zero());

    let mut builder = FinalRoundBuilder::new(4);
    let cols2 = plan.prover_evaluate(&mut builder, &t).unwrap();
    assert_eq!(cols2.len(), 2);
}

#[test]
fn an_enriched_expression_extracts_the_provable_plan() {
    let stmt = SelectStatementParser::new()
        .parse("SELECT A = 3 AS hit FROM TAB")
        .unwrap();
    let mapping = vec![(
        Identifier::try_new("a").unwrap(),
        column_ref("a", ColumnType::BigInt),
    )];
    match *stmt.expr {
        proof_of_sql::parser::SetExpression::Query { result_exprs, .. } => {
            let mut exprs = result_exprs;
            let aliased = exprs.remove(0);
            let enriched = EnrichedExpr::new(aliased, &mapping);
            assert!(enriched.is_provable());
            assert!(enriched.get_alias().is_some());
        },
    }
}

#[test]
fn an_unmapped_column_is_not_provable() {
    let stmt = SelectStatementParser::new()
        .parse("SELECT Z = 3 AS hit FROM TAB")
        .unwrap();
    let mapping: Vec<(Identifier, ColumnRef)> = vec![];
    match *stmt.expr {
        proof_of_sql::parser::SetExpression::Query { result_exprs, .. } => {
            let mut exprs = result_exprs;
            let aliased = exprs.remove(0);
            let enriched = EnrichedExpr::new(aliased, &mapping);
            assert!(!enriched.is_provable());
        },
    }
}

#[test]
fn the_expression_builder_handles_the_boolean_fragment() {
    let mapping = vec![(
        Identifier::try_new("a").unwrap(),
        column_ref("a", ColumnType::BigInt),
    )];
    let stmt = SelectStatementParser::new()
        .parse("SELECT A FROM TAB WHERE A = 3 AND NOT A = 0 OR FALSE")
        .unwrap();
    match *stmt.expr {
        proof_of_sql::parser::SetExpression::Query { where_expr, .. } => {
            let w = where_expr.unwrap();
            let built = build_dyn_proof_expr(&w, &mapping);
            assert!(built.is_ok());
        },
    }
}

#[test]
fn the_verifier_consumes_evaluations_in_production_order() {
    // an equality between a committed column and a literal: the verifier
    // takes the column evaluation from the opening, then the two gadget
    // evaluations from the sum-check output
    let expr = DynProofExpr::Equals(EqualsExpr::new(
        Box::new(DynProofExpr::Column(column_ref("a", ColumnType::BigInt))),
        Box::new(DynProofExpr::Literal(LiteralValue::BigInt(3))),
    ));
    let mut accessor = CommitmentEvaluationAccessor::new();
    accessor.push_evaluation(Identifier::try_new("a").unwrap(), Scalar::from_u64(21));
    let one_eval = Scalar::from_u64(7);
    let mut builder = VerificationBuilder::new(
        vec![Scalar::from_u64(11), Scalar::from_u64(0)],
        one_eval,
    );
    // the column and literal evaluations agree, so the claimed selection
    // evaluation is one_eval minus the non-selection evaluation
    let r = expr.verifier_evaluate(&mut builder, &accessor).unwrap();
    assert_eq!(r, Scalar::from_u64(7));

    // a column with no recorded opening is rejected
    let missing = DynProofExpr::Column(column_ref("z", ColumnType::BigInt));
    let mut builder2 = VerificationBuilder::new(vec![], one_eval);
    assert!(missing.verifier_evaluate(&mut builder2, &accessor).is_err());
}

#[test]
fn a_literal_verifies_as_its_value_times_the_ones_evaluation() {
    let lit = DynProofExpr::Literal(LiteralValue::BigInt(5));
    let accessor = CommitmentEvaluationAccessor::new();
    let mut builder = VerificationBuilder::new(vec![], Scalar::from_u64(7));
    let r = lit.verifier_evaluate(&mut builder, &accessor).unwrap();
    assert_eq!(r, Scalar::from_u64(35));
}
