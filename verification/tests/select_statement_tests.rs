use proof_of_sql::identifier::{Identifier, ResourceId};
use proof_of_sql::parser::SelectStatementParser;

#[test]
fn we_can_get_the_correct_table_references_using_a_default_schema() {
    let parsed_query_ast = SelectStatementParser::new()
        .parse("SELECT A FROM TAB WHERE C = 3")
        .unwrap();
    let default_schema = Identifier::try_new("ETH").unwrap();
    let ref_tables = parsed_query_ast.get_table_references(default_schema);

    // note: the parsed table is always lower case
    assert_eq!(ref_tables, [ResourceId::try_new("eth", "tab").unwrap()]);
}

#[test]
fn we_can_get_the_correct_table_references_in_case_the_default_schema_equals_the_original_schema() {
    let parsed_query_ast = SelectStatementParser::new()
        .parse("SELECT A FROM SCHEMA.TAB WHERE C = 3")
        .unwrap();
    let default_schema = Identifier::try_new("SCHEMA").unwrap();
    let ref_tables = parsed_query_ast.get_table_references(default_schema);

    assert_eq!(ref_tables, [ResourceId::try_new("schema", "tab").unwrap()]);
}

#[test]
fn we_can_get_the_correct_table_references_in_case_the_default_schema_differs_from_the_original_schema() {
    let parsed_query_ast = SelectStatementParser::new()
        .parse("SELECT A FROM SCHEMA.TAB WHERE C = 3")
        .unwrap();
    let default_schema = Identifier::try_new("  ETH  ").unwrap();
    let ref_tables = parsed_query_ast.get_table_references(default_schema);

    assert_eq!(ref_tables, [ResourceId::try_new("schema", "tab").unwrap()]);
}

#[test]
fn we_reject_an_identifier_that_is_not_a_name() {
    assert!(Identifier::try_new("9lives").is_err());
    assert!(Identifier::try_new("").is_err());
    assert!(Identifier::try_new("a-b").is_err());
    assert!(Identifier::try_new(" col_1 ").is_ok());
}

#[test]
fn we_reject_text_that_is_not_a_select() {
    assert!(SelectStatementParser::new().parse("DELETE FROM T").is_err());
    assert!(SelectStatementParser::new().parse("SELECT FROM T").is_err());
    assert!(SelectStatementParser::new().parse("SELECT A + B FROM T").is_err());
    assert!(SelectStatementParser::new().parse("SELECT A + B AS C FROM T").is_ok());
}

#[test]
fn we_can_parse_order_by_and_limits() {
    let q = SelectStatementParser::new()
        .parse("SELECT A FROM T WHERE B = 2 GROUP BY A ORDER BY A DESC LIMIT 5 OFFSET 2")
        .unwrap();
    assert_eq!(q.order_by.len(), 1);
    let slice = q.slice.unwrap();
    assert_eq!(slice.number_rows, 5);
    assert_eq!(slice.offset_value, 2);
}

#[test]
fn we_can_parse_an_aggregate_projection() {
    let q = SelectStatementParser::new()
        .parse("SELECT COUNT(*) AS total FROM prices")
        .unwrap();
    match *q.expr {
        proof_of_sql::parser::SetExpression::Query { result_exprs, from, .. } => {
            assert_eq!(result_exprs.len(), 1);
            assert!(matches!(
                *result_exprs[0].expr,
                proof_of_sql::parser::Expression::Aggregation { .. }
            ));
            assert_eq!(from.len(), 1);
        },
    }
}

#[test]
fn we_can_parse_a_grouped_aggregate_with_ordering() {
    let q = SelectStatementParser::new()
        .parse("SELECT Price, COUNT(*) AS total FROM prices GROUP BY Price ORDER BY total")
        .unwrap();
    match *q.expr {
        proof_of_sql::parser::SetExpression::Query { result_exprs, group_by, .. } => {
            assert_eq!(result_exprs.len(), 2);
            assert_eq!(group_by.len(), 1);
        },
    }
    assert_eq!(q.order_by.len(), 1);
}

#[test]
fn we_can_parse_a_filtered_aggregate_with_a_limit() {
    let q = SelectStatementParser::new()
        .parse(
            "SELECT Year, COUNT(*) AS total FROM prices WHERE Price > 100 GROUP BY Year ORDER BY total DESC LIMIT 5",
        )
        .unwrap();
    match *q.expr {
        proof_of_sql::parser::SetExpression::Query { where_expr, .. } => {
            assert!(where_expr.is_some());
        },
    }
    assert_eq!(q.slice.unwrap().number_rows, 5);
}

#[test]
fn we_can_parse_a_sum_over_an_expression() {
    assert!(SelectStatementParser::new()
        .parse("SELECT SUM(Price) AS s FROM prices")
        .is_ok());
    assert!(SelectStatementParser::new()
        .parse("SELECT NOPE(Price) AS s FROM prices")
        .is_err());
}
