//! The query surface: a small SQL select grammar parsed into an
//! intermediate tree. Identifiers are case-folded to lowercase while
//! parsing; the table references of a statement resolve against a default
//! schema.
use vstd::prelude::*;
use vstd::string::StringSliceAdditionalSpecFns;
use crate::identifier::{Identifier, ResourceId, ParseError, is_identifier, fold_lower, trimmed};

verus! {

/// The direction of an order-by term.
#[derive(PartialEq, Eq, Structural, Clone, Copy, Debug)]
pub enum OrderByDirection {
    Asc,
    Desc,
}

/// One order-by term: a result column and a direction.
#[derive(Debug)]
pub struct OrderBy {
    pub expr: Identifier,
    pub direction: OrderByDirection,
}

/// A limit/offset window over the result rows. `number_rows` equal to
/// `u64::MAX` means no limit; any smaller value is an exact row cap.
#[derive(PartialEq, Eq, Structural, Clone, Copy, Debug)]
pub struct Slice {
    pub number_rows: u64,
    pub offset_value: i64,
}

/// A table in a from clause, optionally schema-qualified.
#[derive(Debug)]
pub enum TableExpression {
    Named { table: Identifier, schema: Option<Identifier> },
}

/// A binary operator of the expression grammar.
#[derive(PartialEq, Eq, Structural, Clone, Copy, Debug)]
pub enum BinaryOperator {
    And,
    Or,
    Equal,
    GreaterThan,
    LessThan,
    Add,
    Subtract,
    Multiply,
}

/// A unary operator of the expression grammar.
#[derive(PartialEq, Eq, Structural, Clone, Copy, Debug)]
pub enum UnaryOperator {
    Not,
}

/// An aggregation operator of the expression grammar.
#[derive(PartialEq, Eq, Structural, Clone, Copy, Debug)]
pub enum AggregationOperator {
    Count,
    Sum,
    Min,
    Max,
}

/// A literal of the expression grammar.
#[derive(PartialEq, Eq, Structural, Clone, Copy, Debug)]
pub enum ParsedLiteral {
    BigInt(i64),
    Boolean(bool),
}

/// An expression of the query grammar.
#[derive(Debug)]
pub enum Expression {
    Column(Identifier),
    Literal(ParsedLiteral),
    /// The star of a count over all rows.
    Wildcard,
    Unary { op: UnaryOperator, expr: Box<Expression> },
    Binary { op: BinaryOperator, left: Box<Expression>, right: Box<Expression> },
    Aggregation { op: AggregationOperator, expr: Box<Expression> },
}

impl Expression {
    /// Every identifier in the expression is folded and well-formed.
    pub open spec fn wf(self) -> bool
        decreases self,
    {
        match self {
            Expression::Column(id) => id.wf(),
            Expression::Literal(_) => true,
            Expression::Wildcard => true,
            Expression::Unary { op, expr } => expr.wf(),
            Expression::Binary { op, left, right } => left.wf() && right.wf(),
            Expression::Aggregation { op, expr } => expr.wf(),
        }
    }
}

/// A projected expression with its alias.
#[derive(Debug)]
pub struct AliasedResultExpr {
    pub expr: Box<Expression>,
    pub alias: Identifier,
}

impl AliasedResultExpr {
    pub open spec fn wf(self) -> bool {
        self.expr.wf() && self.alias.wf()
    }

    /// The column identifier the expression stands for, where it is a
    /// plain column reference.
    pub fn try_as_identifier(&self) -> (r: Option<&Identifier>)
        ensures
            match r {
                Some(id) => *self.expr is Column && *id == self.expr->Column_0,
                None => !(*self.expr is Column),
            },
    {
        match &*self.expr {
            Expression::Column(id) => Some(id),
            _ => None,
        }
    }
}

/// The body of a select statement.
#[derive(Debug)]
pub enum SetExpression {
    Query {
        result_exprs: Vec<AliasedResultExpr>,
        from: Vec<TableExpression>,
        where_expr: Option<Box<Expression>>,
        group_by: Vec<Identifier>,
    },
}

impl SetExpression {
    pub open spec fn wf(self) -> bool {
        match self {
            SetExpression::Query { result_exprs, from, where_expr, group_by } => {
                &&& forall|i: int| 0 <= i < result_exprs@.len()
                    ==> (#[trigger] result_exprs@[i]).wf()
                &&& forall|i: int| 0 <= i < from@.len() ==> table_expression_wf(
                    #[trigger] from@[i],
                )
                &&& match where_expr {
                    Some(e) => e.wf(),
                    None => true,
                }
                &&& forall|i: int| 0 <= i < group_by@.len() ==> (#[trigger] group_by@[i]).wf()
            },
        }
    }
}

/// Every identifier of a table expression is folded and well-formed.
pub open spec fn table_expression_wf(t: TableExpression) -> bool {
    match t {
        TableExpression::Named { table, schema } => table.wf() && match schema {
            Some(s) => s.wf(),
            None => true,
        },
    }
}

/// A parsed select statement: the query body, an optional sort order and
/// an optional slice window.
#[derive(Debug)]
pub struct SelectStatement {
    pub expr: Box<SetExpression>,
    pub order_by: Vec<OrderBy>,
    pub slice: Option<Slice>,
}

impl SelectStatement {
    pub open spec fn wf(self) -> bool {
        &&& self.expr.wf()
        &&& forall|i: int| 0 <= i < self.order_by@.len()
            ==> (#[trigger] self.order_by@[i]).expr.wf()
    }

    /// The tables the statement refers to, as schema-qualified resource
    /// ids: a table without an explicit schema takes the default schema.
    pub fn get_table_references(&self, default_schema: Identifier) -> (r: Vec<ResourceId>)
        requires
            self.wf(),
            default_schema.wf(),
        ensures
            ({
                let from = self.expr->Query_from;
                &&& r@.len() == from@.len()
                &&& forall|i: int| 0 <= i < from@.len() ==> {
                    &&& (#[trigger] r@[i]).object_name@ == from@[i]->Named_table@
                    &&& r@[i].schema@ == (match from@[i]->Named_schema {
                        Some(s) => s@,
                        None => default_schema@,
                    })
                    &&& r@[i].wf()
                }
            }),
    {
        let set_expression: &SetExpression = &self.expr;
        match set_expression {
            SetExpression::Query { result_exprs: _, from, where_expr: _, group_by: _ } => {
                convert_table_expr_to_resource_id_vector(from, default_schema)
            },
        }
    }
}

/// Resolves each table expression to a resource id, substituting the
/// default schema where none is given.
fn convert_table_expr_to_resource_id_vector(
    table_expressions: &Vec<TableExpression>,
    default_schema: Identifier,
) -> (r: Vec<ResourceId>)
    requires
        forall|i: int| 0 <= i < table_expressions@.len() ==> table_expression_wf(
            #[trigger] table_expressions@[i],
        ),
        default_schema.wf(),
    ensures
        r@.len() == table_expressions@.len(),
        forall|i: int| 0 <= i < table_expressions@.len() ==> {
            &&& (#[trigger] r@[i]).object_name@ == table_expressions@[i]->Named_table@
            &&& r@[i].schema@ == (match table_expressions@[i]->Named_schema {
                Some(s) => s@,
                None => default_schema@,
            })
            &&& r@[i].wf()
        },
{
    let mut tables: Vec<ResourceId> = Vec::new();
    let n = table_expressions.len();
    let mut k: usize = 0;
    while k < n
        invariant
            n == table_expressions@.len(),
            0 <= k <= n,
            default_schema.wf(),
            forall|i: int| 0 <= i < n ==> table_expression_wf(#[trigger] table_expressions@[i]),
            tables@.len() == k,
            forall|i: int| 0 <= i < k ==> {
                &&& (#[trigger] tables@[i]).object_name@ == table_expressions@[i]->Named_table@
                &&& tables@[i].schema@ == (match table_expressions@[i]->Named_schema {
                    Some(s) => s@,
                    None => default_schema@,
                })
                &&& tables@[i].wf()
            },
        decreases n - k,
    {
        let te = &table_expressions[k];
        match te {
            TableExpression::Named { table, schema } => {
                let sch = match schema {
                    Some(s) => s.clone(),
                    None => default_schema.clone(),
                };
                tables.push(ResourceId { schema: sch, object_name: table.clone() });
            },
        }
        k += 1;
    }
    tables
}


/// A lexical token of the query text.
#[derive(Debug)]
pub enum Token {
    /// An identifier or keyword, folded to lowercase.
    Word(Vec<u8>),
    /// An integer literal.
    Num(i64),
    /// A single-character symbol.
    Sym(u8),
}

/// Byte-wise equality of two byte slices.
fn bytes_eq_slice(a: &[u8], b: &[u8]) -> (r: bool)
    ensures
        r == (a@ == b@),
{
    if a.len() != b.len() {
        assert(a@.len() != b@.len());
        return false;
    }
    let n = a.len();
    let mut i: usize = 0;
    while i < n
        invariant
            n == a@.len() == b@.len(),
            0 <= i <= n,
            forall|j: int| 0 <= j < i ==> a@[j] == b@[j],
        decreases n - i,
    {
        if *vstd::slice::slice_index_get(a, i) != *vstd::slice::slice_index_get(b, i) {
            return false;
        }
        i += 1;
    }
    proof {
        assert(a@ =~= b@);
    }
    true
}

/// Whether the token is the given keyword, compared on folded bytes.
fn word_is(tok: &Token, kw: &str) -> (r: bool)
    ensures
        r == (tok is Word && tok->Word_0@ == kw.spec_bytes()),
{
    match tok {
        Token::Word(w) => bytes_eq_slice(w.as_slice(), kw.as_bytes()),
        _ => false,
    }
}

/// Whether the word is reserved by the grammar and so not an identifier.
fn is_reserved(tok: &Token) -> (r: bool) {
    word_is(tok, "select") || word_is(tok, "from") || word_is(tok, "where") || word_is(tok, "group")
        || word_is(tok, "by") || word_is(tok, "order") || word_is(tok, "limit") || word_is(
        tok,
        "offset",
    ) || word_is(tok, "and") || word_is(tok, "or") || word_is(tok, "not") || word_is(tok, "as")
        || word_is(tok, "asc") || word_is(tok, "desc") || word_is(tok, "true") || word_is(
        tok,
        "false",
    )
}

fn parse_fail<T>(note: &str) -> (r: Result<T, ParseError>)
    ensures
        r is Err,
{
    Err(ParseError::QueryParseError { error: note.to_owned() })
}

/// Whether the byte at the index is an ASCII digit.
fn is_digit_at(bytes: &[u8], i: usize) -> (r: bool)
    requires
        i < bytes@.len(),
    ensures
        r == (48 <= bytes@[i as int] <= 57),
{
    let d = *vstd::slice::slice_index_get(bytes, i);
    48 <= d && d <= 57
}

/// Splits the query text into tokens; words fold to lowercase.
fn tokenize(bytes: &[u8]) -> (r: Result<Vec<Token>, ParseError>)
{
    let n = bytes.len();
    let mut out: Vec<Token> = Vec::new();
    let mut i: usize = 0;
    while i < n
        invariant
            n == bytes@.len(),
            0 <= i <= n,
        decreases n - i,
    {
        let b = *vstd::slice::slice_index_get(bytes, i);
        if crate::identifier::is_space_byte(b) {
            i += 1;
        } else if crate::identifier::is_ident_start_exec(crate::identifier::lower_byte_exec(b)) {
            let mut w: Vec<u8> = Vec::new();
            w.push(crate::identifier::lower_byte_exec(b));
            i += 1;
            let ghost i0 = i;
            while i < n && crate::identifier::is_ident_byte_exec(
                crate::identifier::lower_byte_exec(*vstd::slice::slice_index_get(bytes, i)),
            )
                invariant
                    n == bytes@.len(),
                    i0 <= i <= n,
                decreases n - i,
            {
                w.push(crate::identifier::lower_byte_exec(*vstd::slice::slice_index_get(bytes, i)));
                i += 1;
            }
            out.push(Token::Word(w));
        } else if 48 <= b && b <= 57 {
            let mut acc: i64 = (b - 48) as i64;
            i += 1;
            let ghost i0 = i;
            while i < n && is_digit_at(bytes, i)
                invariant
                    n == bytes@.len(),
                    i0 <= i <= n,
                    0 <= acc,
                decreases n - i,
            {
                let d = *vstd::slice::slice_index_get(bytes, i);
                let dv = (d - 48) as i64;
                if acc > (i64::MAX - dv) / 10 {
                    return parse_fail("integer literal too large");
                }
                acc = acc * 10 + dv;
                i += 1;
            }
            out.push(Token::Num(acc));
        } else if b == 61 || b == 44 || b == 46 || b == 40 || b == 41 || b == 43 || b == 45
            || b == 42 || b == 59 || b == 60 || b == 62 {
            out.push(Token::Sym(b));
            i += 1;
        } else {
            return parse_fail("unexpected character");
        }
    }
    Ok(out)
}

/// Reads the word at `pos` as an identifier.
fn parse_identifier(tokens: &Vec<Token>, pos: usize) -> (r: Result<(Identifier, usize), ParseError>)
    requires
        pos <= tokens@.len(),
    ensures
        match r {
            Ok((id, p)) => id.wf() && pos < p <= tokens@.len(),
            Err(_) => true,
        },
{
    if pos >= tokens.len() {
        return parse_fail("expected an identifier");
    }
    if is_reserved(&tokens[pos]) {
        return parse_fail("reserved word where an identifier was expected");
    }
    match &tokens[pos] {
        Token::Word(w) => {
            match Identifier::try_from_bytes(w.as_slice()) {
                Ok(id) => Ok((id, pos + 1)),
                Err(e) => Err(e),
            }
        },
        _ => parse_fail("expected an identifier"),
    }
}

fn peek_sym(tokens: &Vec<Token>, pos: usize, sym: u8) -> (r: bool)
    requires
        pos <= tokens@.len(),
    ensures
        r ==> pos < tokens@.len(),
        r ==> pos < usize::MAX,
{
    pos < tokens.len() && matches!(&tokens[pos], Token::Sym(s) if *s == sym)
}

/// Whether the token at `pos` is an additive or multiplicative operator.
fn peek_addop(tokens: &Vec<Token>, pos: usize) -> (r: bool)
    requires
        pos <= tokens@.len(),
{
    peek_sym(tokens, pos, 43) || peek_sym(tokens, pos, 45) || peek_sym(tokens, pos, 42)
}

fn peek_word(tokens: &Vec<Token>, pos: usize, kw: &str) -> (r: bool)
    requires
        pos <= tokens@.len(),
    ensures
        r ==> pos < tokens@.len(),
        r ==> pos < usize::MAX,
{
    pos < tokens.len() && word_is(&tokens[pos], kw)
}

fn parse_primary(tokens: &Vec<Token>, pos: usize, fuel: u32) -> (r: Result<
    (Expression, usize),
    ParseError,
>)
    requires
        pos <= tokens@.len(),
    ensures
        match r {
            Ok((e, p)) => e.wf() && pos < p <= tokens@.len(),
            Err(_) => true,
        },
    decreases fuel,
{
    if fuel == 0 {
        return parse_fail("expression too deeply nested");
    }
    if pos >= tokens.len() {
        return parse_fail("expected an expression");
    }
    if peek_sym(tokens, pos, 40) {
        let (e, p) = parse_expr(tokens, pos + 1, fuel - 1)?;
        if peek_sym(tokens, p, 41) {
            Ok((e, p + 1))
        } else {
            parse_fail("expected a closing parenthesis")
        }
    } else if peek_word(tokens, pos, "true") {
        Ok((Expression::Literal(ParsedLiteral::Boolean(true)), pos + 1))
    } else if peek_word(tokens, pos, "false") {
        Ok((Expression::Literal(ParsedLiteral::Boolean(false)), pos + 1))
    } else {
        match &tokens[pos] {
            Token::Num(v) => Ok((Expression::Literal(ParsedLiteral::BigInt(*v)), pos + 1)),
            Token::Sym(s) => {
                if *s == 45 && pos + 1 < tokens.len() {
                    match &tokens[pos + 1] {
                        Token::Num(v) => {
                            if *v >= 0 {
                                Ok((Expression::Literal(ParsedLiteral::BigInt(-*v)), pos + 2))
                            } else {
                                parse_fail("expected a number after the minus sign")
                            }
                        },
                        _ => parse_fail("expected a number after the minus sign"),
                    }
                } else {
                    parse_fail("expected an expression")
                }
            },
            Token::Word(_) => {
                let (id, p) = parse_identifier(tokens, pos)?;
                if peek_sym(tokens, p, 40) {
                    // a function call: one of the aggregations, over an
                    // expression or the star
                    let op = if word_is(&tokens[pos], "count") {
                        AggregationOperator::Count
                    } else if word_is(&tokens[pos], "sum") {
                        AggregationOperator::Sum
                    } else if word_is(&tokens[pos], "min") {
                        AggregationOperator::Min
                    } else if word_is(&tokens[pos], "max") {
                        AggregationOperator::Max
                    } else {
                        return parse_fail("unknown function in an expression");
                    };
                    let (inner, after) = if peek_sym(tokens, p + 1, 42) {
                        (Expression::Wildcard, p + 2)
                    } else {
                        let (e, p2) = parse_expr(tokens, p + 1, fuel - 1)?;
                        (e, p2)
                    };
                    if peek_sym(tokens, after, 41) {
                        proof {
                            assert(inner.wf());
                        }
                        let result = Expression::Aggregation { op, expr: Box::new(inner) };
                        proof {
                            assert(result.wf());
                        }
                        Ok((result, after + 1))
                    } else {
                        parse_fail("expected a closing parenthesis after the aggregation")
                    }
                } else {
                    Ok((Expression::Column(id), p))
                }
            },
        }
    }
}

fn parse_unary(tokens: &Vec<Token>, pos: usize, fuel: u32) -> (r: Result<
    (Expression, usize),
    ParseError,
>)
    requires
        pos <= tokens@.len(),
    ensures
        match r {
            Ok((e, p)) => e.wf() && pos < p <= tokens@.len(),
            Err(_) => true,
        },
    decreases fuel,
{
    if fuel == 0 {
        return parse_fail("expression too deeply nested");
    }
    if peek_word(tokens, pos, "not") {
        let (e, p) = parse_unary(tokens, pos + 1, fuel - 1)?;
        Ok((Expression::Unary { op: UnaryOperator::Not, expr: Box::new(e) }, p))
    } else {
        parse_primary(tokens, pos, fuel - 1)
    }
}

fn parse_additive(tokens: &Vec<Token>, pos: usize, fuel: u32) -> (r: Result<
    (Expression, usize),
    ParseError,
>)
    requires
        pos <= tokens@.len(),
    ensures
        match r {
            Ok((e, p)) => e.wf() && pos < p <= tokens@.len(),
            Err(_) => true,
        },
    decreases fuel,
{
    if fuel == 0 {
        return parse_fail("expression too deeply nested");
    }
    let (first, p0) = parse_unary(tokens, pos, fuel - 1)?;
    let mut left = first;
    let mut p = p0;
    let n = tokens.len();
    while p < n && peek_addop(tokens, p)
        invariant
            n == tokens@.len(),
            pos < p <= n,
            fuel >= 1,
            left.wf(),
        decreases n - p,
    {
        let op = if peek_sym(tokens, p, 43) {
            BinaryOperator::Add
        } else if peek_sym(tokens, p, 45) {
            BinaryOperator::Subtract
        } else {
            BinaryOperator::Multiply
        };
        let res = parse_unary(tokens, p + 1, fuel - 1);
        match res {
            Ok((rhs, p2)) => {
                left = Expression::Binary { op, left: Box::new(left), right: Box::new(rhs) };
                p = p2;
            },
            Err(e) => {
                return Err(e);
            },
        }
    }
    Ok((left, p))
}

fn parse_comparison(tokens: &Vec<Token>, pos: usize, fuel: u32) -> (r: Result<
    (Expression, usize),
    ParseError,
>)
    requires
        pos <= tokens@.len(),
    ensures
        match r {
            Ok((e, p)) => e.wf() && pos < p <= tokens@.len(),
            Err(_) => true,
        },
    decreases fuel,
{
    if fuel == 0 {
        return parse_fail("expression too deeply nested");
    }
    let (left, p) = parse_additive(tokens, pos, fuel - 1)?;
    if peek_sym(tokens, p, 61) || peek_sym(tokens, p, 60) || peek_sym(tokens, p, 62) {
        let op = if peek_sym(tokens, p, 61) {
            BinaryOperator::Equal
        } else if peek_sym(tokens, p, 60) {
            BinaryOperator::LessThan
        } else {
            BinaryOperator::GreaterThan
        };
        let (right, p2) = parse_additive(tokens, p + 1, fuel - 1)?;
        Ok((Expression::Binary { op, left: Box::new(left), right: Box::new(right) }, p2))
    } else {
        Ok((left, p))
    }
}

fn parse_conjunction(tokens: &Vec<Token>, pos: usize, fuel: u32) -> (r: Result<
    (Expression, usize),
    ParseError,
>)
    requires
        pos <= tokens@.len(),
    ensures
        match r {
            Ok((e, p)) => e.wf() && pos < p <= tokens@.len(),
            Err(_) => true,
        },
    decreases fuel,
{
    if fuel == 0 {
        return parse_fail("expression too deeply nested");
    }
    let (first, p0) = parse_comparison(tokens, pos, fuel - 1)?;
    let mut left = first;
    let mut p = p0;
    let n = tokens.len();
    while p < n && peek_word(tokens, p, "and")
        invariant
            n == tokens@.len(),
            pos < p <= n,
            fuel >= 1,
            left.wf(),
        decreases n - p,
    {
        let res = parse_comparison(tokens, p + 1, fuel - 1);
        match res {
            Ok((rhs, p2)) => {
                left = Expression::Binary {
                    op: BinaryOperator::And,
                    left: Box::new(left),
                    right: Box::new(rhs),
                };
                p = p2;
            },
            Err(e) => {
                return Err(e);
            },
        }
    }
    Ok((left, p))
}

fn parse_expr(tokens: &Vec<Token>, pos: usize, fuel: u32) -> (r: Result<
    (Expression, usize),
    ParseError,
>)
    requires
        pos <= tokens@.len(),
    ensures
        match r {
            Ok((e, p)) => e.wf() && pos < p <= tokens@.len(),
            Err(_) => true,
        },
    decreases fuel,
{
    if fuel == 0 {
        return parse_fail("expression too deeply nested");
    }
    let (first, p0) = parse_conjunction(tokens, pos, fuel - 1)?;
    let mut left = first;
    let mut p = p0;
    let n = tokens.len();
    while p < n && peek_word(tokens, p, "or")
        invariant
            n == tokens@.len(),
            pos < p <= n,
            fuel >= 1,
            left.wf(),
        decreases n - p,
    {
        let res = parse_conjunction(tokens, p + 1, fuel - 1);
        match res {
            Ok((rhs, p2)) => {
                left = Expression::Binary {
                    op: BinaryOperator::Or,
                    left: Box::new(left),
                    right: Box::new(rhs),
                };
                p = p2;
            },
            Err(e) => {
                return Err(e);
            },
        }
    }
    Ok((left, p))
}

fn parse_table_expression(tokens: &Vec<Token>, pos: usize) -> (r: Result<
    (TableExpression, usize),
    ParseError,
>)
    requires
        pos <= tokens@.len(),
    ensures
        match r {
            Ok((t, p)) => table_expression_wf(t) && pos < p <= tokens@.len(),
            Err(_) => true,
        },
{
    let (first, p) = parse_identifier(tokens, pos)?;
    if peek_sym(tokens, p, 46) {
        let (second, p2) = parse_identifier(tokens, p + 1)?;
        Ok((TableExpression::Named { table: second, schema: Some(first) }, p2))
    } else {
        Ok((TableExpression::Named { table: first, schema: None }, p))
    }
}

/// The parser for select statements.
pub struct SelectStatementParser {}

impl SelectStatementParser {
    /// Makes a parser.
    pub fn new() -> SelectStatementParser {
        SelectStatementParser {  }
    }

    /// Parses the query text; a statement that comes back is well-formed,
    /// with every identifier folded to lowercase.
    pub fn parse(&self, query: &str) -> (r: Result<SelectStatement, ParseError>)
        ensures
            match r {
                Ok(s) => s.wf(),
                Err(_) => true,
            },
    {
        let tokens = tokenize(query.as_bytes())?;
        let n = tokens.len();
        if !peek_word(&tokens, 0, "select") {
            return parse_fail("expected the query to start with a select");
        }
        let mut pos: usize = 1;
        let mut result_exprs: Vec<AliasedResultExpr> = Vec::new();
        loop
            invariant
                n == tokens@.len(),
                pos <= n,
                forall|i: int| 0 <= i < result_exprs@.len() ==> (#[trigger] result_exprs@[i]).wf(),
            decreases n - pos,
        {
            let (e, p1) = parse_expr(&tokens, pos, 64)?;
            let mut p = p1;
            let alias: Identifier;
            if peek_word(&tokens, p, "as") {
                let (a, p2) = parse_identifier(&tokens, p + 1)?;
                alias = a;
                p = p2;
            } else {
                match &e {
                    Expression::Column(id) => {
                        alias = id.clone();
                    },
                    _ => {
                        return parse_fail("a projected expression must be aliased");
                    },
                }
            }
            result_exprs.push(AliasedResultExpr { expr: Box::new(e), alias });
            if peek_sym(&tokens, p, 44) {
                if p + 1 >= n {
                    return parse_fail("expected an expression after the comma");
                }
                pos = p + 1;
            } else {
                pos = p;
                break;
            }
        }
        if !peek_word(&tokens, pos, "from") {
            return parse_fail("expected a from clause");
        }
        let (table, p3) = parse_table_expression(&tokens, pos + 1)?;
        let mut from: Vec<TableExpression> = Vec::new();
        from.push(table);
        let mut pos2 = p3;
        let mut where_expr: Option<Box<Expression>> = None;
        if peek_word(&tokens, pos2, "where") {
            let (w, p4) = parse_expr(&tokens, pos2 + 1, 64)?;
            where_expr = Some(Box::new(w));
            pos2 = p4;
        }
        let mut group_by: Vec<Identifier> = Vec::new();
        if peek_word(&tokens, pos2, "group") {
            if !peek_word(&tokens, pos2 + 1, "by") {
                return parse_fail("expected the group keyword to be followed by by");
            }
            pos2 = pos2 + 2;
            loop
                invariant
                    n == tokens@.len(),
                    pos2 <= n,
                    forall|i: int| 0 <= i < group_by@.len() ==> (#[trigger] group_by@[i]).wf(),
                decreases n - pos2,
            {
                let (id, p5) = parse_identifier(&tokens, pos2)?;
                group_by.push(id);
                if peek_sym(&tokens, p5, 44) {
                    if p5 + 1 >= n {
                        return parse_fail("expected an identifier after the comma");
                    }
                    pos2 = p5 + 1;
                } else {
                    pos2 = p5;
                    break;
                }
            }
        }
        let mut order_by: Vec<OrderBy> = Vec::new();
        if peek_word(&tokens, pos2, "order") {
            if !peek_word(&tokens, pos2 + 1, "by") {
                return parse_fail("expected the order keyword to be followed by by");
            }
            pos2 = pos2 + 2;
            loop
                invariant
                    n == tokens@.len(),
                    pos2 <= n,
                    forall|i: int| 0 <= i < order_by@.len() ==> (#[trigger] order_by@[i]).expr.wf(),
                decreases n - pos2,
            {
                let (id, p6) = parse_identifier(&tokens, pos2)?;
                let mut p = p6;
                let mut direction = OrderByDirection::Asc;
                if peek_word(&tokens, p, "asc") {
                    p = p + 1;
                } else if peek_word(&tokens, p, "desc") {
                    direction = OrderByDirection::Desc;
                    p = p + 1;
                }
                order_by.push(OrderBy { expr: id, direction });
                if peek_sym(&tokens, p, 44) {
                    if p + 1 >= n {
                        return parse_fail("expected an identifier after the comma");
                    }
                    pos2 = p + 1;
                } else {
                    pos2 = p;
                    break;
                }
            }
        }
        let mut slice: Option<Slice> = None;
        let mut number_rows: u64 = u64::MAX;
        let mut offset_value: i64 = 0;
        let mut have_slice = false;
        if peek_word(&tokens, pos2, "limit") {
            if pos2 + 1 >= n {
                return parse_fail("expected a row count after limit");
            }
            match &tokens[pos2 + 1] {
                Token::Num(v) => {
                    number_rows = *v as u64;
                },
                _ => {
                    return parse_fail("expected a row count after limit");
                },
            }
            have_slice = true;
            pos2 = pos2 + 2;
        }
        if peek_word(&tokens, pos2, "offset") {
            if pos2 + 1 >= n {
                return parse_fail("expected a row count after offset");
            }
            match &tokens[pos2 + 1] {
                Token::Num(v) => {
                    offset_value = *v;
                },
                _ => {
                    return parse_fail("expected a row count after offset");
                },
            }
            have_slice = true;
            pos2 = pos2 + 2;
        }
        if have_slice {
            slice = Some(Slice { number_rows, offset_value });
        }
        if peek_sym(&tokens, pos2, 59) {
            pos2 = pos2 + 1;
        }
        if pos2 != n {
            return parse_fail("unexpected trailing tokens");
        }
        Ok(SelectStatement {
            expr: Box::new(SetExpression::Query { result_exprs, from, where_expr, group_by }),
            order_by,
            slice,
        })
    }
}


/// How a slice's row count maps to an offset clause: the all-ones count
/// stands for no limit, one for a single-row offset, anything else for an
/// exact row cap.
#[derive(PartialEq, Eq, Structural, Clone, Copy, Debug)]
pub enum OffsetRowsKind {
    NoRows,
    SingleRow,
    ManyRows,
}

/// The offset-rows kind a slice maps to: `u64::MAX` means no limit, one a
/// single row, and any other value an exact row cap.
pub fn slice_rows_kind(number_rows: u64) -> (r: OffsetRowsKind)
    ensures
        number_rows == u64::MAX ==> r == OffsetRowsKind::NoRows,
        number_rows == 1 ==> r == OffsetRowsKind::SingleRow,
        (number_rows != u64::MAX && number_rows != 1) ==> r == OffsetRowsKind::ManyRows,
{
    if number_rows == u64::MAX {
        OffsetRowsKind::NoRows
    } else if number_rows == 1 {
        OffsetRowsKind::SingleRow
    } else {
        OffsetRowsKind::ManyRows
    }
}

/// Whether an order-by term sorts ascending.
pub fn order_by_is_ascending(direction: OrderByDirection) -> (r: bool)
    ensures
        r == (direction == OrderByDirection::Asc),
{
    matches!(direction, OrderByDirection::Asc)
}

} // verus!
