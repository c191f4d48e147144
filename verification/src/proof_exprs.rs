//! Provable query expressions: a tree of typed operators, each of which
//! produces its result column, emits its sum-check contributions on the
//! prover side, and consumes the matching evaluations on the verifier
//! side, in the same order.
use vstd::prelude::*;
use vstd::arithmetic::div_mod::{lemma_small_mod, lemma_mod_multiples_vanish, lemma_mul_mod_noop, lemma_add_mod_noop, lemma_mod_twice};
use crate::scalar::{Scalar, fmod, field_order, pow_nat, varchar_hash, batch_inversion};
use crate::column::{Column, ColumnType, LiteralValue, col_len, col_wf};
use crate::identifier::{Identifier, ResourceId};
use crate::builders::{
    ProofError,
    CountBuilder,
    FinalRoundBuilder,
    VerificationBuilder,
    SumcheckSubpolynomial,
    SumcheckSubpolynomialType,
    SubpolynomialTerm,
    subpolynomial_row,
    terms_row_sum,
    factors_row_product,
};

verus! {

/// A schema-qualified table name.
#[derive(Debug, Clone, PartialEq, Eq)]
pub struct TableRef {
    pub resource_id: ResourceId,
}

/// A column of a table: the table, the column identifier and the type.
#[derive(Debug, Clone)]
pub struct ColumnRef {
    pub table_ref: TableRef,
    pub column_id: Identifier,
    pub column_type: ColumnType,
}

/// The committed data one query runs over: equal-length named columns.
pub struct Table {
    length: usize,
    offset: usize,
    columns: Vec<(Identifier, Column)>,
}

impl Table {
    /// The number of rows.
    pub closed spec fn spec_len(&self) -> nat {
        self.length as nat
    }

    /// The named columns, in insertion order.
    pub closed spec fn cols_seq(&self) -> Seq<(Identifier, Column)> {
        self.columns@
    }

    /// All columns are well-formed and have the table's length.
    pub open spec fn wf(&self) -> bool {
        forall|i: int| 0 <= i < self.cols_seq().len() ==> col_wf((#[trigger] self.cols_seq()[i]).1)
            && col_len(self.cols_seq()[i].1) == self.spec_len()
    }

    /// The offset of the table's rows within its commitments.
    pub closed spec fn spec_offset(&self) -> nat {
        self.offset as nat
    }

    /// An empty table of the given length, at offset zero.
    pub fn new(length: usize) -> (r: Table)
        ensures
            r.spec_len() == length,
            r.spec_offset() == 0,
            r.cols_seq() =~= Seq::<(Identifier, Column)>::empty(),
            r.wf(),
    {
        Table { length, offset: 0, columns: Vec::new() }
    }

    /// An empty table of the given length at the given offset.
    pub fn new_with_offset(length: usize, offset: usize) -> (r: Table)
        ensures
            r.spec_len() == length,
            r.spec_offset() == offset,
            r.cols_seq() =~= Seq::<(Identifier, Column)>::empty(),
            r.wf(),
    {
        Table { length, offset, columns: Vec::new() }
    }

    /// The offset of the table's rows within its commitments.
    pub fn offset(&self) -> (r: usize)
        ensures
            r == self.spec_offset(),
    {
        self.offset
    }

    /// The number of rows.
    pub fn length(&self) -> (r: usize)
        ensures
            r == self.spec_len(),
    {
        self.length
    }

    /// Adds a named column; its length must match the table's.
    pub fn push_column(&mut self, id: Identifier, col: Column)
        requires
            col_wf(col),
            col_len(col) == old(self).spec_len(),
            old(self).wf(),
        ensures
            final(self).cols_seq() =~= old(self).cols_seq().push((id, col)),
            final(self).spec_len() == old(self).spec_len(),
            final(self).spec_offset() == old(self).spec_offset(),
            final(self).wf(),
    {
        self.columns.push((id, col));
    }

    /// The first column stored under the identifier.
    pub fn get_column(&self, id: &Identifier) -> (r: Option<&Column>)
        ensures
            match r {
                Some(c) => table_lookup(*self, id@) == Some(*c),
                None => table_lookup(*self, id@) is None,
            },
    {
        let n = self.columns.len();
        let mut i: usize = 0;
        while i < n
            invariant
                n == self.cols_seq().len(),
                0 <= i <= n,
                forall|j: int| 0 <= j < i ==> (#[trigger] self.cols_seq()[j]).0@ != id@,
            decreases n - i,
        {
            if &self.columns[i].0 == id {
                proof {
                    lemma_table_lookup_at(*self, id@, i as int);
                }
                return Some(&self.columns[i].1);
            }
            i += 1;
        }
        proof {
            lemma_table_lookup_none(*self, id@);
        }
        None
    }
}

/// The first column of the table stored under the identifier view.
pub open spec fn table_lookup(t: Table, id: Seq<u8>) -> Option<Column> {
    lookup_cols(t.cols_seq(), id)
}

pub open spec fn lookup_cols(cols: Seq<(Identifier, Column)>, id: Seq<u8>) -> Option<Column>
    decreases cols.len(),
{
    if cols.len() == 0 {
        None
    } else if cols[0].0@ == id {
        Some(cols[0].1)
    } else {
        lookup_cols(cols.drop_first(), id)
    }
}

proof fn lemma_lookup_cols_at(cols: Seq<(Identifier, Column)>, id: Seq<u8>, k: int)
    requires
        0 <= k < cols.len(),
        forall|j: int| 0 <= j < k ==> (#[trigger] cols[j]).0@ != id,
        cols[k].0@ == id,
    ensures
        lookup_cols(cols, id) == Some(cols[k].1),
    decreases k,
{
    if k > 0 {
        let c1 = cols.drop_first();
        assert(forall|j: int| 0 <= j < k - 1 ==> (#[trigger] c1[j]).0@ != id);
        lemma_lookup_cols_at(c1, id, k - 1);
    }
}

proof fn lemma_table_lookup_at(t: Table, id: Seq<u8>, k: int)
    requires
        0 <= k < t.cols_seq().len(),
        forall|j: int| 0 <= j < k ==> (#[trigger] t.cols_seq()[j]).0@ != id,
        t.cols_seq()[k].0@ == id,
    ensures
        table_lookup(t, id) == Some(t.cols_seq()[k].1),
{
    lemma_lookup_cols_at(t.cols_seq(), id, k);
}

proof fn lemma_lookup_cols_none(cols: Seq<(Identifier, Column)>, id: Seq<u8>)
    requires
        forall|j: int| 0 <= j < cols.len() ==> (#[trigger] cols[j]).0@ != id,
    ensures
        lookup_cols(cols, id) is None,
    decreases cols.len(),
{
    if cols.len() > 0 {
        lemma_lookup_cols_none(cols.drop_first(), id);
    }
}

proof fn lemma_table_lookup_none(t: Table, id: Seq<u8>)
    requires
        forall|j: int| 0 <= j < t.cols_seq().len() ==> (#[trigger] t.cols_seq()[j]).0@ != id,
    ensures
        table_lookup(t, id) is None,
{
    lemma_lookup_cols_none(t.cols_seq(), id);
}

/// The verifier's view of the committed columns: the evaluation of each
/// column's multilinear extension at the sum-check challenge point, as
/// supplied by the commitment opening.
pub struct CommitmentEvaluationAccessor {
    evals: Vec<(Identifier, Scalar)>,
}

/// The first evaluation stored under the identifier view.
pub open spec fn eval_lookup(evals: Seq<(Identifier, Scalar)>, id: Seq<u8>) -> Option<Scalar>
    decreases evals.len(),
{
    if evals.len() == 0 {
        None
    } else if evals[0].0@ == id {
        Some(evals[0].1)
    } else {
        eval_lookup(evals.drop_first(), id)
    }
}

impl CommitmentEvaluationAccessor {
    /// The named evaluations in insertion order.
    pub closed spec fn evals_seq(&self) -> Seq<(Identifier, Scalar)> {
        self.evals@
    }

    /// Every stored evaluation is canonical.
    pub open spec fn wf(&self) -> bool {
        forall|i: int| 0 <= i < self.evals_seq().len() ==> (#[trigger] self.evals_seq()[i]).1.wf()
    }

    /// An empty accessor.
    pub fn new() -> (r: CommitmentEvaluationAccessor)
        ensures
            r.evals_seq() =~= Seq::<(Identifier, Scalar)>::empty(),
            r.wf(),
    {
        CommitmentEvaluationAccessor { evals: Vec::new() }
    }

    /// Records the evaluation of one committed column.
    pub fn push_evaluation(&mut self, id: Identifier, value: Scalar)
        requires
            value.wf(),
            old(self).wf(),
        ensures
            final(self).evals_seq() =~= old(self).evals_seq().push((id, value)),
            final(self).wf(),
    {
        self.evals.push((id, value));
        proof {
            assert forall|i: int| 0 <= i < self.evals@.len() implies (
            #[trigger] self.evals@[i]).1.wf() by {
                if i < old(self).evals_seq().len() {
                    assert(self.evals@[i] == old(self).evals_seq()[i]);
                }
            }
        }
    }

    /// The evaluation of the named column, where one is recorded.
    pub fn get_evaluation(&self, id: &Identifier) -> (r: Option<Scalar>)
        requires
            self.wf(),
        ensures
            r == eval_lookup(self.evals_seq(), id@),
            r is Some ==> r->0.wf(),
    {
        let n = self.evals.len();
        let mut i: usize = 0;
        while i < n
            invariant
                n == self.evals_seq().len(),
                self.wf(),
                0 <= i <= n,
                forall|j: int| 0 <= j < i ==> (#[trigger] self.evals_seq()[j]).0@ != id@,
            decreases n - i,
        {
            if &self.evals[i].0 == id {
                proof {
                    lemma_eval_lookup_at(self.evals_seq(), id@, i as int);
                }
                return Some(self.evals[i].1);
            }
            i += 1;
        }
        proof {
            lemma_eval_lookup_none(self.evals_seq(), id@);
        }
        None
    }
}

proof fn lemma_eval_lookup_at(evals: Seq<(Identifier, Scalar)>, id: Seq<u8>, k: int)
    requires
        0 <= k < evals.len(),
        forall|j: int| 0 <= j < k ==> (#[trigger] evals[j]).0@ != id,
        evals[k].0@ == id,
    ensures
        eval_lookup(evals, id) == Some(evals[k].1),
    decreases k,
{
    if k > 0 {
        let e1 = evals.drop_first();
        assert(forall|j: int| 0 <= j < k - 1 ==> (#[trigger] e1[j]).0@ != id);
        lemma_eval_lookup_at(e1, id, k - 1);
    }
}

proof fn lemma_eval_lookup_none(evals: Seq<(Identifier, Scalar)>, id: Seq<u8>)
    requires
        forall|j: int| 0 <= j < evals.len() ==> (#[trigger] evals[j]).0@ != id,
    ensures
        eval_lookup(evals, id) is None,
    decreases evals.len(),
{
    if evals.len() > 0 {
        lemma_eval_lookup_none(evals.drop_first(), id);
    }
}

/// The canonical residue a signed integer embeds to.
pub open spec fn int_embed(x: int) -> nat {
    if x >= 0 {
        x as nat
    } else {
        (field_order() - ((-x) as nat)) as nat
    }
}

/// The scalar a cell of a column evaluates to: booleans map to 0 and 1,
/// integers embed with their sign, varchar cells map to their hash.
pub open spec fn cell_scalar(c: Column, i: int) -> nat {
    match c {
        Column::Boolean(v) => if v@[i] {
            1nat
        } else {
            0nat
        },
        Column::TinyInt(v) => int_embed(v@[i] as int),
        Column::SmallInt(v) => int_embed(v@[i] as int),
        Column::Int(v) => int_embed(v@[i] as int),
        Column::BigInt(v) => int_embed(v@[i] as int),
        Column::Int128(v) => int_embed(v@[i] as int),
        Column::Decimal75(_, _, v) => v@[i]@,
        Column::Scalar(v) => v@[i]@,
        Column::VarChar(_, h) => h@[i]@,
        Column::TimestampTZ(_, _, v) => int_embed(v@[i] as int),
    }
}

/// The scalar a literal evaluates to.
pub open spec fn lit_scalar(l: LiteralValue) -> nat {
    match l {
        LiteralValue::Boolean(x) => if x {
            1nat
        } else {
            0nat
        },
        LiteralValue::TinyInt(x) => int_embed(x as int),
        LiteralValue::SmallInt(x) => int_embed(x as int),
        LiteralValue::Int(x) => int_embed(x as int),
        LiteralValue::BigInt(x) => int_embed(x as int),
        LiteralValue::Int128(x) => int_embed(x as int),
        LiteralValue::Scalar(s) => s@,
        LiteralValue::VarChar(s) => varchar_hash(s@),
        LiteralValue::TimestampTZ(_, _, x) => int_embed(x as int),
    }
}

/// Converts the cells of a column to their scalar values.
pub fn col_to_scalars(c: &Column) -> (r: Vec<Scalar>)
    requires
        col_wf(*c),
    ensures
        r@.len() == col_len(*c),
        forall|i: int| 0 <= i < r@.len() ==> (#[trigger] r@[i])@ == cell_scalar(*c, i),
        forall|i: int| 0 <= i < r@.len() ==> (#[trigger] r@[i]).wf(),
{
    let n = c.len();
    let mut out: Vec<Scalar> = Vec::new();
    let mut i: usize = 0;
    while i < n
        invariant
            n == col_len(*c),
            col_wf(*c),
            0 <= i <= n,
            out@.len() == i,
            forall|j: int| 0 <= j < i ==> (#[trigger] out@[j])@ == cell_scalar(*c, j),
            forall|j: int| 0 <= j < i ==> (#[trigger] out@[j]).wf(),
        decreases n - i,
    {
        let s = match c {
            Column::Boolean(v) => Scalar::from_u64(if v[i] {
                1
            } else {
                0
            }),
            Column::TinyInt(v) => Scalar::from_i64(v[i] as i64),
            Column::SmallInt(v) => Scalar::from_i64(v[i] as i64),
            Column::Int(v) => Scalar::from_i64(v[i] as i64),
            Column::BigInt(v) => Scalar::from_i64(v[i]),
            Column::Int128(v) => Scalar::from_i128(v[i]),
            Column::Decimal75(_, _, v) => v[i],
            Column::Scalar(v) => v[i],
            Column::VarChar(_, h) => h[i],
            Column::TimestampTZ(_, _, v) => Scalar::from_i64(v[i]),
        };
        out.push(s);
        i += 1;
    }
    out
}

/// Copies a scalar column.
pub fn copy_scalars(v: &Vec<Scalar>) -> (r: Vec<Scalar>)
    ensures
        r@ =~= v@,
{
    let n = v.len();
    let mut out: Vec<Scalar> = Vec::new();
    let mut i: usize = 0;
    while i < n
        invariant
            n == v@.len(),
            0 <= i <= n,
            out@.len() == i,
            forall|j: int| 0 <= j < i ==> out@[j] == v@[j],
        decreases n - i,
    {
        out.push(v[i]);
        i += 1;
    }
    out
}

/// Residues cancel exactly on equality: for canonical u and v, the field
/// difference u - v is zero exactly when u equals v.
pub proof fn lemma_fmod_cancel(u: nat, v: nat)
    requires
        u < field_order(),
        v < field_order(),
    ensures
        (fmod(u + field_order() - v) == 0) <==> (u == v),
{
    if u == v {
        assert(u + field_order() - v == field_order() * 1 + 0);
        lemma_mod_multiples_vanish(1, 0, field_order() as int);
        lemma_small_mod(0, field_order());
    } else if u > v {
        assert(u + field_order() - v == field_order() * 1 + (u - v));
        lemma_mod_multiples_vanish(1, u - v, field_order() as int);
        lemma_small_mod((u - v) as nat, field_order());
    } else {
        lemma_small_mod((u + field_order() - v) as nat, field_order());
    }
}

/// Scales both operands to the larger scale by powers of ten and
/// subtracts them element-wise in the field.
pub fn scale_and_subtract(
    lhs: &Vec<Scalar>,
    rhs: &Vec<Scalar>,
    lhs_scale: i8,
    rhs_scale: i8,
) -> (r: Vec<Scalar>)
    requires
        lhs@.len() == rhs@.len(),
        forall|i: int| 0 <= i < lhs@.len() ==> (#[trigger] lhs@[i]).wf(),
        forall|i: int| 0 <= i < rhs@.len() ==> (#[trigger] rhs@[i]).wf(),
    ensures
        r@.len() == lhs@.len(),
        forall|i: int| 0 <= i < r@.len() ==> (#[trigger] r@[i])@ == fmod(
            scaled_val(lhs@[i]@, lhs_scale as int, rhs_scale as int) + field_order() - scaled_val(
                rhs@[i]@,
                rhs_scale as int,
                lhs_scale as int,
            ),
        ),
        forall|i: int| 0 <= i < r@.len() ==> (#[trigger] r@[i]).wf(),
{
    let dl: u8 = scale_delta(lhs_scale, rhs_scale);
    let dr: u8 = scale_delta(rhs_scale, lhs_scale);
    let pl = Scalar::pow10(dl);
    let pr = Scalar::pow10(dr);
    let n = lhs.len();
    let mut out: Vec<Scalar> = Vec::new();
    let mut i: usize = 0;
    while i < n
        invariant
            n == lhs@.len() == rhs@.len(),
            0 <= i <= n,
            out@.len() == i,
            forall|j: int| 0 <= j < n ==> (#[trigger] lhs@[j]).wf(),
            forall|j: int| 0 <= j < n ==> (#[trigger] rhs@[j]).wf(),
            pl@ == fmod(pow_nat(10, spec_scale_delta(lhs_scale as int, rhs_scale as int)) as int),
            pr@ == fmod(pow_nat(10, spec_scale_delta(rhs_scale as int, lhs_scale as int)) as int),
            pl.wf(),
            pr.wf(),
            forall|j: int| 0 <= j < i ==> (#[trigger] out@[j])@ == fmod(
                scaled_val(lhs@[j]@, lhs_scale as int, rhs_scale as int) + field_order()
                    - scaled_val(rhs@[j]@, rhs_scale as int, lhs_scale as int),
            ),
            forall|j: int| 0 <= j < i ==> (#[trigger] out@[j]).wf(),
        decreases n - i,
    {
        let a = lhs[i].mul(&pl);
        let b = rhs[i].mul(&pr);
        let d = a.sub(&b);
        proof {
            let ord = field_order() as int;
            let av = lhs@[i as int]@ as int;
            let bv = rhs@[i as int]@ as int;
            let pa = pow_nat(10, spec_scale_delta(lhs_scale as int, rhs_scale as int)) as int;
            let pb = pow_nat(10, spec_scale_delta(rhs_scale as int, lhs_scale as int)) as int;
            lemma_small_mod(lhs@[i as int]@, field_order());
            lemma_small_mod(rhs@[i as int]@, field_order());
            lemma_mul_mod_noop(av, pa, ord);
            lemma_mod_twice(pa, ord);
            assert(a@ == fmod(av * pa));
            lemma_mul_mod_noop(bv, pb, ord);
            lemma_mod_twice(pb, ord);
            assert(b@ == fmod(bv * pb));
            assert(d@ == fmod(scaled_val(lhs@[i as int]@, lhs_scale as int, rhs_scale as int)
                + field_order() - scaled_val(rhs@[i as int]@, rhs_scale as int, lhs_scale as int)))
                by {
                    lemma_scaled_sub_congruence(
                        lhs@[i as int]@,
                        rhs@[i as int]@,
                        lhs_scale as int,
                        rhs_scale as int,
                        a@ as int,
                        b@ as int,
                    );
                    assert(d@ == fmod(a@ + field_order() - b@));
                };
        }
        out.push(d);
        i += 1;
    }
    out
}

/// The positive difference of scales: how many factors of ten an operand
/// at scale `own` needs to reach scale `other` when the other is larger.
pub open spec fn spec_scale_delta(own: int, other: int) -> nat {
    if other > own {
        (other - own) as nat
    } else {
        0nat
    }
}

/// One operand scaled to the common scale, before reduction.
pub open spec fn scaled_val(v: nat, own: int, other: int) -> int {
    (v * pow_nat(10, spec_scale_delta(own, other))) as int
}

fn scale_delta(own: i8, other: i8) -> (r: u8)
    ensures
        r as nat == spec_scale_delta(own as int, other as int),
{
    if other > own {
        (other as i16 - own as i16) as u8
    } else {
        0
    }
}

proof fn lemma_scaled_sub_congruence(u: nat, v: nat, us: int, vs: int, a: int, b: int)
    requires
        a == fmod((u * pow_nat(10, spec_scale_delta(us, vs))) as int),
        b == fmod((v * pow_nat(10, spec_scale_delta(vs, us))) as int),
    ensures
        fmod(a + field_order() - b) == fmod(
            scaled_val(u, us, vs) + field_order() - scaled_val(v, vs, us),
        ),
{
    let ord = field_order() as int;
    let x = scaled_val(u, us, vs);
    let y = scaled_val(v, vs, us);
    lemma_mod_twice(x, ord);
    lemma_mod_twice(y, ord);
    // a + ord - b == fmod(x) + ord - fmod(y); both sides congruent to x + ord - y
    lemma_add_mod_noop(x, ord - fmod(y), ord);
    lemma_add_mod_noop(fmod(x), ord - fmod(y), ord);
    lemma_add_mod_noop(x, ord - y, ord);
    // fmod(ord - y) == fmod(ord - fmod(y))
    assert(ord - y == ord * (-(y / ord)) + (ord - fmod(y))) by (nonlinear_arith)
        requires fmod(y) == y % ord, y % ord == y - (y / ord) * ord
    ;
    assert(y % ord == y - (y / ord) * ord) by (nonlinear_arith)
        requires ord > 0
    ;
    lemma_mod_multiples_vanish(-(y / ord), ord - fmod(y), ord);
}


/// Computes the selection column of the equals-zero gadget without proof
/// side effects: row i is selected exactly when the input is zero there.
pub fn result_evaluate_equals_zero(table_length: usize, lhs: &Vec<Scalar>) -> (r: Vec<bool>)
    requires
        table_length == lhs@.len(),
        forall|i: int| 0 <= i < lhs@.len() ==> (#[trigger] lhs@[i]).wf(),
    ensures
        r@.len() == lhs@.len(),
        forall|i: int| 0 <= i < r@.len() ==> r@[i] == (lhs@[i]@ == 0),
{
    let n = lhs.len();
    let mut out: Vec<bool> = Vec::new();
    let mut i: usize = 0;
    while i < n
        invariant
            n == lhs@.len(),
            0 <= i <= n,
            out@.len() == i,
            forall|j: int| 0 <= j < n ==> (#[trigger] lhs@[j]).wf(),
            forall|j: int| 0 <= j < i ==> out@[j] == (lhs@[j]@ == 0),
        decreases n - i,
    {
        out.push(lhs[i].is_zero());
        i += 1;
    }
    out
}

/// The heart of equality comparisons: proves that the returned selection
/// marks exactly the zero rows of the input. The prover emits the
/// pseudo-inverse and the non-selection as intermediate MLEs and two
/// identity subpolynomials that vanish on every row of the hypercube:
/// selection times input, and non-selection minus input times
/// pseudo-inverse.
pub fn prover_evaluate_equals_zero(
    builder: &mut FinalRoundBuilder,
    lhs: &Vec<Scalar>,
) -> (r: Vec<bool>)
    requires
        old(builder).spec_table_length() == lhs@.len(),
        forall|i: int| 0 <= i < lhs@.len() ==> (#[trigger] lhs@[i]).wf(),
    ensures
        r@.len() == lhs@.len(),
        forall|i: int| 0 <= i < r@.len() ==> r@[i] == (lhs@[i]@ == 0),
        final(builder).spec_table_length() == old(builder).spec_table_length(),
        final(builder).mles_seq().len() == old(builder).mles_seq().len() + 2,
        final(builder).subpolynomials_seq().len() == old(builder).subpolynomials_seq().len() + 2,
        forall|k: int| old(builder).subpolynomials_seq().len() <= k
            < final(builder).subpolynomials_seq().len() ==> {
            &&& (#[trigger] final(builder).subpolynomials_seq()[k]).kind
                == SumcheckSubpolynomialType::Identity
            &&& forall|i: int| 0 <= i < lhs@.len() ==> subpolynomial_row(
                final(builder).subpolynomials_seq()[k],
                i,
            ) == 0
        },
        forall|k: int| 0 <= k < old(builder).mles_seq().len()
            ==> #[trigger] final(builder).mles_seq()[k] == old(builder).mles_seq()[k],
        forall|k: int| 0 <= k < old(builder).subpolynomials_seq().len()
            ==> #[trigger] final(builder).subpolynomials_seq()[k]
                == old(builder).subpolynomials_seq()[k],
        ({
            // the first emitted MLE is the pseudo-inverse of the input,
            // zero on the zero rows
            let pinv = final(builder).mles_seq()[old(builder).mles_seq().len() as int];
            &&& pinv@.len() == lhs@.len()
            &&& forall|i: int| 0 <= i < lhs@.len() ==> (lhs@[i]@ == 0 ==> (
            #[trigger] pinv@[i])@ == 0)
            &&& forall|i: int| 0 <= i < lhs@.len() ==> (lhs@[i]@ != 0 ==> fmod(
                (lhs@[i]@ * (#[trigger] pinv@[i])@) as int,
            ) == 1)
        }),
        ({
            // the second emitted MLE is the non-selection: one exactly on
            // the nonzero rows
            let selnot = final(builder).mles_seq()[old(builder).mles_seq().len() as int + 1];
            &&& selnot@.len() == lhs@.len()
            &&& forall|i: int| 0 <= i < lhs@.len() ==> (#[trigger] selnot@[i])@ == (
            if lhs@[i]@ == 0 {
                0nat
            } else {
                1nat
            })
        }),
{
    let n = lhs.len();
    let mut pseudo_inv = copy_scalars(lhs);
    batch_inversion(&mut pseudo_inv);
    let mut selection: Vec<bool> = Vec::new();
    let mut selection_scalars: Vec<Scalar> = Vec::new();
    let mut selection_not_scalars: Vec<Scalar> = Vec::new();
    let mut i: usize = 0;
    while i < n
        invariant
            n == lhs@.len(),
            0 <= i <= n,
            forall|j: int| 0 <= j < n ==> (#[trigger] lhs@[j]).wf(),
            selection@.len() == i,
            selection_scalars@.len() == i,
            selection_not_scalars@.len() == i,
            forall|j: int| 0 <= j < i ==> selection@[j] == (lhs@[j]@ == 0),
            forall|j: int| 0 <= j < i ==> (#[trigger] selection_scalars@[j])@ == (
                if lhs@[j]@ == 0 { 1nat } else { 0nat }
            ),
            forall|j: int| 0 <= j < i ==> (#[trigger] selection_not_scalars@[j])@ == (
                if lhs@[j]@ == 0 { 0nat } else { 1nat }
            ),
        decreases n - i,
    {
        let z = lhs[i].is_zero();
        selection.push(z);
        if z {
            selection_scalars.push(Scalar::one());
            selection_not_scalars.push(Scalar::zero());
        } else {
            selection_scalars.push(Scalar::zero());
            selection_not_scalars.push(Scalar::one());
        }
        i += 1;
    }
    builder.produce_intermediate_mle(copy_scalars(&pseudo_inv));
    builder.produce_intermediate_mle(copy_scalars(&selection_not_scalars));
    // subpolynomial: selection * lhs
    let mut factors1: Vec<Vec<Scalar>> = Vec::new();
    factors1.push(copy_scalars(lhs));
    factors1.push(selection_scalars);
    let mut terms1: Vec<SubpolynomialTerm> = Vec::new();
    terms1.push(SubpolynomialTerm { coefficient: Scalar::one(), factors: factors1 });
    let ghost t1 = terms1@;
    builder.produce_sumcheck_subpolynomial(SumcheckSubpolynomialType::Identity, terms1);
    // subpolynomial: selection_not - lhs * pseudo_inverse
    let mut factors2a: Vec<Vec<Scalar>> = Vec::new();
    factors2a.push(selection_not_scalars);
    let mut factors2b: Vec<Vec<Scalar>> = Vec::new();
    factors2b.push(copy_scalars(lhs));
    factors2b.push(pseudo_inv);
    let mut terms2: Vec<SubpolynomialTerm> = Vec::new();
    terms2.push(SubpolynomialTerm { coefficient: Scalar::one(), factors: factors2a });
    terms2.push(SubpolynomialTerm { coefficient: Scalar::one().neg(), factors: factors2b });
    let ghost t2 = terms2@;
    builder.produce_sumcheck_subpolynomial(SumcheckSubpolynomialType::Identity, terms2);
    proof {
        let ord = field_order() as int;
        assert forall|i2: int| 0 <= i2 < lhs@.len() implies fmod(terms_row_sum(t1, i2)) == 0 by {
            let lv = lhs@[i2]@ as int;
            let sv = t1[0].factors@[1]@[i2]@ as int;
            assert(factors_row_product(t1[0].factors@.drop_first().drop_first(), i2) == 1);
            assert(factors_row_product(t1[0].factors@.drop_first(), i2) == sv * 1);
            assert(factors_row_product(t1[0].factors@, i2) == lv * (sv * 1));
            assert(terms_row_sum(t1.drop_first(), i2) == 0);
            assert(terms_row_sum(t1, i2) == 1 * (lv * (sv * 1)) + 0);
            if lhs@[i2]@ == 0 {
                assert(terms_row_sum(t1, i2) == 0);
                lemma_small_mod(0, field_order());
            } else {
                assert(sv == 0);
                assert(terms_row_sum(t1, i2) == 0) by (nonlinear_arith)
                    requires terms_row_sum(t1, i2) == 1 * (lv * (sv * 1)) + 0, sv == 0
                ;
                lemma_small_mod(0, field_order());
            }
        }
        assert forall|i2: int| 0 <= i2 < lhs@.len() implies fmod(terms_row_sum(t2, i2)) == 0 by {
            let lv = lhs@[i2]@ as int;
            let nv = t2[0].factors@[0]@[i2]@ as int;
            let pv = t2[1].factors@[1]@[i2]@ as int;
            assert(factors_row_product(t2[0].factors@.drop_first(), i2) == 1);
            assert(factors_row_product(t2[0].factors@, i2) == nv * 1);
            assert(factors_row_product(t2[1].factors@.drop_first().drop_first(), i2) == 1);
            assert(factors_row_product(t2[1].factors@.drop_first(), i2) == pv * 1);
            assert(factors_row_product(t2[1].factors@, i2) == lv * (pv * 1));
            assert(terms_row_sum(t2.drop_first().drop_first(), i2) == 0);
            let negone = (field_order() - 1) as int;
            assert(t2[1].coefficient@ == negone) by {
                lemma_small_mod((field_order() - 1) as nat, field_order());
            }
            assert(terms_row_sum(t2.drop_first(), i2) == negone * (lv * (pv * 1)) + 0);
            assert(terms_row_sum(t2, i2) == 1 * (nv * 1) + (negone * (lv * (pv * 1)) + 0));
            if lhs@[i2]@ == 0 {
                assert(nv == 0 && pv == 0);
                assert(terms_row_sum(t2, i2) == 0) by (nonlinear_arith)
                    requires
                        terms_row_sum(t2, i2) == 1 * (nv * 1) + (negone * (lv * (pv * 1)) + 0),
                        nv == 0,
                        pv == 0,
                ;
                lemma_small_mod(0, field_order());
            } else {
                assert(nv == 1);
                let q = lv * pv;
                assert(fmod(q) == 1);
                assert(terms_row_sum(t2, i2) == 1 + negone * q) by (nonlinear_arith)
                    requires
                        terms_row_sum(t2, i2) == 1 * (nv * 1) + (negone * (lv * (pv * 1)) + 0),
                        nv == 1,
                        q == lv * pv,
                ;
                lemma_mul_mod_noop(negone, q, ord);
                lemma_small_mod((field_order() - 1) as nat, field_order());
                assert(fmod(negone * q) == fmod(negone * 1)) by {
                    assert(fmod(negone) == negone);
                }
                lemma_small_mod((field_order() - 1) as nat, field_order());
                assert(fmod(negone * q) == negone);
                lemma_add_mod_noop(1, negone * q, ord);
                lemma_small_mod(1, field_order());
                lemma_mod_twice(negone * q, ord);
                assert(fmod(1 + negone * q) == fmod(1 + negone));
                assert(1 + negone == field_order() * 1 + 0);
                lemma_mod_multiples_vanish(1, 0, ord);
                lemma_small_mod(0, field_order());
            }
        }
    }
    selection
}

/// The verifier mirror of the equals-zero gadget: consumes the
/// pseudo-inverse and non-selection evaluations, recomputes the selection
/// evaluation as one minus the non-selection, and registers both
/// subpolynomial evaluations; rejects exactly when the evaluation queue
/// is exhausted.
pub fn verifier_evaluate_equals_zero(
    builder: &mut VerificationBuilder,
    lhs_eval: Scalar,
) -> (r: Result<Scalar, ProofError>)
    requires
        lhs_eval.wf(),
        old(builder).one_eval().wf(),
        forall|i: int| 0 <= i < old(builder).evals_seq().len()
            ==> (#[trigger] old(builder).evals_seq()[i]).wf(),
    ensures
        final(builder).evals_seq() == old(builder).evals_seq(),
        final(builder).one_eval() == old(builder).one_eval(),
        final(builder).spec_consumed() >= old(builder).spec_consumed(),
        match r {
            Ok(v) => {
                &&& old(builder).spec_consumed() + 2 <= old(builder).evals_seq().len()
                &&& final(builder).spec_consumed() == old(builder).spec_consumed() + 2
                &&& v@ == fmod(old(builder).one_eval()@ + field_order() - old(
                    builder,
                ).evals_seq()[old(builder).spec_consumed() as int + 1]@)
                &&& v.wf()
                &&& final(builder).subpolynomial_evals_seq() =~= old(
                    builder,
                ).subpolynomial_evals_seq().push(
                    (
                        SumcheckSubpolynomialType::Identity,
                        final(builder).subpolynomial_evals_seq()[old(
                            builder,
                        ).subpolynomial_evals_seq().len() as int].1,
                    ),
                ).push(
                    (
                        SumcheckSubpolynomialType::Identity,
                        final(builder).subpolynomial_evals_seq().last().1,
                    ),
                )
                &&& final(builder).subpolynomial_evals_seq()[old(
                    builder,
                ).subpolynomial_evals_seq().len() as int].1@ == fmod(
                    (v@ * lhs_eval@) as int,
                )
                &&& final(builder).subpolynomial_evals_seq().last().1@ == fmod(
                    old(builder).evals_seq()[old(builder).spec_consumed() as int + 1]@
                        + field_order() - fmod(
                        (lhs_eval@ * old(builder).evals_seq()[old(
                            builder,
                        ).spec_consumed() as int]@) as int,
                    ),
                )
            },
            Err(_) => old(builder).spec_consumed() + 2 > old(builder).evals_seq().len(),
        },
{
    let lhs_pseudo_inv_eval = match builder.consume_intermediate_mle() {
        Ok(v) => v,
        Err(e) => {
            return Err(e);
        },
    };
    let selection_not_eval = match builder.consume_intermediate_mle() {
        Ok(v) => v,
        Err(e) => {
            return Err(e);
        },
    };
    let selection_eval = builder.input_one_evaluation().sub(&selection_not_eval);
    builder.produce_sumcheck_subpolynomial_evaluation(
        SumcheckSubpolynomialType::Identity,
        selection_eval.mul(&lhs_eval),
    );
    builder.produce_sumcheck_subpolynomial_evaluation(
        SumcheckSubpolynomialType::Identity,
        selection_not_eval.sub(&lhs_eval.mul(&lhs_pseudo_inv_eval)),
    );
    Ok(selection_eval)
}

/// Declares the budget of one equals-zero gadget: two intermediate MLEs,
/// two subpolynomials, degree three.
pub fn count_equals_zero(builder: &mut CountBuilder)
    requires
        old(builder).subpolynomials + 2 <= usize::MAX,
        old(builder).intermediate_mles + 2 <= usize::MAX,
    ensures
        final(builder).subpolynomials == old(builder).subpolynomials + 2,
        final(builder).intermediate_mles == old(builder).intermediate_mles + 2,
        final(builder).degree == (if old(builder).degree < 3 {
            3int
        } else {
            old(builder).degree as int
        }),
{
    builder.count_subpolynomials(2);
    builder.count_intermediate_mles(2);
    builder.count_degree(3);
}


/// Equality between two typed sub-expressions: both sides are scaled to a
/// common decimal scale, subtracted, and fed to the equals-zero gadget.
pub struct EqualsExpr {
    pub lhs: Box<DynProofExpr>,
    pub rhs: Box<DynProofExpr>,
}

impl EqualsExpr {
    /// Makes an equality expression over the two operands.
    pub fn new(lhs: Box<DynProofExpr>, rhs: Box<DynProofExpr>) -> (r: EqualsExpr)
        ensures
            r.lhs == lhs,
            r.rhs == rhs,
    {
        EqualsExpr { lhs, rhs }
    }
}

/// A provable expression: a tree of typed operators with boxed children.
pub enum DynProofExpr {
    Column(ColumnRef),
    Literal(LiteralValue),
    Equals(EqualsExpr),
    Not(Box<DynProofExpr>),
    And(Box<DynProofExpr>, Box<DynProofExpr>),
    Or(Box<DynProofExpr>, Box<DynProofExpr>),
}

/// The decimal scale of a type, taking zero where it has none.
pub open spec fn scale_or_zero(t: ColumnType) -> int {
    match t.spec_scale() {
        Some(s) => s as int,
        None => 0,
    }
}

impl DynProofExpr {
    /// The result type of the expression.
    pub open spec fn spec_data_type(self) -> ColumnType {
        match self {
            DynProofExpr::Column(c) => c.column_type,
            DynProofExpr::Literal(l) => l.spec_column_type(),
            _ => ColumnType::Boolean,
        }
    }

    /// Every literal payload in the tree is well-formed.
    pub open spec fn wf(self) -> bool
        decreases self,
    {
        match self {
            DynProofExpr::Column(_) => true,
            DynProofExpr::Literal(l) => l.wf(),
            DynProofExpr::Equals(eq) => eq.lhs.wf() && eq.rhs.wf(),
            DynProofExpr::Not(x) => x.wf(),
            DynProofExpr::And(l, r) => l.wf() && r.wf(),
            DynProofExpr::Or(l, r) => l.wf() && r.wf(),
        }
    }

    /// Every column the tree references is present in the table.
    pub open spec fn resolves(self, t: Table) -> bool
        decreases self,
    {
        match self {
            DynProofExpr::Column(c) => table_lookup(t, c.column_id@) is Some,
            DynProofExpr::Literal(_) => true,
            DynProofExpr::Equals(eq) => eq.lhs.resolves(t) && eq.rhs.resolves(t),
            DynProofExpr::Not(x) => x.resolves(t),
            DynProofExpr::And(l, r) => l.resolves(t) && r.resolves(t),
            DynProofExpr::Or(l, r) => l.resolves(t) && r.resolves(t),
        }
    }

    /// Every column the tree references has a recorded commitment
    /// evaluation.
    pub open spec fn verifier_resolves(self, acc: CommitmentEvaluationAccessor) -> bool
        decreases self,
    {
        match self {
            DynProofExpr::Column(c) => eval_lookup(acc.evals_seq(), c.column_id@) is Some,
            DynProofExpr::Literal(_) => true,
            DynProofExpr::Equals(eq) => eq.lhs.verifier_resolves(acc) && eq.rhs.verifier_resolves(
                acc,
            ),
            DynProofExpr::Not(x) => x.verifier_resolves(acc),
            DynProofExpr::And(l, r) => l.verifier_resolves(acc) && r.verifier_resolves(acc),
            DynProofExpr::Or(l, r) => l.verifier_resolves(acc) && r.verifier_resolves(acc),
        }
    }

    /// How many intermediate MLEs the expression emits.
    pub open spec fn spec_count_mles(self) -> nat
        decreases self,
    {
        match self {
            DynProofExpr::Column(_) => 0nat,
            DynProofExpr::Literal(_) => 0nat,
            DynProofExpr::Equals(eq) => 2 + eq.lhs.spec_count_mles() + eq.rhs.spec_count_mles(),
            DynProofExpr::Not(x) => x.spec_count_mles(),
            DynProofExpr::And(l, r) => 1 + l.spec_count_mles() + r.spec_count_mles(),
            DynProofExpr::Or(l, r) => 1 + l.spec_count_mles() + r.spec_count_mles(),
        }
    }

    /// How many sum-check subpolynomials the expression emits.
    pub open spec fn spec_count_subpolynomials(self) -> nat
        decreases self,
    {
        match self {
            DynProofExpr::Column(_) => 0nat,
            DynProofExpr::Literal(_) => 0nat,
            DynProofExpr::Equals(eq) => 2 + eq.lhs.spec_count_subpolynomials()
                + eq.rhs.spec_count_subpolynomials(),
            DynProofExpr::Not(x) => x.spec_count_subpolynomials(),
            DynProofExpr::And(l, r) => 1 + l.spec_count_subpolynomials()
                + r.spec_count_subpolynomials(),
            DynProofExpr::Or(l, r) => 1 + l.spec_count_subpolynomials()
                + r.spec_count_subpolynomials(),
        }
    }

    /// The scalar value of the expression at one row: column cells and
    /// literals by their embedding; boolean algebra as field arithmetic;
    /// equality as the zero test of the scaled difference.
    pub open spec fn value_at(self, t: Table, i: int) -> nat
        decreases self,
    {
        match self {
            DynProofExpr::Column(c) => match table_lookup(t, c.column_id@) {
                Some(col) => cell_scalar(col, i),
                None => 0nat,
            },
            DynProofExpr::Literal(l) => lit_scalar(l),
            DynProofExpr::Equals(eq) => {
                let lv = eq.lhs.value_at(t, i);
                let rv = eq.rhs.value_at(t, i);
                let ls = scale_or_zero(eq.lhs.spec_data_type());
                let rs = scale_or_zero(eq.rhs.spec_data_type());
                if fmod(scaled_val(lv, ls, rs) + field_order() - scaled_val(rv, rs, ls)) == 0 {
                    1nat
                } else {
                    0nat
                }
            },
            DynProofExpr::Not(x) => fmod(1 + field_order() - x.value_at(t, i)) as nat,
            DynProofExpr::And(l, r) => fmod((l.value_at(t, i) * r.value_at(t, i)) as int) as nat,
            DynProofExpr::Or(l, r) => {
                let lv = l.value_at(t, i);
                let rv = r.value_at(t, i);
                fmod(fmod((lv + rv) as int) + field_order() - fmod((lv * rv) as int)) as nat
            },
        }
    }

    /// The result type of the expression.
    pub fn data_type(&self) -> (r: ColumnType)
        ensures
            r == self.spec_data_type(),
    {
        match self {
            DynProofExpr::Column(c) => c.column_type,
            DynProofExpr::Literal(l) => l.column_type(),
            _ => ColumnType::Boolean,
        }
    }

    /// The sum-check degree the expression needs: three wherever a
    /// product constraint is emitted, zero for plain reads.
    pub open spec fn spec_min_degree(self) -> nat
        decreases self,
    {
        match self {
            DynProofExpr::Column(_) => 0nat,
            DynProofExpr::Literal(_) => 0nat,
            DynProofExpr::Equals(_) => 3nat,
            DynProofExpr::Not(x) => x.spec_min_degree(),
            DynProofExpr::And(_, _) => 3nat,
            DynProofExpr::Or(_, _) => 3nat,
        }
    }

    /// Declares the expression's proof budget.
    pub fn count(&self, builder: &mut CountBuilder)
        requires
            old(builder).intermediate_mles + self.spec_count_mles() <= usize::MAX,
            old(builder).subpolynomials + self.spec_count_subpolynomials() <= usize::MAX,
        ensures
            final(builder).intermediate_mles == old(builder).intermediate_mles
                + self.spec_count_mles(),
            final(builder).subpolynomials == old(builder).subpolynomials
                + self.spec_count_subpolynomials(),
            final(builder).degree == (if old(builder).degree >= self.spec_min_degree() {
                old(builder).degree as int
            } else {
                self.spec_min_degree() as int
            }),
        decreases self,
    {
        proof {
            lemma_min_degree_small(*self);
        }
        match self {
            DynProofExpr::Column(_) => {
            },
            DynProofExpr::Literal(_) => {
            },
            DynProofExpr::Equals(eq) => {
                proof {
                    lemma_min_degree_small(*eq.lhs);
                    lemma_min_degree_small(*eq.rhs);
                }
                eq.lhs.count(builder);
                eq.rhs.count(builder);
                count_equals_zero(builder);
            },
            DynProofExpr::Not(x) => {
                x.count(builder);
            },
            DynProofExpr::And(l, r) => {
                proof {
                    lemma_min_degree_small(**l);
                    lemma_min_degree_small(**r);
                }
                l.count(builder);
                r.count(builder);
                builder.count_subpolynomials(1);
                builder.count_intermediate_mles(1);
                builder.count_degree(3);
            },
            DynProofExpr::Or(l, r) => {
                proof {
                    lemma_min_degree_small(**l);
                    lemma_min_degree_small(**r);
                }
                l.count(builder);
                r.count(builder);
                builder.count_subpolynomials(1);
                builder.count_intermediate_mles(1);
                builder.count_degree(3);
            },
        }
    }

    /// Produces the result column of the expression, as scalar values,
    /// without proof side effects; rejects exactly when a referenced
    /// column is missing.
    pub fn result_evaluate(&self, table: &Table) -> (r: Result<Vec<Scalar>, ProofError>)
        requires
            table.wf(),
            self.wf(),
        ensures
            match r {
                Ok(v) => {
                    &&& self.resolves(*table)
                    &&& v@.len() == table.spec_len()
                    &&& forall|i: int| 0 <= i < v@.len() ==> (#[trigger] v@[i])@ == self.value_at(
                        *table,
                        i,
                    )
                    &&& forall|i: int| 0 <= i < v@.len() ==> (#[trigger] v@[i]).wf()
                },
                Err(_) => !self.resolves(*table),
            },
        decreases self,
    {
        match self {
            DynProofExpr::Column(c) => {
                match table.get_column(&c.column_id) {
                    Some(col) => {
                        proof {
                            lemma_lookup_in_table(*table, c.column_id@);
                        }
                        let v = col_to_scalars(col);
                        Ok(v)
                    },
                    None => Err(ProofError::InvalidColumn),
                }
            },
            DynProofExpr::Literal(l) => Ok(repeat_literal_scalar(l, table.length())),
            DynProofExpr::Equals(eq) => {
                let lv = eq.lhs.result_evaluate(table)?;
                let rv = eq.rhs.result_evaluate(table)?;
                let ls = eq.lhs.data_type().scale();
                let rs = eq.rhs.data_type().scale();
                let diff = scale_and_subtract(
                    &lv,
                    &rv,
                    unwrap_scale(ls),
                    unwrap_scale(rs),
                );
                Ok(selection_to_scalars(&result_evaluate_equals_zero(table.length(), &diff)))
            },
            DynProofExpr::Not(x) => {
                let v = x.result_evaluate(table)?;
                Ok(map_not(&v))
            },
            DynProofExpr::And(l, r) => {
                let lv = l.result_evaluate(table)?;
                let rv = r.result_evaluate(table)?;
                Ok(map_mul(&lv, &rv))
            },
            DynProofExpr::Or(l, r) => {
                let lv = l.result_evaluate(table)?;
                let rv = r.result_evaluate(table)?;
                Ok(map_or(&lv, &rv))
            },
        }
    }
}

proof fn lemma_min_degree_small(e: DynProofExpr)
    ensures
        e.spec_min_degree() == 0 || e.spec_min_degree() == 3,
    decreases e,
{
    match e {
        DynProofExpr::Not(x) => {
            lemma_min_degree_small(*x);
        },
        _ => {
        },
    }
}

/// The scale of a type, with zero where it has none.
pub fn unwrap_scale(s: Option<i8>) -> (r: i8)
    ensures
        r as int == (match s {
            Some(v) => v as int,
            None => 0,
        }),
{
    match s {
        Some(v) => v,
        None => 0,
    }
}

proof fn lemma_lookup_in_table(t: Table, id: Seq<u8>)
    requires
        t.wf(),
        table_lookup(t, id) is Some,
    ensures
        col_wf(table_lookup(t, id)->Some_0),
        col_len(table_lookup(t, id)->Some_0) == t.spec_len(),
{
    lemma_lookup_cols_member(t.cols_seq(), id);
    let c = lookup_cols(t.cols_seq(), id)->Some_0;
    let k = choose|k: int| 0 <= k < t.cols_seq().len() && #[trigger] t.cols_seq()[k].1 == c;
    assert(col_wf(t.cols_seq()[k].1));
}

proof fn lemma_lookup_cols_member(cols: Seq<(Identifier, Column)>, id: Seq<u8>)
    requires
        lookup_cols(cols, id) is Some,
    ensures
        exists|k: int| 0 <= k < cols.len() && #[trigger] cols[k].1 == lookup_cols(
            cols,
            id,
        )->Some_0,
    decreases cols.len(),
{
    if cols.len() > 0 && cols[0].0@ == id {
        assert(cols[0].1 == lookup_cols(cols, id)->Some_0);
    } else {
        lemma_lookup_cols_member(cols.drop_first(), id);
        let k = choose|k: int| 0 <= k < cols.drop_first().len()
            && #[trigger] cols.drop_first()[k].1 == lookup_cols(cols.drop_first(), id)->Some_0;
        assert(cols[k + 1].1 == lookup_cols(cols, id)->Some_0);
    }
}

/// The scalar value of one literal.
/// The evaluation the verifier computes for an expression, given the
/// accessor's committed-column evaluations, the builder's MLE queue, the
/// position the queue has been consumed to, and the one-vector
/// evaluation.
pub open spec fn spec_verifier_value(
    e: DynProofExpr,
    acc: CommitmentEvaluationAccessor,
    evals: Seq<Scalar>,
    k: int,
    one: nat,
) -> int
    decreases e,
{
    match e {
        DynProofExpr::Column(c) => match eval_lookup(acc.evals_seq(), c.column_id@) {
            Some(s) => s@ as int,
            None => 0,
        },
        DynProofExpr::Literal(l) => fmod((lit_scalar(l) * one) as int),
        DynProofExpr::Equals(eq) => fmod(
            one + field_order() - evals[k + eq.lhs.spec_count_mles() as int
                + eq.rhs.spec_count_mles() as int + 1]@,
        ),
        DynProofExpr::Not(x) => fmod(
            one + field_order() - spec_verifier_value(*x, acc, evals, k, one),
        ),
        DynProofExpr::And(l, r) => evals[k + l.spec_count_mles() as int
            + r.spec_count_mles() as int]@ as int,
        DynProofExpr::Or(l, r) => fmod(
            fmod(
                spec_verifier_value(*l, acc, evals, k, one) + spec_verifier_value(
                    *r,
                    acc,
                    evals,
                    k + l.spec_count_mles() as int,
                    one,
                ),
            ) + field_order() - evals[k + l.spec_count_mles() as int
                + r.spec_count_mles() as int]@,
        ),
    }
}

pub fn literal_to_scalar(l: &LiteralValue) -> (r: Scalar)
    requires
        l.wf(),
    ensures
        r@ == lit_scalar(*l),
        r.wf(),
{
    match l {
        LiteralValue::Boolean(x) => Scalar::from_u64(if *x {
            1
        } else {
            0
        }),
        LiteralValue::TinyInt(x) => Scalar::from_i64(*x as i64),
        LiteralValue::SmallInt(x) => Scalar::from_i64(*x as i64),
        LiteralValue::Int(x) => Scalar::from_i64(*x as i64),
        LiteralValue::BigInt(x) => Scalar::from_i64(*x),
        LiteralValue::Int128(x) => Scalar::from_i128(*x),
        LiteralValue::Scalar(x) => *x,
        LiteralValue::VarChar(x) => crate::scalar::hash_str(x.as_str()),
        LiteralValue::TimestampTZ(_, _, x) => Scalar::from_i64(*x),
    }
}

/// The literal's scalar value repeated for each row.
pub fn repeat_literal_scalar(l: &LiteralValue, n: usize) -> (r: Vec<Scalar>)
    requires
        l.wf(),
    ensures
        r@.len() == n,
        forall|i: int| 0 <= i < n ==> (#[trigger] r@[i])@ == lit_scalar(*l),
        forall|i: int| 0 <= i < n ==> (#[trigger] r@[i]).wf(),
{
    let s = match l {
        LiteralValue::Boolean(x) => Scalar::from_u64(if *x {
            1
        } else {
            0
        }),
        LiteralValue::TinyInt(x) => Scalar::from_i64(*x as i64),
        LiteralValue::SmallInt(x) => Scalar::from_i64(*x as i64),
        LiteralValue::Int(x) => Scalar::from_i64(*x as i64),
        LiteralValue::BigInt(x) => Scalar::from_i64(*x),
        LiteralValue::Int128(x) => Scalar::from_i128(*x),
        LiteralValue::Scalar(x) => *x,
        LiteralValue::VarChar(x) => crate::scalar::hash_str(x.as_str()),
        LiteralValue::TimestampTZ(_, _, x) => Scalar::from_i64(*x),
    };
    let mut out: Vec<Scalar> = Vec::new();
    let mut i: usize = 0;
    while i < n
        invariant
            0 <= i <= n,
            out@.len() == i,
            s@ == lit_scalar(*l),
            s.wf(),
            forall|j: int| 0 <= j < i ==> (#[trigger] out@[j])@ == lit_scalar(*l),
            forall|j: int| 0 <= j < i ==> (#[trigger] out@[j]).wf(),
        decreases n - i,
    {
        out.push(s);
        i += 1;
    }
    out
}

/// A selection of booleans as a column of zero-one scalars.
pub fn selection_to_scalars(sel: &Vec<bool>) -> (r: Vec<Scalar>)
    ensures
        r@.len() == sel@.len(),
        forall|i: int| 0 <= i < r@.len() ==> (#[trigger] r@[i])@ == (if sel@[i] {
            1nat
        } else {
            0nat
        }),
        forall|i: int| 0 <= i < r@.len() ==> (#[trigger] r@[i]).wf(),
{
    let n = sel.len();
    let mut out: Vec<Scalar> = Vec::new();
    let mut i: usize = 0;
    while i < n
        invariant
            n == sel@.len(),
            0 <= i <= n,
            out@.len() == i,
            forall|j: int| 0 <= j < i ==> (#[trigger] out@[j])@ == (if sel@[j] {
                1nat
            } else {
                0nat
            }),
            forall|j: int| 0 <= j < i ==> (#[trigger] out@[j]).wf(),
        decreases n - i,
    {
        out.push(Scalar::from_u64(if sel[i] {
            1
        } else {
            0
        }));
        i += 1;
    }
    out
}

/// One minus each element: boolean not in the field.
pub fn map_not(v: &Vec<Scalar>) -> (r: Vec<Scalar>)
    requires
        forall|i: int| 0 <= i < v@.len() ==> (#[trigger] v@[i]).wf(),
    ensures
        r@.len() == v@.len(),
        forall|i: int| 0 <= i < r@.len() ==> (#[trigger] r@[i])@ == fmod(
            1 + field_order() - v@[i]@,
        ),
        forall|i: int| 0 <= i < r@.len() ==> (#[trigger] r@[i]).wf(),
{
    let n = v.len();
    let one = Scalar::one();
    let mut out: Vec<Scalar> = Vec::new();
    let mut i: usize = 0;
    while i < n
        invariant
            n == v@.len(),
            0 <= i <= n,
            out@.len() == i,
            one@ == 1,
            one.wf(),
            forall|j: int| 0 <= j < n ==> (#[trigger] v@[j]).wf(),
            forall|j: int| 0 <= j < i ==> (#[trigger] out@[j])@ == fmod(
                1 + field_order() - v@[j]@,
            ),
            forall|j: int| 0 <= j < i ==> (#[trigger] out@[j]).wf(),
        decreases n - i,
    {
        out.push(one.sub(&v[i]));
        i += 1;
    }
    out
}

/// Element-wise product: boolean and in the field.
pub fn map_mul(a: &Vec<Scalar>, b: &Vec<Scalar>) -> (r: Vec<Scalar>)
    requires
        a@.len() == b@.len(),
        forall|i: int| 0 <= i < a@.len() ==> (#[trigger] a@[i]).wf(),
        forall|i: int| 0 <= i < b@.len() ==> (#[trigger] b@[i]).wf(),
    ensures
        r@.len() == a@.len(),
        forall|i: int| 0 <= i < r@.len() ==> (#[trigger] r@[i])@ == fmod(
            (a@[i]@ * b@[i]@) as int,
        ),
        forall|i: int| 0 <= i < r@.len() ==> (#[trigger] r@[i]).wf(),
{
    let n = a.len();
    let mut out: Vec<Scalar> = Vec::new();
    let mut i: usize = 0;
    while i < n
        invariant
            n == a@.len() == b@.len(),
            0 <= i <= n,
            out@.len() == i,
            forall|j: int| 0 <= j < n ==> (#[trigger] a@[j]).wf(),
            forall|j: int| 0 <= j < n ==> (#[trigger] b@[j]).wf(),
            forall|j: int| 0 <= j < i ==> (#[trigger] out@[j])@ == fmod(
                (a@[j]@ * b@[j]@) as int,
            ),
            forall|j: int| 0 <= j < i ==> (#[trigger] out@[j]).wf(),
        decreases n - i,
    {
        out.push(a[i].mul(&b[i]));
        i += 1;
    }
    out
}

/// Element-wise a + b - a*b: boolean or in the field.
pub fn map_or(a: &Vec<Scalar>, b: &Vec<Scalar>) -> (r: Vec<Scalar>)
    requires
        a@.len() == b@.len(),
        forall|i: int| 0 <= i < a@.len() ==> (#[trigger] a@[i]).wf(),
        forall|i: int| 0 <= i < b@.len() ==> (#[trigger] b@[i]).wf(),
    ensures
        r@.len() == a@.len(),
        forall|i: int| 0 <= i < r@.len() ==> (#[trigger] r@[i])@ == fmod(
            fmod((a@[i]@ + b@[i]@) as int) + field_order() - fmod((a@[i]@ * b@[i]@) as int),
        ),
        forall|i: int| 0 <= i < r@.len() ==> (#[trigger] r@[i]).wf(),
{
    let n = a.len();
    let mut out: Vec<Scalar> = Vec::new();
    let mut i: usize = 0;
    while i < n
        invariant
            n == a@.len() == b@.len(),
            0 <= i <= n,
            out@.len() == i,
            forall|j: int| 0 <= j < n ==> (#[trigger] a@[j]).wf(),
            forall|j: int| 0 <= j < n ==> (#[trigger] b@[j]).wf(),
            forall|j: int| 0 <= j < i ==> (#[trigger] out@[j])@ == fmod(
                fmod((a@[j]@ + b@[j]@) as int) + field_order() - fmod((a@[j]@ * b@[j]@) as int),
            ),
            forall|j: int| 0 <= j < i ==> (#[trigger] out@[j]).wf(),
        decreases n - i,
    {
        out.push(a[i].add(&b[i]).sub(&a[i].mul(&b[i])));
        i += 1;
    }
    out
}


/// A value plus (order - 1) times anything congruent to it vanishes.
proof fn lemma_one_minus_q(p: int, q: int)
    requires
        p == fmod(q),
    ensures
        fmod(p + (field_order() - 1) * q) == 0,
{
    let ord = field_order() as int;
    let negone = (field_order() - 1) as int;
    lemma_mul_mod_noop(negone, q, ord);
    lemma_small_mod((field_order() - 1) as nat, field_order());
    vstd::arithmetic::div_mod::lemma_mod_bound(q, ord);
    assert(fmod(negone * q) == fmod(negone * p)) by {
        lemma_mod_twice(q, ord);
        lemma_mul_mod_noop(negone, p, ord);
        lemma_mod_twice(p, ord);
    }
    lemma_add_mod_noop(p, negone * q, ord);
    lemma_mod_twice(p, ord);
    lemma_mod_twice(negone * q, ord);
    assert(fmod(p + negone * q) == fmod(fmod(p) + fmod(negone * q)));
    lemma_add_mod_noop(p, negone * p, ord);
    lemma_mod_twice(negone * p, ord);
    assert(fmod(p + negone * q) == fmod(p + negone * p));
    assert(p + negone * p == ord * p) by (nonlinear_arith)
        requires negone == ord - 1
    ;
    assert(ord * p == ord * p + 0);
    lemma_mod_multiples_vanish(p, 0, ord);
    lemma_small_mod(0, field_order());
}

/// Emits the product column and its identity subpolynomial for a boolean
/// conjunction or disjunction, and proves the subpolynomial vanishes on
/// every row.
fn produce_product_constraint(
    builder: &mut FinalRoundBuilder,
    a: &Vec<Scalar>,
    b: &Vec<Scalar>,
    prod: &Vec<Scalar>,
)
    requires
        a@.len() == b@.len(),
        prod@.len() == a@.len(),
        forall|i: int| 0 <= i < a@.len() ==> (#[trigger] a@[i]).wf(),
        forall|i: int| 0 <= i < b@.len() ==> (#[trigger] b@[i]).wf(),
        forall|i: int| 0 <= i < prod@.len() ==> (#[trigger] prod@[i])@ == fmod(
            (a@[i]@ * b@[i]@) as int,
        ),
    ensures
        final(builder).spec_table_length() == old(builder).spec_table_length(),
        final(builder).mles_seq().len() == old(builder).mles_seq().len() + 1,
        final(builder).subpolynomials_seq().len() == old(builder).subpolynomials_seq().len() + 1,
        forall|k: int| 0 <= k < old(builder).mles_seq().len()
            ==> #[trigger] final(builder).mles_seq()[k] == old(builder).mles_seq()[k],
        forall|k: int| 0 <= k < old(builder).subpolynomials_seq().len()
            ==> #[trigger] final(builder).subpolynomials_seq()[k]
                == old(builder).subpolynomials_seq()[k],
        ({
            let sp = final(builder).subpolynomials_seq().last();
            &&& sp.kind == SumcheckSubpolynomialType::Identity
            &&& forall|i: int| 0 <= i < a@.len() ==> subpolynomial_row(sp, i) == 0
        }),
{
    builder.produce_intermediate_mle(copy_scalars(prod));
    let mut factors1: Vec<Vec<Scalar>> = Vec::new();
    factors1.push(copy_scalars(prod));
    let mut factors2: Vec<Vec<Scalar>> = Vec::new();
    factors2.push(copy_scalars(a));
    factors2.push(copy_scalars(b));
    let mut terms: Vec<SubpolynomialTerm> = Vec::new();
    terms.push(SubpolynomialTerm { coefficient: Scalar::one(), factors: factors1 });
    terms.push(SubpolynomialTerm { coefficient: Scalar::one().neg(), factors: factors2 });
    let ghost ts = terms@;
    builder.produce_sumcheck_subpolynomial(SumcheckSubpolynomialType::Identity, terms);
    proof {
        lemma_small_mod((field_order() - 1) as nat, field_order());
        assert forall|i: int| 0 <= i < a@.len() implies fmod(terms_row_sum(ts, i)) == 0 by {
            let pv = ts[0].factors@[0]@[i]@ as int;
            let av = ts[1].factors@[0]@[i]@ as int;
            let bv = ts[1].factors@[1]@[i]@ as int;
            let negone = (field_order() - 1) as int;
            assert(factors_row_product(ts[0].factors@.drop_first(), i) == 1);
            assert(factors_row_product(ts[0].factors@, i) == pv * 1);
            assert(factors_row_product(ts[1].factors@.drop_first().drop_first(), i) == 1);
            assert(factors_row_product(ts[1].factors@.drop_first(), i) == bv * 1);
            assert(factors_row_product(ts[1].factors@, i) == av * (bv * 1));
            assert(terms_row_sum(ts.drop_first().drop_first(), i) == 0);
            assert(terms_row_sum(ts.drop_first(), i) == negone * (av * (bv * 1)) + 0);
            assert(terms_row_sum(ts, i) == 1 * (pv * 1) + (negone * (av * (bv * 1)) + 0));
            let q = av * bv;
            assert(terms_row_sum(ts, i) == pv + negone * q) by (nonlinear_arith)
                requires
                    terms_row_sum(ts, i) == 1 * (pv * 1) + (negone * (av * (bv * 1)) + 0),
                    q == av * bv,
            ;
            assert(pv == fmod(q));
            lemma_one_minus_q(pv, q);
        }
    }
}

impl DynProofExpr {
    /// Produces the same result column as `result_evaluate` and emits the
    /// expression's intermediate MLEs and sum-check subpolynomials, in
    /// order; every emitted subpolynomial is an identity that vanishes on
    /// every row of the table.
    pub fn prover_evaluate(
        &self,
        builder: &mut FinalRoundBuilder,
        table: &Table,
    ) -> (r: Result<Vec<Scalar>, ProofError>)
        requires
            table.wf(),
            self.wf(),
            old(builder).spec_table_length() == table.spec_len(),
        ensures
            final(builder).spec_table_length() == old(builder).spec_table_length(),
            forall|k: int| 0 <= k < old(builder).mles_seq().len()
                ==> #[trigger] final(builder).mles_seq()[k] == old(builder).mles_seq()[k],
            forall|k: int| 0 <= k < old(builder).subpolynomials_seq().len()
                ==> #[trigger] final(builder).subpolynomials_seq()[k]
                    == old(builder).subpolynomials_seq()[k],
            final(builder).mles_seq().len() >= old(builder).mles_seq().len(),
            final(builder).subpolynomials_seq().len() >= old(builder).subpolynomials_seq().len(),
            forall|k: int| old(builder).subpolynomials_seq().len() <= k
                < final(builder).subpolynomials_seq().len() ==> {
                &&& (#[trigger] final(builder).subpolynomials_seq()[k]).kind
                    == SumcheckSubpolynomialType::Identity
                &&& forall|i: int| 0 <= i < table.spec_len() ==> subpolynomial_row(
                    final(builder).subpolynomials_seq()[k],
                    i,
                ) == 0
            },
            match r {
                Ok(v) => {
                    &&& self.resolves(*table)
                    &&& v@.len() == table.spec_len()
                    &&& forall|i: int| 0 <= i < v@.len() ==> (#[trigger] v@[i])@ == self.value_at(
                        *table,
                        i,
                    )
                    &&& forall|i: int| 0 <= i < v@.len() ==> (#[trigger] v@[i]).wf()
                    &&& final(builder).mles_seq().len() == old(builder).mles_seq().len()
                        + self.spec_count_mles()
                    &&& final(builder).subpolynomials_seq().len() == old(
                        builder,
                    ).subpolynomials_seq().len() + self.spec_count_subpolynomials()
                },
                Err(_) => !self.resolves(*table),
            },
        decreases self,
    {
        match self {
            DynProofExpr::Column(c) => {
                match table.get_column(&c.column_id) {
                    Some(col) => {
                        proof {
                            lemma_lookup_in_table(*table, c.column_id@);
                        }
                        Ok(col_to_scalars(col))
                    },
                    None => Err(ProofError::InvalidColumn),
                }
            },
            DynProofExpr::Literal(l) => Ok(repeat_literal_scalar(l, table.length())),
            DynProofExpr::Equals(eq) => {
                let lv = eq.lhs.prover_evaluate(builder, table)?;
                let rv = eq.rhs.prover_evaluate(builder, table)?;
                let ls = eq.lhs.data_type().scale();
                let rs = eq.rhs.data_type().scale();
                let diff = scale_and_subtract(&lv, &rv, unwrap_scale(ls), unwrap_scale(rs));
                let sel = prover_evaluate_equals_zero(builder, &diff);
                Ok(selection_to_scalars(&sel))
            },
            DynProofExpr::Not(x) => {
                let v = x.prover_evaluate(builder, table)?;
                Ok(map_not(&v))
            },
            DynProofExpr::And(l, r) => {
                let lv = l.prover_evaluate(builder, table)?;
                let rv = r.prover_evaluate(builder, table)?;
                let prod = map_mul(&lv, &rv);
                produce_product_constraint(builder, &lv, &rv, &prod);
                Ok(prod)
            },
            DynProofExpr::Or(l, r) => {
                let lv = l.prover_evaluate(builder, table)?;
                let rv = r.prover_evaluate(builder, table)?;
                let prod = map_mul(&lv, &rv);
                produce_product_constraint(builder, &lv, &rv, &prod);
                Ok(map_or(&lv, &rv))
            },
        }
    }

    /// Consumes the expression's MLE evaluations in production order and
    /// registers the matching subpolynomial evaluations, returning the
    /// expression's claimed evaluation at the challenge point: a column
    /// reference takes the evaluation the commitment opening supplied, a
    /// literal takes its value times the all-ones evaluation; rejects
    /// when the evaluation queue runs short or a referenced column has no
    /// recorded opening.
    pub fn verifier_evaluate(
        &self,
        builder: &mut VerificationBuilder,
        accessor: &CommitmentEvaluationAccessor,
    ) -> (r: Result<Scalar, ProofError>)
        requires
            self.wf(),
            accessor.wf(),
            old(builder).one_eval().wf(),
            forall|i: int| 0 <= i < old(builder).evals_seq().len()
                ==> (#[trigger] old(builder).evals_seq()[i]).wf(),
        ensures
            final(builder).evals_seq() == old(builder).evals_seq(),
            final(builder).one_eval() == old(builder).one_eval(),
            final(builder).spec_consumed() >= old(builder).spec_consumed(),
            match r {
                Ok(v) => {
                    &&& v.wf()
                    &&& self.verifier_resolves(*accessor)
                    &&& final(builder).spec_consumed() == old(builder).spec_consumed()
                        + self.spec_count_mles()
                    &&& v@ == spec_verifier_value(
                        *self,
                        *accessor,
                        old(builder).evals_seq(),
                        old(builder).spec_consumed() as int,
                        old(builder).one_eval()@,
                    )
                },
                Err(_) => old(builder).spec_consumed() + self.spec_count_mles() > old(
                    builder,
                ).evals_seq().len() || !self.verifier_resolves(*accessor),
            },
        decreases self,
    {
        match self {
            DynProofExpr::Column(c) => {
                match accessor.get_evaluation(&c.column_id) {
                    Some(v) => Ok(v),
                    None => Err(ProofError::InvalidColumn),
                }
            },
            DynProofExpr::Literal(l) => Ok(
                literal_to_scalar(l).mul(&builder.input_one_evaluation()),
            ),
            DynProofExpr::Equals(eq) => {
                let lv = eq.lhs.verifier_evaluate(builder, accessor)?;
                let rv = eq.rhs.verifier_evaluate(builder, accessor)?;
                // scale the evaluations to the common decimal scale, as
                // the prover scaled the columns
                let ls = unwrap_scale(eq.lhs.data_type().scale());
                let rs = unwrap_scale(eq.rhs.data_type().scale());
                let pl = Scalar::pow10(scale_delta(ls, rs));
                let pr = Scalar::pow10(scale_delta(rs, ls));
                let diff = lv.mul(&pl).sub(&rv.mul(&pr));
                verifier_evaluate_equals_zero(builder, diff)
            },
            DynProofExpr::Not(x) => {
                let v = x.verifier_evaluate(builder, accessor)?;
                Ok(builder.input_one_evaluation().sub(&v))
            },
            DynProofExpr::And(l, r) => {
                let lv = l.verifier_evaluate(builder, accessor)?;
                let rv = r.verifier_evaluate(builder, accessor)?;
                let prod = match builder.consume_intermediate_mle() {
                    Ok(v) => v,
                    Err(e) => {
                        return Err(e);
                    },
                };
                builder.produce_sumcheck_subpolynomial_evaluation(
                    SumcheckSubpolynomialType::Identity,
                    prod.sub(&lv.mul(&rv)),
                );
                Ok(prod)
            },
            DynProofExpr::Or(l, r) => {
                let lv = l.verifier_evaluate(builder, accessor)?;
                let rv = r.verifier_evaluate(builder, accessor)?;
                let prod = match builder.consume_intermediate_mle() {
                    Ok(v) => v,
                    Err(e) => {
                        return Err(e);
                    },
                };
                builder.produce_sumcheck_subpolynomial_evaluation(
                    SumcheckSubpolynomialType::Identity,
                    prod.sub(&lv.mul(&rv)),
                );
                Ok(lv.add(&rv).sub(&prod))
            },
        }
    }
}


/// Whether two column references name the same column: same schema,
/// table, identifier and type.
pub fn column_ref_eq(a: &ColumnRef, b: &ColumnRef) -> (r: bool)
    ensures
        r == (a.table_ref.resource_id.schema@ == b.table_ref.resource_id.schema@
            && a.table_ref.resource_id.object_name@ == b.table_ref.resource_id.object_name@
            && a.column_id@ == b.column_id@ && a.column_type == b.column_type),
{
    a.table_ref.resource_id.schema == b.table_ref.resource_id.schema
        && a.table_ref.resource_id.object_name == b.table_ref.resource_id.object_name
        && a.column_id == b.column_id && a.column_type == b.column_type
}

/// Whether the set of references already holds the reference.
pub fn column_refs_contain(refs: &Vec<ColumnRef>, c: &ColumnRef) -> (r: bool) {
    let n = refs.len();
    let mut i: usize = 0;
    while i < n
        invariant
            n == refs@.len(),
            0 <= i <= n,
        decreases n - i,
    {
        if column_ref_eq(&refs[i], c) {
            return true;
        }
        i += 1;
    }
    false
}

impl DynProofExpr {
    /// Collects the columns the expression references, in visiting order,
    /// without repeats; what was collected before stays in place.
    pub fn get_column_references(&self, columns: &mut Vec<ColumnRef>)
        ensures
            final(columns)@.len() >= old(columns)@.len(),
            forall|i: int| 0 <= i < old(columns)@.len() ==> #[trigger] final(columns)@[i] == old(
                columns,
            )@[i],
        decreases self,
    {
        match self {
            DynProofExpr::Column(c) => {
                if !column_refs_contain(columns, c) {
                    columns.push(c.clone());
                }
            },
            DynProofExpr::Literal(_) => {
            },
            DynProofExpr::Equals(eq) => {
                eq.lhs.get_column_references(columns);
                eq.rhs.get_column_references(columns);
            },
            DynProofExpr::Not(x) => {
                x.get_column_references(columns);
            },
            DynProofExpr::And(l, r) => {
                l.get_column_references(columns);
                r.get_column_references(columns);
            },
            DynProofExpr::Or(l, r) => {
                l.get_column_references(columns);
                r.get_column_references(columns);
            },
        }
    }
}

} // verus!
