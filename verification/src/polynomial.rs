//! The tensored Lagrange basis: evaluation of the multilinear basis at a
//! point, with the truncated sum and inner-product reductions computed by
//! the recurrence that halves the basis, proved against the naive
//! expansion.
use vstd::prelude::*;
use vstd::arithmetic::power2::pow2;
use vstd::arithmetic::div_mod::{
    lemma_small_mod,
    lemma_mul_mod_noop,
    lemma_add_mod_noop,
    lemma_mod_twice,
    lemma_mod_multiples_vanish,
};
use crate::scalar::{Scalar, fmod, field_order, pow_nat};

verus! {

/// The i-th Lagrange basis polynomial evaluated at the point x: the
/// product over the variables of x[j] where bit j of i is set and
/// (1 - x[j]) where it is clear. Variable 0 is the lowest bit.
pub open spec fn chi(x: Seq<int>, i: nat) -> int
    decreases x.len(),
{
    if x.len() == 0 {
        1
    } else {
        (if i % 2 == 1 {
            x[0]
        } else {
            1 - x[0]
        }) * chi(x.drop_first(), i / 2)
    }
}

/// The naive truncated sum of the basis evaluations below m.
pub open spec fn chi_sum(m: nat, x: Seq<int>) -> int
    decreases m,
{
    if m == 0 {
        0
    } else {
        chi_sum((m - 1) as nat, x) + chi(x, (m - 1) as nat)
    }
}

/// The naive truncated inner product of two basis evaluation vectors.
pub open spec fn chi_inner_product(m: nat, a: Seq<int>, b: Seq<int>) -> int
    decreases m,
{
    if m == 0 {
        0
    } else {
        chi_inner_product((m - 1) as nat, a, b) + chi(a, (m - 1) as nat) * chi(
            b,
            (m - 1) as nat,
        )
    }
}

/// The full inner product of the two complete basis vectors: the product
/// over the variables of (1 - a_j)(1 - b_j) + a_j b_j.
pub open spec fn full_inner_product(a: Seq<int>, b: Seq<int>) -> int
    decreases a.len(),
{
    if a.len() == 0 {
        1
    } else {
        ((1 - a.last()) * (1 - b.last()) + a.last() * b.last()) * full_inner_product(
            a.drop_last(),
            b.drop_last(),
        )
    }
}

/// The truncated basis sum by the halving recurrence on the top variable.
pub open spec fn truncated_basis_sum(m: nat, x: Seq<int>) -> int
    decreases x.len(),
{
    if x.len() == 0 {
        if m >= 1 {
            1
        } else {
            0
        }
    } else {
        let h = pow2((x.len() - 1) as nat);
        let xt = x.last();
        let r = x.drop_last();
        if m >= 2 * h {
            1
        } else if m <= h {
            (1 - xt) * truncated_basis_sum(m, r)
        } else {
            (1 - xt) + xt * truncated_basis_sum((m - h) as nat, r)
        }
    }
}

/// The truncated basis inner product by the halving recurrence.
pub open spec fn truncated_basis_inner_product(m: nat, a: Seq<int>, b: Seq<int>) -> int
    decreases a.len(),
{
    if a.len() == 0 {
        if m >= 1 {
            1
        } else {
            0
        }
    } else {
        let h = pow2((a.len() - 1) as nat);
        let at = a.last();
        let bt = b.last();
        let ar = a.drop_last();
        let br = b.drop_last();
        if m >= 2 * h {
            full_inner_product(a, b)
        } else if m <= h {
            (1 - at) * (1 - bt) * truncated_basis_inner_product(m, ar, br)
        } else {
            (1 - at) * (1 - bt) * full_inner_product(ar, br) + at * bt
                * truncated_basis_inner_product((m - h) as nat, ar, br)
        }
    }
}

proof fn lemma_chi_top(x: Seq<int>, i: nat)
    requires
        x.len() > 0,
        i < pow2(x.len()),
    ensures
        i < pow2((x.len() - 1) as nat) ==> chi(x, i) == (1 - x.last()) * chi(x.drop_last(), i),
        i >= pow2((x.len() - 1) as nat) ==> chi(x, i) == x.last() * chi(
            x.drop_last(),
            (i - pow2((x.len() - 1) as nat)) as nat,
        ),
    decreases x.len(),
{
    let n = x.len();
    let h = pow2((n - 1) as nat);
    vstd::arithmetic::power2::lemma_pow2_unfold(n);
    if n == 1 {
        assert(pow2(0) == 1) by {
            vstd::arithmetic::power2::lemma2_to64();
        }
        assert(x.drop_last() =~= Seq::<int>::empty());
        if i < 1 {
            assert(i == 0);
            assert(chi(x, 0) == (1 - x[0]) * chi(x.drop_first(), 0));
            assert(chi(x.drop_first(), 0) == 1);
            assert(chi(x.drop_last(), 0) == 1);
        } else {
            assert(i == 1);
            assert(chi(x.drop_first(), 0) == 1);
            assert(chi(x, 1) == x[0] * 1);
        }
    } else {
        let xp = x.drop_first();
        let hp = pow2((n - 2) as nat);
        vstd::arithmetic::power2::lemma_pow2_unfold((n - 1) as nat);
        assert(h == 2 * hp);
        let i2 = i / 2;
        assert(i2 < pow2(xp.len())) by {
            assert(i < 2 * pow2((n - 1) as nat));
        }
        lemma_chi_top(xp, i2);
        assert(xp.last() == x.last());
        assert(xp.drop_last() =~= x.drop_last().drop_first());
        let b0: int = if i % 2 == 1 {
            x[0]
        } else {
            1 - x[0]
        };
        assert(chi(x, i) == b0 * chi(xp, i2));
        assert(x.drop_last()[0] == x[0]);
        if i < h {
            assert(i2 < hp);
            assert(chi(xp, i2) == (1 - x.last()) * chi(xp.drop_last(), i2));
            let c = chi(xp.drop_last(), i2);
            assert(chi(x.drop_last(), i) == b0 * c);
            assert(b0 * ((1 - x.last()) * c) == (1 - x.last()) * (b0 * c)) by (nonlinear_arith);
        } else {
            assert(i2 >= hp);
            assert(chi(xp, i2) == x.last() * chi(xp.drop_last(), (i2 - hp) as nat));
            let j = (i - h) as nat;
            assert(j / 2 == i2 - hp);
            assert(j % 2 == i % 2);
            let c = chi(xp.drop_last(), (i2 - hp) as nat);
            assert(chi(x.drop_last(), j) == b0 * c);
            assert(b0 * (x.last() * c) == x.last() * (b0 * c)) by (nonlinear_arith);
        }
    }
}

proof fn lemma_chi_sum_lo(m: nat, x: Seq<int>)
    requires
        x.len() > 0,
        m <= pow2((x.len() - 1) as nat),
    ensures
        chi_sum(m, x) == (1 - x.last()) * chi_sum(m, x.drop_last()),
    decreases m,
{
    let xt = x.last();
    let r = x.drop_last();
    if m == 0 {
    } else {
        lemma_chi_sum_lo((m - 1) as nat, x);
        assert(((m - 1) as nat) < pow2(x.len())) by {
            vstd::arithmetic::power2::lemma_pow2_unfold(x.len());
        }
        lemma_chi_top(x, (m - 1) as nat);
        let s = chi_sum((m - 1) as nat, r);
        let c = chi(r, (m - 1) as nat);
        assert(chi_sum(m, x) == (1 - xt) * s + (1 - xt) * c);
        assert((1 - xt) * s + (1 - xt) * c == (1 - xt) * (s + c)) by (nonlinear_arith);
    }
}

proof fn lemma_chi_sum_hi(m: nat, x: Seq<int>)
    requires
        x.len() > 0,
        pow2((x.len() - 1) as nat) <= m <= 2 * pow2((x.len() - 1) as nat),
    ensures
        chi_sum(m, x) == (1 - x.last()) * chi_sum(pow2((x.len() - 1) as nat), x.drop_last())
            + x.last() * chi_sum((m - pow2((x.len() - 1) as nat)) as nat, x.drop_last()),
    decreases m,
{
    let h = pow2((x.len() - 1) as nat);
    let xt = x.last();
    let r = x.drop_last();
    if m == h {
        lemma_chi_sum_lo(m, x);
    } else {
        lemma_chi_sum_hi((m - 1) as nat, x);
        assert(((m - 1) as nat) < pow2(x.len())) by {
            vstd::arithmetic::power2::lemma_pow2_unfold(x.len());
        }
        lemma_chi_top(x, (m - 1) as nat);
        let s = chi_sum(((m - 1) - h) as nat, r);
        let c = chi(r, ((m - 1) - h) as nat);
        assert(chi_sum(m, x) == (1 - xt) * chi_sum(h, r) + (xt * s + xt * c));
        assert(xt * s + xt * c == xt * (s + c)) by (nonlinear_arith);
    }
}

proof fn lemma_chi_sum_full(x: Seq<int>)
    ensures
        chi_sum(pow2(x.len()), x) == 1,
    decreases x.len(),
{
    if x.len() == 0 {
        assert(pow2(0) == 1) by {
            vstd::arithmetic::power2::lemma2_to64();
        }
        assert(chi_sum(0, x) == 0);
        assert(chi_sum(1, x) == chi(x, 0));
    } else {
        let h = pow2((x.len() - 1) as nat);
        let r = x.drop_last();
        vstd::arithmetic::power2::lemma_pow2_unfold(x.len());
        lemma_chi_sum_hi(pow2(x.len()), x);
        lemma_chi_sum_full(r);
        let xt = x.last();
        assert((1 - xt) * 1 + xt * 1 == 1) by (nonlinear_arith);
    }
}

/// The halving recurrence agrees with the naive truncated sum of the
/// Lagrange basis: for every m at most 2^|x|,
/// `truncated_basis_sum(m, x)` equals the sum of chi_i(x) over i < m.
pub proof fn lemma_truncated_sum_is_chi_sum(m: nat, x: Seq<int>)
    requires
        m <= pow2(x.len()),
    ensures
        truncated_basis_sum(m, x) == chi_sum(m, x),
    decreases x.len(),
{
    if x.len() == 0 {
        assert(pow2(0) == 1) by {
            vstd::arithmetic::power2::lemma2_to64();
        }
        if m == 1 {
            assert(chi_sum(0, x) == 0);
        assert(chi_sum(1, x) == chi(x, 0));
        }
    } else {
        let h = pow2((x.len() - 1) as nat);
        let xt = x.last();
        let r = x.drop_last();
        vstd::arithmetic::power2::lemma_pow2_unfold(x.len());
        if m >= 2 * h {
            lemma_chi_sum_full(x);
        } else if m <= h {
            lemma_truncated_sum_is_chi_sum(m, r);
            lemma_chi_sum_lo(m, x);
        } else {
            lemma_truncated_sum_is_chi_sum((m - h) as nat, r);
            lemma_chi_sum_hi(m, x);
            lemma_chi_sum_full(r);
        }
    }
}

proof fn lemma_chi_pair_top(a: Seq<int>, b: Seq<int>, i: nat)
    requires
        a.len() == b.len(),
        a.len() > 0,
        i < pow2(a.len()),
    ensures
        i < pow2((a.len() - 1) as nat) ==> chi(a, i) * chi(b, i) == (1 - a.last()) * (1
            - b.last()) * (chi(a.drop_last(), i) * chi(b.drop_last(), i)),
        i >= pow2((a.len() - 1) as nat) ==> chi(a, i) * chi(b, i) == a.last() * b.last() * (chi(
            a.drop_last(),
            (i - pow2((a.len() - 1) as nat)) as nat,
        ) * chi(b.drop_last(), (i - pow2((a.len() - 1) as nat)) as nat)),
{
    lemma_chi_top(a, i);
    lemma_chi_top(b, i);
    let h = pow2((a.len() - 1) as nat);
    if i < h {
        let ca = chi(a.drop_last(), i);
        let cb = chi(b.drop_last(), i);
        assert(((1 - a.last()) * ca) * ((1 - b.last()) * cb) == (1 - a.last()) * (1 - b.last())
            * (ca * cb)) by (nonlinear_arith);
    } else {
        let ca = chi(a.drop_last(), (i - h) as nat);
        let cb = chi(b.drop_last(), (i - h) as nat);
        assert((a.last() * ca) * (b.last() * cb) == a.last() * b.last() * (ca * cb))
            by (nonlinear_arith);
    }
}

proof fn lemma_chi_ip_lo(m: nat, a: Seq<int>, b: Seq<int>)
    requires
        a.len() == b.len(),
        a.len() > 0,
        m <= pow2((a.len() - 1) as nat),
    ensures
        chi_inner_product(m, a, b) == (1 - a.last()) * (1 - b.last()) * chi_inner_product(
            m,
            a.drop_last(),
            b.drop_last(),
        ),
    decreases m,
{
    if m == 0 {
    } else {
        lemma_chi_ip_lo((m - 1) as nat, a, b);
        assert(((m - 1) as nat) < pow2(a.len())) by {
            vstd::arithmetic::power2::lemma_pow2_unfold(a.len());
        }
        lemma_chi_pair_top(a, b, (m - 1) as nat);
        let f = (1 - a.last()) * (1 - b.last());
        let s = chi_inner_product((m - 1) as nat, a.drop_last(), b.drop_last());
        let c = chi(a.drop_last(), (m - 1) as nat) * chi(b.drop_last(), (m - 1) as nat);
        assert(f * s + f * c == f * (s + c)) by (nonlinear_arith);
    }
}

proof fn lemma_chi_ip_hi(m: nat, a: Seq<int>, b: Seq<int>)
    requires
        a.len() == b.len(),
        a.len() > 0,
        pow2((a.len() - 1) as nat) <= m <= 2 * pow2((a.len() - 1) as nat),
    ensures
        chi_inner_product(m, a, b) == (1 - a.last()) * (1 - b.last()) * chi_inner_product(
            pow2((a.len() - 1) as nat),
            a.drop_last(),
            b.drop_last(),
        ) + a.last() * b.last() * chi_inner_product(
            (m - pow2((a.len() - 1) as nat)) as nat,
            a.drop_last(),
            b.drop_last(),
        ),
    decreases m,
{
    let h = pow2((a.len() - 1) as nat);
    if m == h {
        lemma_chi_ip_lo(m, a, b);
    } else {
        lemma_chi_ip_hi((m - 1) as nat, a, b);
        assert(((m - 1) as nat) < pow2(a.len())) by {
            vstd::arithmetic::power2::lemma_pow2_unfold(a.len());
        }
        lemma_chi_pair_top(a, b, (m - 1) as nat);
        let f = a.last() * b.last();
        let s = chi_inner_product(((m - 1) - h) as nat, a.drop_last(), b.drop_last());
        let c = chi(a.drop_last(), ((m - 1) - h) as nat) * chi(b.drop_last(), ((m - 1) - h) as nat);
        assert(f * s + f * c == f * (s + c)) by (nonlinear_arith);
    }
}

proof fn lemma_chi_ip_full(a: Seq<int>, b: Seq<int>)
    requires
        a.len() == b.len(),
    ensures
        chi_inner_product(pow2(a.len()), a, b) == full_inner_product(a, b),
    decreases a.len(),
{
    if a.len() == 0 {
        assert(pow2(0) == 1) by {
            vstd::arithmetic::power2::lemma2_to64();
        }
        assert(chi_inner_product(0, a, b) == 0);
        assert(chi_inner_product(1, a, b) == chi(a, 0) * chi(b, 0));
    } else {
        let h = pow2((a.len() - 1) as nat);
        vstd::arithmetic::power2::lemma_pow2_unfold(a.len());
        lemma_chi_ip_hi(pow2(a.len()), a, b);
        lemma_chi_ip_full(a.drop_last(), b.drop_last());
        let f = full_inner_product(a.drop_last(), b.drop_last());
        let at = a.last();
        let bt = b.last();
        assert((1 - at) * (1 - bt) * f + at * bt * f == ((1 - at) * (1 - bt) + at * bt) * f)
            by (nonlinear_arith);
    }
}

/// The halving recurrence agrees with the naive truncated inner product
/// of the Lagrange bases: for every m at most 2^|a|,
/// `truncated_basis_inner_product(m, a, b)` equals the sum of
/// chi_i(a) * chi_i(b) over i < m.
pub proof fn lemma_truncated_inner_product_is_chi_inner_product(m: nat, a: Seq<int>, b: Seq<int>)
    requires
        a.len() == b.len(),
        m <= pow2(a.len()),
    ensures
        truncated_basis_inner_product(m, a, b) == chi_inner_product(m, a, b),
    decreases a.len(),
{
    if a.len() == 0 {
        assert(pow2(0) == 1) by {
            vstd::arithmetic::power2::lemma2_to64();
        }
        if m == 1 {
            assert(chi_inner_product(0, a, b) == 0);
        assert(chi_inner_product(1, a, b) == chi(a, 0) * chi(b, 0));
        }
    } else {
        let h = pow2((a.len() - 1) as nat);
        let ar = a.drop_last();
        let br = b.drop_last();
        vstd::arithmetic::power2::lemma_pow2_unfold(a.len());
        if m >= 2 * h {
            lemma_chi_ip_full(a, b);
        } else if m <= h {
            lemma_truncated_inner_product_is_chi_inner_product(m, ar, br);
            lemma_chi_ip_lo(m, a, b);
        } else {
            lemma_truncated_inner_product_is_chi_inner_product((m - h) as nat, ar, br);
            lemma_chi_ip_hi(m, a, b);
            lemma_chi_ip_full(ar, br);
        }
    }
}


/// The integer views of a slice of i64 values.
pub open spec fn ints_of_i64(s: Seq<i64>) -> Seq<int> {
    s.map_values(|v: i64| v as int)
}

/// The integer views of a slice of field elements.
pub open spec fn ints_of_scalars(s: Seq<Scalar>) -> Seq<int> {
    s.map_values(|v: Scalar| v@ as int)
}

pub proof fn lemma_pow_nat_pos(b: nat, e: nat)
    requires
        b >= 1,
    ensures
        pow_nat(b, e) >= 1,
    decreases e,
{
    if e > 0 {
        lemma_pow_nat_pos(b, (e - 1) as nat);
        assert(b * pow_nat(b, (e - 1) as nat) >= 1) by (nonlinear_arith)
            requires b >= 1, pow_nat(b, (e - 1) as nat) >= 1
        ;
    }
}

proof fn lemma_pow_nat_mono(b: nat, e1: nat, e2: nat)
    requires
        b >= 1,
        e1 <= e2,
    ensures
        pow_nat(b, e1) <= pow_nat(b, e2),
    decreases e2,
{
    if e1 < e2 {
        lemma_pow_nat_mono(b, e1, (e2 - 1) as nat);
        lemma_pow_nat_pos(b, (e2 - 1) as nat);
        assert(pow_nat(b, (e2 - 1) as nat) <= b * pow_nat(b, (e2 - 1) as nat)) by (nonlinear_arith)
            requires b >= 1, pow_nat(b, (e2 - 1) as nat) >= 1
        ;
    }
}

proof fn lemma_pow201()
    ensures
        pow_nat(201, 7) == 13254776280841401,
        pow_nat(201, 8) == 2664210032449121601,
{
    assert(pow_nat(201, 0) == 1);
    assert(pow_nat(201, 1) == 201);
    assert(pow_nat(201, 2) == 40401);
    assert(pow_nat(201, 3) == 8120601);
    assert(pow_nat(201, 4) == 1632240801);
    assert(pow_nat(201, 5) == 328080401001);
    assert(pow_nat(201, 6) == 65944160601201);
    assert(pow_nat(201, 7) == 13254776280841401);
    assert(pow_nat(201, 8) == 2664210032449121601);
}

proof fn lemma_pow20402()
    ensures
        pow_nat(20402, 3) == 8492161204808,
        pow_nat(20402, 4) == 173257072900492816,
{
    assert(pow_nat(20402, 0) == 1);
    assert(pow_nat(20402, 1) == 20402);
    assert(pow_nat(20402, 2) == 416241604);
    assert(pow_nat(20402, 3) == 8492161204808);
    assert(pow_nat(20402, 4) == 173257072900492816);
}

/// 2^n as a machine integer.
pub fn pow2_exec(n: usize) -> (r: u64)
    requires
        n <= 61,
    ensures
        r == pow2(n as nat),
{
    let mut h: u64 = 1;
    let mut i: usize = 0;
    proof {
        vstd::arithmetic::power2::lemma2_to64();
        vstd::arithmetic::power2::lemma2_to64_rest();
    }
    while i < n
        invariant
            0 <= i <= n <= 61,
            h == pow2(i as nat),
            h <= 0x2000000000000000,
        decreases n - i,
    {
        proof {
            vstd::arithmetic::power2::lemma_pow2_unfold((i + 1) as nat);
            if (i + 1) < 61 {
                vstd::arithmetic::power2::lemma_pow2_strictly_increases((i + 1) as nat, 61);
            }
            vstd::arithmetic::power2::lemma2_to64();
            vstd::arithmetic::power2::lemma2_to64_rest();
        }
        h = h * 2;
        i += 1;
    }
    h
}

fn basis_sum_i64_helper(length: usize, point: &[i64], n: usize) -> (r: i64)
    requires
        n <= point@.len(),
        point@.len() <= 8,
        forall|i: int| 0 <= i < point@.len() ==> -100 <= #[trigger] point@[i] <= 100,
    ensures
        r as int == truncated_basis_sum(length as nat, ints_of_i64(point@.take(n as int))),
        -(pow_nat(201, n as nat) as int) <= r as int <= pow_nat(201, n as nat) as int,
    decreases n,
{
    let ghost x = ints_of_i64(point@.take(n as int));
    proof {
        assert(x.len() == n);
        lemma_pow_nat_pos(201, n as nat);
    }
    if n == 0 {
        if length >= 1 {
            1
        } else {
            0
        }
    } else {
        let h = pow2_exec(n - 1);
        proof {
            if n - 1 < 7 {
                vstd::arithmetic::power2::lemma_pow2_strictly_increases((n - 1) as nat, 7);
            }
            vstd::arithmetic::power2::lemma2_to64();
        }
        let xt = *vstd::slice::slice_index_get(point, n - 1);
        proof {
            assert(x.last() == xt as int);
            assert(x.drop_last() =~= ints_of_i64(point@.take(n - 1)));
            lemma_pow_nat_pos(201, (n - 1) as nat);
            lemma_pow_nat_mono(201, (n - 1) as nat, 7);
            lemma_pow201();
        }
        if length as u64 >= 2 * h {
            1
        } else if length as u64 <= h {
            let rec = basis_sum_i64_helper(length, point, n - 1);
            proof {
                let k = pow_nat(201, (n - 1) as nat) as int;
                assert(-(201 * k) <= (1 - xt as int) * rec <= 201 * k) by (nonlinear_arith)
                    requires -101 <= 1 - xt as int <= 101, -k <= rec as int <= k, k >= 1
                ;
                assert(pow_nat(201, n as nat) == 201 * pow_nat(201, (n - 1) as nat));
            }
            (1 - xt) * rec
        } else {
            let rec = basis_sum_i64_helper(length - (h as usize), point, n - 1);
            proof {
                let k = pow_nat(201, (n - 1) as nat) as int;
                assert(-(100 * k) <= xt as int * rec <= 100 * k) by (nonlinear_arith)
                    requires -100 <= xt as int <= 100, -k <= rec as int <= k, k >= 1
                ;
                assert(101 + 100 * k <= 201 * k) by (nonlinear_arith)
                    requires k >= 1
                ;
                assert(pow_nat(201, n as nat) == 201 * pow_nat(201, (n - 1) as nat));
            }
            1 - xt + xt * rec
        }
    }
}

/// The truncated Lagrange basis sum over plain integers: equals the sum
/// of chi_i(point) over i < length, for every length at most 2^|point|.
pub fn compute_truncated_lagrange_basis_sum(length: usize, point: &[i64]) -> (r: i64)
    requires
        point@.len() <= 8,
        forall|i: int| 0 <= i < point@.len() ==> -100 <= #[trigger] point@[i] <= 100,
    ensures
        r as int == truncated_basis_sum(length as nat, ints_of_i64(point@)),
        length <= pow2(point@.len()) ==> r as int == chi_sum(length as nat, ints_of_i64(point@)),
{
    let n = point.len();
    let r = basis_sum_i64_helper(length, point, n);
    proof {
        assert(point@.take(n as int) =~= point@);
        if length <= pow2(point@.len()) {
            assert(ints_of_i64(point@).len() == point@.len());
            lemma_truncated_sum_is_chi_sum(length as nat, ints_of_i64(point@));
        }
    }
    r
}

fn full_ip_i64_helper(a: &[i64], b: &[i64], n: usize) -> (r: i64)
    requires
        n <= a@.len(),
        a@.len() == b@.len(),
        a@.len() <= 4,
        forall|i: int| 0 <= i < a@.len() ==> -100 <= #[trigger] a@[i] <= 100,
        forall|i: int| 0 <= i < b@.len() ==> -100 <= #[trigger] b@[i] <= 100,
    ensures
        r as int == full_inner_product(ints_of_i64(a@.take(n as int)), ints_of_i64(b@.take(n as int))),
        -(pow_nat(20402, n as nat) as int) <= r as int <= pow_nat(20402, n as nat) as int,
    decreases n,
{
    let ghost xa = ints_of_i64(a@.take(n as int));
    let ghost xb = ints_of_i64(b@.take(n as int));
    proof {
        assert(xa.len() == n && xb.len() == n);
        lemma_pow_nat_pos(20402, n as nat);
    }
    if n == 0 {
        1
    } else {
        let at = *vstd::slice::slice_index_get(a, n - 1);
        let bt = *vstd::slice::slice_index_get(b, n - 1);
        let rec = full_ip_i64_helper(a, b, n - 1);
        proof {
            assert(xa.last() == at as int && xb.last() == bt as int);
            assert(xa.drop_last() =~= ints_of_i64(a@.take(n - 1)));
            assert(xb.drop_last() =~= ints_of_i64(b@.take(n - 1)));
            lemma_pow_nat_pos(20402, (n - 1) as nat);
            lemma_pow_nat_mono(20402, (n - 1) as nat, 3);
            lemma_pow20402();
            let k = pow_nat(20402, (n - 1) as nat) as int;
            assert(-10201 <= (1 - at as int) * (1 - bt as int) <= 10201) by (nonlinear_arith)
                requires -100 <= at as int <= 100, -100 <= bt as int <= 100
            ;
            assert(-10000 <= at as int * bt as int <= 10000) by (nonlinear_arith)
                requires -100 <= at as int <= 100, -100 <= bt as int <= 100
            ;
            let f = (1 - at as int) * (1 - bt as int) + at as int * bt as int;
            assert(-(20402 * k) <= f * rec <= 20402 * k) by (nonlinear_arith)
                requires -20201 <= f <= 20201, -k <= rec as int <= k, k >= 1
            ;
            assert(pow_nat(20402, n as nat) == 20402 * pow_nat(20402, (n - 1) as nat));
        }
        ((1 - at) * (1 - bt) + at * bt) * rec
    }
}

fn basis_ip_i64_helper(length: usize, a: &[i64], b: &[i64], n: usize) -> (r: i64)
    requires
        n <= a@.len(),
        a@.len() == b@.len(),
        a@.len() <= 4,
        forall|i: int| 0 <= i < a@.len() ==> -100 <= #[trigger] a@[i] <= 100,
        forall|i: int| 0 <= i < b@.len() ==> -100 <= #[trigger] b@[i] <= 100,
    ensures
        r as int == truncated_basis_inner_product(
            length as nat,
            ints_of_i64(a@.take(n as int)),
            ints_of_i64(b@.take(n as int)),
        ),
        -(pow_nat(20402, n as nat) as int) <= r as int <= pow_nat(20402, n as nat) as int,
    decreases n,
{
    let ghost xa = ints_of_i64(a@.take(n as int));
    let ghost xb = ints_of_i64(b@.take(n as int));
    proof {
        assert(xa.len() == n && xb.len() == n);
        lemma_pow_nat_pos(20402, n as nat);
    }
    if n == 0 {
        if length >= 1 {
            1
        } else {
            0
        }
    } else {
        let h = pow2_exec(n - 1);
        proof {
            if n - 1 < 7 {
                vstd::arithmetic::power2::lemma_pow2_strictly_increases((n - 1) as nat, 7);
            }
            vstd::arithmetic::power2::lemma2_to64();
        }
        let at = *vstd::slice::slice_index_get(a, n - 1);
        let bt = *vstd::slice::slice_index_get(b, n - 1);
        proof {
            assert(xa.last() == at as int && xb.last() == bt as int);
            assert(xa.drop_last() =~= ints_of_i64(a@.take(n - 1)));
            assert(xb.drop_last() =~= ints_of_i64(b@.take(n - 1)));
            lemma_pow_nat_pos(20402, (n - 1) as nat);
            lemma_pow_nat_mono(20402, (n - 1) as nat, 3);
            lemma_pow20402();
            assert(-10201 <= (1 - at as int) * (1 - bt as int) <= 10201) by (nonlinear_arith)
                requires -100 <= at as int <= 100, -100 <= bt as int <= 100
            ;
            assert(-10000 <= at as int * bt as int <= 10000) by (nonlinear_arith)
                requires -100 <= at as int <= 100, -100 <= bt as int <= 100
            ;
        }
        if length as u64 >= 2 * h {
            full_ip_i64_helper(a, b, n)
        } else if length as u64 <= h {
            let rec = basis_ip_i64_helper(length, a, b, n - 1);
            proof {
                let k = pow_nat(20402, (n - 1) as nat) as int;
                let f = (1 - at as int) * (1 - bt as int);
                assert(-(10201 * k) <= f * rec <= 10201 * k) by (nonlinear_arith)
                    requires -10201 <= f <= 10201, -k <= rec as int <= k, k >= 1
                ;
                assert(pow_nat(20402, n as nat) == 20402 * pow_nat(20402, (n - 1) as nat));
                assert(10201 * k <= 20402 * k) by (nonlinear_arith)
                    requires k >= 1
                ;
            }
            (1 - at) * (1 - bt) * rec
        } else {
            let fp = full_ip_i64_helper(a, b, n - 1);
            let rec = basis_ip_i64_helper(length - (h as usize), a, b, n - 1);
            proof {
                let k = pow_nat(20402, (n - 1) as nat) as int;
                let f = (1 - at as int) * (1 - bt as int);
                let g = at as int * bt as int;
                assert(-(10201 * k) <= f * fp <= 10201 * k) by (nonlinear_arith)
                    requires -10201 <= f <= 10201, -k <= fp as int <= k, k >= 1
                ;
                assert(-(10000 * k) <= g * rec <= 10000 * k) by (nonlinear_arith)
                    requires -10000 <= g <= 10000, -k <= rec as int <= k, k >= 1
                ;
                assert(pow_nat(20402, n as nat) == 20402 * pow_nat(20402, (n - 1) as nat));
                assert(10201 * k + 10000 * k <= 20402 * k) by (nonlinear_arith)
                    requires k >= 1
                ;
            }
            (1 - at) * (1 - bt) * fp + at * bt * rec
        }
    }
}

/// The truncated Lagrange basis inner product over plain integers: equals
/// the sum of chi_i(a) * chi_i(b) over i < length, for every length at
/// most 2^|a|.
pub fn compute_truncated_lagrange_basis_inner_product(length: usize, a: &[i64], b: &[i64]) -> (r:
    i64)
    requires
        a@.len() == b@.len(),
        a@.len() <= 4,
        forall|i: int| 0 <= i < a@.len() ==> -100 <= #[trigger] a@[i] <= 100,
        forall|i: int| 0 <= i < b@.len() ==> -100 <= #[trigger] b@[i] <= 100,
    ensures
        r as int == truncated_basis_inner_product(
            length as nat,
            ints_of_i64(a@),
            ints_of_i64(b@),
        ),
        length <= pow2(a@.len()) ==> r as int == chi_inner_product(
            length as nat,
            ints_of_i64(a@),
            ints_of_i64(b@),
        ),
{
    let n = a.len();
    let r = basis_ip_i64_helper(length, a, b, n);
    proof {
        assert(a@.take(n as int) =~= a@);
        assert(b@.take(n as int) =~= b@);
        if length <= pow2(a@.len()) {
            assert(ints_of_i64(a@).len() == a@.len());
            assert(ints_of_i64(b@).len() == b@.len());
            lemma_truncated_inner_product_is_chi_inner_product(
                length as nat,
                ints_of_i64(a@),
                ints_of_i64(b@),
            );
        }
    }
    r
}


proof fn lemma_fmul(a: int, b: int)
    ensures
        fmod(fmod(a) * fmod(b)) == fmod(a * b),
{
    lemma_mul_mod_noop(a, b, field_order() as int);
}

proof fn lemma_fadd(a: int, b: int)
    ensures
        fmod(fmod(a) + fmod(b)) == fmod(a + b),
{
    lemma_add_mod_noop(a, b, field_order() as int);
}

proof fn lemma_fvanish(k: int, b: int)
    ensures
        fmod(field_order() * k + b) == fmod(b),
{
    lemma_mod_multiples_vanish(k, b, field_order() as int);
}

fn basis_sum_scalar_helper(length: usize, point: &[Scalar], n: usize) -> (r: Scalar)
    requires
        n <= point@.len(),
        point@.len() <= 60,
        forall|i: int| 0 <= i < point@.len() ==> (#[trigger] point@[i]).wf(),
    ensures
        r@ == fmod(truncated_basis_sum(length as nat, ints_of_scalars(point@.take(n as int)))),
        r.wf(),
    decreases n,
{
    let ghost x = ints_of_scalars(point@.take(n as int));
    proof {
        assert(x.len() == n);
    }
    if n == 0 {
        if length >= 1 {
            let r = Scalar::one();
            proof {
                lemma_small_mod(1, field_order());
            }
            r
        } else {
            let r = Scalar::zero();
            proof {
                lemma_small_mod(0, field_order());
            }
            r
        }
    } else {
        let h = pow2_exec(n - 1);
        proof {
            if n - 1 < 60 {
                vstd::arithmetic::power2::lemma_pow2_strictly_increases((n - 1) as nat, 60);
            }
            vstd::arithmetic::power2::lemma2_to64();
            vstd::arithmetic::power2::lemma2_to64_rest();
        }
        let xt = *vstd::slice::slice_index_get(point, n - 1);
        let ghost xtv = xt@ as int;
        let ghost ord = field_order() as int;
        proof {
            assert(x.last() == xtv);
            assert(x.drop_last() =~= ints_of_scalars(point@.take(n - 1)));
        }
        if length as u64 >= 2 * h {
            let r = Scalar::one();
            proof {
                lemma_small_mod(1, field_order());
            }
            r
        } else if length as u64 <= h {
            let rec = basis_sum_scalar_helper(length, point, n - 1);
            let ghost tp = truncated_basis_sum(length as nat, x.drop_last());
            let om = Scalar::one().sub(&xt);
            let r = om.mul(&rec);
            proof {
                lemma_small_mod(1, field_order());
                assert(om@ == fmod(1 + ord - xtv));
                assert(1 + ord - xtv == ord * 1 + (1 - xtv));
                lemma_fvanish(1, 1 - xtv);
                assert(om@ == fmod(1 - xtv));
                lemma_fmul(1 - xtv, tp);
                assert(r@ == fmod((om@ * rec@) as int));
                lemma_mod_twice(1 - xtv, ord);
                lemma_mod_twice(tp, ord);
                assert(fmod((om@ * rec@) as int) == fmod(fmod(1 - xtv) * fmod(tp)));
                assert(r@ == fmod((1 - xtv) * tp));
            }
            r
        } else {
            let rec = basis_sum_scalar_helper(length - (h as usize), point, n - 1);
            let ghost tp = truncated_basis_sum((length - h) as nat, x.drop_last());
            let om = Scalar::one().sub(&xt);
            let pr = xt.mul(&rec);
            let r = om.add(&pr);
            proof {
                lemma_small_mod(1, field_order());
                assert(om@ == fmod(1 + ord - xtv));
                assert(1 + ord - xtv == ord * 1 + (1 - xtv));
                lemma_fvanish(1, 1 - xtv);
                lemma_small_mod(xt@, field_order());
                lemma_fmul(xtv, tp);
                lemma_mod_twice(tp, ord);
                assert(pr@ == fmod(xtv * tp));
                lemma_fadd(1 - xtv, xtv * tp);
                lemma_mod_twice(1 - xtv, ord);
                lemma_mod_twice(xtv * tp, ord);
                assert(r@ == fmod((om@ + pr@) as int));
                assert(r@ == fmod(1 - xtv + xtv * tp));
            }
            r
        }
    }
}

/// The truncated Lagrange basis sum in the scalar field: equals the sum
/// of chi_i(point) over i < length, reduced modulo the field order. The
/// point length is capped only so that the 2^k window bounds the
/// recurrence compares against stay within the machine word; the field
/// arithmetic itself cannot overflow.
pub fn compute_truncated_lagrange_basis_sum_scalar(length: usize, point: &[Scalar]) -> (r: Scalar)
    requires
        point@.len() <= 60,
        forall|i: int| 0 <= i < point@.len() ==> (#[trigger] point@[i]).wf(),
    ensures
        r@ == fmod(truncated_basis_sum(length as nat, ints_of_scalars(point@))),
        length <= pow2(point@.len()) ==> r@ == fmod(chi_sum(length as nat, ints_of_scalars(point@))),
        r.wf(),
{
    let n = point.len();
    let r = basis_sum_scalar_helper(length, point, n);
    proof {
        assert(point@.take(n as int) =~= point@);
        if length <= pow2(point@.len()) {
            assert(ints_of_scalars(point@).len() == point@.len());
            lemma_truncated_sum_is_chi_sum(length as nat, ints_of_scalars(point@));
        }
    }
    r
}

fn full_ip_scalar_helper(a: &[Scalar], b: &[Scalar], n: usize) -> (r: Scalar)
    requires
        n <= a@.len(),
        a@.len() == b@.len(),
        a@.len() <= 60,
        forall|i: int| 0 <= i < a@.len() ==> (#[trigger] a@[i]).wf(),
        forall|i: int| 0 <= i < b@.len() ==> (#[trigger] b@[i]).wf(),
    ensures
        r@ == fmod(full_inner_product(
            ints_of_scalars(a@.take(n as int)),
            ints_of_scalars(b@.take(n as int)),
        )),
        r.wf(),
    decreases n,
{
    let ghost xa = ints_of_scalars(a@.take(n as int));
    let ghost xb = ints_of_scalars(b@.take(n as int));
    proof {
        assert(xa.len() == n && xb.len() == n);
    }
    if n == 0 {
        let r = Scalar::one();
        proof {
            lemma_small_mod(1, field_order());
        }
        r
    } else {
        let at = *vstd::slice::slice_index_get(a, n - 1);
        let bt = *vstd::slice::slice_index_get(b, n - 1);
        let rec = full_ip_scalar_helper(a, b, n - 1);
        let ghost av = at@ as int;
        let ghost bv = bt@ as int;
        let ghost ord = field_order() as int;
        let ghost fp = full_inner_product(xa.drop_last(), xb.drop_last());
        let u = Scalar::one().sub(&at);
        let v = Scalar::one().sub(&bt);
        let uv = u.mul(&v);
        let w = at.mul(&bt);
        let f = uv.add(&w);
        let r = f.mul(&rec);
        proof {
            assert(xa.last() == av && xb.last() == bv);
            assert(xa.drop_last() =~= ints_of_scalars(a@.take(n - 1)));
            assert(xb.drop_last() =~= ints_of_scalars(b@.take(n - 1)));
            lemma_small_mod(1, field_order());
            assert(u@ == fmod(1 - av)) by {
                assert(u@ == fmod(1 + ord - av));
                assert(1 + ord - av == ord * 1 + (1 - av));
                lemma_fvanish(1, 1 - av);
            }
            assert(v@ == fmod(1 - bv)) by {
                assert(v@ == fmod(1 + ord - bv));
                assert(1 + ord - bv == ord * 1 + (1 - bv));
                lemma_fvanish(1, 1 - bv);
            }
            lemma_fmul(1 - av, 1 - bv);
            lemma_mod_twice(1 - av, ord);
            lemma_mod_twice(1 - bv, ord);
            assert(uv@ == fmod((1 - av) * (1 - bv)));
            lemma_small_mod(at@, field_order());
            lemma_small_mod(bt@, field_order());
            lemma_fmul(av, bv);
            assert(w@ == fmod(av * bv));
            lemma_fadd((1 - av) * (1 - bv), av * bv);
            lemma_mod_twice((1 - av) * (1 - bv), ord);
            lemma_mod_twice(av * bv, ord);
            assert(f@ == fmod((1 - av) * (1 - bv) + av * bv));
            lemma_fmul((1 - av) * (1 - bv) + av * bv, fp);
            lemma_mod_twice((1 - av) * (1 - bv) + av * bv, ord);
            lemma_mod_twice(fp, ord);
            assert(r@ == fmod(((1 - av) * (1 - bv) + av * bv) * fp));
        }
        r
    }
}

fn basis_ip_scalar_helper(length: usize, a: &[Scalar], b: &[Scalar], n: usize) -> (r: Scalar)
    requires
        n <= a@.len(),
        a@.len() == b@.len(),
        a@.len() <= 60,
        forall|i: int| 0 <= i < a@.len() ==> (#[trigger] a@[i]).wf(),
        forall|i: int| 0 <= i < b@.len() ==> (#[trigger] b@[i]).wf(),
    ensures
        r@ == fmod(truncated_basis_inner_product(
            length as nat,
            ints_of_scalars(a@.take(n as int)),
            ints_of_scalars(b@.take(n as int)),
        )),
        r.wf(),
    decreases n,
{
    let ghost xa = ints_of_scalars(a@.take(n as int));
    let ghost xb = ints_of_scalars(b@.take(n as int));
    proof {
        assert(xa.len() == n && xb.len() == n);
    }
    if n == 0 {
        if length >= 1 {
            let r = Scalar::one();
            proof {
                lemma_small_mod(1, field_order());
            }
            r
        } else {
            let r = Scalar::zero();
            proof {
                lemma_small_mod(0, field_order());
            }
            r
        }
    } else {
        let h = pow2_exec(n - 1);
        proof {
            if n - 1 < 60 {
                vstd::arithmetic::power2::lemma_pow2_strictly_increases((n - 1) as nat, 60);
            }
            vstd::arithmetic::power2::lemma2_to64();
            vstd::arithmetic::power2::lemma2_to64_rest();
        }
        let at = *vstd::slice::slice_index_get(a, n - 1);
        let bt = *vstd::slice::slice_index_get(b, n - 1);
        let ghost av = at@ as int;
        let ghost bv = bt@ as int;
        let ghost ord = field_order() as int;
        proof {
            assert(xa.last() == av && xb.last() == bv);
            assert(xa.drop_last() =~= ints_of_scalars(a@.take(n - 1)));
            assert(xb.drop_last() =~= ints_of_scalars(b@.take(n - 1)));
        }
        if length as u64 >= 2 * h {
            full_ip_scalar_helper(a, b, n)
        } else if length as u64 <= h {
            let rec = basis_ip_scalar_helper(length, a, b, n - 1);
            let ghost tp = truncated_basis_inner_product(
                length as nat,
                xa.drop_last(),
                xb.drop_last(),
            );
            let u = Scalar::one().sub(&at);
            let v = Scalar::one().sub(&bt);
            let uv = u.mul(&v);
            let r = uv.mul(&rec);
            proof {
                lemma_small_mod(1, field_order());
                assert(u@ == fmod(1 - av)) by {
                    assert(u@ == fmod(1 + ord - av));
                    assert(1 + ord - av == ord * 1 + (1 - av));
                    lemma_fvanish(1, 1 - av);
                }
                assert(v@ == fmod(1 - bv)) by {
                    assert(v@ == fmod(1 + ord - bv));
                    assert(1 + ord - bv == ord * 1 + (1 - bv));
                    lemma_fvanish(1, 1 - bv);
                }
                lemma_fmul(1 - av, 1 - bv);
                lemma_mod_twice(1 - av, ord);
                lemma_mod_twice(1 - bv, ord);
                assert(uv@ == fmod((1 - av) * (1 - bv)));
                lemma_fmul((1 - av) * (1 - bv), tp);
                lemma_mod_twice((1 - av) * (1 - bv), ord);
                lemma_mod_twice(tp, ord);
                assert(r@ == fmod((1 - av) * (1 - bv) * tp)) by {
                    assert(((1 - av) * (1 - bv)) * tp == (1 - av) * (1 - bv) * tp);
                }
            }
            r
        } else {
            let fp = full_ip_scalar_helper(a, b, n - 1);
            let rec = basis_ip_scalar_helper(length - (h as usize), a, b, n - 1);
            let ghost fpv = full_inner_product(xa.drop_last(), xb.drop_last());
            let ghost tp = truncated_basis_inner_product(
                (length - h) as nat,
                xa.drop_last(),
                xb.drop_last(),
            );
            let u = Scalar::one().sub(&at);
            let v = Scalar::one().sub(&bt);
            let uv = u.mul(&v);
            let t1 = uv.mul(&fp);
            let w = at.mul(&bt);
            let t2 = w.mul(&rec);
            let r = t1.add(&t2);
            proof {
                lemma_small_mod(1, field_order());
                assert(u@ == fmod(1 - av)) by {
                    assert(u@ == fmod(1 + ord - av));
                    assert(1 + ord - av == ord * 1 + (1 - av));
                    lemma_fvanish(1, 1 - av);
                }
                assert(v@ == fmod(1 - bv)) by {
                    assert(v@ == fmod(1 + ord - bv));
                    assert(1 + ord - bv == ord * 1 + (1 - bv));
                    lemma_fvanish(1, 1 - bv);
                }
                lemma_fmul(1 - av, 1 - bv);
                lemma_mod_twice(1 - av, ord);
                lemma_mod_twice(1 - bv, ord);
                assert(uv@ == fmod((1 - av) * (1 - bv)));
                lemma_fmul((1 - av) * (1 - bv), fpv);
                lemma_mod_twice((1 - av) * (1 - bv), ord);
                lemma_mod_twice(fpv, ord);
                assert(t1@ == fmod((1 - av) * (1 - bv) * fpv)) by {
                    assert(((1 - av) * (1 - bv)) * fpv == (1 - av) * (1 - bv) * fpv);
                }
                lemma_small_mod(at@, field_order());
                lemma_small_mod(bt@, field_order());
                lemma_fmul(av, bv);
                assert(w@ == fmod(av * bv));
                lemma_fmul(av * bv, tp);
                lemma_mod_twice(av * bv, ord);
                lemma_mod_twice(tp, ord);
                assert(t2@ == fmod(av * bv * tp)) by {
                    assert((av * bv) * tp == av * bv * tp);
                }
                lemma_fadd((1 - av) * (1 - bv) * fpv, av * bv * tp);
                lemma_mod_twice((1 - av) * (1 - bv) * fpv, ord);
                lemma_mod_twice(av * bv * tp, ord);
                assert(r@ == fmod((1 - av) * (1 - bv) * fpv + av * bv * tp));
            }
            r
        }
    }
}

/// The truncated Lagrange basis inner product in the scalar field: equals
/// the sum of chi_i(a) * chi_i(b) over i < length, reduced modulo the
/// field order. The point length is capped only so that the 2^k window
/// bounds stay within the machine word; the field arithmetic itself
/// cannot overflow.
pub fn compute_truncated_lagrange_basis_inner_product_scalar(
    length: usize,
    a: &[Scalar],
    b: &[Scalar],
) -> (r: Scalar)
    requires
        a@.len() == b@.len(),
        a@.len() <= 60,
        forall|i: int| 0 <= i < a@.len() ==> (#[trigger] a@[i]).wf(),
        forall|i: int| 0 <= i < b@.len() ==> (#[trigger] b@[i]).wf(),
    ensures
        r@ == fmod(truncated_basis_inner_product(
            length as nat,
            ints_of_scalars(a@),
            ints_of_scalars(b@),
        )),
        length <= pow2(a@.len()) ==> r@ == fmod(chi_inner_product(
            length as nat,
            ints_of_scalars(a@),
            ints_of_scalars(b@),
        )),
        r.wf(),
{
    let n = a.len();
    let r = basis_ip_scalar_helper(length, a, b, n);
    proof {
        assert(a@.take(n as int) =~= a@);
        assert(b@.take(n as int) =~= b@);
        if length <= pow2(a@.len()) {
            assert(ints_of_scalars(a@).len() == a@.len());
            assert(ints_of_scalars(b@).len() == b@.len());
            lemma_truncated_inner_product_is_chi_inner_product(
                length as nat,
                ints_of_scalars(a@),
                ints_of_scalars(b@),
            );
        }
    }
    r
}

} // verus!
