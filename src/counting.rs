//! Binomial coefficients and the inclusion–exclusion form of the layer
//! sizes: ℓ_d = Σ_{s=0}^{⌊d/w⌋} (-1)^s · C(v, s) · C(d - s·w + v - 1, v - 1).
use crate::bignum::{big_add, big_div, big_from_usize, big_mul, big_sub, big_value};
use crate::layer::{block_sum, layer_count};
use num_bigint::BigUint;
use vstd::prelude::*;

verus! {

/// C(n, r); zero unless 0 ≤ r ≤ n.
pub open spec fn binom(n: int, r: int) -> nat
    decreases n,
{
    if r < 0 || n < 0 || r > n {
        0
    } else if r == 0 || r == n {
        1
    } else {
        binom(n - 1, r - 1) + binom(n - 1, r)
    }
}

/// Pascal's rule, for every n once r ≥ 1.
pub proof fn lemma_pascal(n: int, r: int)
    requires
        r >= 1,
    ensures
        binom(n, r) == binom(n - 1, r - 1) + binom(n - 1, r),
{
    if n >= 1 && r == n {
        assert(binom(n - 1, r) == 0);
        assert(binom(n - 1, n - 1) == 1);
    }
}

/// (-1)^s.
pub open spec fn sgn(s: int) -> int {
    if s % 2 == 0 {
        1
    } else {
        -1
    }
}

/// The s-th inclusion–exclusion term for layer d in dimension k.
pub open spec fn ie_term(w: int, d: int, k: int, s: int) -> int {
    sgn(s) * binom(k, s) * binom(d - s * w + k - 1, k - 1)
}

/// Σ_{s<t} ie_term(s).
pub open spec fn ie_sum(w: int, d: int, k: int, t: int) -> int
    decreases t,
{
    if t <= 0 {
        0
    } else {
        ie_sum(w, d, k, t - 1) + ie_term(w, d, k, t - 1)
    }
}

/// Σ_{j<t} C(m - j + k - 1, k - 1).
spec fn hockey(m: int, k: int, t: int) -> int
    decreases t,
{
    if t <= 0 {
        0
    } else {
        hockey(m, k, t - 1) + binom(m - (t - 1) + k - 1, k - 1)
    }
}

proof fn lemma_hockey(m: int, k: int, t: int)
    requires
        k >= 1,
        t >= 0,
    ensures
        hockey(m, k, t) == binom(m + k, k) - binom(m - t + k, k),
    decreases t,
{
    if t > 0 {
        lemma_hockey(m, k, t - 1);
        lemma_pascal(m - (t - 1) + k, k);
    }
}

/// Σ_{j<t} ie_term(d - j, s): one column of the double sum.
spec fn column(w: int, d: int, k: int, s: int, t: int) -> int
    decreases t,
{
    if t <= 0 {
        0
    } else {
        column(w, d, k, s, t - 1) + ie_term(w, d - (t - 1), k, s)
    }
}

proof fn lemma_column(w: int, d: int, k: int, s: int, t: int)
    requires
        t >= 0,
    ensures
        column(w, d, k, s, t) == sgn(s) * binom(k, s) * hockey(d - s * w, k, t),
    decreases t,
{
    if t > 0 {
        lemma_column(w, d, k, s, t - 1);
        let c = sgn(s) * binom(k, s);
        let x = hockey(d - s * w, k, t - 1);
        let y = binom(d - s * w - (t - 1) + k - 1, k - 1);
        assert(d - (t - 1) - s * w + k - 1 == d - s * w - (t - 1) + k - 1);
        assert(c * x + c * y == c * (x + y)) by (nonlinear_arith);
        assert(sgn(s) * binom(k, s) * y == c * y);
    }
}

/// Σ_{s<S} column(s, t).
spec fn columns(w: int, d: int, k: int, t: int, cnt: int) -> int
    decreases cnt,
{
    if cnt <= 0 {
        0
    } else {
        columns(w, d, k, t, cnt - 1) + column(w, d, k, cnt - 1, t)
    }
}

/// Σ_{j<t} ie_sum(d - j, S).
spec fn rows(w: int, d: int, k: int, t: int, cnt: int) -> int
    decreases t,
{
    if t <= 0 {
        0
    } else {
        rows(w, d, k, t - 1, cnt) + ie_sum(w, d - (t - 1), k, cnt)
    }
}

proof fn lemma_columns_step(w: int, d: int, k: int, t: int, cnt: int)
    requires
        t >= 1,
        cnt >= 0,
    ensures
        columns(w, d, k, t, cnt) == columns(w, d, k, t - 1, cnt) + ie_sum(w, d - (t - 1), k, cnt),
    decreases cnt,
{
    if cnt > 0 {
        lemma_columns_step(w, d, k, t, cnt - 1);
    }
}

/// The double sum may be taken in either order.
proof fn lemma_swap(w: int, d: int, k: int, t: int, cnt: int)
    requires
        t >= 0,
        cnt >= 0,
    ensures
        rows(w, d, k, t, cnt) == columns(w, d, k, t, cnt),
    decreases t,
{
    if t > 0 {
        lemma_swap(w, d, k, t - 1, cnt);
        lemma_columns_step(w, d, k, t, cnt);
    } else {
        lemma_columns_zero(w, d, k, cnt);
    }
}

proof fn lemma_columns_zero(w: int, d: int, k: int, cnt: int)
    requires
        cnt >= 0,
    ensures
        columns(w, d, k, 0, cnt) == 0,
    decreases cnt,
{
    if cnt > 0 {
        lemma_columns_zero(w, d, k, cnt - 1);
    }
}

/// Σ_{s<t} (-1)^s C(k, s) (A(s) - A(s+1)), with A(s) = C(d - s·w + k, k).
spec fn telescoped(w: int, d: int, k: int, t: int) -> int
    decreases t,
{
    if t <= 0 {
        0
    } else {
        telescoped(w, d, k, t - 1) + sgn(t - 1) * binom(k, t - 1) * (binom(
            d - (t - 1) * w + k,
            k,
        ) - binom(d - t * w + k, k))
    }
}

proof fn lemma_columns_telescoped(w: int, d: int, k: int, cnt: int)
    requires
        k >= 1,
        w >= 1,
        cnt >= 0,
    ensures
        columns(w, d, k, w, cnt) == telescoped(w, d, k, cnt),
    decreases cnt,
{
    if cnt > 0 {
        let s = cnt - 1;
        lemma_columns_telescoped(w, d, k, s);
        lemma_column(w, d, k, s, w);
        lemma_hockey(d - s * w, k, w);
        assert(d - s * w - w + k == d - cnt * w + k) by (nonlinear_arith)
            requires
                s == cnt - 1,
        ;
    }
}

/// Shifting the telescoped sum by one index: Pascal's rule merges
/// C(k, s) and C(k, s - 1) into C(k + 1, s).
proof fn lemma_telescoped(w: int, d: int, k: int, t: int)
    requires
        k >= 1,
        t >= 0,
    ensures
        telescoped(w, d, k, t) == ie_sum(w, d, k + 1, t) + sgn(t) * binom(k, t - 1) * binom(
            d - t * w + k,
            k,
        ),
    decreases t,
{
    if t > 0 {
        let s = t - 1;
        lemma_telescoped(w, d, k, s);
        if s >= 1 {
            lemma_pascal(k + 1, s);
        } else {
            assert(binom(k + 1, 0) == 1 && binom(k, 0) == 1 && binom(k, -1) == 0);
        }
        let a = binom(d - s * w + k, k);
        let b = binom(d - t * w + k, k);
        assert(sgn(t) == -sgn(s));
        assert(telescoped(w, d, k, t) == telescoped(w, d, k, s) + sgn(s) * binom(k, s) * (a - b));
        assert(ie_sum(w, d, k + 1, t) == ie_sum(w, d, k + 1, s) + ie_term(w, d, k + 1, s));
        assert(d - s * w + (k + 1) - 1 == d - s * w + k);
        assert(ie_term(w, d, k + 1, s) == sgn(s) * binom(k + 1, s) * a);
        let p = binom(k, s - 1);
        let q = binom(k, s);
        let r = binom(k + 1, s);
        assert(r == p + q);
        let g = sgn(s);
        let h = sgn(t);
        assert(g * p * a + g * q * (a - b) == g * r * a + h * q * b) by (nonlinear_arith)
            requires
                h == -g,
                r == p + q,
        ;
        assert(telescoped(w, d, k, s) == ie_sum(w, d, k + 1, s) + g * p * a);
        assert(ie_term(w, d, k + 1, s) == g * r * a);
        assert(binom(k, t - 1) == q);
        assert(telescoped(w, d, k, t) == ie_sum(w, d, k + 1, t) + h * q * b);
        assert(h * q * b == sgn(t) * binom(k, t - 1) * binom(d - t * w + k, k));
    } else {
        assert(binom(k, -1) == 0);
        assert(telescoped(w, d, k, 0) == 0);
        assert(ie_sum(w, d, k + 1, 0) == 0);
        let x = binom(d - t * w + k, k);
        assert(sgn(t) * binom(k, t - 1) * x == 0) by (nonlinear_arith)
            requires
                binom(k, t - 1) == 0,
        ;
    }
}

proof fn lemma_block_sum_k0(w: nat, d: int, t: nat)
    ensures
        block_sum(w, d, 0, t) == (if 0 <= d < t {
            1nat
        } else {
            0nat
        }),
    decreases t,
{
    if t > 0 {
        lemma_block_sum_k0(w, d, (t - 1) as nat);
        assert(block_sum(w, d, 0, t) == block_sum(w, d, 0, (t - 1) as nat) + layer_count(
            w,
            d - (t - 1),
            0,
        ));
    } else {
        assert(block_sum(w, d, 0, 0) == 0);
    }
}

proof fn lemma_block_sum_negative(w: nat, d: int, k: nat, t: nat)
    requires
        d < 0,
    ensures
        block_sum(w, d, k, t) == 0,
    decreases t,
{
    if t > 0 {
        lemma_block_sum_negative(w, d, k, (t - 1) as nat);
        assert(block_sum(w, d, k, t) == block_sum(w, d, k, (t - 1) as nat) + layer_count(
            w,
            d - (t - 1),
            k,
        ));
        assert(layer_count(w, d - (t - 1), k) == 0);
    } else {
        assert(block_sum(w, d, k, 0) == 0);
    }
}

proof fn lemma_block_as_rows(w: nat, d: int, k: nat, t: nat)
    requires
        k >= 1,
        forall|e: int| #[trigger] layer_count(w, e, k) == ie_sum(w as int, e, k as int, (k + 1) as int),
    ensures
        block_sum(w, d, k, t) == rows(w as int, d, k as int, t as int, (k + 1) as int),
    decreases t,
{
    if t > 0 {
        lemma_block_as_rows(w, d, k, (t - 1) as nat);
        assert(layer_count(w, d - (t - 1), k) == ie_sum(w as int, d - (t - 1), k as int, (k + 1) as int));
    }
}

/// Inclusion–exclusion counts the layer: for k ≥ 1,
/// ℓ_d(k, w) = Σ_{s=0}^{k} (-1)^s C(k, s) C(d - s·w + k - 1, k - 1).
pub proof fn lemma_inclusion_exclusion(w: nat, d: int, k: nat)
    requires
        w >= 1,
        k >= 1,
    ensures
        layer_count(w, d, k) == ie_sum(w as int, d, k as int, (k + 1) as int),
    decreases k,
{
    if k == 1 {
        lemma_block_sum_k0(w, d, w);
        if d < 0 {
            assert(layer_count(w, d, 1) == 0);
        } else {
            assert(layer_count(w, d, 1) == block_sum(w, d, 0, w));
        }
        assert(sgn(1) == -1 && sgn(0) == 1);
        assert(binom(1, 1) == 1 && binom(1, 0) == 1);
        assert(d - 1 * (w as int) + 1 - 1 == d - w);
        assert(d - 0 * (w as int) + 1 - 1 == d);
        assert(ie_term(w as int, d, 1, 0) == binom(d, 0));
        assert(ie_term(w as int, d, 1, 1) == -binom(d - w, 0));
        assert(ie_sum(w as int, d, 1, 0) == 0);
        assert(ie_sum(w as int, d, 1, 1) == ie_term(w as int, d, 1, 0));
        assert(ie_sum(w as int, d, 1, 2) == ie_term(w as int, d, 1, 0) + ie_term(w as int, d, 1, 1));
    } else {
        let kk = (k - 1) as nat;
        assert forall|e: int| #[trigger] layer_count(w, e, kk) == ie_sum(w as int, e, kk as int, (kk + 1) as int) by {
            lemma_inclusion_exclusion(w, e, kk);
        }
        lemma_block_as_rows(w, d, kk, w);
        lemma_swap(w as int, d, kk as int, w as int, (kk + 1) as int);
        lemma_columns_telescoped(w as int, d, kk as int, (kk + 1) as int);
        lemma_telescoped(w as int, d, kk as int, (kk + 1) as int);
        assert(binom(kk as int, kk as int) == 1);
        assert(ie_sum(w as int, d, k as int, (k + 1) as int) == ie_sum(w as int, d, k as int, k as int)
            + ie_term(w as int, d, k as int, k as int));
        assert(kk + 1 == k);
        if d < 0 {
            lemma_block_sum_negative(w, d, kk, w);
        }
        assert(layer_count(w, d, k) == block_sum(w, d, kk, w));
    }
}

/// Absorption: r · C(n, r) = n · C(n - 1, r - 1).
proof fn lemma_absorb(n: int, r: int)
    requires
        n >= 1,
        r >= 1,
    ensures
        r * binom(n, r) == n * binom(n - 1, r - 1),
    decreases n,
{
    lemma_pascal(n, r);
    if n >= 2 {
        if r >= 2 {
            lemma_absorb(n - 1, r - 1);
        }
        lemma_absorb(n - 1, r);
        if r >= 2 {
            lemma_pascal(n - 1, r - 1);
        } else {
            assert(binom(n - 2, r - 2) == 0);
            assert(binom(n - 1, 0) == 1 && binom(n - 2, 0) == 1);
        }
        let a = binom(n - 1, r - 1);
        let b = binom(n - 1, r);
        let c = binom(n - 2, r - 2);
        let e = binom(n - 2, r - 1);
        assert((r - 1) * a == (n - 1) * c);
        assert(r * b == (n - 1) * e);
        assert(a == c + e);
        assert(r * (a + b) == n * a) by (nonlinear_arith)
            requires
                (r - 1) * a == (n - 1) * c,
                r * b == (n - 1) * e,
                a == c + e,
        ;
    } else {
        assert(n == 1);
        if r == 1 {
            assert(binom(1, 1) == 1 && binom(0, 0) == 1);
        } else {
            assert(binom(1, r) == 0);
        }
    }
}

/// C(n, i+1) · (i+1) = C(n, i) · (n - i).
proof fn lemma_binom_step(n: int, i: int)
    requires
        0 <= i < n,
    ensures
        binom(n, i + 1) * (i + 1) == binom(n, i) * (n - i),
{
    lemma_absorb(n, i + 1);
    if i >= 1 {
        lemma_absorb(n, i);
        lemma_pascal(n, i);
        let a = binom(n - 1, i - 1);
        let b = binom(n - 1, i);
        assert(binom(n, i) == a + b);
        assert(i * binom(n, i) == n * a);
        assert(binom(n, i) * (n - i) == n * b) by (nonlinear_arith)
            requires
                binom(n, i) == a + b,
                i * binom(n, i) == n * a,
        ;
    } else {
        assert(binom(n, 0) == 1 && binom(n - 1, 0) == 1);
    }
    assert((i + 1) * binom(n, i + 1) == binom(n, i + 1) * (i + 1)) by (nonlinear_arith);
}

/// C(n, k) = C(n, n - k).
proof fn lemma_binom_symmetric(n: int, k: int)
    requires
        0 <= k <= n,
    ensures
        binom(n, k) == binom(n, n - k),
    decreases n,
{
    if 0 < k < n {
        lemma_binom_symmetric(n - 1, k - 1);
        lemma_binom_symmetric(n - 1, k);
        lemma_pascal(n, n - k);
    }
}

/// C(n, k), exactly, by the multiplicative form
/// Π_{i<k} (n - i) / (i + 1) with k replaced by min(k, n - k).
pub fn binomial(n: usize, k: usize) -> (r: BigUint)
    ensures
        big_value(r) == binom(n as int, k as int),
{
    if k > n {
        return big_from_usize(0);
    }
    if k == 0 || k == n {
        return big_from_usize(1);
    }
    proof {
        lemma_binom_symmetric(n as int, k as int);
    }
    let k = if k < n - k {
        k
    } else {
        n - k
    };
    let mut result = big_from_usize(1);
    let mut i: usize = 0;
    assert(binom(n as int, 0) == 1);
    while i < k
        invariant
            i <= k,
            k <= n,
            big_value(result) == binom(n as int, i as int),
        decreases k - i,
    {
        proof {
            lemma_binom_step(n as int, i as int);
            vstd::arithmetic::div_mod::lemma_div_by_multiple(
                binom(n as int, (i + 1) as int) as int,
                (i + 1) as int,
            );
        }
        let num = big_mul(&result, &big_from_usize(n - i));
        result = big_div(&num, &big_from_usize(i + 1));
        i = i + 1;
    }
    result
}

proof fn lemma_ie_term_vanishes(w: int, d: int, k: int, s: int)
    requires
        w >= 1,
        d >= 0,
        k >= 1,
        s >= 0,
        s > k || s > d / w,
    ensures
        ie_term(w, d, k, s) == 0,
{
    if s > k {
        assert(binom(k, s) == 0);
    } else {
        assert(s * w > d) by (nonlinear_arith)
            requires
                s > d / w,
                w >= 1,
                d >= 0,
        ;
        assert(binom(d - s * w + k - 1, k - 1) == 0);
    }
    let x = sgn(s);
    let y = binom(k, s);
    let z = binom(d - s * w + k - 1, k - 1);
    assert(x * y * z == 0) by (nonlinear_arith)
        requires
            y == 0 || z == 0,
    ;
}

proof fn lemma_ie_sum_stable(w: int, d: int, k: int, t0: int, t: int)
    requires
        w >= 1,
        d >= 0,
        k >= 1,
        t0 >= 0,
        t0 > k || t0 > d / w,
        t0 <= t,
    ensures
        ie_sum(w, d, k, t) == ie_sum(w, d, k, t0),
    decreases t - t0,
{
    if t > t0 {
        lemma_ie_sum_stable(w, d, k, t0, t - 1);
        lemma_ie_term_vanishes(w, d, k, t - 1);
    }
}

/// ℓ_d(v, w), exactly, by inclusion–exclusion:
/// Σ_{s=0}^{⌊d/w⌋} (-1)^s · C(v, s) · C(d - s·w + v - 1, v - 1);
/// 0 past the last layer v(w-1).
pub fn layer_size_by_inclusion_exclusion(d: usize, v: usize, w: usize) -> (r: BigUint)
    requires
        w >= 2,
        v >= 1,
        v * w <= usize::MAX,
    ensures
        big_value(r) == layer_count(w as nat, d as int, v as nat),
{
    proof {
        assert(v * (w - 1) < v * w) by (nonlinear_arith)
            requires
                v >= 1,
                w >= 2,
        ;
    }
    if d > v * (w - 1) {
        proof {
            crate::layer::lemma_layer_count_beyond(w as nat, d as int, v as nat);
        }
        return big_from_usize(0);
    }
    let max_s = d / w;
    let mut pos = big_from_usize(0);
    let mut neg = big_from_usize(0);
    let mut s: usize = 0;
    while s <= max_s
        invariant
            s <= max_s + 1,
            max_s == d / w,
            w >= 2,
            v >= 1,
            d <= v * (w - 1),
            v * w <= usize::MAX,
            big_value(pos) - big_value(neg) == ie_sum(w as int, d as int, v as int, s as int),
        decreases max_s + 1 - s,
    {
        proof {
            assert(s * w <= d) by (nonlinear_arith)
                requires
                    s <= d / w,
                    w >= 2,
            ;
            assert(d + v <= v * w) by (nonlinear_arith)
                requires
                    d <= v * (w - 1),
                    v >= 1,
            ;
        }
        let bvs = binomial(v, s);
        let sw = s * w;
        let top = d + v - 1;
        let inner = top - sw;
        let bin = binomial(inner, v - 1);
        let term = big_mul(&bvs, &bin);
        proof {
            assert(inner as int == d - s * w + v - 1);
            let x = binom(v as int, s as int);
            let y = binom(inner as int, v - 1);
            assert(ie_term(w as int, d as int, v as int, s as int) == sgn(s as int) * x * y);
            if s % 2 == 0 {
                assert(sgn(s as int) * x * y == x * y) by (nonlinear_arith)
                    requires
                        sgn(s as int) == 1,
                ;
            } else {
                assert(sgn(s as int) * x * y == -(x * y)) by (nonlinear_arith)
                    requires
                        sgn(s as int) == -1,
                ;
            }
        }
        if s % 2 == 0 {
            pos = big_add(&pos, &term);
        } else {
            neg = big_add(&neg, &term);
        }
        s = s + 1;
    }
    proof {
        crate::counting::lemma_inclusion_exclusion(w as nat, d as int, v as nat);
        if max_s + 1 <= v + 1 {
            lemma_ie_sum_stable(w as int, d as int, v as int, max_s + 1, v + 1);
        } else {
            lemma_ie_sum_stable(w as int, d as int, v as int, v + 1, max_s + 1);
        }
    }
    big_sub(&pos, &neg)
}

} // verus!
