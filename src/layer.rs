//! Layer sizes of the hypercube [w]^v.
//!
//! With y_i = w - x_i, a vertex of layer d is a sequence of v integers in
//! {0, ..., w-1} summing to d. `layer_count(w, d, k)` counts such sequences
//! of length k, by the choice of the first entry.
use crate::bignum::{big_add, big_from_usize, big_to_usize, big_value};
use crate::hypercube::{distance_to_sink, in_alphabet, layer_of};
use num_bigint::BigUint;
use vstd::prelude::*;

verus! {

/// ℓ_d for dimension k: the number of sequences of length k over
/// {0, ..., w-1} that sum to d.
pub open spec fn layer_count(w: nat, d: int, k: nat) -> nat
    decreases k, 0nat,
{
    if d < 0 {
        0
    } else if k == 0 {
        if d == 0 {
            1
        } else {
            0
        }
    } else {
        block_sum(w, d, (k - 1) as nat, w)
    }
}

/// Σ_{j < t} layer_count(w, d - j, k): the vertices whose first
/// complement entry is below t.
pub open spec fn block_sum(w: nat, d: int, k: nat, t: nat) -> nat
    decreases k, t,
{
    if t == 0 {
        0
    } else {
        block_sum(w, d, k, (t - 1) as nat) + layer_count(w, d - (t - 1), k)
    }
}

/// Terms past `j = d` add nothing to a block sum.
pub proof fn lemma_block_sum_saturates(w: nat, d: int, k: nat, t: nat)
    requires
        d >= 0,
        t >= d + 1,
    ensures
        block_sum(w, d, k, t) == block_sum(w, d, k, (d + 1) as nat),
    decreases t,
{
    if t > d + 1 {
        lemma_block_sum_saturates(w, d, k, (t - 1) as nat);
        assert(layer_count(w, d - (t - 1), k) == 0);
    }
}

pub proof fn lemma_block_sum_monotone(w: nat, d: int, k: nat, t1: nat, t2: nat)
    requires
        t1 <= t2,
    ensures
        block_sum(w, d, k, t1) <= block_sum(w, d, k, t2),
    decreases t2,
{
    if t1 < t2 {
        lemma_block_sum_monotone(w, d, k, t1, (t2 - 1) as nat);
    }
}

/// Layers past v(w-1) are empty.
pub proof fn lemma_layer_count_beyond(w: nat, d: int, k: nat)
    requires
        w >= 1,
        d > k * (w - 1),
    ensures
        layer_count(w, d, k) == 0,
    decreases k, 0nat,
{
    if d >= 0 && k > 0 {
        lemma_block_sum_beyond(w, d, (k - 1) as nat, w);
    }
}

proof fn lemma_block_sum_beyond(w: nat, d: int, k: nat, t: nat)
    requires
        w >= 1,
        t <= w,
        d > (k + 1) * (w - 1),
    ensures
        block_sum(w, d, k, t) == 0,
    decreases k, t,
{
    if t > 0 {
        lemma_block_sum_beyond(w, d, k, (t - 1) as nat);
        assert((k + 1) * (w - 1) == k * (w - 1) + (w - 1)) by (nonlinear_arith);
        lemma_layer_count_beyond(w, d - (t - 1), k);
    }
}

/// Layers 0..=v(w-1) are not empty.
pub proof fn lemma_layer_nonempty(w: nat, d: int, k: nat)
    requires
        w >= 1,
        0 <= d <= k * (w - 1),
    ensures
        layer_count(w, d, k) > 0,
    decreases k,
{
    if k > 0 {
        let j: int = if d <= w - 1 {
            d
        } else {
            w - 1
        };
        assert(d - j <= (k - 1) * (w - 1)) by (nonlinear_arith)
            requires
                0 <= d <= k * (w - 1),
                j == d || j == w - 1,
                d <= w - 1 ==> j == d,
                k >= 1,
        ;
        lemma_layer_nonempty(w, d - j, (k - 1) as nat);
        lemma_block_sum_monotone(w, d, (k - 1) as nat, (j + 1) as nat, w);
        assert(block_sum(w, d, (k - 1) as nat, (j + 1) as nat) == block_sum(
            w,
            d,
            (k - 1) as nat,
            j as nat,
        ) + layer_count(w, d - j, (k - 1) as nat));
    } else {
        assert(k * (w - 1) == 0) by (nonlinear_arith)
            requires
                k == 0,
        ;
    }
}

/// A table of exact layer sizes: `rows[k][e]` is ℓ_e in dimension k, for
/// k ≤ v and e ≤ d.
pub struct LayerTable {
    pub w: usize,
    pub v: usize,
    pub d: usize,
    pub rows: Vec<Vec<BigUint>>,
}

impl LayerTable {
    pub open spec fn wf(&self) -> bool {
        &&& self.rows@.len() == self.v + 1
        &&& forall|k: int| 0 <= k <= self.v ==> #[trigger] self.rows@[k]@.len() == self.d + 1
        &&& forall|k: int, e: int|
            0 <= k <= self.v && 0 <= e <= self.d ==> big_value(#[trigger] self.rows@[k]@[e])
                == layer_count(self.w as nat, e, k as nat)
    }

    /// Computes ℓ_e in dimension k for all k ≤ v and e ≤ d, each from the
    /// previous dimension by ℓ_e(k) = Σ_{j=0}^{min(e, w-1)} ℓ_{e-j}(k-1).
    pub fn build(w: usize, v: usize, d: usize) -> (t: LayerTable)
        requires
            w >= 1,
            d < usize::MAX,
            v < usize::MAX,
        ensures
            t.w == w,
            t.v == v,
            t.d == d,
            t.wf(),
    {
        let mut rows: Vec<Vec<BigUint>> = Vec::new();
        let mut row0: Vec<BigUint> = Vec::new();
        let mut e: usize = 0;
        while e <= d
            invariant
                e <= d + 1,
                d < usize::MAX,
                row0@.len() == e,
                forall|i: int| 0 <= i < e ==> big_value(#[trigger] row0@[i]) == layer_count(w as nat, i, 0),
            decreases d + 1 - e,
        {
            let x = if e == 0 { big_from_usize(1) } else { big_from_usize(0) };
            row0.push(x);
            e = e + 1;
        }
        rows.push(row0);
        let mut k: usize = 1;
        while k <= v
            invariant
                1 <= k <= v + 1,
                v < usize::MAX,
                d < usize::MAX,
                w >= 1,
                rows@.len() == k,
                forall|kk: int| 0 <= kk < k ==> #[trigger] rows@[kk]@.len() == d + 1,
                forall|kk: int, ee: int|
                    0 <= kk < k && 0 <= ee <= d ==> big_value(#[trigger] rows@[kk]@[ee])
                        == layer_count(w as nat, ee, kk as nat),
            decreases v + 1 - k,
        {
            let mut row: Vec<BigUint> = Vec::new();
            let mut e: usize = 0;
            while e <= d
                invariant
                    1 <= k <= v,
                    e <= d + 1,
                    d < usize::MAX,
                    w >= 1,
                    rows@.len() == k,
                    forall|kk: int| 0 <= kk < k ==> #[trigger] rows@[kk]@.len() == d + 1,
                    forall|kk: int, ee: int|
                        0 <= kk < k && 0 <= ee <= d ==> big_value(#[trigger] rows@[kk]@[ee])
                            == layer_count(w as nat, ee, kk as nat),
                    row@.len() == e,
                    forall|i: int|
                        0 <= i < e ==> big_value(#[trigger] row@[i]) == layer_count(
                            w as nat,
                            i,
                            k as nat,
                        ),
                decreases d + 1 - e,
            {
                let lim: usize = if e + 1 < w {
                    e + 1
                } else {
                    w
                };
                let prev = &rows[k - 1];
                let mut acc = big_from_usize(0);
                let mut j: usize = 0;
                while j < lim
                    invariant
                        j <= lim,
                        lim <= e + 1,
                        lim <= w,
                        e <= d,
                        prev@.len() == d + 1,
                        forall|ee: int|
                            0 <= ee <= d ==> big_value(#[trigger] prev@[ee]) == layer_count(
                                w as nat,
                                ee,
                                (k - 1) as nat,
                            ),
                        big_value(acc) == block_sum(w as nat, e as int, (k - 1) as nat, j as nat),
                    decreases lim - j,
                {
                    acc = big_add(&acc, &prev[e - j]);
                    j = j + 1;
                }
                proof {
                    if lim == e + 1 {
                        lemma_block_sum_saturates(w as nat, e as int, (k - 1) as nat, w as nat);
                    }
                }
                row.push(acc);
                e = e + 1;
            }
            rows.push(row);
            k = k + 1;
        }
        LayerTable { w, v, d, rows }
    }

    /// ℓ_e in dimension k, as held by the table.
    pub fn get(&self, k: usize, e: usize) -> (r: &BigUint)
        requires
            self.wf(),
            k <= self.v,
            e <= self.d,
        ensures
            big_value(*r) == layer_count(self.w as nat, e as int, k as nat),
    {
        assert(self.rows@[k as int]@.len() == self.d + 1);
        &self.rows[k][e]
    }
}

/// The layer d = vw - Σ x_i of a vertex with components in {1, ..., w}.
pub fn calculate_layer(vertex: &[usize], w: usize) -> (r: usize)
    requires
        in_alphabet(w as int, vertex@),
        vertex@.len() * w <= usize::MAX,
    ensures
        r == layer_of(w as int, vertex@),
{
    distance_to_sink(vertex, w)
}

/// ℓ_d(v, w) as a machine integer, by inclusion–exclusion; 0 where it
/// does not fit in a `usize`.
pub fn calculate_layer_size(d: usize, v: usize, w: usize) -> (r: usize)
    requires
        w >= 2,
        v * w <= usize::MAX,
    ensures
        layer_count(w as nat, d as int, v as nat) <= usize::MAX ==> r == layer_count(
            w as nat,
            d as int,
            v as nat,
        ),
        layer_count(w as nat, d as int, v as nat) > usize::MAX ==> r == 0,
{
    if v == 0 {
        return if d == 0 {
            1
        } else {
            0
        };
    }
    let n = crate::counting::layer_size_by_inclusion_exclusion(d, v, w);
    match big_to_usize(&n) {
        Some(n) => n,
        None => 0,
    }
}

} // verus!
