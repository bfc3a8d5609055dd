//! Ranking and unranking of the vertices of one layer, and the mapping Ψ
//! from integers to a layer.
//!
//! A vertex x of layer d is read through its complement y_i = w - x_i.
//! Its rank is its position in the lexicographic order of complements:
//! at each position the candidates y = 0, 1, 2, ... are taken in turn.
use crate::bignum::{big_add, big_from_usize, big_lt, big_sub, big_to_usize, big_value};
use crate::hypercube::{comp_sum, distance_to_sink, in_alphabet, is_vertex, layer_of, lemma_comp_sum_bounds};
use crate::layer::{
    block_sum, layer_count, lemma_block_sum_monotone, lemma_block_sum_saturates,
    lemma_layer_count_beyond, LayerTable,
};
use num_bigint::BigUint;
use vstd::prelude::*;

verus! {

/// `s` is a vertex of dimension k whose complement sums to d.
pub open spec fn is_layer_vertex(w: nat, k: nat, d: int, s: Seq<usize>) -> bool {
    s.len() == k && in_alphabet(w as int, s) && comp_sum(w as int, s) == d
}

/// Lexicographic rank of `s` among the vertices of its dimension in layer d.
pub open spec fn rank_of(w: nat, s: Seq<usize>, d: int) -> int
    decreases s.len(),
{
    if s.len() == 0 {
        0
    } else {
        block_sum(w, d, (s.len() - 1) as nat, (w - s[0]) as nat) + rank_of(
            w,
            s.drop_first(),
            d - (w - s[0]),
        )
    }
}

/// The vertex of layer d, dimension k, whose rank is i.
pub open spec fn unrank_of(w: nat, d: int, k: nat, i: int) -> Seq<usize> {
    choose|s: Seq<usize>| is_layer_vertex(w, k, d, s) && rank_of(w, s, d) == i
}

/// The rank of a layer vertex lies in [0, ℓ_d).
pub proof fn lemma_rank_bound(w: nat, d: int, s: Seq<usize>)
    requires
        is_layer_vertex(w, s.len(), d, s),
    ensures
        0 <= rank_of(w, s, d) < layer_count(w, d, s.len()),
    decreases s.len(),
{
    lemma_comp_sum_bounds(w as int, s);
    if s.len() > 0 {
        let y = (w - s[0]) as nat;
        let k = (s.len() - 1) as nat;
        assert(in_alphabet(w as int, s.drop_first()));
        lemma_rank_bound(w, d - y, s.drop_first());
        lemma_block_sum_monotone(w, d, k, y + 1, w);
        assert(block_sum(w, d, k, y + 1) == block_sum(w, d, k, y) + layer_count(w, d - y, k));
    }
}

/// Distinct vertices of one layer have distinct ranks.
pub proof fn lemma_rank_injective(w: nat, d: int, s1: Seq<usize>, s2: Seq<usize>)
    requires
        is_layer_vertex(w, s1.len(), d, s1),
        is_layer_vertex(w, s1.len(), d, s2),
        rank_of(w, s1, d) == rank_of(w, s2, d),
    ensures
        s1 == s2,
    decreases s1.len(),
{
    if s1.len() > 0 {
        let y1 = (w - s1[0]) as nat;
        let y2 = (w - s2[0]) as nat;
        let k = (s1.len() - 1) as nat;
        assert(in_alphabet(w as int, s1.drop_first()));
        assert(in_alphabet(w as int, s2.drop_first()));
        lemma_rank_bound(w, d - y1, s1.drop_first());
        lemma_rank_bound(w, d - y2, s2.drop_first());
        assert(block_sum(w, d, k, y1 + 1) == block_sum(w, d, k, y1) + layer_count(w, d - y1, k));
        assert(block_sum(w, d, k, y2 + 1) == block_sum(w, d, k, y2) + layer_count(w, d - y2, k));
        if y1 < y2 {
            lemma_block_sum_monotone(w, d, k, y1 + 1, y2);
        } else if y2 < y1 {
            lemma_block_sum_monotone(w, d, k, y2 + 1, y1);
        }
        assert(s1[0] == s2[0]);
        lemma_rank_injective(w, d - y1, s1.drop_first(), s2.drop_first());
        assert(s1 =~= seq![s1[0]] + s1.drop_first());
        assert(s2 =~= seq![s2[0]] + s2.drop_first());
    } else {
        assert(s1 =~= s2);
    }
}

proof fn lemma_find_block(w: nat, d: int, k: nat, i: int, t: nat) -> (y: nat)
    requires
        0 <= i < block_sum(w, d, k, t),
    ensures
        y < t,
        block_sum(w, d, k, y) <= i < block_sum(w, d, k, y + 1),
    decreases t,
{
    if i >= block_sum(w, d, k, (t - 1) as nat) {
        (t - 1) as nat
    } else {
        lemma_find_block(w, d, k, i, (t - 1) as nat)
    }
}

/// Every index below ℓ_d is the rank of some vertex of layer d.
pub proof fn lemma_unrank_exists(w: nat, d: int, k: nat, i: int)
    requires
        1 <= w <= usize::MAX,
        0 <= i < layer_count(w, d, k),
    ensures
        exists|s: Seq<usize>| is_layer_vertex(w, k, d, s) && rank_of(w, s, d) == i,
    decreases k,
{
    if k == 0 {
        let s = Seq::<usize>::empty();
        assert(is_layer_vertex(w, k, d, s) && rank_of(w, s, d) == i);
    } else {
        let y = lemma_find_block(w, d, (k - 1) as nat, i, w);
        let j = i - block_sum(w, d, (k - 1) as nat, y);
        lemma_unrank_exists(w, d - y, (k - 1) as nat, j);
        let tail = choose|s: Seq<usize>|
            #[trigger] is_layer_vertex(w, (k - 1) as nat, d - y, s) && rank_of(w, s, d - y) == j;
        let s = seq![(w - y) as usize] + tail;
        assert(s.drop_first() =~= tail);
        assert(in_alphabet(w as int, s)) by {
            assert forall|n: int| 0 <= n < s.len() implies 1 <= #[trigger] s[n] <= w by {
                if n > 0 {
                    assert(s[n] == tail[n - 1]);
                }
            }
        }
        assert(is_layer_vertex(w, k, d, s) && rank_of(w, s, d) == i);
    }
}

/// rank(unrank(i)) = i for every i in [0, ℓ_d): unranking yields a vertex of
/// layer d whose rank is i.
pub proof fn lemma_rank_unrank(w: nat, v: nat, d: int, i: int)
    requires
        1 <= w <= usize::MAX,
        0 <= i < layer_count(w, d, v),
    ensures
        is_layer_vertex(w, v, d, unrank_of(w, d, v, i)),
        rank_of(w, unrank_of(w, d, v, i), d) == i,
{
    lemma_unrank_exists(w, d, v, i);
}

/// unrank(rank(x)) = x for every vertex x of layer d.
pub proof fn lemma_unrank_rank(w: nat, v: nat, d: int, x: Seq<usize>)
    requires
        1 <= w <= usize::MAX,
        is_layer_vertex(w, v, d, x),
    ensures
        0 <= rank_of(w, x, d) < layer_count(w, d, v),
        unrank_of(w, d, v, rank_of(w, x, d)) == x,
{
    lemma_rank_bound(w, d, x);
    let i = rank_of(w, x, d);
    lemma_rank_unrank(w, v, d, i);
    lemma_rank_injective(w, d, unrank_of(w, d, v, i), x);
}

/// Ψ_d is uniform on layer d: a value z maps to the vertex x exactly when
/// z mod ℓ_d is the rank of x, so each vertex of the layer has one residue
/// class of preimages.
pub proof fn lemma_psi_uniform(w: nat, v: nat, d: int, x: Seq<usize>, z: nat)
    requires
        1 <= w <= usize::MAX,
        is_layer_vertex(w, v, d, x),
    ensures
        layer_count(w, d, v) > 0,
        (unrank_of(w, d, v, (z % layer_count(w, d, v)) as int) == x) <==> ((z % layer_count(
            w,
            d,
            v,
        )) as int == rank_of(w, x, d)),
{
    lemma_unrank_rank(w, v, d, x);
    let l = layer_count(w, d, v);
    let i = (z % l) as int;
    lemma_rank_unrank(w, v, d, i);
}

/// {(k·l + r) : k < n}: the values below n·l congruent to r.
pub open spec fn residues(l: int, r: int, n: nat) -> Set<int>
    decreases n,
{
    if n == 0 {
        Set::empty()
    } else {
        residues(l, r, (n - 1) as nat).insert((n - 1) * l + r)
    }
}

proof fn lemma_residues(l: int, r: int, n: nat)
    requires
        0 <= r < l,
    ensures
        residues(l, r, n).finite(),
        residues(l, r, n).len() == n,
        forall|z: int| #[trigger] residues(l, r, n).contains(z) <==> (0 <= z < n * l && z % l == r),
    decreases n,
{
    if n == 0 {
        assert forall|z: int| #[trigger] residues(l, r, n).contains(z) <==> (0 <= z < n * l && z
            % l == r) by {
            assert(n * l == 0) by (nonlinear_arith)
                requires
                    n == 0,
            ;
        }
    } else {
        let m = (n - 1) as nat;
        lemma_residues(l, r, m);
        let top = m * l + r;
        assert(m * l >= 0) by (nonlinear_arith)
            requires
                l > 0,
        ;
        assert(n * l == m * l + l) by (nonlinear_arith)
            requires
                m == n - 1,
        ;
        vstd::arithmetic::div_mod::lemma_fundamental_div_mod(top, l);
        assert(top % l == r) by {
            vstd::arithmetic::div_mod::lemma_mod_multiples_vanish(m as int, r, l);
            vstd::arithmetic::div_mod::lemma_small_mod(r as nat, l as nat);
            assert(top == l * m + r) by (nonlinear_arith)
                requires
                    top == m * l + r,
            ;
        }
        assert(!residues(l, r, m).contains(top));
        assert forall|z: int| #[trigger] residues(l, r, n).contains(z) <==> (0 <= z < n * l && z
            % l == r) by {
            if 0 <= z < n * l && z % l == r && z >= m * l {
                vstd::arithmetic::div_mod::lemma_fundamental_div_mod(z, l);
                let q = z / l;
                assert(q == m) by (nonlinear_arith)
                    requires
                        z == l * q + r,
                        m * l <= z < m * l + l,
                        0 <= r < l,
                ;
                assert(z == top) by (nonlinear_arith)
                    requires
                        z == l * q + r,
                        q == m,
                        top == m * l + r,
                ;
            }
        }
    }
}

/// Exhaustive sampling of Ψ_d over 0..n·ℓ_d hits every vertex of layer d
/// exactly n times, and no other sequence at all.
pub proof fn lemma_psi_count(w: nat, v: nat, d: int, x: Seq<usize>, n: nat)
    requires
        1 <= w <= usize::MAX,
        layer_count(w, d, v) > 0,
    ensures
        ({
            let l = layer_count(w, d, v) as int;
            let hits = Set::new(|z: int| 0 <= z < n * l && unrank_of(w, d, v, z % l) == x);
            &&& hits.finite()
            &&& hits.len() == if is_layer_vertex(w, v, d, x) {
                n
            } else {
                0
            }
        }),
{
    let l = layer_count(w, d, v) as int;
    let hits = Set::new(|z: int| 0 <= z < n * l && unrank_of(w, d, v, z % l) == x);
    if is_layer_vertex(w, v, d, x) {
        lemma_rank_bound(w, d, x);
        let r = rank_of(w, x, d);
        lemma_residues(l, r, n);
        assert forall|z: int| #[trigger] hits.contains(z) <==> residues(l, r, n).contains(z) by {
            if 0 <= z {
                lemma_psi_uniform(w, v, d, x, z as nat);
            }
        }
        assert(hits =~= residues(l, r, n));
    } else {
        assert forall|z: int| !#[trigger] hits.contains(z) by {
            if 0 <= z < n * l {
                let i = z % l;
                lemma_rank_unrank(w, v, d, i);
            }
        }
        assert(hits =~= Set::<int>::empty());
    }
}

/// Errors of the layer mappings.
#[derive(Debug, PartialEq, Eq, Hash)]
pub enum MappingError {
    InvalidLayer { expected: usize, actual: usize },
    InvalidCoordinate { position: usize, value: usize, max: usize },
    IntegerOverflow,
    IndexOutOfRange { index: usize, max: usize },
}

/// The rank of `vertex` within layer d of [w]^v.
pub fn vertex_to_integer(vertex: &[usize], w: usize, v: usize, d: usize) -> (r: Result<
    usize,
    MappingError,
>)
    requires
        w >= 2,
        v >= 1,
        v * w <= usize::MAX,
    ensures
        match r {
            Ok(n) => is_layer_vertex(w as nat, v as nat, d as int, vertex@) && n == rank_of(
                w as nat,
                vertex@,
                d as int,
            ),
            Err(MappingError::InvalidLayer { expected, actual }) => expected == d && (
            vertex@.len() != v && actual == 0 || is_vertex(w as int, v as int, vertex@)
                && actual == layer_of(w as int, vertex@) && actual != d),
            Err(MappingError::InvalidCoordinate { position, value, max }) => vertex@.len() == v
                && max == w && position < v && value == vertex@[position as int] && !(1 <= value
                <= w) && forall|j: int| 0 <= j < position ==> 1 <= #[trigger] vertex@[j] <= w,
            Err(MappingError::IntegerOverflow) => is_layer_vertex(
                w as nat,
                v as nat,
                d as int,
                vertex@,
            ) && rank_of(w as nat, vertex@, d as int) > usize::MAX,
            Err(MappingError::IndexOutOfRange { .. }) => false,
        },
{
    if vertex.len() != v {
        return Err(MappingError::InvalidLayer { expected: d, actual: 0 });
    }
    let mut i: usize = 0;
    while i < v
        invariant
            i <= v,
            vertex@.len() == v,
            forall|j: int| 0 <= j < i ==> 1 <= #[trigger] vertex@[j] <= w,
        decreases v - i,
    {
        if vertex[i] < 1 || vertex[i] > w {
            return Err(MappingError::InvalidCoordinate { position: i, value: vertex[i], max: w });
        }
        i = i + 1;
    }
    let layer = distance_to_sink(vertex, w);
    if layer != d {
        return Err(MappingError::InvalidLayer { expected: d, actual: layer });
    }
    proof {
        lemma_comp_sum_bounds(w as int, vertex@);
        assert(v * (w - 1) < v * w && v + v <= v * w) by (nonlinear_arith)
            requires
                v >= 1,
                w >= 2,
        ;
    }
    let t = LayerTable::build(w, v, d);
    let mut acc = big_from_usize(0);
    let mut dsuf: usize = 0;
    let mut i: usize = v;
    while i > 0
        invariant
            i <= v,
            vertex@.len() == v,
            in_alphabet(w as int, vertex@),
            comp_sum(w as int, vertex@) == d,
            t.wf(),
            t.w == w,
            t.v == v,
            t.d == d,
            dsuf == comp_sum(w as int, vertex@.subrange(i as int, v as int)),
            dsuf <= d,
            big_value(acc) == rank_of(w as nat, vertex@.subrange(i as int, v as int), dsuf as int),
        decreases i,
    {
        let ghost tail = vertex@.subrange(i as int, v as int);
        let ghost cur = vertex@.subrange(i - 1, v as int);
        assert(cur.drop_first() =~= tail);
        let y = w - vertex[i - 1];
        proof {
            lemma_comp_sum_split(w as int, vertex@, i - 1);
            assert(in_alphabet(w as int, vertex@.subrange(0, i - 1)));
            lemma_comp_sum_bounds(w as int, vertex@.subrange(0, i - 1));
        }
        let dnew = dsuf + y;
        let ghost base = big_value(acc);
        let mut j: usize = 0;
        while j < y
            invariant
                j <= y,
                y == w - vertex@[i - 1],
                dnew == dsuf + y,
                dnew <= d,
                1 <= i <= v,
                t.wf(),
                t.w == w,
                t.v == v,
                t.d == d,
                big_value(acc) == base + block_sum(w as nat, dnew as int, (v - i) as nat, j as nat),
            decreases y - j,
        {
            acc = big_add(&acc, t.get(v - i, dnew - j));
            j = j + 1;
        }
        dsuf = dnew;
        i = i - 1;
    }
    assert(vertex@.subrange(0, v as int) =~= vertex@);
    match big_to_usize(&acc) {
        Some(n) => Ok(n),
        None => Err(MappingError::IntegerOverflow),
    }
}

/// comp_sum is additive over a split of the sequence.
pub proof fn lemma_comp_sum_split(w: int, s: Seq<usize>, i: int)
    requires
        0 <= i <= s.len(),
    ensures
        comp_sum(w, s) == comp_sum(w, s.subrange(0, i)) + comp_sum(w, s.subrange(i, s.len() as int)),
    decreases s.len(),
{
    if i == 0 {
        assert(s.subrange(0, 0) =~= Seq::<usize>::empty());
        assert(s.subrange(0, s.len() as int) =~= s);
    } else {
        lemma_comp_sum_split(w, s.drop_first(), i - 1);
        assert(s.subrange(0, i).drop_first() =~= s.drop_first().subrange(0, i - 1));
        assert(s.subrange(i, s.len() as int) =~= s.drop_first().subrange(i - 1, s.len() - 1));
    }
}

/// Builds the suffix of length k, within budget `drem`, whose rank is `r`.
fn unrank_suffix(t: &LayerTable, r: BigUint, drem: usize, k: usize) -> (res: Vec<usize>)
    requires
        t.wf(),
        t.w >= 1,
        k <= t.v,
        drem <= t.d,
        big_value(r) < layer_count(t.w as nat, drem as int, k as nat),
    ensures
        is_layer_vertex(t.w as nat, k as nat, drem as int, res@),
        rank_of(t.w as nat, res@, drem as int) == big_value(r),
    decreases k,
{
    let w = t.w;
    if k == 0 {
        let res: Vec<usize> = Vec::new();
        assert(res@ =~= Seq::<usize>::empty());
        return res;
    }
    let ghost kk = (k - 1) as nat;
    assert(block_sum(w as nat, drem as int, kk, 0) == 0);
    assert(block_sum(w as nat, drem as int, kk, 1) == block_sum(w as nat, drem as int, kk, 0)
        + layer_count(w as nat, drem as int - 0, kk));
    assert(layer_count(w as nat, drem as int, k as nat) == block_sum(w as nat, drem as int, kk, w as nat));
    let mut y: usize = 0;
    let mut acc = big_from_usize(0);
    let mut next = big_add(&acc, t.get(k - 1, drem));
    while !big_lt(&r, &next)
        invariant
            t.wf(),
            t.w == w,
            w >= 1,
            1 <= k <= t.v,
            drem <= t.d,
            y <= drem,
            y < w,
            big_value(acc) == block_sum(w as nat, drem as int, kk, y as nat),
            big_value(next) == block_sum(w as nat, drem as int, kk, (y + 1) as nat),
            big_value(acc) <= big_value(r),
            big_value(r) < layer_count(w as nat, drem as int, k as nat),
            kk == k - 1,
        decreases drem - y,
    {
        proof {
            assert(layer_count(w as nat, drem as int, k as nat) == block_sum(w as nat, drem as int, kk, w as nat));
            if y + 1 == w {
                assert(false);
            } else if y == drem {
                lemma_block_sum_saturates(w as nat, drem as int, kk, w as nat);
                assert(false);
            }
        }
        acc = next;
        y = y + 1;
        next = big_add(&acc, t.get(k - 1, drem - y));
    }
    let rest = big_sub(&r, &acc);
    let mut res = unrank_suffix(t, rest, drem - y, k - 1);
    let ghost tail = res@;
    res.insert(0, w - y);
    assert(res@.drop_first() =~= tail);
    assert(in_alphabet(w as int, res@)) by {
        assert forall|n: int| 0 <= n < res@.len() implies 1 <= #[trigger] res@[n] <= w by {
            if n > 0 {
                assert(res@[n] == tail[n - 1]);
            }
        }
    }
    res
}

/// The vertex of layer d of [w]^v whose rank is `x`, for an index of any
/// size; `None` when x ≥ ℓ_d.
pub fn big_index_to_vertex(x: &BigUint, w: usize, v: usize, d: usize) -> (r: Option<Vec<usize>>)
    requires
        w >= 2,
        v >= 1,
        v * w <= usize::MAX,
    ensures
        big_value(*x) < layer_count(w as nat, d as int, v as nat) <==> r is Some,
        r matches Some(vx) ==> vx@ == unrank_of(w as nat, d as int, v as nat, big_value(*x) as int)
            && is_vertex(w as int, v as int, vx@) && layer_of(w as int, vx@) == d,
{
    proof {
        assert(v * (w - 1) < v * w && v + v <= v * w) by (nonlinear_arith)
            requires
                v >= 1,
                w >= 2,
        ;
    }
    if d > v * (w - 1) {
        proof {
            lemma_layer_count_beyond(w as nat, d as int, v as nat);
        }
        return None;
    }
    let t = LayerTable::build(w, v, d);
    if !big_lt(x, t.get(v, d)) {
        return None;
    }
    let res = unrank_suffix(&t, crate::bignum::big_clone(x), d, v);
    proof {
        lemma_unrank_rank(w as nat, v as nat, d as int, res@);
        lemma_comp_sum_bounds(w as int, res@);
    }
    Some(res)
}

/// The vertex of layer d of [w]^v whose rank is `x`.
pub fn integer_to_vertex(x: usize, w: usize, v: usize, d: usize) -> (r: Result<
    Vec<usize>,
    MappingError,
>)
    requires
        w >= 2,
        v >= 1,
        v * w <= usize::MAX,
    ensures
        match r {
            Ok(vx) => x < layer_count(w as nat, d as int, v as nat) && vx@ == unrank_of(
                w as nat,
                d as int,
                v as nat,
                x as int,
            ) && is_vertex(w as int, v as int, vx@) && layer_of(w as int, vx@) == d,
            Err(MappingError::IndexOutOfRange { index, max }) => index == x && x >= layer_count(
                w as nat,
                d as int,
                v as nat,
            ) && (layer_count(w as nat, d as int, v as nat) <= usize::MAX ==> max
                == layer_count(w as nat, d as int, v as nat)) && (layer_count(
                w as nat,
                d as int,
                v as nat,
            ) > usize::MAX ==> max == usize::MAX),
            Err(_) => false,
        },
{
    proof {
        assert(v * (w - 1) < v * w && v + v <= v * w) by (nonlinear_arith)
            requires
                v >= 1,
                w >= 2,
        ;
    }
    if d > v * (w - 1) {
        proof {
            lemma_layer_count_beyond(w as nat, d as int, v as nat);
        }
        return Err(MappingError::IndexOutOfRange { index: x, max: 0 });
    }
    let t = LayerTable::build(w, v, d);
    let bx = big_from_usize(x);
    let total = t.get(v, d);
    if !big_lt(&bx, total) {
        let max = match big_to_usize(total) {
            Some(n) => n,
            None => usize::MAX,
        };
        return Err(MappingError::IndexOutOfRange { index: x, max });
    }
    let res = unrank_suffix(&t, bx, d, v);
    proof {
        lemma_unrank_rank(w as nat, v as nat, d as int, res@);
        lemma_comp_sum_bounds(w as int, res@);
    }
    Ok(res)
}

/// ℓ_d(v, w), exactly, by inclusion–exclusion.
pub fn calculate_layer_size(d: usize, v: usize, w: usize) -> (r: Result<BigUint, MappingError>)
    requires
        w >= 2,
        v * w <= usize::MAX,
    ensures
        r matches Ok(n) && big_value(n) == layer_count(w as nat, d as int, v as nat),
{
    if v == 0 {
        return Ok(big_from_usize(if d == 0 {
            1
        } else {
            0
        }));
    }
    Ok(crate::counting::layer_size_by_inclusion_exclusion(d, v, w))
}

/// Ψ_d: integers to vertices, uniform on layer d.
pub struct NonUniformMappingPsi {
    pub w: usize,
    pub v: usize,
    pub d: usize,
    pub layer_size: BigUint,
}

impl NonUniformMappingPsi {
    pub open spec fn wf(&self) -> bool {
        &&& self.w >= 2
        &&& self.v >= 1
        &&& self.v * self.w <= usize::MAX
        &&& big_value(self.layer_size) == layer_count(self.w as nat, self.d as int, self.v as nat)
        &&& big_value(self.layer_size) > 0
    }

    /// Ψ for layer d of [w]^v; `InvalidLayer` (with the last layer v(w-1)
    /// as `actual`) when d is not a layer.
    pub fn new(w: usize, v: usize, d: usize) -> (r: Result<Self, MappingError>)
        requires
            w >= 2,
            v >= 1,
            v * w <= usize::MAX,
        ensures
            d > v * (w - 1) ==> r == Err::<Self, MappingError>(
                MappingError::InvalidLayer { expected: d, actual: (v * (w - 1)) as usize },
            ),
            d <= v * (w - 1) ==> (r matches Ok(m) && m.wf() && m.w == w && m.v == v && m.d == d),
    {
        proof {
            assert(v * (w - 1) <= v * w) by (nonlinear_arith)
                requires
                    w >= 2,
            ;
        }
        if d > v * (w - 1) {
            return Err(MappingError::InvalidLayer { expected: d, actual: v * (w - 1) });
        }
        proof {
            crate::layer::lemma_layer_nonempty(w as nat, d as int, v as nat);
        }
        let layer_size = crate::counting::layer_size_by_inclusion_exclusion(d, v, w);
        Ok(NonUniformMappingPsi { w, v, d, layer_size })
    }

    /// Ψ_d(value) = unrank(value mod ℓ_d), with ℓ_d of any size.
    pub fn map(&self, value: usize) -> (r: Result<Vec<usize>, MappingError>)
        requires
            self.wf(),
        ensures
            r matches Ok(vx) && vx@ == unrank_of(
                self.w as nat,
                self.d as int,
                self.v as nat,
                value as int % big_value(self.layer_size) as int,
            ) && is_vertex(self.w as int, self.v as int, vx@) && layer_of(self.w as int, vx@)
                == self.d,
    {
        let index = crate::bignum::big_rem(&big_from_usize(value), &self.layer_size);
        match big_index_to_vertex(&index, self.w, self.v, self.d) {
            Some(vx) => Ok(vx),
            None => Err(MappingError::IndexOutOfRange { index: value, max: 0 }),
        }
    }

    /// ℓ_d, exactly.
    pub fn layer_size(&self) -> (r: BigUint)
        ensures
            big_value(r) == big_value(self.layer_size),
    {
        crate::bignum::big_clone(&self.layer_size)
    }
}

/// Unranking within a fixed layer.
pub struct MapToVertex {
    pub w: usize,
    pub v: usize,
    pub d: usize,
}

impl MapToVertex {
    pub fn new(w: usize, v: usize, d: usize) -> (r: Self)
        ensures
            r.w == w && r.v == v && r.d == d,
    {
        MapToVertex { w, v, d }
    }

    pub fn map(&self, i: usize) -> (r: Result<Vec<usize>, MappingError>)
        requires
            self.w >= 2,
            self.v >= 1,
            self.v * self.w <= usize::MAX,
        ensures
            match r {
                Ok(vx) => i < layer_count(self.w as nat, self.d as int, self.v as nat) && vx@
                    == unrank_of(self.w as nat, self.d as int, self.v as nat, i as int),
                Err(e) => e matches MappingError::IndexOutOfRange { .. } && i >= layer_count(
                    self.w as nat,
                    self.d as int,
                    self.v as nat,
                ),
            },
    {
        integer_to_vertex(i, self.w, self.v, self.d)
    }
}

/// Ranking within a fixed layer.
pub struct MapToInteger {
    pub w: usize,
    pub v: usize,
    pub d: usize,
}

impl MapToInteger {
    pub fn new(w: usize, v: usize, d: usize) -> (r: Self)
        ensures
            r.w == w && r.v == v && r.d == d,
    {
        MapToInteger { w, v, d }
    }

    pub fn map(&self, vertex: &[usize]) -> (r: Result<usize, MappingError>)
        requires
            self.w >= 2,
            self.v >= 1,
            self.v * self.w <= usize::MAX,
        ensures
            r matches Ok(n) ==> is_layer_vertex(self.w as nat, self.v as nat, self.d as int, vertex@)
                && n == rank_of(self.w as nat, vertex@, self.d as int),
            r is Err ==> !is_layer_vertex(self.w as nat, self.v as nat, self.d as int, vertex@)
                || rank_of(self.w as nat, vertex@, self.d as int) > usize::MAX,
    {
        let r = vertex_to_integer(vertex, self.w, self.v, self.d);
        proof {
            if r is Err && is_layer_vertex(self.w as nat, self.v as nat, self.d as int, vertex@) {
                lemma_comp_sum_bounds(self.w as int, vertex@);
            }
        }
        r
    }
}

impl crate::hypercube::Hypercube {
    /// The vertices of layer `layer`, in rank order: entry i has rank i.
    pub fn vertices_in_layer(&self, layer: usize) -> (r: Vec<crate::hypercube::Vertex>)
        requires
            self.w >= 2,
            self.v >= 1,
            self.v * self.w <= usize::MAX,
            layer_count(self.w as nat, layer as int, self.v as nat) <= usize::MAX,
        ensures
            r@.len() == layer_count(self.w as nat, layer as int, self.v as nat),
            forall|i: int|
                0 <= i < r@.len() ==> (#[trigger] r@[i])@ == unrank_of(
                    self.w as nat,
                    layer as int,
                    self.v as nat,
                    i,
                ) && is_vertex(self.w as int, self.v as int, r@[i]@) && layer_of(
                    self.w as int,
                    r@[i]@,
                ) == layer,
    {
        let size = match calculate_layer_size(layer, self.v, self.w) {
            Ok(b) => match big_to_usize(&b) {
                Some(n) => n,
                None => 0,
            },
            Err(_) => 0,
        };
        let mut out: Vec<crate::hypercube::Vertex> = Vec::new();
        let mut i: usize = 0;
        while i < size
            invariant
                i <= size,
                size == layer_count(self.w as nat, layer as int, self.v as nat),
                self.w >= 2,
                self.v >= 1,
                self.v * self.w <= usize::MAX,
                out@.len() == i,
                forall|j: int|
                    0 <= j < i ==> (#[trigger] out@[j])@ == unrank_of(
                        self.w as nat,
                        layer as int,
                        self.v as nat,
                        j,
                    ) && is_vertex(self.w as int, self.v as int, out@[j]@) && layer_of(
                        self.w as int,
                        out@[j]@,
                    ) == layer,
            decreases size - i,
        {
            match integer_to_vertex(i, self.w, self.v, layer) {
                Ok(c) => out.push(crate::hypercube::Vertex { components: c }),
                Err(_) => {
                    proof {
                        assert(false);
                    }
                },
            }
            i = i + 1;
        }
        out
    }
}

} // verus!
