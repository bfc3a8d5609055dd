//! What the message encoders share: the `EncodingScheme` capability, the
//! reduction of (message, randomness) to an integer, the sizes of the top
//! layers 0..=d0 (all layers together make up the hypercube), and Ψ over a
//! union of top layers.
use crate::bignum::{
    big_add, big_from_bytes_le, big_from_usize, big_lt, big_sub, big_value, le_value,
};
use num_bigint::BigUint;
use crate::hash::{append_bytes, copy_bytes, sha256_of, HashFunction, SHA256};
use crate::hypercube::{in_alphabet, is_vertex, layer_of, Vertex};
use crate::layer::{layer_count, LayerTable};
use crate::mapping::unrank_of;
use vstd::prelude::*;

verus! {

/// An encoder of (message, randomness) pairs into vertices of [w]^v.
pub trait EncodingScheme {
    /// The vertex that (message, randomness) is encoded to; an encoder
    /// states it.
    open spec fn spec_encode(&self, m: Seq<u8>, r: Seq<u8>) -> Seq<usize> {
        Seq::empty()
    }

    /// The alphabet size w; an encoder states it.
    open spec fn spec_alphabet_size(&self) -> nat {
        0
    }

    /// The dimension v; an encoder states it.
    open spec fn spec_dimension(&self) -> nat {
        0
    }

    /// Whether the encoder's parameters are usable; an encoder that does
    /// not state it is never usable by verified callers.
    open spec fn encoder_wf(&self) -> bool {
        false
    }

    fn encode(&self, message: &[u8], randomness: &[u8]) -> (r: Vertex)
        requires
            self.encoder_wf(),
        ensures
            r@ == self.spec_encode(message@, randomness@),
            r@.len() == self.spec_dimension(),
            in_alphabet(self.spec_alphabet_size() as int, r@),
    ;

    fn alphabet_size(&self) -> (r: usize)
        ensures
            r == self.spec_alphabet_size(),
    ;

    fn dimension(&self) -> (r: usize)
        ensures
            r == self.spec_dimension(),
    ;
}

/// The integer z that a (message, randomness) pair is reduced to: the
/// whole digest SHA-256(m ‖ r), read little-endian.
pub open spec fn message_value(m: Seq<u8>, r: Seq<u8>) -> nat {
    le_value(sha256_of(m + r))
}

/// z = le(SHA-256(message ‖ randomness)), all 256 bits of it.
pub fn message_to_value(message: &[u8], randomness: &[u8]) -> (z: BigUint)
    ensures
        big_value(z) == message_value(message@, randomness@),
{
    let mut input = copy_bytes(message);
    append_bytes(&mut input, randomness);
    let hasher = SHA256::new();
    let h = hasher.hash(input.as_slice());
    big_from_bytes_le(h.as_slice())
}

/// Thirty-two zero bytes: the randomness with which a digest is encoded
/// for signing.
pub open spec fn zero_randomness() -> Seq<u8> {
    Seq::new(32, |i: int| 0u8)
}

/// Errors of parameter selection.
#[derive(Debug, Clone, Copy, PartialEq, Eq)]
pub enum ParameterError {
    /// No candidate parameter set reaches the security bound.
    NoSecureParameters,
}

/// Σ_{d=0}^{D} ℓ_d(v, w): the size of the top layers 0..=D.
pub open spec fn cum_layers(w: nat, v: nat, top: int) -> nat
    decreases top + 1,
{
    if top < 0 {
        0
    } else {
        cum_layers(w, v, top - 1) + layer_count(w, top, v)
    }
}

pub proof fn lemma_cum_layers_monotone(w: nat, v: nat, a: int, b: int)
    requires
        a <= b,
    ensures
        cum_layers(w, v, a) <= cum_layers(w, v, b),
    decreases b - a,
{
    if a < b {
        lemma_cum_layers_monotone(w, v, a, b - 1);
        if b >= 0 {
            assert(cum_layers(w, v, b) == cum_layers(w, v, b - 1) + layer_count(w, b, v));
        }
    }
}

/// Σ_{d=0}^{D} ℓ_{d-s}: the layer sizes shifted by s.
pub open spec fn shifted_cum(w: nat, k: nat, s: nat, top: int) -> nat
    decreases top + 1,
{
    if top < 0 {
        0
    } else {
        shifted_cum(w, k, s, top - 1) + layer_count(w, top - s, k)
    }
}

/// Σ_{d=0}^{D} Σ_{j<t} ℓ_{d-j}(k).
pub open spec fn block_cum(w: nat, k: nat, t: nat, top: int) -> nat
    decreases top + 1,
{
    if top < 0 {
        0
    } else {
        block_cum(w, k, t, top - 1) + crate::layer::block_sum(w, top, k, t)
    }
}

proof fn lemma_shifted_cum(w: nat, k: nat, s: nat, top: int)
    ensures
        shifted_cum(w, k, s, top) == cum_layers(w, k, top - s),
    decreases top + 1,
{
    if top >= 0 {
        lemma_shifted_cum(w, k, s, top - 1);
        if top - s < 0 {
            assert(cum_layers(w, k, top - s) == 0);
            assert(cum_layers(w, k, top - 1 - s) == 0);
        } else {
            assert(cum_layers(w, k, top - s) == cum_layers(w, k, top - s - 1) + layer_count(w, top - s, k));
        }
    } else {
        assert(cum_layers(w, k, top - s) == 0);
    }
}

proof fn lemma_block_cum_step(w: nat, k: nat, t: nat, top: int)
    requires
        t >= 1,
    ensures
        block_cum(w, k, t, top) == block_cum(w, k, (t - 1) as nat, top) + shifted_cum(
            w,
            k,
            (t - 1) as nat,
            top,
        ),
    decreases top + 1,
{
    if top >= 0 {
        lemma_block_cum_step(w, k, t, top - 1);
        assert(crate::layer::block_sum(w, top, k, t) == crate::layer::block_sum(w, top, k, (t - 1) as nat)
            + layer_count(w, top - (t - 1), k));
    }
}

proof fn lemma_cum_layers_tail(w: nat, k: nat, top: int)
    requires
        w >= 1,
        top >= k * (w - 1),
    ensures
        cum_layers(w, k, top) == cum_layers(w, k, k * (w - 1)),
    decreases top,
{
    if top > k * (w - 1) {
        lemma_cum_layers_tail(w, k, top - 1);
        crate::layer::lemma_layer_count_beyond(w, top, k);
        assert(k * (w - 1) >= 0) by (nonlinear_arith)
            requires
                w >= 1,
        ;
    }
}

proof fn lemma_block_cum_total(w: nat, k: nat, t: nat, top: int)
    requires
        w >= 1,
        t <= w,
        top - (t - 1) >= k * (w - 1),
    ensures
        block_cum(w, k, t, top) == t * cum_layers(w, k, k * (w - 1)),
    decreases t,
{
    if t == 0 {
        lemma_block_cum_zero(w, k, top);
    } else {
        lemma_block_cum_step(w, k, t, top);
        lemma_block_cum_total(w, k, (t - 1) as nat, top);
        lemma_shifted_cum(w, k, (t - 1) as nat, top);
        lemma_cum_layers_tail(w, k, top - (t - 1));
        assert(t * cum_layers(w, k, k * (w - 1)) == (t - 1) * cum_layers(w, k, k * (w - 1))
            + cum_layers(w, k, k * (w - 1))) by (nonlinear_arith);
    }
}

proof fn lemma_block_cum_zero(w: nat, k: nat, top: int)
    ensures
        block_cum(w, k, 0, top) == 0,
    decreases top + 1,
{
    if top >= 0 {
        lemma_block_cum_zero(w, k, top - 1);
    }
}

proof fn lemma_cum_is_block_cum(w: nat, k: nat, top: int)
    ensures
        cum_layers(w, k + 1, top) == block_cum(w, k, w, top),
    decreases top + 1,
{
    if top >= 0 {
        lemma_cum_is_block_cum(w, k, top - 1);
    }
}

/// The layers partition the hypercube: Σ_{d=0}^{v(w-1)} ℓ_d(v, w) = w^v.
pub proof fn lemma_layer_sizes_sum(w: nat, v: nat)
    requires
        w >= 1,
    ensures
        cum_layers(w, v, v * (w - 1)) == crate::hypercube::power(w as int, v),
    decreases v,
{
    if v == 0 {
        assert(cum_layers(w, 0, 0) == cum_layers(w, 0, -1) + layer_count(w, 0, 0));
    } else {
        let k = (v - 1) as nat;
        lemma_layer_sizes_sum(w, k);
        lemma_cum_is_block_cum(w, k, v * (w - 1));
        assert(v * (w - 1) - (w - 1) == k * (w - 1)) by (nonlinear_arith)
            requires
                k == v - 1,
        ;
        lemma_block_cum_total(w, k, w, v * (w - 1));
    }
}

/// The vertex of the top layers 0..=d0 whose position in the order
/// (layer 0 first, then by rank within a layer) is `index`.
pub open spec fn top_vertex(w: nat, v: nat, d: int, index: int) -> Seq<usize> {
    unrank_of(w, d, v, index - cum_layers(w, v, d - 1))
}

/// Ψ over the union of layers 0..=d0: the layer d holding `index` and the
/// vertex of that layer at offset `index - Σ_{e<d} ℓ_e`.
pub fn map_to_top(w: usize, v: usize, d0: usize, index: &BigUint) -> (r: Vertex)
    requires
        w >= 2,
        v >= 1,
        v * w <= usize::MAX,
        d0 < usize::MAX,
        big_value(*index) < cum_layers(w as nat, v as nat, d0 as int),
    ensures
        exists|d: int|
            0 <= d <= d0 && cum_layers(w as nat, v as nat, d - 1) <= big_value(*index)
                < cum_layers(w as nat, v as nat, d) && r@ == #[trigger] top_vertex(
                w as nat,
                v as nat,
                d,
                big_value(*index) as int,
            ),
        is_vertex(w as int, v as int, r@),
        layer_of(w as int, r@) <= d0,
{
    proof {
        assert(v + v <= v * w) by (nonlinear_arith)
            requires
                w >= 2,
        ;
    }
    let t = LayerTable::build(w, v, d0);
    let mut before = big_from_usize(0);
    let mut d: usize = 0;
    assert(cum_layers(w as nat, v as nat, -1) == 0);
    let mut next = big_add(&before, t.get(v, 0));
    while !big_lt(index, &next)
        invariant
            t.wf(),
            t.w == w,
            t.v == v,
            t.d == d0,
            d <= d0,
            big_value(before) == cum_layers(w as nat, v as nat, d - 1),
            big_value(next) == cum_layers(w as nat, v as nat, d as int),
            big_value(*index) >= cum_layers(w as nat, v as nat, d - 1),
            big_value(*index) < cum_layers(w as nat, v as nat, d0 as int),
        decreases d0 - d,
    {
        proof {
            if d == d0 {
                assert(false);
            }
        }
        before = next;
        d = d + 1;
        next = big_add(&before, t.get(v, d));
    }
    let offset = big_sub(index, &before);
    match crate::mapping::big_index_to_vertex(&offset, w, v, d) {
        Some(c) => {
            let r = Vertex { components: c };
            assert(r@ == top_vertex(w as nat, v as nat, d as int, big_value(*index) as int));
            r
        },
        None => {
            proof {
                assert(false);
            }
            Vertex { components: Vec::new() }
        },
    }
}

/// Σ_{d=0}^{d0} ℓ_d, exactly.
pub fn top_layers_total(w: usize, v: usize, d0: usize) -> (r: BigUint)
    requires
        w >= 2,
        v >= 1,
        v * w <= usize::MAX,
        d0 <= v * (w - 1),
    ensures
        big_value(r) == cum_layers(w as nat, v as nat, d0 as int),
{
    proof {
        assert(d0 < usize::MAX && v + v <= v * w) by (nonlinear_arith)
            requires
                d0 <= v * (w - 1),
                v * w <= usize::MAX,
                w >= 2,
                v >= 1,
        ;
    }
    let t = LayerTable::build(w, v, d0);
    let mut total = big_from_usize(0);
    let mut d: usize = 0;
    assert(cum_layers(w as nat, v as nat, -1) == 0);
    while d <= d0
        invariant
            d <= d0 + 1,
            d0 < usize::MAX,
            t.wf(),
            t.w == w,
            t.v == v,
            t.d == d0,
            big_value(total) == cum_layers(w as nat, v as nat, d - 1),
        decreases d0 + 1 - d,
    {
        total = big_add(&total, t.get(v, d));
        d = d + 1;
    }
    total
}

/// The smallest d0 in [1, limit] with Σ_{d=0}^{d0} ℓ_d(v, w) ≥ 2^λ.
pub fn first_secure_top(w: usize, v: usize, limit: usize, security_bits: usize) -> (r: Option<
    usize,
>)
    requires
        w >= 2,
        v >= 1,
        v * w <= usize::MAX,
        limit <= v * (w - 1),
    ensures
        r matches Some(d0) ==> 1 <= d0 <= limit && cum_layers(w as nat, v as nat, d0 as int)
            >= crate::hypercube::power(2, security_bits as nat),
        forall|d: int|
            1 <= d <= limit && (r matches Some(d0) ==> d < d0) ==> #[trigger] cum_layers(
                w as nat,
                v as nat,
                d,
            ) < crate::hypercube::power(2, security_bits as nat),
{
    proof {
        assert(limit < usize::MAX && v + v <= v * w) by (nonlinear_arith)
            requires
                limit <= v * (w - 1),
                v * w <= usize::MAX,
                w >= 2,
                v >= 1,
        ;
    }
    let t = LayerTable::build(w, v, limit);
    let mut target = big_from_usize(1);
    let mut j: usize = 0;
    while j < security_bits
        invariant
            j <= security_bits,
            big_value(target) == crate::hypercube::power(2, j as nat),
        decreases security_bits - j,
    {
        assert(crate::hypercube::power(2, (j + 1) as nat) == 2 * crate::hypercube::power(2, j as nat));
        target = big_add(&target, &target);
        j = j + 1;
    }
    assert(cum_layers(w as nat, v as nat, -1) == 0);
    let mut total = big_add(&big_from_usize(0), t.get(v, 0));
    let mut d0: usize = 1;
    while d0 <= limit
        invariant
            1 <= d0 <= limit + 1,
            limit < usize::MAX,
            t.wf(),
            t.w == w,
            t.v == v,
            t.d == limit,
            big_value(target) == crate::hypercube::power(2, security_bits as nat),
            big_value(total) == cum_layers(w as nat, v as nat, d0 - 1),
            forall|d: int|
                1 <= d < d0 ==> #[trigger] cum_layers(w as nat, v as nat, d)
                    < crate::hypercube::power(2, security_bits as nat),
        decreases limit + 1 - d0,
    {
        total = big_add(&total, t.get(v, d0));
        if !big_lt(&total, &target) {
            return Some(d0);
        }
        d0 = d0 + 1;
    }
    None
}

} // verus!
