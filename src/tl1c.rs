//! TL1C: messages are mapped into the top layers 0..=d0; one checksum
//! digit, the layer plus one.
use crate::bignum::{big_from_usize, big_rem, big_value};
use crate::encoding::{
    cum_layers, first_secure_top, map_to_top, message_to_value, message_value, top_vertex,
    EncodingScheme,
};
use crate::hypercube::{distance_to_sink, is_vertex, layer_of, lemma_comp_sum_bounds, Vertex};
use crate::encoding::ParameterError;
use crate::hypercube::power;
use num_bigint::BigUint;
use vstd::prelude::*;

verus! {

/// The (w, v) pairs that TL1C parameter selection tries, in order.
pub open spec fn tl1c_candidates() -> Seq<(usize, usize)> {
    seq![(16usize, 16usize), (32usize, 12usize), (64usize, 8usize), (128usize, 64usize)]
}

/// TL1C parameters (w, v, d0); the checksum d0 + 1 fits the alphabet.
#[derive(Debug, Clone, Copy)]
pub struct TL1CConfig {
    pub w: usize,
    pub v: usize,
    pub d0: usize,
}

impl TL1CConfig {
    pub open spec fn wf(&self) -> bool {
        &&& self.w >= 2
        &&& self.v >= 1
        &&& self.v * self.w <= usize::MAX
        &&& self.d0 <= self.v * (self.w - 1)
        &&& self.d0 + 1 <= self.w
    }

    /// The first candidate (w, v) of `tl1c_candidates` with a d0 < w whose
    /// top layers 0..=d0 hold at least 2^λ vertices, at its smallest such
    /// d0; `NoSecureParameters` where none has one.
    pub fn new(security_bits: usize) -> (r: Result<Self, ParameterError>)
        ensures
            r matches Ok(c) ==> c.wf() && cum_layers(c.w as nat, c.v as nat, c.d0 as int) >= power(
                2,
                security_bits as nat,
            ) && (exists|i: int|
                0 <= i < tl1c_candidates().len() && tl1c_candidates()[i] == (c.w, c.v) && (
                forall|j: int, d: int|
                    0 <= j < i && 1 <= d < tl1c_candidates()[j].0 ==> #[trigger] cum_layers(
                        tl1c_candidates()[j].0 as nat,
                        tl1c_candidates()[j].1 as nat,
                        d,
                    ) < power(2, security_bits as nat))) && (forall|d: int|
                1 <= d < c.d0 ==> #[trigger] cum_layers(c.w as nat, c.v as nat, d) < power(
                    2,
                    security_bits as nat,
                )),
            r is Err ==> forall|j: int, d: int|
                0 <= j < tl1c_candidates().len() && 1 <= d < tl1c_candidates()[j].0
                    ==> #[trigger] cum_layers(
                    tl1c_candidates()[j].0 as nat,
                    tl1c_candidates()[j].1 as nat,
                    d,
                ) < power(2, security_bits as nat),
    {
        let candidates: Vec<(usize, usize)> = vec![(16, 16), (32, 12), (64, 8), (128, 64)];
        assert(candidates@ == tl1c_candidates());
        let mut i: usize = 0;
        while i < candidates.len()
            invariant
                i <= candidates@.len(),
                candidates@ == tl1c_candidates(),
                forall|j: int, d: int|
                    0 <= j < i && 1 <= d < tl1c_candidates()[j].0 ==> #[trigger] cum_layers(
                        tl1c_candidates()[j].0 as nat,
                        tl1c_candidates()[j].1 as nat,
                        d,
                    ) < power(2, security_bits as nat),
            decreases candidates@.len() - i,
        {
            let (w, v) = candidates[i];
            proof {
                assert(i == 0 || i == 1 || i == 2 || i == 3);
            }
            match first_secure_top(w, v, w - 1, security_bits) {
                Some(d0) => {
                    let r = TL1CConfig { w, v, d0 };
                    assert(tl1c_candidates()[i as int] == (r.w, r.v));
                    return Ok(r);
                },
                None => {},
            }
            i = i + 1;
        }
        Err(ParameterError::NoSecureParameters)
    }

    pub fn with_params(w: usize, v: usize, d0: usize) -> (r: Self)
        requires
            w > 1,
            v > 0,
            v * w <= usize::MAX,
            d0 <= v * (w - 1),
            d0 + 1 <= w,
        ensures
            r.w == w && r.v == v && r.d0 == d0,
            r.wf(),
    {
        TL1CConfig { w, v, d0 }
    }

    pub fn w(&self) -> (r: usize)
        ensures
            r == self.w,
    {
        self.w
    }

    pub fn v(&self) -> (r: usize)
        ensures
            r == self.v,
    {
        self.v
    }

    pub fn d0(&self) -> (r: usize)
        ensures
            r == self.d0,
    {
        self.d0
    }

    /// v message chains and one checksum chain.
    pub fn signature_chains(&self) -> (r: usize)
        requires
            self.wf(),
        ensures
            r == self.v + 1,
    {
        assert(self.v + self.v <= self.v * self.w) by (nonlinear_arith)
            requires
                self.w >= 2,
        ;
        self.v + 1
    }
}

/// The TL1C encoder.
pub struct TL1C {
    pub config: TL1CConfig,
    pub hasher: crate::hash::SHA256,
    pub total_layer_size: BigUint,
}

impl TL1C {
    pub open spec fn wf(&self) -> bool {
        &&& self.config.wf()
        &&& big_value(self.total_layer_size) == cum_layers(
            self.config.w as nat,
            self.config.v as nat,
            self.config.d0 as int,
        )
        &&& big_value(self.total_layer_size) > 0
    }

    /// The encoder for `config`, with |L| = Σ_{d=0}^{d0} ℓ_d held exactly.
    pub fn new(config: TL1CConfig) -> (r: Self)
        requires
            config.wf(),
        ensures
            r.wf(),
            r.config == config,
    {
        let total = crate::encoding::top_layers_total(config.w, config.v, config.d0);
        proof {
            crate::encoding::lemma_cum_layers_monotone(
                config.w as nat,
                config.v as nat,
                0,
                config.d0 as int,
            );
            assert(cum_layers(config.w as nat, config.v as nat, -1) == 0);
            assert(crate::layer::layer_count(config.w as nat, 0, config.v as nat) > 0) by {
                crate::layer::lemma_layer_nonempty(config.w as nat, 0, config.v as nat);
            }
        }
        TL1C { config, hasher: crate::hash::SHA256::new(), total_layer_size: total }
    }

    /// The vertex and the checksum digit d(vertex) + 1.
    pub fn encode_with_checksum(&self, message: &[u8], randomness: &[u8]) -> (r: (Vertex, usize))
        requires
            self.wf(),
        ensures
            r.0@ == self.spec_encode(message@, randomness@),
            is_vertex(self.config.w as int, self.config.v as int, r.0@),
            layer_of(self.config.w as int, r.0@) <= self.config.d0,
            r.1 == layer_of(self.config.w as int, r.0@) + 1,
    {
        let vertex = self.encode(message, randomness);
        let layer = distance_to_sink(vertex.components.as_slice(), self.config.w);
        let checksum = self.calculate_checksum(layer);
        (vertex, checksum)
    }

    /// The checksum digit of a layer: layer + 1.
    pub fn calculate_checksum(&self, layer: usize) -> (r: usize)
        requires
            layer < usize::MAX,
        ensures
            r == layer + 1,
    {
        layer + 1
    }

    /// The encoding of (m, r): Ψ over layers 0..=d0 at z mod |L|.
    pub open spec fn spec_encode(&self, m: Seq<u8>, r: Seq<u8>) -> Seq<usize> {
        let index = message_value(m, r) as int % big_value(self.total_layer_size) as int;
        let d = choose|d: int|
            0 <= d <= self.config.d0 && cum_layers(self.config.w as nat, self.config.v as nat, d - 1)
                <= index < #[trigger] cum_layers(self.config.w as nat, self.config.v as nat, d);
        top_vertex(self.config.w as nat, self.config.v as nat, d, index)
    }

    /// Ψ over the top layers: the vertex at position value mod |L|.
    pub fn map_to_top_layers(&self, value: usize) -> (r: Vertex)
        requires
            self.wf(),
        ensures
            exists|d: int|
                0 <= d <= self.config.d0 && cum_layers(
                    self.config.w as nat,
                    self.config.v as nat,
                    d - 1,
                ) <= (value as int % big_value(self.total_layer_size) as int) < cum_layers(
                    self.config.w as nat,
                    self.config.v as nat,
                    d,
                ) && r@ == #[trigger] top_vertex(
                    self.config.w as nat,
                    self.config.v as nat,
                    d,
                    value as int % big_value(self.total_layer_size) as int,
                ),
            is_vertex(self.config.w as int, self.config.v as int, r@),
            layer_of(self.config.w as int, r@) <= self.config.d0,
    {
        proof {
            assert(self.config.d0 < usize::MAX) by (nonlinear_arith)
                requires
                    self.config.d0 + 1 <= self.config.w,
            ;
        }
        let index = big_rem(&big_from_usize(value), &self.total_layer_size);
        map_to_top(self.config.w, self.config.v, self.config.d0, &index)
    }

    /// (a_1, ..., a_v, C) with C = d(a) + 1.
    pub fn message_to_wots_digest(&self, message: &[u8], randomness: &[u8]) -> (r: Vec<usize>)
        requires
            self.wf(),
        ensures
            r@ == self.spec_encode(message@, randomness@).push(
                (layer_of(self.config.w as int, self.spec_encode(message@, randomness@)) + 1) as usize,
            ),
            r@.len() == self.config.v + 1,
            crate::hypercube::in_alphabet(self.config.w as int, r@),
    {
        let (vertex, checksum) = self.encode_with_checksum(message, randomness);
        let ghost vx = vertex@;
        assert(crate::hypercube::in_alphabet(self.config.w as int, vx));
        proof {
            lemma_comp_sum_bounds(self.config.w as int, vx);
        }
        assert(1 <= checksum <= self.config.w);
        let mut digest = vertex.components;
        digest.push(checksum);
        assert(digest@ == vx.push(checksum));
        assert(crate::hypercube::in_alphabet(self.config.w as int, digest@)) by {
            assert forall|i: int| 0 <= i < digest@.len() implies 1 <= #[trigger] digest@[i]
                <= self.config.w by {
                if i < self.config.v {
                    assert(digest@[i] == vx[i]);
                } else {
                    assert(digest@[i] == checksum);
                }
            }
        }
        digest
    }

    /// z = le(SHA-256(m ‖ r)), the whole digest, then Ψ over the top
    /// layers at z mod |L|.
    pub fn encode(&self, message: &[u8], randomness: &[u8]) -> (r: Vertex)
        requires
            self.wf(),
        ensures
            r@ == self.spec_encode(message@, randomness@),
            is_vertex(self.config.w as int, self.config.v as int, r@),
            layer_of(self.config.w as int, r@) <= self.config.d0,
    {
        let z = message_to_value(message, randomness);
        proof {
            if self.config.d0 + 1 > usize::MAX {
                assert(false);
            }
        }
        let index = big_rem(&z, &self.total_layer_size);
        let r = map_to_top(self.config.w, self.config.v, self.config.d0, &index);
        proof {
            let index = message_value(message@, randomness@) as int % big_value(
                self.total_layer_size,
            ) as int;
            let d = choose|d: int|
                0 <= d <= self.config.d0 && cum_layers(
                    self.config.w as nat,
                    self.config.v as nat,
                    d - 1,
                ) <= index < #[trigger] cum_layers(self.config.w as nat, self.config.v as nat, d);
            let d2 = choose|d: int|
                0 <= d <= self.config.d0 && cum_layers(
                    self.config.w as nat,
                    self.config.v as nat,
                    d - 1,
                ) <= index < cum_layers(self.config.w as nat, self.config.v as nat, d) && r@
                    == #[trigger] top_vertex(self.config.w as nat, self.config.v as nat, d, index);
            if d < d2 {
                crate::encoding::lemma_cum_layers_monotone(
                    self.config.w as nat,
                    self.config.v as nat,
                    d,
                    d2 - 1,
                );
            } else if d2 < d {
                crate::encoding::lemma_cum_layers_monotone(
                    self.config.w as nat,
                    self.config.v as nat,
                    d2,
                    d - 1,
                );
            }
        }
        r
    }
}

impl EncodingScheme for TL1C {
    open spec fn spec_encode(&self, m: Seq<u8>, r: Seq<u8>) -> Seq<usize> {
        TL1C::spec_encode(self, m, r)
    }

    open spec fn spec_alphabet_size(&self) -> nat {
        self.config.w as nat
    }

    open spec fn spec_dimension(&self) -> nat {
        self.config.v as nat
    }

    open spec fn encoder_wf(&self) -> bool {
        self.wf()
    }

    fn encode(&self, message: &[u8], randomness: &[u8]) -> (r: Vertex) {
        TL1C::encode(self, message, randomness)
    }

    fn alphabet_size(&self) -> (r: usize) {
        self.config.w
    }

    fn dimension(&self) -> (r: usize) {
        self.config.v
    }
}

} // verus!
