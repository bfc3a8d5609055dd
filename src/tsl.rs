//! TSL: messages are mapped into a single top layer d0; no checksum.
use crate::bignum::{big_add, big_from_usize, big_lt, big_mul, big_value};
use crate::encoding::{message_to_value, message_value, EncodingScheme, ParameterError};
use crate::hypercube::{is_vertex, layer_of, power, Vertex};
use crate::layer::{layer_count, lemma_layer_nonempty};
use crate::mapping::{calculate_layer_size, unrank_of, MappingError};
use num_bigint::BigUint;
use vstd::prelude::*;

verus! {

/// A layer of ℓ vertices carries at least λ + ½·log2(λ) bits:
/// ℓ² ≥ λ · 4^λ.
pub open spec fn meets_layer_bound(l: nat, security_bits: nat) -> bool {
    l * l >= security_bits * power(2, 2 * security_bits)
}

/// Decides `meets_layer_bound` with exact integers.
pub fn layer_bound_met(l: &BigUint, security_bits: usize) -> (r: bool)
    requires
        security_bits <= usize::MAX / 2,
    ensures
        r == meets_layer_bound(big_value(*l), security_bits as nat),
{
    let lhs = big_mul(l, l);
    let mut rhs = big_from_usize(security_bits);
    let mut j: usize = 0;
    while j < 2 * security_bits
        invariant
            j <= 2 * security_bits,
            security_bits <= usize::MAX / 2,
            big_value(rhs) == security_bits * power(2, j as nat),
        decreases 2 * security_bits - j,
    {
        assert(power(2, (j + 1) as nat) == 2 * power(2, j as nat));
        assert(security_bits * power(2, (j + 1) as nat) == security_bits * power(2, j as nat)
            + security_bits * power(2, j as nat)) by (nonlinear_arith)
            requires
                power(2, (j + 1) as nat) == 2 * power(2, j as nat),
        ;
        rhs = big_add(&rhs, &rhs);
        j = j + 1;
    }
    !big_lt(&lhs, &rhs)
}

/// The tabulated (w, v, d0) for a security level: 128 bits and below, or
/// 160 bits.
pub open spec fn tsl_table(security_bits: nat) -> Seq<(usize, usize, usize)> {
    if security_bits <= 128 {
        seq![
            (86usize, 25usize, 384usize),
            (44, 30, 235),
            (26, 35, 168),
            (20, 40, 131),
            (18, 45, 108),
            (14, 50, 93),
            (10, 55, 83),
            (8, 64, 70),
            (6, 84, 54),
            (4, 132, 39),
        ]
    } else {
        seq![
            (56usize, 35usize, 337usize),
            (44, 40, 245),
            (28, 45, 193),
            (21, 50, 160),
            (14, 60, 121),
            (13, 70, 99),
            (8, 80, 86),
            (6, 104, 67),
            (4, 168, 48),
        ]
    }
}

/// |v - v'|.
pub open spec fn v_distance(a: int, b: int) -> int {
    if a >= b {
        a - b
    } else {
        b - a
    }
}

/// The index of the first of t[0..n] whose v is nearest to `v`.
pub open spec fn nearest_entry(t: Seq<(usize, usize, usize)>, v: int, n: int) -> int
    decreases n,
{
    if n <= 1 {
        0
    } else {
        let b = nearest_entry(t, v, n - 1);
        if v_distance(t[n - 1].1 as int, v) < v_distance(t[b].1 as int, v) {
            n - 1
        } else {
            b
        }
    }
}

proof fn lemma_nearest_entry_bounds(t: Seq<(usize, usize, usize)>, v: int, n: int)
    requires
        n >= 1,
    ensures
        0 <= nearest_entry(t, v, n) < n,
        t[0].1 == v ==> nearest_entry(t, v, n) == 0,
    decreases n,
{
    if n > 1 {
        lemma_nearest_entry_bounds(t, v, n - 1);
    }
}

/// TSL parameters (w, v, d0).
#[derive(Debug, Clone, Copy)]
pub struct TSLConfig {
    pub w: usize,
    pub v: usize,
    pub d0: usize,
}

impl TSLConfig {
    /// Valid parameters: d0 is a layer of [w]^v.
    pub open spec fn wf(&self) -> bool {
        &&& self.w >= 2
        &&& self.v >= 1
        &&& self.v * self.w <= usize::MAX
        &&& self.d0 <= self.v * (self.w - 1)
    }

    /// The tabulated parameters for 128-bit (v = 25) or 160-bit (v = 35)
    /// security, with d0 raised where needed so that ℓ_{d0} meets the
    /// bound.
    pub fn new(security_bits: usize) -> (r: Result<Self, ParameterError>)
        requires
            security_bits == 128 || security_bits == 160,
        ensures
            r matches Ok(c) ==> c.wf() && meets_layer_bound(
                layer_count(c.w as nat, c.d0 as int, c.v as nat),
                security_bits as nat,
            ),
            security_bits == 128 ==> (r matches Ok(c) ==> c.w == 86 && c.v == 25 && c.d0 >= 384),
            security_bits == 160 ==> (r matches Ok(c) ==> c.w == 56 && c.v == 35 && c.d0 >= 337),
    {
        proof {
            lemma_nearest_entry_bounds(tsl_table(128), 25, 10);
            lemma_nearest_entry_bounds(tsl_table(160), 35, 9);
        }
        if security_bits == 128 {
            Self::new_full(128, 25)
        } else {
            Self::new_full(160, 35)
        }
    }

    /// Takes the table entry (w, v', d0') whose v' is nearest to `v` (the
    /// first such), then the first layer d0 ≥ min(d0', v(w-1)) with
    /// ℓ_{d0}(v, w) ≥ 2^{λ + ½·log2 λ}; `NoSecureParameters` where no layer
    /// up to v(w-1) qualifies.
    pub fn new_full(security_bits: usize, v: usize) -> (r: Result<Self, ParameterError>)
        requires
            1 <= v,
            v * 86 <= usize::MAX,
            security_bits <= usize::MAX / 2,
        ensures
            ({
                let t = tsl_table(security_bits as nat);
                let e = t[nearest_entry(t, v as int, t.len() as int)];
                let start = if e.2 <= v * (e.0 - 1) {
                    e.2 as int
                } else {
                    v * (e.0 - 1)
                };
                &&& r matches Ok(c) ==> c.wf() && c.v == v && c.w == e.0 && start <= c.d0
                    && meets_layer_bound(
                    layer_count(c.w as nat, c.d0 as int, v as nat),
                    security_bits as nat,
                ) && forall|d: int|
                    start <= d < c.d0 ==> !meets_layer_bound(
                        #[trigger] layer_count(e.0 as nat, d, v as nat),
                        security_bits as nat,
                    )
                &&& r is Err ==> forall|d: int|
                    start <= d <= v * (e.0 - 1) ==> !meets_layer_bound(
                        #[trigger] layer_count(e.0 as nat, d, v as nat),
                        security_bits as nat,
                    )
            }),
    {
        let params: Vec<(usize, usize, usize)> = if security_bits <= 128 {
            vec![
                (86, 25, 384),
                (44, 30, 235),
                (26, 35, 168),
                (20, 40, 131),
                (18, 45, 108),
                (14, 50, 93),
                (10, 55, 83),
                (8, 64, 70),
                (6, 84, 54),
                (4, 132, 39),
            ]
        } else {
            vec![
                (56, 35, 337),
                (44, 40, 245),
                (28, 45, 193),
                (21, 50, 160),
                (14, 60, 121),
                (13, 70, 99),
                (8, 80, 86),
                (6, 104, 67),
                (4, 168, 48),
            ]
        };
        let ghost t = tsl_table(security_bits as nat);
        assert(params@ == t);
        assert(forall|i: int|
            0 <= i < params@.len() ==> 2 <= (#[trigger] params@[i]).0 <= 86 && params@[i].1
                <= 168);
        let mut best: usize = 0;
        let mut i: usize = 1;
        while i < params.len()
            invariant
                1 <= i <= params@.len(),
                params@ == t,
                best == nearest_entry(t, v as int, i as int),
                best < i,
            decreases params@.len() - i,
        {
            let (_, pv, _) = params[i];
            let (_, bv, _) = params[best];
            let dv = if pv >= v {
                pv - v
            } else {
                v - pv
            };
            let db = if bv >= v {
                bv - v
            } else {
                v - bv
            };
            if dv < db {
                best = i;
            }
            i = i + 1;
        }
        let (w, _, table_d0) = params[best];
        proof {
            lemma_nearest_entry_bounds(t, v as int, t.len() as int);
            assert(best == nearest_entry(t, v as int, t.len() as int));
            assert(t[best as int].0 == w && t[best as int].2 == table_d0);
            assert(v * w <= v * 86 && v * (w - 1) <= v * w) by (nonlinear_arith)
                requires
                    2 <= w <= 86,
            ;
        }
        let max_d = v * (w - 1);
        let start = if table_d0 <= max_d {
            table_d0
        } else {
            max_d
        };
        let mut d = start;
        while d <= max_d
            invariant
                t == tsl_table(security_bits as nat),
                t[nearest_entry(t, v as int, t.len() as int)].0 == w,
                t[nearest_entry(t, v as int, t.len() as int)].2 == table_d0,
                start == (if table_d0 <= max_d {
                    table_d0
                } else {
                    max_d
                }),
                start <= d,
                d <= max_d + 1,
                max_d == v * (w - 1),
                max_d < usize::MAX,
                2 <= w <= 86,
                v * w <= usize::MAX,
                v >= 1,
                security_bits <= usize::MAX / 2,
                forall|e: int|
                    start <= e < d ==> !meets_layer_bound(
                        #[trigger] layer_count(w as nat, e, v as nat),
                        security_bits as nat,
                    ),
            decreases max_d + 1 - d,
        {
            let l = crate::counting::layer_size_by_inclusion_exclusion(d, v, w);
            if layer_bound_met(&l, security_bits) {
                let c = TSLConfig { w, v, d0: d };
                assert(c.wf());
                return Ok(c);
            }
            d = d + 1;
        }
        Err(ParameterError::NoSecureParameters)
    }

    /// Explicit parameters; d0 must be a layer of [w]^v.
    pub fn with_params(w: usize, v: usize, d0: usize) -> (r: Self)
        requires
            w > 1,
            v > 0,
            v * w <= usize::MAX,
            d0 <= v * (w - 1),
        ensures
            r.w == w && r.v == v && r.d0 == d0,
            r.wf(),
    {
        TSLConfig { w, v, d0 }
    }

    pub fn w(&self) -> (r: usize)
        ensures
            r == self.w,
    {
        self.w
    }

    pub fn v(&self) -> (r: usize)
        ensures
            r == self.v,
    {
        self.v
    }

    pub fn d0(&self) -> (r: usize)
        ensures
            r == self.d0,
    {
        self.d0
    }

    /// TSL signs the v digits alone.
    pub fn signature_chains(&self) -> (r: usize)
        ensures
            r == self.v,
    {
        self.v
    }
}

/// The TSL encoder: Ψ_{d0}(z) = unrank(z mod ℓ_{d0}).
pub struct TSL {
    pub config: TSLConfig,
    pub hasher: crate::hash::SHA256,
    pub layer_size: BigUint,
}

impl TSL {
    pub open spec fn wf(&self) -> bool {
        &&& self.config.wf()
        &&& big_value(self.layer_size) == layer_count(
            self.config.w as nat,
            self.config.d0 as int,
            self.config.v as nat,
        )
        &&& big_value(self.layer_size) > 0
    }

    /// The TSL encoding of (m, r): the vertex of layer d0 of rank
    /// le(SHA-256(m ‖ r)) mod ℓ_{d0}.
    pub open spec fn spec_encode(&self, m: Seq<u8>, r: Seq<u8>) -> Seq<usize> {
        unrank_of(
            self.config.w as nat,
            self.config.d0 as int,
            self.config.v as nat,
            message_value(m, r) as int % self.spec_layer_size() as int,
        )
    }

    /// ℓ_{d0}, as an integer.
    pub open spec fn spec_layer_size(&self) -> nat {
        layer_count(self.config.w as nat, self.config.d0 as int, self.config.v as nat)
    }

    pub fn new(config: TSLConfig) -> (r: Self)
        requires
            config.wf(),
        ensures
            r.wf(),
            r.config == config,
    {
        let layer_size = match calculate_layer_size(config.d0, config.v, config.w) {
            Ok(n) => n,
            Err(_) => big_from_usize(0),
        };
        proof {
            lemma_layer_nonempty(config.w as nat, config.d0 as int, config.v as nat);
        }
        TSL { config, hasher: crate::hash::SHA256::new(), layer_size }
    }

    /// Ψ_{d0}(value): the vertex of layer d0 of rank value mod ℓ_{d0}.
    pub fn map_to_layer(&self, value: usize) -> (r: Result<Vertex, MappingError>)
        requires
            self.wf(),
        ensures
            r matches Ok(vx) && vx@ == unrank_of(
                self.config.w as nat,
                self.config.d0 as int,
                self.config.v as nat,
                value as int % self.spec_layer_size() as int,
            ) && is_vertex(self.config.w as int, self.config.v as int, vx@) && layer_of(
                self.config.w as int,
                vx@,
            ) == self.config.d0,
    {
        let index = crate::bignum::big_rem(&big_from_usize(value), &self.layer_size);
        match crate::mapping::big_index_to_vertex(&index, self.config.w, self.config.v, self.config.d0) {
            Some(c) => Ok(Vertex { components: c }),
            None => Err(MappingError::IndexOutOfRange { index: value, max: 0 }),
        }
    }

    /// Encodes (message, randomness): z = le(SHA-256(m ‖ r)), the whole
    /// digest, then Ψ_{d0}(z) = unrank(z mod ℓ_{d0}).
    pub fn encode(&self, message: &[u8], randomness: &[u8]) -> (r: Result<Vertex, MappingError>)
        requires
            self.wf(),
        ensures
            r matches Ok(vx) && vx@ == unrank_of(
                self.config.w as nat,
                self.config.d0 as int,
                self.config.v as nat,
                message_value(message@, randomness@) as int % self.spec_layer_size() as int,
            ) && is_vertex(self.config.w as int, self.config.v as int, vx@) && layer_of(
                self.config.w as int,
                vx@,
            ) == self.config.d0,
    {
        let z = message_to_value(message, randomness);
        let index = crate::bignum::big_rem(&z, &self.layer_size);
        match crate::mapping::big_index_to_vertex(&index, self.config.w, self.config.v, self.config.d0) {
            Some(c) => Ok(Vertex { components: c }),
            None => Err(MappingError::IndexOutOfRange { index: 0, max: 0 }),
        }
    }
}

impl EncodingScheme for TSL {
    open spec fn spec_encode(&self, m: Seq<u8>, r: Seq<u8>) -> Seq<usize> {
        TSL::spec_encode(self, m, r)
    }

    open spec fn spec_alphabet_size(&self) -> nat {
        self.config.w as nat
    }

    open spec fn spec_dimension(&self) -> nat {
        self.config.v as nat
    }

    open spec fn encoder_wf(&self) -> bool {
        self.wf()
    }

    fn encode(&self, message: &[u8], randomness: &[u8]) -> (r: Vertex) {
        match TSL::encode(self, message, randomness) {
            Ok(vx) => vx,
            Err(_) => {
                proof {
                    assert(false);
                }
                Vertex { components: Vec::new() }
            },
        }
    }

    fn alphabet_size(&self) -> (r: usize) {
        self.config.w
    }

    fn dimension(&self) -> (r: usize) {
        self.config.v
    }
}

} // verus!
