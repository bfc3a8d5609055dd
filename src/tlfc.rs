//! TLFC: messages are mapped into the top layers 0..=d0; c checksum
//! digits, each a weighted sum of the complements of one residue class of
//! positions, reduced mod w and shifted into [1, w].
use crate::encoding::{
    cum_layers, first_secure_top, map_to_top, message_to_value, message_value, top_vertex,
    EncodingScheme,
};
use crate::hypercube::{in_alphabet, is_vertex, layer_of, power, Vertex};
use crate::bignum::{big_from_usize, big_rem, big_value};
use crate::encoding::ParameterError;
use num_bigint::BigUint;
use vstd::prelude::*;

verus! {

/// Σ_{j < n, j mod c = i} (w - comp[j]): the complements of class i.
pub open spec fn class_sum(comp: Seq<usize>, w: int, c: int, i: int, n: int) -> int
    decreases n,
{
    if n <= 0 {
        0
    } else {
        class_sum(comp, w, c, i, n - 1) + if (n - 1) % c == i {
            w - comp[n - 1]
        } else {
            0
        }
    }
}

/// C_i = (2^i · class_sum_i mod w) + 1 for i < c.
pub open spec fn full_checksum(comp: Seq<usize>, w: int, c: int) -> Seq<usize> {
    Seq::new(
        c as nat,
        |i: int| ((power(2, i as nat) * class_sum(comp, w, c, i, comp.len() as int)) % w + 1) as usize,
    )
}

proof fn lemma_class_sum_bound(comp: Seq<usize>, w: int, c: int, i: int, n: int)
    requires
        in_alphabet(w, comp),
        0 <= n <= comp.len(),
        c >= 1,
    ensures
        0 <= class_sum(comp, w, c, i, n) <= n * w,
    decreases n,
{
    if n > 0 {
        lemma_class_sum_bound(comp, w, c, i, n - 1);
        assert(1 <= comp[n - 1] <= w);
        assert(n * w == (n - 1) * w + w) by (nonlinear_arith);
        assert(class_sum(comp, w, c, i, n) == class_sum(comp, w, c, i, n - 1) + if (n - 1) % c == i {
            w - comp[n - 1]
        } else {
            0
        });
    } else {
        assert(n * w == 0) by (nonlinear_arith)
            requires
                n == 0,
        ;
    }
}

/// The (w, v, c, limit) sets that TLFC parameter selection tries, in
/// order; d0 is sought in [1, limit].
pub open spec fn tlfc_candidates() -> Seq<(usize, usize, usize, usize)> {
    seq![
        (16usize, 16usize, 4usize, 240usize),
        (32usize, 12usize, 3usize, 372usize),
        (64usize, 8usize, 2usize, 504usize),
        (128usize, 64usize, 8usize, 127usize),
    ]
}

/// TLFC parameters (w, v, d0, c).
#[derive(Debug, Clone, Copy)]
pub struct TLFCConfig {
    pub w: usize,
    pub v: usize,
    pub d0: usize,
    pub c: usize,
}

impl TLFCConfig {
    pub open spec fn wf(&self) -> bool {
        &&& self.w >= 2
        &&& self.v >= 1
        &&& self.v * self.w <= usize::MAX
        &&& self.d0 <= self.v * (self.w - 1)
        &&& 1 <= self.c <= 64
        &&& power(2, self.c as nat) * (self.v * self.w) <= usize::MAX
    }

    /// The first candidate (w, v, c, limit) of `tlfc_candidates` with a
    /// d0 ≤ limit whose top layers 0..=d0 hold at least 2^λ vertices, at its
    /// smallest such d0; `NoSecureParameters` where none has one.
    pub fn new(security_bits: usize) -> (r: Result<Self, ParameterError>)
        ensures
            r matches Ok(cf) ==> cf.wf() && cum_layers(cf.w as nat, cf.v as nat, cf.d0 as int)
                >= power(2, security_bits as nat) && (exists|i: int|
                0 <= i < tlfc_candidates().len() && tlfc_candidates()[i].0 == cf.w
                    && tlfc_candidates()[i].1 == cf.v && tlfc_candidates()[i].2 == cf.c && (forall|
                    j: int,
                    d: int,
                |
                    0 <= j < i && 1 <= d <= tlfc_candidates()[j].3 ==> #[trigger] cum_layers(
                        tlfc_candidates()[j].0 as nat,
                        tlfc_candidates()[j].1 as nat,
                        d,
                    ) < power(2, security_bits as nat))) && (forall|d: int|
                1 <= d < cf.d0 ==> #[trigger] cum_layers(cf.w as nat, cf.v as nat, d) < power(
                    2,
                    security_bits as nat,
                )),
            r is Err ==> forall|j: int, d: int|
                0 <= j < tlfc_candidates().len() && 1 <= d <= tlfc_candidates()[j].3
                    ==> #[trigger] cum_layers(
                    tlfc_candidates()[j].0 as nat,
                    tlfc_candidates()[j].1 as nat,
                    d,
                ) < power(2, security_bits as nat),
    {
        let candidates: Vec<(usize, usize, usize, usize)> = vec![
            (16, 16, 4, 240),
            (32, 12, 3, 372),
            (64, 8, 2, 504),
            (128, 64, 8, 127),
        ];
        assert(candidates@ == tlfc_candidates());
        let mut i: usize = 0;
        while i < candidates.len()
            invariant
                i <= candidates@.len(),
                candidates@ == tlfc_candidates(),
                forall|j: int, d: int|
                    0 <= j < i && 1 <= d <= tlfc_candidates()[j].3 ==> #[trigger] cum_layers(
                        tlfc_candidates()[j].0 as nat,
                        tlfc_candidates()[j].1 as nat,
                        d,
                    ) < power(2, security_bits as nat),
            decreases candidates@.len() - i,
        {
            let (w, v, c, limit) = candidates[i];
            proof {
                assert(i == 0 || i == 1 || i == 2 || i == 3);
            }
            match first_secure_top(w, v, limit, security_bits) {
                Some(d0) => {
                    proof {
                        reveal_with_fuel(power, 9);
                    }
                    let r = TLFCConfig { w, v, d0, c };
                    assert(tlfc_candidates()[i as int].0 == r.w && tlfc_candidates()[i as int].1
                        == r.v && tlfc_candidates()[i as int].2 == r.c);
                    return Ok(r);
                },
                None => {},
            }
            i = i + 1;
        }
        Err(ParameterError::NoSecureParameters)
    }

    /// Explicit parameters; c ≥ 1, and the weighted checksum sums must fit
    /// in a `usize`.
    pub fn with_params(w: usize, v: usize, d0: usize, c: usize) -> (r: Self)
        requires
            w > 1,
            v > 0,
            v * w <= usize::MAX,
            d0 <= v * (w - 1),
            c > 0,
            c <= 64,
            power(2, c as nat) * (v * w) <= usize::MAX,
        ensures
            r.w == w && r.v == v && r.d0 == d0 && r.c == c,
            r.wf(),
    {
        TLFCConfig { w, v, d0, c }
    }

    pub fn w(&self) -> (r: usize)
        ensures
            r == self.w,
    {
        self.w
    }

    pub fn v(&self) -> (r: usize)
        ensures
            r == self.v,
    {
        self.v
    }

    pub fn d0(&self) -> (r: usize)
        ensures
            r == self.d0,
    {
        self.d0
    }

    pub fn c(&self) -> (r: usize)
        ensures
            r == self.c,
    {
        self.c
    }

    /// v message chains and c checksum chains.
    pub fn signature_chains(&self) -> (r: usize)
        requires
            self.wf(),
        ensures
            r == self.v + self.c,
    {
        assert(self.v + self.v <= self.v * self.w) by (nonlinear_arith)
            requires
                self.w >= 2,
        ;
        self.v + self.c
    }
}

/// The TLFC encoder.
pub struct TLFC {
    pub config: TLFCConfig,
    pub hasher: crate::hash::SHA256,
    pub total_layer_size: BigUint,
}

impl TLFC {
    pub open spec fn wf(&self) -> bool {
        &&& self.config.wf()
        &&& big_value(self.total_layer_size) == cum_layers(
            self.config.w as nat,
            self.config.v as nat,
            self.config.d0 as int,
        )
        &&& big_value(self.total_layer_size) > 0
    }

    /// The encoder for `config`, with |L| = Σ_{d=0}^{d0} ℓ_d held exactly.
    pub fn new(config: TLFCConfig) -> (r: Self)
        requires
            config.wf(),
        ensures
            r.wf(),
            r.config == config,
    {
        let total = crate::encoding::top_layers_total(config.w, config.v, config.d0);
        proof {
            crate::encoding::lemma_cum_layers_monotone(
                config.w as nat,
                config.v as nat,
                0,
                config.d0 as int,
            );
            assert(cum_layers(config.w as nat, config.v as nat, -1) == 0);
            assert(crate::layer::layer_count(config.w as nat, 0, config.v as nat) > 0) by {
                crate::layer::lemma_layer_nonempty(config.w as nat, 0, config.v as nat);
            }
        }
        TLFC { config, hasher: crate::hash::SHA256::new(), total_layer_size: total }
    }

    /// The vertex and its c checksum digits.
    pub fn encode_with_checksum(&self, message: &[u8], randomness: &[u8]) -> (r: (
        Vertex,
        Vec<usize>,
    ))
        requires
            self.wf(),
        ensures
            r.0@ == self.spec_encode(message@, randomness@),
            is_vertex(self.config.w as int, self.config.v as int, r.0@),
            layer_of(self.config.w as int, r.0@) <= self.config.d0,
            r.1@ == full_checksum(r.0@, self.config.w as int, self.config.c as int),
    {
        let vertex = self.encode(message, randomness);
        let checksums = self.calculate_full_checksum(vertex.components.as_slice());
        (vertex, checksums)
    }

    /// C_i = (Σ_{j ≡ i mod c} 2^i · (w - a_j) mod w) + 1, for i < c.
    pub fn calculate_full_checksum(&self, components: &[usize]) -> (r: Vec<usize>)
        requires
            self.config.wf(),
            in_alphabet(self.config.w as int, components@),
            components@.len() <= self.config.v,
        ensures
            r@ == full_checksum(components@, self.config.w as int, self.config.c as int),
            in_alphabet(self.config.w as int, r@),
    {
        let w = self.config.w;
        let c = self.config.c;
        let n = components.len();
        let ghost comp = components@;
        let ghost bound = power(2, c as nat) * (self.config.v * w);
        let mut pows: Vec<usize> = Vec::new();
        let mut sums: Vec<usize> = Vec::new();
        let mut p: usize = 1;
        let mut i: usize = 0;
        proof {
            crate::hypercube::lemma_power_monotone(2, 0, c as nat);
            assert(self.config.v * w >= 1) by (nonlinear_arith)
                requires
                    self.config.v >= 1,
                    w >= 2,
            ;
            assert(power(2, c as nat) <= bound) by (nonlinear_arith)
                requires
                    self.config.v * w >= 1,
                    power(2, c as nat) >= 1,
                    bound == power(2, c as nat) * (self.config.v * w),
            ;
        }
        while i < c
            invariant
                i <= c,
                pows@.len() == i,
                sums@.len() == i,
                i < c ==> p == power(2, i as nat),
                i < c ==> p <= power(2, c as nat),
                power(2, c as nat) <= bound,
                bound <= usize::MAX,
                forall|k: int| 0 <= k < i ==> #[trigger] pows@[k] == power(2, k as nat),
                forall|k: int| 0 <= k < i ==> #[trigger] sums@[k] == 0,
            decreases c - i,
        {
            pows.push(p);
            sums.push(0);
            if i + 1 < c {
                proof {
                    crate::hypercube::lemma_power_monotone(2, (i + 1) as nat, c as nat);
                }
                p = p * 2;
            }
            i = i + 1;
        }
        let mut j: usize = 0;
        while j < n
            invariant
                j <= n,
                n == comp.len(),
                comp == components@,
                n <= self.config.v,
                1 <= c,
                w == self.config.w,
                c == self.config.c,
                in_alphabet(w as int, comp),
                bound == power(2, c as nat) * (self.config.v * w),
                bound <= usize::MAX,
                pows@.len() == c,
                sums@.len() == c,
                forall|k: int| 0 <= k < c ==> #[trigger] pows@[k] == power(2, k as nat),
                forall|k: int|
                    0 <= k < c ==> #[trigger] sums@[k] == pows@[k] * class_sum(
                        comp,
                        w as int,
                        c as int,
                        k,
                        j as int,
                    ),
            decreases n - j,
        {
            let k = j % c;
            let ghost cs = class_sum(comp, w as int, c as int, k as int, j as int);
            proof {
                lemma_class_sum_bound(comp, w as int, c as int, k as int, j as int);
                lemma_class_sum_bound(comp, w as int, c as int, k as int, j + 1);
                crate::hypercube::lemma_power_monotone(2, k as nat, c as nat);
                assert(1 <= comp[j as int] <= w);
                assert(class_sum(comp, w as int, c as int, k as int, j + 1) == cs + (w - comp[j as int]));
                assert(pows@[k as int] * (cs + (w - comp[j as int])) <= bound) by (nonlinear_arith)
                    requires
                        0 <= pows@[k as int] <= power(2, c as nat),
                        0 <= cs + (w - comp[j as int]) <= (j + 1) * w,
                        j + 1 <= self.config.v,
                        bound == power(2, c as nat) * (self.config.v * w),
                ;
                assert(pows@[k as int] * (cs + (w - comp[j as int])) == pows@[k as int] * cs
                    + pows@[k as int] * (w - comp[j as int])) by (nonlinear_arith);
                assert(0 <= pows@[k as int] * (w - comp[j as int])) by (nonlinear_arith)
                    requires
                        pows@[k as int] >= 0,
                        w - comp[j as int] >= 0,
                ;
                assert(0 <= pows@[k as int] * cs) by (nonlinear_arith)
                    requires
                        pows@[k as int] >= 0,
                        cs >= 0,
                ;
            }
            let add = pows[k] * (w - components[j]);
            let cur = sums[k];
            sums.set(k, cur + add);
            proof {
                assert forall|q: int| 0 <= q < c implies #[trigger] sums@[q] == pows@[q] * class_sum(
                    comp,
                    w as int,
                    c as int,
                    q,
                    j + 1,
                ) by {
                    if q != k {
                        assert(class_sum(comp, w as int, c as int, q, j + 1) == class_sum(
                            comp,
                            w as int,
                            c as int,
                            q,
                            j as int,
                        ));
                    }
                }
            }
            j = j + 1;
        }
        let mut out: Vec<usize> = Vec::new();
        let mut q: usize = 0;
        while q < c
            invariant
                q <= c,
                w >= 2,
                c == self.config.c,
                w == self.config.w,
                n == comp.len(),
                sums@.len() == c,
                pows@.len() == c,
                forall|k: int| 0 <= k < c ==> #[trigger] pows@[k] == power(2, k as nat),
                forall|k: int|
                    0 <= k < c ==> #[trigger] sums@[k] == pows@[k] * class_sum(
                        comp,
                        w as int,
                        c as int,
                        k,
                        n as int,
                    ),
                out@.len() == q,
                forall|k: int|
                    0 <= k < q ==> #[trigger] out@[k] == full_checksum(comp, w as int, c as int)[k],
                forall|k: int| 0 <= k < q ==> 1 <= #[trigger] out@[k] <= w,
            decreases c - q,
        {
            out.push(sums[q] % w + 1);
            q = q + 1;
        }
        assert(out@ =~= full_checksum(comp, w as int, c as int));
        out
    }

    /// The encoding of (m, r): Ψ over layers 0..=d0 at z mod |L|.
    pub open spec fn spec_encode(&self, m: Seq<u8>, r: Seq<u8>) -> Seq<usize> {
        let index = message_value(m, r) as int % big_value(self.total_layer_size) as int;
        let d = choose|d: int|
            0 <= d <= self.config.d0 && cum_layers(self.config.w as nat, self.config.v as nat, d - 1)
                <= index < #[trigger] cum_layers(self.config.w as nat, self.config.v as nat, d);
        top_vertex(self.config.w as nat, self.config.v as nat, d, index)
    }

    /// Ψ over the top layers: the vertex at position value mod |L|.
    pub fn map_to_top_layers(&self, value: usize) -> (r: Vertex)
        requires
            self.wf(),
        ensures
            exists|d: int|
                0 <= d <= self.config.d0 && cum_layers(
                    self.config.w as nat,
                    self.config.v as nat,
                    d - 1,
                ) <= (value as int % big_value(self.total_layer_size) as int) < cum_layers(
                    self.config.w as nat,
                    self.config.v as nat,
                    d,
                ) && r@ == #[trigger] top_vertex(
                    self.config.w as nat,
                    self.config.v as nat,
                    d,
                    value as int % big_value(self.total_layer_size) as int,
                ),
            is_vertex(self.config.w as int, self.config.v as int, r@),
            layer_of(self.config.w as int, r@) <= self.config.d0,
    {
        proof {
            assert(self.config.d0 < usize::MAX) by (nonlinear_arith)
                requires
                    self.config.d0 <= self.config.v * (self.config.w - 1),
                    self.config.v * self.config.w <= usize::MAX,
                    self.config.v >= 1,
            ;
        }
        let index = big_rem(&big_from_usize(value), &self.total_layer_size);
        map_to_top(self.config.w, self.config.v, self.config.d0, &index)
    }

    /// (a_1, ..., a_v, C_1, ..., C_c).
    pub fn message_to_wots_digest(&self, message: &[u8], randomness: &[u8]) -> (r: Vec<usize>)
        requires
            self.wf(),
        ensures
            r@ == self.spec_encode(message@, randomness@) + full_checksum(
                self.spec_encode(message@, randomness@),
                self.config.w as int,
                self.config.c as int,
            ),
            r@.len() == self.config.v + self.config.c,
            in_alphabet(self.config.w as int, r@),
    {
        let (vertex, checksums) = self.encode_with_checksum(message, randomness);
        let ghost vx = vertex@;
        let mut digest = vertex.components;
        crate::hash::append_usizes(&mut digest, checksums.as_slice());
        assert(in_alphabet(self.config.w as int, digest@)) by {
            assert forall|i: int| 0 <= i < digest@.len() implies 1 <= #[trigger] digest@[i]
                <= self.config.w by {
                if i < self.config.v {
                    assert(digest@[i] == vx[i]);
                } else {
                    assert(digest@[i] == checksums@[i - self.config.v]);
                }
            }
        }
        digest
    }

    /// z = le(SHA-256(m ‖ r)), the whole digest, then Ψ over the top
    /// layers at z mod |L|.
    pub fn encode(&self, message: &[u8], randomness: &[u8]) -> (r: Vertex)
        requires
            self.wf(),
        ensures
            r@ == self.spec_encode(message@, randomness@),
            is_vertex(self.config.w as int, self.config.v as int, r@),
            layer_of(self.config.w as int, r@) <= self.config.d0,
    {
        let z = message_to_value(message, randomness);
        proof {
            assert(self.config.d0 < usize::MAX) by (nonlinear_arith)
                requires
                    self.config.d0 <= self.config.v * (self.config.w - 1),
                    self.config.v * self.config.w <= usize::MAX,
                    self.config.v >= 1,
            ;
        }
        let index = big_rem(&z, &self.total_layer_size);
        let r = map_to_top(self.config.w, self.config.v, self.config.d0, &index);
        proof {
            let index = message_value(message@, randomness@) as int % big_value(
                self.total_layer_size,
            ) as int;
            let d = choose|d: int|
                0 <= d <= self.config.d0 && cum_layers(
                    self.config.w as nat,
                    self.config.v as nat,
                    d - 1,
                ) <= index < #[trigger] cum_layers(self.config.w as nat, self.config.v as nat, d);
            let d2 = choose|d: int|
                0 <= d <= self.config.d0 && cum_layers(
                    self.config.w as nat,
                    self.config.v as nat,
                    d - 1,
                ) <= index < cum_layers(self.config.w as nat, self.config.v as nat, d) && r@
                    == #[trigger] top_vertex(self.config.w as nat, self.config.v as nat, d, index);
            if d < d2 {
                crate::encoding::lemma_cum_layers_monotone(
                    self.config.w as nat,
                    self.config.v as nat,
                    d,
                    d2 - 1,
                );
            } else if d2 < d {
                crate::encoding::lemma_cum_layers_monotone(
                    self.config.w as nat,
                    self.config.v as nat,
                    d2,
                    d - 1,
                );
            }
        }
        r
    }
}

impl EncodingScheme for TLFC {
    open spec fn spec_encode(&self, m: Seq<u8>, r: Seq<u8>) -> Seq<usize> {
        TLFC::spec_encode(self, m, r)
    }

    open spec fn spec_alphabet_size(&self) -> nat {
        self.config.w as nat
    }

    open spec fn spec_dimension(&self) -> nat {
        self.config.v as nat
    }

    open spec fn encoder_wf(&self) -> bool {
        self.wf()
    }

    fn encode(&self, message: &[u8], randomness: &[u8]) -> (r: Vertex) {
        TLFC::encode(self, message, randomness)
    }

    fn alphabet_size(&self) -> (r: usize) {
        self.config.w
    }

    fn dimension(&self) -> (r: usize) {
        self.config.v
    }
}

} // verus!
