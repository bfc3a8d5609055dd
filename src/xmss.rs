//! XMSS: a Merkle tree of Winternitz key pairs, with a monotonically
//! advancing one-time-key index.
use crate::encoding::{message_value, zero_randomness, ParameterError};
use crate::hash::{
    append_bytes, be_bytes, copy_bytes, hash_chain, sha256_of, sha_chain, u32_be_bytes,
    HashFunction, SHA256,
};
use crate::hypercube::{in_alphabet, power};
use crate::layer::layer_count;
use crate::mapping::unrank_of;
use crate::tree::{
    auth_path_of, lemma_auth_path_reaches_root, node_seqs, path_root, tree_node, AuthPath,
    MerkleTree,
};
use crate::tsl::{TSLConfig, TSL};
use crate::wots::{
    chain_seqs, digits_ok, lemma_wots_round_trip, public_chains, signature_chains, WotsKeypair,
    WotsParams, WotsSecretKey, WotsSignature,
};
use vstd::prelude::*;

verus! {

/// ⌊log2 w⌋.
pub open spec fn log2_floor(w: nat) -> nat
    decreases w,
{
    if w < 2 {
        0
    } else {
        1 + log2_floor(w / 2)
    }
}

pub proof fn lemma_log2_floor(w: nat)
    requires
        w >= 1,
    ensures
        1 <= power(2, log2_floor(w)) <= w,
        log2_floor(w) < 64 || w >= power(2, 64),
    decreases w,
{
    if w >= 2 {
        lemma_log2_floor(w / 2);
        assert(power(2, log2_floor(w)) == 2 * power(2, log2_floor(w / 2)));
    }
}

/// Bit p of a byte string, least significant bit of byte 0 first; bits
/// past the end are 0.
pub open spec fn bit_at(bytes: Seq<u8>, p: nat) -> nat {
    if p / 8 < bytes.len() {
        ((bytes[(p / 8) as int] as nat) / power(2, p % 8) as nat) % 2
    } else {
        0
    }
}

/// The n-bit little-endian number formed by bits start..start+n.
pub open spec fn bits_value(bytes: Seq<u8>, start: nat, n: nat) -> nat
    decreases n,
{
    if n == 0 {
        0
    } else {
        bits_value(bytes, start, (n - 1) as nat) + bit_at(bytes, (start + n - 1) as nat) * power(
            2,
            (n - 1) as nat,
        ) as nat
    }
}

/// The first `out_len` digits of `bytes` in base 2^lw, least significant
/// first.
pub open spec fn base_w_digits(bytes: Seq<u8>, lw: nat, out_len: nat) -> Seq<usize> {
    Seq::new(out_len, |j: int| bits_value(bytes, (j * lw) as nat, lw) as usize)
}

proof fn lemma_bits_value_bound(bytes: Seq<u8>, start: nat, n: nat)
    ensures
        bits_value(bytes, start, n) < power(2, n),
    decreases n,
{
    if n > 0 {
        lemma_bits_value_bound(bytes, start, (n - 1) as nat);
        crate::hypercube::lemma_power_monotone(2, 0, (n - 1) as nat);
        assert(power(2, n) == 2 * power(2, (n - 1) as nat));
        let bit = bit_at(bytes, (start + n - 1) as nat);
        let p = power(2, (n - 1) as nat);
        assert(bit <= 1);
        assert(bit * p <= p) by (nonlinear_arith)
            requires
                bit <= 1,
                p >= 1,
        ;
        assert(bits_value(bytes, start, n) == bits_value(bytes, start, (n - 1) as nat) + bit * p as nat);
    } else {
        assert(power(2, 0) == 1);
    }
}

/// XMSS parameters. With `use_hypercube` the Winternitz digits of a digest
/// are the TSL encoding in layer `top_layer` of [w]^len, minus one;
/// otherwise they are its base-2^⌊log2 w⌋ digits.
#[derive(Debug, Clone, Copy)]
pub struct XMSSParams {
    pub tree_height: usize,
    pub winternitz_parameter: usize,
    pub len: usize,
    pub use_hypercube: bool,
    pub top_layer: usize,
}

impl XMSSParams {
    pub open spec fn wf(&self) -> bool {
        &&& 1 <= self.tree_height < 32
        &&& self.winternitz_parameter > 1
        &&& self.len > 0
        &&& self.len * 64 <= usize::MAX
        &&& self.len <= u32::MAX
        &&& self.len * self.winternitz_parameter <= usize::MAX
        &&& self.use_hypercube ==> (TSLConfig {
            w: self.winternitz_parameter,
            v: self.len,
            d0: self.top_layer,
        }).wf()
    }

    /// The Winternitz digits of a message digest.
    pub open spec fn digits(&self, digest: Seq<u8>) -> Seq<usize> {
        let w = self.winternitz_parameter as nat;
        let n = self.len as nat;
        if self.use_hypercube {
            let l = layer_count(w, self.top_layer as int, n);
            let x = unrank_of(
                w,
                self.top_layer as int,
                n,
                message_value(digest, zero_randomness()) as int % l as int,
            );
            Seq::new(n, |i: int| (x[i] - 1) as usize)
        } else {
            base_w_digits(digest, log2_floor(w), n)
        }
    }

    /// Plain Winternitz parameters: tree height, w and number of chains.
    pub fn new(tree_height: usize, winternitz_parameter: usize, len: usize) -> (r: Self)
        requires
            1 <= tree_height < 32,
            winternitz_parameter > 1,
            len > 0,
            len * 64 <= usize::MAX,
            len <= u32::MAX,
            len * winternitz_parameter <= usize::MAX,
        ensures
            r.wf(),
            r.tree_height == tree_height,
            r.winternitz_parameter == winternitz_parameter,
            r.len == len,
            !r.use_hypercube,
    {
        XMSSParams { tree_height, winternitz_parameter, len, use_hypercube: false, top_layer: 0 }
    }

    /// With `use_hypercube`, the TSL parameters of the security level
    /// (128 or 160 bits); otherwise w = 67 with 67 chains.
    pub fn new_with_hypercube(tree_height: usize, security_bits: usize, use_hypercube: bool) -> (r:
        Result<Self, ParameterError>)
        requires
            1 <= tree_height < 32,
            security_bits == 128 || security_bits == 160 || (!use_hypercube && security_bits == 256),
        ensures
            r matches Ok(p) ==> p.wf() && p.tree_height == tree_height && p.use_hypercube
                == use_hypercube,
            !use_hypercube ==> (r matches Ok(p) && p.winternitz_parameter == 67 && p.len == 67),
            use_hypercube ==> match r {
                Ok(p) => {
                    &&& security_bits == 128 ==> p.winternitz_parameter == 86 && p.len == 25
                    &&& security_bits == 160 ==> p.winternitz_parameter == 56 && p.len == 35
                    &&& crate::tsl::meets_layer_bound(
                        layer_count(p.winternitz_parameter as nat, p.top_layer as int, p.len as nat),
                        security_bits as nat,
                    )
                },
                Err(e) => e == ParameterError::NoSecureParameters,
            },
    {
        if use_hypercube {
            match TSLConfig::new(security_bits) {
                Ok(config) => Ok(
                    XMSSParams {
                        tree_height,
                        winternitz_parameter: config.w,
                        len: config.v,
                        use_hypercube: true,
                        top_layer: config.d0,
                    },
                ),
                Err(e) => Err(e),
            }
        } else {
            Ok(
                XMSSParams {
                    tree_height,
                    winternitz_parameter: 67,
                    len: 67,
                    use_hypercube: false,
                    top_layer: 0,
                },
            )
        }
    }

    pub fn tree_height(&self) -> (r: usize)
        ensures
            r == self.tree_height,
    {
        self.tree_height
    }

    pub fn winternitz_parameter(&self) -> (r: usize)
        ensures
            r == self.winternitz_parameter,
    {
        self.winternitz_parameter
    }

    pub fn len(&self) -> (r: usize)
        ensures
            r == self.len,
    {
        self.len
    }

    pub fn total_tree_height(&self) -> (r: usize)
        ensures
            r == self.tree_height,
    {
        self.tree_height
    }

    pub fn use_hypercube(&self) -> (r: bool)
        ensures
            r == self.use_hypercube,
    {
        self.use_hypercube
    }

    /// The number of one-time keys, 2^h.
    pub fn num_leaves(&self) -> (r: usize)
        requires
            self.wf(),
        ensures
            r == power(2, self.tree_height as nat),
    {
        let mut n: usize = 1;
        let mut i: usize = 0;
        while i < self.tree_height
            invariant
                i <= self.tree_height,
                self.tree_height < 32,
                n == power(2, i as nat),
            decreases self.tree_height - i,
        {
            proof {
                crate::hypercube::lemma_power_monotone(2, (i + 1) as nat, 31);
                crate::hypercube::lemma_power2_values();
                assert(power(2, (i + 1) as nat) == 2 * power(2, i as nat));
            }
            n = n * 2;
            i = i + 1;
        }
        n
    }
}

/// ⌊log2 w⌋, computed by halving.
fn log2_of(w: usize) -> (r: usize)
    ensures
        r == log2_floor(w as nat),
{
    let mut x = w;
    let mut lw: usize = 0;
    proof {
        if w >= 1 {
            lemma_log2_floor(w as nat);
            crate::hypercube::lemma_power2_values();
        }
    }
    while x >= 2
        invariant
            lw + log2_floor(x as nat) == log2_floor(w as nat),
            log2_floor(w as nat) < 64,
        decreases x,
    {
        proof {
            assert(log2_floor(x as nat) >= 1);
        }
        x = x / 2;
        lw = lw + 1;
    }
    lw
}

/// Bit p of `bytes`.
fn bit_of(bytes: &[u8], p: usize) -> (r: usize)
    ensures
        r == bit_at(bytes@, p as nat),
{
    if p / 8 >= bytes.len() {
        return 0;
    }
    let mut q: usize = bytes[p / 8] as usize;
    let s = p % 8;
    let mut t: usize = 0;
    assert(power(2, 0) == 1);
    while t < s
        invariant
            t <= s,
            s < 8,
            q == (bytes@[(p / 8) as int] as nat) / power(2, t as nat) as nat,
        decreases s - t,
    {
        proof {
            crate::hypercube::lemma_power_monotone(2, 0, t as nat);
            assert(power(2, (t + 1) as nat) == power(2, t as nat) * 2);
            vstd::arithmetic::div_mod::lemma_div_denominator(
                bytes@[(p / 8) as int] as int,
                power(2, t as nat),
                2,
            );
        }
        q = q / 2;
        t = t + 1;
    }
    q % 2
}

/// The lw-bit number formed by the bits of `bytes` from `start`.
fn bits_at(bytes: &[u8], start: usize, lw: usize, w: usize) -> (r: usize)
    requires
        lw < 64,
        start + lw <= usize::MAX,
        1 <= power(2, lw as nat) <= w,
    ensures
        r == bits_value(bytes@, start as nat, lw as nat),
        r < w,
{
    let mut acc: usize = 0;
    let mut pw: usize = 1;
    let mut b: usize = 0;
    assert(power(2, 0) == 1);
    while b < lw
        invariant
            b <= lw,
            lw < 64,
            start + lw <= usize::MAX,
            power(2, lw as nat) <= w,
            pw == power(2, b as nat),
            pw <= power(2, lw as nat),
            acc == bits_value(bytes@, start as nat, b as nat),
            acc < pw,
        decreases lw - b,
    {
        proof {
            crate::hypercube::lemma_power_monotone(2, (b + 1) as nat, lw as nat);
            assert(power(2, (b + 1) as nat) == 2 * power(2, b as nat));
        }
        let bit = bit_of(bytes, start + b);
        assert(bit <= 1);
        assert(acc + bit * pw < 2 * pw) by (nonlinear_arith)
            requires
                bit <= 1,
                acc < pw,
        ;
        acc = acc + bit * pw;
        pw = pw * 2;
        b = b + 1;
    }
    acc
}

/// The first `out_len` base-2^⌊log2 w⌋ digits of `bytes`, least
/// significant bits first; bits past the end count as 0.
pub fn base_w_from_bytes(bytes: &[u8], w: usize, out_len: usize) -> (r: Vec<usize>)
    requires
        w > 1,
        out_len * 64 <= usize::MAX,
    ensures
        r@ == base_w_digits(bytes@, log2_floor(w as nat), out_len as nat),
        digits_ok(w as nat, out_len as nat, r@),
{
    let lw = log2_of(w);
    proof {
        lemma_log2_floor(w as nat);
        if lw >= 64 {
            crate::hypercube::lemma_power2_values();
        }
    }
    let mut out: Vec<usize> = Vec::new();
    let mut j: usize = 0;
    while j < out_len
        invariant
            j <= out_len,
            lw == log2_floor(w as nat),
            lw < 64,
            1 <= power(2, lw as nat) <= w,
            out_len * 64 <= usize::MAX,
            out@.len() == j,
            forall|k: int|
                0 <= k < j ==> #[trigger] out@[k] == bits_value(bytes@, (k * lw) as nat, lw as nat),
            forall|k: int| 0 <= k < j ==> #[trigger] out@[k] < w,
        decreases out_len - j,
    {
        assert(j * lw <= out_len * 64) by (nonlinear_arith)
            requires
                j < out_len,
                lw < 64,
        ;
        let start = j * lw;
        let acc = bits_at(bytes, start, lw, w);
        out.push(acc);
        j = j + 1;
    }
    assert(out@ =~= base_w_digits(bytes@, log2_floor(w as nat), out_len as nat));
    out
}

/// The concatenation of a list of byte strings.
pub open spec fn concat_all(s: Seq<Seq<u8>>) -> Seq<u8>
    decreases s.len(),
{
    if s.len() == 0 {
        Seq::empty()
    } else {
        concat_all(s.drop_last()) + s.last()
    }
}

/// The WOTS secret chain i of the key at `address`: H(seed ‖ address ‖ be32(i)).
pub open spec fn wots_secret_chains(seed: Seq<u8>, address: Seq<u8>, n: nat) -> Seq<Seq<u8>> {
    Seq::new(n, |i: int| sha256_of(seed + address + be_bytes(i as nat, 4)))
}

/// Leaf k: the digest of the concatenated public chains of WOTS key k.
pub open spec fn leaf_digest(seed: Seq<u8>, k: nat, w: nat, n: nat) -> Seq<u8> {
    sha256_of(concat_all(public_chains(w, wots_secret_chains(seed, be_bytes(k, 4), n))))
}

/// The 2^h leaves of the tree of a key seed.
pub open spec fn xmss_leaves(seed: Seq<u8>, params: XMSSParams) -> Seq<Seq<u8>> {
    Seq::new(
        power(2, params.tree_height as nat) as nat,
        |k: int| leaf_digest(seed, k as nat, params.winternitz_parameter as nat, params.len as nat),
    )
}

/// The root of the tree of (key seed, public seed).
pub open spec fn xmss_root(sk_seed: Seq<u8>, public_seed: Seq<u8>, params: XMSSParams) -> Seq<u8> {
    tree_node(public_seed, xmss_leaves(sk_seed, params), params.tree_height as nat, 0)
}

/// The per-signature randomness r = H(prf-seed ‖ be32(k) ‖ m).
pub open spec fn signing_randomness(sk_prf: Seq<u8>, k: nat, m: Seq<u8>) -> Seq<u8> {
    sha256_of(sk_prf + be_bytes(k, 4) + m)
}

/// The signed digest D = H(r ‖ root ‖ be32(k) ‖ m).
pub open spec fn message_digest(r: Seq<u8>, root: Seq<u8>, k: nat, m: Seq<u8>) -> Seq<u8> {
    sha256_of(r + root + be_bytes(k, 4) + m)
}

/// `a` followed by `b`, into a fresh vector.
fn concat_bytes(a: &[u8], b: &[u8]) -> (r: Vec<u8>)
    ensures
        r@ == a@ + b@,
{
    let mut r = copy_bytes(a);
    append_bytes(&mut r, b);
    r
}

/// H(prefix ‖ be32(k) ‖ m).
fn hash_with_index(prefix: &[u8], k: usize, m: &[u8]) -> (r: Vec<u8>)
    requires
        k <= u32::MAX,
    ensures
        r@ == sha256_of(prefix@ + be_bytes(k as nat, 4) + m@),
        r@.len() == 32,
{
    let mut data = copy_bytes(prefix);
    let kb = u32_be_bytes(k as u32);
    append_bytes(&mut data, kb.as_slice());
    append_bytes(&mut data, m);
    SHA256::new().hash(data.as_slice())
}

/// The concatenation of `chains`.
fn concat_chains(chains: &[Vec<u8>]) -> (r: Vec<u8>)
    ensures
        r@ == concat_all(chain_seqs(chains@)),
{
    let ghost cs = chain_seqs(chains@);
    let mut data: Vec<u8> = Vec::new();
    let mut i: usize = 0;
    while i < chains.len()
        invariant
            i <= chains@.len(),
            cs == chain_seqs(chains@),
            data@ == concat_all(cs.subrange(0, i as int)),
        decreases chains@.len() - i,
    {
        assert(cs.subrange(0, i + 1).drop_last() =~= cs.subrange(0, i as int));
        append_bytes(&mut data, chains[i].as_slice());
        i = i + 1;
    }
    assert(cs.subrange(0, chains@.len() as int) =~= cs);
    data
}

/// Winternitz parameters of an XMSS instance.
#[derive(Debug, Clone, Copy)]
pub struct WOTSPlusParams {
    pub inner_params: WotsParams,
    pub use_hypercube: bool,
    pub top_layer: usize,
}

impl WOTSPlusParams {
    pub fn from_xmss_params(xmss_params: &XMSSParams) -> (r: Self)
        requires
            xmss_params.wf(),
        ensures
            r.inner_params.w == xmss_params.winternitz_parameter,
            r.inner_params.chains == xmss_params.len,
            r.inner_params.wf(),
            r.use_hypercube == xmss_params.use_hypercube,
            r.top_layer == xmss_params.top_layer,
    {
        WOTSPlusParams {
            inner_params: WotsParams::new(xmss_params.winternitz_parameter, xmss_params.len),
            use_hypercube: xmss_params.use_hypercube,
            top_layer: xmss_params.top_layer,
        }
    }

    pub fn inner_params(&self) -> (r: &WotsParams)
        ensures
            *r == self.inner_params,
    {
        &self.inner_params
    }

    /// The WOTS key pair at `address`: sk_i = H(seed ‖ address ‖ be32(i)).
    pub fn generate_keypair(&self, seed: &[u8], address: &[u8]) -> (r: WotsKeypair)
        requires
            self.inner_params.wf(),
            self.inner_params.chains <= u32::MAX,
        ensures
            r.wf(),
            r.params == self.inner_params,
            chain_seqs(r.secret_key.chains@) == wots_secret_chains(
                seed@,
                address@,
                self.inner_params.chains as nat,
            ),
    {
        let n = self.inner_params.chains;
        let prefix = concat_bytes(seed, address);
        let mut sk: Vec<Vec<u8>> = Vec::new();
        let mut i: usize = 0;
        while i < n
            invariant
                i <= n,
                n <= u32::MAX,
                prefix@ == seed@ + address@,
                sk@.len() == i,
                forall|j: int|
                    0 <= j < i ==> (#[trigger] sk@[j])@ == sha256_of(
                        seed@ + address@ + be_bytes(j as nat, 4),
                    ),
            decreases n - i,
        {
            sk.push(hash_with_index(prefix.as_slice(), i, &[]));
            proof {
                assert(prefix@ + be_bytes(i as nat, 4) + Seq::<u8>::empty() =~= seed@ + address@
                    + be_bytes(i as nat, 4));
            }
            i = i + 1;
        }
        assert(chain_seqs(sk@) =~= wots_secret_chains(seed@, address@, n as nat));
        WotsKeypair::from_secret_key(WotsSecretKey { chains: sk }, &self.inner_params)
    }
}

/// A Winternitz key pair of an XMSS instance, signing message digests by
/// the digit rule of the instance's parameters.
pub struct WOTSPlusKeypair {
    pub keypair: WotsKeypair,
    pub params: XMSSParams,
}

impl WOTSPlusKeypair {
    pub open spec fn wf(&self) -> bool {
        &&& self.params.wf()
        &&& self.keypair.params.w == self.params.winternitz_parameter
        &&& self.keypair.params.chains == self.params.len
        &&& self.keypair.secret_key.chains@.len() == self.params.len
    }

    pub fn new(keypair: WotsKeypair, params: XMSSParams) -> (r: Self)
        ensures
            r.keypair == keypair,
            r.params == params,
    {
        WOTSPlusKeypair { keypair, params }
    }

    /// Signs the digits of `message_digest` under the instance's rule.
    pub fn sign(&self, message_digest: &[u8]) -> (r: WotsSignature)
        requires
            self.wf(),
        ensures
            chain_seqs(r.chains@) == signature_chains(
                chain_seqs(self.keypair.secret_key.chains@),
                self.params.digits(message_digest@),
            ),
    {
        let digits = message_digits(&self.params, message_digest);
        self.keypair.sign_raw(digits.as_slice())
    }

    /// H(pk_0 ‖ ... ‖ pk_{n-1}), the leaf of this key.
    pub fn public_key_hash(&self) -> (r: Vec<u8>)
        ensures
            r@ == sha256_of(concat_all(chain_seqs(self.keypair.public_key.chains@))),
    {
        public_key_hash(&self.keypair)
    }
}

/// The digest of a WOTS public key: H(pk_0 ‖ ... ‖ pk_{n-1}).
pub fn public_key_hash(keypair: &WotsKeypair) -> (r: Vec<u8>)
    ensures
        r@ == sha256_of(concat_all(chain_seqs(keypair.public_key.chains@))),
{
    let data = concat_chains(keypair.public_key.chains.as_slice());
    SHA256::new().hash(data.as_slice())
}

/// Leaf k of the tree.
fn compute_leaf(params: &XMSSParams, sk_seed: &[u8], k: usize) -> (r: Vec<u8>)
    requires
        params.wf(),
        k <= u32::MAX,
    ensures
        r@ == leaf_digest(sk_seed@, k as nat, params.winternitz_parameter as nat, params.len as nat),
{
    let wp = WOTSPlusParams::from_xmss_params(params);
    let address = u32_be_bytes(k as u32);
    let kp = wp.generate_keypair(sk_seed, address.as_slice());
    public_key_hash(&kp)
}

/// All 2^h leaves of the tree.
fn compute_leaves(params: &XMSSParams, sk_seed: &[u8]) -> (r: Vec<Vec<u8>>)
    requires
        params.wf(),
    ensures
        node_seqs(r@) == xmss_leaves(sk_seed@, *params),
        r@.len() == power(2, params.tree_height as nat),
{
    let num = params.num_leaves();
    proof {
        crate::hypercube::lemma_power_monotone(2, params.tree_height as nat, 32);
        crate::hypercube::lemma_power2_values();
    }
    let mut leaves: Vec<Vec<u8>> = Vec::new();
    let mut k: usize = 0;
    while k < num
        invariant
            k <= num,
            params.wf(),
            num == power(2, params.tree_height as nat),
            num <= 0x1_0000_0000,
            leaves@.len() == k,
            forall|j: int|
                0 <= j < k ==> (#[trigger] leaves@[j])@ == leaf_digest(
                    sk_seed@,
                    j as nat,
                    params.winternitz_parameter as nat,
                    params.len as nat,
                ),
        decreases num - k,
    {
        leaves.push(compute_leaf(params, sk_seed, k));
        k = k + 1;
    }
    assert(node_seqs(leaves@) =~= xmss_leaves(sk_seed@, *params));
    leaves
}

/// Errors of the XMSS signer and of the signature format.
#[derive(Debug, Clone, Copy, PartialEq, Eq)]
pub enum XMSSError {
    /// Every one-time key has been used.
    KeyExhausted,
    /// A serialized signature or state has the wrong length.
    InvalidLength { expected: usize, actual: usize },
    /// A state to sign from is behind the durably recorded index.
    StateRegression { recorded: usize, attempted: usize },
}

/// An XMSS public key: the root and the public seed.
#[derive(Debug, Clone)]
pub struct XMSSPublicKey {
    pub root: Vec<u8>,
    pub public_seed: Vec<u8>,
}

/// Whether `sig` is a valid signature of `m` under (root, public seed).
pub open spec fn xmss_accepts(
    params: XMSSParams,
    root: Seq<u8>,
    public_seed: Seq<u8>,
    m: Seq<u8>,
    sig: XMSSSignature,
) -> bool {
    let k = sig.leaf_index as nat;
    let d = message_digest(sig.randomness@, root, k, m);
    let digits = params.digits(d);
    let chains = chain_seqs(sig.wots_signature.chains@);
    let w = params.winternitz_parameter as nat;
    let pk = Seq::new(
        params.len as nat,
        |i: int| sha_chain(chains[i], (w - 1 - digits[i]) as nat),
    );
    &&& sig.leaf_index <= u32::MAX
    &&& chains.len() == params.len
    &&& sig.auth_path.nodes@.len() == params.tree_height
    &&& path_root(
        public_seed,
        sha256_of(concat_all(pk)),
        k,
        node_seqs(sig.auth_path.nodes@),
        0,
        params.tree_height as nat,
    ) == root
}

impl XMSSPublicKey {
    pub fn new(root: Vec<u8>, public_seed: Vec<u8>) -> (r: Self)
        requires
            root@.len() == 32,
            public_seed@.len() == 32,
        ensures
            r.root@ == root@,
            r.public_seed@ == public_seed@,
    {
        XMSSPublicKey { root, public_seed }
    }

    pub fn root(&self) -> (r: &[u8])
        ensures
            r@ == self.root@,
    {
        self.root.as_slice()
    }

    pub fn public_seed(&self) -> (r: &[u8])
        ensures
            r@ == self.public_seed@,
    {
        self.public_seed.as_slice()
    }

    /// Recomputes the digest, completes the Winternitz chains, hashes them
    /// to a leaf and climbs the authentication path; accepts exactly when
    /// the root is reached.
    pub fn verify(&self, message: &[u8], signature: &XMSSSignature, params: &XMSSParams) -> (r: bool)
        requires
            params.wf(),
        ensures
            r == xmss_accepts(*params, self.root@, self.public_seed@, message@, *signature),
    {
        let n = params.len;
        let w = params.winternitz_parameter;
        if signature.leaf_index > 0xFFFF_FFFF || signature.wots_signature.chains.len() != n
            || signature.auth_path.nodes.len() != params.tree_height {
            return false;
        }
        let k = signature.leaf_index;
        let prefix = concat_bytes(signature.randomness.as_slice(), self.root.as_slice());
        let digest = hash_with_index(prefix.as_slice(), k, message);
        let digits = message_digits(params, digest.as_slice());
        let ghost chains = chain_seqs(signature.wots_signature.chains@);
        let ghost pk_spec = Seq::new(
            n as nat,
            |i: int| sha_chain(chains[i], (w - 1 - digits@[i]) as nat),
        );
        let hasher = SHA256::new();
        let mut pk: Vec<Vec<u8>> = Vec::new();
        let mut i: usize = 0;
        while i < n
            invariant
                i <= n,
                n == params.len,
                w == params.winternitz_parameter,
                digits_ok(w as nat, n as nat, digits@),
                signature.wots_signature.chains@.len() == n,
                chains == chain_seqs(signature.wots_signature.chains@),
                pk_spec == Seq::new(
                    n as nat,
                    |i: int| sha_chain(chains[i], (w - 1 - digits@[i]) as nat),
                ),
                pk@.len() == i,
                forall|j: int| 0 <= j < i ==> (#[trigger] pk@[j])@ == pk_spec[j],
            decreases n - i,
        {
            assert(digits@[i as int] < w);
            let c = hash_chain(
                &hasher,
                signature.wots_signature.chains[i].as_slice(),
                w - 1 - digits[i],
            );
            pk.push(c);
            i = i + 1;
        }
        assert(chain_seqs(pk@) =~= pk_spec);
        let data = concat_chains(pk.as_slice());
        let leaf = hasher.hash(data.as_slice());
        let computed = signature.auth_path.compute_root(
            leaf.as_slice(),
            k,
            self.public_seed.as_slice(),
            &hasher,
        );
        proof {
            assert(prefix@ + be_bytes(k as nat, 4) + message@ =~= signature.randomness@ + self.root@
                + be_bytes(k as nat, 4) + message@);
        }
        crate::hash::bytes_eq(computed.as_slice(), self.root.as_slice())
    }
}

/// The Winternitz digits of a digest under `params`.
fn message_digits(params: &XMSSParams, digest: &[u8]) -> (r: Vec<usize>)
    requires
        params.wf(),
    ensures
        r@ == params.digits(digest@),
        digits_ok(params.winternitz_parameter as nat, params.len as nat, r@),
{
    if params.use_hypercube {
        let config = TSLConfig::with_params(params.winternitz_parameter, params.len, params.top_layer);
        let tsl = TSL::new(config);
        let zeros: Vec<u8> = vec![0u8; 32];
        assert(zeros@ =~= zero_randomness());
        match tsl.encode(digest, zeros.as_slice()) {
            Ok(vx) => {
                let n = params.len;
                let mut out: Vec<usize> = Vec::new();
                let mut i: usize = 0;
                while i < n
                    invariant
                        i <= n,
                        n == params.len,
                        vx@.len() == n,
                        in_alphabet(params.winternitz_parameter as int, vx@),
                        out@.len() == i,
                        forall|j: int| 0 <= j < i ==> #[trigger] out@[j] == vx@[j] - 1,
                    decreases n - i,
                {
                    out.push(vx.components[i] - 1);
                    i = i + 1;
                }
                assert(out@ =~= params.digits(digest@));
                out
            },
            Err(_) => {
                proof {
                    assert(false);
                }
                Vec::new()
            },
        }
    } else {
        base_w_from_bytes(digest, params.winternitz_parameter, params.len)
    }
}

/// The number held by big-endian bytes.
pub open spec fn be_value(s: Seq<u8>) -> nat
    decreases s.len(),
{
    if s.len() == 0 {
        0
    } else {
        be_value(s.drop_last()) * 256 + s.last() as nat
    }
}

/// bytes[start .. start + len], copied.
fn copy_range(bytes: &[u8], start: usize, len: usize) -> (r: Vec<u8>)
    requires
        start + len <= bytes@.len(),
    ensures
        r@ == bytes@.subrange(start as int, start + len),
{
    let total = bytes.len();
    let mut r: Vec<u8> = Vec::new();
    let mut i: usize = 0;
    while i < len
        invariant
            i <= len,
            total == bytes@.len(),
            start + len <= bytes@.len(),
            r@ == bytes@.subrange(start as int, start + i),
        decreases len - i,
    {
        r.push(bytes[start + i]);
        assert(bytes@.subrange(start as int, start + i + 1) =~= bytes@.subrange(
            start as int,
            start + i,
        ).push(bytes@[start + i]));
        i = i + 1;
    }
    r
}

/// `count` consecutive 32-byte blocks of `bytes` from `start`.
fn split_blocks(bytes: &[u8], start: usize, count: usize) -> (r: Vec<Vec<u8>>)
    requires
        start + 32 * count <= bytes@.len(),
    ensures
        r@.len() == count,
        forall|i: int|
            0 <= i < count ==> (#[trigger] r@[i])@ == bytes@.subrange(
                start + 32 * i,
                start + 32 * i + 32,
            ),
{
    let total = bytes.len();
    let mut r: Vec<Vec<u8>> = Vec::new();
    let mut i: usize = 0;
    while i < count
        invariant
            i <= count,
            total == bytes@.len(),
            start + 32 * count <= bytes@.len(),
            r@.len() == i,
            forall|j: int|
                0 <= j < i ==> (#[trigger] r@[j])@ == bytes@.subrange(
                    start + 32 * j,
                    start + 32 * j + 32,
                ),
        decreases count - i,
    {
        r.push(copy_range(bytes, start + 32 * i, 32));
        i = i + 1;
    }
    r
}

/// An XMSS signature: leaf index, randomness r, WOTS signature and
/// authentication path.
#[derive(Debug, Clone)]
pub struct XMSSSignature {
    pub leaf_index: usize,
    pub randomness: Vec<u8>,
    pub wots_signature: WotsSignature,
    pub auth_path: AuthPath,
}

/// The wire format: be32(k) ‖ r ‖ σ_0 ‖ ... ‖ σ_{L-1} ‖ path_0 ‖ ... ‖ path_{h-1}.
pub open spec fn signature_bytes(sig: XMSSSignature) -> Seq<u8> {
    be_bytes(sig.leaf_index as nat, 4) + sig.randomness@ + concat_all(
        chain_seqs(sig.wots_signature.chains@),
    ) + concat_all(node_seqs(sig.auth_path.nodes@))
}

impl XMSSSignature {
    pub fn new(
        leaf_index: usize,
        randomness: Vec<u8>,
        wots_signature: WotsSignature,
        auth_path: AuthPath,
    ) -> (r: Self)
        requires
            randomness@.len() == 32,
        ensures
            r.leaf_index == leaf_index,
            r.randomness@ == randomness@,
            r.wots_signature == wots_signature,
            r.auth_path == auth_path,
    {
        XMSSSignature { leaf_index, randomness, wots_signature, auth_path }
    }

    pub fn leaf_index(&self) -> (r: usize)
        ensures
            r == self.leaf_index,
    {
        self.leaf_index
    }

    pub fn randomness(&self) -> (r: &[u8])
        ensures
            r@ == self.randomness@,
    {
        self.randomness.as_slice()
    }

    pub fn wots_signature(&self) -> (r: &WotsSignature)
        ensures
            *r == self.wots_signature,
    {
        &self.wots_signature
    }

    pub fn auth_path(&self) -> (r: &AuthPath)
        ensures
            *r == self.auth_path,
    {
        &self.auth_path
    }

    /// The wire encoding of the signature.
    pub fn to_bytes(&self) -> (r: Vec<u8>)
        requires
            self.leaf_index <= u32::MAX,
        ensures
            r@ == signature_bytes(*self),
    {
        let mut bytes = u32_be_bytes(self.leaf_index as u32);
        append_bytes(&mut bytes, self.randomness.as_slice());
        let chains = concat_chains(self.wots_signature.chains.as_slice());
        append_bytes(&mut bytes, chains.as_slice());
        let nodes = concat_chains(self.auth_path.nodes.as_slice());
        append_bytes(&mut bytes, nodes.as_slice());
        proof {
            assert(chain_seqs(self.auth_path.nodes@) == node_seqs(self.auth_path.nodes@));
        }
        bytes
    }

    /// Parses the wire encoding for `params`: 4 + 32 + 32·len + 32·h bytes,
    /// else `InvalidLength`.
    pub fn from_bytes(bytes: &[u8], params: &XMSSParams) -> (r: Result<Self, XMSSError>)
        requires
            params.wf(),
        ensures
            match r {
                Ok(sig) => bytes@.len() == 36 + 32 * params.len + 32 * params.tree_height
                    && sig.leaf_index == be_value(bytes@.subrange(0, 4)) && sig.randomness@
                    == bytes@.subrange(4, 36) && sig.wots_signature.chains@.len() == params.len
                    && sig.auth_path.nodes@.len() == params.tree_height && (forall|i: int|
                    0 <= i < params.len ==> (#[trigger] sig.wots_signature.chains@[i])@
                        == bytes@.subrange(36 + 32 * i, 36 + 32 * i + 32)) && (forall|i: int|
                    0 <= i < params.tree_height ==> (#[trigger] sig.auth_path.nodes@[i])@
                        == bytes@.subrange(
                        36 + 32 * params.len + 32 * i,
                        36 + 32 * params.len + 32 * i + 32,
                    )),
                Err(e) => e == XMSSError::InvalidLength {
                    expected: (36 + 32 * params.len + 32 * params.tree_height) as usize,
                    actual: bytes@.len() as usize,
                } && bytes@.len() != 36 + 32 * params.len + 32 * params.tree_height,
            },
    {
        let expected = 36 + 32 * params.len + 32 * params.tree_height;
        if bytes.len() != expected {
            return Err(XMSSError::InvalidLength { expected, actual: bytes.len() });
        }
        let leaf_index = (((bytes[0] as usize * 256 + bytes[1] as usize) * 256 + bytes[2] as usize)
            * 256 + bytes[3] as usize);
        proof {
            let h = bytes@.subrange(0, 4);
            assert(h.drop_last() =~= bytes@.subrange(0, 3));
            assert(bytes@.subrange(0, 3).drop_last() =~= bytes@.subrange(0, 2));
            assert(bytes@.subrange(0, 2).drop_last() =~= bytes@.subrange(0, 1));
            assert(bytes@.subrange(0, 1).drop_last() =~= Seq::<u8>::empty());
            assert(be_value(Seq::<u8>::empty()) == 0);
            assert(bytes@.subrange(0, 1).last() == bytes@[0]);
            assert(be_value(bytes@.subrange(0, 1)) == be_value(bytes@.subrange(0, 1).drop_last()) * 256 + bytes@[0]);
            assert(be_value(bytes@.subrange(0, 1)) == bytes@[0]);
            assert(be_value(bytes@.subrange(0, 2)) == bytes@[0] * 256 + bytes@[1]);
            assert(be_value(bytes@.subrange(0, 3)) == (bytes@[0] * 256 + bytes@[1]) * 256 + bytes@[2]);
            assert(be_value(h) == ((bytes@[0] * 256 + bytes@[1]) * 256 + bytes@[2]) * 256 + bytes@[3]);
        }
        let randomness = copy_range(bytes, 4, 32);
        let chains = split_blocks(bytes, 36, params.len);
        let nodes = split_blocks(bytes, 36 + 32 * params.len, params.tree_height);
        Ok(XMSSSignature {
            leaf_index,
            randomness,
            wots_signature: WotsSignature { chains },
            auth_path: AuthPath { nodes },
        })
    }
}

/// The digits of a digest are always Winternitz digits in [0, w-1].
pub proof fn lemma_digits_in_range(params: XMSSParams, digest: Seq<u8>)
    requires
        params.wf(),
    ensures
        digits_ok(params.winternitz_parameter as nat, params.len as nat, params.digits(digest)),
{
    let w = params.winternitz_parameter as nat;
    let n = params.len as nat;
    if params.use_hypercube {
        let l = layer_count(w, params.top_layer as int, n);
        crate::layer::lemma_layer_nonempty(w, params.top_layer as int, n);
        let idx = message_value(digest, zero_randomness()) as int % l as int;
        crate::mapping::lemma_rank_unrank(w, n, params.top_layer as int, idx);
        let x = unrank_of(w, params.top_layer as int, n, idx);
        assert forall|i: int| 0 <= i < n implies #[trigger] params.digits(digest)[i] < w by {
            assert(1 <= x[i] <= w);
        }
    } else {
        let lw = log2_floor(w);
        lemma_log2_floor(w);
        assert forall|j: int| 0 <= j < n implies #[trigger] params.digits(digest)[j] < w by {
            lemma_bits_value_bound(digest, (j * lw) as nat, lw);
        }
    }
}

proof fn lemma_power2_injective(a: nat, b: nat)
    requires
        power(2, a) == power(2, b),
    ensures
        a == b,
{
    if a < b {
        crate::hypercube::lemma_power_monotone(2, a + 1, b);
        crate::hypercube::lemma_power_monotone(2, 0, a);
        assert(power(2, a + 1) == 2 * power(2, a));
    } else if b < a {
        crate::hypercube::lemma_power_monotone(2, b + 1, a);
        crate::hypercube::lemma_power_monotone(2, 0, b);
        assert(power(2, b + 1) == 2 * power(2, b));
    }
}

/// `sig` is the signature of `m` at its leaf index k under the key
/// material: r = H(prf ‖ k ‖ m), the Winternitz chains of key k over the
/// digits of H(r ‖ root ‖ k ‖ m), and the authentication path of leaf k.
pub open spec fn is_signature_of(
    params: XMSSParams,
    sk_seed: Seq<u8>,
    sk_prf: Seq<u8>,
    public_seed: Seq<u8>,
    root: Seq<u8>,
    m: Seq<u8>,
    sig: XMSSSignature,
) -> bool {
    let k = sig.leaf_index as nat;
    &&& sig.randomness@ == signing_randomness(sk_prf, k, m)
    &&& chain_seqs(sig.wots_signature.chains@) == signature_chains(
        wots_secret_chains(sk_seed, be_bytes(k, 4), params.len as nat),
        params.digits(message_digest(sig.randomness@, root, k, m)),
    )
    &&& node_seqs(sig.auth_path.nodes@) == auth_path_of(
        public_seed,
        xmss_leaves(sk_seed, params),
        k,
        params.tree_height as nat,
    )
}

/// Signing is deterministic given the state: two signatures of the same
/// message at the same index under the same key material have the same
/// wire encoding.
pub proof fn lemma_signing_deterministic(
    params: XMSSParams,
    sk_seed: Seq<u8>,
    sk_prf: Seq<u8>,
    public_seed: Seq<u8>,
    root: Seq<u8>,
    m: Seq<u8>,
    sig1: XMSSSignature,
    sig2: XMSSSignature,
)
    requires
        is_signature_of(params, sk_seed, sk_prf, public_seed, root, m, sig1),
        is_signature_of(params, sk_seed, sk_prf, public_seed, root, m, sig2),
        sig1.leaf_index == sig2.leaf_index,
    ensures
        signature_bytes(sig1) == signature_bytes(sig2),
{
}

/// Every signature that `sign` produces verifies: the signature made at
/// index k < 2^h, with r = H(prf ‖ k ‖ m), the Winternitz chains of key k
/// over the digits of H(r ‖ root ‖ k ‖ m) and the authentication path of
/// leaf k, is accepted under (root, public seed).
pub proof fn lemma_xmss_round_trip(
    params: XMSSParams,
    sk_seed: Seq<u8>,
    sk_prf: Seq<u8>,
    public_seed: Seq<u8>,
    m: Seq<u8>,
    sig: XMSSSignature,
)
    requires
        params.wf(),
        sig.leaf_index < power(2, params.tree_height as nat),
        is_signature_of(
            params,
            sk_seed,
            sk_prf,
            public_seed,
            xmss_root(sk_seed, public_seed, params),
            m,
            sig,
        ),
    ensures
        xmss_accepts(params, xmss_root(sk_seed, public_seed, params), public_seed, m, sig),
{
    let k = sig.leaf_index as nat;
    let h = params.tree_height as nat;
    let w = params.winternitz_parameter as nat;
    let n = params.len as nat;
    let root = xmss_root(sk_seed, public_seed, params);
    let d = message_digest(sig.randomness@, root, k, m);
    let digits = params.digits(d);
    let sk = wots_secret_chains(sk_seed, be_bytes(k, 4), n);
    lemma_digits_in_range(params, d);
    lemma_wots_round_trip(w, sk, digits);
    let chains = chain_seqs(sig.wots_signature.chains@);
    let pk = Seq::new(n, |i: int| sha_chain(chains[i], (w - 1 - digits[i]) as nat));
    assert(pk =~= public_chains(w, sk));
    let leaves = xmss_leaves(sk_seed, params);
    crate::hypercube::lemma_power_monotone(2, h, 31);
    crate::hypercube::lemma_power2_values();
    assert(leaves[k as int] == leaf_digest(sk_seed, k, w, n));
    lemma_auth_path_reaches_root(public_seed, leaves, k, h);
    assert(node_seqs(sig.auth_path.nodes@).len() == h);
}

/// The XMSS private state.
#[derive(Debug, Clone)]
pub struct XMSSPrivateKey {
    pub leaf_index: usize,
    pub wots_keys: Vec<Vec<u8>>,
    pub sk_seed: Vec<u8>,
    pub sk_prf: Vec<u8>,
    pub public_seed: Vec<u8>,
    pub root: Vec<u8>,
}

/// The exported private state: next index, the three seeds and the root.
#[derive(Debug, Clone)]
pub struct XMSSPrivateKeyState {
    pub leaf_index: usize,
    pub sk_seed: Vec<u8>,
    pub sk_prf: Vec<u8>,
    pub public_seed: Vec<u8>,
    pub root: Vec<u8>,
}

/// The persisted layout: be64(next index) ‖ key seed ‖ PRF seed ‖
/// public seed ‖ root, 136 bytes.
pub open spec fn state_bytes(st: XMSSPrivateKeyState) -> Seq<u8> {
    be_bytes(st.leaf_index as nat, 8) + st.sk_seed@ + st.sk_prf@ + st.public_seed@ + st.root@
}

proof fn lemma_be_value_bound(s: Seq<u8>)
    ensures
        be_value(s) < power(256, s.len()),
    decreases s.len(),
{
    if s.len() > 0 {
        lemma_be_value_bound(s.drop_last());
        assert(power(256, s.len()) == 256 * power(256, (s.len() - 1) as nat));
        assert(be_value(s.drop_last()) * 256 + s.last() < 256 * power(256, (s.len() - 1) as nat))
            by (nonlinear_arith)
            requires
                be_value(s.drop_last()) < power(256, (s.len() - 1) as nat),
                s.last() < 256,
        ;
    } else {
        assert(power(256, 0) == 1);
    }
}

proof fn lemma_be_round_trip(c: nat, n: nat)
    ensures
        be_bytes(c, n).len() == n,
        be_value(be_bytes(c, n)) == c % power(256, n) as nat,
    decreases n,
{
    if n > 0 {
        lemma_be_round_trip(c / 256, (n - 1) as nat);
        let b = be_bytes(c, n);
        assert(b.drop_last() =~= be_bytes(c / 256, (n - 1) as nat));
        let p = power(256, (n - 1) as nat);
        crate::hypercube::lemma_power_monotone(256, 0, (n - 1) as nat);
        assert(power(256, n) == 256 * p);
        assert(((c / 256) % (p as nat)) * 256 + c % 256 == c % (256 * p) as nat) by {
            vstd::arithmetic::div_mod::lemma_breakdown(c as int, 256, p);
        }
    } else {
        assert(power(256, 0) == 1);
    }
}

impl XMSSPrivateKeyState {
    /// The 136-byte persisted form.
    pub fn to_bytes(&self) -> (r: Vec<u8>)
        ensures
            r@ == state_bytes(*self),
    {
        let mut bytes = crate::hash::be_bytes_of(self.leaf_index as u64, 8);
        proof {
            crate::hypercube::lemma_power2_values();
        }
        append_bytes(&mut bytes, self.sk_seed.as_slice());
        append_bytes(&mut bytes, self.sk_prf.as_slice());
        append_bytes(&mut bytes, self.public_seed.as_slice());
        append_bytes(&mut bytes, self.root.as_slice());
        bytes
    }

    /// Reads the 136-byte persisted form; `InvalidLength` for any other
    /// length.
    pub fn from_bytes(bytes: &[u8]) -> (r: Result<Self, XMSSError>)
        ensures
            bytes@.len() == 136 && be_value(bytes@.subrange(0, 8)) <= usize::MAX <==> r is Ok,
            r matches Ok(st) ==> st.leaf_index == be_value(bytes@.subrange(0, 8))
                && st.sk_seed@ == bytes@.subrange(8, 40) && st.sk_prf@ == bytes@.subrange(40, 72)
                && st.public_seed@ == bytes@.subrange(72, 104) && st.root@ == bytes@.subrange(
                104,
                136,
            ),
            bytes@.len() != 136 ==> r == Err::<Self, XMSSError>(
                XMSSError::InvalidLength { expected: 136, actual: bytes@.len() as usize },
            ),
    {
        if bytes.len() != 136 {
            return Err(XMSSError::InvalidLength { expected: 136, actual: bytes.len() });
        }
        let mut value: u64 = 0;
        let mut i: usize = 0;
        while i < 8
            invariant
                i <= 8,
                bytes@.len() == 136,
                value == be_value(bytes@.subrange(0, i as int)),
            decreases 8 - i,
        {
            proof {
                lemma_be_value_bound(bytes@.subrange(0, i as int));
                crate::hypercube::lemma_power_monotone(256, (i + 1) as nat, 8);
                assert(power(256, (i + 1) as nat) == 256 * power(256, i as nat));
                reveal_with_fuel(power, 9);
                assert(power(256, 8) == 0x1_0000_0000_0000_0000);
                assert(value * 256 + 255 < 256 * power(256, i as nat)) by (nonlinear_arith)
                    requires
                        value < power(256, i as nat),
                ;
                assert(bytes@.subrange(0, i + 1).drop_last() =~= bytes@.subrange(0, i as int));
            }
            value = value * 256 + bytes[i] as u64;
            i = i + 1;
        }
        if value > usize::MAX as u64 {
            return Err(XMSSError::InvalidLength { expected: 136, actual: bytes.len() });
        }
        Ok(XMSSPrivateKeyState {
            leaf_index: value as usize,
            sk_seed: copy_range(bytes, 8, 32),
            sk_prf: copy_range(bytes, 40, 32),
            public_seed: copy_range(bytes, 72, 32),
            root: copy_range(bytes, 104, 32),
        })
    }
}

/// Reading a persisted state back gives the state that was written.
pub proof fn lemma_state_round_trip(st: XMSSPrivateKeyState)
    requires
        st.sk_seed@.len() == 32,
        st.sk_prf@.len() == 32,
        st.public_seed@.len() == 32,
        st.root@.len() == 32,
    ensures
        state_bytes(st).len() == 136,
        be_value(state_bytes(st).subrange(0, 8)) == st.leaf_index,
        state_bytes(st).subrange(8, 40) == st.sk_seed@,
        state_bytes(st).subrange(40, 72) == st.sk_prf@,
        state_bytes(st).subrange(72, 104) == st.public_seed@,
        state_bytes(st).subrange(104, 136) == st.root@,
{
    let b = state_bytes(st);
    lemma_be_round_trip(st.leaf_index as nat, 8);
    reveal_with_fuel(power, 9);
    assert(power(256, 8) == 0x1_0000_0000_0000_0000);
    assert(st.leaf_index < 0x1_0000_0000_0000_0000) by {
        crate::hypercube::lemma_power2_values();
    }
    vstd::arithmetic::div_mod::lemma_small_mod(st.leaf_index as nat, power(256, 8) as nat);
    assert(b.subrange(0, 8) =~= be_bytes(st.leaf_index as nat, 8));
    assert(b.subrange(8, 40) =~= st.sk_seed@);
    assert(b.subrange(40, 72) =~= st.sk_prf@);
    assert(b.subrange(72, 104) =~= st.public_seed@);
    assert(b.subrange(104, 136) =~= st.root@);
}

impl XMSSPrivateKey {
    pub open spec fn wf(&self) -> bool {
        &&& self.sk_seed@.len() == 32
        &&& self.sk_prf@.len() == 32
        &&& self.public_seed@.len() == 32
        &&& self.root@.len() == 32
    }

    pub fn new(
        leaf_index: usize,
        wots_keys: Vec<Vec<u8>>,
        sk_seed: Vec<u8>,
        sk_prf: Vec<u8>,
        public_seed: Vec<u8>,
        root: Vec<u8>,
    ) -> (r: Self)
        requires
            sk_seed@.len() == 32,
            sk_prf@.len() == 32,
            public_seed@.len() == 32,
            root@.len() == 32,
        ensures
            r.wf(),
            r.leaf_index == leaf_index,
            r.sk_seed@ == sk_seed@,
            r.sk_prf@ == sk_prf@,
            r.public_seed@ == public_seed@,
            r.root@ == root@,
    {
        XMSSPrivateKey { leaf_index, wots_keys, sk_seed, sk_prf, public_seed, root }
    }

    pub fn leaf_index(&self) -> (r: usize)
        ensures
            r == self.leaf_index,
    {
        self.leaf_index
    }

    /// Advances the next one-time-key index by one.
    pub fn increment_leaf_index(&mut self)
        requires
            old(self).leaf_index < usize::MAX,
        ensures
            final(self).leaf_index == old(self).leaf_index + 1,
            final(self).sk_seed == old(self).sk_seed,
            final(self).sk_prf == old(self).sk_prf,
            final(self).public_seed == old(self).public_seed,
            final(self).root == old(self).root,
    {
        self.leaf_index = self.leaf_index + 1;
    }

    pub fn sk_seed(&self) -> (r: &[u8])
        ensures
            r@ == self.sk_seed@,
    {
        self.sk_seed.as_slice()
    }

    pub fn sk_prf(&self) -> (r: &[u8])
        ensures
            r@ == self.sk_prf@,
    {
        self.sk_prf.as_slice()
    }

    pub fn public_seed(&self) -> (r: &[u8])
        ensures
            r@ == self.public_seed@,
    {
        self.public_seed.as_slice()
    }

    pub fn root(&self) -> (r: &[u8])
        ensures
            r@ == self.root@,
    {
        self.root.as_slice()
    }

    /// A copy of the state to persist.
    pub fn export_state(&self) -> (r: XMSSPrivateKeyState)
        ensures
            r.leaf_index == self.leaf_index,
            r.sk_seed@ == self.sk_seed@,
            r.sk_prf@ == self.sk_prf@,
            r.public_seed@ == self.public_seed@,
            r.root@ == self.root@,
    {
        XMSSPrivateKeyState {
            leaf_index: self.leaf_index,
            sk_seed: copy_bytes(self.sk_seed.as_slice()),
            sk_prf: copy_bytes(self.sk_prf.as_slice()),
            public_seed: copy_bytes(self.public_seed.as_slice()),
            root: copy_bytes(self.root.as_slice()),
        }
    }
}

/// An XMSS key pair with its signing state.
pub struct XMSSKeypair {
    pub public_key: XMSSPublicKey,
    pub private_key: XMSSPrivateKey,
    pub params: XMSSParams,
}

impl XMSSKeypair {
    pub open spec fn wf(&self) -> bool {
        &&& self.params.wf()
        &&& self.private_key.wf()
        &&& self.public_key.root@ == self.private_key.root@
        &&& self.public_key.public_seed@ == self.private_key.public_seed@
    }

    /// The root is the root of the tree of the key seed.
    pub open spec fn consistent(&self) -> bool {
        &&& self.wf()
        &&& self.private_key.root@ == xmss_root(
            self.private_key.sk_seed@,
            self.private_key.public_seed@,
            self.params,
        )
    }

    /// A key pair from 96 bytes of operating-system randomness; `None`
    /// where the system source fails.
    pub fn generate(params: &XMSSParams) -> (r: Option<Self>)
        requires
            params.wf(),
        ensures
            r matches Some(kp) ==> kp.consistent() && kp.private_key.leaf_index == 0
                && kp.params == *params,
    {
        match crate::random::os_random_bytes(96) {
            Some(seed) => Some(Self::generate_from_seed(params, seed.as_slice())),
            None => None,
        }
    }

    /// The key pair of a 96-byte seed bundle: key seed, PRF seed and public
    /// seed, 32 bytes each.
    pub fn generate_from_seed(params: &XMSSParams, seed: &[u8]) -> (r: Self)
        requires
            params.wf(),
            seed@.len() == 96,
        ensures
            r.consistent(),
            r.params == *params,
            r.private_key.leaf_index == 0,
            r.private_key.sk_seed@ == seed@.subrange(0, 32),
            r.private_key.sk_prf@ == seed@.subrange(32, 64),
            r.private_key.public_seed@ == seed@.subrange(64, 96),
    {
        let sk_seed = copy_range(seed, 0, 32);
        let sk_prf = copy_range(seed, 32, 32);
        let public_seed = copy_range(seed, 64, 32);
        let leaves = compute_leaves(params, sk_seed.as_slice());
        let hasher = SHA256::new();
        let tree = MerkleTree::build(leaves.as_slice(), public_seed.as_slice(), &hasher);
        proof {
            lemma_power2_injective(tree.height as nat, params.tree_height as nat);
        }
        let root = copy_bytes(tree.root());
        let public_key = XMSSPublicKey::new(copy_bytes(root.as_slice()), copy_bytes(public_seed.as_slice()));
        let private_key = XMSSPrivateKey::new(0, Vec::new(), sk_seed, sk_prf, public_seed, root);
        XMSSKeypair { public_key, private_key, params: *params }
    }

    pub fn public_key(&self) -> (r: &XMSSPublicKey)
        ensures
            *r == self.public_key,
    {
        &self.public_key
    }

    pub fn params(&self) -> (r: &XMSSParams)
        ensures
            *r == self.params,
    {
        &self.params
    }

    pub fn private_key(&self) -> (r: &XMSSPrivateKey)
        ensures
            *r == self.private_key,
    {
        &self.private_key
    }

    /// Signs with the next one-time key k and advances the index; with all
    /// 2^h keys used it refuses with `KeyExhausted` and changes nothing.
    pub fn sign(&mut self, message: &[u8]) -> (r: Result<XMSSSignature, XMSSError>)
        requires
            old(self).wf(),
        ensures
            final(self).wf(),
            final(self).params == old(self).params,
            final(self).public_key == old(self).public_key,
            final(self).private_key.sk_seed == old(self).private_key.sk_seed,
            final(self).private_key.sk_prf == old(self).private_key.sk_prf,
            final(self).private_key.public_seed == old(self).private_key.public_seed,
            final(self).private_key.root == old(self).private_key.root,
            old(self).private_key.leaf_index >= power(2, old(self).params.tree_height as nat) ==> r
                == Err::<XMSSSignature, XMSSError>(XMSSError::KeyExhausted)
                && final(self).private_key.leaf_index == old(self).private_key.leaf_index,
            old(self).private_key.leaf_index < power(2, old(self).params.tree_height as nat) ==> (
            r matches Ok(sig) && final(self).private_key.leaf_index == old(
                self,
            ).private_key.leaf_index + 1 && sig.leaf_index == old(self).private_key.leaf_index
                && is_signature_of(
                old(self).params,
                old(self).private_key.sk_seed@,
                old(self).private_key.sk_prf@,
                old(self).private_key.public_seed@,
                old(self).private_key.root@,
                message@,
                sig,
            )),
    {
        let k = self.private_key.leaf_index;
        let num = self.params.num_leaves();
        if k >= num {
            return Err(XMSSError::KeyExhausted);
        }
        proof {
            crate::hypercube::lemma_power_monotone(2, self.params.tree_height as nat, 32);
            crate::hypercube::lemma_power2_values();
        }
        let randomness = hash_with_index(self.private_key.sk_prf.as_slice(), k, message);
        let prefix = concat_bytes(randomness.as_slice(), self.private_key.root.as_slice());
        let digest = hash_with_index(prefix.as_slice(), k, message);
        let wp = WOTSPlusParams::from_xmss_params(&self.params);
        let address = u32_be_bytes(k as u32);
        let wots_keypair = wp.generate_keypair(self.private_key.sk_seed.as_slice(), address.as_slice());
        let digits = message_digits(&self.params, digest.as_slice());
        let wots_signature = wots_keypair.sign_raw(digits.as_slice());
        let leaves = compute_leaves(&self.params, self.private_key.sk_seed.as_slice());
        let hasher = SHA256::new();
        let tree = MerkleTree::build(leaves.as_slice(), self.private_key.public_seed.as_slice(), &hasher);
        proof {
            lemma_power2_injective(tree.height as nat, self.params.tree_height as nat);
        }
        let auth_path = tree.authentication_path(k);
        self.private_key.increment_leaf_index();
        proof {
            assert(prefix@ + be_bytes(k as nat, 4) + message@ =~= randomness@ + old(self).private_key.root@
                + be_bytes(k as nat, 4) + message@);
        }
        Ok(XMSSSignature::new(k, randomness, wots_signature, auth_path))
    }

    /// A key pair from a persisted state, refused with `StateRegression`
    /// when its index is below `recorded_index`, the index last recorded
    /// durably: signing from it would reuse one-time keys.
    pub fn restore_checked(
        params: &XMSSParams,
        state: XMSSPrivateKeyState,
        recorded_index: usize,
    ) -> (r: Result<Self, XMSSError>)
        requires
            params.wf(),
            state.sk_seed@.len() == 32,
            state.sk_prf@.len() == 32,
            state.public_seed@.len() == 32,
            state.root@.len() == 32,
        ensures
            state.leaf_index < recorded_index ==> r == Err::<Self, XMSSError>(
                XMSSError::StateRegression { recorded: recorded_index, attempted: state.leaf_index },
            ),
            state.leaf_index >= recorded_index ==> (r matches Ok(kp) && kp.wf() && kp.params
                == *params && kp.private_key.leaf_index == state.leaf_index
                && kp.private_key.sk_seed@ == state.sk_seed@ && kp.private_key.sk_prf@
                == state.sk_prf@ && kp.private_key.public_seed@ == state.public_seed@
                && kp.private_key.root@ == state.root@),
    {
        if state.leaf_index < recorded_index {
            return Err(
                XMSSError::StateRegression { recorded: recorded_index, attempted: state.leaf_index },
            );
        }
        Ok(Self::restore(params, state))
    }

    /// A key pair from a persisted state; signing resumes at its index.
    pub fn restore(params: &XMSSParams, state: XMSSPrivateKeyState) -> (r: Self)
        requires
            params.wf(),
            state.sk_seed@.len() == 32,
            state.sk_prf@.len() == 32,
            state.public_seed@.len() == 32,
            state.root@.len() == 32,
        ensures
            r.wf(),
            r.params == *params,
            r.private_key.leaf_index == state.leaf_index,
            r.private_key.sk_seed@ == state.sk_seed@,
            r.private_key.sk_prf@ == state.sk_prf@,
            r.private_key.public_seed@ == state.public_seed@,
            r.private_key.root@ == state.root@,
    {
        let public_key = XMSSPublicKey::new(
            copy_bytes(state.root.as_slice()),
            copy_bytes(state.public_seed.as_slice()),
        );
        let private_key = XMSSPrivateKey::new(
            state.leaf_index,
            Vec::new(),
            state.sk_seed,
            state.sk_prf,
            state.public_seed,
            state.root,
        );
        XMSSKeypair { public_key, private_key, params: *params }
    }
}

} // verus!
