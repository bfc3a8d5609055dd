//! Hash functions: a narrow `hash(bytes) -> bytes` interface, its SHA-256
//! and SHA3-256 instances, and iterated hashing (hash chains).
use vstd::prelude::*;

verus! {

/// The SHA-256 digest of a byte string.
pub uninterp spec fn sha256_of(data: Seq<u8>) -> Seq<u8>;

/// The SHA3-256 digest of a byte string.
pub uninterp spec fn sha3_256_of(data: Seq<u8>) -> Seq<u8>;

/// Relies on `sha2::Sha256::digest`: the SHA-256 digest of `data`, which is
/// 32 bytes long.
#[verifier::external_body]
fn sha256_digest(data: &[u8]) -> (r: Vec<u8>)
    ensures
        r@ == sha256_of(data@),
        r@.len() == 32,
{
    <sha2::Sha256 as sha2::Digest>::digest(data).to_vec()
}

/// Relies on `sha3::Sha3_256::digest`: the SHA3-256 digest of `data`, which
/// is 32 bytes long.
#[verifier::external_body]
fn sha3_256_digest(data: &[u8]) -> (r: Vec<u8>)
    ensures
        r@ == sha3_256_of(data@),
        r@.len() == 32,
{
    <sha3::Sha3_256 as sha3::Digest>::digest(data).to_vec()
}

/// A hash function with a fixed digest size.
pub trait HashFunction {
    /// The digest of `data`.
    spec fn spec_hash(data: Seq<u8>) -> Seq<u8>;

    /// The digest size in bytes.
    spec fn spec_output_size() -> nat;

    fn hash(&self, data: &[u8]) -> (r: Vec<u8>)
        ensures
            r@ == Self::spec_hash(data@),
            r@.len() == Self::spec_output_size(),
    ;

    fn output_size(&self) -> (r: usize)
        ensures
            r == Self::spec_output_size(),
    ;
}

/// SHA-256.
#[derive(Debug, Clone, Copy)]
pub struct SHA256;

impl SHA256 {
    pub fn new() -> (r: Self) {
        SHA256
    }
}

impl HashFunction for SHA256 {
    open spec fn spec_hash(data: Seq<u8>) -> Seq<u8> {
        sha256_of(data)
    }

    open spec fn spec_output_size() -> nat {
        32
    }

    fn hash(&self, data: &[u8]) -> (r: Vec<u8>) {
        sha256_digest(data)
    }

    fn output_size(&self) -> (r: usize) {
        32
    }
}

/// SHA3-256.
#[derive(Debug, Clone, Copy)]
pub struct SHA3_256;

impl SHA3_256 {
    pub fn new() -> (r: Self) {
        SHA3_256
    }
}

impl HashFunction for SHA3_256 {
    open spec fn spec_hash(data: Seq<u8>) -> Seq<u8> {
        sha3_256_of(data)
    }

    open spec fn spec_output_size() -> nat {
        32
    }

    fn hash(&self, data: &[u8]) -> (r: Vec<u8>) {
        sha3_256_digest(data)
    }

    fn output_size(&self) -> (r: usize) {
        32
    }
}

/// H^k(x): `x` hashed k times with `H`.
pub open spec fn hash_iter<H: HashFunction>(x: Seq<u8>, k: nat) -> Seq<u8>
    decreases k,
{
    if k == 0 {
        x
    } else {
        H::spec_hash(hash_iter::<H>(x, (k - 1) as nat))
    }
}

/// H^k(x) with SHA-256, the hash of the Winternitz chains.
pub open spec fn sha_chain(x: Seq<u8>, k: nat) -> Seq<u8> {
    hash_iter::<SHA256>(x, k)
}

/// Hash chains compose: H^0(x) = x and H^{a+b}(x) = H^a(H^b(x)).
pub proof fn lemma_hash_chain_compose<H: HashFunction>(x: Seq<u8>, a: nat, b: nat)
    ensures
        hash_iter::<H>(x, 0) == x,
        hash_iter::<H>(x, a + b) == hash_iter::<H>(hash_iter::<H>(x, b), a),
    decreases a,
{
    if a > 0 {
        lemma_hash_chain_compose::<H>(x, (a - 1) as nat, b);
        assert((a + b - 1) as nat == ((a - 1) as nat + b) as nat);
    }
}

/// H^k(input): `input` hashed `iterations` times.
pub fn hash_chain<H: HashFunction>(hasher: &H, input: &[u8], iterations: usize) -> (r: Vec<u8>)
    ensures
        r@ == hash_iter::<H>(input@, iterations as nat),
{
    let mut result = copy_bytes(input);
    let mut i: usize = 0;
    while i < iterations
        invariant
            i <= iterations,
            result@ == hash_iter::<H>(input@, i as nat),
        decreases iterations - i,
    {
        result = hasher.hash(result.as_slice());
        i = i + 1;
    }
    result
}

/// The bytes of `c`, least significant first, `n` of them.
pub open spec fn le_bytes(c: nat, n: nat) -> Seq<u8>
    decreases n,
{
    if n == 0 {
        Seq::empty()
    } else {
        seq![(c % 256) as u8] + le_bytes(c / 256, (n - 1) as nat)
    }
}

/// The bytes of `c`, most significant first, `n` of them.
pub open spec fn be_bytes(c: nat, n: nat) -> Seq<u8>
    decreases n,
{
    if n == 0 {
        Seq::empty()
    } else {
        be_bytes(c / 256, (n - 1) as nat) + seq![(c % 256) as u8]
    }
}

/// The eight little-endian bytes of `c`.
pub fn u64_le_bytes(c: u64) -> (r: Vec<u8>)
    ensures
        r@ == le_bytes(c as nat, 8),
{
    let mut out: Vec<u8> = Vec::new();
    let mut cur: u64 = c;
    let mut i: usize = 0;
    while i < 8
        invariant
            i <= 8,
            out@ + le_bytes(cur as nat, (8 - i) as nat) == le_bytes(c as nat, 8),
        decreases 8 - i,
    {
        let ghost before = out@;
        assert(le_bytes(cur as nat, (8 - i) as nat) == seq![(cur % 256) as u8] + le_bytes(
            (cur / 256) as nat,
            (8 - i - 1) as nat,
        ));
        out.push((cur % 256) as u8);
        assert(out@ + le_bytes((cur / 256) as nat, (8 - i - 1) as nat) =~= before + (seq![
            (cur % 256) as u8,
        ] + le_bytes((cur / 256) as nat, (8 - i - 1) as nat)));
        cur = cur / 256;
        i = i + 1;
    }
    assert(out@ + le_bytes(cur as nat, 0) =~= out@);
    out
}

/// The four big-endian bytes of `c`.
pub fn u32_be_bytes(c: u32) -> (r: Vec<u8>)
    ensures
        r@ == be_bytes(c as nat, 4),
{
    let mut out: Vec<u8> = Vec::new();
    out.push((c / 16777216) as u8);
    out.push(((c / 65536) % 256) as u8);
    out.push(((c / 256) % 256) as u8);
    out.push((c % 256) as u8);
    proof {
        let n = c as nat;
        assert(n / 256 / 256 == n / 65536) by {
            vstd::arithmetic::div_mod::lemma_div_denominator(n as int, 256, 256);
        }
        assert(n / 65536 / 256 == n / 16777216) by {
            vstd::arithmetic::div_mod::lemma_div_denominator(n as int, 65536, 256);
        }
        assert(n / 16777216 / 256 == 0);
        assert(n / 16777216 < 256);
        assert(be_bytes(n / 16777216 / 256, 0) =~= Seq::<u8>::empty());
        assert(be_bytes(n / 16777216, 1) =~= seq![((n / 16777216) % 256) as u8]);
        assert(be_bytes(n / 65536, 2) =~= be_bytes(n / 65536 / 256, 1) + seq![((n / 65536) % 256) as u8]);
        assert(be_bytes(n / 256, 3) =~= be_bytes(n / 256 / 256, 2) + seq![((n / 256) % 256) as u8]);
        assert(be_bytes(n, 4) =~= be_bytes(n / 256, 3) + seq![(n % 256) as u8]);
    }
    assert(out@ =~= be_bytes(c as nat, 4));
    out
}

/// A fresh copy of `s`.
pub fn copy_bytes(s: &[u8]) -> (r: Vec<u8>)
    ensures
        r@ == s@,
{
    let mut r: Vec<u8> = Vec::new();
    append_bytes(&mut r, s);
    assert(r@ =~= s@);
    r
}

/// Appends `s` to `out`.
pub fn append_bytes(out: &mut Vec<u8>, s: &[u8])
    ensures
        final(out)@ == old(out)@ + s@,
{
    let ghost start = out@;
    let mut i: usize = 0;
    while i < s.len()
        invariant
            i <= s@.len(),
            out@ == start + s@.subrange(0, i as int),
        decreases s@.len() - i,
    {
        out.push(s[i]);
        assert(s@.subrange(0, i + 1) =~= s@.subrange(0, i as int).push(s@[i as int]));
        i = i + 1;
    }
    assert(s@.subrange(0, s@.len() as int) =~= s@);
}

/// Byte-wise equality.
pub fn bytes_eq(a: &[u8], b: &[u8]) -> (r: bool)
    ensures
        r == (a@ == b@),
{
    if a.len() != b.len() {
        return false;
    }
    let mut i: usize = 0;
    while i < a.len()
        invariant
            i <= a@.len(),
            a@.len() == b@.len(),
            forall|j: int| 0 <= j < i ==> a@[j] == b@[j],
        decreases a@.len() - i,
    {
        if a[i] != b[i] {
            return false;
        }
        i = i + 1;
    }
    assert(a@ =~= b@);
    true
}

/// Appends `s` to `out`.
pub fn append_usizes(out: &mut Vec<usize>, s: &[usize])
    ensures
        final(out)@ == old(out)@ + s@,
{
    let ghost start = out@;
    let mut i: usize = 0;
    while i < s.len()
        invariant
            i <= s@.len(),
            out@ == start + s@.subrange(0, i as int),
        decreases s@.len() - i,
    {
        out.push(s[i]);
        assert(s@.subrange(0, i + 1) =~= s@.subrange(0, i as int).push(s@[i as int]));
        i = i + 1;
    }
    assert(s@.subrange(0, s@.len() as int) =~= s@);
}

/// The n big-endian bytes of `c` (its value mod 256^n).
pub fn be_bytes_of(c: u64, n: usize) -> (r: Vec<u8>)
    ensures
        r@ == be_bytes(c as nat, n as nat),
    decreases n,
{
    if n == 0 {
        let r: Vec<u8> = Vec::new();
        assert(r@ =~= be_bytes(c as nat, 0));
        r
    } else {
        let mut r = be_bytes_of(c / 256, n - 1);
        r.push((c % 256) as u8);
        r
    }
}

} // verus!
