//! Winternitz one-time signatures over SHA-256 hash chains.
//!
//! Digits are in [0, w-1]: chain i of a signature is H^{a_i}(sk_i), and
//! verification completes it with H^{w-1-a_i} and compares with pk_i.
use crate::encoding::{zero_randomness, EncodingScheme};
use crate::hash::{bytes_eq, hash_chain, lemma_hash_chain_compose, sha_chain, SHA256};
use crate::random::os_random_bytes;
use vstd::prelude::*;

verus! {

/// The byte strings held by a list of chains.
pub open spec fn chain_seqs(c: Seq<Vec<u8>>) -> Seq<Seq<u8>> {
    c.map_values(|x: Vec<u8>| x@)
}

/// Every digit of `digest` is below w and there are `chains` of them.
pub open spec fn digits_ok(w: nat, chains: nat, digest: Seq<usize>) -> bool {
    digest.len() == chains && forall|i: int| 0 <= i < digest.len() ==> #[trigger] digest[i] < w
}

/// The public chains of a secret key: pk_i = H^{w-1}(sk_i).
pub open spec fn public_chains(w: nat, sk: Seq<Seq<u8>>) -> Seq<Seq<u8>> {
    Seq::new(sk.len(), |i: int| sha_chain(sk[i], (w - 1) as nat))
}

/// The signature of a digest: σ_i = H^{a_i}(sk_i).
pub open spec fn signature_chains(sk: Seq<Seq<u8>>, digest: Seq<usize>) -> Seq<Seq<u8>> {
    Seq::new(sk.len(), |i: int| sha_chain(sk[i], digest[i] as nat))
}

/// Whether `sig` is a signature of `digest` under `pk`.
pub open spec fn wots_accepts(
    w: nat,
    chains: nat,
    pk: Seq<Seq<u8>>,
    digest: Seq<usize>,
    sig: Seq<Seq<u8>>,
) -> bool {
    &&& pk.len() == chains
    &&& sig.len() == chains
    &&& digits_ok(w, chains, digest)
    &&& forall|i: int|
        0 <= i < chains ==> #[trigger] sha_chain(sig[i], (w - 1 - digest[i]) as nat) == pk[i]
}

/// Signing then verifying accepts: for every digit vector in [0, w-1]
/// (in particular an encoder's output a in [1, w]^L, taken as a - 1), the
/// signature made with sk verifies under pk = H^{w-1}(sk).
pub proof fn lemma_wots_round_trip(w: nat, sk: Seq<Seq<u8>>, digest: Seq<usize>)
    requires
        w >= 1,
        digits_ok(w, sk.len(), digest),
    ensures
        wots_accepts(w, sk.len(), public_chains(w, sk), digest, signature_chains(sk, digest)),
{
    assert forall|i: int| 0 <= i < sk.len() implies #[trigger] sha_chain(
        signature_chains(sk, digest)[i],
        (w - 1 - digest[i]) as nat,
    ) == public_chains(w, sk)[i] by {
        let a = digest[i] as nat;
        let b = (w - 1 - a) as nat;
        lemma_hash_chain_compose::<SHA256>(sk[i], b, a);
        assert(b + a == (w - 1) as nat);
    }
}

/// The Winternitz digits of an encoded vertex: x_i - 1, from [1, w] to
/// [0, w-1].
pub open spec fn encoding_digits(x: Seq<usize>) -> Seq<usize> {
    Seq::new(x.len(), |i: int| (x[i] - 1) as usize)
}

/// Malformed input to Winternitz verification.
#[derive(Debug, Clone, Copy, PartialEq, Eq)]
pub enum WotsError {
    /// The digest, the signature or the key does not have one entry per
    /// chain.
    LengthMismatch,
    /// A digit is not below w.
    DigitOutOfRange { position: usize, value: usize },
}

/// Parameters: alphabet size w and number of chains.
#[derive(Debug, Clone, Copy)]
pub struct WotsParams {
    pub w: usize,
    pub chains: usize,
}

impl WotsParams {
    pub open spec fn wf(&self) -> bool {
        self.w > 1 && self.chains > 0
    }

    pub fn new(w: usize, chains: usize) -> (r: Self)
        requires
            w > 1,
            chains > 0,
        ensures
            r.w == w,
            r.chains == chains,
            r.wf(),
    {
        WotsParams { w, chains }
    }

    pub fn w(&self) -> (r: usize)
        ensures
            r == self.w,
    {
        self.w
    }

    pub fn chains(&self) -> (r: usize)
        ensures
            r == self.chains,
    {
        self.chains
    }

    /// The length of a full chain, w - 1.
    pub fn max_hash_iterations(&self) -> (r: usize)
        requires
            self.wf(),
        ensures
            r == self.w - 1,
    {
        self.w - 1
    }
}

#[derive(Debug, Clone)]
pub struct WotsPublicKey {
    pub chains: Vec<Vec<u8>>,
    pub params: WotsParams,
}

impl WotsPublicKey {
    pub fn chains(&self) -> (r: &[Vec<u8>])
        ensures
            r@ == self.chains@,
    {
        self.chains.as_slice()
    }

    pub fn params(&self) -> (r: &WotsParams)
        ensures
            *r == self.params,
    {
        &self.params
    }

    pub fn from_chains(chains: Vec<Vec<u8>>, params: WotsParams) -> (r: Self)
        ensures
            r.chains@ == chains@,
            r.params == params,
    {
        WotsPublicKey { chains, params }
    }

    /// Checks a signature of a digit vector. Malformed input is an error:
    /// `LengthMismatch` where the digest, the signature or the key does not
    /// have one entry per chain, else `DigitOutOfRange` for the first digit
    /// not below w. Well-formed input gives `Ok(true)` exactly when every
    /// chain of the signature, completed by H^{w-1-a_i}, equals the public
    /// chain.
    pub fn verify(&self, message_digest: &[usize], signature: &WotsSignature) -> (r: Result<
        bool,
        WotsError,
    >)
        ensures
            (message_digest@.len() != self.params.chains || signature.chains@.len()
                != self.params.chains || self.chains@.len() != self.params.chains) ==> r == Err::<
                bool,
                WotsError,
            >(WotsError::LengthMismatch),
            (message_digest@.len() == self.params.chains && signature.chains@.len()
                == self.params.chains && self.chains@.len() == self.params.chains) ==> match r {
                Ok(b) => digits_ok(self.params.w as nat, self.params.chains as nat, message_digest@)
                    && b == wots_accepts(
                    self.params.w as nat,
                    self.params.chains as nat,
                    chain_seqs(self.chains@),
                    message_digest@,
                    chain_seqs(signature.chains@),
                ),
                Err(WotsError::DigitOutOfRange { position, value }) => position
                    < message_digest@.len() && value == message_digest@[position as int] && value
                    >= self.params.w && forall|j: int|
                    0 <= j < position ==> #[trigger] message_digest@[j] < self.params.w,
                Err(WotsError::LengthMismatch) => false,
            },
    {
        let n = self.params.chains;
        if message_digest.len() != n || signature.chains.len() != n || self.chains.len() != n {
            return Err(WotsError::LengthMismatch);
        }
        let mut i: usize = 0;
        while i < n
            invariant
                i <= n,
                n == message_digest@.len(),
                n == self.params.chains,
                signature.chains@.len() == n,
                self.chains@.len() == n,
                forall|j: int| 0 <= j < i ==> #[trigger] message_digest@[j] < self.params.w,
            decreases n - i,
        {
            if message_digest[i] >= self.params.w {
                return Err(WotsError::DigitOutOfRange { position: i, value: message_digest[i] });
            }
            i = i + 1;
        }
        Ok(self.chains_accept(message_digest, signature))
    }

    /// Whether every chain of the signature, completed by H^{w-1-a_i},
    /// equals the public chain.
    fn chains_accept(&self, message_digest: &[usize], signature: &WotsSignature) -> (r: bool)
        ensures
            r == wots_accepts(
                self.params.w as nat,
                self.params.chains as nat,
                chain_seqs(self.chains@),
                message_digest@,
                chain_seqs(signature.chains@),
            ),
    {
        let n = self.params.chains;
        let w = self.params.w;
        if message_digest.len() != n || signature.chains.len() != n || self.chains.len() != n {
            return false;
        }
        let hasher = SHA256::new();
        let mut i: usize = 0;
        while i < n
            invariant
                i <= n,
                n == self.params.chains,
                w == self.params.w,
                message_digest@.len() == n,
                signature.chains@.len() == n,
                self.chains@.len() == n,
                forall|j: int| 0 <= j < i ==> #[trigger] message_digest@[j] < w,
                forall|j: int|
                    0 <= j < i ==> #[trigger] sha_chain(
                        signature.chains@[j]@,
                        (w - 1 - message_digest@[j]) as nat,
                    ) == self.chains@[j]@,
            decreases n - i,
        {
            let x = message_digest[i];
            if x >= w {
                return false;
            }
            let computed = hash_chain(&hasher, signature.chains[i].as_slice(), w - 1 - x);
            if !bytes_eq(computed.as_slice(), self.chains[i].as_slice()) {
                assert(!wots_accepts(
                    w as nat,
                    n as nat,
                    chain_seqs(self.chains@),
                    message_digest@,
                    chain_seqs(signature.chains@),
                )) by {
                    assert(chain_seqs(signature.chains@)[i as int] == signature.chains@[i as int]@);
                    assert(chain_seqs(self.chains@)[i as int] == self.chains@[i as int]@);
                    assert(sha_chain(
                        chain_seqs(signature.chains@)[i as int],
                        (w - 1 - message_digest@[i as int]) as nat,
                    ) != chain_seqs(self.chains@)[i as int]);
                }
                return false;
            }
            i = i + 1;
        }
        assert(wots_accepts(
            w as nat,
            n as nat,
            chain_seqs(self.chains@),
            message_digest@,
            chain_seqs(signature.chains@),
        )) by {
            assert forall|j: int| 0 <= j < n implies #[trigger] sha_chain(
                chain_seqs(signature.chains@)[j],
                (w - 1 - message_digest@[j]) as nat,
            ) == chain_seqs(self.chains@)[j] by {
                assert(chain_seqs(signature.chains@)[j] == signature.chains@[j]@);
                assert(chain_seqs(self.chains@)[j] == self.chains@[j]@);
            }
        }
        true
    }
}

#[derive(Debug, Clone)]
pub struct WotsSecretKey {
    pub chains: Vec<Vec<u8>>,
}

impl WotsSecretKey {
    pub fn chains(&self) -> (r: &[Vec<u8>])
        ensures
            r@ == self.chains@,
    {
        self.chains.as_slice()
    }

    pub fn from_chains(chains: Vec<Vec<u8>>) -> (r: Self)
        ensures
            r.chains@ == chains@,
    {
        WotsSecretKey { chains }
    }
}

/// A Winternitz key pair.
pub struct WotsKeypair {
    pub public_key: WotsPublicKey,
    pub secret_key: WotsSecretKey,
    pub params: WotsParams,
}

impl WotsKeypair {
    /// The public key belongs to the secret key.
    pub open spec fn wf(&self) -> bool {
        &&& self.params.wf()
        &&& self.public_key.params == self.params
        &&& self.secret_key.chains@.len() == self.params.chains
        &&& chain_seqs(self.public_key.chains@) == public_chains(
            self.params.w as nat,
            chain_seqs(self.secret_key.chains@),
        )
    }

    /// The key pair whose secret chains are `secret_key`: pk_i = H^{w-1}(sk_i).
    pub fn from_secret_key(secret_key: WotsSecretKey, params: &WotsParams) -> (r: Self)
        requires
            params.wf(),
            secret_key.chains@.len() == params.chains,
        ensures
            r.wf(),
            r.params == *params,
            r.secret_key.chains@ == secret_key.chains@,
    {
        let hasher = SHA256::new();
        let n = params.chains;
        let mut pk: Vec<Vec<u8>> = Vec::new();
        let mut i: usize = 0;
        while i < n
            invariant
                i <= n,
                n == params.chains,
                params.wf(),
                secret_key.chains@.len() == n,
                pk@.len() == i,
                forall|j: int|
                    0 <= j < i ==> #[trigger] pk@[j]@ == sha_chain(
                        secret_key.chains@[j]@,
                        (params.w - 1) as nat,
                    ),
            decreases n - i,
        {
            let p = hash_chain(&hasher, secret_key.chains[i].as_slice(), params.w - 1);
            pk.push(p);
            i = i + 1;
        }
        assert(chain_seqs(pk@) =~= public_chains(params.w as nat, chain_seqs(secret_key.chains@)));
        WotsKeypair {
            public_key: WotsPublicKey { chains: pk, params: *params },
            secret_key,
            params: *params,
        }
    }

    /// A fresh key pair with 32-byte secret chains drawn from the operating
    /// system; `None` where the system source fails.
    pub fn generate(params: &WotsParams) -> (r: Option<Self>)
        requires
            params.wf(),
        ensures
            r matches Some(kp) ==> kp.wf() && kp.params == *params && forall|i: int|
                0 <= i < params.chains ==> (#[trigger] kp.secret_key.chains@[i])@.len() == 32,
    {
        let mut sk: Vec<Vec<u8>> = Vec::new();
        let mut i: usize = 0;
        while i < params.chains
            invariant
                i <= params.chains,
                sk@.len() == i,
                forall|j: int| 0 <= j < i ==> (#[trigger] sk@[j])@.len() == 32,
            decreases params.chains - i,
        {
            match os_random_bytes(32) {
                Some(b) => sk.push(b),
                None => return None,
            }
            i = i + 1;
        }
        let secret_key = WotsSecretKey { chains: sk };
        Some(Self::from_secret_key(secret_key, params))
    }

    pub fn from_components(
        public_key: WotsPublicKey,
        secret_key: WotsSecretKey,
        params: WotsParams,
    ) -> (r: Self)
        ensures
            r.public_key == public_key,
            r.secret_key == secret_key,
            r.params == params,
    {
        WotsKeypair { public_key, secret_key, params }
    }

    pub fn public_key(&self) -> (r: &WotsPublicKey)
        ensures
            *r == self.public_key,
    {
        &self.public_key
    }

    pub fn secret_key(&self) -> (r: &WotsSecretKey)
        ensures
            *r == self.secret_key,
    {
        &self.secret_key
    }

    /// Signs the encoding of `message` (with all-zero randomness): the
    /// vertex components x_i in [1, w] become the digits x_i - 1.
    pub fn sign<E: EncodingScheme>(&self, message: &[u8], encoding: &E) -> (r: WotsSignature)
        requires
            encoding.encoder_wf(),
            encoding.spec_dimension() == self.params.chains,
            encoding.spec_alphabet_size() <= self.params.w,
            self.secret_key.chains@.len() == self.params.chains,
        ensures
            chain_seqs(r.chains@) == signature_chains(
                chain_seqs(self.secret_key.chains@),
                encoding_digits(encoding.spec_encode(message@, zero_randomness())),
            ),
    {
        let randomness: Vec<u8> = vec![0u8; 32];
        assert(randomness@ =~= zero_randomness());
        let vertex = encoding.encode(message, randomness.as_slice());
        let mut digest: Vec<usize> = Vec::new();
        let mut i: usize = 0;
        while i < vertex.components.len()
            invariant
                i <= vertex@.len(),
                crate::hypercube::in_alphabet(encoding.spec_alphabet_size() as int, vertex@),
                encoding.spec_alphabet_size() <= self.params.w,
                digest@.len() == i,
                forall|j: int| 0 <= j < i ==> #[trigger] digest@[j] == vertex@[j] - 1,
            decreases vertex@.len() - i,
        {
            digest.push(vertex.components[i] - 1);
            i = i + 1;
        }
        assert(digest@ =~= encoding_digits(vertex@));
        let r = self.sign_raw(digest.as_slice());
        r
    }

    /// σ_i = H^{a_i}(sk_i) for a digit vector a in [0, w-1]^chains.
    pub fn sign_raw(&self, message_digest: &[usize]) -> (r: WotsSignature)
        requires
            self.secret_key.chains@.len() == self.params.chains,
            digits_ok(self.params.w as nat, self.params.chains as nat, message_digest@),
        ensures
            chain_seqs(r.chains@) == signature_chains(
                chain_seqs(self.secret_key.chains@),
                message_digest@,
            ),
    {
        let hasher = SHA256::new();
        let n = self.params.chains;
        let mut sig: Vec<Vec<u8>> = Vec::new();
        let mut i: usize = 0;
        while i < n
            invariant
                i <= n,
                n == self.params.chains,
                self.secret_key.chains@.len() == n,
                message_digest@.len() == n,
                sig@.len() == i,
                forall|j: int|
                    0 <= j < i ==> #[trigger] sig@[j]@ == sha_chain(
                        self.secret_key.chains@[j]@,
                        message_digest@[j] as nat,
                    ),
            decreases n - i,
        {
            let s = hash_chain(&hasher, self.secret_key.chains[i].as_slice(), message_digest[i]);
            sig.push(s);
            i = i + 1;
        }
        assert(chain_seqs(sig@) =~= signature_chains(
            chain_seqs(self.secret_key.chains@),
            message_digest@,
        ));
        WotsSignature { chains: sig }
    }
}

#[derive(Debug, Clone)]
pub struct WotsSignature {
    pub chains: Vec<Vec<u8>>,
}

impl WotsSignature {
    pub fn chains(&self) -> (r: &[Vec<u8>])
        ensures
            r@ == self.chains@,
    {
        self.chains.as_slice()
    }

    pub fn from_chains(chains: Vec<Vec<u8>>) -> (r: Self)
        ensures
            r.chains@ == chains@,
    {
        WotsSignature { chains }
    }
}

} // verus!
