//! Sources of random bytes.
use crate::hash::{append_bytes, copy_bytes, le_bytes, sha256_of, u64_le_bytes, HashFunction, SHA256};
use vstd::prelude::*;

verus! {

/// A source of random bytes.
pub trait SecureRandom {
    /// Whether `size` more bytes can be drawn.
    spec fn can_draw(&self, size: nat) -> bool;

    fn random_bytes(&mut self, size: usize) -> (r: Vec<u8>)
        requires
            old(self).can_draw(size as nat),
        ensures
            r@.len() == size,
    ;
}

/// Relies on `rand::rngs::OsRng` (`RngCore::try_fill_bytes`): `n` bytes
/// from the operating system, or `None` where it reports a failure.
#[verifier::external_body]
pub(crate) fn os_random_bytes(n: usize) -> (r: Option<Vec<u8>>)
    ensures
        r matches Some(b) ==> b@.len() == n,
{
    let mut b = vec![0u8; n];
    match rand::RngCore::try_fill_bytes(&mut rand::rngs::OsRng, &mut b[..]) {
        Ok(()) => Some(b),
        Err(_) => None,
    }
}

/// The first n blocks SHA-256(seed ‖ le64(c)), SHA-256(seed ‖ le64(c+1)), ...
pub open spec fn det_stream(seed: Seq<u8>, c: nat, n: nat) -> Seq<u8>
    decreases n,
{
    if n == 0 {
        Seq::empty()
    } else {
        det_stream(seed, c, (n - 1) as nat) + sha256_of(seed + le_bytes((c + n - 1) as nat, 8))
    }
}

/// A reproducible byte stream for tests: block j is
/// SHA-256(seed ‖ le64(counter + j)).
pub struct DeterministicRng {
    pub seed: Vec<u8>,
    pub counter: usize,
}

impl DeterministicRng {
    pub fn new(seed: &[u8]) -> (r: Self)
        ensures
            r.seed@ == seed@,
            r.counter == 0,
    {
        DeterministicRng { seed: copy_bytes(seed), counter: 0 }
    }

    /// The number of blocks that a draw of `size` bytes consumes.
    pub open spec fn blocks_for(size: nat) -> nat {
        (size + 31) / 32
    }

    /// The next `size` bytes of the stream.
    pub fn next_bytes(&mut self, size: usize) -> (r: Vec<u8>)
        requires
            old(self).counter + Self::blocks_for(size as nat) <= usize::MAX,
        ensures
            r@ == det_stream(
                old(self).seed@,
                old(self).counter as nat,
                Self::blocks_for(size as nat),
            ).subrange(0, size as int),
            r@.len() == size,
            final(self).counter == old(self).counter + Self::blocks_for(size as nat),
            final(self).seed@ == old(self).seed@,
    {
        let hasher = SHA256::new();
        let ghost c0 = self.counter as nat;
        let mut result: Vec<u8> = Vec::new();
        let mut n: usize = 0;
        while result.len() < size
            invariant
                result@ == det_stream(self.seed@, c0, n as nat),
                result@.len() == 32 * n,
                self.counter == c0 + n,
                self.seed@ == old(self).seed@,
                c0 == old(self).counter,
                n <= Self::blocks_for(size as nat),
                result@.len() < size + 32,
                old(self).counter + Self::blocks_for(size as nat) <= usize::MAX,
            decreases size - result@.len() + 32,
        {
            let mut input = copy_bytes(self.seed.as_slice());
            let ctr = u64_le_bytes(self.counter as u64);
            append_bytes(&mut input, ctr.as_slice());
            let block = hasher.hash(input.as_slice());
            append_bytes(&mut result, block.as_slice());
            self.counter = self.counter + 1;
            n = n + 1;
        }
        let ghost full = result@;
        result.truncate(size);
        assert(result@ =~= full.subrange(0, size as int));
        result
    }
}

impl SecureRandom for DeterministicRng {
    open spec fn can_draw(&self, size: nat) -> bool {
        self.counter + Self::blocks_for(size) <= usize::MAX
    }

    fn random_bytes(&mut self, size: usize) -> (r: Vec<u8>) {
        self.next_bytes(size)
    }
}

} // verus!
