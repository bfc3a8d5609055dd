//! Collections of Winternitz signatures staged for aggregation, and the
//! default layers that the aggregation circuits assume.
use crate::wots::{WotsPublicKey, WotsSignature};
use vstd::prelude::*;

verus! {

/// Errors of signature collections.
#[derive(Debug, Clone, Copy, PartialEq, Eq)]
pub enum AggregateError {
    /// The signature at this position does not match its public key.
    InvalidSignature(usize),
    /// There are not as many signatures as public keys.
    MismatchedCount,
}

/// Signatures with their public keys over one message.
#[derive(Debug, Clone)]
pub struct SignatureBundle {
    pub signatures: Vec<WotsSignature>,
    pub public_keys: Vec<WotsPublicKey>,
    pub message: Vec<u8>,
}

impl SignatureBundle {
    /// A bundle; the two lists must have the same length.
    pub fn new(
        signatures: Vec<WotsSignature>,
        public_keys: Vec<WotsPublicKey>,
        message: Vec<u8>,
    ) -> (r: Result<Self, AggregateError>)
        ensures
            signatures@.len() == public_keys@.len() <==> r is Ok,
            r matches Ok(b) ==> b.signatures@ == signatures@ && b.public_keys@ == public_keys@
                && b.message@ == message@,
            r matches Err(e) ==> e == AggregateError::MismatchedCount,
    {
        if signatures.len() != public_keys.len() {
            return Err(AggregateError::MismatchedCount);
        }
        Ok(SignatureBundle { signatures, public_keys, message })
    }

    pub fn len(&self) -> (r: usize)
        ensures
            r == self.signatures@.len(),
    {
        self.signatures.len()
    }

    pub fn is_empty(&self) -> (r: bool)
        ensures
            r == (self.signatures@.len() == 0),
    {
        self.signatures.len() == 0
    }
}

/// A growing set of (signature, public key) pairs over one message.
pub struct SignatureSet {
    pub signatures: Vec<WotsSignature>,
    pub public_keys: Vec<WotsPublicKey>,
    pub message: Vec<u8>,
}

impl SignatureSet {
    pub fn new() -> (r: Self)
        ensures
            r.signatures@.len() == 0,
            r.public_keys@.len() == 0,
            r.message@.len() == 0,
    {
        SignatureSet { signatures: Vec::new(), public_keys: Vec::new(), message: Vec::new() }
    }

    pub fn set_message(&mut self, message: Vec<u8>)
        ensures
            final(self).message@ == message@,
            final(self).signatures@ == old(self).signatures@,
            final(self).public_keys@ == old(self).public_keys@,
    {
        self.message = message;
    }

    /// Adds a pair whose signature has as many chains as the key;
    /// otherwise `InvalidSignature` at the position it would have taken.
    pub fn add_signature(&mut self, signature: WotsSignature, public_key: WotsPublicKey) -> (r:
        Result<(), AggregateError>)
        ensures
            signature.chains@.len() == public_key.chains@.len() ==> r is Ok
                && final(self).signatures@ == old(self).signatures@.push(signature)
                && final(self).public_keys@ == old(self).public_keys@.push(public_key),
            signature.chains@.len() != public_key.chains@.len() ==> r == Err::<(), AggregateError>(
                AggregateError::InvalidSignature(old(self).signatures@.len() as usize),
            ) && final(self).signatures@ == old(self).signatures@ && final(self).public_keys@
                == old(self).public_keys@,
            final(self).message@ == old(self).message@,
    {
        if signature.chains.len() != public_key.chains.len() {
            return Err(AggregateError::InvalidSignature(self.signatures.len()));
        }
        self.signatures.push(signature);
        self.public_keys.push(public_key);
        Ok(())
    }

    /// The bundle of the set.
    pub fn to_bundle(self) -> (r: Result<SignatureBundle, AggregateError>)
        ensures
            self.signatures@.len() == self.public_keys@.len() <==> r is Ok,
            r matches Ok(b) ==> b.signatures@ == self.signatures@ && b.public_keys@
                == self.public_keys@ && b.message@ == self.message@,
    {
        SignatureBundle::new(self.signatures, self.public_keys, self.message)
    }

    pub fn len(&self) -> (r: usize)
        ensures
            r == self.signatures@.len(),
    {
        self.signatures.len()
    }

    pub fn is_empty(&self) -> (r: bool)
        ensures
            r == (self.signatures@.len() == 0),
    {
        self.signatures.len() == 0
    }

    /// `MismatchedCount` where the lists differ in length, else `Ok(true)`.
    pub fn verify_all(&self) -> (r: Result<bool, AggregateError>)
        ensures
            self.signatures@.len() == self.public_keys@.len() ==> r == Ok::<bool, AggregateError>(
                true,
            ),
            self.signatures@.len() != self.public_keys@.len() ==> r == Err::<bool, AggregateError>(
                AggregateError::MismatchedCount,
            ),
    {
        if self.signatures.len() != self.public_keys.len() {
            return Err(AggregateError::MismatchedCount);
        }
        Ok(true)
    }
}

/// The middle layer v(w-1)/2, the TSL layer the circuits default to.
pub fn get_tsl_layer(w: usize, v: usize) -> (r: usize)
    requires
        w >= 1,
        v * w <= usize::MAX,
    ensures
        r == v * (w - 1) / 2,
{
    assert(v * (w - 1) <= v * w) by (nonlinear_arith)
        requires
            w >= 1,
    ;
    v * (w - 1) / 2
}

/// The layer v(w-1)/3, the TL1C d0 the circuits default to.
pub fn get_tl1c_d0(w: usize, v: usize) -> (r: usize)
    requires
        w >= 1,
        v * w <= usize::MAX,
    ensures
        r == v * (w - 1) / 3,
{
    assert(v * (w - 1) <= v * w) by (nonlinear_arith)
        requires
            w >= 1,
    ;
    v * (w - 1) / 3
}

} // verus!
