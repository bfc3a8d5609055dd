//! Hash-based one-time and many-time signatures built on the top layers of
//! the hypercube [w]^v: layer counting, ranking and unranking of layer
//! vertices, the TSL / TL1C / TLFC encoders, Winternitz hash chains and a
//! Merkle-tree (XMSS) wrapper.
pub mod bignum;
pub mod hypercube;
pub mod layer;
pub mod counting;
pub mod mapping;
pub mod hash;
pub mod random;
pub mod encoding;
pub mod wots;
pub mod tsl;
pub mod tl1c;
pub mod tlfc;
pub mod tree;
pub mod xmss;
pub mod aggregate;

