//! Cryptographic core: AEAD, block authentication, key derivation, key
//! agreement, Merkle anchoring and the double ratchet.

pub mod merkle;
pub mod primitives;
pub mod aesgcm;
pub mod hkdf;
pub mod kyber_x25519;
pub mod ratchet;
pub mod key_order;

pub use aesgcm::{AeadCipher, BlockAuth, HmacTransport, NonceData};
pub use hkdf::KeyDeriver;
pub use kyber_x25519::{HybridKeyExchange, X25519KeyPair, KyberKeyPair, Ed25519KeyPair};
pub use merkle::{MerkleProof, MerkleTree, LeafNode};

use vstd::prelude::*;

verus! {

/// Size of a wire block in bytes.
pub const BLOCK_SIZE: usize = 128;

/// Payload bytes carried by one block.
pub const PAYLOAD_SIZE: usize = 107;

/// Length of a block authentication tag in bytes.
pub const GMAC_TAG_SIZE: usize = 8;

/// Version of this library.
pub const VERSION: &'static str = "0.1.0";

} // verus!
