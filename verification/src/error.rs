//! Error types of the library.

use vstd::prelude::*;

verus! {

/// Errors of the cryptographic layer.
#[derive(Debug)]
pub enum CryptoError {
    KeyLengthMismatch { expected: usize, actual: usize },
    EncryptionFailed(String),
    DecryptionFailed,
    HmacVerificationFailed,
    BlockTagVerificationFailed,
    KeyDerivationFailed(String),
    PlanetCalculationFailed(String),
    SaltSynthesisFailed(String),
    MerkleVerificationFailed,
    RatchetStateError(String),
    ChunkingError(String),
    ObfuscationFailed(String),
    HandshakeError(String),
    TransportError(String),
    InvalidParameter(String),
    UnknownTier(String),
}

#[verifier::external_type_specification]
#[verifier::external_body]
pub struct ExIoError(std::io::Error);

/// Errors of the surrounding system (I/O, serialisation, UI commands).
#[derive(Debug)]
pub enum SystemError {
    Io(std::io::Error),
    Serialization(String),
    TauriCommand(String),
    FrontendComm(String),
}

impl From<std::io::Error> for SystemError {
    fn from(e: std::io::Error) -> (r: SystemError) {
        SystemError::Io(e)
    }
}

impl vstd::std_specs::convert::FromSpecImpl<std::io::Error> for SystemError {
    open spec fn obeys_from_spec() -> bool {
        true
    }

    open spec fn from_spec(e: std::io::Error) -> SystemError {
        SystemError::Io(e)
    }
}

} // verus!
