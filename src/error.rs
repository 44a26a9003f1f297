//! What can go wrong while loading or generating a proof.
use vstd::prelude::*;

verus! {

/// The failures of one call; a missing or malformed cache file is none of them.
#[derive(Clone, Debug)]
pub enum ProverError {
    /// The traces could not be folded into a witness block.
    Normalization(String),
    /// The key store holds no key for the requested circuit instance.
    UnknownCircuitInstance,
    /// The proving engine failed.
    Proving(String),
    /// The engine's output could not be assembled into an artifact.
    Assembly,
    /// Bytes that are not the text form of an artifact.
    Deserialization,
    /// Writing the artifact failed.
    Io(String),
}

} // verus!
