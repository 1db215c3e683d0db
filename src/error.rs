//! Errors of descriptor construction, parsing and satisfaction.
use vstd::prelude::*;
use crate::key::PublicKey;

verus! {

#[derive(Debug, Clone, PartialEq, Eq)]
pub enum Error {
    /// A segwit v0 descriptor holds an uncompressed key; carries the key's text.
    CompressedOnly(String),
    /// A multisig threshold of zero, or above the number of keys.
    BadThreshold,
    /// More keys than a segwit v0 multisig may hold.
    TooManyPubkeys,
    /// The `#` suffix is missing, malformed, or not the checksum of the text before it.
    BadChecksum,
    /// The text does not follow the descriptor grammar: the offending node's name
    /// and its number of arguments.
    Unexpected(String, usize),
    /// A key in the text is not a valid public key.
    BadKey,
    /// The signature source holds no signature for this key.
    MissingSig(PublicKey),
    /// The signature source holds fewer signatures than a multisig threshold.
    CouldNotSatisfy,
}

} // verus!
