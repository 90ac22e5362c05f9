use vstd::prelude::*;

verus! {

/// Failure taxonomy of the protocol. Every cryptographic or format violation
/// surfaces as one of these variants; nothing is retried internally.
#[derive(Clone, Copy, Debug, PartialEq, Eq, Structural)]
pub enum SecioError {
    /// Caller-supplied key material was malformed; reported at construction.
    KeyFormat,
    /// Negotiation found no common algorithm in some category.
    NoCommonAlgorithm,
    /// A peer handshake message was malformed or unexpected.
    Handshake,
    /// The remote Exchange signature did not verify: treat the remote as hostile.
    SignatureVerification,
    /// The signing primitive itself failed; never caused by peer input.
    Signing,
    /// A received frame failed MAC verification: the session is torn down.
    MacMismatch,
    /// A received frame announced a length over the configured maximum.
    FrameTooLarge,
    /// The stream-cipher byte counter would wrap: fatal, never wrapped silently.
    CipherExhausted,
}

} // verus!
