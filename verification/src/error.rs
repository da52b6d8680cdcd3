use vstd::prelude::*;

verus! {

/// Typed failures surfaced by the authorization gate and the key custodian.
///
/// Every operation reports its failure to the immediate caller as one of
/// these variants; nothing is swallowed except the deliberate policies of
/// discarding a payload-mismatched signature and letting an unregistered
/// signer contribute zero weight.
#[derive(Clone, Copy, Debug, PartialEq, Eq, Structural)]
pub enum FeroError {
    /// A key record, approver, or weight row was absent where one was required.
    NotFound,
    /// A candidate signature was cryptographically invalid; this aborts the
    /// whole authentication attempt.
    VerificationFailure,
    /// The summed approval weight fell short of the key's configured threshold.
    QuorumNotMet,
    /// A digest whose length names no supported hash algorithm.
    UnsupportedInput,
    /// A 1024-bit RSA modulus, rejected as insufficiently secure; kept
    /// distinct from the generic unknown-size rejection.
    InsecureKeySize,
    /// An RSA modulus of a bit length (carried here) that the hardware
    /// module does not support.
    UnsupportedKeySize(u64),
    /// No free hardware object id remains.
    CapacityExhausted,
    /// The hardware module or its transport reported an error.
    HardwareFailure,
    /// The persistence layer failed, or refused a constraint-violating write.
    StorageFailure,
    /// A signature-packet encoding step failed.
    EncodingFailure,
}

} // verus!
