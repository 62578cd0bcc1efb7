//! Errors.

use crate::text;
use crate::text::{joined, push_decimal};
use vstd::prelude::*;
use vstd::string::*;

verus! {

/// What can go wrong.
#[derive(Debug)]
pub enum CraftSecError {
    /// The threshold is zero or exceeds the number of participants.
    InvalidThreshold { t: u32, n: u32 },
    /// A share does not match its commitments.
    InvalidShare(String),
    /// A commitment is missing or wrong.
    InvalidCommitment(String),
    /// A signature does not verify.
    InvalidSignature(String),
    /// Too few participants have answered.
    InsufficientShares { have: usize, need: usize },
    /// The attestation failed.
    AttestationFailed(String),
    /// The program is unknown or failed.
    ProgramError(String),
    /// The program no longer attests.
    ProgramFrozen(String),
    /// A value could not be read from its serialized form.
    SerializationError(String),
}

/// The result of an operation that can fail.
pub type Result<T> = core::result::Result<T, CraftSecError>;

impl CraftSecError {
    /// The message that describes the error.
    pub open spec fn message(self) -> Seq<char> {
        match self {
            CraftSecError::InvalidThreshold { t, n } => "invalid threshold: t="@ + text::decimal(
                t as nat,
            ) + ", n="@ + text::decimal(n as nat),
            CraftSecError::InvalidShare(s) => "invalid share: "@ + s@,
            CraftSecError::InvalidCommitment(s) => "invalid commitment: "@ + s@,
            CraftSecError::InvalidSignature(s) => "invalid signature: "@ + s@,
            CraftSecError::InsufficientShares { have, need } => "insufficient shares: have "@
                + text::decimal(have as nat) + ", need "@ + text::decimal(need as nat),
            CraftSecError::AttestationFailed(s) => "attestation failed: "@ + s@,
            CraftSecError::ProgramError(s) => "program error: "@ + s@,
            CraftSecError::ProgramFrozen(s) => "program frozen: "@ + s@,
            CraftSecError::SerializationError(s) => "serialization error: "@ + s@,
        }
    }

    /// The message that describes the error, as text.
    pub fn to_text(&self) -> (r: String)
        ensures
            r@ == self.message(),
    {
        match self {
            CraftSecError::InvalidThreshold { t, n } => {
                let mut r = "invalid threshold: t=".to_owned();
                push_decimal(&mut r, *t as u64);
                r.append(", n=");
                push_decimal(&mut r, *n as u64);
                r
            },
            CraftSecError::InvalidShare(s) => joined("invalid share: ", s),
            CraftSecError::InvalidCommitment(s) => joined("invalid commitment: ", s),
            CraftSecError::InvalidSignature(s) => joined("invalid signature: ", s),
            CraftSecError::InsufficientShares { have, need } => {
                let mut r = "insufficient shares: have ".to_owned();
                push_decimal(&mut r, *have as u64);
                r.append(", need ");
                push_decimal(&mut r, *need as u64);
                r
            },
            CraftSecError::AttestationFailed(s) => joined("attestation failed: ", s),
            CraftSecError::ProgramError(s) => joined("program error: ", s),
            CraftSecError::ProgramFrozen(s) => joined("program frozen: ", s),
            CraftSecError::SerializationError(s) => joined("serialization error: ", s),
        }
    }
}

/// Messages tell what went wrong in full: each kind of error has its own beginning, and what the
/// error says follows it as it is.
pub proof fn law_messages(s: String, t: u32, n: u32, have: usize, need: usize)
    ensures
        (CraftSecError::InvalidThreshold { t, n }).message() == "invalid threshold: t="@
            + text::decimal(t as nat) + ", n="@ + text::decimal(n as nat),
        CraftSecError::InvalidShare(s).message() == "invalid share: "@ + s@,
        CraftSecError::InvalidCommitment(s).message() == "invalid commitment: "@ + s@,
        CraftSecError::InvalidSignature(s).message() == "invalid signature: "@ + s@,
        (CraftSecError::InsufficientShares { have, need }).message() == "insufficient shares: have "@
            + text::decimal(have as nat) + ", need "@ + text::decimal(need as nat),
        CraftSecError::AttestationFailed(s).message() == "attestation failed: "@ + s@,
        CraftSecError::ProgramError(s).message() == "program error: "@ + s@,
        CraftSecError::ProgramFrozen(s).message() == "program frozen: "@ + s@,
        CraftSecError::SerializationError(s).message() == "serialization error: "@ + s@,
{
}

} // verus!
