//! Why a journal file could not be written, read or named.

use crate::number::decimal;
use crate::number::decimal_text;
use crate::text::around;
use crate::text::joined;
use crate::text::put_around;
use crate::version_envelope::EnvelopeError;
use vstd::prelude::*;

verus! {

/// Errors raised while reading or writing the plan journal.
#[derive(Debug, Clone, PartialEq, Eq)]
#[non_exhaustive]
pub enum JournalError {
    /// A file of the journal could not be written, read or removed. The message
    /// names the path.
    Filesystem {
        /// What went wrong.
        message: String,
    },
    /// A record could not be encoded.
    Encode,
    /// A record's body could not be decoded.
    Decode,
    /// A record is shorter than its version envelope.
    Truncated {
        /// Bytes present.
        got: usize,
        /// Bytes that the envelope needs.
        need: usize,
    },
    /// A record's major version is newer than this library supports. It is
    /// refused, because reading it as an older format would misread it.
    VersionMismatch {
        /// Major version of the record.
        found: u16,
        /// Newest major version supported.
        supported: u16,
    },
    /// The newest operation ID has used up its sequence numbers.
    TimestampExhausted {
        /// The newest ID.
        newest: String,
    },
}

impl JournalError {
    /// The error in words.
    pub open spec fn words(self) -> Seq<char> {
        match self {
            JournalError::Filesystem { message } => "journal filesystem operation failed"@,
            JournalError::Encode => "failed to encode plan to postcard"@,
            JournalError::Decode => "failed to decode plan from postcard"@,
            JournalError::Truncated { got, need } => around(
                "journal record is truncated: "@,
                decimal(got as nat),
                around(
                    " bytes, need at least "@,
                    decimal(need as nat),
                    " for the version envelope"@,
                ),
            ),
            JournalError::VersionMismatch { found, supported } => around(
                "journal plan major version "@,
                decimal(found as nat),
                around(
                    " is newer than supported version "@,
                    decimal(supported as nat),
                    "; upgrade patina to read this plan"@,
                ),
            ),
            JournalError::TimestampExhausted { newest } => "no journal operation ID follows "@
                + newest@,
        }
    }

    /// The error in words.
    pub fn message(&self) -> (r: String)
        ensures
            r@ == self.words(),
    {
        match self {
            JournalError::Filesystem { message: _ } => {
                "journal filesystem operation failed".to_owned()
            },
            JournalError::Encode => "failed to encode plan to postcard".to_owned(),
            JournalError::Decode => "failed to decode plan from postcard".to_owned(),
            JournalError::Truncated { got, need } => {
                let needed: String = decimal_text(*need as u64);
                let tail: String = put_around(
                    " bytes, need at least ",
                    needed.as_str(),
                    " for the version envelope",
                );
                let present: String = decimal_text(*got as u64);
                put_around("journal record is truncated: ", present.as_str(), tail.as_str())
            },
            JournalError::VersionMismatch { found, supported } => {
                let newest: String = decimal_text(*supported as u64);
                let tail: String = put_around(
                    " is newer than supported version ",
                    newest.as_str(),
                    "; upgrade patina to read this plan",
                );
                let got: String = decimal_text(*found as u64);
                put_around("journal plan major version ", got.as_str(), tail.as_str())
            },
            JournalError::TimestampExhausted { newest } => joined(
                "no journal operation ID follows ",
                newest.as_str(),
            ),
        }
    }
}

/// The journal's word for a refused envelope.
pub open spec fn envelope_refusal(e: EnvelopeError) -> JournalError {
    match e {
        EnvelopeError::Truncated { got, need } => JournalError::Truncated { got, need },
        EnvelopeError::VersionMismatch { found, supported } => JournalError::VersionMismatch {
            found,
            supported,
        },
    }
}

impl From<EnvelopeError> for JournalError {
    fn from(e: EnvelopeError) -> (r: Self) {
        match e {
            EnvelopeError::Truncated { got, need } => JournalError::Truncated { got, need },
            EnvelopeError::VersionMismatch { found, supported } => JournalError::VersionMismatch {
                found,
                supported,
            },
        }
    }
}

impl vstd::std_specs::convert::FromSpecImpl<EnvelopeError> for JournalError {
    open spec fn obeys_from_spec() -> bool {
        true
    }

    open spec fn from_spec(e: EnvelopeError) -> Self {
        envelope_refusal(e)
    }
}

} // verus!
