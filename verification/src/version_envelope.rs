//! The fixed-size version envelope in front of every persisted record.
//!
//! The envelope is the major format version as a little-endian `u16`. A reader
//! looks at it before it decodes the body, and refuses a body whose major
//! version is newer than the one it supports.

use vstd::prelude::*;

verus! {

/// Bytes that the envelope takes in front of the body.
pub const ENVELOPE_LEN: usize = 2;

/// Why a record's envelope was refused.
#[derive(Debug, Clone, Copy, PartialEq, Eq, Structural)]
pub enum EnvelopeError {
    /// The record is shorter than the envelope.
    Truncated {
        /// Bytes present.
        got: usize,
        /// Bytes that the envelope needs.
        need: usize,
    },
    /// The record's major version is newer than the supported one.
    VersionMismatch {
        /// Major version of the record.
        found: u16,
        /// Newest major version that the reader supports.
        supported: u16,
    },
}

/// The two bytes of a major version, the low byte first.
pub open spec fn envelope_bytes(major: u16) -> Seq<u8> {
    seq![(major % 256) as u8, (major / 256) as u8]
}

/// The major version that the first two bytes of `bytes` spell.
pub open spec fn envelope_major(bytes: Seq<u8>) -> int {
    bytes[0] + 256 * bytes[1]
}

/// What reading an enveloped record gives: its body, or why it is refused.
pub open spec fn opened(bytes: Seq<u8>, supported: u16) -> Result<Seq<u8>, EnvelopeError> {
    if bytes.len() < ENVELOPE_LEN {
        Err(EnvelopeError::Truncated { got: bytes.len() as usize, need: ENVELOPE_LEN })
    } else if envelope_major(bytes) > supported {
        Err(
            EnvelopeError::VersionMismatch { found: envelope_major(bytes) as u16, supported },
        )
    } else {
        Ok(bytes.skip(ENVELOPE_LEN as int))
    }
}

/// Put the envelope of `major` in front of `body`.
pub fn encode_with_envelope(major: u16, body: &[u8]) -> (bytes: Vec<u8>)
    ensures
        bytes@ == envelope_bytes(major) + body@,
{
    let mut bytes: Vec<u8> = Vec::new();
    bytes.push((major % 256) as u8);
    bytes.push((major / 256) as u8);
    let mut i: usize = 0;
    while i < body.len()
        invariant
            i <= body@.len(),
            bytes@ == envelope_bytes(major) + body@.take(i as int),
        decreases body@.len() - i,
    {
        bytes.push(body[i]);
        i = i + 1;
        assert(bytes@ =~= envelope_bytes(major) + body@.take(i as int));
    }
    assert(body@.take(i as int) =~= body@);
    bytes
}

/// Read the major version of a record without touching its body.
pub fn read_envelope_version(bytes: &[u8]) -> (r: Result<u16, EnvelopeError>)
    ensures
        r is Ok <==> bytes@.len() >= ENVELOPE_LEN,
        r matches Ok(major) ==> major == envelope_major(bytes@),
        r matches Err(e) ==> e == (EnvelopeError::Truncated {
            got: bytes@.len() as usize,
            need: ENVELOPE_LEN,
        }),
{
    if bytes.len() < ENVELOPE_LEN {
        return Err(EnvelopeError::Truncated { got: bytes.len(), need: ENVELOPE_LEN });
    }
    Ok(bytes[0] as u16 + 256 * (bytes[1] as u16))
}

/// Open a record: its body, unless the envelope is cut short or its major
/// version is newer than `supported`.
pub fn decode_envelope<'a>(bytes: &'a [u8], supported: u16) -> (r: Result<
    &'a [u8],
    EnvelopeError,
>)
    ensures
        r matches Ok(body) ==> opened(bytes@, supported) == Ok::<Seq<u8>, EnvelopeError>(body@),
        r matches Err(e) ==> opened(bytes@, supported) == Err::<Seq<u8>, EnvelopeError>(e),
{
    let found: u16 = match read_envelope_version(bytes) {
        Ok(found) => found,
        Err(e) => return Err(e),
    };
    if found > supported {
        return Err(EnvelopeError::VersionMismatch { found, supported });
    }
    let body: &'a [u8] = &bytes[ENVELOPE_LEN..bytes.len()];
    assert(body@ =~= bytes@.skip(ENVELOPE_LEN as int));
    Ok(body)
}

/// A body written under a supported major version is read back whole.
pub proof fn envelope_round_trip(major: u16, supported: u16, body: Seq<u8>)
    requires
        major <= supported,
    ensures
        opened(envelope_bytes(major) + body, supported) == Ok::<Seq<u8>, EnvelopeError>(body),
{
    let bytes = envelope_bytes(major) + body;
    assert(envelope_major(bytes) == major);
    assert(bytes.skip(ENVELOPE_LEN as int) =~= body);
}

/// A record of a newer major version is refused, whatever its body holds.
pub proof fn newer_major_is_refused(major: u16, supported: u16, body: Seq<u8>)
    requires
        major > supported,
    ensures
        opened(envelope_bytes(major) + body, supported) == Err::<Seq<u8>, EnvelopeError>(
            EnvelopeError::VersionMismatch { found: major, supported },
        ),
{
    let bytes = envelope_bytes(major) + body;
    assert(envelope_major(bytes) == major);
}

} // verus!
