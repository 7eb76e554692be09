//! The parts of the journal's wire format that plans and commit records share.

use crate::text::opt_view;
use crate::wire::flag_bytes;
use crate::wire::flag_read;
use crate::wire::flag_reads_back;
use crate::wire::put_all;
use crate::wire::put_flag;
use crate::wire::put_text;
use crate::wire::put_u32;
use crate::wire::take_flag;
use crate::wire::take_text;
use crate::wire::take_u32;
use crate::wire::text_bytes;
use crate::wire::text_fits;
use crate::wire::text_read;
use crate::wire::text_reads_back;
use crate::wire::u32_read;
use crate::wire::u32_reads_back;
use crate::wire::varint;
use super::Disposition;
use super::JournalError;
use vstd::prelude::*;

verus! {

/// A disposition at the front of `bytes`.
pub open spec fn disposition_read(bytes: Seq<u8>) -> Option<(Disposition, Seq<u8>)> {
    match u32_read(bytes) {
        Some((code, rest)) => if code == 0 {
            Some((Disposition::Create, rest))
        } else if code == 1 {
            Some((Disposition::Update, rest))
        } else if code == 2 {
            Some((Disposition::Unchanged, rest))
        } else {
            None
        },
        None => None,
    }
}

/// The bytes of an optional text: a flag, and the text behind a set one.
pub open spec fn optional_bytes(text: Option<Seq<char>>) -> Seq<u8> {
    match text {
        Some(t) => flag_bytes(true) + text_bytes(t),
        None => flag_bytes(false),
    }
}

/// An optional text at the front of `bytes`.
pub open spec fn optional_read(bytes: Seq<u8>) -> Option<(Option<Seq<char>>, Seq<u8>)> {
    match flag_read(bytes) {
        Some((true, rest)) => match text_read(rest) {
            Some((text, rest)) => Some((Some(text), rest)),
            None => None,
        },
        Some((false, rest)) => Some((None, rest)),
        None => None,
    }
}

/// A disposition is read back.
pub proof fn disposition_reads_back(disposition: Disposition, tail: Seq<u8>)
    ensures
        disposition_read(varint(disposition.code()) + tail) == Some((disposition, tail)),
{
    u32_reads_back(disposition.code(), tail);
}

/// An optional text is read back.
pub proof fn optional_reads_back(text: Option<Seq<char>>, tail: Seq<u8>)
    requires
        text matches Some(t) ==> text_fits(t),
    ensures
        optional_read(optional_bytes(text) + tail) == Some((text, tail)),
{
    match text {
        Some(t) => {
            assert(optional_bytes(text) + tail =~= flag_bytes(true) + (text_bytes(t) + tail));
            flag_reads_back(true, text_bytes(t) + tail);
            text_reads_back(t, tail);
        },
        None => {
            flag_reads_back(false, tail);
        },
    }
}

/// Append what an encoder wrote to `bytes`.
pub(crate) fn append_encoded(
    bytes: &mut Vec<u8>,
    encoded: Result<Vec<u8>, postcard::Error>,
) -> (r: Result<(), JournalError>)
    ensures
        r is Ok <==> encoded is Ok,
        r matches Err(e) ==> e == JournalError::Encode,
        encoded matches Ok(tail) ==> final(bytes)@ == old(bytes)@ + tail@,
        encoded is Err ==> final(bytes)@ == old(bytes)@,
{
    match encoded {
        Ok(tail) => {
            put_all(bytes, &tail);
            Ok(())
        },
        Err(_) => Err(JournalError::Encode),
    }
}

/// Append a disposition to `bytes`.
pub(crate) fn append_disposition(bytes: &mut Vec<u8>, disposition: Disposition) -> (r: Result<
    (),
    JournalError,
>)
    ensures
        r is Ok,
        final(bytes)@ == old(bytes)@ + varint(disposition.code()),
{
    let code: u32 = match disposition {
        Disposition::Create => 0,
        Disposition::Update => 1,
        Disposition::Unchanged => 2,
    };
    append_encoded(bytes, put_u32(code))
}

/// Append an optional text to `bytes`.
pub(crate) fn append_optional(bytes: &mut Vec<u8>, text: &Option<String>) -> (r: Result<
    (),
    JournalError,
>)
    ensures
        r is Ok,
        final(bytes)@ == old(bytes)@ + optional_bytes(opt_view(*text)),
{
    match text {
        Some(t) => {
            append_encoded(bytes, put_flag(true))?;
            append_encoded(bytes, put_text(t.as_str()))?;
            assert(bytes@ =~= old(bytes)@ + optional_bytes(opt_view(*text)));
            Ok(())
        },
        None => append_encoded(bytes, put_flag(false)),
    }
}

/// Take a disposition from the front of `bytes`.
pub(crate) fn take_disposition(bytes: &[u8]) -> (r: Result<(Disposition, &[u8]), JournalError>)
    ensures
        r is Ok <==> disposition_read(bytes@) is Some,
        r matches Ok((d, rest)) ==> disposition_read(bytes@) == Some((d, rest@)),
        r matches Err(e) ==> e == JournalError::Decode,
{
    match take_u32(bytes) {
        Ok((0, rest)) => Ok((Disposition::Create, rest)),
        Ok((1, rest)) => Ok((Disposition::Update, rest)),
        Ok((2, rest)) => Ok((Disposition::Unchanged, rest)),
        _ => Err(JournalError::Decode),
    }
}

/// Take an optional text from the front of `bytes`.
pub(crate) fn take_optional(bytes: &[u8]) -> (r: Result<(Option<String>, &[u8]), JournalError>)
    ensures
        r is Ok <==> optional_read(bytes@) is Some,
        r matches Ok((text, rest)) ==> optional_read(bytes@) == Some((opt_view(text), rest@)),
        r matches Err(e) ==> e == JournalError::Decode,
{
    match take_flag(bytes) {
        Ok((true, rest)) => match take_text(rest) {
            Ok((text, rest)) => Ok((Some(text), rest)),
            Err(_) => Err(JournalError::Decode),
        },
        Ok((false, rest)) => Ok((None, rest)),
        Err(_) => Err(JournalError::Decode),
    }
}

} // verus!
