//! The primitives of the journal's wire format, as postcard writes and reads
//! them.
//!
//! A number is a little-endian base-128 varint, a text is the varint of its
//! UTF-8 length followed by its UTF-8 bytes, a flag is one byte. The records of
//! the journal are rows of such primitives.

use vstd::prelude::*;
use vstd::utf8::decode_utf8;
use vstd::utf8::encode_utf8;
use vstd::utf8::valid_utf8;

verus! {

/// `postcard::Error`, carried as it is.
#[verifier::external_type_specification]
#[verifier::external_body]
pub struct ExPostcardError(postcard::Error);

/// The varint of `n`: seven bits a byte, the low ones first, the high bit set
/// on every byte but the last.
pub open spec fn varint(n: nat) -> Seq<u8>
    decreases n,
{
    if n < 128 {
        seq![n as u8]
    } else {
        seq![(n % 128 + 128) as u8] + varint(n / 128)
    }
}

/// The number that a varint at the front of `bytes` spells, and what is behind
/// it. At most `size` bytes belong to it, and the last of `size` bytes is at
/// most `top`.
pub open spec fn varint_read(bytes: Seq<u8>, size: nat, top: nat) -> Option<(nat, Seq<u8>)>
    decreases size,
{
    if size == 0 || bytes.len() == 0 {
        None
    } else if bytes[0] < 128 {
        if size == 1 && bytes[0] > top {
            None
        } else {
            Some((bytes[0] as nat, bytes.drop_first()))
        }
    } else {
        match varint_read(bytes.drop_first(), (size - 1) as nat, top) {
            Some((high, rest)) => Some(((bytes[0] - 128 + 128 * high) as nat, rest)),
            None => None,
        }
    }
}

/// A `u32` at the front of `bytes`.
pub open spec fn u32_read(bytes: Seq<u8>) -> Option<(nat, Seq<u8>)> {
    varint_read(bytes, 5, 15)
}

/// A `u64` at the front of `bytes`.
pub open spec fn u64_read(bytes: Seq<u8>) -> Option<(nat, Seq<u8>)> {
    varint_read(bytes, 10, 1)
}

/// A length at the front of `bytes`, which is as wide as a `usize`.
pub open spec fn length_read(bytes: Seq<u8>) -> Option<(nat, Seq<u8>)> {
    if usize::BITS == 32 {
        u32_read(bytes)
    } else {
        u64_read(bytes)
    }
}

/// The bytes of a text.
pub open spec fn text_bytes(text: Seq<char>) -> Seq<u8> {
    varint(encode_utf8(text).len()) + encode_utf8(text)
}

/// A text at the front of `bytes`.
pub open spec fn text_read(bytes: Seq<u8>) -> Option<(Seq<char>, Seq<u8>)> {
    match length_read(bytes) {
        Some((n, rest)) => if n <= rest.len() && valid_utf8(rest.take(n as int)) {
            Some((decode_utf8(rest.take(n as int)), rest.skip(n as int)))
        } else {
            None
        },
        None => None,
    }
}

/// The byte of a flag.
pub open spec fn flag_bytes(flag: bool) -> Seq<u8> {
    seq![if flag { 1u8 } else { 0u8 }]
}

/// A flag at the front of `bytes`.
pub open spec fn flag_read(bytes: Seq<u8>) -> Option<(bool, Seq<u8>)> {
    if bytes.len() == 0 || bytes[0] > 1 {
        None
    } else {
        Some((bytes[0] == 1, bytes.drop_first()))
    }
}

/// A content hash at the front of `bytes`: 32 bytes as they are.
pub open spec fn hash_read(bytes: Seq<u8>) -> Option<(Seq<u8>, Seq<u8>)> {
    if bytes.len() < 32 {
        None
    } else {
        Some((bytes.take(32), bytes.skip(32)))
    }
}

/// `postcard::to_stdvec` of a `u32`: its varint. Writing to a vector does not
/// fail.
#[verifier::external_body]
pub(crate) fn put_u32(value: u32) -> (r: Result<Vec<u8>, postcard::Error>)
    ensures
        r is Ok,
        r->Ok_0@ == varint(value as nat),
{
    postcard::to_stdvec(&value)
}

/// `postcard::to_stdvec` of a `u64`: its varint. Writing to a vector does not
/// fail.
#[verifier::external_body]
pub(crate) fn put_u64(value: u64) -> (r: Result<Vec<u8>, postcard::Error>)
    ensures
        r is Ok,
        r->Ok_0@ == varint(value as nat),
{
    postcard::to_stdvec(&value)
}

/// `postcard::to_stdvec` of a string: the varint of its length in bytes, then
/// its bytes. Writing to a vector does not fail.
#[verifier::external_body]
pub(crate) fn put_text(text: &str) -> (r: Result<Vec<u8>, postcard::Error>)
    ensures
        r is Ok,
        r->Ok_0@ == text_bytes(text@),
{
    postcard::to_stdvec(text)
}

/// `postcard::to_stdvec` of a flag: one byte. Writing to a vector does not
/// fail.
#[verifier::external_body]
pub(crate) fn put_flag(flag: bool) -> (r: Result<Vec<u8>, postcard::Error>)
    ensures
        r is Ok,
        r->Ok_0@ == flag_bytes(flag),
{
    postcard::to_stdvec(&flag)
}

/// `postcard::to_stdvec` of an array of 32 bytes: the bytes as they are, with
/// no length. Writing to a vector does not fail.
#[verifier::external_body]
pub(crate) fn put_hash(hash: &[u8; 32]) -> (r: Result<Vec<u8>, postcard::Error>)
    ensures
        r is Ok,
        r->Ok_0@ == hash@,
{
    postcard::to_stdvec(hash)
}

/// `postcard::take_from_bytes` of a `u32`: a varint of at most five bytes that
/// fits 32 bits, and the bytes behind it.
#[verifier::external_body]
pub(crate) fn take_u32(bytes: &[u8]) -> (r: Result<(u32, &[u8]), postcard::Error>)
    ensures
        r is Ok <==> u32_read(bytes@) is Some,
        r matches Ok((n, rest)) ==> u32_read(bytes@) == Some((n as nat, rest@)),
{
    postcard::take_from_bytes(bytes)
}

/// `postcard::take_from_bytes` of a `u64`: a varint of at most ten bytes that
/// fits 64 bits, and the bytes behind it.
#[verifier::external_body]
pub(crate) fn take_u64(bytes: &[u8]) -> (r: Result<(u64, &[u8]), postcard::Error>)
    ensures
        r is Ok <==> u64_read(bytes@) is Some,
        r matches Ok((n, rest)) ==> u64_read(bytes@) == Some((n as nat, rest@)),
{
    postcard::take_from_bytes(bytes)
}

/// `postcard::take_from_bytes` of a string: a length, then as many bytes, which
/// are UTF-8, and the bytes behind them.
#[verifier::external_body]
pub(crate) fn take_text(bytes: &[u8]) -> (r: Result<(String, &[u8]), postcard::Error>)
    ensures
        r is Ok <==> text_read(bytes@) is Some,
        r matches Ok((text, rest)) ==> text_read(bytes@) == Some((text@, rest@)),
{
    postcard::take_from_bytes(bytes)
}

/// `postcard::take_from_bytes` of a flag: a byte that is zero or one, and the
/// bytes behind it.
#[verifier::external_body]
pub(crate) fn take_flag(bytes: &[u8]) -> (r: Result<(bool, &[u8]), postcard::Error>)
    ensures
        r is Ok <==> flag_read(bytes@) is Some,
        r matches Ok((flag, rest)) ==> flag_read(bytes@) == Some((flag, rest@)),
{
    postcard::take_from_bytes(bytes)
}

/// `postcard::take_from_bytes` of an array of 32 bytes: the next 32 bytes, and
/// the bytes behind them.
#[verifier::external_body]
pub(crate) fn take_hash(bytes: &[u8]) -> (r: Result<([u8; 32], &[u8]), postcard::Error>)
    ensures
        r is Ok <==> hash_read(bytes@) is Some,
        r matches Ok((hash, rest)) ==> hash_read(bytes@) == Some((hash@, rest@)),
{
    postcard::take_from_bytes(bytes)
}

/// Append `tail` to `bytes`.
pub(crate) fn put_all(bytes: &mut Vec<u8>, tail: &Vec<u8>)
    ensures
        final(bytes)@ == old(bytes)@ + tail@,
{
    let mut i: usize = 0;
    while i < tail.len()
        invariant
            i <= tail@.len(),
            bytes@ == old(bytes)@ + tail@.take(i as int),
        decreases tail@.len() - i,
    {
        bytes.push(tail[i]);
        i = i + 1;
        assert(bytes@ =~= old(bytes)@ + tail@.take(i as int));
    }
    assert(tail@.take(i as int) =~= tail@);
}

/// How many numbers `size` varint bytes spell when the last is at most `top`.
pub open spec fn varint_span(size: nat, top: nat) -> nat
    decreases size,
{
    if size <= 1 {
        top + 1
    } else {
        128 * varint_span((size - 1) as nat, top)
    }
}

/// A varint is read back as the number it was written for, and ends where it
/// was written to end.
pub proof fn varint_reads_back(n: nat, size: nat, top: nat, tail: Seq<u8>)
    requires
        0 < size,
        top < 128,
        n < varint_span(size, top),
    ensures
        varint_read(varint(n) + tail, size, top) == Some((n, tail)),
    decreases size,
{
    let bytes = varint(n) + tail;
    if n < 128 {
        assert(bytes.drop_first() =~= tail);
        assert(bytes[0] == n);
    } else {
        assert(bytes[0] == n % 128 + 128);
        assert(bytes.drop_first() =~= varint(n / 128) + tail);
        varint_reads_back(n / 128, (size - 1) as nat, top, tail);
    }
}

/// A `u32` is read back.
pub proof fn u32_reads_back(n: nat, tail: Seq<u8>)
    requires
        n <= u32::MAX,
    ensures
        u32_read(varint(n) + tail) == Some((n, tail)),
{
    reveal_with_fuel(varint_span, 6);
    varint_reads_back(n, 5, 15, tail);
}

/// A `u64` is read back.
pub proof fn u64_reads_back(n: nat, tail: Seq<u8>)
    requires
        n <= u64::MAX,
    ensures
        u64_read(varint(n) + tail) == Some((n, tail)),
{
    reveal_with_fuel(varint_span, 11);
    varint_reads_back(n, 10, 1, tail);
}

/// Whether a text is short enough to be held in memory.
pub open spec fn text_fits(text: Seq<char>) -> bool {
    encode_utf8(text).len() <= usize::MAX
}

/// A text is read back.
pub proof fn text_reads_back(text: Seq<char>, tail: Seq<u8>)
    requires
        text_fits(text),
    ensures
        text_read(text_bytes(text) + tail) == Some((text, tail)),
{
    let bytes = encode_utf8(text);
    let n = bytes.len();
    assert(text_bytes(text) + tail =~= varint(n) + (bytes + tail));
    if usize::BITS == 32 {
        u32_reads_back(n, bytes + tail);
    } else {
        u64_reads_back(n, bytes + tail);
    }
    assert((bytes + tail).take(n as int) =~= bytes);
    assert((bytes + tail).skip(n as int) =~= tail);
    vstd::utf8::encode_utf8_valid_utf8(text);
    vstd::utf8::encode_utf8_decode_utf8(text);
}

/// A flag is read back.
pub proof fn flag_reads_back(flag: bool, tail: Seq<u8>)
    ensures
        flag_read(flag_bytes(flag) + tail) == Some((flag, tail)),
{
    assert((flag_bytes(flag) + tail).drop_first() =~= tail);
}

/// A hash is read back.
pub proof fn hash_reads_back(hash: Seq<u8>, tail: Seq<u8>)
    requires
        hash.len() == 32,
    ensures
        hash_read(hash + tail) == Some((hash, tail)),
{
    assert((hash + tail).take(32) =~= hash);
    assert((hash + tail).skip(32) =~= tail);
}

} // verus!
