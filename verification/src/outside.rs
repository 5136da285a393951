//! What this library takes from other crates and, where vstd is silent, from std.
//!
//! Everything here is believed, not proved. Each item says what it claims.

use bytes::Bytes;
use sha2::{Digest, Sha256};
use vstd::prelude::*;
use vstd::utf8;

verus! {

/// `bytes::Bytes`, a shared byte buffer.
#[verifier::external_type_specification]
#[verifier::external_body]
pub struct ExBytes(bytes::Bytes);

/// The bytes that a `Bytes` handle covers.
pub uninterp spec fn content(buffer: Bytes) -> Seq<u8>;

/// `Bytes::from(Vec<u8>)`: the handle covers the bytes of the vector, in their order.
#[verifier::external_body]
pub(crate) fn bytes_from_vec(data: Vec<u8>) -> (buffer: Bytes)
    ensures
        content(buffer) == data@,
{
    Bytes::from(data)
}

/// `Bytes::slice` with a half-open range: the new handle covers that part of the old one.
/// The call panics where the range is reversed or ends behind the buffer.
/// That both handles share one allocation is not part of the claim.
#[verifier::external_body]
pub(crate) fn bytes_slice(buffer: &Bytes, start: usize, end: usize) -> (part: Bytes)
    requires
        start <= end <= content(*buffer).len(),
    ensures
        content(part) == content(*buffer).subrange(start as int, end as int),
{
    buffer.slice(start..end)
}

/// `<Bytes as AsRef<[u8]>>::as_ref`: the slice holds what the handle covers.
#[verifier::external_body]
pub(crate) fn bytes_as_slice(buffer: &Bytes) -> (slice: &[u8])
    ensures
        slice@ == content(*buffer),
{
    buffer.as_ref()
}

/// The SHA-256 digest of `data`.
pub uninterp spec fn sha256_digest(data: Seq<u8>) -> Seq<u8>;

/// `<Sha256 as Digest>::digest`: a digest of 32 bytes that depends on the data alone.
#[verifier::external_body]
pub(crate) fn sha256(data: &[u8]) -> (digest: Vec<u8>)
    ensures
        digest@ == sha256_digest(data@),
        digest@.len() == 32,
{
    Sha256::digest(data).to_vec()
}

/// The text of the error that std gives for bytes that are not UTF-8.
pub uninterp spec fn utf8_error_text(bytes: Seq<u8>) -> Seq<char>;

/// `core::str::from_utf8`: succeeds exactly on valid UTF-8, with the text that the bytes
/// encode. The error is handed on as its text, which depends on the bytes alone.
#[verifier::external_body]
pub(crate) fn text_from_utf8(bytes: &[u8]) -> (text: Result<String, String>)
    ensures
        text is Ok <==> utf8::valid_utf8(bytes@),
        text matches Ok(value) ==> value@ == utf8::decode_utf8(bytes@),
        text matches Err(message) ==> message@ == utf8_error_text(bytes@),
{
    match core::str::from_utf8(bytes) {
        Ok(value) => Ok(value.to_owned()),
        Err(error) => Err(error.to_string()),
    }
}

/// `libc::PATH_MAX`: a length in bytes, from 260 to 4096 over the systems for which libc has it.
/// Which one it is depends on the system, and is left open.
#[verifier::external_body]
pub(crate) fn path_max() -> (limit: usize)
    ensures
        260 <= limit <= 4096,
{
    libc::PATH_MAX as usize
}

/// `Vec::capacity`: at least the length. How much more it is depends on the allocator, and is left
/// open.
#[verifier::external_body]
pub(crate) fn vec_capacity(buffer: &Vec<u8>) -> (capacity: usize)
    ensures
        capacity >= buffer@.len(),
{
    buffer.capacity()
}

} // verus!
