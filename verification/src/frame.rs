//! Native keys and the frame that every stored value is wrapped in.
//!
//! A frame is `OVMS`, a version byte, the payload length as four big-endian bytes, and the
//! payload. What follows the payload is ignored, since a shorter value that replaces a longer
//! one leaves the tail of the longer one behind it.

use crate::big_endian;
use crate::error;
use crate::error::{ErrorKind, Failure, MemStoreStoreError};
use crate::outside;
use crate::text;
use bytes::Bytes;
use std::ops::Range;
use vstd::prelude::*;
use vstd::string::StringExecFns;
use vstd::utf8;

verus! {

/// The bytes in front of the payload.
pub const HEADER_LEN: usize = 9;

/// The frame version that is written and the only one that is read.
pub const VERSION: u8 = 1;

/// The longest key, in bytes, that is stored under its own name.
pub const MAX_NATIVE_KEY_LEN: usize = 127;

// Keys.

/// The answer to an empty key.
pub open spec fn empty_key() -> Failure {
    error::failure(ErrorKind::InvalidArgument, "MemStore cache key must not be empty"@)
}

/// What `validate_key` says of a key.
pub open spec fn key_check(key: Seq<char>) -> Result<(), Failure> {
    if key.len() == 0 {
        Err(empty_key())
    } else {
        Ok(())
    }
}

/// The name under which a key with the given digest is stored.
pub open spec fn stored_name(key: Seq<char>, digest: Seq<u8>) -> Seq<char> {
    if utf8::encode_utf8(key).len() <= MAX_NATIVE_KEY_LEN {
        key
    } else {
        "ovms:h:"@ + text::hex(digest)
    }
}

/// What `native_key` returns for a key.
pub open spec fn native_key_of(key: Seq<char>) -> Result<Seq<char>, Failure> {
    if key.len() == 0 {
        Err(empty_key())
    } else {
        Ok(stored_name(key, outside::sha256_digest(utf8::encode_utf8(key))))
    }
}

/// Refuses the empty key.
pub fn validate_key(key: &str) -> (checked: Result<(), MemStoreStoreError>)
    ensures
        error::settled(checked) == key_check(key@),
{
    if key.is_empty() {
        Err(MemStoreStoreError::InvalidArgument("MemStore cache key must not be empty".to_owned()))
    } else {
        Ok(())
    }
}

/// The name of a key that is too long to be stored under its own.
pub fn hashed_key(digest: &[u8]) -> (name: String)
    ensures
        name@ == "ovms:h:"@ + text::hex(digest@),
{
    let mut encoded = "ovms:h:".to_owned();
    text::push_hex(&mut encoded, digest);
    encoded
}

/// Whether a stored name has 1 to 127 bytes.
pub open spec fn name_fits(name: Seq<char>) -> bool {
    1 <= utf8::encode_utf8(name).len() <= MAX_NATIVE_KEY_LEN
}

/// Whether all stored names have 1 to 127 bytes.
pub open spec fn names_fit(names: Seq<Seq<char>>) -> bool {
    forall|i: int| 0 <= i < names.len() ==> name_fits(#[trigger] names[i])
}

/// The name under which a key is stored: the key itself, or its digest where it is too long. It
/// has 1 to 127 bytes, and 71 where it is a digest.
pub fn native_key(key: &str) -> (name: Result<String, MemStoreStoreError>)
    ensures
        error::outcome(name) == native_key_of(key@),
        name matches Ok(got) ==> name_fits(got@),
        name matches Ok(got) ==> utf8::encode_utf8(key@).len() > MAX_NATIVE_KEY_LEN
            ==> utf8::encode_utf8(got@).len() == 71,
{
    match validate_key(key) {
        Ok(_) => {},
        Err(error) => return Err(error),
    }
    if key.as_bytes().len() <= MAX_NATIVE_KEY_LEN {
        proof {
            no_text_without_bytes(key@);
        }
        return Ok(key.to_owned());
    }
    let digest = outside::sha256(key.as_bytes());
    proof {
        stored_names_are_short(key@, digest@);
    }
    Ok(hashed_key(digest.as_slice()))
}

/// The names of several keys, or the answer to the first key that has none.
pub open spec fn native_keys_of(keys: Seq<Seq<char>>) -> Result<Seq<Seq<char>>, Failure> {
    if exists|i: int| 0 <= i < keys.len() && (#[trigger] keys[i]).len() == 0 {
        Err(empty_key())
    } else {
        Ok(
            Seq::new(
                keys.len(),
                |i: int| stored_name(keys[i], outside::sha256_digest(utf8::encode_utf8(keys[i]))),
            ),
        )
    }
}

/// The texts of a list of strings.
pub open spec fn texts(keys: Seq<String>) -> Seq<Seq<char>> {
    Seq::new(keys.len(), |i: int| keys[i]@)
}

/// The names under which several keys are stored.
pub fn native_keys(keys: &[String]) -> (names: Result<Vec<String>, MemStoreStoreError>)
    ensures
        match native_keys_of(texts(keys@)) {
            Ok(expected) => names matches Ok(got) && texts(got@) == expected,
            Err(failure) => names matches Err(error) && error@ == failure,
        },
        names matches Ok(got) ==> names_fit(texts(got@)),
{
    let mut names: Vec<String> = Vec::new();
    let mut index: usize = 0;
    while index < keys.len()
        invariant
            index <= keys@.len(),
            names@.len() == index,
            forall|i: int| 0 <= i < index ==> (#[trigger] texts(keys@)[i]).len() > 0,
            forall|i: int| 0 <= i < index ==> name_fits((#[trigger] names@[i])@),
            forall|i: int|
                0 <= i < index ==> (#[trigger] names@[i])@ == stored_name(
                    keys@[i]@,
                    outside::sha256_digest(utf8::encode_utf8(keys@[i]@)),
                ),
        decreases keys@.len() - index,
    {
        assert(texts(keys@)[index as int] == keys@[index as int]@);
        match native_key(keys[index].as_str()) {
            Ok(name) => names.push(name),
            Err(error) => {
                assert(texts(keys@)[index as int].len() == 0);
                return Err(error);
            },
        }
        index = index + 1;
    }
    assert(texts(names@) =~= native_keys_of(texts(keys@))->Ok_0);
    Ok(names)
}

// Frames.

/// `OVMS`.
pub open spec fn magic() -> Seq<u8> {
    seq![0x4fu8, 0x56u8, 0x4du8, 0x53u8]
}

/// The frame around a payload.
pub open spec fn frame_bytes(payload: Seq<u8>) -> Seq<u8> {
    magic().push(VERSION) + big_endian::digits(payload.len(), 4) + payload
}

/// The answer to a payload over the configured limit.
pub open spec fn payload_over_limit(length: nat, limit: nat) -> Failure {
    error::failure(
        ErrorKind::InvalidArgument,
        "MemStore payload is "@ + text::decimal(length) + " bytes, exceeding the "@ + text::decimal(
            limit,
        ) + " byte limit"@,
    )
}

/// What `encode_value` returns for a payload.
pub open spec fn encoded_value(payload: Seq<u8>, max_payload_size: nat) -> Result<
    Seq<u8>,
    Failure,
> {
    if payload.len() > max_payload_size {
        Err(payload_over_limit(payload.len(), max_payload_size))
    } else if payload.len() > u32::MAX {
        Err(error::failure(ErrorKind::InvalidArgument, "MemStore payload does not fit in u32"@))
    } else {
        Ok(frame_bytes(payload))
    }
}

/// The failure that a malformed frame is answered with.
pub open spec fn bad_frame(message: Seq<char>) -> Failure {
    error::failure(ErrorKind::InvalidData, message)
}

/// The payload length that a frame header announces.
pub open spec fn announced_length(framed: Seq<u8>, max_payload_size: nat) -> Result<nat, Failure> {
    if framed.len() < HEADER_LEN {
        Err(bad_frame("MemStore value frame is truncated"@))
    } else if framed.subrange(0, 4) != magic() {
        Err(bad_frame("MemStore value frame has invalid magic"@))
    } else if framed[4] != VERSION {
        Err(
            bad_frame(
                "MemStore value frame version "@ + text::decimal(framed[4] as nat)
                    + " is unsupported"@,
            ),
        )
    } else {
        let length = big_endian::value(framed.subrange(5, 9));
        if length > max_payload_size {
            Err(
                bad_frame(
                    "MemStore framed payload is "@ + text::decimal(length)
                        + " bytes, exceeding the "@ + text::decimal(max_payload_size)
                        + " byte limit"@,
                ),
            )
        } else {
            Ok(length)
        }
    }
}

/// Where the payload of a frame ends.
pub open spec fn payload_end(framed: Seq<u8>, max_payload_size: nat) -> Result<int, Failure> {
    match announced_length(framed, max_payload_size) {
        Err(failure) => Err(failure),
        Ok(length) => if HEADER_LEN + length > usize::MAX {
            Err(bad_frame("MemStore value frame length overflowed"@))
        } else if framed.len() < HEADER_LEN + length {
            Err(bad_frame("MemStore value frame payload is truncated"@))
        } else {
            Ok(HEADER_LEN + length)
        },
    }
}

/// The payload of a frame.
pub open spec fn payload_of(framed: Seq<u8>, max_payload_size: nat) -> Result<Seq<u8>, Failure> {
    match payload_end(framed, max_payload_size) {
        Err(failure) => Err(failure),
        Ok(end) => Ok(framed.subrange(HEADER_LEN as int, end)),
    }
}

/// The message for a payload over the configured limit.
pub fn over_limit_message(length: usize, limit: usize) -> (message: String)
    ensures
        message@ == payload_over_limit(length as nat, limit as nat).message,
{
    let mut message = "MemStore payload is ".to_owned();
    text::push_decimal(&mut message, length as u64);
    message.append(" bytes, exceeding the ");
    text::push_decimal(&mut message, limit as u64);
    message.append(" byte limit");
    message
}

/// Wraps a payload in a frame.
pub fn encode_value(payload: &[u8], max_payload_size: usize) -> (framed: Result<
    Vec<u8>,
    MemStoreStoreError,
>)
    ensures
        error::outcome(framed) == encoded_value(payload@, max_payload_size as nat),
{
    if payload.len() > max_payload_size {
        return Err(
            MemStoreStoreError::InvalidArgument(
                over_limit_message(payload.len(), max_payload_size),
            ),
        );
    }
    if payload.len() > u32::MAX as usize {
        return Err(
            MemStoreStoreError::InvalidArgument("MemStore payload does not fit in u32".to_owned()),
        );
    }
    let mut framed: Vec<u8> = Vec::new();
    framed.push(0x4f);
    framed.push(0x56);
    framed.push(0x4d);
    framed.push(0x53);
    framed.push(VERSION);
    big_endian::push_u32(&mut framed, payload.len() as u32);
    text::push_bytes(&mut framed, payload);
    assert(framed@ =~= frame_bytes(payload@));
    Ok(framed)
}

/// The payload of a frame, copied.
pub fn decode_value(framed: &[u8], max_payload_size: usize) -> (payload: Result<
    Vec<u8>,
    MemStoreStoreError,
>)
    ensures
        error::outcome(payload) == payload_of(framed@, max_payload_size as nat),
{
    match payload_range(framed, max_payload_size) {
        Ok(range) => Ok(vstd::slice::slice_to_vec(&framed[range.start..range.end])),
        Err(error) => Err(error),
    }
}

/// The payload of a frame, as a part of the frame's own buffer.
pub fn decode_owned_value(framed: Bytes, max_payload_size: usize) -> (payload: Result<
    Bytes,
    MemStoreStoreError,
>)
    ensures
        match payload_of(outside::content(framed), max_payload_size as nat) {
            Ok(expected) => payload matches Ok(got) && outside::content(got) == expected,
            Err(failure) => payload matches Err(error) && error@ == failure,
        },
{
    match payload_range(outside::bytes_as_slice(&framed), max_payload_size) {
        Ok(range) => Ok(outside::bytes_slice(&framed, range.start, range.end)),
        Err(error) => Err(error),
    }
}

/// The payload length that a frame header announces.
pub fn payload_len(framed: &[u8], max_payload_size: usize) -> (length: Result<
    usize,
    MemStoreStoreError,
>)
    ensures
        match announced_length(framed@, max_payload_size as nat) {
            Ok(expected) => length matches Ok(got) && got == expected,
            Err(failure) => length matches Err(error) && error@ == failure,
        },
{
    if framed.len() < HEADER_LEN {
        return invalid_data("MemStore value frame is truncated".to_owned());
    }
    assert(framed@.subrange(0, 4)[0] == framed@[0]);
    assert(framed@.subrange(0, 4)[1] == framed@[1]);
    assert(framed@.subrange(0, 4)[2] == framed@[2]);
    assert(framed@.subrange(0, 4)[3] == framed@[3]);
    if !(framed[0] == 0x4f && framed[1] == 0x56 && framed[2] == 0x4d && framed[3] == 0x53) {
        return invalid_data("MemStore value frame has invalid magic".to_owned());
    }
    assert(framed@.subrange(0, 4) =~= magic());
    if framed[4] != VERSION {
        let mut message = "MemStore value frame version ".to_owned();
        text::push_decimal(&mut message, framed[4] as u64);
        message.append(" is unsupported");
        return invalid_data(message);
    }
    let payload_len: usize = big_endian::u32_from(&framed[5..9]) as usize;
    if payload_len > max_payload_size {
        let mut message = "MemStore framed payload is ".to_owned();
        text::push_decimal(&mut message, payload_len as u64);
        message.append(" bytes, exceeding the ");
        text::push_decimal(&mut message, max_payload_size as u64);
        message.append(" byte limit");
        return invalid_data(message);
    }
    Ok(payload_len)
}

/// Where the payload of a frame lies.
pub fn payload_range(framed: &[u8], max_payload_size: usize) -> (range: Result<
    Range<usize>,
    MemStoreStoreError,
>)
    ensures
        match payload_end(framed@, max_payload_size as nat) {
            Ok(end) => {
                &&& range matches Ok(found)
                &&& found.start == HEADER_LEN
                &&& found.end == end
            },
            Err(failure) => range matches Err(error) && error@ == failure,
        },
{
    let payload_len: usize = match payload_len(framed, max_payload_size) {
        Ok(length) => length,
        Err(error) => return Err(error),
    };
    let logical_len: usize = match HEADER_LEN.checked_add(payload_len) {
        Some(length) => length,
        None => return invalid_data("MemStore value frame length overflowed".to_owned()),
    };
    if framed.len() < logical_len {
        return invalid_data("MemStore value frame payload is truncated".to_owned());
    }
    Ok(HEADER_LEN..logical_len)
}

/// An `InvalidData` error with the given message.
pub fn invalid_data<T>(message: String) -> (refused: Result<T, MemStoreStoreError>)
    ensures
        error::settled(refused) == Err::<T, Failure>(bad_frame(message@)),
{
    Err(MemStoreStoreError::InvalidData(message))
}

// Laws.

proof fn no_text_without_bytes(value: Seq<char>)
    ensures
        value.len() == 0 <==> utf8::encode_utf8(value).len() == 0,
{
    utf8::encode_utf8_decode_utf8(value);
    if utf8::encode_utf8(value).len() == 0 {
        assert(utf8::encode_utf8(value) =~= Seq::<u8>::empty());
        utf8::encode_utf8_decode_utf8(Seq::<char>::empty());
        assert(utf8::encode_utf8(Seq::<char>::empty()) =~= Seq::<u8>::empty());
    }
}

proof fn header_of(payload: Seq<u8>)
    requires
        payload.len() <= u32::MAX,
    ensures
        frame_bytes(payload).len() == HEADER_LEN + payload.len(),
        frame_bytes(payload).subrange(0, 4) == magic(),
        frame_bytes(payload)[4] == VERSION,
        frame_bytes(payload).subrange(5, 9) == big_endian::digits(payload.len(), 4),
        big_endian::value(big_endian::digits(payload.len(), 4)) == payload.len(),
        frame_bytes(payload).skip(HEADER_LEN as int) == payload,
{
    big_endian::powers();
    big_endian::digits_length(payload.len(), 4);
    big_endian::value_of_digits(payload.len(), 4);
    let framed = frame_bytes(payload);
    assert(framed.subrange(0, 4) =~= magic());
    assert(framed.subrange(5, 9) =~= big_endian::digits(payload.len(), 4));
    assert(framed.skip(9) =~= payload);
}

/// Decoding a frame gives the payload back, whatever stands behind the frame: also where a
/// shorter value was written over a longer one.
pub proof fn decode_undoes_encode(payload: Seq<u8>, tail: Seq<u8>, max_payload_size: nat)
    requires
        encoded_value(payload, max_payload_size) is Ok,
        HEADER_LEN + payload.len() <= usize::MAX,
    ensures
        payload_of(
            encoded_value(payload, max_payload_size)->Ok_0 + tail,
            max_payload_size,
        ) == Ok::<Seq<u8>, Failure>(payload),
{
    let framed = frame_bytes(payload);
    let stored = framed + tail;
    header_of(payload);
    assert(stored.subrange(0, 4) =~= framed.subrange(0, 4));
    assert(stored.subrange(5, 9) =~= framed.subrange(5, 9));
    assert(stored.subrange(9, 9int + payload.len()) =~= framed.skip(9));
}

/// No proper prefix of a frame decodes.
pub proof fn prefixes_are_refused(payload: Seq<u8>, length: int, max_payload_size: nat)
    requires
        payload.len() <= u32::MAX,
        0 <= length < frame_bytes(payload).len(),
    ensures
        payload_of(frame_bytes(payload).take(length), max_payload_size) is Err,
{
    let framed = frame_bytes(payload);
    let cut = framed.take(length);
    header_of(payload);
    if length >= HEADER_LEN {
        assert(cut.subrange(0, 4) =~= framed.subrange(0, 4));
        assert(cut.subrange(5, 9) =~= framed.subrange(5, 9));
    }
}

/// Only what starts with a frame decodes.
pub proof fn decoded_values_were_framed(framed: Seq<u8>, max_payload_size: nat)
    requires
        payload_of(framed, max_payload_size) is Ok,
    ensures
        frame_bytes(payload_of(framed, max_payload_size)->Ok_0).is_prefix_of(framed),
        payload_of(framed, max_payload_size)->Ok_0.len() <= max_payload_size,
{
    let payload = payload_of(framed, max_payload_size)->Ok_0;
    let length = framed.subrange(5, 9);
    big_endian::digits_of_value(length);
    assert(framed.subrange(0, 4)[0] == framed[0]);
    assert(framed.subrange(0, 4)[1] == framed[1]);
    assert(framed.subrange(0, 4)[2] == framed[2]);
    assert(framed.subrange(0, 4)[3] == framed[3]);
    assert(frame_bytes(payload) =~= framed.take(HEADER_LEN + payload.len()));
}

/// Every stored name is a key of 1 to 127 bytes, 71 where it is a digest, and is stored under
/// itself.
pub proof fn stored_names_are_short(key: Seq<char>, digest: Seq<u8>)
    requires
        key.len() > 0,
        digest.len() == 32,
    ensures
        name_fits(stored_name(key, digest)),
        utf8::encode_utf8(key).len() > MAX_NATIVE_KEY_LEN ==> utf8::encode_utf8(
            stored_name(key, digest),
        ).len() == 71,
        forall|other: Seq<u8>|
            #[trigger] stored_name(stored_name(key, digest), other) == stored_name(key, digest),
{
    no_text_without_bytes(key);
    if utf8::encode_utf8(key).len() > MAX_NATIVE_KEY_LEN {
        let name = "ovms:h:"@ + text::hex(digest);
        reveal_strlit("ovms:h:");
        text::hex_length(digest);
        hex_is_ascii(digest);
        assert(utf8::is_ascii_chars("ovms:h:"@));
        utf8::is_ascii_chars_concat(name, "ovms:h:"@, text::hex(digest));
        utf8::is_ascii_chars_encode_utf8(name);
    }
}

/// Long keys with different digests are stored under different names.
pub proof fn digests_keep_long_keys_apart(
    left: Seq<char>,
    right: Seq<char>,
    left_digest: Seq<u8>,
    right_digest: Seq<u8>,
)
    requires
        utf8::encode_utf8(left).len() > MAX_NATIVE_KEY_LEN,
        utf8::encode_utf8(right).len() > MAX_NATIVE_KEY_LEN,
        left_digest != right_digest,
    ensures
        stored_name(left, left_digest) != stored_name(right, right_digest),
{
    let prefix = "ovms:h:"@;
    if prefix + text::hex(left_digest) == prefix + text::hex(right_digest) {
        assert((prefix + text::hex(left_digest)).skip(prefix.len() as int) =~= text::hex(
            left_digest,
        ));
        assert((prefix + text::hex(right_digest)).skip(prefix.len() as int) =~= text::hex(
            right_digest,
        ));
        text::hex_injective(left_digest, right_digest);
    }
}

/// A key of 1 to 127 bytes is stored under itself, a longer one under `ovms:h:` and the
/// hexadecimal SHA-256 digest of all its bytes, and the empty key has no name.
pub proof fn long_keys_are_named_by_the_digest_of_all_their_bytes(key: Seq<char>)
    ensures
        utf8::encode_utf8(key).len() > 127 ==> native_key_of(key) == Ok::<Seq<char>, Failure>(
            "ovms:h:"@ + text::hex(outside::sha256_digest(utf8::encode_utf8(key))),
        ),
        1 <= utf8::encode_utf8(key).len() <= 127 ==> native_key_of(key) == Ok::<
            Seq<char>,
            Failure,
        >(key),
        key.len() == 0 <==> native_key_of(key) is Err,
        native_key_of(key) matches Err(failure) ==> failure.kind == ErrorKind::InvalidArgument,
{
    no_text_without_bytes(key);
}

/// Two keys share a name only where they are the same key, where both are long and their bytes
/// have the same digest, or where one is long and the other one spells its name out.
pub proof fn only_equal_digests_share_a_name(left: Seq<char>, right: Seq<char>)
    requires
        native_key_of(left) is Ok,
        native_key_of(left) == native_key_of(right),
    ensures
        utf8::encode_utf8(left).len() > 127 && utf8::encode_utf8(right).len() > 127
            ==> outside::sha256_digest(utf8::encode_utf8(left)) == outside::sha256_digest(
            utf8::encode_utf8(right),
        ),
        utf8::encode_utf8(left).len() <= 127 && utf8::encode_utf8(right).len() <= 127 ==> left
            == right,
        utf8::encode_utf8(left).len() <= 127 && utf8::encode_utf8(right).len() > 127 ==> left
            == "ovms:h:"@ + text::hex(outside::sha256_digest(utf8::encode_utf8(right))),
{
    let left_digest = outside::sha256_digest(utf8::encode_utf8(left));
    let right_digest = outside::sha256_digest(utf8::encode_utf8(right));
    if utf8::encode_utf8(left).len() > 127 && utf8::encode_utf8(right).len() > 127
        && left_digest != right_digest {
        digests_keep_long_keys_apart(left, right, left_digest, right_digest);
    }
}

/// Several keys have names exactly where each has one, and then each has the name that it has
/// alone.
pub proof fn keys_are_named_one_by_one(keys: Seq<Seq<char>>)
    ensures
        native_keys_of(keys) is Ok <==> forall|i: int|
            0 <= i < keys.len() ==> (#[trigger] keys[i]).len() > 0,
        native_keys_of(keys) matches Ok(names) ==> {
            &&& names.len() == keys.len()
            &&& forall|i: int|
                0 <= i < keys.len() ==> native_key_of(keys[i]) == Ok::<Seq<char>, Failure>(
                    #[trigger] names[i],
                )
        },
        native_keys_of(keys) matches Err(failure) ==> failure.kind == ErrorKind::InvalidArgument,
{
}

proof fn hex_is_ascii(bytes: Seq<u8>)
    ensures
        utf8::is_ascii_chars(text::hex(bytes)),
    decreases bytes.len(),
{
    if bytes.len() > 0 {
        hex_is_ascii(bytes.drop_last());
        digit_is_ascii(bytes.last() as int / 16);
        digit_is_ascii(bytes.last() as int % 16);
        let whole = text::hex(bytes);
        let front = text::hex(bytes.drop_last());
        assert forall|i: int| 0 <= i < whole.len() implies '\0' <= #[trigger] whole[i]
            <= '\u{7f}' by {
            if i < front.len() {
                assert(whole[i] == front[i]);
            }
        }
    }
}

proof fn digit_is_ascii(value: int)
    requires
        0 <= value < 16,
    ensures
        '\0' <= text::hex_digit(value) <= '\u{7f}',
{
}

/// Texts are seen as they are, one by one.
pub proof fn texts_are_seen_whole(keys: Seq<String>, index: int)
    requires
        0 <= index < keys.len(),
    ensures
        texts(keys).len() == keys.len(),
        texts(keys)[index] == keys[index]@,
{
}

/// A key passes exactly where it is not empty.
pub proof fn every_key_but_the_empty_one_passes(key: Seq<char>)
    ensures
        key_check(key) is Ok <==> key.len() > 0,
        key_check(key) matches Err(failure) ==> {
            &&& failure.kind == ErrorKind::InvalidArgument
            &&& failure.message == "MemStore cache key must not be empty"@
        },
{
}

/// A name can be stored exactly where it has 1 to 127 bytes, and every name of a key can.
pub proof fn names_have_up_to_127_bytes(name: Seq<char>, names: Seq<Seq<char>>, index: int)
    ensures
        name_fits(name) <==> 1 <= utf8::encode_utf8(name).len() <= 127,
        names_fit(names) && 0 <= index < names.len() ==> 1 <= utf8::encode_utf8(names[index]).len()
            <= 127,
{
    if names_fit(names) && 0 <= index < names.len() {
        assert(name_fits(names[index]));
    }
}

} // verus!
