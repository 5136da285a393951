//! A cursor over an encoded cache envelope.

use crate::big_endian;
use crate::error;
use crate::error::{CacheError, CacheResult, ErrorKind, Failure};
use crate::outside;
use vstd::prelude::*;
use vstd::utf8;

verus! {

/// The failure that malformed envelope bytes are answered with.
pub open spec fn malformed(message: Seq<char>) -> Failure {
    error::failure(ErrorKind::InvalidData, message)
}

/// The `length` bytes of `input` that start at `at`.
pub open spec fn chunk(input: Seq<u8>, at: int, length: int) -> Result<Seq<u8>, Failure> {
    if at + length > usize::MAX {
        Err(malformed("cache envelope offset overflow"@))
    } else if at + length > input.len() {
        Err(malformed("truncated cache envelope"@))
    } else {
        Ok(input.subrange(at, at + length))
    }
}

/// The unsigned number that the `width` bytes at `at` write.
pub open spec fn number(input: Seq<u8>, at: int, width: int) -> Result<nat, Failure> {
    match chunk(input, at, width) {
        Ok(bytes) => Ok(big_endian::value(bytes)),
        Err(failure) => Err(failure),
    }
}

/// The text at `at`, which follows its length in bytes, and where the text ends.
pub open spec fn string(input: Seq<u8>, at: int) -> Result<(Seq<char>, int), Failure> {
    match number(input, at, 4) {
        Err(failure) => Err(failure),
        Ok(length) => match chunk(input, at + 4, length as int) {
            Err(failure) => Err(failure),
            Ok(bytes) => if utf8::valid_utf8(bytes) {
                Ok((utf8::decode_utf8(bytes), at + 4 + length))
            } else {
                Err(malformed(outside::utf8_error_text(bytes)))
            },
        },
    }
}

/// Where a reader stands after it has tried to read a text at `at`.
pub open spec fn string_stop(input: Seq<u8>, at: int) -> int {
    match number(input, at, 4) {
        Err(_) => at,
        Ok(length) => match chunk(input, at + 4, length as int) {
            Err(_) => at + 4,
            Ok(_) => at + 4 + length,
        },
    }
}

/// Reads integers, byte runs and texts from the front of a byte slice.
pub struct BinaryReader<'a> {
    value: &'a [u8],
    position: usize,
}

impl<'a> BinaryReader<'a> {
    /// The bytes that are read.
    pub closed spec fn input(self) -> Seq<u8> {
        self.value@
    }

    /// The index of the next byte.
    pub closed spec fn at(self) -> int {
        self.position as int
    }

    /// What a read of `width` bytes does to the reader: it moves on only where it succeeds.
    pub open spec fn moved(self, before: BinaryReader<'a>, width: int) -> bool {
        &&& self.input() == before.input()
        &&& self.at() == if chunk(before.input(), before.at(), width) is Ok {
            before.at() + width
        } else {
            before.at()
        }
    }

    pub fn new(value: &'a [u8]) -> (reader: Self)
        ensures
            reader.input() == value@,
            reader.at() == 0,
    {
        BinaryReader { value, position: 0 }
    }

    pub fn is_finished(&self) -> (finished: bool)
        ensures
            finished == (self.at() == self.input().len()),
    {
        self.position == self.value.len()
    }

    pub fn position(&self) -> (position: usize)
        ensures
            position == self.at(),
    {
        self.position
    }

    pub fn read_bytes(&mut self, len: usize) -> (bytes: CacheResult<&'a [u8]>)
        ensures
            error::outcome(bytes) == chunk(old(self).input(), old(self).at(), len as int),
            final(self).moved(*old(self), len as int),
    {
        match self.position.checked_add(len) {
            None => Err(CacheError::InvalidData("cache envelope offset overflow".to_owned())),
            Some(end) => {
                if end > self.value.len() {
                    return Err(CacheError::InvalidData("truncated cache envelope".to_owned()));
                }
                let value: &'a [u8] = self.value;
                let bytes = &value[self.position..end];
                self.position = end;
                Ok(bytes)
            },
        }
    }

    pub fn read_u8(&mut self) -> (byte: CacheResult<u8>)
        ensures
            error::outcome(byte) == (match chunk(old(self).input(), old(self).at(), 1) {
                Ok(bytes) => Ok(bytes[0]),
                Err(failure) => Err(failure),
            }),
            final(self).moved(*old(self), 1),
    {
        match self.read_bytes(1) {
            Ok(bytes) => Ok(bytes[0]),
            Err(error) => Err(error),
        }
    }

    pub fn read_u32(&mut self) -> (read: CacheResult<u32>)
        ensures
            match number(old(self).input(), old(self).at(), 4) {
                Ok(value) => read matches Ok(got) && got == value,
                Err(failure) => read matches Err(error) && error@ == failure,
            },
            final(self).moved(*old(self), 4),
    {
        match self.read_bytes(4) {
            Ok(bytes) => Ok(big_endian::u32_from(bytes)),
            Err(error) => Err(error),
        }
    }

    pub fn read_u64(&mut self) -> (read: CacheResult<u64>)
        ensures
            match number(old(self).input(), old(self).at(), 8) {
                Ok(value) => read matches Ok(got) && got == value,
                Err(failure) => read matches Err(error) && error@ == failure,
            },
            final(self).moved(*old(self), 8),
    {
        match self.read_bytes(8) {
            Ok(bytes) => Ok(big_endian::u64_from(bytes)),
            Err(error) => Err(error),
        }
    }

    pub fn read_i64(&mut self) -> (read: CacheResult<i64>)
        ensures
            match number(old(self).input(), old(self).at(), 8) {
                Ok(value) => read matches Ok(got) && got == big_endian::signed(value),
                Err(failure) => read matches Err(error) && error@ == failure,
            },
            final(self).moved(*old(self), 8),
    {
        match self.read_bytes(8) {
            Ok(bytes) => Ok(big_endian::i64_from(bytes)),
            Err(error) => Err(error),
        }
    }

    pub fn read_string(&mut self) -> (text: CacheResult<String>)
        ensures
            error::outcome(text) == (match string(old(self).input(), old(self).at()) {
                Ok((value, _)) => Ok(value),
                Err(failure) => Err(failure),
            }),
            final(self).input() == old(self).input(),
            final(self).at() == string_stop(old(self).input(), old(self).at()),
    {
        let len: usize = match self.read_u32() {
            Ok(len) => len as usize,
            Err(error) => return Err(error),
        };
        let bytes = match self.read_bytes(len) {
            Ok(bytes) => bytes,
            Err(error) => return Err(error),
        };
        match outside::text_from_utf8(bytes) {
            Ok(text) => Ok(text),
            Err(message) => Err(CacheError::InvalidData(message)),
        }
    }
}

// Laws.

/// As many bytes as are asked for are read exactly where the input has them.
pub proof fn every_byte_of_the_input_is_read(input: Seq<u8>, at: int, length: int)
    requires
        0 <= at,
        0 <= length,
        input.len() <= usize::MAX,
    ensures
        chunk(input, at, length) is Ok <==> at + length <= input.len(),
        chunk(input, at, length) matches Ok(bytes) ==> bytes == input.subrange(at, at + length),
        chunk(input, at, length) matches Err(failure) ==> failure.kind == ErrorKind::InvalidData,
{
}

/// A text is read exactly where the input has four bytes of length and as many bytes of valid
/// UTF-8 behind them.
pub proof fn every_text_of_the_input_is_read(input: Seq<u8>, at: int)
    requires
        0 <= at,
        at + 4 <= input.len() <= usize::MAX,
    ensures
        ({
            let length = input[at] * 16777216 + input[at + 1] * 65536 + input[at + 2] * 256
                + input[at + 3];
            let text = string(input, at);
            &&& text is Ok <==> at + 4 + length <= input.len() && utf8::valid_utf8(
                input.subrange(at + 4, at + 4 + length),
            )
            &&& text matches Ok((value, end)) ==> {
                &&& end == at + 4 + length
                &&& value == utf8::decode_utf8(input.subrange(at + 4, end))
            }
            &&& text matches Err(failure) ==> failure.kind == ErrorKind::InvalidData
        }),
{
    let four = input.subrange(at, at + 4);
    big_endian::four_digits(four);
    assert(four[0] == input[at]);
    assert(four[1] == input[at + 1]);
    assert(four[2] == input[at + 2]);
    assert(four[3] == input[at + 3]);
}

} // verus!
