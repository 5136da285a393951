//! Unsigned and signed integers as big-endian bytes.

use vstd::prelude::*;

verus! {

/// The number that `bytes` write in base 256, the most significant byte first.
pub open spec fn value(bytes: Seq<u8>) -> nat
    decreases bytes.len(),
{
    if bytes.len() == 0 {
        0
    } else {
        value(bytes.drop_last()) * 256 + bytes.last() as nat
    }
}

/// The low `width` base-256 digits of `number`, the most significant first.
pub open spec fn digits(number: nat, width: nat) -> Seq<u8>
    decreases width,
{
    if width == 0 {
        Seq::empty()
    } else {
        digits(number / 256, (width - 1) as nat).push((number % 256) as u8)
    }
}

/// The two's complement bit pattern of `number`, read as an unsigned number.
pub open spec fn pattern(number: i64) -> nat {
    if number >= 0 {
        number as nat
    } else {
        (number + 0x1_0000_0000_0000_0000) as nat
    }
}

/// The signed number whose two's complement bit pattern is `bits`.
pub open spec fn signed(bits: nat) -> int {
    if bits < 0x8000_0000_0000_0000 {
        bits as int
    } else {
        bits - 0x1_0000_0000_0000_0000
    }
}

/// There are `width` digits.
pub proof fn digits_length(number: nat, width: nat)
    ensures
        digits(number, width).len() == width,
    decreases width,
{
    if width > 0 {
        digits_length(number / 256, (width - 1) as nat);
    }
}

/// Four bytes write the number that they make up in powers of 256, the first byte the most
/// significant.
pub proof fn four_digits(bytes: Seq<u8>)
    requires
        bytes.len() == 4,
    ensures
        value(bytes) == bytes[0] * 16777216 + bytes[1] * 65536 + bytes[2] * 256 + bytes[3],
{
    let three = bytes.drop_last();
    let two = three.drop_last();
    let one = two.drop_last();
    assert(value(one.drop_last()) == 0);
    assert(value(one) == bytes[0]);
    assert(value(two) == bytes[0] * 256 + bytes[1]);
    assert(value(three) == bytes[0] * 65536 + bytes[1] * 256 + bytes[2]);
}

/// Eight bytes write the number that they make up in powers of 256, the first byte the most
/// significant.
pub proof fn eight_digits(bytes: Seq<u8>)
    requires
        bytes.len() == 8,
    ensures
        value(bytes) == (bytes[0] * 16777216 + bytes[1] * 65536 + bytes[2] * 256 + bytes[3])
            * 4294967296 + (bytes[4] * 16777216 + bytes[5] * 65536 + bytes[6] * 256 + bytes[7]),
{
    let seven = bytes.drop_last();
    let six = seven.drop_last();
    let five = six.drop_last();
    let four = five.drop_last();
    four_digits(four);
    assert(value(five) == value(four) * 256 + bytes[4]);
    assert(value(six) == value(four) * 65536 + bytes[4] * 256 + bytes[5]);
    assert(value(seven) == value(four) * 16777216 + bytes[4] * 65536 + bytes[5] * 256 + bytes[6]);
}

/// Reading the digits of a number gives the number back, where the digits suffice.
pub proof fn value_of_digits(number: nat, width: nat)
    requires
        number < vstd::arithmetic::power::pow(256, width),
    ensures
        value(digits(number, width)) == number,
    decreases width,
{
    vstd::arithmetic::power::lemma_pow0(256);
    if width > 0 {
        let rest = (width - 1) as nat;
        assert(vstd::arithmetic::power::pow(256, width) == 256 * vstd::arithmetic::power::pow(
            256,
            rest,
        )) by {
            reveal(vstd::arithmetic::power::pow);
        }
        value_of_digits(number / 256, rest);
        assert(digits(number, width).drop_last() =~= digits(number / 256, rest));
    }
}

/// Writing the number that bytes stand for gives the bytes back.
pub proof fn digits_of_value(bytes: Seq<u8>)
    ensures
        digits(value(bytes), bytes.len()) == bytes,
    decreases bytes.len(),
{
    if bytes.len() > 0 {
        digits_of_value(bytes.drop_last());
        assert(value(bytes) / 256 == value(bytes.drop_last()));
        assert(value(bytes) % 256 == bytes.last() as nat);
        assert(bytes =~= bytes.drop_last().push(bytes.last()));
    } else {
        assert(bytes =~= Seq::empty());
    }
}

/// A number is below 256 to the power of its digit count.
pub proof fn value_bound(bytes: Seq<u8>)
    ensures
        value(bytes) < vstd::arithmetic::power::pow(256, bytes.len()),
    decreases bytes.len(),
{
    vstd::arithmetic::power::lemma_pow0(256);
    if bytes.len() > 0 {
        value_bound(bytes.drop_last());
        assert(vstd::arithmetic::power::pow(256, bytes.len()) == 256
            * vstd::arithmetic::power::pow(256, (bytes.len() - 1) as nat)) by {
            reveal(vstd::arithmetic::power::pow);
        }
    }
}

/// The powers of 256 that the integer types reach.
pub proof fn powers()
    ensures
        vstd::arithmetic::power::pow(256, 4) == 0x1_0000_0000,
        vstd::arithmetic::power::pow(256, 8) == 0x1_0000_0000_0000_0000,
{
    reveal(vstd::arithmetic::power::pow);
    reveal_with_fuel(vstd::arithmetic::power::pow, 9);
}

/// Appends the low `width` base-256 digits of `number`.
fn push_digits(buffer: &mut Vec<u8>, number: u64, width: usize)
    ensures
        final(buffer)@ == old(buffer)@ + digits(number as nat, width as nat),
    decreases width,
{
    if width > 0 {
        push_digits(buffer, number / 256, width - 1);
        buffer.push((number % 256) as u8);
    }
    assert(buffer@ =~= old(buffer)@ + digits(number as nat, width as nat));
}

/// Appends the four bytes of `number`.
pub fn push_u32(buffer: &mut Vec<u8>, number: u32)
    ensures
        final(buffer)@ == old(buffer)@ + digits(number as nat, 4),
{
    push_digits(buffer, number as u64, 4);
}

/// Appends the eight bytes of `number`.
pub fn push_u64(buffer: &mut Vec<u8>, number: u64)
    ensures
        final(buffer)@ == old(buffer)@ + digits(number as nat, 8),
{
    push_digits(buffer, number, 8);
}

/// Appends the eight bytes of the two's complement pattern of `number`.
pub fn push_i64(buffer: &mut Vec<u8>, number: i64)
    ensures
        final(buffer)@ == old(buffer)@ + digits(pattern(number), 8),
{
    if number >= 0 {
        push_u64(buffer, number as u64);
    } else {
        push_u64(buffer, u64::MAX - (-(number + 1)) as u64);
    }
}

/// The number that four bytes write.
pub fn u32_from(bytes: &[u8]) -> (number: u32)
    requires
        bytes@.len() == 4,
    ensures
        number == value(bytes@),
{
    proof {
        reveal_with_fuel(value, 5);
    }
    bytes[0] as u32 * 0x100_0000 + bytes[1] as u32 * 0x1_0000 + bytes[2] as u32 * 0x100
        + bytes[3] as u32
}

/// The number that eight bytes write.
pub fn u64_from(bytes: &[u8]) -> (number: u64)
    requires
        bytes@.len() == 8,
    ensures
        number == value(bytes@),
{
    proof {
        reveal_with_fuel(value, 9);
    }
    let high: u64 = bytes[0] as u64 * 0x100_0000 + bytes[1] as u64 * 0x1_0000 + bytes[2] as u64
        * 0x100 + bytes[3] as u64;
    let low: u64 = bytes[4] as u64 * 0x100_0000 + bytes[5] as u64 * 0x1_0000 + bytes[6] as u64
        * 0x100 + bytes[7] as u64;
    high * 0x1_0000_0000 + low
}

/// The signed number whose two's complement pattern eight bytes write.
pub fn i64_from(bytes: &[u8]) -> (number: i64)
    requires
        bytes@.len() == 8,
    ensures
        number == signed(value(bytes@)),
{
    let bits: u64 = u64_from(bytes);
    if bits < 0x8000_0000_0000_0000 {
        bits as i64
    } else {
        -((u64::MAX - bits) as i64) - 1
    }
}

} // verus!
