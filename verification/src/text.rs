//! Text building blocks for messages and keys: decimal and hexadecimal digits.

use vstd::prelude::*;
use vstd::string::StringExecFns;
use vstd::utf8;

verus! {

/// The lower-case hexadecimal digit with value `value`.
pub open spec fn hex_digit(value: int) -> char
    recommends
        0 <= value < 16,
{
    seq!['0', '1', '2', '3', '4', '5', '6', '7', '8', '9', 'a', 'b', 'c', 'd', 'e', 'f'][value]
}

/// `value` in decimal, without leading zeros.
pub open spec fn decimal(value: nat) -> Seq<char>
    decreases value,
{
    if value < 10 {
        seq![hex_digit(value as int)]
    } else {
        decimal(value / 10).push(hex_digit((value % 10) as int))
    }
}

/// `value` in decimal, with a leading minus sign where it is negative.
pub open spec fn signed_decimal(value: int) -> Seq<char> {
    if value < 0 {
        "-"@ + decimal((-value) as nat)
    } else {
        decimal(value as nat)
    }
}

/// Two hexadecimal digits for each byte, the high half first.
pub open spec fn hex(bytes: Seq<u8>) -> Seq<char>
    decreases bytes.len(),
{
    if bytes.len() == 0 {
        Seq::empty()
    } else {
        hex(bytes.drop_last()).push(hex_digit(bytes.last() as int / 16)).push(
            hex_digit(bytes.last() as int % 16),
        )
    }
}

/// The low `width` hexadecimal digits of `value`, with leading zeros.
pub open spec fn hex_number(value: nat, width: nat) -> Seq<char>
    decreases width,
{
    if width == 0 {
        Seq::empty()
    } else {
        hex_number(value / 16, (width - 1) as nat).push(hex_digit((value % 16) as int))
    }
}

/// `true` or `false`.
pub open spec fn boolean(value: bool) -> Seq<char> {
    if value {
        "true"@
    } else {
        "false"@
    }
}

/// Appends one hexadecimal digit.
pub fn push_hex_digit(text: &mut String, value: u8)
    requires
        value < 16,
    ensures
        final(text)@ == old(text)@.push(hex_digit(value as int)),
{
    let digit = match value {
        0 => "0",
        1 => "1",
        2 => "2",
        3 => "3",
        4 => "4",
        5 => "5",
        6 => "6",
        7 => "7",
        8 => "8",
        9 => "9",
        10 => "a",
        11 => "b",
        12 => "c",
        13 => "d",
        14 => "e",
        _ => "f",
    };
    proof {
        reveal_strlit("0");
        reveal_strlit("1");
        reveal_strlit("2");
        reveal_strlit("3");
        reveal_strlit("4");
        reveal_strlit("5");
        reveal_strlit("6");
        reveal_strlit("7");
        reveal_strlit("8");
        reveal_strlit("9");
        reveal_strlit("a");
        reveal_strlit("b");
        reveal_strlit("c");
        reveal_strlit("d");
        reveal_strlit("e");
        reveal_strlit("f");
        assert(digit@ =~= seq![hex_digit(value as int)]);
    }
    text.append(digit);
    assert(text@ =~= old(text)@.push(hex_digit(value as int)));
}

/// Appends `value` in decimal.
pub fn push_decimal(text: &mut String, value: u64)
    ensures
        final(text)@ == old(text)@ + decimal(value as nat),
    decreases value,
{
    if value >= 10 {
        push_decimal(text, value / 10);
    }
    push_hex_digit(text, (value % 10) as u8);
    assert(text@ =~= old(text)@ + decimal(value as nat));
}

/// Appends `value` in decimal, with its sign where it is negative.
pub fn push_signed_decimal(text: &mut String, value: i32)
    ensures
        final(text)@ == old(text)@ + signed_decimal(value as int),
{
    if value < 0 {
        text.append("-");
        push_decimal(text, (-(value as i64)) as u64);
        assert(text@ =~= old(text)@ + signed_decimal(value as int));
    } else {
        push_decimal(text, value as u64);
    }
}

/// Appends two hexadecimal digits for each byte.
pub fn push_hex(text: &mut String, bytes: &[u8])
    ensures
        final(text)@ == old(text)@ + hex(bytes@),
{
    let ghost start = text@;
    let mut index: usize = 0;
    assert(text@ =~= start + hex(bytes@.take(0)));
    while index < bytes.len()
        invariant
            index <= bytes@.len(),
            text@ == start + hex(bytes@.take(index as int)),
        decreases bytes@.len() - index,
    {
        let byte = bytes[index];
        push_hex_digit(text, byte / 16);
        push_hex_digit(text, byte % 16);
        assert(bytes@.take(index + 1).drop_last() =~= bytes@.take(index as int));
        index = index + 1;
        assert(text@ =~= start + hex(bytes@.take(index as int)));
    }
    assert(bytes@.take(index as int) =~= bytes@);
}

/// Appends the low `width` hexadecimal digits of `value`.
pub fn push_hex_number(text: &mut String, value: u64, width: usize)
    ensures
        final(text)@ == old(text)@ + hex_number(value as nat, width as nat),
    decreases width,
{
    if width > 0 {
        push_hex_number(text, value / 16, width - 1);
        push_hex_digit(text, (value % 16) as u8);
    }
    assert(text@ =~= old(text)@ + hex_number(value as nat, width as nat));
}

/// Appends `true` or `false`.
pub fn push_boolean(text: &mut String, value: bool)
    ensures
        final(text)@ == old(text)@ + boolean(value),
{
    if value {
        text.append("true");
    } else {
        text.append("false");
    }
}

/// Whether two byte runs are the same.
pub fn same_bytes(left: &[u8], right: &[u8]) -> (same: bool)
    ensures
        same == (left@ == right@),
{
    if left.len() != right.len() {
        return false;
    }
    let mut index: usize = 0;
    while index < left.len()
        invariant
            left@.len() == right@.len(),
            index <= left@.len(),
            forall|i: int| 0 <= i < index ==> left@[i] == right@[i],
        decreases left@.len() - index,
    {
        if left[index] != right[index] {
            return false;
        }
        index = index + 1;
    }
    assert(left@ =~= right@);
    true
}

/// Whether two texts are the same.
pub fn same_text(left: &str, right: &str) -> (same: bool)
    ensures
        same == (left@ == right@),
{
    proof {
        utf8::encode_utf8_decode_utf8(left@);
        utf8::encode_utf8_decode_utf8(right@);
    }
    same_bytes(left.as_bytes(), right.as_bytes())
}

/// The characters of a text.
pub fn chars_of(value: &str) -> (chars: Vec<char>)
    ensures
        chars@ == value@,
{
    let mut chars: Vec<char> = Vec::new();
    for c in iter: value.chars()
        invariant
            iter.seq() == value@,
            chars@ == value@.take(iter.index() as int),
    {
        chars.push(c);
        assert(chars@ =~= value@.take(iter.index() + 1));
    }
    assert(chars@ =~= value@);
    chars
}

/// Appends a byte run to a buffer.
pub fn push_bytes(buffer: &mut Vec<u8>, bytes: &[u8])
    ensures
        final(buffer)@ == old(buffer)@ + bytes@,
{
    buffer.extend_from_slice(bytes);
    assert(buffer@ =~= old(buffer)@ + bytes@);
}

/// Hexadecimal text has two characters for each byte.
pub proof fn hex_length(bytes: Seq<u8>)
    ensures
        hex(bytes).len() == 2 * bytes.len(),
    decreases bytes.len(),
{
    if bytes.len() > 0 {
        hex_length(bytes.drop_last());
    }
}

/// Each byte is written by the two lower-case digits of its halves, at twice its place.
pub proof fn hex_writes_every_byte(bytes: Seq<u8>, place: int)
    requires
        0 <= place < bytes.len(),
    ensures
        ({
            let high = bytes[place] as int / 16;
            let low = bytes[place] as int % 16;
            &&& hex(bytes)[2 * place] as int == if high < 10 {
                48 + high
            } else {
                87 + high
            }
            &&& hex(bytes)[2 * place + 1] as int == if low < 10 {
                48 + low
            } else {
                87 + low
            }
        }),
    decreases bytes.len(),
{
    hex_length(bytes.drop_last());
    if place < bytes.len() - 1 {
        hex_writes_every_byte(bytes.drop_last(), place);
    }
}

/// The last of the hexadecimal digits of a number is its remainder by 16, and the digits before it
/// are those of the quotient.
pub proof fn hex_number_writes_every_digit(value: nat, width: nat)
    requires
        width > 0,
    ensures
        hex_number(value, width).len() == width,
        hex_number(value, width).last() as int == if value % 16 < 10 {
            48 + value % 16
        } else {
            87 + value % 16
        },
        hex_number(value, width).drop_last() == hex_number(value / 16, (width - 1) as nat),
    decreases width,
{
    if width > 1 {
        hex_number_writes_every_digit(value / 16, (width - 1) as nat);
    }
    assert(hex_number(value, width).drop_last() =~= hex_number(value / 16, (width - 1) as nat));
}

/// The last decimal digit of a number is its remainder by 10, and the digits before it are those
/// of the quotient, if there is one.
pub proof fn decimal_writes_every_digit(value: nat)
    ensures
        decimal(value).len() > 0,
        decimal(value).last() as int == 48 + value % 10,
        value >= 10 ==> decimal(value).drop_last() == decimal(value / 10),
        value < 10 ==> decimal(value).len() == 1,
    decreases value,
{
    if value >= 10 {
        decimal_writes_every_digit(value / 10);
        assert(decimal(value).drop_last() =~= decimal(value / 10));
    }
}

/// Different bytes have different hexadecimal text.
pub proof fn hex_injective(left: Seq<u8>, right: Seq<u8>)
    requires
        hex(left) == hex(right),
    ensures
        left == right,
    decreases left.len(),
{
    hex_length(left);
    hex_length(right);
    if left.len() > 0 {
        let l = hex(left);
        let r = hex(right);
        let n = l.len() as int;
        assert(l.take(n - 2) =~= hex(left.drop_last()));
        assert(r.take(n - 2) =~= hex(right.drop_last()));
        hex_injective(left.drop_last(), right.drop_last());
        assert(l[n - 2] == hex_digit(left.last() as int / 16));
        assert(l[n - 1] == hex_digit(left.last() as int % 16));
        assert(r[n - 2] == hex_digit(right.last() as int / 16));
        assert(r[n - 1] == hex_digit(right.last() as int % 16));
        assert(left =~= left.drop_last().push(left.last()));
        assert(right =~= right.drop_last().push(right.last()));
    }
}

/// A negative number is written as its distance from zero behind a minus sign.
pub proof fn signs_are_written(value: int)
    ensures
        value >= 0 ==> signed_decimal(value) == decimal(value as nat),
        value < 0 ==> signed_decimal(value) == seq!['-'] + decimal((-value) as nat),
        boolean(true) == "true"@,
        boolean(false) == "false"@,
{
    reveal_strlit("-");
    assert("-"@ =~= seq!['-']);
}

} // verus!
