//! Byte strings as text: two hexadecimal digits for each byte. This is the
//! form in which the numbers of this crate are written out and read back.

use vstd::prelude::*;

verus! {

/// The digit, in ASCII, of a number below sixteen; lower case.
pub open spec fn digit_of(v: u8) -> u8 {
    if v < 10 {
        (0x30 + v) as u8
    } else {
        (0x61 + (v - 10)) as u8
    }
}

/// The number that a digit stands for, whether in lower or in upper case.
pub open spec fn value_of(c: u8) -> Option<u8> {
    if 0x30 <= c <= 0x39 {
        Some((c - 0x30) as u8)
    } else if 0x61 <= c <= 0x66 {
        Some((c - 0x61 + 10) as u8)
    } else if 0x41 <= c <= 0x46 {
        Some((c - 0x41 + 10) as u8)
    } else {
        None
    }
}

/// The bytes written out: for each byte its high digit, then its low one.
pub open spec fn hex_of(bytes: Seq<u8>) -> Seq<u8> {
    Seq::new(
        2 * bytes.len(),
        |i: int|
            if i % 2 == 0 {
                digit_of(bytes[i / 2] / 16)
            } else {
                digit_of(bytes[i / 2] % 16)
            },
    )
}

/// Whether the text is an even number of hexadecimal digits.
pub open spec fn is_hex(text: Seq<u8>) -> bool {
    text.len() % 2 == 0 && forall|i: int| 0 <= i < text.len() ==> value_of(#[trigger] text[i]) is Some
}

/// The bytes that the text stands for, two digits to a byte.
pub open spec fn bytes_of(text: Seq<u8>) -> Seq<u8> {
    Seq::new(
        text.len() / 2,
        |i: int| (value_of(text[2 * i])->0 * 16 + value_of(text[2 * i + 1])->0) as u8,
    )
}

/// What is written out reads back as it was.
pub proof fn lemma_hex_round_trip(bytes: Seq<u8>)
    ensures
        is_hex(hex_of(bytes)),
        bytes_of(hex_of(bytes)) == bytes,
{
    let text = hex_of(bytes);
    assert forall|i: int| 0 <= i < text.len() implies value_of(#[trigger] text[i]) is Some by {
        let b = bytes[i / 2];
        assert(b / 16 < 16 && b % 16 < 16);
    }
    assert forall|i: int| 0 <= i < bytes.len() implies bytes_of(text)[i] == bytes[i] by {
        let b = bytes[i];
        assert((2 * i) / 2 == i && (2 * i) % 2 == 0);
        assert((2 * i + 1) / 2 == i && (2 * i + 1) % 2 == 1);
        assert(text[2 * i] == digit_of(b / 16));
        assert(text[2 * i + 1] == digit_of(b % 16));
        assert(value_of(digit_of(b / 16)) == Some((b / 16) as u8));
        assert(value_of(digit_of(b % 16)) == Some((b % 16) as u8));
        assert((b / 16) * 16 + b % 16 == b);
    }
    assert(bytes_of(text) =~= bytes);
}

fn digit(v: u8) -> (c: u8)
    requires
        v < 16,
    ensures
        c == digit_of(v),
{
    if v < 10 {
        0x30 + v
    } else {
        0x61 + (v - 10)
    }
}

fn value(c: u8) -> (v: Option<u8>)
    ensures
        v == value_of(c),
        v is Some ==> v->0 < 16,
{
    if 0x30 <= c && c <= 0x39 {
        Some(c - 0x30)
    } else if 0x61 <= c && c <= 0x66 {
        Some(c - 0x61 + 10)
    } else if 0x41 <= c && c <= 0x46 {
        Some(c - 0x41 + 10)
    } else {
        None
    }
}

/// Writes the bytes out as hexadecimal digits, in ASCII and lower case.
pub fn to_hex(bytes: &[u8]) -> (text: Vec<u8>)
    ensures
        text@ == hex_of(bytes@),
{
    let mut text: Vec<u8> = Vec::new();
    let mut i: usize = 0;
    while i < bytes.len()
        invariant
            0 <= i <= bytes@.len(),
            text@.len() == 2 * i,
            forall|t: int| 0 <= t < 2 * i ==> text@[t] == hex_of(bytes@)[t],
        decreases bytes@.len() - i,
    {
        let b = bytes[i];
        text.push(digit(b / 16));
        text.push(digit(b % 16));
        proof {
            assert((2 * i) / 2 == i && (2 * i) % 2 == 0);
            assert((2 * i + 1) / 2 == i && (2 * i + 1) % 2 == 1);
        }
        i += 1;
    }
    assert(text@ =~= hex_of(bytes@));
    text
}

/// Reads hexadecimal digits, in ASCII and in either case, back to bytes;
/// `None` where the text is not an even number of such digits.
pub fn from_hex(text: &[u8]) -> (bytes: Option<Vec<u8>>)
    ensures
        bytes is Some <==> is_hex(text@),
        bytes is Some ==> bytes->0@ == bytes_of(text@),
{
    if text.len() % 2 != 0 {
        return None;
    }
    let count = text.len() / 2;
    let mut bytes: Vec<u8> = Vec::new();
    let mut i: usize = 0;
    while i < count
        invariant
            text@.len() == 2 * count,
            text@.len() <= usize::MAX,
            0 <= i <= count,
            bytes@.len() == i,
            forall|t: int| 0 <= t < 2 * i ==> value_of(#[trigger] text@[t]) is Some,
            forall|t: int| 0 <= t < i ==> bytes@[t] == bytes_of(text@)[t],
        decreases count - i,
    {
        let high = match value(text[2 * i]) {
            Some(v) => v,
            None => {
                return None;
            },
        };
        let low = match value(text[2 * i + 1]) {
            Some(v) => v,
            None => {
                return None;
            },
        };
        bytes.push(high * 16 + low);
        i += 1;
    }
    assert(bytes@ =~= bytes_of(text@));
    Some(bytes)
}

} // verus!
