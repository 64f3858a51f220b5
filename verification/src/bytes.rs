//! Canonical byte encodings used to bind identifiers into authenticated data.
use vstd::prelude::*;

verus! {

/// Appends `tail` to `v`.
pub fn push_all(v: &mut Vec<u8>, tail: &[u8])
    ensures
        final(v)@ == old(v)@ + tail@,
{
    let mut i: usize = 0;
    while i < tail.len()
        invariant
            i <= tail@.len(),
            v@ == old(v)@ + tail@.take(i as int),
        decreases tail.len() - i,
    {
        v.push(tail[i]);
        i = i + 1;
        assert(v@ =~= old(v)@ + tail@.take(i as int));
    }
    assert(tail@.take(i as int) =~= tail@);
}

/// Big-endian bytes of a 128-bit identifier (the byte form of a UUID).
pub open spec fn be_u128(x: u128) -> Seq<u8> {
    Seq::new(16, |i: int| ((x >> ((8 * (15 - i)) as u128)) & 0xff) as u8)
}

/// Big-endian bytes of a signed 32-bit revision (two's complement).
pub open spec fn be_i32(x: i32) -> Seq<u8> {
    Seq::new(4, |i: int| (((x as u32) >> ((8 * (3 - i)) as u32)) & 0xff) as u8)
}

pub fn u128_bytes(x: u128) -> (bytes: Vec<u8>)
    ensures
        bytes@ == be_u128(x),
{
    let mut bytes = Vec::new();
    let mut i: u128 = 0;
    while i < 16
        invariant
            i <= 16,
            bytes@.len() == i,
            forall|j: int| 0 <= j < i ==> bytes@[j] == be_u128(x)[j],
        decreases 16 - i,
    {
        let shift: u128 = 8 * (15 - i);
        bytes.push(((x >> shift) & 0xff) as u8);
        i = i + 1;
    }
    assert(bytes@ =~= be_u128(x));
    bytes
}

pub fn i32_bytes(x: i32) -> (bytes: Vec<u8>)
    ensures
        bytes@ == be_i32(x),
{
    let u = x as u32;
    let mut bytes = Vec::new();
    let mut i: u32 = 0;
    while i < 4
        invariant
            i <= 4,
            u == x as u32,
            bytes@.len() == i,
            forall|j: int| 0 <= j < i ==> bytes@[j] == be_i32(x)[j],
        decreases 4 - i,
    {
        let shift: u32 = 8 * (3 - i);
        bytes.push(((u >> shift) & 0xff) as u8);
        i = i + 1;
    }
    assert(bytes@ =~= be_i32(x));
    bytes
}

/// Lower-case hexadecimal digit of a nibble.
pub open spec fn hex_digit(n: u8) -> u8 {
    if n < 10 {
        (n + 48) as u8
    } else {
        (n + 87) as u8
    }
}

/// The 32 lower-case hex digits of a 128-bit value, most significant first.
pub open spec fn hex_u128(x: u128) -> Seq<u8> {
    Seq::new(32, |i: int| hex_digit(((x >> ((4 * (31 - i)) as u128)) & 0xf) as u8))
}

/// The lower-case hexadecimal text of a byte string, two digits a byte, the
/// high nibble first.
pub open spec fn hex_text(b: Seq<u8>) -> Seq<u8> {
    Seq::new(
        2 * b.len(),
        |i: int|
            if i % 2 == 0 {
                hex_digit(b[i / 2] / 16)
            } else {
                hex_digit(b[i / 2] % 16)
            },
    )
}

/// Number of hyphens before position `p` of the hyphenated UUID text.
pub open spec fn hyphens_before(p: int) -> int {
    if p <= 8 {
        0
    } else if p <= 13 {
        1
    } else if p <= 18 {
        2
    } else if p <= 23 {
        3
    } else {
        4
    }
}

pub open spec fn is_hyphen_position(p: int) -> bool {
    p == 8 || p == 13 || p == 18 || p == 23
}

/// The hyphenated lower-case text of a UUID: 8-4-4-4-12 hex digits.
pub open spec fn uuid_text(x: u128) -> Seq<u8> {
    Seq::new(
        36,
        |p: int|
            if is_hyphen_position(p) {
                45u8
            } else {
                hex_u128(x)[p - hyphens_before(p)]
            },
    )
}

fn hex_nibble(n: u8) -> (d: u8)
    requires
        n < 16,
    ensures
        d == hex_digit(n),
{
    if n < 10 {
        n + 48
    } else {
        n + 87
    }
}

pub fn uuid_hyphenated(x: u128) -> (text: Vec<u8>)
    ensures
        text@ == uuid_text(x),
{
    let mut hex = Vec::new();
    let mut i: u128 = 0;
    while i < 32
        invariant
            i <= 32,
            hex@.len() == i,
            forall|j: int| 0 <= j < i ==> hex@[j] == hex_u128(x)[j],
        decreases 32 - i,
    {
        let shift: u128 = 4 * (31 - i);
        let n = ((x >> shift) & 0xf) as u8;
        assert(((x >> shift) & 0xf) < 16) by (bit_vector);
        hex.push(hex_nibble(n));
        i = i + 1;
    }
    let mut text = Vec::new();
    let mut p: usize = 0;
    while p < 36
        invariant
            p <= 36,
            hex@ == hex_u128(x),
            text@.len() == p,
            forall|j: int| 0 <= j < p ==> text@[j] == uuid_text(x)[j],
        decreases 36 - p,
    {
        if p == 8 || p == 13 || p == 18 || p == 23 {
            text.push(45u8);
        } else {
            let k: usize = if p < 8 {
                p
            } else if p < 13 {
                p - 1
            } else if p < 18 {
                p - 2
            } else if p < 23 {
                p - 3
            } else {
                p - 4
            };
            text.push(hex[k]);
        }
        p = p + 1;
    }
    assert(text@ =~= uuid_text(x));
    text
}


pub fn hex_bytes(b: &[u8]) -> (text: Vec<u8>)
    requires
        2 * b@.len() <= usize::MAX,
    ensures
        text@ == hex_text(b@),
{
    let mut text: Vec<u8> = Vec::new();
    let mut i: usize = 0;
    while i < b.len()
        invariant
            i <= b@.len(),
            2 * b@.len() <= usize::MAX,
            text@.len() == 2 * i,
            forall|j: int| 0 <= j < 2 * i ==> text@[j] == hex_text(b@)[j],
        decreases b.len() - i,
    {
        let x = b[i];
        text.push(hex_nibble(x / 16));
        text.push(hex_nibble(x % 16));
        i = i + 1;
    }
    assert(text@ =~= hex_text(b@));
    text
}

} // verus!
