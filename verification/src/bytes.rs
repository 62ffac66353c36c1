//! Little-endian slice readers (bounds-checked; a read past the end gives 0).
use vstd::prelude::*;

verus! {

/// The unsigned 16-bit value at offset `o`, or 0 where it does not fit in `d`.
pub open spec fn u16_at(d: Seq<u8>, o: int) -> u16 {
    if o + 2 <= d.len() {
        (d[o] + 256 * d[o + 1]) as u16
    } else {
        0
    }
}

/// The signed 16-bit value at offset `o` (two's complement).
pub open spec fn i16_at(d: Seq<u8>, o: int) -> i16 {
    let v = u16_at(d, o);
    if v < 0x8000 {
        v as i16
    } else {
        (v - 0x1_0000) as i16
    }
}

/// The unsigned 32-bit value at offset `o`, or 0 where it does not fit in `d`.
pub open spec fn u32_at(d: Seq<u8>, o: int) -> u32 {
    if o + 4 <= d.len() {
        (d[o] + 0x100 * d[o + 1] + 0x1_0000 * d[o + 2] + 0x100_0000 * d[o + 3]) as u32
    } else {
        0
    }
}

/// The signed 32-bit value at offset `o` (two's complement).
pub open spec fn i32_at(d: Seq<u8>, o: int) -> i32 {
    let v = u32_at(d, o);
    if v < 0x8000_0000 {
        v as i32
    } else {
        (v - 0x1_0000_0000) as i32
    }
}

/// The signed byte at offset `o` (two's complement).
pub open spec fn i8_at(d: Seq<u8>, o: int) -> i8 {
    if d[o] < 0x80 {
        d[o] as i8
    } else {
        (d[o] - 0x100) as i8
    }
}

pub(crate) fn u16le(d: &[u8], o: usize) -> (v: u16)
    ensures
        v == u16_at(d@, o as int),
{
    if d.len() >= 2 && o <= d.len() - 2 {
        let a: u8 = d[o];
        let b: u8 = d[o + 1];
        assert((a as u16) | ((b as u16) << 8) == a + 256 * b) by (bit_vector);
        (a as u16) | ((b as u16) << 8)
    } else {
        0
    }
}

pub(crate) fn i16le(d: &[u8], o: usize) -> (v: i16)
    ensures
        v == i16_at(d@, o as int),
{
    let v: u16 = u16le(d, o);
    assert((v as i16) == (if v < 0x8000 {
        v as int
    } else {
        v - 0x1_0000
    })) by (bit_vector);
    v as i16
}

pub(crate) fn u32le(d: &[u8], o: usize) -> (v: u32)
    ensures
        v == u32_at(d@, o as int),
{
    if d.len() >= 4 && o <= d.len() - 4 {
        let a: u8 = d[o];
        let b: u8 = d[o + 1];
        let c: u8 = d[o + 2];
        let e: u8 = d[o + 3];
        assert((a as u32) | ((b as u32) << 8) | ((c as u32) << 16) | ((e as u32) << 24) == a + 0x100
            * b + 0x1_0000 * c + 0x100_0000 * e) by (bit_vector);
        (a as u32) | ((b as u32) << 8) | ((c as u32) << 16) | ((e as u32) << 24)
    } else {
        0
    }
}

pub(crate) fn i32le(d: &[u8], o: usize) -> (v: i32)
    ensures
        v == i32_at(d@, o as int),
{
    let v: u32 = u32le(d, o);
    assert((v as i32) == (if v < 0x8000_0000 {
        v as int
    } else {
        v - 0x1_0000_0000
    })) by (bit_vector);
    v as i32
}

pub(crate) fn i8le(d: &[u8], o: usize) -> (v: i8)
    requires
        o < d@.len(),
    ensures
        v == i8_at(d@, o as int),
{
    let v: u8 = d[o];
    assert((v as i8) == (if v < 0x80 {
        v as int
    } else {
        v - 0x100
    })) by (bit_vector);
    v as i8
}

/// The four bytes of `v`, low byte first.
pub open spec fn le_bytes(v: u32) -> Seq<u8> {
    seq![
        (v % 0x100) as u8,
        (v / 0x100 % 0x100) as u8,
        (v / 0x1_0000 % 0x100) as u8,
        (v / 0x100_0000) as u8,
    ]
}

pub(crate) fn u32_to_le(v: u32) -> (b: [u8; 4])
    ensures
        b@ == le_bytes(v),
{
    assert((v & 0xff) as u8 == v % 0x100 && ((v >> 8) & 0xff) as u8 == v / 0x100 % 0x100 && ((v
        >> 16) & 0xff) as u8 == v / 0x1_0000 % 0x100 && (v >> 24) as u8 == v / 0x100_0000)
        by (bit_vector);
    let b: [u8; 4] = [
        (v & 0xff) as u8,
        ((v >> 8) & 0xff) as u8,
        ((v >> 16) & 0xff) as u8,
        (v >> 24) as u8,
    ];
    assert(b@ =~= le_bytes(v));
    b
}

/// Writing a value low byte first and reading it back gives the value.
pub proof fn law_le_bytes_read_back(v: u32)
    ensures
        u32_at(le_bytes(v), 0) == v,
{
    assert(v == v % 0x100 + 0x100 * (v / 0x100 % 0x100) + 0x1_0000 * (v / 0x1_0000 % 0x100)
        + 0x100_0000 * (v / 0x100_0000)) by {
        assert(v / 0x1_0000 == v / 0x100 / 0x100);
        assert(v / 0x100_0000 == v / 0x1_0000 / 0x100);
    }
}

/// Numbers stand low byte first: each byte weighs 256 times the one before it. Signed numbers
/// are the same modulo 2^8, 2^16 or 2^32.
pub proof fn law_numbers_stand_low_byte_first(d: Seq<u8>, o: int, v: u32)
    requires
        0 <= o,
    ensures
        o + 2 <= d.len() ==> u16_at(d, o) == d[o] + 256 * d[o + 1],
        o + 2 <= d.len() ==> (i16_at(d, o) - d[o] - 256 * d[o + 1]) % 65536 == 0,
        o + 4 <= d.len() ==> u32_at(d, o) == d[o] + 256 * d[o + 1] + 65536 * d[o + 2] + 16777216
            * d[o + 3],
        o + 4 <= d.len() ==> (i32_at(d, o) - d[o] - 256 * d[o + 1] - 65536 * d[o + 2] - 16777216
            * d[o + 3]) % 4294967296 == 0,
        (i8_at(d, o) - d[o]) % 256 == 0,
        le_bytes(v).len() == 4,
        le_bytes(v)[0] + 256 * le_bytes(v)[1] + 65536 * le_bytes(v)[2] + 16777216 * le_bytes(v)[3]
            == v,
{
    law_le_bytes_read_back(v);
}

} // verus!
