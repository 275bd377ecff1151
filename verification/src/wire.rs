//! Big-endian fields and zero-terminated strings, as the map file and the
//! datagram header store them.

use byteorder::{ReadBytesExt, BE};
use vstd::prelude::*;
use vstd::utf8::{decode_utf8, valid_utf8};

verus! {

/// The number that two bytes spell, most significant byte first.
pub open spec fn be_u16(b: Seq<u8>) -> u16
    recommends
        b.len() == 2,
{
    (b[0] as int * 0x100 + b[1] as int) as u16
}

/// The number that four bytes spell, most significant byte first.
pub open spec fn be_u32(b: Seq<u8>) -> u32
    recommends
        b.len() == 4,
{
    (b[0] as int * 0x100_0000 + b[1] as int * 0x1_0000 + b[2] as int * 0x100 + b[3] as int) as u32
}

/// The four bytes that spell `v`, most significant byte first.
pub open spec fn be_u32_bytes(v: u32) -> Seq<u8> {
    seq![
        (v as int / 0x100_0000) as u8,
        (v as int / 0x1_0000 % 0x100) as u8,
        (v as int / 0x100 % 0x100) as u8,
        (v as int % 0x100) as u8,
    ]
}

/// The two bytes that spell `v`, most significant byte first.
pub open spec fn be_u16_bytes(v: u16) -> Seq<u8> {
    seq![(v as int / 0x100) as u8, (v as int % 0x100) as u8]
}

/// Reading back what `be_u32_bytes` wrote gives the number again.
pub proof fn lemma_be_u32_round_trip(v: u32)
    ensures
        be_u32_bytes(v).len() == 4,
        be_u32(be_u32_bytes(v)) == v,
{
}

/// Reading back what `be_u16_bytes` wrote gives the number again.
pub proof fn lemma_be_u16_round_trip(v: u16)
    ensures
        be_u16_bytes(v).len() == 2,
        be_u16(be_u16_bytes(v)) == v,
{
}

/// `n` is the place of the first zero byte of `s`.
pub open spec fn is_terminator_at(s: Seq<u8>, n: int) -> bool {
    &&& 0 <= n < s.len()
    &&& s[n] == 0
    &&& forall|j: int| 0 <= j < n ==> s[j] != 0
}

/// Some byte of `s` is zero.
pub open spec fn has_terminator(s: Seq<u8>) -> bool {
    exists|n: int| is_terminator_at(s, n)
}

/// The place of the first zero byte of `s`, where it has one.
pub open spec fn terminator(s: Seq<u8>) -> int
    recommends
        has_terminator(s),
{
    choose|n: int| is_terminator_at(s, n)
}

/// A sequence has at most one first zero byte.
pub proof fn lemma_terminator_unique(s: Seq<u8>, n: int)
    requires
        is_terminator_at(s, n),
    ensures
        has_terminator(s),
        terminator(s) == n,
{
    let m = terminator(s);
    assert(is_terminator_at(s, m));
    if m < n {
        assert(s[m] != 0);
    } else if n < m {
        assert(s[n] != 0);
    }
}

/// `byteorder::ReadBytesExt::read_u8` on the bytes of `data` from `at` on.
/// It yields the byte at `at`, or nothing where no byte is left.
#[verifier::external_body]
pub(crate) fn read_u8_at(data: &[u8], at: usize) -> (r: Option<u8>)
    requires
        at <= data@.len(),
    ensures
        r == (if at < data@.len() {
            Some(data@[at as int])
        } else {
            None
        }),
{
    let mut reader = &data[at..];
    reader.read_u8().ok()
}

/// `byteorder::ReadBytesExt::read_u16` in big-endian order on the bytes of
/// `data` from `at` on. It yields the number that the next two bytes spell,
/// or nothing where fewer than two are left.
#[verifier::external_body]
pub(crate) fn read_u16_be_at(data: &[u8], at: usize) -> (r: Option<u16>)
    requires
        at <= data@.len(),
    ensures
        r == (if at + 2 <= data@.len() {
            Some(be_u16(data@.subrange(at as int, at + 2)))
        } else {
            None
        }),
{
    let mut reader = &data[at..];
    reader.read_u16::<BE>().ok()
}

/// `byteorder::ReadBytesExt::read_u32` in big-endian order on the bytes of
/// `data` from `at` on. It yields the number that the next four bytes spell,
/// or nothing where fewer than four are left.
#[verifier::external_body]
pub(crate) fn read_u32_be_at(data: &[u8], at: usize) -> (r: Option<u32>)
    requires
        at <= data@.len(),
    ensures
        r == (if at + 4 <= data@.len() {
            Some(be_u32(data@.subrange(at as int, at + 4)))
        } else {
            None
        }),
{
    let mut reader = &data[at..];
    reader.read_u32::<BE>().ok()
}

/// `String::from_utf8`. It yields the text that the bytes encode, or
/// nothing where they are not valid UTF-8.
#[verifier::external_body]
pub(crate) fn string_from_utf8(bytes: Vec<u8>) -> (r: Option<String>)
    ensures
        r is Some == valid_utf8(bytes@),
        r is Some ==> r->Some_0@ == decode_utf8(bytes@),
{
    String::from_utf8(bytes).ok()
}

} // verus!
