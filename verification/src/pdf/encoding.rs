//! Numbers and characters as the text of a PDF: decimal and upper-case
//! hexadecimal digits, UTF-16 code units, and glyph ids as two-byte codes.
use vstd::prelude::*;

use crate::error::AppError;

verus! {

/// The digit of value `d` (below 16), upper case past 9.
pub open spec fn hex_digit(d: int) -> char {
    if d == 0 { '0' }
    else if d == 1 { '1' }
    else if d == 2 { '2' }
    else if d == 3 { '3' }
    else if d == 4 { '4' }
    else if d == 5 { '5' }
    else if d == 6 { '6' }
    else if d == 7 { '7' }
    else if d == 8 { '8' }
    else if d == 9 { '9' }
    else if d == 10 { 'A' }
    else if d == 11 { 'B' }
    else if d == 12 { 'C' }
    else if d == 13 { 'D' }
    else if d == 14 { 'E' }
    else { 'F' }
}

/// `v` (below 65536) as four upper-case hexadecimal digits, zero padded.
pub open spec fn hex4(v: int) -> Seq<char> {
    seq![hex_digit((v / 4096) % 16), hex_digit((v / 256) % 16), hex_digit((v / 16) % 16), hex_digit(v % 16)]
}

/// `n` in decimal, without leading zeros.
pub open spec fn decimal(n: nat) -> Seq<char>
    decreases n,
{
    if n < 10 {
        seq![hex_digit(n as int)]
    } else {
        decimal(n / 10).push(hex_digit((n % 10) as int))
    }
}

/// The UTF-16 code units of a character: itself below 0x10000, else its
/// surrogate pair.
pub open spec fn utf16_units(c: char) -> Seq<int> {
    let v = (c as u32) as int;
    if v < 0x10000 {
        seq![v]
    } else {
        seq![0xD800 + (v - 0x10000) / 1024, 0xDC00 + (v - 0x10000) % 1024]
    }
}

/// The UTF-16 code units of `s`, each as four hexadecimal digits.
pub open spec fn utf16_hex(s: Seq<char>) -> Seq<char>
    decreases s.len(),
{
    if s.len() == 0 {
        Seq::empty()
    } else {
        let units = utf16_units(s.last());
        utf16_hex(s.drop_last()) + if units.len() == 1 { hex4(units[0]) } else { hex4(units[0]) + hex4(units[1]) }
    }
}

/// The character of digit `d`.
fn digit_char(d: u32) -> (c: char)
    requires
        d < 16,
    ensures
        c == hex_digit(d as int),
{
    if d == 0 { '0' }
    else if d == 1 { '1' }
    else if d == 2 { '2' }
    else if d == 3 { '3' }
    else if d == 4 { '4' }
    else if d == 5 { '5' }
    else if d == 6 { '6' }
    else if d == 7 { '7' }
    else if d == 8 { '8' }
    else if d == 9 { '9' }
    else if d == 10 { 'A' }
    else if d == 11 { 'B' }
    else if d == 12 { 'C' }
    else if d == 13 { 'D' }
    else if d == 14 { 'E' }
    else { 'F' }
}

/// Appends `v` as four hexadecimal digits.
pub fn push_hex4(out: &mut Vec<char>, v: u32)
    requires
        v < 65536,
    ensures
        final(out)@ == old(out)@ + hex4(v as int),
{
    out.push(digit_char((v / 4096) % 16));
    out.push(digit_char((v / 256) % 16));
    out.push(digit_char((v / 16) % 16));
    out.push(digit_char(v % 16));
}

/// Appends `n` in decimal.
pub fn push_decimal(out: &mut Vec<char>, n: usize)
    ensures
        final(out)@ == old(out)@ + decimal(n as nat),
    decreases n,
{
    if n >= 10 {
        push_decimal(out, n / 10);
    }
    let d = (n % 10) as u32;
    out.push(digit_char(d));
}

/// Appends the UTF-16 code units of `s` in hexadecimal.
pub fn push_utf16_hex(out: &mut Vec<char>, s: &Vec<char>)
    ensures
        final(out)@ == old(out)@ + utf16_hex(s@),
{
    let ghost start = out@;
    let mut i: usize = 0;
    while i < s.len()
        invariant
            i <= s@.len(),
            out@ == start + utf16_hex(s@.take(i as int)),
        decreases s@.len() - i,
    {
        let c = s[i];
        let v = c as u32;
        proof {
            vstd::utf8::char_is_scalar(c);
            assert(s@.take(i + 1).drop_last() =~= s@.take(i as int));
            assert(s@.take(i + 1).last() == c);
        }
        if v < 0x10000 {
            push_hex4(out, v);
        } else {
            let w = v - 0x10000;
            push_hex4(out, 0xD800 + w / 1024);
            push_hex4(out, 0xDC00 + w % 1024);
        }
        i += 1;
        proof {
            assert(out@ =~= start + utf16_hex(s@.take(i as int)));
        }
    }
    assert(s@.take(s@.len() as int) =~= s@);
}

/// The two big-endian bytes of each glyph id, as a CID in a PDF string.
pub open spec fn cid_bytes(ids: Seq<u32>) -> Seq<u8>
    decreases ids.len(),
{
    if ids.len() == 0 {
        Seq::empty()
    } else {
        cid_bytes(ids.drop_last()) + seq![(ids.last() / 256) as u8, (ids.last() % 256) as u8]
    }
}

/// Reading the codes back gives the glyph ids: two bytes per id, and the
/// bytes at `2 * i` and `2 * i + 1` are the high and low byte of id `i`.
pub proof fn law_cid_bytes_decode(ids: Seq<u32>, i: int)
    requires
        forall|k: int| 0 <= k < ids.len() ==> ids[k] <= 0xFFFF,
        0 <= i < ids.len(),
    ensures
        cid_bytes(ids).len() == 2 * ids.len(),
        cid_bytes(ids)[2 * i] as int * 256 + cid_bytes(ids)[2 * i + 1] as int == ids[i] as int,
    decreases ids.len(),
{
    lemma_cid_bytes_len(ids);
    let last = ids.len() - 1;
    if i < last {
        law_cid_bytes_decode(ids.drop_last(), i);
        assert(ids.drop_last()[i] == ids[i]);
        assert(cid_bytes(ids)[2 * i] == cid_bytes(ids.drop_last())[2 * i]);
        assert(cid_bytes(ids)[2 * i + 1] == cid_bytes(ids.drop_last())[2 * i + 1]);
    } else {
        lemma_cid_bytes_len(ids.drop_last());
        let v = ids.last();
        assert(v <= 0xFFFF);
        assert(cid_bytes(ids)[2 * i] == (v / 256) as u8);
        assert(cid_bytes(ids)[2 * i + 1] == (v % 256) as u8);
    }
}

/// Two bytes per id.
proof fn lemma_cid_bytes_len(ids: Seq<u32>)
    ensures
        cid_bytes(ids).len() == 2 * ids.len(),
    decreases ids.len(),
{
    if ids.len() > 0 {
        lemma_cid_bytes_len(ids.drop_last());
    }
}

/// The glyph ids as two-byte big-endian character codes, or an error where
/// one of them does not fit in two bytes.
pub fn encode_cids(glyph_ids: &[u32]) -> (r: Result<Vec<u8>, AppError>)
    ensures
        match r {
            Ok(bytes) => (forall|i: int| 0 <= i < glyph_ids@.len() ==> glyph_ids@[i] <= 0xFFFF) && bytes@ == cid_bytes(glyph_ids@),
            Err(e) => (exists|i: int| 0 <= i < glyph_ids@.len() && glyph_ids@[i] > 0xFFFF)
                && e == AppError::PdfWriter(e->PdfWriter_0) && e->PdfWriter_0@ == "glyph ID exceeds PDF CID range"@,
        },
{
    let mut bytes: Vec<u8> = Vec::new();
    let mut i: usize = 0;
    while i < glyph_ids.len()
        invariant
            i <= glyph_ids@.len(),
            forall|k: int| 0 <= k < i ==> glyph_ids@[k] <= 0xFFFF,
            bytes@ == cid_bytes(glyph_ids@.take(i as int)),
        decreases glyph_ids@.len() - i,
    {
        let gid = glyph_ids[i];
        if gid > 0xFFFF {
            return Err(AppError::PdfWriter(String::from_str("glyph ID exceeds PDF CID range")));
        }
        bytes.push((gid / 256) as u8);
        bytes.push((gid % 256) as u8);
        proof {
            assert(glyph_ids@.take(i + 1).drop_last() =~= glyph_ids@.take(i as int));
        }
        i += 1;
        proof {
            assert(bytes@ =~= cid_bytes(glyph_ids@.take(i as int)));
        }
    }
    assert(glyph_ids@.take(glyph_ids@.len() as int) =~= glyph_ids@);
    Ok(bytes)
}

} // verus!
