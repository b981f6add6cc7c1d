//! Data conversions and option parsing for the block-copying utility:
//! character-set translation tables, case folding, byte swapping, block
//! padding and unpadding, and the `key=value` command line.

use crate::edcmd::{is_ascii_alpha, spec_is_ascii_alpha};
use crate::lexer::{digit_run_val, find_char, is_digit, lemma_digit_run_val_monotone,
    lemma_digit_run_val_nonneg, spec_digit_val, spec_is_digit};
use crate::text::chars_of;
use vstd::string::StrSliceExecFns;
use vstd::prelude::*;

verus! {

pub const DEF_BLOCK_SIZE: usize = 512;

pub const CONV_ASCII_IBM: [u8; 256] = [
    0x0, 0x1, 0x2, 0x3, 0x37, 0x2d, 0x2e, 0x2f, 0x16, 0x5, 0x25, 0xb, 0xc, 0xd, 0xe, 0xf, 0x10,
    0x11, 0x12, 0x13, 0x3c, 0x3d, 0x32, 0x26, 0x18, 0x19, 0x3f, 0x27, 0x1c, 0x1d, 0x1e, 0x1f, 0x40,
    0x5a, 0x7f, 0x7b, 0x5b, 0x6c, 0x50, 0x7d, 0x4d, 0x5d, 0x5c, 0x4e, 0x6b, 0x60, 0x4b, 0x61, 0xf0,
    0xf1, 0xf2, 0xf3, 0xf4, 0xf5, 0xf6, 0xf7, 0xf8, 0xf9, 0x7a, 0x5e, 0x4c, 0x7e, 0x6e, 0x6f, 0x7c,
    0xc1, 0xc2, 0xc3, 0xc4, 0xc5, 0xc6, 0xc7, 0xc8, 0xc9, 0xd1, 0xd2, 0xd3, 0xd4, 0xd5, 0xd6, 0xd7,
    0xd8, 0xd9, 0xe2, 0xe3, 0xe4, 0xe5, 0xe6, 0xe7, 0xe8, 0xe9, 0xad, 0xe0, 0xbd, 0x5f, 0x6d, 0x79,
    0x81, 0x82, 0x83, 0x84, 0x85, 0x86, 0x87, 0x88, 0x89, 0x91, 0x92, 0x93, 0x94, 0x95, 0x96, 0x97,
    0x98, 0x99, 0xa2, 0xa3, 0xa4, 0xa5, 0xa6, 0xa7, 0xa8, 0xa9, 0xc0, 0x4f, 0xd0, 0xa1, 0x7, 0x20,
    0x21, 0x22, 0x23, 0x24, 0x15, 0x6, 0x17, 0x28, 0x29, 0x2a, 0x2b, 0x2c, 0x9, 0xa, 0x1b, 0x30,
    0x31, 0x1a, 0x33, 0x34, 0x35, 0x36, 0x8, 0x38, 0x39, 0x3a, 0x3b, 0x4, 0x14, 0x3e, 0xe1, 0x41,
    0x42, 0x43, 0x44, 0x45, 0x46, 0x47, 0x48, 0x49, 0x51, 0x52, 0x53, 0x54, 0x55, 0x56, 0x57, 0x58,
    0x59, 0x62, 0x63, 0x64, 0x65, 0x66, 0x67, 0x68, 0x69, 0x70, 0x71, 0x72, 0x73, 0x74, 0x75, 0x76,
    0x77, 0x78, 0x80, 0x8a, 0x8b, 0x8c, 0x8d, 0x8e, 0x8f, 0x90, 0x9a, 0x9b, 0x9c, 0x9d, 0x9e, 0x9f,
    0xa0, 0xaa, 0xab, 0xac, 0xad, 0xae, 0xaf, 0xb0, 0xb1, 0xb2, 0xb3, 0xb4, 0xb5, 0xb6, 0xb7, 0xb8,
    0xb9, 0xba, 0xbb, 0xbc, 0xbd, 0xbe, 0xbf, 0xca, 0xcb, 0xcc, 0xcd, 0xce, 0xcf, 0xda, 0xdb, 0xdc,
    0xdd, 0xde, 0xdf, 0xea, 0xeb, 0xec, 0xed, 0xee, 0xef, 0xfa, 0xfb, 0xfc, 0xfd, 0xfe, 0xff,
];

pub const CONV_EBCDIC_ASCII: [u8; 256] = [
    0x0, 0x1, 0x2, 0x3, 0x9c, 0x9, 0x86, 0x7f, 0x97, 0x8d, 0x8e, 0xb, 0xc, 0xd, 0xe, 0xf, 0x10,
    0x11, 0x12, 0x13, 0x9d, 0x85, 0x8, 0x87, 0x18, 0x19, 0x92, 0x8f, 0x1c, 0x1d, 0x1e, 0x1f, 0x80,
    0x81, 0x82, 0x83, 0x84, 0xa, 0x17, 0x1b, 0x88, 0x89, 0x8a, 0x8b, 0x8c, 0x5, 0x6, 0x7, 0x90,
    0x91, 0x16, 0x93, 0x94, 0x95, 0x96, 0x4, 0x98, 0x99, 0x9a, 0x9b, 0x14, 0x15, 0x9e, 0x1a, 0x20,
    0xa0, 0xa1, 0xa2, 0xa3, 0xa4, 0xa5, 0xa6, 0xa7, 0xa8, 0xd5, 0x2e, 0x3c, 0x28, 0x2b, 0x7c, 0x26,
    0xa9, 0xaa, 0xab, 0xac, 0xad, 0xae, 0xaf, 0xb0, 0xb1, 0x21, 0x24, 0x2a, 0x29, 0x3b, 0x7e, 0x2d,
    0x2f, 0xb2, 0xb3, 0xb4, 0xb5, 0xb6, 0xb7, 0xb8, 0xb9, 0xcb, 0x2c, 0x25, 0x5f, 0x3e, 0x3f, 0xba,
    0xbb, 0xbc, 0xbd, 0xbe, 0xbf, 0xc0, 0xc1, 0xc2, 0x60, 0x3a, 0x23, 0x40, 0x27, 0x3d, 0x22, 0xc3,
    0x61, 0x62, 0x63, 0x64, 0x65, 0x66, 0x67, 0x68, 0x69, 0xc4, 0xc5, 0xc6, 0xc7, 0xc8, 0xc9, 0xca,
    0x6a, 0x6b, 0x6c, 0x6d, 0x6e, 0x6f, 0x70, 0x71, 0x72, 0x5e, 0xcc, 0xcd, 0xce, 0xcf, 0xd0, 0xd1,
    0xe5, 0x73, 0x74, 0x75, 0x76, 0x77, 0x78, 0x79, 0x7a, 0xd2, 0xd3, 0xd4, 0x5b, 0xd6, 0xd7, 0xd8,
    0xd9, 0xda, 0xdb, 0xdc, 0xdd, 0xde, 0xdf, 0xe0, 0xe1, 0xe2, 0xe3, 0xe4, 0x5d, 0xe6, 0xe7, 0x7b,
    0x41, 0x42, 0x43, 0x44, 0x45, 0x46, 0x47, 0x48, 0x49, 0xe8, 0xe9, 0xea, 0xeb, 0xec, 0xed, 0x7d,
    0x4a, 0x4b, 0x4c, 0x4d, 0x4e, 0x4f, 0x50, 0x51, 0x52, 0xee, 0xef, 0xf0, 0xf1, 0xf2, 0xf3, 0x5c,
    0x9f, 0x53, 0x54, 0x55, 0x56, 0x57, 0x58, 0x59, 0x5a, 0xf4, 0xf5, 0xf6, 0xf7, 0xf8, 0xf9, 0x30,
    0x31, 0x32, 0x33, 0x34, 0x35, 0x36, 0x37, 0x38, 0x39, 0xfa, 0xfb, 0xfc, 0xfd, 0xfe, 0xff,
];

pub const CONV_ASCII_EBCDIC: [u8; 256] = [
    0x0, 0x1, 0x2, 0x3, 0x37, 0x2d, 0x2e, 0x2f, 0x16, 0x5, 0x25, 0xb, 0xc, 0xd, 0xe, 0xf, 0x10,
    0x11, 0x12, 0x13, 0x3c, 0x3d, 0x32, 0x26, 0x18, 0x19, 0x3f, 0x27, 0x1c, 0x1d, 0x1e, 0x1f, 0x40,
    0x5a, 0x7f, 0x7b, 0x5b, 0x6c, 0x50, 0x7d, 0x4d, 0x5d, 0x5c, 0x4e, 0x6b, 0x60, 0x4b, 0x61, 0xf0,
    0xf1, 0xf2, 0xf3, 0xf4, 0xf5, 0xf6, 0xf7, 0xf8, 0xf9, 0x7a, 0x5e, 0x4c, 0x7e, 0x6e, 0x6f, 0x7c,
    0xc1, 0xc2, 0xc3, 0xc4, 0xc5, 0xc6, 0xc7, 0xc8, 0xc9, 0xd1, 0xd2, 0xd3, 0xd4, 0xd5, 0xd6, 0xd7,
    0xd8, 0xd9, 0xe2, 0xe3, 0xe4, 0xe5, 0xe6, 0xe7, 0xe8, 0xe9, 0xad, 0xe0, 0xbd, 0x9a, 0x6d, 0x79,
    0x81, 0x82, 0x83, 0x84, 0x85, 0x86, 0x87, 0x88, 0x89, 0x91, 0x92, 0x93, 0x94, 0x95, 0x96, 0x97,
    0x98, 0x99, 0xa2, 0xa3, 0xa4, 0xa5, 0xa6, 0xa7, 0xa8, 0xa9, 0xc0, 0x4f, 0xd0, 0x5f, 0x7, 0x20,
    0x21, 0x22, 0x23, 0x24, 0x15, 0x6, 0x17, 0x28, 0x29, 0x2a, 0x2b, 0x2c, 0x9, 0xa, 0x1b, 0x30,
    0x31, 0x1a, 0x33, 0x34, 0x35, 0x36, 0x8, 0x38, 0x39, 0x3a, 0x3b, 0x4, 0x14, 0x3e, 0xe1, 0x41,
    0x42, 0x43, 0x44, 0x45, 0x46, 0x47, 0x48, 0x49, 0x51, 0x52, 0x53, 0x54, 0x55, 0x56, 0x57, 0x58,
    0x59, 0x62, 0x63, 0x64, 0x65, 0x66, 0x67, 0x68, 0x69, 0x70, 0x71, 0x72, 0x73, 0x74, 0x75, 0x76,
    0x77, 0x78, 0x80, 0x8a, 0x8b, 0x8c, 0x8d, 0x8e, 0x8f, 0x90, 0x6a, 0x9b, 0x9c, 0x9d, 0x9e, 0x9f,
    0xa0, 0xaa, 0xab, 0xac, 0x4a, 0xae, 0xaf, 0xb0, 0xb1, 0xb2, 0xb3, 0xb4, 0xb5, 0xb6, 0xb7, 0xb8,
    0xb9, 0xba, 0xbb, 0xbc, 0xa1, 0xbe, 0xbf, 0xca, 0xcb, 0xcc, 0xcd, 0xce, 0xcf, 0xda, 0xdb, 0xdc,
    0xdd, 0xde, 0xdf, 0xea, 0xeb, 0xec, 0xed, 0xee, 0xef, 0xfa, 0xfb, 0xfc, 0xfd, 0xfe, 0xff,
];

/// Which character-set translation to apply.
#[derive(Debug, Clone, Copy, PartialEq, Eq, Structural)]
pub enum AsciiConv {
    Ascii,
    Ebcdic,
    Ibm,
}

/// One requested conversion step.
#[derive(Debug, Clone, Copy, PartialEq, Eq, Structural)]
pub enum Conversion {
    Ascii(AsciiConv),
    Lcase,
    Ucase,
    Swab,
    Block,
    Unblock,
    Sync,
}

/// One byte through the table selected by `a`.
pub open spec fn spec_table_byte(a: AsciiConv, b: u8) -> u8 {
    match a {
        AsciiConv::Ascii => CONV_EBCDIC_ASCII@[b as int],
        AsciiConv::Ebcdic => CONV_ASCII_EBCDIC@[b as int],
        AsciiConv::Ibm => CONV_ASCII_IBM@[b as int],
    }
}

/// Lower-casing of one ASCII byte.
pub open spec fn spec_lcase(b: u8) -> u8 {
    if 65 <= b <= 90 {
        (b + 32) as u8
    } else {
        b
    }
}

/// Upper-casing of one ASCII byte.
pub open spec fn spec_ucase(b: u8) -> u8 {
    if 97 <= b <= 122 {
        (b - 32) as u8
    } else {
        b
    }
}

/// The whole data translated through the table selected by `a`.
pub open spec fn ascii_conv_seq(d: Seq<u8>, a: AsciiConv) -> Seq<u8> {
    Seq::new(d.len(), |i: int| spec_table_byte(a, d[i]))
}

pub open spec fn lcase_seq(d: Seq<u8>) -> Seq<u8> {
    Seq::new(d.len(), |i: int| spec_lcase(d[i]))
}

pub open spec fn ucase_seq(d: Seq<u8>) -> Seq<u8> {
    Seq::new(d.len(), |i: int| spec_ucase(d[i]))
}

/// Adjacent bytes exchanged pairwise; a trailing unpaired byte stays.
pub open spec fn swab_seq(d: Seq<u8>) -> Seq<u8> {
    Seq::new(
        d.len(),
        |i: int|
            if i % 2 == 0 {
                if i + 1 < d.len() {
                    d[i + 1]
                } else {
                    d[i]
                }
            } else {
                d[i - 1]
            },
    )
}

/// Data padded with zero bytes up to the block size.
pub open spec fn sync_seq(d: Seq<u8>, block_size: int) -> Seq<u8> {
    if d.len() >= block_size {
        d
    } else {
        d + Seq::new((block_size - d.len()) as nat, |i: int| 0u8)
    }
}

/// Translate every byte through the chosen table.
pub fn convert_ascii(data: &mut Vec<u8>, ascii_conv: &AsciiConv)
    ensures
        final(data)@ == ascii_conv_seq(old(data)@, *ascii_conv),
{
    let n = data.len();
    let mut i: usize = 0;
    while i < n
        invariant
            i <= n,
            n == data@.len(),
            n == old(data)@.len(),
            forall|k: int| i <= k < n ==> data@[k] == old(data)@[k],
            forall|k: int| 0 <= k < i ==> data@[k] == spec_table_byte(*ascii_conv, old(data)@[k]),
        decreases n - i,
    {
        let b = data[i];
        let mapped: u8 = match ascii_conv {
            AsciiConv::Ascii => CONV_EBCDIC_ASCII[b as usize],
            AsciiConv::Ebcdic => CONV_ASCII_EBCDIC[b as usize],
            AsciiConv::Ibm => CONV_ASCII_IBM[b as usize],
        };
        data.set(i, mapped);
        i = i + 1;
    }
    proof {
        assert(data@ =~= ascii_conv_seq(old(data)@, *ascii_conv));
    }
}

/// Swap each pair of adjacent bytes; a trailing unpaired byte stays.
pub fn convert_swab(data: &mut Vec<u8>)
    ensures
        final(data)@ == swab_seq(old(data)@),
{
    let n = data.len();
    let mut i: usize = 0;
    while i + 1 < n
        invariant
            n == data@.len(),
            n == old(data)@.len(),
            i <= n + 1,
            i % 2 == 0,
            forall|k: int| i <= k < n ==> data@[k] == old(data)@[k],
            forall|k: int| 0 <= k < i ==> data@[k] == swab_seq(old(data)@)[k],
        decreases n - i,
    {
        let a = data[i];
        let b = data[i + 1];
        data.set(i, b);
        data.set(i + 1, a);
        i = i + 2;
    }
    proof {
        assert(data@ =~= swab_seq(old(data)@));
    }
}

/// Lower-case every ASCII letter in place.
pub fn convert_lcase(data: &mut Vec<u8>)
    ensures
        final(data)@ == lcase_seq(old(data)@),
{
    let n = data.len();
    let mut i: usize = 0;
    while i < n
        invariant
            i <= n,
            n == data@.len(),
            n == old(data)@.len(),
            forall|k: int| i <= k < n ==> data@[k] == old(data)@[k],
            forall|k: int| 0 <= k < i ==> data@[k] == spec_lcase(old(data)@[k]),
        decreases n - i,
    {
        let b = data[i];
        if b >= 65 && b <= 90 {
            data.set(i, b + 32);
        }
        i = i + 1;
    }
    proof {
        assert(data@ =~= lcase_seq(old(data)@));
    }
}

/// Upper-case every ASCII letter in place.
pub fn convert_ucase(data: &mut Vec<u8>)
    ensures
        final(data)@ == ucase_seq(old(data)@),
{
    let n = data.len();
    let mut i: usize = 0;
    while i < n
        invariant
            i <= n,
            n == data@.len(),
            n == old(data)@.len(),
            forall|k: int| i <= k < n ==> data@[k] == old(data)@[k],
            forall|k: int| 0 <= k < i ==> data@[k] == spec_ucase(old(data)@[k]),
        decreases n - i,
    {
        let b = data[i];
        if b >= 97 && b <= 122 {
            data.set(i, b - 32);
        }
        i = i + 1;
    }
    proof {
        assert(data@ =~= ucase_seq(old(data)@));
    }
}

/// Pad a short block with zero bytes up to the block size.
pub fn convert_sync(data: &mut Vec<u8>, block_size: usize)
    ensures
        final(data)@ == sync_seq(old(data)@, block_size as int),
{
    while data.len() < block_size
        invariant
            forall|i: int| 0 <= i < old(data)@.len() ==> data@[i] == old(data)@[i],
            forall|i: int| old(data)@.len() <= i < data@.len() ==> data@[i] == 0u8,
            old(data)@.len() <= data@.len(),
            data@.len() <= block_size || data@.len() == old(data)@.len(),
        decreases block_size - data@.len(),
    {
        data.push(0u8);
    }
    proof {
        assert(data@ =~= sync_seq(old(data)@, block_size as int));
    }
}

/// First position at or after `i` holding byte `b`, or the length.
pub open spec fn find_byte(s: Seq<u8>, b: u8, i: int) -> int
    decreases s.len() - i,
{
    if 0 <= i < s.len() {
        if s[i] == b {
            i
        } else {
            find_byte(s, b, i + 1)
        }
    } else {
        i
    }
}

/// A line padded with spaces to exactly `cbs` bytes (or truncated to it).
pub open spec fn pad_line(line: Seq<u8>, cbs: int) -> Seq<u8> {
    if line.len() >= cbs {
        line.subrange(0, cbs)
    } else {
        line + Seq::new((cbs - line.len()) as nat, |j: int| 32u8)
    }
}

/// The search position never moves backwards.
pub proof fn lemma_find_byte_ge(s: Seq<u8>, b: u8, i: int)
    ensures
        i <= find_byte(s, b, i),
    decreases s.len() - i,
{
    if 0 <= i < s.len() && s[i] != b {
        lemma_find_byte_ge(s, b, i + 1);
    }
}

/// The blocked form of newline-separated data: each newline-terminated
/// line, and a final unterminated one if any, becomes one fixed-size
/// space-padded record.
pub open spec fn block_spec(data: Seq<u8>, cbs: int) -> Seq<u8>
    decreases data.len(),
    via block_spec_dec
{
    if data.len() == 0 {
        Seq::<u8>::empty()
    } else {
        let k = find_byte(data, 10u8, 0);
        if k < data.len() {
            pad_line(data.subrange(0, k), cbs) + block_spec(
                data.subrange(k + 1, data.len() as int),
                cbs,
            )
        } else {
            pad_line(data, cbs)
        }
    }
}

#[via_fn]
proof fn block_spec_dec(data: Seq<u8>, cbs: int) {
    lemma_find_byte_ge(data, 10u8, 0);
}

/// If no occurrence lies in front of `j` and `s[j]` is `b`, the search
/// finds `j`; with no occurrence at all, it runs to the end.
proof fn lemma_find_byte_at(s: Seq<u8>, b: u8, i: int, j: int)
    requires
        0 <= i <= j <= s.len(),
        forall|k: int| i <= k < j ==> s[k] != b,
        j < s.len() ==> s[j] == b,
        j == s.len() ==> forall|k: int| i <= k < s.len() ==> s[k] != b,
    ensures
        find_byte(s, b, i) == j,
    decreases j - i,
{
    if i < j {
        lemma_find_byte_at(s, b, i + 1, j);
    }
}

/// Blocking a line, its newline and the rest emits one record and then
/// blocks the rest.
proof fn lemma_block_spec_line(line: Seq<u8>, rest: Seq<u8>, cbs: int)
    requires
        forall|k: int| 0 <= k < line.len() ==> line[k] != 10u8,
    ensures
        block_spec(line + seq![10u8] + rest, cbs) == pad_line(line, cbs) + block_spec(rest, cbs),
{
    let d = line + seq![10u8] + rest;
    assert(d.len() > 0);
    assert(d[line.len() as int] == 10u8);
    assert forall|k: int| 0 <= k < line.len() implies d[k] != 10u8 by {
        assert(d[k] == line[k]);
    }
    lemma_find_byte_at(d, 10u8, 0, line.len() as int);
    assert(d.subrange(0, line.len() as int) =~= line);
    assert(d.subrange(line.len() as int + 1, d.len() as int) =~= rest);
}

/// Blocking a non-empty final line without a newline emits one record.
proof fn lemma_block_spec_tail(line: Seq<u8>, cbs: int)
    requires
        line.len() > 0,
        forall|k: int| 0 <= k < line.len() ==> line[k] != 10u8,
    ensures
        block_spec(line, cbs) == pad_line(line, cbs),
{
    lemma_find_byte_at(line, 10u8, 0, line.len() as int);
}

/// Replace newline-separated lines by fixed-size space-padded records.
pub fn convert_block(data: &mut Vec<u8>, cbs: usize)
    ensures
        final(data)@ == block_spec(old(data)@, cbs as int),
{
    let mut result: Vec<u8> = Vec::new();
    let mut line: Vec<u8> = Vec::new();
    let n = data.len();
    let mut i: usize = 0;
    proof {
        assert(line@ + old(data)@.subrange(0, n as int) =~= old(data)@);
    }
    while i < n
        invariant
            i <= n,
            n == data@.len(),
            data@ == old(data)@,
            (forall|k: int| 0 <= k < line@.len() ==> line@[k] != 10u8),
            block_spec(old(data)@, cbs as int) == result@ + block_spec(
                line@ + old(data)@.subrange(i as int, n as int),
                cbs as int,
            ),
        decreases n - i,
    {
        let byte = data[i];
        let ghost rest = old(data)@.subrange(i + 1, n as int);
        if byte == 10u8 {
            proof {
                assert(line@ + old(data)@.subrange(i as int, n as int) =~= line@ + seq![10u8]
                    + rest);
                lemma_block_spec_line(line@, rest, cbs as int);
            }
            append_record(&mut result, &line, cbs);
            line = Vec::new();
        } else {
            proof {
                assert(line@ + old(data)@.subrange(i as int, n as int) =~= line@.push(
                    old(data)@[i as int],
                ) + rest);
            }
            line.push(byte);
        }
        i = i + 1;
    }
    if line.len() > 0 {
        proof {
            assert(line@ + old(data)@.subrange(n as int, n as int) =~= line@);
            lemma_block_spec_tail(line@, cbs as int);
        }
        append_record(&mut result, &line, cbs);
    } else {
        proof {
            assert(line@ + old(data)@.subrange(n as int, n as int) =~= line@);
        }
    }
    *data = result;
}

/// Append `pad_line(line, cbs)` to `result`.
fn append_record(result: &mut Vec<u8>, line: &Vec<u8>, cbs: usize)
    ensures
        final(result)@ == old(result)@ + pad_line(line@, cbs as int),
{
    let ghost target = pad_line(line@, cbs as int);
    proof {
        assert(target.len() == cbs);
    }
    let mut j: usize = 0;
    while j < cbs
        invariant
            j <= cbs,
            target == pad_line(line@, cbs as int),
            target.len() == cbs,
            result@ == old(result)@ + target.subrange(0, j as int),
        decreases cbs - j,
    {
        if j < line.len() {
            result.push(line[j]);
        } else {
            result.push(32u8);
        }
        j = j + 1;
        proof {
            assert(result@ =~= old(result)@ + target.subrange(0, j as int));
        }
    }
    proof {
        assert(result@ =~= old(result)@ + target);
    }
}

/// Trailing spaces removed, except that an all-space record is kept whole
/// and becomes one full-width line.
pub open spec fn trim_trailing(s: Seq<u8>) -> Seq<u8>
    decreases s.len(),
{
    if s.len() > 0 && s.last() == 32u8 {
        trim_trailing(s.drop_last())
    } else {
        s
    }
}

pub open spec fn all_spaces(s: Seq<u8>) -> bool {
    forall|k: int| 0 <= k < s.len() ==> s[k] == 32u8
}

pub open spec fn unblock_record(s: Seq<u8>) -> Seq<u8> {
    if all_spaces(s) {
        s
    } else {
        trim_trailing(s)
    }
}

/// The unblocked form: each record of `cbs` bytes (the final one may be
/// shorter) has its trailing spaces removed and a newline appended.
pub open spec fn unblock_spec(data: Seq<u8>, cbs: int) -> Seq<u8>
    decreases data.len(),
{
    if data.len() == 0 {
        Seq::<u8>::empty()
    } else {
        let c = if 1 <= cbs <= data.len() {
            cbs
        } else {
            data.len() as int
        };
        unblock_record(data.subrange(0, c)) + seq![10u8] + unblock_spec(
            data.subrange(c, data.len() as int),
            cbs,
        )
    }
}

/// Trailing-space removal keeps everything up to and including the last
/// non-space byte.
proof fn lemma_trim_trailing_at(s: Seq<u8>, p: int)
    requires
        0 <= p < s.len(),
        s[p] != 32u8,
        forall|k: int| p < k < s.len() ==> s[k] == 32u8,
    ensures
        trim_trailing(s) == s.subrange(0, p + 1),
    decreases s.len(),
{
    if p == s.len() - 1 {
        assert(s.subrange(0, s.len() as int) =~= s);
    } else {
        assert(s.last() == 32u8);
        assert forall|k: int| p < k < s.drop_last().len() implies s.drop_last()[k] == 32u8 by {
            assert(s.drop_last()[k] == s[k]);
        }
        lemma_trim_trailing_at(s.drop_last(), p);
        assert(s.drop_last().subrange(0, p + 1) =~= s.subrange(0, p + 1));
    }
}

/// Split fixed-size records back into newline-terminated lines.
pub fn convert_unblock(data: &mut Vec<u8>, cbs: usize)
    requires
        cbs > 0,
    ensures
        final(data)@ == unblock_spec(old(data)@, cbs as int),
{
    let mut result: Vec<u8> = Vec::new();
    let n = data.len();
    let mut i: usize = 0;
    proof {
        assert(old(data)@.subrange(0, n as int) =~= old(data)@);
    }
    while i < n
        invariant
            i <= n,
            n == data@.len(),
            data@ == old(data)@,
            cbs > 0,
            unblock_spec(old(data)@, cbs as int) == result@ + unblock_spec(
                old(data)@.subrange(i as int, n as int),
                cbs as int,
            ),
        decreases n - i,
    {
        let c = if n - i < cbs {
            n - i
        } else {
            cbs
        };
        let ghost chunk = old(data)@.subrange(i as int, i + c);
        // Find one past the last non-space byte of the record; an all-space
        // record is kept whole.
        let mut take: usize = c;
        let mut found = false;
        let mut back: usize = c;
        while back > 0 && !found
            invariant
                back <= c,
                i + c <= n,
                n == data@.len(),
                data@ == old(data)@,
                chunk == old(data)@.subrange(i as int, i + c),
                !found ==> take == c,
                !found ==> forall|k: int| back <= k < c ==> chunk[k] == 32u8,
                found ==> {
                    &&& back < c
                    &&& chunk[back as int] != 32u8
                    &&& forall|k: int| back < k < c ==> chunk[k] == 32u8
                    &&& take == back + 1
                },
            decreases back,
        {
            if data[i + back - 1] != 32u8 {
                found = true;
                back = back - 1;
                take = back + 1;
            } else {
                back = back - 1;
            }
        }
        proof {
            let rem = old(data)@.subrange(i as int, n as int);
            assert(rem.subrange(0, c as int) =~= chunk);
            assert(rem.subrange(c as int, rem.len() as int) =~= old(data)@.subrange(i + c, n as int));
            if found {
                lemma_trim_trailing_at(chunk, take - 1);
                assert(!all_spaces(chunk));
                assert(unblock_record(chunk) == chunk.subrange(0, take as int));
            } else {
                assert(all_spaces(chunk));
                assert(chunk.subrange(0, take as int) =~= chunk);
                assert(unblock_record(chunk) == chunk.subrange(0, take as int));
            }
        }
        // Copy the kept part of the record, then the newline.
        let mut j: usize = 0;
        let ghost pre_result = result@;
        while j < take
            invariant
                j <= take,
                take <= c,
                i + c <= n,
                n == data@.len(),
                data@ == old(data)@,
                chunk == old(data)@.subrange(i as int, i + c),
                result@ == pre_result + chunk.subrange(0, j as int),
            decreases take - j,
        {
            result.push(data[i + j]);
            j = j + 1;
            proof {
                assert(result@ =~= pre_result + chunk.subrange(0, j as int));
            }
        }
        result.push(10u8);
        proof {
            assert(result@ =~= pre_result + (chunk.subrange(0, take as int) + seq![10u8]));
        }
        i = i + c;
    }
    proof {
        assert(old(data)@.subrange(n as int, n as int) =~= Seq::<u8>::empty());
    }
    *data = result;
}

/// The result of one conversion step on the whole data.
pub open spec fn conv_spec(d: Seq<u8>, c: Conversion, ibs: int, cbs: int) -> Seq<u8> {
    match c {
        Conversion::Ascii(a) => ascii_conv_seq(d, a),
        Conversion::Lcase => lcase_seq(d),
        Conversion::Ucase => ucase_seq(d),
        Conversion::Swab => swab_seq(d),
        Conversion::Sync => sync_seq(d, ibs),
        Conversion::Block => block_spec(d, cbs),
        Conversion::Unblock => if cbs > 0 {
            unblock_spec(d, cbs)
        } else {
            d
        },
    }
}

/// All conversion steps folded over the data, in order.
pub open spec fn apply_all(d: Seq<u8>, cs: Seq<Conversion>, ibs: int, cbs: int) -> Seq<u8>
    decreases cs.len(),
{
    if cs.len() == 0 {
        d
    } else {
        apply_all(conv_spec(d, cs[0], ibs, cbs), cs.skip(1), ibs, cbs)
    }
}

/// Errors of the option parsers.
#[derive(Debug, Clone, Copy, PartialEq, Eq, Structural)]
pub enum DdError {
    InvalidOption,
    InvalidConvOption,
    InvalidBlockSizeSuffix,
    InvalidNumber,
    NumberOverflow,
}

/// The whole configuration of one copy run.
#[derive(Debug)]
pub struct Config {
    pub ifile: String,
    pub ofile: String,
    pub ibs: usize,
    pub obs: usize,
    pub cbs: usize,
    pub seek: usize,
    pub skip: usize,
    pub count: usize,
    pub conversions: Vec<Conversion>,
    pub noerror: bool,
    pub notrunc: bool,
}

impl Default for Config {
    /// Empty file names, default block sizes, no conversions.
    fn default() -> (r: Self)
        ensures
            r.ifile@.len() == 0,
            r.ofile@.len() == 0,
            r.ibs == DEF_BLOCK_SIZE,
            r.obs == DEF_BLOCK_SIZE,
            r.cbs == 0,
            r.seek == 0,
            r.skip == 0,
            r.count == 0,
            r.conversions@.len() == 0,
            !r.noerror,
            !r.notrunc,
    {
        Config {
            ifile: String::new(),
            ofile: String::new(),
            ibs: DEF_BLOCK_SIZE,
            obs: DEF_BLOCK_SIZE,
            cbs: 0,
            seek: 0,
            skip: 0,
            count: 0,
            conversions: Vec::new(),
            noerror: false,
            notrunc: false,
        }
    }
}

/// Apply every requested conversion, in order.  An `unblock` conversion
/// needs a positive conversion block size, which the caller must have
/// checked beforehand.
pub fn apply_conversions(data: &mut Vec<u8>, config: &Config)
    requires
        forall|k: int|
            0 <= k < config.conversions@.len() ==> (#[trigger] config.conversions@[k]
                == Conversion::Unblock ==> config.cbs > 0),
    ensures
        final(data)@ == apply_all(
            old(data)@,
            config.conversions@,
            config.ibs as int,
            config.cbs as int,
        ),
{
    let ghost convs = config.conversions@;
    let n = config.conversions.len();
    let mut k: usize = 0;
    proof {
        assert(convs.skip(0) =~= convs);
    }
    while k < n
        invariant
            k <= n,
            n == convs.len(),
            convs == config.conversions@,
            forall|j: int|
                0 <= j < convs.len() ==> (#[trigger] convs[j] == Conversion::Unblock
                    ==> config.cbs > 0),
            apply_all(old(data)@, convs, config.ibs as int, config.cbs as int) == apply_all(
                data@,
                convs.skip(k as int),
                config.ibs as int,
                config.cbs as int,
            ),
        decreases n - k,
    {
        let ghost pre = data@;
        let c = config.conversions[k];
        match c {
            Conversion::Ascii(a) => convert_ascii(data, &a),
            Conversion::Lcase => convert_lcase(data),
            Conversion::Ucase => convert_ucase(data),
            Conversion::Swab => convert_swab(data),
            Conversion::Sync => convert_sync(data, config.ibs),
            Conversion::Block => convert_block(data, config.cbs),
            Conversion::Unblock => convert_unblock(data, config.cbs),
        }
        proof {
            assert(convs.skip(k as int)[0] == convs[k as int]);
            assert(convs.skip(k as int).skip(1) =~= convs.skip(k + 1));
            assert(data@ == conv_spec(pre, convs[k as int], config.ibs as int, config.cbs as int));
        }
        k = k + 1;
    }
    proof {
        assert(convs.skip(n as int).len() == 0);
    }
}

/// Do all characters of `s` hold decimal digits?
pub open spec fn all_digits(s: Seq<char>) -> bool {
    forall|k: int| 0 <= k < s.len() ==> spec_is_digit(#[trigger] s[k])
}

/// Parse a plain decimal number from `chars[start..end)`.  The contract is
/// exact: a non-empty all-digit range gives its value when it fits in
/// `usize`, an overflowing value is reported as such, and anything else is
/// an invalid number.
fn parse_decimal(chars: &Vec<char>, start: usize, end: usize) -> (r: Result<usize, DdError>)
    requires
        start <= end <= chars@.len(),
    ensures
        ({
            let digits = chars@.subrange(start as int, end as int);
            let v = digit_run_val(digits, 0, digits.len() as int);
            &&& (!(digits.len() > 0 && all_digits(digits)) ==> r is Err)
            &&& (digits.len() > 0 && all_digits(digits) && v <= usize::MAX ==> r == Ok::<
                usize,
                DdError,
            >(v as usize))
            &&& (digits.len() > 0 && all_digits(digits) && v > usize::MAX ==> r == Err::<
                usize,
                DdError,
            >(DdError::NumberOverflow))
        }),
{
    let ghost digits = chars@.subrange(start as int, end as int);
    if start == end {
        return Err(DdError::InvalidNumber);
    }
    let mut value: usize = 0;
    let mut i: usize = start;
    proof {
        assert(digit_run_val(digits, 0, 0) == 0);
    }
    while i < end
        invariant
            start <= i <= end <= chars@.len(),
            digits == chars@.subrange(start as int, end as int),
            value == digit_run_val(digits, 0, i - start),
            forall|k: int| 0 <= k < i - start ==> spec_is_digit(#[trigger] digits[k]),
        decreases end - i,
    {
        let c = chars[i];
        proof {
            assert(digits[i - start] == chars@[i as int]);
        }
        if !is_digit(c) {
            return Err(DdError::InvalidNumber);
        }
        let d = c as usize - '0' as usize;
        proof {
            assert(digit_run_val(digits, 0, i - start + 1) == digit_run_val(digits, 0, i - start)
                * 10 + spec_digit_val(digits[i - start]));
        }
        if value > (usize::MAX - d) / 10 {
            proof {
                if all_digits(digits) {
                    lemma_digit_run_val_monotone(digits, 0, i - start + 1, digits.len() as int);
                }
            }
            return Err(DdError::NumberOverflow);
        }
        value = value * 10 + d;
        i = i + 1;
    }
    Ok(value)
}

/// The byte multiplier selected by a block-size suffix letter, or 0 for a
/// letter that is not a valid suffix.
pub open spec fn dd_scale(c: char) -> int {
    if c == 'c' {
        1
    } else if c == 'w' {
        2
    } else if c == 'b' {
        512
    } else if c == 'k' || c == 'K' {
        1024
    } else if c == 'm' || c == 'M' {
        1048576
    } else if c == 'g' || c == 'G' {
        1073741824
    } else {
        0
    }
}

/// Parse a block size: a decimal number with an optional one-letter
/// multiplier suffix.  The contract pins the result for every input: the
/// scaled value when everything is valid and it fits, and the matching
/// error otherwise.
pub fn parse_block_size(s: &str) -> (r: Result<usize, DdError>)
    requires
        s@.len() > 0,
    ensures
        ({
            let last = s@.last();
            let digits = if spec_is_ascii_alpha(last) {
                s@.drop_last()
            } else {
                s@
            };
            let scale = if spec_is_ascii_alpha(last) {
                dd_scale(last)
            } else {
                1
            };
            let v = digit_run_val(digits, 0, digits.len() as int);
            &&& (spec_is_ascii_alpha(last) && dd_scale(last) == 0 ==> r == Err::<usize, DdError>(
                DdError::InvalidBlockSizeSuffix,
            ))
            &&& (scale != 0 && !(digits.len() > 0 && all_digits(digits)) ==> r is Err)
            &&& (scale != 0 && digits.len() > 0 && all_digits(digits) && v * scale <= usize::MAX
                ==> r == Ok::<usize, DdError>((v * scale) as usize))
            &&& (scale != 0 && digits.len() > 0 && all_digits(digits) && v * scale > usize::MAX
                ==> r == Err::<usize, DdError>(DdError::NumberOverflow))
        }),
{
    let chars = chars_of(s);
    let n = chars.len();
    let last = chars[n - 1];
    let scale: usize;
    let digits_end: usize;
    if is_ascii_alpha(last) {
        digits_end = n - 1;
        if last == 'c' {
            scale = 1;
        } else if last == 'w' {
            scale = 2;
        } else if last == 'b' {
            scale = 512;
        } else if last == 'k' || last == 'K' {
            scale = 1024;
        } else if last == 'm' || last == 'M' {
            scale = 1048576;
        } else if last == 'g' || last == 'G' {
            scale = 1073741824;
        } else {
            return Err(DdError::InvalidBlockSizeSuffix);
        }
    } else {
        digits_end = n;
        scale = 1;
    }
    proof {
        if spec_is_ascii_alpha(s@.last()) {
            assert(chars@.subrange(0, digits_end as int) =~= s@.drop_last());
        } else {
            assert(chars@.subrange(0, digits_end as int) =~= s@);
        }
    }
    let size = match parse_decimal(&chars, 0, digits_end) {
        Ok(v) => v,
        Err(e) => {
            proof {
                let digits = chars@.subrange(0, digits_end as int);
                let v = digit_run_val(digits, 0, digits.len() as int);
                if digits.len() > 0 && all_digits(digits) && v > usize::MAX {
                    assert(v * (scale as int) >= v) by (nonlinear_arith)
                        requires
                            v > 0,
                            scale >= 1,
                    ;
                }
            }
            return Err(e);
        },
    };
    proof {
        let digits = chars@.subrange(0, digits_end as int);
        let v = digit_run_val(digits, 0, digits.len() as int);
        if digits.len() > 0 && all_digits(digits) {
            lemma_digit_run_val_nonneg(digits, 0, digits.len() as int);
            assert(v == size as int);
        }
    }
    match size.checked_mul(scale) {
        Some(total) => Ok(total),
        None => Err(DdError::NumberOverflow),
    }
}

/// Compare `chars[start..end)` with a pattern string.
fn range_eq(chars: &Vec<char>, start: usize, end: usize, pat: &str) -> (r: bool)
    requires
        start <= end <= chars@.len(),
    ensures
        r == (chars@.subrange(start as int, end as int) == pat@),
{
    let m = crate::text::str_char_len(pat);
    if end - start != m {
        proof {
            assert(chars@.subrange(start as int, end as int).len() != pat@.len());
        }
        return false;
    }
    let mut j: usize = 0;
    while j < m
        invariant
            j <= m,
            m as nat == pat@.len(),
            start + m == end,
            end <= chars@.len(),
            forall|k: int| 0 <= k < j ==> chars@.subrange(start as int, end as int)[k] == pat@[k],
        decreases m - j,
    {
        if chars[start + j] != pat.get_char(j) {
            proof {
                assert(chars@.subrange(start as int, end as int)[j as int] != pat@[j as int]);
            }
            return false;
        }
        proof {
            assert(chars@.subrange(start as int, end as int)[j as int] == pat@[j as int]);
        }
        j = j + 1;
    }
    proof {
        assert(chars@.subrange(start as int, end as int) =~= pat@);
    }
    true
}

/// Add the conversions named in a comma-separated list to the
/// configuration.  Only the conversion list and the two flags may change;
/// an unknown name is rejected.
pub fn parse_conv_list(config: &mut Config, s: &str) -> (r: Result<(), DdError>)
    ensures
        final(config).ifile == old(config).ifile,
        final(config).ofile == old(config).ofile,
        final(config).ibs == old(config).ibs,
        final(config).obs == old(config).obs,
        final(config).cbs == old(config).cbs,
        final(config).seek == old(config).seek,
        final(config).skip == old(config).skip,
        final(config).count == old(config).count,
        final(config).conversions@.len() >= old(config).conversions@.len(),
        forall|k: int|
            0 <= k < old(config).conversions@.len() ==> final(config).conversions@[k] == old(
                config,
            ).conversions@[k],
        (r is Err ==> r == Err::<(), DdError>(DdError::InvalidConvOption)),
{
    let chars = chars_of(s);
    let n = chars.len();
    let mut start: usize = 0;
    let mut i: usize = 0;
    loop
        invariant_except_break
            start <= i <= n,
            n == chars@.len(),
            config.ifile == old(config).ifile,
            config.ofile == old(config).ofile,
            config.ibs == old(config).ibs,
            config.obs == old(config).obs,
            config.cbs == old(config).cbs,
            config.seek == old(config).seek,
            config.skip == old(config).skip,
            config.count == old(config).count,
            config.conversions@.len() >= old(config).conversions@.len(),
            forall|k: int|
                0 <= k < old(config).conversions@.len() ==> config.conversions@[k] == old(
                    config,
                ).conversions@[k],
        ensures
            config.ifile == old(config).ifile,
            config.ofile == old(config).ofile,
            config.ibs == old(config).ibs,
            config.obs == old(config).obs,
            config.cbs == old(config).cbs,
            config.seek == old(config).seek,
            config.skip == old(config).skip,
            config.count == old(config).count,
            config.conversions@.len() >= old(config).conversions@.len(),
            forall|k: int|
                0 <= k < old(config).conversions@.len() ==> config.conversions@[k] == old(
                    config,
                ).conversions@[k],
        decreases n - i,
    {
        if i == n || chars[i] == ',' {
            let conversion: Option<Conversion> = if range_eq(&chars, start, i, "ascii") {
                Some(Conversion::Ascii(AsciiConv::Ascii))
            } else if range_eq(&chars, start, i, "ebcdic") {
                Some(Conversion::Ascii(AsciiConv::Ebcdic))
            } else if range_eq(&chars, start, i, "ibm") {
                Some(Conversion::Ascii(AsciiConv::Ibm))
            } else if range_eq(&chars, start, i, "block") {
                Some(Conversion::Block)
            } else if range_eq(&chars, start, i, "unblock") {
                Some(Conversion::Unblock)
            } else if range_eq(&chars, start, i, "lcase") {
                Some(Conversion::Lcase)
            } else if range_eq(&chars, start, i, "ucase") {
                Some(Conversion::Ucase)
            } else if range_eq(&chars, start, i, "swab") {
                Some(Conversion::Swab)
            } else if range_eq(&chars, start, i, "sync") {
                Some(Conversion::Sync)
            } else if range_eq(&chars, start, i, "noerror") {
                config.noerror = true;
                None
            } else if range_eq(&chars, start, i, "notrunc") {
                config.notrunc = true;
                None
            } else {
                return Err(DdError::InvalidConvOption);
            };
            if let Some(conv) = conversion {
                let ghost pre = config.conversions@;
                config.conversions.push(conv);
                proof {
                    assert(config.conversions@.drop_last() =~= pre);
                }
            }
            if i == n {
                break;
            }
            start = i + 1;
        }
        i = i + 1;
    }
    Ok(())
}

/// Parse the `key=value` command line into a configuration, starting from
/// the defaults.  An argument without `=` or with an unknown numeric value
/// is rejected; an unknown key is ignored.
pub fn parse_cmdline(args: &[String]) -> (r: Result<Config, DdError>)
    ensures
        args@.len() == 0 ==> (r matches Ok(c) && c.ibs == DEF_BLOCK_SIZE && c.obs
            == DEF_BLOCK_SIZE && c.conversions@.len() == 0 && c.count == 0 && c.seek == 0 && c.skip
            == 0 && c.cbs == 0),
        (args@.len() > 0 && find_char(args@[0]@, '=', 0) >= args@[0]@.len() ==> r == Err::<
            Config,
            DdError,
        >(DdError::InvalidOption)),
{
    let ghost noeq = args@.len() > 0 && find_char(args@[0]@, '=', 0) >= args@[0]@.len();
    let mut config = Config::default();
    let mut a: usize = 0;
    while a < args.len()
        invariant
            a <= args@.len(),
            noeq == (args@.len() > 0 && find_char(args@[0]@, '=', 0) >= args@[0]@.len()),
            noeq ==> a == 0,
            a == 0 ==> (config.ibs == DEF_BLOCK_SIZE && config.obs == DEF_BLOCK_SIZE
                && config.conversions@.len() == 0 && config.count == 0 && config.seek == 0
                && config.skip == 0 && config.cbs == 0),
        decreases args@.len() - a,
    {
        let arg = &args[a];
        let chars = chars_of(arg.as_str());
        let n = chars.len();
        // Split at the first `=`.
        let mut eq: usize = 0;
        while eq < n && chars[eq] != '='
            invariant
                eq <= n,
                n == chars@.len(),
                chars@ == args@[a as int]@,
                a < args@.len(),
                find_char(chars@, '=', 0) == find_char(chars@, '=', eq as int),
            decreases n - eq,
        {
            eq = eq + 1;
        }
        proof {
            assert(eq as int == find_char(chars@, '=', 0));
        }
        if eq == n {
            return Err(DdError::InvalidOption);
        }
        proof {
            assert(!noeq);
        }
        let val_start = eq + 1;
        let value = crate::text::string_of_range(&chars, val_start, n);
        if range_eq(&chars, 0, eq, "if") {
            config.ifile = value;
        } else if range_eq(&chars, 0, eq, "of") {
            config.ofile = value;
        } else if range_eq(&chars, 0, eq, "ibs") {
            if value.as_str().is_empty() {
                return Err(DdError::InvalidNumber);
            }
            config.ibs = match parse_block_size(value.as_str()) {
                Ok(v) => v,
                Err(e) => {
                    return Err(e);
                },
            };
        } else if range_eq(&chars, 0, eq, "obs") {
            if value.as_str().is_empty() {
                return Err(DdError::InvalidNumber);
            }
            config.obs = match parse_block_size(value.as_str()) {
                Ok(v) => v,
                Err(e) => {
                    return Err(e);
                },
            };
        } else if range_eq(&chars, 0, eq, "bs") {
            if value.as_str().is_empty() {
                return Err(DdError::InvalidNumber);
            }
            let block_sz = match parse_block_size(value.as_str()) {
                Ok(v) => v,
                Err(e) => {
                    return Err(e);
                },
            };
            config.ibs = block_sz;
            config.obs = block_sz;
        } else if range_eq(&chars, 0, eq, "cbs") {
            if value.as_str().is_empty() {
                return Err(DdError::InvalidNumber);
            }
            config.cbs = match parse_block_size(value.as_str()) {
                Ok(v) => v,
                Err(e) => {
                    return Err(e);
                },
            };
        } else if range_eq(&chars, 0, eq, "skip") {
            config.skip = match parse_decimal(&chars, val_start, n) {
                Ok(v) => v,
                Err(e) => {
                    return Err(e);
                },
            };
        } else if range_eq(&chars, 0, eq, "seek") {
            config.seek = match parse_decimal(&chars, val_start, n) {
                Ok(v) => v,
                Err(e) => {
                    return Err(e);
                },
            };
        } else if range_eq(&chars, 0, eq, "count") {
            config.count = match parse_decimal(&chars, val_start, n) {
                Ok(v) => v,
                Err(e) => {
                    return Err(e);
                },
            };
        } else if range_eq(&chars, 0, eq, "conv") {
            match parse_conv_list(&mut config, value.as_str()) {
                Ok(_) => {},
                Err(e) => {
                    return Err(e);
                },
            }
        }
        a = a + 1;
    }
    Ok(config)
}


} // verus!
