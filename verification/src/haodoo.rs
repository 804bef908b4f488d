//! Haodoo PDB and uPDB books, and PalmDoc files.
//!
//! A PDB file starts with a 78-byte header; bytes 64..68 name the kind of book ("MTIT" for
//! PDB, "MTIU" for uPDB, "REAd" for PalmDoc) and bytes 76..78 the number of records. Eight
//! bytes per record follow, the first four of them the record's start offset. The first
//! record holds the title and the table of contents; each chapter is a record after it.

use vstd::prelude::*;

use crate::book::{Book, ChapterError, Line, LoadingChapter};
use crate::common::{decode_text, decode_with, decoded_text, detect_charset, txt_lines, txt_lines_spec, TextError};
use encoding_rs::Encoding;

verus! {

/// A big-endian 16-bit value of `buf` at `offset`.
pub open spec fn be_u16(buf: Seq<u8>, offset: int) -> int {
    buf[offset] * 256 + buf[offset + 1]
}

/// A big-endian 32-bit value of `buf` at `offset`.
pub open spec fn be_u32(buf: Seq<u8>, offset: int) -> int {
    buf[offset] * 16777216 + buf[offset + 1] * 65536 + buf[offset + 2] * 256 + buf[offset + 3]
}

/// Reads a big-endian 16-bit value.
#[inline]
pub fn read_u16(buf: &[u8], offset: usize) -> (v: usize)
    requires
        offset + 1 < buf@.len(),
    ensures
        v == be_u16(buf@, offset as int),
{
    let a: usize = buf[offset] as usize;
    let b: usize = buf[offset + 1] as usize;
    assert((a << 8usize) | b == a * 256 + b) by (bit_vector)
        requires
            a < 256,
            b < 256,
    ;
    (a << 8) | b
}

/// Reads a big-endian 32-bit value.
#[inline]
pub fn read_u32(buf: &[u8], offset: usize) -> (v: usize)
    requires
        offset + 3 < buf@.len(),
    ensures
        v == be_u32(buf@, offset as int),
{
    let a: u64 = buf[offset] as u64;
    let b: u64 = buf[offset + 1] as u64;
    let c: u64 = buf[offset + 2] as u64;
    let d: u64 = buf[offset + 3] as u64;
    assert((a << 24u64) | (b << 16u64) | (c << 8u64) | d == a * 16777216 + b * 65536 + c * 256 + d)
        by (bit_vector)
        requires
            a < 256,
            b < 256,
            c < 256,
            d < 256,
    ;
    let v: u64 = (a << 24) | (b << 16) | (c << 8) | d;
    assert(v < 0x1_0000_0000);
    v as usize
}

/// The byte that decryption gives for a byte that follows a marker byte.
pub open spec fn decrypt_byte(b: u8) -> u8 {
    if b == 0 {
        127
    } else {
        (b - 1) as u8
    }
}

/// Decryption of the hidden part of a Haodoo book: after each byte of 128 or more, the
/// next byte is lowered by one (0 becomes 127), and scanning goes on after it.
pub open spec fn decrypt_spec(s: Seq<u8>) -> Seq<u8>
    decreases s.len(),
{
    if s.len() == 0 {
        Seq::empty()
    } else if s[0] >= 128 {
        if s.len() == 1 {
            s
        } else {
            seq![s[0], decrypt_byte(s[1])] + decrypt_spec(s.skip(2))
        }
    } else {
        seq![s[0]] + decrypt_spec(s.drop_first())
    }
}

proof fn lemma_decrypt_len(s: Seq<u8>)
    ensures
        decrypt_spec(s).len() == s.len(),
    decreases s.len(),
{
    if s.len() > 0 {
        if s[0] >= 128 {
            if s.len() > 1 {
                lemma_decrypt_len(s.skip(2));
            }
        } else {
            lemma_decrypt_len(s.drop_first());
        }
    }
}

/// Decrypts a record in place.
#[inline]
pub fn decrypt_pdb(record: &mut Vec<u8>)
    requires
        old(record)@.len() > 0,
    ensures
        final(record)@ == decrypt_spec(old(record)@),
{
    let length = record.len();
    let ghost orig = record@;
    let mut i: usize = 0;
    assert(orig.take(0) + orig.skip(0) == orig);
    while i < length
        invariant
            length == orig.len(),
            record@.len() == length,
            i <= length,
            record@ == record@.take(i as int) + orig.skip(i as int),
            record@.take(i as int) + decrypt_spec(orig.skip(i as int)) == decrypt_spec(orig),
        decreases length - i,
    {
        let ghost before = record@;
        let ghost rest = orig.skip(i as int);
        assert(rest[0] == orig[i as int]);
        assert(before[i as int] == orig[i as int]) by {
            assert(before[i as int] == (before.take(i as int) + orig.skip(i as int))[i as int]);
        }
        if record[i] >= 128 {
            if i + 1 < length {
                assert(before[i + 1] == orig[i + 1]) by {
                    assert(before[i + 1] == (before.take(i as int) + orig.skip(i as int))[i + 1]);
                }
                let b = record[i + 1];
                let nb: u8 = if b == 0 {
                    127
                } else {
                    b - 1
                };
                record.set(i + 1, nb);
                assert(rest.skip(2) == orig.skip(i + 2));
                assert(decrypt_spec(rest) == seq![orig[i as int], decrypt_byte(orig[i + 1])]
                    + decrypt_spec(rest.skip(2)));
                assert(record@.take(i + 2) == before.take(i as int) + seq![
                    orig[i as int],
                    decrypt_byte(orig[i + 1]),
                ]);
                assert(record@ == record@.take(i + 2) + orig.skip(i + 2));
                i = i + 2;
            } else {
                assert(rest =~= seq![orig[i as int]]);
                assert(record@ =~= before.take(i as int) + rest);
                assert(orig.skip(length as int) =~= Seq::<u8>::empty());
                assert(record@.take(length as int) == record@);
                i = length;
            }
        } else {
            assert(rest.drop_first() == orig.skip(i + 1));
            assert(record@.take(i + 1) == before.take(i as int).push(orig[i as int]));
            assert(record@ == record@.take(i + 1) + orig.skip(i + 1));
            i = i + 1;
        }
    }
    assert(orig.skip(i as int) =~= Seq::<u8>::empty());
    assert(record@.take(i as int) == record@);
}

/// Appends `n` bytes to `out`, each copied from `from` onwards in the growing output
/// (so a copy may repeat what it has just written).
pub open spec fn copy_window(out: Seq<u8>, from: int, n: int) -> Seq<u8>
    decreases n,
{
    if n <= 0 {
        out
    } else {
        copy_window(out.push(out[from]), from + 1, n - 1)
    }
}

/// PalmDoc decompression of `data` from index `i`, after `out` has been produced;
/// `None` where a command reads past the end of the data or copies from before the start
/// of the output.
///
/// A byte of 0xC0 or more stands for a space and the byte with its high bit cleared;
/// a byte from 0x80 starts a two-byte command that repeats 3 to 10 bytes found 1 to 2047
/// bytes back; a byte from 1 to 8 is the count of literal bytes that follow; other bytes
/// stand for themselves.
pub open spec fn palm_doc_from(data: Seq<u8>, i: int, out: Seq<u8>) -> Option<Seq<u8>>
    decreases data.len() - i,
{
    if i < 0 || i >= data.len() {
        Some(out)
    } else {
        let c = data[i];
        if c >= 0xC0 {
            palm_doc_from(data, i + 1, out.push(0x20u8).push(c ^ 0x80u8))
        } else if c >= 0x80 {
            if i + 1 >= data.len() {
                None
            } else {
                let w = (c as int) * 256 + data[i + 1];
                let n = 3 + w % 8;
                let dist = (w / 8) % 2048;
                if dist < 1 || dist > out.len() {
                    None
                } else {
                    palm_doc_from(data, i + 2, copy_window(out, out.len() - dist, n))
                }
            }
        } else if c >= 9 {
            palm_doc_from(data, i + 1, out.push(c))
        } else if c >= 1 {
            if i + 1 + c > data.len() {
                None
            } else {
                palm_doc_from(data, i + 1 + c, out + data.subrange(i + 1, i + 1 + c))
            }
        } else {
            palm_doc_from(data, i + 1, out.push(c))
        }
    }
}

/// The decompressed text of PalmDoc data, when every command is in bounds.
pub open spec fn palm_doc_decompressed(data: Seq<u8>) -> Option<Seq<u8>> {
    palm_doc_from(data, 0, Seq::empty())
}

proof fn lemma_copy_window_len(out: Seq<u8>, from: int, n: int)
    ensures
        copy_window(out, from, n).len() == out.len() + (if n > 0 {
            n
        } else {
            0
        }),
    decreases n,
{
    if n > 0 {
        lemma_copy_window_len(out.push(out[from]), from + 1, n - 1);
    }
}

proof fn lemma_copy_window_contents(out: Seq<u8>, from: int, n: int)
    requires
        0 <= from < out.len(),
        n >= 0,
    ensures
        copy_window(out, from, n).len() == out.len() + n,
        copy_window(out, from, n).take(out.len() as int) == out,
        forall|k: int| 0 <= k < n ==> #[trigger] copy_window(out, from, n)[out.len() + k] == copy_window(out, from, n)[from + k],
    decreases n,
{
    if n > 0 {
        let o2 = out.push(out[from]);
        lemma_copy_window_contents(o2, from + 1, n - 1);
        let r = copy_window(out, from, n);
        assert(r == copy_window(o2, from + 1, n - 1));
        assert(r.take(o2.len() as int) == o2);
        assert(r.take(out.len() as int) =~= out) by {
            assert forall|j: int| 0 <= j < out.len() implies r[j] == out[j] by {
                assert(r.take(o2.len() as int)[j] == o2[j]);
            }
        }
        assert forall|k: int| 0 <= k < n implies #[trigger] r[out.len() + k] == r[from + k] by {
            if k == 0 {
                assert(r.take(o2.len() as int)[out.len() as int] == o2[out.len() as int]);
                assert(r.take(o2.len() as int)[from] == o2[from]);
            } else {
                assert(r[o2.len() + (k - 1)] == r[from + 1 + (k - 1)]);
            }
        }
    }
}

/// The other PalmDoc bytes: one of 0xC0 or more gives a space and the byte with its high
/// bit cleared; one from 1 to 8 is followed by that many bytes, copied as they are; 0 and
/// the bytes from 9 to 0x7F stand for themselves.
pub proof fn law_palm_doc_plain_bytes(data: Seq<u8>, i: int, out: Seq<u8>)
    requires
        0 <= i < data.len(),
        !(0x80 <= data[i] < 0xC0),
    ensures
        data[i] >= 0xC0 ==> palm_doc_from(data, i, out) == palm_doc_from(data, i + 1, out + seq![0x20u8, (data[i] - 0x80) as u8]),
        1 <= data[i] <= 8 && i + 1 + data[i] <= data.len() ==> palm_doc_from(data, i, out) == palm_doc_from(
            data,
            i + 1 + data[i],
            out + data.subrange(i + 1, i + 1 + data[i]),
        ),
        1 <= data[i] <= 8 && i + 1 + data[i] > data.len() ==> palm_doc_from(data, i, out) is None,
        (data[i] == 0 || 9 <= data[i] < 0x80) ==> palm_doc_from(data, i, out) == palm_doc_from(data, i + 1, out.push(data[i])),
{
    let c = data[i];
    if c >= 0xC0 {
        assert(c ^ 0x80u8 == (c - 0x80) as u8) by (bit_vector)
            requires
                c >= 0xC0,
        ;
        assert(out.push(0x20u8).push(c ^ 0x80u8) =~= out + seq![0x20u8, (c - 0x80) as u8]);
    }
}

/// A PalmDoc back-reference: a command word `w` from 0x8000 to 0xBFFF repeats exactly
/// `3 + (w & 7)` bytes found `(w >> 3) & 0x7FF` bytes back in the output, each copied byte
/// being the one that many bytes before it (so the copy may repeat what it has just
/// written), and what came before is kept.
pub proof fn law_palm_doc_back_reference(data: Seq<u8>, i: int, out: Seq<u8>)
    requires
        0 <= i,
        i + 1 < data.len(),
        0x80 <= data[i] < 0xC0,
        ({
            let w: u32 = ((data[i] as u32) << 8u32) | (data[i + 1] as u32);
            let dist = ((w >> 3u32) & 0x7ffu32) as int;
            1 <= dist <= out.len()
        }),
    ensures
        ({
            let w: u32 = ((data[i] as u32) << 8u32) | (data[i + 1] as u32);
            let n = 3 + (w & 7u32) as int;
            let dist = ((w >> 3u32) & 0x7ffu32) as int;
            exists|out2: Seq<u8>|
                {
                    &&& palm_doc_from(data, i, out) == palm_doc_from(data, i + 2, out2)
                    &&& out2.len() == out.len() + n
                    &&& out2.take(out.len() as int) == out
                    &&& forall|k: int| 0 <= k < n ==> #[trigger] out2[out.len() + k] == out2[out.len() + k - dist]
                }
        }),
{
    lemma_window_command(data[i], data[i + 1]);
    let w: u32 = ((data[i] as u32) << 8u32) | (data[i + 1] as u32);
    let n = 3 + (w & 7u32) as int;
    let dist = ((w >> 3u32) & 0x7ffu32) as int;
    let out2 = copy_window(out, out.len() - dist, n);
    lemma_copy_window_contents(out, out.len() - dist, n);
    assert forall|k: int| 0 <= k < n implies #[trigger] out2[out.len() + k] == out2[out.len() + k - dist] by {
        assert(out2[out.len() + k] == out2[out.len() - dist + k]);
    }
}

proof fn lemma_window_command(c: u8, d: u8)
    ensures
        ({
            let w: u32 = ((c as u32) << 8u32) | (d as u32);
            &&& w == (c as int) * 256 + d
            &&& 3 + (w & 7u32) == 3 + w % 8
            &&& (w >> 3u32) & 0x7ffu32 == (w / 8) % 2048
        }),
{
    let w: u32 = ((c as u32) << 8u32) | (d as u32);
    assert(((c as u32) << 8u32) | (d as u32) == (c as u32) * 256 + (d as u32)) by (bit_vector);
    assert(w & 7u32 == w % 8) by (bit_vector);
    assert((w >> 3u32) & 0x7ffu32 == (w / 8) % 2048) by (bit_vector);
}

/// Whether PalmDoc decompression of `data` stays in bounds.
pub fn is_palm_doc_decodable(data: &Vec<u8>) -> (ok: bool)
    ensures
        ok == palm_doc_decompressed(data@) is Some,
{
    let len = data.len();
    let mut i: usize = 0;
    let mut n: u128 = 0;
    let ghost mut out: Seq<u8> = Seq::empty();
    while i < len
        invariant
            len == data@.len(),
            i <= len,
            n == out.len(),
            out.len() <= 5 * i,
            palm_doc_decompressed(data@) == palm_doc_from(data@, i as int, out),
        decreases len - i,
    {
        let c = data[i];
        if c >= 0xC0 {
            proof {
                out = out.push(0x20u8).push(c ^ 0x80u8);
            }
            n = n + 2;
            i = i + 1;
        } else if c >= 0x80 {
            if i + 1 >= len {
                return false;
            }
            let d = data[i + 1];
            proof {
                lemma_window_command(c, d);
            }
            let w: u32 = ((c as u32) << 8) | (d as u32);
            let window_len: u32 = 3 + (w & 0x0007);
            let window_dist: u32 = (w >> 3) & 0x07FF;
            if window_dist < 1 || (window_dist as u128) > n {
                return false;
            }
            proof {
                lemma_copy_window_len(out, out.len() - window_dist, window_len as int);
                out = copy_window(out, out.len() - window_dist, window_len as int);
            }
            n = n + window_len as u128;
            i = i + 2;
        } else if c >= 9 {
            proof {
                out = out.push(c);
            }
            n = n + 1;
            i = i + 1;
        } else if c >= 1 {
            if (c as usize) > len - i - 1 {
                return false;
            }
            proof {
                out = out + data@.subrange(i + 1, i + 1 + c);
            }
            n = n + c as u128;
            i = i + 1 + c as usize;
        } else {
            proof {
                out = out.push(c);
            }
            n = n + 1;
            i = i + 1;
        }
    }
    true
}

/// Decompresses PalmDoc data.
pub fn decompress_palm_doc(data: Vec<u8>) -> (output: Vec<u8>)
    requires
        palm_doc_decompressed(data@) is Some,
    ensures
        palm_doc_decompressed(data@) == Some(output@),
{
    let mut output: Vec<u8> = Vec::new();
    let mut i: usize = 0;
    let len = data.len();
    while i < len
        invariant
            len == data@.len(),
            i <= len,
            palm_doc_decompressed(data@) == palm_doc_from(data@, i as int, output@),
            palm_doc_decompressed(data@) is Some,
        decreases len - i,
    {
        let c = data[i];
        i = i + 1;
        if c >= 0xC0 {
            output.push(0x20u8);
            output.push(c ^ 0x80);
        } else if c >= 0x80 {
            let d = data[i];
            proof {
                lemma_window_command(c, d);
            }
            let w: u32 = ((c as u32) << 8) | (d as u32);
            i = i + 1;
            let window_len: u32 = 3 + (w & 0x0007);
            let window_dist: u32 = (w >> 3) & 0x07FF;
            let mut window_copy_from = output.len() - window_dist as usize;
            let ghost target = copy_window(output@, window_copy_from as int, window_len as int);
            let mut k: u32 = 0;
            while k < window_len
                invariant
                    k <= window_len,
                    window_copy_from < output.len(),
                    copy_window(output@, window_copy_from as int, (window_len - k) as int)
                        == target,
                decreases window_len - k,
            {
                let b = output[window_copy_from];
                output.push(b);
                window_copy_from = window_copy_from + 1;
                k = k + 1;
            }
        } else if c >= 0x09 {
            output.push(c);
        } else if c >= 0x01 {
            let ghost before = output@;
            let start = i;
            let mut k: u8 = 0;
            while k < c
                invariant
                    k <= c,
                    i == start + k,
                    start + c <= len,
                    len == data@.len(),
                    output@ == before + data@.subrange(start as int, i as int),
                decreases c - k,
            {
                output.push(data[i]);
                i = i + 1;
                k = k + 1;
                assert(data@.subrange(start as int, i as int) == data@.subrange(
                    start as int,
                    i - 1,
                ).push(data@[i - 1]));
            }
        } else {
            output.push(c);
        }
    }
    output
}

/// The kinds of book a PDB file holds.
#[derive(Clone, Copy, PartialEq, Eq, Structural, Debug)]
pub enum PdbType {
    /// Haodoo PDB: Big5 text.
    Pdb,
    /// Haodoo uPDB: UTF-16LE text.
    Updb,
    /// PalmDoc text.
    PalmDoc,
}

/// Why a PDB file could not be read.
#[derive(Clone, Copy, PartialEq, Eq, Structural, Debug)]
pub enum HaodooError {
    /// The header names no known kind of book.
    InvalidBookId,
    /// A record index past the record table.
    InvalidRecordIndex,
    /// A record that ends past the end of the file.
    RecordOutOfFile,
    /// The first record holds no table of contents.
    TocNotFound,
    /// The chapter's text is not valid for its encoding.
    InvalidText,
}

/// Length of the PDB header.
pub const HEADER_LENGTH: usize = 78;
/// Offset of the book kind in the header.
pub const ID_OFFSET: usize = 64;
/// Offset of the record count in the header.
pub const RECORDS_COUNT_OFFSET: usize = 76;

/// The kind of book that the four id bytes name: "MTIT", "MTIU" or "REAd".
pub open spec fn pdb_type_of(id: Seq<u8>) -> Option<PdbType> {
    if id =~= seq![0x4du8, 0x54u8, 0x49u8, 0x54u8] {
        Some(PdbType::Pdb)
    } else if id =~= seq![0x4du8, 0x54u8, 0x49u8, 0x55u8] {
        Some(PdbType::Updb)
    } else if id =~= seq![0x52u8, 0x45u8, 0x41u8, 0x64u8] {
        Some(PdbType::PalmDoc)
    } else {
        None
    }
}

/// The number of records the header announces.
pub open spec fn record_count(content: Seq<u8>) -> int {
    be_u16(content, RECORDS_COUNT_OFFSET as int)
}

/// The file is long enough for its header and, when the kind is known, its record table.
pub open spec fn header_readable(content: Seq<u8>) -> bool {
    &&& content.len() >= HEADER_LENGTH
    &&& pdb_type_of(content.subrange(ID_OFFSET as int, ID_OFFSET + 4)) is Some ==> content.len()
        >= HEADER_LENGTH + 8 * record_count(content)
}

/// Whether the header and record table can be read.
pub fn is_header_readable(content: &Vec<u8>) -> (r: bool)
    ensures
        r == header_readable(content@),
{
    if content.len() < HEADER_LENGTH {
        return false;
    }
    match book_type(content) {
        Some(_) => {
            let count = read_u16(content.as_slice(), RECORDS_COUNT_OFFSET);
            content.len() - HEADER_LENGTH >= 8 * count
        },
        None => true,
    }
}

fn book_type(content: &Vec<u8>) -> (t: Option<PdbType>)
    requires
        content@.len() >= HEADER_LENGTH,
    ensures
        t == pdb_type_of(content@.subrange(ID_OFFSET as int, ID_OFFSET + 4)),
{
    let a = content[64];
    let b = content[65];
    let c = content[66];
    let d = content[67];
    let ghost id = content@.subrange(ID_OFFSET as int, ID_OFFSET + 4);
    assert(id =~= seq![a, b, c, d]);
    if a == 0x4d && b == 0x54 && c == 0x49 && d == 0x54 {
        Some(PdbType::Pdb)
    } else if a == 0x4d && b == 0x54 && c == 0x49 && d == 0x55 {
        Some(PdbType::Updb)
    } else if a == 0x52 && b == 0x45 && c == 0x41 && d == 0x64 {
        Some(PdbType::PalmDoc)
    } else {
        assert(!(id =~= seq![0x4du8, 0x54u8, 0x49u8, 0x54u8]) && !(id =~= seq![
            0x4du8,
            0x54u8,
            0x49u8,
            0x55u8,
        ]) && !(id =~= seq![0x52u8, 0x45u8, 0x41u8, 0x64u8])) by {
            if id =~= seq![0x4du8, 0x54u8, 0x49u8, 0x54u8] {
                assert(id[0] == 0x4d && id[3] == 0x54);
            }
            if id =~= seq![0x4du8, 0x54u8, 0x49u8, 0x55u8] {
                assert(id[3] == 0x55);
            }
            if id =~= seq![0x52u8, 0x45u8, 0x41u8, 0x64u8] {
                assert(id[0] == 0x52);
            }
        }
        None
    }
}

/// The start offsets of the records, from the record table after the header.
pub open spec fn record_offsets_spec(content: Seq<u8>) -> Seq<int> {
    Seq::new(record_count(content) as nat, |k: int| be_u32(content, HEADER_LENGTH + 8 * k))
}

/// Reads the header: the kind of book and the start offset of each record.
pub fn parse_header(content: &Vec<u8>) -> (r: Result<(PdbType, Vec<usize>), HaodooError>)
    requires
        header_readable(content@),
    ensures
        match r {
            Ok((t, offsets)) => {
                &&& pdb_type_of(content@.subrange(ID_OFFSET as int, ID_OFFSET + 4)) == Some(t)
                &&& offsets@.len() == record_count(content@)
                &&& forall|k: int|
                    0 <= k < offsets@.len() ==> #[trigger] offsets@[k] == record_offsets_spec(
                        content@,
                    )[k]
            },
            Err(e) => e == HaodooError::InvalidBookId && pdb_type_of(
                content@.subrange(ID_OFFSET as int, ID_OFFSET + 4),
            ) is None,
        },
{
    let book_type = match book_type(content) {
        Some(t) => t,
        None => return Err(HaodooError::InvalidBookId),
    };
    let count = read_u16(content.as_slice(), RECORDS_COUNT_OFFSET);
    let mut record_offsets: Vec<usize> = Vec::new();
    let mut index: usize = 0;
    while index < count
        invariant
            count == record_count(content@),
            content@.len() >= HEADER_LENGTH + 8 * count,
            index <= count,
            record_offsets@.len() == index,
            forall|k: int|
                0 <= k < index ==> #[trigger] record_offsets@[k] == be_u32(
                    content@,
                    HEADER_LENGTH + 8 * k,
                ),
        decreases count - index,
    {
        record_offsets.push(read_u32(content.as_slice(), HEADER_LENGTH + 8 * index));
        index = index + 1;
    }
    Ok((book_type, record_offsets))
}

/// The bytes of record `index`: from its start offset to the next record's start, or to
/// the end of the file for the last record.
pub open spec fn record_spec(content: Seq<u8>, offsets: Seq<usize>, index: int) -> Result<
    Seq<u8>,
    HaodooError,
> {
    if index >= offsets.len() {
        Err(HaodooError::InvalidRecordIndex)
    } else {
        let start = offsets[index] as int;
        if index == offsets.len() - 1 {
            Ok(
                if start >= content.len() {
                    Seq::empty()
                } else {
                    content.subrange(start, content.len() as int)
                },
            )
        } else {
            let end = offsets[index + 1] as int;
            if end > content.len() {
                Err(HaodooError::RecordOutOfFile)
            } else {
                Ok(content.subrange(start, end))
            }
        }
    }
}

/// The record's start offset is not after the next record's start.
pub open spec fn record_ordered(offsets: Seq<usize>, index: int) -> bool {
    0 <= index < offsets.len() - 1 ==> offsets[index] <= offsets[index + 1]
}

/// Reads one record.
pub fn read_record(content: &Vec<u8>, offsets: &Vec<usize>, index: usize) -> (r: Result<
    Vec<u8>,
    HaodooError,
>)
    requires
        record_ordered(offsets@, index as int),
    ensures
        match (r, record_spec(content@, offsets@, index as int)) {
            (Ok(v), Ok(s)) => v@ == s,
            (Err(e), Err(f)) => e == f,
            _ => false,
        },
{
    let count = offsets.len();
    if index >= count {
        return Err(HaodooError::InvalidRecordIndex);
    }
    let start = offsets[index];
    let end = if index == count - 1 {
        if start >= content.len() {
            start
        } else {
            content.len()
        }
    } else {
        let end = offsets[index + 1];
        if end > content.len() {
            return Err(HaodooError::RecordOutOfFile);
        }
        end
    };
    let mut buf: Vec<u8> = Vec::new();
    let mut k = start;
    while k < end
        invariant
            start <= k,
            start < end ==> k <= end <= content@.len(),
            buf@ == (if start < end {
                content@.subrange(start as int, k as int)
            } else {
                Seq::<u8>::empty()
            }),
        decreases end - k,
    {
        buf.push(content[k]);
        k = k + 1;
        assert(content@.subrange(start as int, k as int) == content@.subrange(
            start as int,
            k - 1,
        ).push(content@[k - 1]));
    }
    if index == count - 1 && start >= content.len() {
        assert(buf@ =~= Seq::<u8>::empty());
    }
    Ok(buf)
}

/// `pattern` occurs in `s` at `pos`.
pub open spec fn occurs_at(s: Seq<u8>, pattern: Seq<u8>, pos: int) -> bool {
    0 <= pos && pos + pattern.len() <= s.len() && s.subrange(pos, pos + pattern.len()) == pattern
}

/// The first position at or after `from` where `pattern` occurs in `s`.
pub open spec fn find_from(s: Seq<u8>, pattern: Seq<u8>, from: int) -> Option<int>
    decreases s.len() + 1 - from,
{
    if from < 0 || from + pattern.len() > s.len() {
        None
    } else if occurs_at(s, pattern, from) {
        Some(from)
    } else {
        find_from(s, pattern, from + 1)
    }
}

proof fn lemma_find_from_bounds(s: Seq<u8>, pattern: Seq<u8>, from: int)
    ensures
        find_from(s, pattern, from) matches Some(p) ==> from <= p && occurs_at(s, pattern, p),
    decreases s.len() + 1 - from,
{
    if !(from < 0 || from + pattern.len() > s.len()) && !occurs_at(s, pattern, from) {
        lemma_find_from_bounds(s, pattern, from + 1);
    }
}

/// Finds the first position at or after `from` where `pattern` occurs.
pub fn find_pattern(s: &Vec<u8>, pattern: &[u8], from: usize) -> (r: Option<usize>)
    ensures
        r matches Some(p) ==> find_from(s@, pattern@, from as int) == Some(p as int),
        r is None ==> find_from(s@, pattern@, from as int) is None,
{
    if pattern.len() == 0 {
        if from <= s.len() {
            assert(occurs_at(s@, pattern@, from as int)) by {
                assert(s@.subrange(from as int, from as int) =~= pattern@);
            }
            return Some(from);
        } else {
            return None;
        }
    }
    let mut pos = from;
    while pos <= s.len() && pattern.len() <= s.len() - pos
        invariant
            from <= pos,
            pattern@.len() > 0,
            find_from(s@, pattern@, from as int) == find_from(s@, pattern@, pos as int),
        decreases s.len() + 1 - pos,
    {
        let mut j: usize = 0;
        let mut matched = true;
        while j < pattern.len()
            invariant
                pos + pattern.len() <= s.len(),
                j <= pattern.len(),
                matched ==> forall|t: int| 0 <= t < j ==> s@[pos + t] == pattern@[t],
                !matched ==> !occurs_at(s@, pattern@, pos as int),
            decreases pattern.len() - j,
        {
            if s[pos + j] != pattern[j] {
                if matched {
                    assert(s@.subrange(pos as int, pos + pattern.len())[j as int] != pattern@[j as int]);
                }
                matched = false;
            }
            j = j + 1;
        }
        if matched {
            assert(s@.subrange(pos as int, pos + pattern.len()) =~= pattern@);
            return Some(pos);
        }
        pos = pos + 1;
    }
    None
}

/// The byte ranges of the chapter titles in the first record, from `pos`: titles are
/// separated by `splitter`; what follows the last separator is a title when it is more
/// than one byte long, without its last `tail` bytes.
pub open spec fn title_ranges_from(record: Seq<u8>, splitter: Seq<u8>, tail: int, pos: int) -> Seq<
    (int, int),
>
    decreases record.len() - pos,
{
    if splitter.len() == 0 || pos < 0 || pos > record.len() {
        Seq::empty()
    } else {
        match find_from(record, splitter, pos) {
            Some(p) => if pos <= p && p + splitter.len() <= record.len() {
                seq![(pos, p)] + title_ranges_from(record, splitter, tail, p + splitter.len())
            } else {
                Seq::empty()
            },
            None => if pos < record.len() - 1 {
                seq![(pos, record.len() - tail)]
            } else {
                Seq::empty()
            },
        }
    }
}

/// Where the titles start in the first record: after eight bytes, the book title and
/// three `escape`s, then the chapter count and one more `escape`.
pub open spec fn titles_start(record: Seq<u8>, escape: Seq<u8>) -> Option<int> {
    match find_from(record, escape, 8) {
        Some(p1) => match find_from(record, escape, p1 + 3 * escape.len()) {
            Some(p2) => Some(p2 + escape.len()),
            None => None,
        },
        None => None,
    }
}

/// The first record is long enough for every slice that reading its table of contents
/// takes.
pub open spec fn toc_readable(record: Seq<u8>, escape: Seq<u8>) -> bool {
    &&& record.len() >= 8
    &&& find_from(record, escape, 8) matches Some(p1) ==> p1 + 3 * escape.len() <= record.len()
}

/// Reads the table of contents of the first record: the byte range of each chapter
/// title.
pub fn parse_toc(record: &Vec<u8>, escape: &[u8], title_splitter: &[u8], record_tail: usize) -> (r:
    Result<Vec<(usize, usize)>, HaodooError>)
    requires
        escape@.len() > 0,
        title_splitter@.len() > 0,
        record_tail <= 1,
        toc_readable(record@, escape@),
    ensures
        match r {
            Ok(ranges) => titles_start(record@, escape@) matches Some(start) && ranges@.len()
                == title_ranges_from(record@, title_splitter@, record_tail as int, start).len()
                && forall|k: int|
                0 <= k < ranges@.len() ==> (#[trigger] ranges@[k].0 as int, ranges@[k].1 as int)
                    == title_ranges_from(record@, title_splitter@, record_tail as int, start)[k],
            Err(e) => e == HaodooError::TocNotFound && titles_start(record@, escape@) is None,
        },
{
    let record_len = record.len();
    let p1 = match find_pattern(record, escape, 8) {
        Some(p) => p,
        None => return Err(HaodooError::TocNotFound),
    };
    proof {
        lemma_find_from_bounds(record@, escape@, 8);
    }
    let e = escape.len();
    assert(p1 + 3 * e <= record@.len());
    let position = p1 + e + e + e;
    let p2 = match find_pattern(record, escape, position) {
        Some(p) => p,
        None => return Err(HaodooError::TocNotFound),
    };
    proof {
        lemma_find_from_bounds(record@, escape@, position as int);
    }
    let mut position = p2 + escape.len();
    let ghost start = position as int;
    assert(titles_start(record@, escape@) == Some(start));
    let mut ranges: Vec<(usize, usize)> = Vec::new();
    assert(ranges@.map_values(|r: (usize, usize)| (r.0 as int, r.1 as int)) =~= Seq::<(int, int)>::empty());
    let ghost total = title_ranges_from(record@, title_splitter@, record_tail as int, start);
    loop
        invariant
            title_splitter@.len() > 0,
            record_tail <= 1,
            record_len == record@.len(),
            titles_start(record@, escape@) == Some(start),
            position <= record@.len(),
            total == title_ranges_from(record@, title_splitter@, record_tail as int, start),
            forall|k: int|
                0 <= k < ranges@.len() ==> (#[trigger] ranges@[k].0 as int, ranges@[k].1 as int)
                    == total[k],
            total == ranges@.map_values(|r: (usize, usize)| (r.0 as int, r.1 as int))
                + title_ranges_from(record@, title_splitter@, record_tail as int, position as int),
        decreases record@.len() - position,
    {
        let ghost rest = title_ranges_from(record@, title_splitter@, record_tail as int, position as int);
        match find_pattern(record, title_splitter, position) {
            Some(next_position) => {
                proof {
                    lemma_find_from_bounds(record@, title_splitter@, position as int);
                }
                assert(occurs_at(record@, title_splitter@, next_position as int));
                let ghost old_ranges = ranges@;
                ranges.push((position, next_position));
                position = next_position + title_splitter.len();
                assert(ranges@.map_values(|r: (usize, usize)| (r.0 as int, r.1 as int))
                    =~= old_ranges.map_values(|r: (usize, usize)| (r.0 as int, r.1 as int)).push(
                    (rest[0].0, rest[0].1),
                ));
                assert(rest == seq![rest[0]] + title_ranges_from(
                    record@,
                    title_splitter@,
                    record_tail as int,
                    position as int,
                ));
            },
            None => {
                assert(rest == (if position + 1 < record@.len() {
                    seq![(position as int, record@.len() - record_tail)]
                } else {
                    Seq::<(int, int)>::empty()
                }));
                let ghost old_mapped = ranges@.map_values(|r: (usize, usize)| (r.0 as int, r.1 as int));
                if record.len() > 0 && position < record.len() - 1 {
                    let end = record.len() - record_tail;
                    ranges.push((position, end));
                    assert(ranges@.map_values(|r: (usize, usize)| (r.0 as int, r.1 as int))
                        =~= old_mapped.push((position as int, end as int)));
                    assert(total =~= ranges@.map_values(|r: (usize, usize)| (r.0 as int, r.1 as int)));
                } else {
                    assert(total =~= old_mapped);
                }
                assert(ranges@.len() == total.len());
                assert forall|k: int| 0 <= k < ranges@.len() implies (#[trigger] ranges@[k].0 as int,
                    ranges@[k].1 as int) == total[k] by {
                    assert(total[k] == ranges@.map_values(
                        |r: (usize, usize)| (r.0 as int, r.1 as int),
                    )[k]);
                }
                return Ok(ranges);
            },
        }
    }
}

/// The bytes that open the hidden part of a book, in Big5:
/// "★★★★★★★以下內容★★︽本版︾★★無法顯示★★★★★★★".
pub open spec fn encrypt_mark() -> Seq<u8> {
    seq![
        0xA1u8, 0xB9u8, 0xA1u8, 0xB9u8, 0xA1u8, 0xB9u8, 0xA1u8, 0xB9u8, 0xA1u8, 0xB9u8, 0xA1u8,
        0xB9u8, 0x0Du8, 0x0Au8, 0xA1u8, 0xB9u8, 0xA5u8, 0x48u8, 0xA4u8, 0x55u8, 0xA4u8, 0xBAu8,
        0xAEu8, 0x65u8, 0xA1u8, 0xB9u8, 0x0Du8, 0x0Au8, 0xA1u8, 0xB9u8, 0xA1u8, 0x6Fu8, 0xA5u8,
        0xBBu8, 0xAAu8, 0xA9u8, 0xA1u8, 0x70u8, 0xA1u8, 0xB9u8, 0x0Du8, 0x0Au8, 0xA1u8, 0xB9u8,
        0xB5u8, 0x4Cu8, 0xAAu8, 0x6Bu8, 0xC5u8, 0xE3u8, 0xA5u8, 0xDCu8, 0xA1u8, 0xB9u8, 0x0Du8,
        0x0Au8, 0xA1u8, 0xB9u8, 0xA1u8, 0xB9u8, 0xA1u8, 0xB9u8, 0xA1u8, 0xB9u8, 0xA1u8, 0xB9u8,
        0xA1u8, 0xB9u8, 0x0Du8, 0x0Au8
    ]
}

/// The length of the encryption mark.
pub const ENCRYPT_MARK_LENGTH: usize = 70;

fn encrypt_mark_bytes() -> (m: Vec<u8>)
    ensures
        m@ == encrypt_mark(),
{
    let m = vec![
        0xA1u8, 0xB9u8, 0xA1u8, 0xB9u8, 0xA1u8, 0xB9u8, 0xA1u8, 0xB9u8, 0xA1u8, 0xB9u8, 0xA1u8,
        0xB9u8, 0x0Du8, 0x0Au8, 0xA1u8, 0xB9u8, 0xA5u8, 0x48u8, 0xA4u8, 0x55u8, 0xA4u8, 0xBAu8,
        0xAEu8, 0x65u8, 0xA1u8, 0xB9u8, 0x0Du8, 0x0Au8, 0xA1u8, 0xB9u8, 0xA1u8, 0x6Fu8, 0xA5u8,
        0xBBu8, 0xAAu8, 0xA9u8, 0xA1u8, 0x70u8, 0xA1u8, 0xB9u8, 0x0Du8, 0x0Au8, 0xA1u8, 0xB9u8,
        0xB5u8, 0x4Cu8, 0xAAu8, 0x6Bu8, 0xC5u8, 0xE3u8, 0xA5u8, 0xDCu8, 0xA1u8, 0xB9u8, 0x0Du8,
        0x0Au8, 0xA1u8, 0xB9u8, 0xA1u8, 0xB9u8, 0xA1u8, 0xB9u8, 0xA1u8, 0xB9u8, 0xA1u8, 0xB9u8,
        0xA1u8, 0xB9u8, 0x0Du8, 0x0Au8
    ];
    assert(m@ =~= encrypt_mark());
    m
}

/// Whether `record` starts with the encryption mark.
pub open spec fn has_encrypt_mark(record: Seq<u8>) -> bool {
    record.len() >= ENCRYPT_MARK_LENGTH && record.take(ENCRYPT_MARK_LENGTH as int) == encrypt_mark()
}

/// Comparing `record` with the mark reads no byte past its end: it differs from the mark
/// before its end, or it is at least as long as the mark.
pub open spec fn mark_check_in_bounds(record: Seq<u8>) -> bool {
    record.len() >= ENCRYPT_MARK_LENGTH || record != encrypt_mark().take(record.len() as int)
}

/// Compares the start of `record` with the encryption mark.
pub fn check_encrypt_mark(record: &Vec<u8>) -> (r: bool)
    requires
        mark_check_in_bounds(record@),
    ensures
        r == has_encrypt_mark(record@),
{
    let mark = encrypt_mark_bytes();
    let mut offset: usize = 0;
    loop
        invariant
            mark@ == encrypt_mark(),
            mark_check_in_bounds(record@),
            offset < ENCRYPT_MARK_LENGTH,
            forall|k: int| 0 <= k < offset ==> record@[k] == mark@[k],
            offset <= record@.len(),
        decreases ENCRYPT_MARK_LENGTH - offset,
    {
        if offset >= record.len() {
            assert(record@ =~= encrypt_mark().take(record@.len() as int));
        }
        if mark[offset] != record[offset] {
            assert(record@.take(ENCRYPT_MARK_LENGTH as int)[offset as int] != mark@[offset as int]
                || record@.len() < ENCRYPT_MARK_LENGTH);
            return false;
        }
        offset = offset + 1;
        if offset == ENCRYPT_MARK_LENGTH {
            assert(record@.take(ENCRYPT_MARK_LENGTH as int) =~= encrypt_mark());
            return true;
        }
        if offset >= record.len() {
            assert(record@ =~= encrypt_mark().take(record@.len() as int));
        }
    }
}

/// An opened Haodoo or PalmDoc book. The lines of the current chapter are kept apart;
/// chapters loaded before are cached.
pub struct HaodooBook {
    content: Vec<u8>,
    book_type: PdbType,
    record_offsets: Vec<usize>,
    encrypt_chapter_index: Option<usize>,
    titles: Vec<String>,
    cache: Vec<Option<Vec<Line>>>,
    lines: Vec<Line>,
    chapter_index: usize,
}

/// Why a Haodoo book could not be opened.
#[derive(Clone, Copy, PartialEq, Eq, Structural, Debug)]
pub enum HaodooLoadError {
    Format(HaodooError),
    Text(TextError),
    /// The file is cut short or its offsets point outside it.
    Malformed,
    /// The book has no chapters.
    NoChapter,
}

/// Record `index` as opening a book reads it: `Malformed` when its offset comes after the
/// next record's.
pub open spec fn checked_record(content: Seq<u8>, offsets: Seq<usize>, index: int) -> Result<
    Seq<u8>,
    HaodooLoadError,
> {
    if !record_ordered(offsets, index) {
        Err(HaodooLoadError::Malformed)
    } else {
        match record_spec(content, offsets, index) {
            Ok(b) => Ok(b),
            Err(e) => Err(HaodooLoadError::Format(e)),
        }
    }
}

/// The bytes the text of chapter `chapter_index` is decoded from: the record after it,
/// decrypted in a PDB book from the first hidden chapter on. A PalmDoc book has no such
/// chapter, and a hidden chapter cannot be empty.
pub open spec fn chapter_source(content: Seq<u8>, offsets: Seq<usize>, book_type: PdbType,
    encrypt_chapter_index: Option<usize>, chapter_index: usize) -> Result<Seq<u8>, HaodooLoadError> {
    if chapter_index == usize::MAX {
        Err(HaodooLoadError::Format(HaodooError::InvalidRecordIndex))
    } else {
        match checked_record(content, offsets, chapter_index + 1) {
            Err(e) => Err(e),
            Ok(record) => match book_type {
                PdbType::Pdb => if encrypt_chapter_index matches Some(k) && k <= chapter_index {
                    if record.len() == 0 {
                        Err(HaodooLoadError::Malformed)
                    } else {
                        Ok(decrypt_spec(record))
                    }
                } else {
                    Ok(record)
                },
                PdbType::Updb => Ok(record),
                PdbType::PalmDoc => Err(HaodooLoadError::Malformed),
            },
        }
    }
}

/// Why the titles of a first record cannot be read, if they can't: it is shorter than
/// eight bytes, or the three `escape`s after the book title do not fit in it (`Malformed`);
/// it names no table of contents (`TocNotFound`); or a title's range lies outside it
/// (`Malformed`).
pub open spec fn toc_titles_error(record: Seq<u8>, escape: Seq<u8>, splitter: Seq<u8>, tail: int) -> Option<
    HaodooLoadError,
> {
    if record.len() < 8 {
        Some(HaodooLoadError::Malformed)
    } else if find_from(record, escape, 8) matches Some(p1) && (escape.len() > record.len() / 3 || p1
        > record.len() - 3 * escape.len()) {
        Some(HaodooLoadError::Malformed)
    } else if titles_start(record, escape) is None {
        Some(HaodooLoadError::Format(HaodooError::TocNotFound))
    } else if exists|k: int|
        0 <= k < title_ranges_from(record, splitter, tail, titles_start(record, escape)->0).len() && !(
        #[trigger] title_ranges_from(record, splitter, tail, titles_start(record, escape)->0)[k].0
            <= title_ranges_from(record, splitter, tail, titles_start(record, escape)->0)[k].1 <= record.len()) {
        Some(HaodooLoadError::Malformed)
    } else {
        None
    }
}

/// `lines` are the text lines of `text`.
pub open spec fn is_text_lines(lines: Seq<Line>, text: Seq<char>) -> bool {
    &&& lines.len() == txt_lines_spec(text).len()
    &&& forall|i: int| 0 <= i < lines.len() ==> #[trigger] lines[i]@ == txt_lines_spec(text)[i]
}

/// `lines` are the text lines of `bytes` decoded in the encoding of the book's kind: Big5
/// for a PDB book, UTF-16LE for a uPDB book.
pub closed spec fn chapter_text_lines(lines: Seq<Line>, book_type: PdbType, bytes: Seq<u8>) -> bool {
    exists|e: &'static Encoding|
        #![trigger decoded_text(e, bytes)]
        (if book_type == PdbType::Pdb {
            call_ensures(big5, (), e)
        } else {
            call_ensures(utf_16le, (), e)
        }) && is_text_lines(lines, decoded_text(e, bytes))
}

/// `encoding_rs::BIG5`.
#[verifier::external_body]
fn big5() -> (e: &'static Encoding) {
    encoding_rs::BIG5
}

/// `encoding_rs::UTF_16LE`.
#[verifier::external_body]
fn utf_16le() -> (e: &'static Encoding) {
    encoding_rs::UTF_16LE
}

/// Copies `record[start..end]`.
fn sub_bytes(record: &Vec<u8>, start: usize, end: usize) -> (r: Vec<u8>)
    requires
        start <= end <= record@.len(),
    ensures
        r@ == record@.subrange(start as int, end as int),
{
    let mut v: Vec<u8> = Vec::new();
    let mut k = start;
    while k < end
        invariant
            start <= k <= end <= record@.len(),
            v@ == record@.subrange(start as int, k as int),
        decreases end - k,
    {
        v.push(record[k]);
        k = k + 1;
        assert(record@.subrange(start as int, k as int) == record@.subrange(start as int, k - 1).push(
            record@[k - 1],
        ));
    }
    v
}

fn records_ordered(offsets: &Vec<usize>, index: usize) -> (r: bool)
    ensures
        r == record_ordered(offsets@, index as int),
{
    if offsets.len() > 0 && index < offsets.len() - 1 {
        offsets[index] <= offsets[index + 1]
    } else {
        true
    }
}

impl HaodooBook {
    pub closed spec fn chapter_count_spec(&self) -> nat {
        self.cache@.len()
    }

    pub closed spec fn current(&self) -> usize {
        self.chapter_index
    }

    pub closed spec fn kind(&self) -> PdbType {
        self.book_type
    }

    /// The chapter titles.
    pub closed spec fn titles(&self) -> Seq<String> {
        self.titles@
    }

    /// The lines of the current chapter.
    pub closed spec fn current_lines(&self) -> Seq<Line> {
        self.lines@
    }

    /// The lines of chapter `i` read before and kept, if they were.
    pub closed spec fn cached(&self, i: int) -> Option<Seq<Line>> {
        match self.cache@[i] {
            Some(v) => Some(v@),
            None => None,
        }
    }

    /// The bytes chapter `i` is decoded from, as the book's file gives them.
    pub closed spec fn source_of(&self, i: usize) -> Result<Seq<u8>, HaodooLoadError> {
        chapter_source(self.content@, self.record_offsets@, self.book_type, self.encrypt_chapter_index, i)
    }

    /// Reads one record of the file, refusing offsets that go backwards.
    fn record(content: &Vec<u8>, offsets: &Vec<usize>, index: usize) -> (r: Result<
        Vec<u8>,
        HaodooLoadError,
    >)
        ensures
            r matches Ok(v) ==> record_spec(content@, offsets@, index as int) == Ok::<Seq<u8>, HaodooError>(v@),
            r matches Err(e) ==> e != HaodooLoadError::Format(HaodooError::InvalidBookId),
            match (r, checked_record(content@, offsets@, index as int)) {
                (Ok(v), Ok(b)) => v@ == b,
                (Err(e), Err(f)) => e == f,
                _ => false,
            },
    {
        if !records_ordered(offsets, index) {
            return Err(HaodooLoadError::Malformed);
        }
        match read_record(content, offsets, index) {
            Ok(v) => Ok(v),
            Err(e) => Err(HaodooLoadError::Format(e)),
        }
    }

    /// The titles of the chapters that the first record names, each decoded in `encoding`.
    fn toc_titles(record: &Vec<u8>, encoding: &'static Encoding, escape: &[u8], splitter: &[u8], tail: usize)
        -> (r: Result<Vec<String>, HaodooLoadError>)
        requires
            escape@.len() > 0,
            splitter@.len() > 0,
            tail <= 1,
        ensures
            r matches Err(e) ==> e != HaodooLoadError::Format(HaodooError::InvalidBookId),
            r matches Err(e) ==> toc_titles_error(record@, escape@, splitter@, tail as int) == Some(e),
            r is Ok ==> toc_titles_error(record@, escape@, splitter@, tail as int) is None,
            r matches Ok(titles) ==> ({
                let ranges = title_ranges_from(record@, splitter@, tail as int, titles_start(record@, escape@)->0);
                &&& titles@.len() == ranges.len()
                &&& forall|k: int|
                    0 <= k < titles@.len() ==> (#[trigger] titles@[k])@ == decoded_text(
                        encoding,
                        record@.subrange(ranges[k].0, ranges[k].1),
                    )
            }),
    {
        if record.len() < 8 {
            return Err(HaodooLoadError::Malformed);
        }
        if let Some(p1) = find_pattern(record, escape, 8) {
            proof {
                lemma_find_from_bounds(record@, escape@, 8);
            }
            if escape.len() > record.len() / 3 || p1 > record.len() - 3 * escape.len() {
                return Err(HaodooLoadError::Malformed);
            }
        }
        let ranges = match parse_toc(record, escape, splitter, tail) {
            Ok(r) => r,
            Err(e) => return Err(HaodooLoadError::Format(e)),
        };
        let ghost spec_ranges = title_ranges_from(record@, splitter@, tail as int, titles_start(record@, escape@)->0);
        let mut titles: Vec<String> = Vec::new();
        let mut k: usize = 0;
        while k < ranges.len()
            invariant
                k <= ranges@.len(),
                record@.len() >= 8,
                !(find_from(record@, escape@, 8) matches Some(p1) && (escape@.len() > record@.len() / 3 || p1
                    > record@.len() - 3 * escape@.len())),
                titles_start(record@, escape@) is Some,
                spec_ranges == title_ranges_from(record@, splitter@, tail as int, titles_start(record@, escape@)->0),
                ranges@.len() == spec_ranges.len(),
                forall|j: int| 0 <= j < ranges@.len() ==> (#[trigger] ranges@[j].0 as int, ranges@[j].1 as int) == spec_ranges[j],
                titles@.len() == k,
                forall|j: int| 0 <= j < k ==> (#[trigger] spec_ranges[j]).0 <= spec_ranges[j].1 <= record@.len(),
                forall|j: int|
                    0 <= j < k ==> (#[trigger] titles@[j])@ == decoded_text(
                        encoding,
                        record@.subrange(spec_ranges[j].0, spec_ranges[j].1),
                    ),
            decreases ranges@.len() - k,
        {
            let (start, end) = ranges[k];
            assert((ranges@[k as int].0 as int, ranges@[k as int].1 as int) == spec_ranges[k as int]);
            if start > end || end > record.len() {
                assert(!(spec_ranges[k as int].0 <= spec_ranges[k as int].1 <= record@.len()));
                return Err(HaodooLoadError::Malformed);
            }
            let bytes = sub_bytes(record, start, end);
            titles.push(decode_with(encoding, bytes.as_slice()));
            k = k + 1;
        }
        Ok(titles)
    }

    /// Opens a book from the bytes of its file, at the chapter `loading_chapter` names.
    /// Where the file is cut short, or its offsets or commands point outside it, the error
    /// is `Malformed`.
    pub fn new(content: Vec<u8>, loading_chapter: LoadingChapter) -> (r: Result<Self, HaodooLoadError>)
        ensures
            r matches Ok(book) ==> match loading_chapter {
                LoadingChapter::Index(i) => book.current() == i,
                LoadingChapter::Last => book.current() == book.chapter_count_spec() - 1,
            },
            r matches Ok(book) ==> book.current() < book.chapter_count_spec(),
            r matches Err(HaodooLoadError::Format(HaodooError::InvalidBookId)) ==> content@.len()
                >= HEADER_LENGTH && pdb_type_of(content@.subrange(ID_OFFSET as int, ID_OFFSET + 4)) is None,
    {
        if !is_header_readable(&content) {
            return Err(HaodooLoadError::Malformed);
        }
        let (book_type, record_offsets) = match parse_header(&content) {
            Ok(h) => h,
            Err(e) => return Err(HaodooLoadError::Format(e)),
        };
        let record = Self::record(&content, &record_offsets, 0)?;
        let mut encrypt_chapter_index: Option<usize> = None;
        let titles: Vec<String>;
        let mut cache: Vec<Option<Vec<Line>>> = Vec::new();
        match book_type {
            PdbType::Pdb => {
                titles = Self::toc_titles(&record, big5(), &[0x1bu8], &[0x1bu8], 1)?;
                cache = none_cache(titles.len());
                let encrypt_record_index = record_offsets.len() / 2;
                let mut encrypt_record = Self::record(&content, &record_offsets, encrypt_record_index)?;
                if encrypt_record_index == 0 || encrypt_record_index - 1 >= titles.len() {
                    return Err(HaodooLoadError::Malformed);
                }
                let chapter_index = encrypt_record_index - 1;
                if encrypt_record.len() < ENCRYPT_MARK_LENGTH {
                    if !mark_check_ok(&encrypt_record) {
                        return Err(HaodooLoadError::Malformed);
                    }
                }
                let offset = if encrypt_record.len() >= ENCRYPT_MARK_LENGTH && check_encrypt_mark(&encrypt_record) {
                    encrypt_chapter_index = Some(chapter_index);
                    proof {
                        lemma_decrypt_len(encrypt_record@);
                    }
                    decrypt_pdb(&mut encrypt_record);
                    ENCRYPT_MARK_LENGTH
                } else {
                    0
                };
                let rest = sub_bytes(&encrypt_record, offset, encrypt_record.len());
                let text = decode_with(big5(), rest.as_slice());
                cache.set(chapter_index, Some(txt_lines(text.as_str())));
            },
            PdbType::Updb => {
                titles = Self::toc_titles(&record, utf_16le(), &[0x1bu8, 0x00u8], &[0x0du8, 0x00u8, 0x0au8, 0x00u8], 0)?;
                cache = none_cache(titles.len());
            },
            PdbType::PalmDoc => {
                if record.len() < 10 {
                    return Err(HaodooLoadError::Malformed);
                }
                let compression = record[1] == 2;
                let text_count = read_u16(record.as_slice(), 8);
                let mut lines: Vec<Line> = Vec::new();
                let mut encoding: Option<&'static Encoding> = None;
                let mut index: usize = 1;
                while index <= text_count
                    invariant
                        1 <= index,
                        text_count <= 65535,
                    decreases text_count + 1 - index,
                {
                    let mut rec = Self::record(&content, &record_offsets, index)?;
                    if compression {
                        if !is_palm_doc_decodable(&rec) {
                            return Err(HaodooLoadError::Malformed);
                        }
                        rec = decompress_palm_doc(rec);
                    }
                    let enc = match encoding {
                        Some(e) => e,
                        None => {
                            let e = detect_charset(&rec, false);
                            encoding = Some(e);
                            e
                        },
                    };
                    let text = match decode_text(rec, enc) {
                        Ok(t) => t,
                        Err(e) => return Err(HaodooLoadError::Text(e)),
                    };
                    let mut sub_lines = txt_lines(text.as_str());
                    lines.append(&mut sub_lines);
                    index = index + 1;
                }
                let mut t: Vec<String> = Vec::new();
                t.push(String::from_str("None"));
                titles = t;
                cache.push(Some(lines));
            },
        }
        if cache.len() == 0 {
            return Err(HaodooLoadError::NoChapter);
        }
        let chapter_index = match loading_chapter {
            LoadingChapter::Index(index) => index,
            LoadingChapter::Last => cache.len() - 1,
        };
        if chapter_index >= cache.len() {
            return Err(HaodooLoadError::NoChapter);
        }
        let cached = cache.remove(chapter_index);
        cache.insert(chapter_index, None);
        let lines = match cached {
            Some(lines) => lines,
            None => Self::chapter_lines(&content, &record_offsets, book_type, encrypt_chapter_index, chapter_index)?,
        };
        Ok(HaodooBook {
            content,
            book_type,
            record_offsets,
            encrypt_chapter_index,
            titles,
            cache,
            lines,
            chapter_index,
        })
    }

    /// The lines of a chapter, read from its record: decrypted from the first hidden
    /// chapter on, then decoded.
    fn chapter_lines(content: &Vec<u8>, offsets: &Vec<usize>, book_type: PdbType,
        encrypt_chapter_index: Option<usize>, chapter_index: usize) -> (r: Result<Vec<Line>, HaodooLoadError>)
        ensures
            r matches Err(e) ==> e != HaodooLoadError::Format(HaodooError::InvalidBookId),
            match (r, chapter_source(content@, offsets@, book_type, encrypt_chapter_index, chapter_index)) {
                (Ok(lines), Ok(bytes)) => chapter_text_lines(lines@, book_type, bytes),
                (Err(e), Err(f)) => e == f,
                _ => false,
            },
    {
        if chapter_index == usize::MAX {
            return Err(HaodooLoadError::Format(HaodooError::InvalidRecordIndex));
        }
        let mut record = Self::record(content, offsets, chapter_index + 1)?;
        let encoding = match book_type {
            PdbType::Pdb => {
                if let Some(encrypt_chapter_index) = encrypt_chapter_index {
                    if encrypt_chapter_index <= chapter_index {
                        if record.len() == 0 {
                            return Err(HaodooLoadError::Malformed);
                        }
                        decrypt_pdb(&mut record);
                    }
                }
                big5()
            },
            PdbType::Updb => utf_16le(),
            PdbType::PalmDoc => return Err(HaodooLoadError::Malformed),
        };
        let text = decode_with(encoding, record.as_slice());
        let lines = txt_lines(text.as_str());
        proof {
            assert(is_text_lines(lines@, decoded_text(encoding, record@)));
        }
        Ok(lines)
    }

    /// The title of each chapter with its index, for the table of contents; none for a
    /// PalmDoc book.
    pub fn toc_entries(&self) -> (r: Option<Vec<(String, usize)>>)
        ensures
            self.kind() == PdbType::PalmDoc <==> r is None,
            r matches Some(v) ==> v@.len() == self.titles().len() && forall|i: int|
                0 <= i < v@.len() ==> (#[trigger] v@[i]).1 == i && v@[i].0@ == self.titles()[i]@,
    {
        if self.book_type == PdbType::PalmDoc {
            return None;
        }
        let mut v: Vec<(String, usize)> = Vec::new();
        let mut i: usize = 0;
        while i < self.titles.len()
            invariant
                i <= self.titles@.len(),
                v@.len() == i,
                forall|j: int| 0 <= j < v@.len() ==> (#[trigger] v@[j]).1 == j && v@[j].0@ == self.titles@[j]@,
            decreases self.titles@.len() - i,
        {
            v.push((self.titles[i].clone(), i));
            i = i + 1;
        }
        Some(v)
    }
}

/// A cache of `n` chapters, none of them loaded.
fn none_cache(n: usize) -> (c: Vec<Option<Vec<Line>>>)
    ensures
        c@.len() == n,
        forall|i: int| 0 <= i < n ==> (#[trigger] c@[i]) is None,
{
    let mut c: Vec<Option<Vec<Line>>> = Vec::new();
    let mut i: usize = 0;
    while i < n
        invariant
            i <= n,
            c@.len() == i,
            forall|j: int| 0 <= j < i ==> (#[trigger] c@[j]) is None,
        decreases n - i,
    {
        c.push(None);
        i = i + 1;
    }
    c
}

fn mark_check_ok(record: &Vec<u8>) -> (r: bool)
    requires
        record@.len() < ENCRYPT_MARK_LENGTH,
    ensures
        r == mark_check_in_bounds(record@),
{
    let mark = encrypt_mark_bytes();
    let mut k: usize = 0;
    while k < record.len()
        invariant
            mark@ == encrypt_mark(),
            record@.len() < ENCRYPT_MARK_LENGTH,
            k <= record@.len(),
            forall|j: int| 0 <= j < k ==> record@[j] == mark@[j],
        decreases record@.len() - k,
    {
        if record[k] != mark[k] {
            assert(record@[k as int] != encrypt_mark().take(record@.len() as int)[k as int]);
            return true;
        }
        k = k + 1;
    }
    assert(record@ =~= encrypt_mark().take(record@.len() as int));
    false
}

impl Book for HaodooBook {
    fn chapter_count(&self) -> (n: usize)
        ensures
            n == (if self.kind() == PdbType::PalmDoc { 1 } else { self.chapter_count_spec() }),
    {
        if self.book_type == PdbType::PalmDoc {
            1
        } else {
            self.cache.len()
        }
    }

    fn current_chapter(&self) -> (c: usize)
        ensures
            c == self.current(),
    {
        self.chapter_index
    }

    fn toc_index(&self, _line: usize, _offset: usize) -> (c: usize)
        ensures
            c == self.current(),
    {
        self.chapter_index
    }

    fn title(&self, _line: usize, _offset: usize) -> (t: Option<&str>)
        ensures
            self.kind() == PdbType::PalmDoc ==> t is None,
            self.kind() != PdbType::PalmDoc && self.current() < self.titles().len() ==> (t matches Some(title)
                && title@ == self.titles()[self.current() as int]@),
            self.kind() != PdbType::PalmDoc && self.current() >= self.titles().len() ==> t is None,
    {
        if self.book_type == PdbType::PalmDoc {
            None
        } else if self.chapter_index < self.titles.len() {
            Some(self.titles[self.chapter_index].as_str())
        } else {
            None
        }
    }

    /// Goes to a chapter, reading its lines from the file unless they were read before.
    fn goto_chapter(&mut self, chapter_index: usize) -> (r: Result<Option<usize>, ChapterError>)
        ensures
            chapter_index >= old(self).chapter_count_spec() ==> (r matches Ok(None)
                && final(self).current() == old(self).current()),
            r matches Ok(Some(i)) ==> i == chapter_index && final(self).current() == chapter_index,
            r is Err ==> final(self).current() == old(self).current(),
            final(self).chapter_count_spec() == old(self).chapter_count_spec(),
            final(self).kind() == old(self).kind(),
            forall|i: usize| #[trigger] final(self).source_of(i) == old(self).source_of(i),
            chapter_index < old(self).chapter_count_spec() && chapter_index == old(self).current() ==> (r
                == Ok::<Option<usize>, ChapterError>(Some(chapter_index)) && final(self).current_lines()
                == old(self).current_lines()),
            chapter_index < old(self).chapter_count_spec() && chapter_index != old(self).current() ==> match old(
                self,
            ).cached(chapter_index as int) {
                Some(lines) => r == Ok::<Option<usize>, ChapterError>(Some(chapter_index))
                    && final(self).current_lines() == lines,
                None => match old(self).source_of(chapter_index) {
                    Ok(bytes) => r == Ok::<Option<usize>, ChapterError>(Some(chapter_index))
                        && chapter_text_lines(final(self).current_lines(), old(self).kind(), bytes),
                    Err(_) => r matches Err(e) && e.message() == "failed to load chapter"@
                        && final(self).current_lines() == old(self).current_lines(),
                },
            },
    {
        if chapter_index >= self.cache.len() {
            return Ok(None);
        }
        if chapter_index == self.chapter_index {
            return Ok(Some(chapter_index));
        }
        let cached = self.cache.remove(chapter_index);
        self.cache.insert(chapter_index, None);
        let lines = match cached {
            Some(lines) => lines,
            None => match Self::chapter_lines(
                &self.content,
                &self.record_offsets,
                self.book_type,
                self.encrypt_chapter_index,
                chapter_index,
            ) {
                Ok(lines) => lines,
                Err(_) => return Err(ChapterError::new(String::from_str("failed to load chapter"))),
            },
        };
        let mut previous = lines;
        std::mem::swap(&mut self.lines, &mut previous);
        if self.chapter_index < self.cache.len() {
            self.cache.remove(self.chapter_index);
            self.cache.insert(self.chapter_index, Some(previous));
        }
        self.chapter_index = chapter_index;
        Ok(Some(chapter_index))
    }

    fn lines(&self) -> (l: &Vec<Line>)
        ensures
            l@ == self.current_lines(),
    {
        &self.lines
    }
}

} // verus!
