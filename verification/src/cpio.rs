//! CPIO-newc archives as ordered entry lists.
//!
//! The archive grammar (110-byte ASCII headers, 8-hex-digit fields,
//! 4-byte alignment after name and data, `TRAILER!!!` sentinel) is this
//! project's own logic: the emitter and parser below are verified
//! against one byte-level model, and parsing inverts emission.

use vstd::prelude::*;
use vstd::arithmetic::div_mod::{lemma_div_denominator, lemma_fundamental_div_mod};
use vstd::utf8::{encode_utf8, valid_utf8};
use crate::error::FlashError;

verus! {

broadcast use vstd::utf8::encode_utf8_valid_utf8;

/// One file of a ramdisk archive.
#[derive(Debug, Clone)]
pub struct CpioEntry {
    /// Path inside the ramdisk.
    pub name: String,
    /// Unix mode bits.
    pub mode: u32,
    /// File contents.
    pub data: Vec<u8>,
}

/// Mathematical model of an entry: the UTF-8 bytes of its name, its
/// mode, and its data bytes.
#[verifier::ext_equal]
pub struct CpioEntryModel {
    pub name: Seq<u8>,
    pub mode: u32,
    pub data: Seq<u8>,
}

impl View for CpioEntry {
    type V = CpioEntryModel;

    open spec fn view(&self) -> CpioEntryModel {
        CpioEntryModel { name: encode_utf8(self.name@), mode: self.mode, data: self.data@ }
    }
}

/// The models of a list of entries.
pub open spec fn entry_models(s: Seq<CpioEntry>) -> Seq<CpioEntryModel> {
    s.map_values(|e: CpioEntry| e@)
}

/// The ASCII magic `070701` that opens every newc record.
pub open spec fn newc_magic() -> Seq<u8> {
    seq![48u8, 55u8, 48u8, 55u8, 48u8, 49u8]
}

/// The ASCII bytes of the sentinel name `TRAILER!!!`.
pub open spec fn trailer_name() -> Seq<u8> {
    seq![84u8, 82u8, 65u8, 73u8, 76u8, 69u8, 82u8, 33u8, 33u8, 33u8]
}

// ---------------------------------------------------------------------------
// 8-digit ASCII hex fields.

/// The ASCII code of hex digit `d` (lowercase).
pub open spec fn hex_digit(d: int) -> u8 {
    if d < 10 {
        (48 + d) as u8
    } else {
        (87 + d) as u8
    }
}

/// The eight ASCII hex digits of `n`, most significant first.
pub open spec fn hex8(n: int) -> Seq<u8> {
    seq![
        hex_digit((n / 0x10000000) % 16),
        hex_digit((n / 0x1000000) % 16),
        hex_digit((n / 0x100000) % 16),
        hex_digit((n / 0x10000) % 16),
        hex_digit((n / 0x1000) % 16),
        hex_digit((n / 0x100) % 16),
        hex_digit((n / 0x10) % 16),
        hex_digit(n % 16),
    ]
}

pub open spec fn is_hex_byte(b: u8) -> bool {
    (48 <= b <= 57) || (97 <= b <= 102) || (65 <= b <= 70)
}

/// The value of one ASCII hex digit, lowercase or uppercase.
pub open spec fn hex_byte_val(b: u8) -> int {
    if 48 <= b <= 57 {
        b - 48
    } else if 97 <= b <= 102 {
        b - 87
    } else {
        b - 55
    }
}

/// Horner evaluation of the first `k` hex digits of `s`.
pub open spec fn hex_val_rec(s: Seq<u8>, k: int) -> int
    decreases k,
{
    if k <= 0 {
        0
    } else {
        hex_val_rec(s, k - 1) * 16 + hex_byte_val(s[k - 1])
    }
}

/// The value of an 8-digit hex field, or `None` if a byte is not hex.
pub open spec fn parse_hex8(s: Seq<u8>) -> Option<int> {
    if s.len() == 8 && (forall|i: int| 0 <= i < 8 ==> is_hex_byte(#[trigger] s[i])) {
        Some(hex_val_rec(s, 8))
    } else {
        None
    }
}

proof fn lemma_hex_digit_val(d: int)
    requires
        0 <= d < 16,
    ensures
        is_hex_byte(hex_digit(d)),
        hex_byte_val(hex_digit(d)) == d,
{
}

/// Parsing an emitted hex field yields the emitted value.
pub proof fn lemma_hex8_round_trip(n: int)
    requires
        0 <= n < 0x1_0000_0000,
    ensures
        parse_hex8(hex8(n)) == Some(n),
{
    let s = hex8(n);
    assert forall|i: int| 0 <= i < 8 implies is_hex_byte(#[trigger] s[i]) by {
        if i == 0 { lemma_hex_digit_val((n / 0x10000000) % 16); }
        if i == 1 { lemma_hex_digit_val((n / 0x1000000) % 16); }
        if i == 2 { lemma_hex_digit_val((n / 0x100000) % 16); }
        if i == 3 { lemma_hex_digit_val((n / 0x10000) % 16); }
        if i == 4 { lemma_hex_digit_val((n / 0x1000) % 16); }
        if i == 5 { lemma_hex_digit_val((n / 0x100) % 16); }
        if i == 6 { lemma_hex_digit_val((n / 0x10) % 16); }
        if i == 7 { lemma_hex_digit_val(n % 16); }
    }
    lemma_hex_digit_val((n / 0x10000000) % 16);
    lemma_hex_digit_val((n / 0x1000000) % 16);
    lemma_hex_digit_val((n / 0x100000) % 16);
    lemma_hex_digit_val((n / 0x10000) % 16);
    lemma_hex_digit_val((n / 0x1000) % 16);
    lemma_hex_digit_val((n / 0x100) % 16);
    lemma_hex_digit_val((n / 0x10) % 16);
    lemma_hex_digit_val(n % 16);
    // Quotient chain: each quotient is the next one divided by 16.
    lemma_div_denominator(n, 0x10, 0x10);
    lemma_div_denominator(n, 0x100, 0x10);
    lemma_div_denominator(n, 0x1000, 0x10);
    lemma_div_denominator(n, 0x10000, 0x10);
    lemma_div_denominator(n, 0x100000, 0x10);
    lemma_div_denominator(n, 0x1000000, 0x10);
    lemma_fundamental_div_mod(n, 0x10);
    lemma_fundamental_div_mod(n / 0x10, 0x10);
    lemma_fundamental_div_mod(n / 0x100, 0x10);
    lemma_fundamental_div_mod(n / 0x1000, 0x10);
    lemma_fundamental_div_mod(n / 0x10000, 0x10);
    lemma_fundamental_div_mod(n / 0x100000, 0x10);
    lemma_fundamental_div_mod(n / 0x1000000, 0x10);
    lemma_fundamental_div_mod(n / 0x10000000, 0x10);
    assert(n / 0x10000000 < 16) by (nonlinear_arith)
        requires 0 <= n < 0x1_0000_0000;
    assert(hex_val_rec(s, 0) == 0);
    assert(hex_val_rec(s, 1) == (n / 0x10000000) % 16);
    assert(hex_val_rec(s, 1) == n / 0x10000000);
    assert(hex_val_rec(s, 2) == hex_val_rec(s, 1) * 16 + (n / 0x1000000) % 16);
    assert(hex_val_rec(s, 2) == n / 0x1000000);
    assert(hex_val_rec(s, 3) == hex_val_rec(s, 2) * 16 + (n / 0x100000) % 16);
    assert(hex_val_rec(s, 3) == n / 0x100000);
    assert(hex_val_rec(s, 4) == hex_val_rec(s, 3) * 16 + (n / 0x10000) % 16);
    assert(hex_val_rec(s, 4) == n / 0x10000);
    assert(hex_val_rec(s, 5) == hex_val_rec(s, 4) * 16 + (n / 0x1000) % 16);
    assert(hex_val_rec(s, 5) == n / 0x1000);
    assert(hex_val_rec(s, 6) == hex_val_rec(s, 5) * 16 + (n / 0x100) % 16);
    assert(hex_val_rec(s, 6) == n / 0x100);
    assert(hex_val_rec(s, 7) == hex_val_rec(s, 6) * 16 + (n / 0x10) % 16);
    assert(hex_val_rec(s, 7) == n / 0x10);
    assert(hex_val_rec(s, 8) == hex_val_rec(s, 7) * 16 + n % 16);
    assert(hex_val_rec(s, 8) == n);
}

/// Append the eight hex digits of `v`.
fn write_hex8(out: &mut Vec<u8>, v: u32)
    ensures
        final(out)@ == old(out)@ + hex8(v as int),
{
    let ghost pre = out@;
    // Straight-line emission of the eight digits.
    let d0: u32 = (v / 0x10000000) % 16;
    let d1: u32 = (v / 0x1000000) % 16;
    let d2: u32 = (v / 0x100000) % 16;
    let d3: u32 = (v / 0x10000) % 16;
    let d4: u32 = (v / 0x1000) % 16;
    let d5: u32 = (v / 0x100) % 16;
    let d6: u32 = (v / 0x10) % 16;
    let d7: u32 = v % 16;
    out.push(if d0 < 10 { (48 + d0) as u8 } else { (87 + d0) as u8 });
    out.push(if d1 < 10 { (48 + d1) as u8 } else { (87 + d1) as u8 });
    out.push(if d2 < 10 { (48 + d2) as u8 } else { (87 + d2) as u8 });
    out.push(if d3 < 10 { (48 + d3) as u8 } else { (87 + d3) as u8 });
    out.push(if d4 < 10 { (48 + d4) as u8 } else { (87 + d4) as u8 });
    out.push(if d5 < 10 { (48 + d5) as u8 } else { (87 + d5) as u8 });
    out.push(if d6 < 10 { (48 + d6) as u8 } else { (87 + d6) as u8 });
    out.push(if d7 < 10 { (48 + d7) as u8 } else { (87 + d7) as u8 });
    proof {
        assert(out@ =~= pre + hex8(v as int));
    }
}

// ---------------------------------------------------------------------------
// Record and archive model.

/// `n` rounded up to a multiple of four.
pub open spec fn align4(n: int) -> int {
    ((n + 3) / 4) * 4
}

pub proof fn lemma_align4(n: int)
    requires
        n >= 0,
    ensures
        n <= align4(n) < n + 4,
        align4(n) % 4 == 0,
        align4(n) - n == (4 - n % 4) % 4,
{
    assert(n <= ((n + 3) / 4) * 4 < n + 4 && (((n + 3) / 4) * 4) % 4 == 0 && ((n + 3) / 4)
        * 4 - n == (4 - n % 4) % 4) by (nonlinear_arith)
        requires n >= 0;
}

/// A sequence of `n` zero bytes.
pub open spec fn zeros(n: int) -> Seq<u8> {
    Seq::new(n as nat, |i: int| 0u8)
}

/// The 110-byte header of a newc record.
pub open spec fn header_of(name_len: int, mode: u32, data_len: int, ino: u32) -> Seq<u8> {
    newc_magic() + hex8(ino as int) + hex8(mode as int) + hex8(1000) + hex8(1000) + hex8(1)
        + hex8(0) + hex8(data_len) + hex8(0) + hex8(0) + hex8(0) + hex8(0) + hex8(
        name_len + 1) + hex8(0)
}

/// One complete newc record: header, NUL-terminated name padded to a
/// four-byte boundary, then data padded likewise.
#[verifier::opaque]
pub open spec fn record_of(e: CpioEntryModel, ino: u32) -> Seq<u8> {
    header_of(e.name.len() as int, e.mode, e.data.len() as int, ino) + e.name + seq![0u8]
        + zeros(align4(111 + e.name.len() as int) - (111 + e.name.len() as int)) + e.data + zeros(
        align4(e.data.len() as int) - e.data.len())
}

/// Record length in bytes.
pub open spec fn record_len(e: CpioEntryModel) -> int {
    align4(111 + e.name.len() as int) + align4(e.data.len() as int)
}

#[verifier::rlimit(100)]
pub proof fn lemma_record_len(e: CpioEntryModel, ino: u32)
    ensures
        record_of(e, ino).len() == record_len(e),
        record_len(e) >= 112,
        record_len(e) % 4 == 0,
{
    reveal(record_of);
    lemma_align4(111 + e.name.len() as int);
    lemma_align4(e.data.len() as int);
    assert((align4(111 + e.name.len() as int) + align4(e.data.len() as int)) % 4 == 0) by {
        let a = align4(111 + e.name.len() as int);
        let b = align4(e.data.len() as int);
        assert(a % 4 == 0 && b % 4 == 0 ==> (a + b) % 4 == 0) by (nonlinear_arith);
    }
}

/// The records of `entries`, with inode numbers counting up from `ino`.
pub open spec fn records_of(entries: Seq<CpioEntryModel>, ino: u32) -> Seq<u8>
    decreases entries.len(),
{
    if entries.len() == 0 {
        Seq::empty()
    } else {
        record_of(entries[0], ino) + records_of(entries.drop_first(), (ino + 1) as u32)
    }
}

/// The model of the sentinel record ending every archive.
pub open spec fn trailer_record() -> Seq<u8> {
    record_of(CpioEntryModel { name: trailer_name(), mode: 0, data: Seq::empty() }, 0)
}

/// The full archive the emitter produces for `entries`.
pub open spec fn archive_of(entries: Seq<CpioEntryModel>) -> Seq<u8> {
    records_of(entries, 0) + trailer_record()
}

/// An entry the emitter accepts: a nonempty name without NUL bytes
/// that is not the sentinel, with sizes that fit the 32-bit fields.
pub open spec fn wf_entry(e: CpioEntryModel) -> bool {
    &&& 1 <= e.name.len()
    &&& e.name.len() + 1 <= 0xFFFF_FFFF
    &&& e.data.len() <= 0xFFFF_FFFF
    &&& (forall|i: int| 0 <= i < e.name.len() ==> #[trigger] e.name[i] != 0)
    &&& e.name != trailer_name()
    &&& valid_utf8(e.name)
}

pub open spec fn wf_entries(s: Seq<CpioEntryModel>) -> bool {
    &&& (forall|i: int| 0 <= i < s.len() ==> wf_entry(#[trigger] s[i]))
    &&& s.len() <= 0xFFFF_FFFF
}

// ---------------------------------------------------------------------------
// Emitter.

/// Whether the emitter accepts this entry.
#[verifier::loop_isolation(false)]
fn check_entry(e: &CpioEntry) -> (b: bool)
    ensures
        b == wf_entry(e@),
{
    let name = e.name.as_str().as_bytes();
    proof {
        assert(name@ == encode_utf8(e.name@));
    }
    if name.len() < 1 || name.len() > 0xFFFF_FFFE || e.data.len() > 0xFFFF_FFFF {
        return false;
    }
    let mut i: usize = 0;
    while i < name.len()
        invariant
            i <= name@.len(),
            forall|j: int| 0 <= j < i ==> #[trigger] name@[j] != 0,
        decreases name@.len() - i,
    {
        if name[i] == 0 {
            return false;
        }
        i += 1;
    }
    let is_trailer = name.len() == 10 && name[0] == 84 && name[1] == 82 && name[2] == 65
        && name[3] == 73 && name[4] == 76 && name[5] == 69 && name[6] == 82 && name[7] == 33
        && name[8] == 33 && name[9] == 33;
    proof {
        if is_trailer {
            assert(name@ =~= trailer_name());
        } else {
            if name@.len() == 10 {
                assert(name@ != trailer_name() || (name@[0] == 84 && name@[1] == 82
                    && name@[2] == 65 && name@[3] == 73 && name@[4] == 76 && name@[5] == 69
                    && name@[6] == 82 && name@[7] == 33 && name@[8] == 33 && name@[9] == 33));
            }
        }
        assert(valid_utf8(e@.name));
    }
    !is_trailer
}

/// Append zero bytes until `out` is four-byte aligned.
#[verifier::loop_isolation(false)]
fn pad_to_4(out: &mut Vec<u8>)
    ensures
        final(out)@ == old(out)@ + zeros(align4(old(out)@.len() as int) - old(out)@.len()),
        final(out)@.len() == align4(old(out)@.len() as int),
{
    let ghost pre = out@;
    proof {
        lemma_align4(pre.len() as int);
    }
    let mut j: usize = 0;
    let pad: usize = (4 - (out.len() % 4)) % 4;
    while j < pad
        invariant
            j <= pad,
            pad == (4 - (pre.len() as int % 4)) % 4,
            out@ == pre + zeros(j as int),
        decreases pad - j,
    {
        out.push(0);
        proof {
            assert(out@ =~= pre + zeros(j + 1));
        }
        j += 1;
    }
    proof {
        lemma_align4(pre.len() as int);
        assert(out@ =~= pre + zeros(align4(pre.len() as int) - pre.len()));
    }
}

/// Append the 110-byte header: magic and thirteen hex fields.
#[verifier::rlimit(100)]
fn write_header(out: &mut Vec<u8>, ino: u32, mode: u32, filesize: u32, namesize: u32)
    requires
        namesize >= 1,
    ensures
        final(out)@ == old(out)@ + header_of(namesize - 1, mode, filesize as int, ino),
        final(out)@.len() == old(out)@.len() + 110,
{
    let ghost pre = out@;
    out.push(48);
    out.push(55);
    out.push(48);
    out.push(55);
    out.push(48);
    out.push(49);
    proof {
        assert(out@ =~= pre + newc_magic());
    }
    write_hex8(out, ino);
    write_hex8(out, mode);
    write_hex8(out, 1000);
    write_hex8(out, 1000);
    write_hex8(out, 1);
    write_hex8(out, 0);
    write_hex8(out, filesize);
    write_hex8(out, 0);
    write_hex8(out, 0);
    write_hex8(out, 0);
    write_hex8(out, 0);
    write_hex8(out, namesize);
    write_hex8(out, 0);
    proof {
        assert(out@ =~= pre + header_of(namesize - 1, mode, filesize as int, ino));
    }
}

/// Prepending a prefix distributes over the record's six segments.
#[verifier::rlimit(100)]
proof fn lemma_record_assemble(pre: Seq<u8>, e: CpioEntryModel, ino: u32)
    ensures
        pre + record_of(e, ino) =~= pre + header_of(e.name.len() as int, e.mode,
            e.data.len() as int, ino) + e.name + seq![0u8] + zeros(align4(111
            + e.name.len() as int) - (111 + e.name.len() as int)) + e.data + zeros(
            align4(e.data.len() as int) - e.data.len()),
{
    reveal(record_of);
}

/// Append one record for `e` with inode number `ino`.
#[verifier::rlimit(100)]
#[verifier::loop_isolation(false)]
fn write_record(out: &mut Vec<u8>, e: &CpioEntry, ino: u32)
    requires
        1 <= e@.name.len(),
        e@.name.len() + 1 <= 0xFFFF_FFFF,
        e@.data.len() <= 0xFFFF_FFFF,
        old(out)@.len() % 4 == 0,
    ensures
        final(out)@ == old(out)@ + record_of(e@, ino),
        final(out)@.len() % 4 == 0,
        final(out)@.len() == old(out)@.len() + record_len(e@),
{
    let ghost pre = out@;
    let name = e.name.as_str().as_bytes();
    proof {
        assert(name@ == e@.name);
    }
    write_header(out, ino, e.mode, e.data.len() as u32, (name.len() + 1) as u32);
    proof {
        assert(out@ == pre + header_of(e@.name.len() as int, e.mode, e@.data.len() as int,
            ino));
        assert(out@.len() == pre.len() + 110);
    }
    let ghost after_header = out@;
    out.extend_from_slice(name);
    out.push(0);
    proof {
        assert(out@ =~= after_header + e@.name + seq![0u8]);
        assert(out@.len() as int == pre.len() + 111 + e@.name.len() as int);
    }
    let ghost after_name = out@;
    pad_to_4(out);
    proof {
        // `pre` is aligned, so aligning `out` adds exactly the record's
        // name padding.
        lemma_align4(111 + e@.name.len() as int);
        lemma_align4(after_name.len() as int);
        assert((pre.len() + (111 + e@.name.len() as int)) % 4 == (111 + e@.name.len() as int) % 4) by (
            nonlinear_arith)
            requires pre.len() % 4 == 0, pre.len() >= 0, e@.name.len() >= 0;
        assert(align4(after_name.len() as int) - after_name.len() == align4(111
            + e@.name.len() as int) - (111 + e@.name.len() as int));
        assert(out@ =~= after_header + e@.name + seq![0u8] + zeros(align4(111
            + e@.name.len() as int) - (111 + e@.name.len() as int)));
    }
    let ghost after_pad = out@;
    out.extend_from_slice(e.data.as_slice());
    let ghost after_data = out@;
    pad_to_4(out);
    proof {
        lemma_align4(e@.data.len() as int);
        lemma_align4(after_data.len() as int);
        assert(after_pad.len() % 4 == 0);
        assert((after_pad.len() + e@.data.len()) % 4 == e@.data.len() % 4) by (
            nonlinear_arith)
            requires after_pad.len() % 4 == 0, after_pad.len() >= 0, e@.data.len() >= 0;
        assert(align4(after_data.len() as int) - after_data.len() == align4(
            e@.data.len() as int) - e@.data.len());
        assert(out@ =~= after_pad + e@.data + zeros(align4(e@.data.len() as int)
            - e@.data.len()));
        lemma_record_assemble(pre, e@, ino);
        assert(out@ == pre + record_of(e@, ino));
        lemma_record_len(e@, ino);
        assert(out@.len() % 4 == 0) by {
            assert(pre.len() % 4 == 0 && record_len(e@) % 4 == 0 ==> (pre.len()
                + record_len(e@)) % 4 == 0) by (nonlinear_arith);
        }
    }
}

/// Appending one entry extends the emitted records by one record.
proof fn lemma_records_push(entries: Seq<CpioEntryModel>, e: CpioEntryModel, ino: u32)
    requires
        entries.len() + ino <= 0xFFFF_FFFF,
    ensures
        records_of(entries.push(e), ino) == records_of(entries, ino) + record_of(e, (ino
            + entries.len()) as u32),
    decreases entries.len(),
{
    if entries.len() == 0 {
        assert(entries.push(e)[0] == e);
        assert(entries.push(e).drop_first() =~= Seq::<CpioEntryModel>::empty());
        assert(records_of(Seq::<CpioEntryModel>::empty(), (ino + 1) as u32)
            == Seq::<u8>::empty());
        assert(records_of(entries, ino) == Seq::<u8>::empty());
        assert(records_of(entries.push(e), ino) =~= record_of(e, ino));
        assert(records_of(entries, ino) + record_of(e, ino) =~= record_of(e, ino));
    } else {
        lemma_records_push(entries.drop_first(), e, (ino + 1) as u32);
        let a = record_of(entries[0], ino);
        let b = records_of(entries.drop_first(), (ino + 1) as u32);
        let c = record_of(e, (ino + entries.len()) as u32);
        assert(entries.push(e)[0] == entries[0]);
        assert(entries.push(e).drop_first() =~= entries.drop_first().push(e));
        assert((ino + 1 + entries.drop_first().len()) as u32 == (ino + entries.len()) as u32);
        assert(records_of(entries.push(e), ino) == a + (b + c));
        assert(a + (b + c) =~= (a + b) + c);
        assert(records_of(entries, ino) + c == (a + b) + c);
    }
}

/// Emit a newc archive: one record per entry with `uid = gid = 1000`,
/// `nlink = 1`, inode numbers counting up, `check = 0`, then the
/// `TRAILER!!!` record.
///
/// Succeeds exactly on well-formed entry lists, and the output is the
/// byte-level archive model, so emission is deterministic and stable
/// for a given entry ordering.
#[verifier::rlimit(100)]
#[verifier::loop_isolation(false)]
pub fn cpio_create_entries(entries: &Vec<CpioEntry>) -> (r: Result<Vec<u8>, FlashError>)
    ensures
        r is Ok <==> wf_entries(entry_models(entries@)),
        r matches Ok(v) ==> v@ == archive_of(entry_models(entries@)),
        r matches Err(e) ==> e is PatchError,
{
    let ghost models = entry_models(entries@);
    if entries.len() > 0xFFFF_FFFF {
        return Err(FlashError::PatchError("too many archive entries".to_owned()));
    }
    let mut i: usize = 0;
    while i < entries.len()
        invariant
            i <= entries@.len(),
            models == entry_models(entries@),
            forall|j: int| 0 <= j < i ==> wf_entry(#[trigger] models[j]),
        decreases entries@.len() - i,
    {
        assert(models[i as int] == entries@[i as int]@);
        if !check_entry(&entries[i]) {
            return Err(FlashError::PatchError(
                "archive entry with an empty, NUL-carrying, oversized or sentinel name".to_owned(),
            ));
        }
        i += 1;
    }
    let mut out: Vec<u8> = Vec::new();
    let mut k: usize = 0;
    while k < entries.len()
        invariant
            k <= entries@.len(),
            entries@.len() <= 0xFFFF_FFFF,
            models == entry_models(entries@),
            forall|j: int| 0 <= j < entries@.len() ==> wf_entry(#[trigger] models[j]),
            out@ == records_of(models.take(k as int), 0),
            out@.len() % 4 == 0,
        decreases entries@.len() - k,
    {
        assert(models[k as int] == entries@[k as int]@);
        write_record(&mut out, &entries[k], k as u32);
        proof {
            lemma_records_push(models.take(k as int), models[k as int], 0);
            assert(models.take(k as int).push(models[k as int]) =~= models.take(k + 1));
        }
        k += 1;
    }
    proof {
        assert(models.take(models.len() as int) =~= models);
    }
    let trailer = CpioEntry { name: trailer_string(), mode: 0, data: Vec::new() };
    let ghost tm = trailer@;
    proof {
        lemma_trailer_name_bytes();
        assert(tm.name =~= trailer_name());
    }
    write_record(&mut out, &trailer, 0);
    proof {
        assert(record_of(tm, 0) =~= trailer_record());
        assert(out@ =~= archive_of(models));
    }
    Ok(out)
}

/// The sentinel name as an owned string.
fn trailer_string() -> (r: String)
    ensures
        r@ == "TRAILER!!!"@,
{
    "TRAILER!!!".to_owned()
}

/// The UTF-8 bytes of the sentinel name are its ASCII codes.
proof fn lemma_trailer_name_bytes()
    ensures
        encode_utf8("TRAILER!!!"@) =~= trailer_name(),
{
    reveal_strlit("TRAILER!!!");
    let chars = "TRAILER!!!"@;
    assert(vstd::utf8::is_ascii_chars(chars));
    vstd::utf8::is_ascii_chars_encode_utf8(chars);
    assert(encode_utf8(chars) =~= trailer_name());
}


// ---------------------------------------------------------------------------
// Parser.

/// Powers of sixteen used to bound hex values.
pub open spec fn pow16(k: int) -> int {
    if k <= 0 {
        1
    } else if k == 1 {
        0x10
    } else if k == 2 {
        0x100
    } else if k == 3 {
        0x1000
    } else if k == 4 {
        0x10000
    } else if k == 5 {
        0x100000
    } else if k == 6 {
        0x1000000
    } else if k == 7 {
        0x10000000
    } else {
        0x100000000
    }
}

/// Hex values are nonnegative and bounded by `16^k`.
pub proof fn lemma_hex_val_rec_bounds(s: Seq<u8>, k: int)
    requires
        0 <= k <= 8,
        forall|i: int| 0 <= i < k ==> is_hex_byte(#[trigger] s[i]),
    ensures
        0 <= hex_val_rec(s, k) < pow16(k),
    decreases k,
{
    if k > 0 {
        lemma_hex_val_rec_bounds(s, k - 1);
        assert(0 <= hex_byte_val(s[k - 1]) < 16);
        assert(pow16(k - 1) * 16 == pow16(k));
        assert(hex_val_rec(s, k) == hex_val_rec(s, k - 1) * 16 + hex_byte_val(s[k - 1]));
        assert(hex_val_rec(s, k - 1) * 16 <= (pow16(k - 1) - 1) * 16) by (nonlinear_arith)
            requires hex_val_rec(s, k - 1) <= pow16(k - 1) - 1;
        assert(hex_val_rec(s, k - 1) * 16 >= 0) by (nonlinear_arith)
            requires hex_val_rec(s, k - 1) >= 0;
    }
}

/// A parsed hex field lies below `2^32`.
pub proof fn lemma_parse_hex8_bounds(s: Seq<u8>)
    ensures
        parse_hex8(s) matches Some(v) ==> 0 <= v < 0x1_0000_0000,
{
    if parse_hex8(s) is Some {
        lemma_hex_val_rec_bounds(s, 8);
    }
}

/// What the parser yields on `d`: the entries up to the sentinel, or
/// `None` when a record is malformed, out of bounds, or carries a
/// name that is not UTF-8.
pub open spec fn parse_records(d: Seq<u8>) -> Option<Seq<CpioEntryModel>>
    decreases d.len(),
    when true
    via parse_records_dec
{
    if d.len() < 110 {
        None
    } else if d.subrange(0, 6) != newc_magic() {
        None
    } else {
        let ino_o = parse_hex8(d.subrange(6, 14));
        let mode_o = parse_hex8(d.subrange(14, 22));
        let uid_o = parse_hex8(d.subrange(22, 30));
        let gid_o = parse_hex8(d.subrange(30, 38));
        let nlink_o = parse_hex8(d.subrange(38, 46));
        let mtime_o = parse_hex8(d.subrange(46, 54));
        let filesize_o = parse_hex8(d.subrange(54, 62));
        let devmajor_o = parse_hex8(d.subrange(62, 70));
        let devminor_o = parse_hex8(d.subrange(70, 78));
        let rdevmajor_o = parse_hex8(d.subrange(78, 86));
        let rdevminor_o = parse_hex8(d.subrange(86, 94));
        let namesize_o = parse_hex8(d.subrange(94, 102));
        let check_o = parse_hex8(d.subrange(102, 110));
        if ino_o is None || mode_o is None || uid_o is None || gid_o is None
            || nlink_o is None || mtime_o is None || filesize_o is None
            || devmajor_o is None || devminor_o is None || rdevmajor_o is None
            || rdevminor_o is None || namesize_o is None || check_o is None {
            None
        } else {
            let namesize = namesize_o.unwrap();
            let filesize = filesize_o.unwrap();
            if namesize < 1 || 110 + namesize > d.len() {
                None
            } else if d[110 + namesize - 1] != 0 {
                None
            } else {
                let name = d.subrange(110, 110 + namesize - 1);
                if name == trailer_name() {
                    Some(Seq::empty())
                } else {
                    let data_start = align4(110 + namesize);
                    let rec_end = data_start + align4(filesize);
                    if rec_end > d.len() {
                        None
                    } else if !valid_utf8(name) {
                        None
                    } else {
                        let data = d.subrange(data_start, data_start + filesize);
                        match parse_records(d.skip(rec_end)) {
                            Some(rest) => Some(
                                seq![CpioEntryModel { name, mode: mode_o.unwrap() as u32, data }]
                                    + rest,
                            ),
                            None => None,
                        }
                    }
                }
            }
        }
    }
}

#[via_fn]
proof fn parse_records_dec(d: Seq<u8>) {
    if d.len() >= 110 {
        let namesize_o = parse_hex8(d.subrange(94, 102));
        let filesize_o = parse_hex8(d.subrange(54, 62));
        if namesize_o is Some && filesize_o is Some {
            let namesize = namesize_o.unwrap();
            let filesize = filesize_o.unwrap();
            lemma_parse_hex8_bounds(d.subrange(94, 102));
            lemma_parse_hex8_bounds(d.subrange(54, 62));
            if namesize >= 1 {
                lemma_align4(110 + namesize);
                lemma_align4(filesize);
            }
        }
    }
}

/// Prepend a prefix to a parse result.
pub open spec fn opt_prepend(p: Seq<CpioEntryModel>, o: Option<Seq<CpioEntryModel>>) -> Option<
    Seq<CpioEntryModel>,
> {
    match o {
        Some(s) => Some(p + s),
        None => None,
    }
}

/// Subranges of a concatenation that fall in the prefix.
proof fn lemma_concat_prefix_subrange(a: Seq<u8>, b: Seq<u8>, i: int, j: int)
    requires
        0 <= i <= j <= a.len(),
    ensures
        (a + b).subrange(i, j) =~= a.subrange(i, j),
{
}

/// Every field of an emitted record sits at its documented offset.
#[verifier::rlimit(100)]
proof fn lemma_record_view(e: CpioEntryModel, ino: u32)
    requires
        1 <= e.name.len(),
        e.name.len() + 1 <= 0xFFFF_FFFF,
        e.data.len() <= 0xFFFF_FFFF,
    ensures
        ({
            let r = record_of(e, ino);
            let ds = align4(111 + e.name.len() as int);
            &&& r.len() == record_len(e)
            &&& r.subrange(0, 6) =~= newc_magic()
            &&& r.subrange(6, 14) =~= hex8(ino as int)
            &&& r.subrange(14, 22) =~= hex8(e.mode as int)
            &&& r.subrange(22, 30) =~= hex8(1000)
            &&& r.subrange(30, 38) =~= hex8(1000)
            &&& r.subrange(38, 46) =~= hex8(1)
            &&& r.subrange(46, 54) =~= hex8(0)
            &&& r.subrange(54, 62) =~= hex8(e.data.len() as int)
            &&& r.subrange(62, 70) =~= hex8(0)
            &&& r.subrange(70, 78) =~= hex8(0)
            &&& r.subrange(78, 86) =~= hex8(0)
            &&& r.subrange(86, 94) =~= hex8(0)
            &&& r.subrange(94, 102) =~= hex8(e.name.len() as int + 1)
            &&& r.subrange(102, 110) =~= hex8(0)
            &&& r.subrange(110, 110 + e.name.len() as int) =~= e.name
            &&& r[110 + e.name.len() as int] == 0
            &&& r.subrange(ds, ds + e.data.len() as int) =~= e.data
        }),
{
    reveal(record_of);
    lemma_record_len(e, ino);
    lemma_align4(111 + e.name.len() as int);
    lemma_align4(e.data.len() as int);
}

/// Parsing peels one emitted record off the front of the stream.
#[verifier::rlimit(100)]
proof fn lemma_parse_record_prefix(e: CpioEntryModel, ino: u32, rest: Seq<u8>)
    requires
        wf_entry(e),
    ensures
        parse_records(record_of(e, ino) + rest) == opt_prepend(seq![e], parse_records(rest)),
{
    let r = record_of(e, ino);
    let d = r + rest;
    lemma_record_view(e, ino);
    lemma_record_len(e, ino);
    let ds = align4(111 + e.name.len() as int);
    lemma_align4(111 + e.name.len() as int);
    lemma_align4(e.data.len() as int);
    // Field subranges of `d` coincide with those of `r`.
    lemma_concat_prefix_subrange(r, rest, 0, 6);
    lemma_concat_prefix_subrange(r, rest, 6, 14);
    lemma_concat_prefix_subrange(r, rest, 14, 22);
    lemma_concat_prefix_subrange(r, rest, 22, 30);
    lemma_concat_prefix_subrange(r, rest, 30, 38);
    lemma_concat_prefix_subrange(r, rest, 38, 46);
    lemma_concat_prefix_subrange(r, rest, 46, 54);
    lemma_concat_prefix_subrange(r, rest, 54, 62);
    lemma_concat_prefix_subrange(r, rest, 62, 70);
    lemma_concat_prefix_subrange(r, rest, 70, 78);
    lemma_concat_prefix_subrange(r, rest, 78, 86);
    lemma_concat_prefix_subrange(r, rest, 86, 94);
    lemma_concat_prefix_subrange(r, rest, 94, 102);
    lemma_concat_prefix_subrange(r, rest, 102, 110);
    lemma_concat_prefix_subrange(r, rest, 110, 110 + e.name.len() as int);
    lemma_concat_prefix_subrange(r, rest, ds, ds + e.data.len() as int);
    // Recover the emitted field values.
    lemma_hex8_round_trip(ino as int);
    lemma_hex8_round_trip(e.mode as int);
    lemma_hex8_round_trip(1000);
    lemma_hex8_round_trip(1);
    lemma_hex8_round_trip(0);
    lemma_hex8_round_trip(e.data.len() as int);
    lemma_hex8_round_trip(e.name.len() as int + 1);
    assert(d.len() >= 110);
    assert(d.subrange(0, 6) == newc_magic());
    let namesize = e.name.len() + 1;
    let filesize = e.data.len() as int;
    assert(parse_hex8(d.subrange(94, 102)) == Some(namesize as int));
    assert(parse_hex8(d.subrange(54, 62)) == Some(filesize));
    assert(110 + namesize <= d.len());
    assert(d[110 + namesize - 1] == r[110 + e.name.len() as int]);
    assert(d[110 + namesize - 1] == 0);
    assert(d.subrange(110, 110 + namesize - 1) =~= r.subrange(110, 110
        + e.name.len() as int));
    assert(d.subrange(110, 110 + namesize - 1) == e.name);
    assert(e.name != trailer_name());
    assert(align4(110 + namesize as int) == ds);
    let rec_end = ds + align4(filesize);
    assert(rec_end == record_len(e));
    assert(rec_end <= d.len());
    assert(valid_utf8(e.name));
    assert(d.subrange(ds, ds + filesize) =~= r.subrange(ds, ds + e.data.len() as int));
    assert(d.skip(rec_end) =~= rest);
    assert(e.mode as int as u32 == e.mode);
    assert(CpioEntryModel {
        name: d.subrange(110, 110 + namesize - 1),
        mode: e.mode,
        data: d.subrange(ds, ds + filesize),
    } == e);
    match parse_records(rest) {
        Some(s) => {
            assert(parse_records(d) == Some(seq![e] + s));
        }
        None => {
            assert(parse_records(d) is None);
        }
    }
}

/// The trailer record parses as the empty entry list.
proof fn lemma_parse_trailer()
    ensures
        parse_records(trailer_record()) == Some(Seq::<CpioEntryModel>::empty()),
{
    let e = CpioEntryModel { name: trailer_name(), mode: 0, data: Seq::empty() };
    let d = trailer_record();
    lemma_record_view(e, 0);
    lemma_record_len(e, 0);
    lemma_hex8_round_trip(0);
    lemma_hex8_round_trip(e.name.len() as int + 1);
    assert(d.len() >= 110);
    assert(d.subrange(0, 6) == newc_magic());
    let namesize = e.name.len() + 1;
    assert(parse_hex8(d.subrange(94, 102)) == Some(namesize as int));
    assert(110 + namesize <= d.len());
    assert(d[110 + namesize - 1] == 0);
    assert(d.subrange(110, 110 + namesize - 1) =~= e.name);
    assert(parse_records(d) == Some(Seq::<CpioEntryModel>::empty()));
}

/// Parsing inverts emission: the archive of a well-formed entry list
/// parses back to exactly that list, whatever the starting inode.
pub proof fn lemma_parse_records_of(entries: Seq<CpioEntryModel>, ino: u32)
    requires
        forall|i: int| 0 <= i < entries.len() ==> wf_entry(#[trigger] entries[i]),
        entries.len() + ino <= 0xFFFF_FFFF,
    ensures
        parse_records(records_of(entries, ino) + trailer_record()) == Some(entries),
    decreases entries.len(),
{
    if entries.len() == 0 {
        assert(records_of(entries, ino) == Seq::<u8>::empty());
        assert(records_of(entries, ino) + trailer_record() =~= trailer_record());
        lemma_parse_trailer();
        assert(Seq::<CpioEntryModel>::empty() =~= entries);
    } else {
        let e = entries[0];
        let tail = entries.drop_first();
        assert(forall|i: int| 0 <= i < tail.len() ==> wf_entry(#[trigger] tail[i])) by {
            assert(forall|i: int| 0 <= i < tail.len() ==> tail[i] == entries[i + 1]);
        }
        lemma_parse_records_of(tail, (ino + 1) as u32);
        lemma_parse_record_prefix(e, ino, records_of(tail, (ino + 1) as u32)
            + trailer_record());
        assert(records_of(entries, ino) + trailer_record() =~= record_of(e, ino)
            + (records_of(tail, (ino + 1) as u32) + trailer_record()));
        assert(seq![e] + tail =~= entries);
    }
}

/// The emitted archive of a well-formed entry list parses back to the
/// same list.
pub proof fn lemma_cpio_round_trip(entries: Seq<CpioEntryModel>)
    requires
        wf_entries(entries),
    ensures
        parse_records(archive_of(entries)) == Some(entries),
{
    lemma_parse_records_of(entries, 0);
}

/// Relies on `std::str::from_utf8` (then `to_owned`): succeeds exactly
/// on valid UTF-8 and returns a string with those bytes.
#[verifier::external_body]
pub(crate) fn bytes_to_string(v: &[u8]) -> (r: Option<String>)
    ensures
        r is Some <==> valid_utf8(v@),
        r matches Some(s) ==> encode_utf8(s@) == v@,
{
    match std::str::from_utf8(v) {
        Ok(s) => Some(s.to_owned()),
        Err(_) => None,
    }
}

/// Read one 8-digit hex field at `off`.
fn read_hex8(data: &[u8], off: usize) -> (r: Option<u32>)
    requires
        off + 8 <= data@.len(),
    ensures
        r is Some <==> parse_hex8(data@.subrange(off as int, off as int + 8)) is Some,
        r matches Some(v) ==> parse_hex8(data@.subrange(off as int, off as int + 8))
            == Some(v as int),
{
    let ghost s = data@.subrange(off as int, off as int + 8);
    let n = data.len();
    let mut acc: u32 = 0;
    let mut k: usize = 0;
    while k < 8
        invariant
            k <= 8,
            off + 8 <= n,
            n == data@.len(),
            s == data@.subrange(off as int, off as int + 8),
            forall|i: int| 0 <= i < k ==> is_hex_byte(#[trigger] s[i]),
            acc as int == hex_val_rec(s, k as int),
        decreases 8 - k,
    {
        proof {
            lemma_hex_val_rec_bounds(s, k as int);
        }
        let b = data[off + k];
        proof {
            assert(s[k as int] == data@[off + k]);
        }
        let d: u32;
        if 48 <= b && b <= 57 {
            d = (b - 48) as u32;
        } else if 97 <= b && b <= 102 {
            d = (b - 87) as u32;
        } else if 65 <= b && b <= 70 {
            d = (b - 55) as u32;
        } else {
            return None;
        }
        assert(d as int == hex_byte_val(s[k as int]));
        acc = acc * 16 + d;
        k += 1;
    }
    Some(acc)
}

/// Parse a newc archive into its ordered entry list.
///
/// Succeeds exactly when the byte-level parser model does, stopping
/// at the `TRAILER!!!` sentinel; on a malformed record the error
/// carries the offset reached.
#[verifier::rlimit(100)]
pub fn cpio_parse_entries(data: &[u8]) -> (r: Result<Vec<CpioEntry>, FlashError>)
    ensures
        r is Ok <==> parse_records(data@) is Some,
        r matches Ok(v) ==> Some(entry_models(v@)) == parse_records(data@),
        r matches Err(e) ==> e is CpioParseError,
{
    let mut entries: Vec<CpioEntry> = Vec::new();
    let mut i: usize = 0;
    proof {
        assert(data@.skip(0) =~= data@);
        assert(entry_models(entries@) =~= Seq::<CpioEntryModel>::empty());
        match parse_records(data@) {
            Some(s0) => {
                assert(Seq::<CpioEntryModel>::empty() + s0 =~= s0);
            }
            None => {}
        }
    }
    loop
        invariant
            i <= data@.len(),
            parse_records(data@) == opt_prepend(entry_models(entries@), parse_records(
                data@.skip(i as int))),
        decreases data@.len() - i,
    {
        let ghost tail = data@.skip(i as int);
        let ghost pre_models = entry_models(entries@);
        if data.len() - i < 110 {
            return Err(FlashError::CpioParseError(i, "truncated record header".to_owned()));
        }
        proof {
            assert(tail.subrange(0, 6) =~= data@.subrange(i as int, i as int + 6));
        }
        if !(data[i] == 48 && data[i + 1] == 55 && data[i + 2] == 48 && data[i + 3] == 55
            && data[i + 4] == 48 && data[i + 5] == 49) {
            proof {
                assert(tail.subrange(0, 6) != newc_magic());
            }
            return Err(FlashError::CpioParseError(i, "record magic mismatch".to_owned()));
        }
        proof {
            assert(tail.subrange(0, 6) =~= newc_magic());
            assert(tail.subrange(6, 14) =~= data@.subrange(i as int + 6, i as int + 14));
            assert(tail.subrange(14, 22) =~= data@.subrange(i as int + 14, i as int + 22));
            assert(tail.subrange(22, 30) =~= data@.subrange(i as int + 22, i as int + 30));
            assert(tail.subrange(30, 38) =~= data@.subrange(i as int + 30, i as int + 38));
            assert(tail.subrange(38, 46) =~= data@.subrange(i as int + 38, i as int + 46));
            assert(tail.subrange(46, 54) =~= data@.subrange(i as int + 46, i as int + 54));
            assert(tail.subrange(54, 62) =~= data@.subrange(i as int + 54, i as int + 62));
            assert(tail.subrange(62, 70) =~= data@.subrange(i as int + 62, i as int + 70));
            assert(tail.subrange(70, 78) =~= data@.subrange(i as int + 70, i as int + 78));
            assert(tail.subrange(78, 86) =~= data@.subrange(i as int + 78, i as int + 86));
            assert(tail.subrange(86, 94) =~= data@.subrange(i as int + 86, i as int + 94));
            assert(tail.subrange(94, 102) =~= data@.subrange(i as int + 94, i as int + 102));
            assert(tail.subrange(102, 110) =~= data@.subrange(i as int + 102, i as int
                + 110));
        }
        let f_ino = read_hex8(data, i + 6);
        let f_mode = read_hex8(data, i + 14);
        let f_uid = read_hex8(data, i + 22);
        let f_gid = read_hex8(data, i + 30);
        let f_nlink = read_hex8(data, i + 38);
        let f_mtime = read_hex8(data, i + 46);
        let f_filesize = read_hex8(data, i + 54);
        let f_devmajor = read_hex8(data, i + 62);
        let f_devminor = read_hex8(data, i + 70);
        let f_rdevmajor = read_hex8(data, i + 78);
        let f_rdevminor = read_hex8(data, i + 86);
        let f_namesize = read_hex8(data, i + 94);
        let f_check = read_hex8(data, i + 102);
        if f_ino.is_none() || f_mode.is_none() || f_uid.is_none() || f_gid.is_none()
            || f_nlink.is_none() || f_mtime.is_none() || f_filesize.is_none()
            || f_devmajor.is_none() || f_devminor.is_none() || f_rdevmajor.is_none()
            || f_rdevminor.is_none() || f_namesize.is_none() || f_check.is_none() {
            return Err(FlashError::CpioParseError(i, "header field is not hex".to_owned()));
        }
        let mode_v: u32 = f_mode.unwrap();
        let namesize: u32 = f_namesize.unwrap();
        let filesize: u32 = f_filesize.unwrap();
        if namesize < 1 {
            return Err(FlashError::CpioParseError(i, "empty name field".to_owned()));
        }
        if 110u64 + namesize as u64 > (data.len() - i) as u64 {
            return Err(FlashError::CpioParseError(i, "name overruns the buffer".to_owned()));
        }
        let name_end: usize = i + 110 + namesize as usize;
        if data[name_end - 1] != 0 {
            proof {
                assert(tail[110 + namesize as int - 1] == data@[name_end - 1]);
            }
            return Err(FlashError::CpioParseError(i, "name is not NUL-terminated".to_owned()));
        }
        proof {
            assert(tail[110 + namesize as int - 1] == data@[name_end - 1]);
        }
        let name_slice = vstd::slice::slice_subrange(data, i + 110, name_end - 1);
        let ghost name_bytes = tail.subrange(110, 110 + namesize as int - 1);
        proof {
            assert(name_slice@ =~= name_bytes);
        }
        // Sentinel: stop, ignoring anything after it.
        let is_trailer = name_slice.len() == 10 && name_slice[0] == 84 && name_slice[1] == 82
            && name_slice[2] == 65 && name_slice[3] == 73 && name_slice[4] == 76
            && name_slice[5] == 69 && name_slice[6] == 82 && name_slice[7] == 33
            && name_slice[8] == 33 && name_slice[9] == 33;
        if is_trailer {
            proof {
                assert(name_bytes =~= trailer_name());
                assert(parse_records(tail) == Some(Seq::<CpioEntryModel>::empty()));
                assert(pre_models + Seq::<CpioEntryModel>::empty() =~= pre_models);
            }
            return Ok(entries);
        }
        proof {
            if name_bytes.len() == 10 {
                assert(name_bytes != trailer_name() || (name_bytes[0] == 84
                    && name_bytes[1] == 82 && name_bytes[2] == 65 && name_bytes[3] == 73
                    && name_bytes[4] == 76 && name_bytes[5] == 69 && name_bytes[6] == 82
                    && name_bytes[7] == 33 && name_bytes[8] == 33 && name_bytes[9] == 33));
            }
            assert(name_bytes != trailer_name());
        }
        // Bounds of the data block, computed without overflow.
        let rel_data_start: u64 = ((110u64 + namesize as u64 + 3) / 4) * 4;
        let rel_rec_end: u64 = rel_data_start + ((filesize as u64 + 3) / 4) * 4;
        proof {
            assert(rel_data_start as int == align4(110 + namesize as int));
            assert(rel_rec_end as int == align4(110 + namesize as int) + align4(
                filesize as int));
            lemma_align4(110 + namesize as int);
            lemma_align4(filesize as int);
        }
        if rel_rec_end > (data.len() - i) as u64 {
            return Err(FlashError::CpioParseError(i, "data overruns the buffer".to_owned()));
        }
        let data_start: usize = i + rel_data_start as usize;
        let data_end: usize = data_start + filesize as usize;
        let data_slice = vstd::slice::slice_subrange(data, data_start, data_end);
        proof {
            assert(data_slice@ =~= tail.subrange(align4(110 + namesize as int), align4(110
                + namesize as int) + filesize as int));
        }
        let name_string = match bytes_to_string(name_slice) {
            Some(s) => s,
            None => {
                return Err(FlashError::CpioParseError(i, "name is not UTF-8".to_owned()));
            }
        };
        let entry = CpioEntry {
            name: name_string,
            mode: mode_v,
            data: vstd::slice::slice_to_vec(data_slice),
        };
        let ghost model = CpioEntryModel {
            name: name_bytes,
            mode: mode_v,
            data: data_slice@,
        };
        proof {
            assert(entry@ == model);
        }
        let next: usize = i + rel_rec_end as usize;
        proof {
            assert(tail.skip(rel_rec_end as int) =~= data@.skip(next as int));
            assert(parse_records(tail) == opt_prepend(seq![model], parse_records(
                data@.skip(next as int))));
        }
        entries.push(entry);
        proof {
            assert(entry_models(entries@) =~= pre_models + seq![model]);
            match parse_records(data@.skip(next as int)) {
                Some(rest) => {
                    assert(pre_models + (seq![model] + rest) =~= (pre_models + seq![model])
                        + rest);
                }
                None => {}
            }
        }
        i = next;
    }
}

// ---------------------------------------------------------------------------
// First-match extraction and vendor-header skipping.

/// What first-match extraction of `target` from `d` yields: the mode
/// and data of the first record named `target`, walking records until
/// the sentinel, a malformed record, or the end of the buffer.
pub open spec fn extract_spec(d: Seq<u8>, target: Seq<u8>) -> Option<(u32, Seq<u8>)>
    decreases d.len(),
    when true
    via extract_spec_dec
{
    if d.len() < 110 {
        None
    } else if d.subrange(0, 6) != newc_magic() {
        None
    } else {
        let ino_o = parse_hex8(d.subrange(6, 14));
        let mode_o = parse_hex8(d.subrange(14, 22));
        let uid_o = parse_hex8(d.subrange(22, 30));
        let gid_o = parse_hex8(d.subrange(30, 38));
        let nlink_o = parse_hex8(d.subrange(38, 46));
        let mtime_o = parse_hex8(d.subrange(46, 54));
        let filesize_o = parse_hex8(d.subrange(54, 62));
        let devmajor_o = parse_hex8(d.subrange(62, 70));
        let devminor_o = parse_hex8(d.subrange(70, 78));
        let rdevmajor_o = parse_hex8(d.subrange(78, 86));
        let rdevminor_o = parse_hex8(d.subrange(86, 94));
        let namesize_o = parse_hex8(d.subrange(94, 102));
        let check_o = parse_hex8(d.subrange(102, 110));
        if ino_o is None || mode_o is None || uid_o is None || gid_o is None
            || nlink_o is None || mtime_o is None || filesize_o is None
            || devmajor_o is None || devminor_o is None || rdevmajor_o is None
            || rdevminor_o is None || namesize_o is None || check_o is None {
            None
        } else {
            let namesize = namesize_o.unwrap();
            let filesize = filesize_o.unwrap();
            if namesize < 1 || 110 + namesize > d.len() {
                None
            } else if d[110 + namesize - 1] != 0 {
                None
            } else {
                let name = d.subrange(110, 110 + namesize - 1);
                if name == trailer_name() {
                    None
                } else {
                    let data_start = align4(110 + namesize);
                    let rec_end = data_start + align4(filesize);
                    if rec_end > d.len() {
                        None
                    } else if name == target {
                        Some((mode_o.unwrap() as u32, d.subrange(data_start, data_start
                            + filesize)))
                    } else {
                        extract_spec(d.skip(rec_end), target)
                    }
                }
            }
        }
    }
}

#[via_fn]
proof fn extract_spec_dec(d: Seq<u8>, target: Seq<u8>) {
    if d.len() >= 110 {
        let namesize_o = parse_hex8(d.subrange(94, 102));
        let filesize_o = parse_hex8(d.subrange(54, 62));
        if namesize_o is Some && filesize_o is Some {
            let namesize = namesize_o.unwrap();
            let filesize = filesize_o.unwrap();
            lemma_parse_hex8_bounds(d.subrange(94, 102));
            lemma_parse_hex8_bounds(d.subrange(54, 62));
            if namesize >= 1 {
                lemma_align4(110 + namesize);
                lemma_align4(filesize);
            }
        }
    }
}

/// First-match lookup of `target` in a newc archive, without
/// materializing the whole entry list: yields the matching record's
/// mode and data bytes.
#[verifier::rlimit(100)]
pub fn cpio_extract_file_newc(data: &[u8], target: &str) -> (r: Option<(usize, Vec<u8>)>)
    ensures
        r is Some <==> extract_spec(data@, encode_utf8(target@)) is Some,
        r matches Some(p) ==> extract_spec(data@, encode_utf8(target@)) == Some((
            p.0 as u32,
            p.1@,
        )) && p.0 <= 0xFFFF_FFFF,
{
    let target_bytes = target.as_bytes();
    let ghost tb = encode_utf8(target@);
    let mut i: usize = 0;
    proof {
        assert(data@.skip(0) =~= data@);
    }
    loop
        invariant
            i <= data@.len(),
            tb == target_bytes@,
            tb == encode_utf8(target@),
            extract_spec(data@, tb) == extract_spec(data@.skip(i as int), tb),
        decreases data@.len() - i,
    {
        let ghost tail = data@.skip(i as int);
        if data.len() - i < 110 {
            proof {
                assert(tail.len() < 110);
                assert(extract_spec(tail, tb) is None);
            }
            return None;
        }
        proof {
            assert(tail.subrange(0, 6) =~= data@.subrange(i as int, i as int + 6));
        }
        if !(data[i] == 48 && data[i + 1] == 55 && data[i + 2] == 48 && data[i + 3] == 55
            && data[i + 4] == 48 && data[i + 5] == 49) {
            proof {
                assert(tail.subrange(0, 6) != newc_magic());
                assert(extract_spec(tail, tb) is None);
            }
            return None;
        }
        proof {
            assert(tail.subrange(0, 6) =~= newc_magic());
            assert(tail.subrange(6, 14) =~= data@.subrange(i as int + 6, i as int + 14));
            assert(tail.subrange(14, 22) =~= data@.subrange(i as int + 14, i as int + 22));
            assert(tail.subrange(22, 30) =~= data@.subrange(i as int + 22, i as int + 30));
            assert(tail.subrange(30, 38) =~= data@.subrange(i as int + 30, i as int + 38));
            assert(tail.subrange(38, 46) =~= data@.subrange(i as int + 38, i as int + 46));
            assert(tail.subrange(46, 54) =~= data@.subrange(i as int + 46, i as int + 54));
            assert(tail.subrange(54, 62) =~= data@.subrange(i as int + 54, i as int + 62));
            assert(tail.subrange(62, 70) =~= data@.subrange(i as int + 62, i as int + 70));
            assert(tail.subrange(70, 78) =~= data@.subrange(i as int + 70, i as int + 78));
            assert(tail.subrange(78, 86) =~= data@.subrange(i as int + 78, i as int + 86));
            assert(tail.subrange(86, 94) =~= data@.subrange(i as int + 86, i as int + 94));
            assert(tail.subrange(94, 102) =~= data@.subrange(i as int + 94, i as int + 102));
            assert(tail.subrange(102, 110) =~= data@.subrange(i as int + 102, i as int
                + 110));
        }
        let f_ino = read_hex8(data, i + 6);
        let f_mode = read_hex8(data, i + 14);
        let f_uid = read_hex8(data, i + 22);
        let f_gid = read_hex8(data, i + 30);
        let f_nlink = read_hex8(data, i + 38);
        let f_mtime = read_hex8(data, i + 46);
        let f_filesize = read_hex8(data, i + 54);
        let f_devmajor = read_hex8(data, i + 62);
        let f_devminor = read_hex8(data, i + 70);
        let f_rdevmajor = read_hex8(data, i + 78);
        let f_rdevminor = read_hex8(data, i + 86);
        let f_namesize = read_hex8(data, i + 94);
        let f_check = read_hex8(data, i + 102);
        if f_ino.is_none() || f_mode.is_none() || f_uid.is_none() || f_gid.is_none()
            || f_nlink.is_none() || f_mtime.is_none() || f_filesize.is_none()
            || f_devmajor.is_none() || f_devminor.is_none() || f_rdevmajor.is_none()
            || f_rdevminor.is_none() || f_namesize.is_none() || f_check.is_none() {
            proof {
                assert(extract_spec(tail, tb) is None);
            }
            return None;
        }
        let mode_v: u32 = f_mode.unwrap();
        let namesize: u32 = f_namesize.unwrap();
        let filesize: u32 = f_filesize.unwrap();
        if namesize < 1 {
            return None;
        }
        if 110u64 + namesize as u64 > (data.len() - i) as u64 {
            return None;
        }
        let name_end: usize = i + 110 + namesize as usize;
        proof {
            assert(tail[110 + namesize as int - 1] == data@[name_end - 1]);
        }
        if data[name_end - 1] != 0 {
            return None;
        }
        let name_slice = vstd::slice::slice_subrange(data, i + 110, name_end - 1);
        let ghost name_bytes = tail.subrange(110, 110 + namesize as int - 1);
        proof {
            assert(name_slice@ =~= name_bytes);
        }
        let is_trailer = name_slice.len() == 10 && name_slice[0] == 84 && name_slice[1] == 82
            && name_slice[2] == 65 && name_slice[3] == 73 && name_slice[4] == 76
            && name_slice[5] == 69 && name_slice[6] == 82 && name_slice[7] == 33
            && name_slice[8] == 33 && name_slice[9] == 33;
        proof {
            if is_trailer {
                assert(name_bytes =~= trailer_name());
            } else if name_bytes.len() == 10 {
                assert(name_bytes != trailer_name() || (name_bytes[0] == 84
                    && name_bytes[1] == 82 && name_bytes[2] == 65 && name_bytes[3] == 73
                    && name_bytes[4] == 76 && name_bytes[5] == 69 && name_bytes[6] == 82
                    && name_bytes[7] == 33 && name_bytes[8] == 33 && name_bytes[9] == 33));
            }
        }
        if is_trailer {
            return None;
        }
        let rel_data_start: u64 = ((110u64 + namesize as u64 + 3) / 4) * 4;
        let rel_rec_end: u64 = rel_data_start + ((filesize as u64 + 3) / 4) * 4;
        proof {
            assert(rel_data_start as int == align4(110 + namesize as int));
            assert(rel_rec_end as int == align4(110 + namesize as int) + align4(
                filesize as int));
            lemma_align4(110 + namesize as int);
            lemma_align4(filesize as int);
        }
        if rel_rec_end > (data.len() - i) as u64 {
            return None;
        }
        let matches_target = slices_equal(name_slice, target_bytes);
        if matches_target {
            let data_start: usize = i + rel_data_start as usize;
            let data_end: usize = data_start + filesize as usize;
            let data_slice = vstd::slice::slice_subrange(data, data_start, data_end);
            proof {
                assert(data_slice@ =~= tail.subrange(align4(110 + namesize as int), align4(
                    110 + namesize as int) + filesize as int));
            }
            return Some((mode_v as usize, vstd::slice::slice_to_vec(data_slice)));
        }
        let next: usize = i + rel_rec_end as usize;
        proof {
            assert(tail.skip(rel_rec_end as int) =~= data@.skip(next as int));
        }
        i = next;
    }
}

/// Byte-wise equality of two slices.
fn slices_equal(a: &[u8], b: &[u8]) -> (r: bool)
    ensures
        r == (a@ =~= b@),
{
    if a.len() != b.len() {
        return false;
    }
    let mut i: usize = 0;
    while i < a.len()
        invariant
            i <= a@.len(),
            a@.len() == b@.len(),
            forall|j: int| 0 <= j < i ==> a@[j] == b@[j],
        decreases a@.len() - i,
    {
        if a[i] != b[i] {
            return false;
        }
        i += 1;
    }
    true
}

/// The data bytes of the first record named `target`, if any.
pub fn cpio_extract_file(data: &[u8], target: &str) -> (r: Option<Vec<u8>>)
    ensures
        r is Some <==> extract_spec(data@, encode_utf8(target@)) is Some,
        r matches Some(v) ==> extract_spec(data@, encode_utf8(target@)) matches Some(p)
            && p.1 == v@,
{
    match cpio_extract_file_newc(data, target) {
        Some((_, v)) => Some(v),
        None => None,
    }
}

/// The first offset where one of the accepted CPIO magics starts, in
/// search order: `070701` anywhere, else `070707` or `070702`
/// anywhere, else zero; buffers shorter than ten bytes are left alone.
pub open spec fn first_magic_at(d: Seq<u8>, m: Seq<u8>, i: int) -> Option<int>
    decreases d.len() - i,
    when 0 <= i
{
    if i + 6 > d.len() {
        None
    } else if d.subrange(i, i + 6) == m {
        Some(i)
    } else {
        first_magic_at(d, m, i + 1)
    }
}

/// The ASCII bytes of `070707`.
pub open spec fn odc_magic() -> Seq<u8> {
    seq![48u8, 55u8, 48u8, 55u8, 48u8, 55u8]
}

/// The ASCII bytes of `070702`.
pub open spec fn crc_magic() -> Seq<u8> {
    seq![48u8, 55u8, 48u8, 55u8, 48u8, 50u8]
}

/// The first offset at or after `i` carrying either legacy magic,
/// `070707` or `070702`, in one pass.
pub open spec fn first_legacy_at(d: Seq<u8>, i: int) -> Option<int>
    decreases d.len() - i,
    when 0 <= i
{
    if i + 6 > d.len() {
        None
    } else if d.subrange(i, i + 6) == odc_magic() || d.subrange(i, i + 6) == crc_magic() {
        Some(i)
    } else {
        first_legacy_at(d, i + 1)
    }
}

/// Where the CPIO archive starts inside `d`.
pub open spec fn cpio_start_spec(d: Seq<u8>) -> int {
    if d.len() < 10 {
        0
    } else {
        match first_magic_at(d, newc_magic(), 0) {
            Some(i) => i,
            None => match first_legacy_at(d, 0) {
                Some(i) => i,
                None => 0,
            },
        }
    }
}

/// Scan for the first occurrence of `magic` (six bytes) in `data`.
fn find_magic(data: &[u8], m0: u8, m1: u8, m2: u8, m3: u8, m4: u8, m5: u8) -> (r: Option<
    usize,
>)
    ensures
        ({
            let m = seq![m0, m1, m2, m3, m4, m5];
            &&& r matches Some(i) ==> first_magic_at(data@, m, 0) == Some(i as int)
            &&& r is None ==> first_magic_at(data@, m, 0) is None
        }),
{
    let ghost m = seq![m0, m1, m2, m3, m4, m5];
    let n = data.len();
    if n < 6 {
        proof {
            assert(first_magic_at(data@, m, 0) is None);
        }
        return None;
    }
    let mut i: usize = 0;
    while i <= n - 6
        invariant
            n == data@.len(),
            n >= 6,
            i <= n,
            m == seq![m0, m1, m2, m3, m4, m5],
            first_magic_at(data@, m, 0) == first_magic_at(data@, m, i as int),
        decreases n - i,
    {
        if data[i] == m0 && data[i + 1] == m1 && data[i + 2] == m2 && data[i + 3] == m3
            && data[i + 4] == m4 && data[i + 5] == m5 {
            proof {
                assert(data@.subrange(i as int, i as int + 6) =~= m);
            }
            return Some(i);
        }
        proof {
            assert(data@.subrange(i as int, i as int + 6) != m) by {
                if data@.subrange(i as int, i as int + 6) == m {
                    assert(data@[i as int] == m0 && data@[i as int + 1] == m1
                        && data@[i as int + 2] == m2 && data@[i as int + 3] == m3
                        && data@[i as int + 4] == m4 && data@[i as int + 5] == m5);
                }
            }
        }
        i += 1;
    }
    proof {
        assert(first_magic_at(data@, m, i as int) is None);
    }
    None
}

/// Scan for the first offset carrying either legacy magic.
fn find_legacy_magic(data: &[u8]) -> (r: Option<usize>)
    ensures
        r matches Some(i) ==> first_legacy_at(data@, 0) == Some(i as int) && i as int + 6
            <= data@.len(),
        r is None ==> first_legacy_at(data@, 0) is None,
{
    let n = data.len();
    if n < 6 {
        proof {
            assert(first_legacy_at(data@, 0) is None);
        }
        return None;
    }
    let mut i: usize = 0;
    while i <= n - 6
        invariant
            n == data@.len(),
            n >= 6,
            i <= n,
            first_legacy_at(data@, 0) == first_legacy_at(data@, i as int),
        decreases n - i,
    {
        let head = data[i] == 48 && data[i + 1] == 55 && data[i + 2] == 48 && data[i + 3]
            == 55 && data[i + 4] == 48;
        let hit = head && (data[i + 5] == 55 || data[i + 5] == 50);
        proof {
            if hit {
                if data@[i as int + 5] == 55 {
                    assert(data@.subrange(i as int, i as int + 6) =~= odc_magic());
                } else {
                    assert(data@.subrange(i as int, i as int + 6) =~= crc_magic());
                }
            } else {
                assert(data@.subrange(i as int, i as int + 6) != odc_magic()) by {
                    if data@.subrange(i as int, i as int + 6) == odc_magic() {
                        assert(data@[i as int] == 48 && data@[i as int + 1] == 55
                            && data@[i as int + 2] == 48 && data@[i as int + 3] == 55
                            && data@[i as int + 4] == 48 && data@[i as int + 5] == 55);
                    }
                }
                assert(data@.subrange(i as int, i as int + 6) != crc_magic()) by {
                    if data@.subrange(i as int, i as int + 6) == crc_magic() {
                        assert(data@[i as int] == 48 && data@[i as int + 1] == 55
                            && data@[i as int + 2] == 48 && data@[i as int + 3] == 55
                            && data@[i as int + 4] == 48 && data@[i as int + 5] == 50);
                    }
                }
            }
        }
        if hit {
            return Some(i);
        }
        i += 1;
    }
    proof {
        assert(first_legacy_at(data@, i as int) is None);
    }
    None
}

/// Offset of the CPIO magic inside a decompressed ramdisk, skipping
/// any vendor-specific header that precedes it: the first `070701`
/// anywhere, else the first offset carrying `070707` or `070702`,
/// else zero; buffers shorter than ten bytes are left alone.
pub fn detect_and_skip_cpio_header(data: &[u8]) -> (r: usize)
    ensures
        r as int == cpio_start_spec(data@),
        r <= data@.len(),
{
    if data.len() < 10 {
        return 0;
    }
    if let Some(i) = find_magic(data, 48, 55, 48, 55, 48, 49) {
        proof {
            lemma_first_magic_at_bound(data@, newc_magic(), 0);
        }
        return i;
    }
    if let Some(i) = find_legacy_magic(data) {
        return i;
    }
    0
}

/// A found magic offset lies inside the buffer.
proof fn lemma_first_magic_at_bound(d: Seq<u8>, m: Seq<u8>, i: int)
    requires
        0 <= i,
    ensures
        first_magic_at(d, m, i) matches Some(j) ==> i <= j && j + 6 <= d.len(),
    decreases d.len() - i,
{
    if i + 6 <= d.len() && d.subrange(i, i + 6) != m {
        lemma_first_magic_at_bound(d, m, i + 1);
    }
}

} // verus!
