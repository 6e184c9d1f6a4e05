//! Ramdisk compression codecs: magic-sniff detection and verified
//! dispatch around the gzip / xz / zstd / lz4 libraries.
//!
//! The compressed streams themselves are produced by outside crates;
//! their outputs are named by uninterpreted spec functions, and the
//! dispatch logic here is proved to re-detect and invert every stream
//! it produces.

use vstd::prelude::*;
use crate::error::FlashError;

verus! {

/// Compression applied to the CPIO archive inside a boot image,
/// chosen by a magic sniff of the leading bytes.
#[derive(Clone, Copy, Debug, PartialEq, Eq, Structural)]
pub enum RamdiskFormat {
    Gzip,
    Xz,
    Zstd,
    Lz4,
    Lz4Legacy,
    Uncompressed,
}

/// Largest ramdisk the legacy-LZ4 block decoder will reproduce
/// (the decode buffer the block decoder allocates).
pub const LZ4_LEGACY_MAX: usize = 134217728;

/// Which format the leading bytes of `d` announce.
pub open spec fn detect_spec(d: Seq<u8>) -> RamdiskFormat {
    if d.len() < 4 {
        RamdiskFormat::Uncompressed
    } else if d[0] == 0x1f && d[1] == 0x8b {
        RamdiskFormat::Gzip
    } else if d[0] == 0xfd && d[1] == 0x37 && d[2] == 0x7a && d[3] == 0x58 && d.len() > 5
        && d[4] == 0x5a && d[5] == 0x00 {
        RamdiskFormat::Xz
    } else if d[0] == 0x28 && d[1] == 0xb5 && d[2] == 0x2f && d[3] == 0xfd {
        RamdiskFormat::Zstd
    } else if d[0] == 0x04 && d[1] == 0x22 && d[2] == 0x4d && d[3] == 0x18 {
        RamdiskFormat::Lz4
    } else if d[0] == 0x02 && d[1] == 0x21 && d[2] == 0x4c && d[3] == 0x18 {
        RamdiskFormat::Lz4Legacy
    } else {
        RamdiskFormat::Uncompressed
    }
}

/// Detect the ramdisk codec by its magic bytes.
pub fn detect_ramdisk_format(data: &[u8]) -> (r: RamdiskFormat)
    ensures
        r == detect_spec(data@),
{
    if data.len() < 4 {
        return RamdiskFormat::Uncompressed;
    }
    if data[0] == 0x1f && data[1] == 0x8b {
        RamdiskFormat::Gzip
    } else if data[0] == 0xfd && data[1] == 0x37 && data[2] == 0x7a && data[3] == 0x58
        && data.len() > 5 && data[4] == 0x5a && data[5] == 0x00 {
        RamdiskFormat::Xz
    } else if data[0] == 0x28 && data[1] == 0xb5 && data[2] == 0x2f && data[3] == 0xfd {
        RamdiskFormat::Zstd
    } else if data[0] == 0x04 && data[1] == 0x22 && data[2] == 0x4d && data[3] == 0x18 {
        RamdiskFormat::Lz4
    } else if data[0] == 0x02 && data[1] == 0x21 && data[2] == 0x4c && data[3] == 0x18 {
        RamdiskFormat::Lz4Legacy
    } else {
        RamdiskFormat::Uncompressed
    }
}

// ---------------------------------------------------------------------------
// Little-endian 32-bit length field of the legacy LZ4 framing.

/// The four little-endian bytes of `n`.
pub open spec fn le32_spec(n: int) -> Seq<u8> {
    seq![
        (n % 256) as u8,
        ((n / 256) % 256) as u8,
        ((n / 65536) % 256) as u8,
        ((n / 16777216) % 256) as u8,
    ]
}

/// The value announced by four little-endian bytes.
pub open spec fn le32_val(s: Seq<u8>) -> int {
    s[0] + 256 * s[1] + 65536 * s[2] + 16777216 * s[3]
}

pub proof fn lemma_le32_round_trip(n: int)
    requires
        0 <= n < 0x1_0000_0000,
    ensures
        le32_val(le32_spec(n)) == n,
{
    assert(n % 256 + 256 * ((n / 256) % 256) + 65536 * ((n / 65536) % 256) + 16777216 * ((n
        / 16777216) % 256) == n) by (nonlinear_arith)
        requires 0 <= n < 0x1_0000_0000;
}

/// The length field sees only the low 32 bits of the value, exactly
/// as a truncating cast would.
pub proof fn lemma_le32_wrap(n: int)
    requires
        n >= 0,
    ensures
        le32_spec(n % 0x1_0000_0000) == le32_spec(n),
{
    let m = 0x1_0000_0000int;
    vstd::arithmetic::div_mod::lemma_mod_mod(n, 256, 0x1000000);
    assert((n % m) % 256 == n % 256);
    vstd::arithmetic::div_mod::lemma_mod_breakdown(n, 256, 0x1000000);
    assert(n % m == 256 * ((n / 256) % 0x1000000) + n % 256);
    vstd::arithmetic::div_mod::lemma_fundamental_div_mod_converse(n % m, 256, (n / 256)
        % 0x1000000, n % 256);
    assert((n % m) / 256 == (n / 256) % 0x1000000);
    vstd::arithmetic::div_mod::lemma_mod_mod(n / 256, 256, 65536);
    assert(((n / 256) % 0x1000000) % 256 == (n / 256) % 256);
    vstd::arithmetic::div_mod::lemma_mod_breakdown(n, 65536, 65536);
    assert(n % m == 65536 * ((n / 65536) % 65536) + n % 65536);
    vstd::arithmetic::div_mod::lemma_fundamental_div_mod_converse(n % m, 65536, (n / 65536)
        % 65536, n % 65536);
    assert((n % m) / 65536 == (n / 65536) % 65536);
    vstd::arithmetic::div_mod::lemma_mod_mod(n / 65536, 256, 256);
    assert(((n / 65536) % 65536) % 256 == (n / 65536) % 256);
    vstd::arithmetic::div_mod::lemma_mod_breakdown(n, 0x1000000, 256);
    assert(n % m == 0x1000000 * ((n / 0x1000000) % 256) + n % 0x1000000);
    vstd::arithmetic::div_mod::lemma_fundamental_div_mod_converse(n % m, 0x1000000, (n
        / 0x1000000) % 256, n % 0x1000000);
    assert((n % m) / 0x1000000 == (n / 0x1000000) % 256);
    vstd::arithmetic::div_mod::lemma_small_mod(((n / 0x1000000) % 256) as nat, 256);
    assert(((n % m) / 0x1000000) % 256 == (n / 0x1000000) % 256);
    assert(le32_spec(n % m) =~= le32_spec(n));
}

/// Emit the four little-endian bytes of `v`.
fn le32_bytes(v: u32) -> (r: [u8; 4])
    ensures
        r@ == le32_spec(v as int),
{
    [(v % 256) as u8, ((v / 256) % 256) as u8, ((v / 65536) % 256) as u8, ((v / 16777216)
        % 256) as u8]
}

// ---------------------------------------------------------------------------
// Named results of the outside compression crates.

pub uninterp spec fn gzip_of(d: Seq<u8>) -> Seq<u8>;

pub uninterp spec fn gunzip_of(d: Seq<u8>) -> Option<Seq<u8>>;

pub uninterp spec fn xz_of(d: Seq<u8>) -> Seq<u8>;

pub uninterp spec fn unxz_of(d: Seq<u8>) -> Option<Seq<u8>>;

pub uninterp spec fn zstd_of(d: Seq<u8>) -> Seq<u8>;

pub uninterp spec fn unzstd_of(d: Seq<u8>) -> Option<Seq<u8>>;

pub uninterp spec fn lz4f_of(d: Seq<u8>) -> Seq<u8>;

pub uninterp spec fn unlz4f_of(d: Seq<u8>) -> Option<Seq<u8>>;

pub uninterp spec fn lz4b_of(d: Seq<u8>) -> Seq<u8>;

pub uninterp spec fn unlz4b_of(d: Seq<u8>) -> Option<Seq<u8>>;

/// Relies on flate2's `GzEncoder` writing an RFC 1952 stream into a
/// `Vec` sink (which cannot fail): 10-byte header starting `1f 8b`,
/// losslessly inverted by `GzDecoder`.
#[verifier::external_body]
fn gzip_compress(data: &[u8]) -> (r: Vec<u8>)
    ensures
        r@ == gzip_of(data@),
        r@.len() >= 10,
        r@[0] == 0x1f,
        r@[1] == 0x8b,
        gunzip_of(r@) == Some(data@),
{
    let mut enc = flate2::write::GzEncoder::new(Vec::new(), flate2::Compression::default());
    std::io::Write::write_all(&mut enc, data).expect("writing into a Vec cannot fail");
    enc.finish().expect("finishing into a Vec cannot fail")
}

/// Relies on flate2's `GzDecoder`: a pure function of the input bytes,
/// failing exactly on streams it cannot decode.
#[verifier::external_body]
fn gzip_decompress(data: &[u8]) -> (r: Result<Vec<u8>, FlashError>)
    ensures
        r is Ok <==> gunzip_of(data@) is Some,
        r matches Ok(v) ==> Some(v@) == gunzip_of(data@),
        r matches Err(e) ==> e is CodecError,
{
    let mut out = Vec::new();
    let mut dec = flate2::read::GzDecoder::new(data);
    match std::io::Read::read_to_end(&mut dec, &mut out) {
        Ok(_) => Ok(out),
        Err(e) => Err(FlashError::CodecError(format!("gzip: {e}"))),
    }
}

/// Relies on lzma-rs `xz_compress` writing an xz container into a `Vec`
/// sink (which cannot fail): 6-byte magic `fd 37 7a 58 5a 00`,
/// losslessly inverted by `xz_decompress`.
#[verifier::external_body]
pub(crate) fn xz_compress(data: &[u8]) -> (r: Vec<u8>)
    ensures
        r@ == xz_of(data@),
        r@.len() >= 6,
        r@[0] == 0xfd,
        r@[1] == 0x37,
        r@[2] == 0x7a,
        r@[3] == 0x58,
        r@[4] == 0x5a,
        r@[5] == 0x00,
        unxz_of(r@) == Some(data@),
{
    let mut out = Vec::new();
    lzma_rs::xz_compress(&mut &data[..], &mut out).expect("writing into a Vec cannot fail");
    out
}

/// Relies on lzma-rs `xz_decompress`: a pure function of the input
/// bytes, failing exactly on streams it cannot decode.
#[verifier::external_body]
fn xz_decompress_bytes(data: &[u8]) -> (r: Result<Vec<u8>, FlashError>)
    ensures
        r is Ok <==> unxz_of(data@) is Some,
        r matches Ok(v) ==> Some(v@) == unxz_of(data@),
        r matches Err(e) ==> e is CodecError,
{
    let mut reader = std::io::Cursor::new(data);
    let mut out = Vec::new();
    match lzma_rs::xz_decompress(&mut reader, &mut out) {
        Ok(()) => Ok(out),
        Err(e) => Err(FlashError::CodecError(format!("xz: {e:?}"))),
    }
}

/// Relies on zstd `encode_all` at the default level: a zstd frame with
/// magic `28 b5 2f fd`, losslessly inverted by `decode_all`; with a
/// slice source and `Vec` sink it cannot fail.
#[verifier::external_body]
fn zstd_compress(data: &[u8]) -> (r: Vec<u8>)
    ensures
        r@ == zstd_of(data@),
        r@.len() >= 4,
        r@[0] == 0x28,
        r@[1] == 0xb5,
        r@[2] == 0x2f,
        r@[3] == 0xfd,
        unzstd_of(r@) == Some(data@),
{
    zstd::stream::encode_all(data, 0).expect("zstd encoding into a Vec cannot fail")
}

/// Relies on zstd `decode_all`: a pure function of the input bytes,
/// failing exactly on streams it cannot decode.
#[verifier::external_body]
fn zstd_decompress(data: &[u8]) -> (r: Result<Vec<u8>, FlashError>)
    ensures
        r is Ok <==> unzstd_of(data@) is Some,
        r matches Ok(v) ==> Some(v@) == unzstd_of(data@),
        r matches Err(e) ==> e is CodecError,
{
    zstd::stream::decode_all(data).map_err(|e| FlashError::CodecError(format!("zstd: {e}")))
}

/// Relies on lz4_flex's `FrameEncoder` writing an LZ4 frame into a
/// `Vec` sink (which cannot fail): magic `04 22 4d 18`, losslessly
/// inverted by `FrameDecoder`.
#[verifier::external_body]
fn lz4_frame_compress(data: &[u8]) -> (r: Vec<u8>)
    ensures
        r@ == lz4f_of(data@),
        r@.len() >= 4,
        r@[0] == 0x04,
        r@[1] == 0x22,
        r@[2] == 0x4d,
        r@[3] == 0x18,
        unlz4f_of(r@) == Some(data@),
{
    let mut enc = lz4_flex::frame::FrameEncoder::new(Vec::new());
    std::io::Write::write_all(&mut enc, data).expect("writing into a Vec cannot fail");
    enc.finish().expect("finishing into a Vec cannot fail")
}

/// Relies on lz4_flex's `FrameDecoder`: a pure function of the input
/// bytes, failing exactly on streams it cannot decode.
#[verifier::external_body]
fn lz4_frame_decompress(data: &[u8]) -> (r: Result<Vec<u8>, FlashError>)
    ensures
        r is Ok <==> unlz4f_of(data@) is Some,
        r matches Ok(v) ==> Some(v@) == unlz4f_of(data@),
        r matches Err(e) ==> e is CodecError,
{
    let mut out = Vec::new();
    let mut dec = lz4_flex::frame::FrameDecoder::new(data);
    match std::io::Read::read_to_end(&mut dec, &mut out) {
        Ok(_) => Ok(out),
        Err(e) => Err(FlashError::CodecError(format!("lz4 frame: {e}"))),
    }
}

/// Relies on lz4_flex `block::compress`: at least one byte long, at
/// most `16 + 4 + len * 110 / 100` bytes (its documented maximum),
/// and inverted by `block::decompress_into` for inputs that fit the
/// decode buffer.
#[verifier::external_body]
fn lz4_block_compress(data: &[u8]) -> (r: Vec<u8>)
    ensures
        r@ == lz4b_of(data@),
        1 <= r@.len() <= 20 + data@.len() * 110 / 100,
        data@.len() <= LZ4_LEGACY_MAX ==> unlz4b_of(r@) == Some(data@),
{
    lz4_flex::block::compress(data)
}

/// Relies on lz4_flex `block::decompress_into` with a fixed 128 MiB
/// buffer: a pure function of the input bytes, failing exactly on
/// blocks it cannot decode into that buffer.
#[verifier::external_body]
fn lz4_block_decompress(data: &[u8]) -> (r: Result<Vec<u8>, FlashError>)
    ensures
        r is Ok <==> unlz4b_of(data@) is Some,
        r matches Ok(v) ==> Some(v@) == unlz4b_of(data@),
        r matches Err(e) ==> e is CodecError,
{
    let mut buf = vec![0u8; LZ4_LEGACY_MAX];
    match lz4_flex::block::decompress_into(data, &mut buf) {
        Ok(size) => {
            buf.truncate(size);
            Ok(buf)
        }
        Err(e) => Err(FlashError::CodecError(format!("lz4 block: {e}"))),
    }
}

// ---------------------------------------------------------------------------
// Verified dispatch.

/// The encoded stream `compress_ramdisk` produces for `fmt`.
pub open spec fn compress_spec(fmt: RamdiskFormat, d: Seq<u8>) -> Seq<u8> {
    match fmt {
        RamdiskFormat::Gzip => gzip_of(d),
        RamdiskFormat::Xz => xz_of(d),
        RamdiskFormat::Zstd => zstd_of(d),
        RamdiskFormat::Lz4 => lz4f_of(d),
        RamdiskFormat::Lz4Legacy => seq![0x02u8, 0x21u8, 0x4cu8, 0x18u8] + le32_spec(
            lz4b_of(d).len() as int) + lz4b_of(d),
        RamdiskFormat::Uncompressed => d,
    }
}

/// The payload bytes of a legacy LZ4 stream: past the 8-byte header,
/// or past 9 bytes for the variant with one trailing byte.
pub open spec fn lz4_legacy_tail(d: Seq<u8>) -> Seq<u8> {
    let size = le32_val(d.subrange(4, 8));
    if d.len() >= 9 && size + 8 == d.len() - 1 {
        d.skip(9)
    } else {
        d.skip(8)
    }
}

/// What a legacy LZ4 stream decodes to: block decode of the payload,
/// falling back to frame decode of the same payload.
pub open spec fn lz4_legacy_decode(d: Seq<u8>) -> Option<Seq<u8>> {
    match unlz4b_of(lz4_legacy_tail(d)) {
        Some(x) => Some(x),
        None => unlz4f_of(lz4_legacy_tail(d)),
    }
}

/// What `decompress_ramdisk` yields: the inverse codec chosen by the
/// detected magic; unknown magic passes the bytes through unchanged.
pub open spec fn decompress_spec(d: Seq<u8>) -> Option<Seq<u8>> {
    match detect_spec(d) {
        RamdiskFormat::Gzip => gunzip_of(d),
        RamdiskFormat::Xz => unxz_of(d),
        RamdiskFormat::Zstd => unzstd_of(d),
        RamdiskFormat::Lz4 => unlz4f_of(d),
        RamdiskFormat::Lz4Legacy => if d.len() > 8 {
            lz4_legacy_decode(d)
        } else {
            None
        },
        RamdiskFormat::Uncompressed => Some(d),
    }
}

/// Encode `data` in the requested format.
///
/// The contract carries two of the codec laws: detection recovers the
/// format that was applied, and decompression recovers the input.
pub fn compress_ramdisk(fmt: RamdiskFormat, data: &[u8]) -> (r: Vec<u8>)
    ensures
        r@ == compress_spec(fmt, data@),
        !(fmt is Uncompressed) ==> detect_spec(r@) == fmt,
        fmt is Uncompressed ==> r@ == data@,
        ((fmt is Uncompressed ==> detect_spec(data@) == RamdiskFormat::Uncompressed) && (
        fmt is Lz4Legacy ==> data@.len() <= LZ4_LEGACY_MAX)) ==> decompress_spec(r@)
            == Some(data@),
{
    match fmt {
        RamdiskFormat::Gzip => gzip_compress(data),
        RamdiskFormat::Xz => xz_compress(data),
        RamdiskFormat::Zstd => zstd_compress(data),
        RamdiskFormat::Lz4 => lz4_frame_compress(data),
        RamdiskFormat::Lz4Legacy => {
            let block = lz4_block_compress(data);
            let mut out: Vec<u8> = Vec::new();
            out.push(0x02);
            out.push(0x21);
            out.push(0x4c);
            out.push(0x18);
            let size32: u32 = (block.len() as u64 % 0x1_0000_0000) as u32;
            proof {
                lemma_le32_wrap(block@.len() as int);
                assert(size32 as int == block@.len() as int % 0x1_0000_0000);
                assert(le32_spec(size32 as int) == le32_spec(block@.len() as int));
            }
            let len_bytes = le32_bytes(size32);
            out.push(len_bytes[0]);
            out.push(len_bytes[1]);
            out.push(len_bytes[2]);
            out.push(len_bytes[3]);
            proof {
                assert(out@ =~= seq![0x02u8, 0x21u8, 0x4cu8, 0x18u8] + le32_spec(
                    block@.len() as int) + block@.subrange(0, 0));
            }
            let mut i: usize = 0;
            while i < block.len()
                invariant
                    i <= block@.len(),
                    out@ == seq![0x02u8, 0x21u8, 0x4cu8, 0x18u8] + le32_spec(
                        block@.len() as int) + block@.subrange(0, i as int),
                decreases block@.len() - i,
            {
                out.push(block[i]);
                i += 1;
            }
            proof {
                assert(block@.subrange(0, block@.len() as int) == block@);
                assert(out@ == compress_spec(fmt, data@));
                // Re-detection: the emitted header bytes are the legacy magic.
                assert(out@.len() >= 9);
                assert(detect_spec(out@) == RamdiskFormat::Lz4Legacy);
                if data@.len() <= LZ4_LEGACY_MAX {
                    // Decoding: the announced size never matches `len - 1`,
                    // so the payload starts right after the 8-byte header.
                    lemma_le32_round_trip(block@.len() as int);
                    assert(out@.subrange(4, 8) =~= le32_spec(block@.len() as int));
                    assert(out@.skip(8) =~= block@);
                    assert(le32_val(out@.subrange(4, 8)) + 8 != out@.len() - 1);
                    assert(lz4_legacy_tail(out@) == block@);
                }
            }
            out
        }
        RamdiskFormat::Uncompressed => {
            let mut out: Vec<u8> = Vec::new();
            let mut i: usize = 0;
            while i < data.len()
                invariant
                    i <= data@.len(),
                    out@ == data@.subrange(0, i as int),
                decreases data@.len() - i,
            {
                out.push(data[i]);
                i += 1;
            }
            proof {
                assert(out@ =~= data@);
            }
            out
        }
    }
}

/// Decode `data` by its detected magic; unknown magic returns the
/// bytes unchanged, a recognised but corrupt stream is an error.
pub fn decompress_ramdisk(data: &[u8]) -> (r: Result<Vec<u8>, FlashError>)
    ensures
        r is Ok <==> decompress_spec(data@) is Some,
        r matches Ok(v) ==> Some(v@) == decompress_spec(data@),
        r matches Err(e) ==> e is CodecError,
{
    let fmt = detect_ramdisk_format(data);
    match fmt {
        RamdiskFormat::Gzip => gzip_decompress(data),
        RamdiskFormat::Xz => xz_decompress_bytes(data),
        RamdiskFormat::Zstd => zstd_decompress(data),
        RamdiskFormat::Lz4 => lz4_frame_decompress(data),
        RamdiskFormat::Lz4Legacy => {
            if data.len() <= 8 {
                return Err(FlashError::CodecError(
                    "legacy lz4 stream shorter than its header".to_owned(),
                ));
            }
            let size = (data[4] as u32) + 256 * (data[5] as u32) + 65536 * (data[6] as u32)
                + 16777216 * (data[7] as u32);
            proof {
                assert(data@.subrange(4, 8) =~= seq![data@[4], data@[5], data@[6], data@[7]]);
            }
            let start: usize = if data.len() >= 9 && size as u64 + 8 == data.len() as u64 - 1 {
                9
            } else {
                8
            };
            let tail = vstd::slice::slice_subrange(data, start, data.len());
            proof {
                assert(tail@ == lz4_legacy_tail(data@));
            }
            match lz4_block_decompress(tail) {
                Ok(v) => Ok(v),
                Err(_) => lz4_frame_decompress(tail),
            }
        }
        RamdiskFormat::Uncompressed => {
            let mut out: Vec<u8> = Vec::new();
            let mut i: usize = 0;
            while i < data.len()
                invariant
                    i <= data@.len(),
                    out@ == data@.subrange(0, i as int),
                decreases data@.len() - i,
            {
                out.push(data[i]);
                i += 1;
            }
            proof {
                assert(out@ =~= data@);
            }
            Ok(out)
        }
    }
}

} // verus!
