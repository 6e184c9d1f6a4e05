use rua_flash::codec::{compress_ramdisk, decompress_ramdisk, detect_ramdisk_format, RamdiskFormat};

fn sample() -> Vec<u8> {
    // About one KiB of ASCII text.
    let mut v = Vec::new();
    while v.len() < 1024 {
        v.extend_from_slice(b"hello\n");
    }
    v
}

#[test]
fn gzip_round_trip_starts_with_magic() {
    let x = sample();
    let c = compress_ramdisk(RamdiskFormat::Gzip, &x);
    assert_eq!(c[0], 0x1f);
    assert_eq!(c[1], 0x8b);
    assert!(matches!(detect_ramdisk_format(&c), RamdiskFormat::Gzip));
    let d = decompress_ramdisk(&c).unwrap();
    assert_eq!(d, x);
}

#[test]
fn xz_round_trip() {
    let x = sample();
    let c = compress_ramdisk(RamdiskFormat::Xz, &x);
    assert_eq!(&c[0..6], &[0xfd, 0x37, 0x7a, 0x58, 0x5a, 0x00]);
    assert!(matches!(detect_ramdisk_format(&c), RamdiskFormat::Xz));
    assert_eq!(decompress_ramdisk(&c).unwrap(), x);
}

#[test]
fn zstd_round_trip() {
    let x = sample();
    let c = compress_ramdisk(RamdiskFormat::Zstd, &x);
    assert_eq!(&c[0..4], &[0x28, 0xb5, 0x2f, 0xfd]);
    assert!(matches!(detect_ramdisk_format(&c), RamdiskFormat::Zstd));
    assert_eq!(decompress_ramdisk(&c).unwrap(), x);
}

#[test]
fn lz4_frame_round_trip() {
    let x = sample();
    let c = compress_ramdisk(RamdiskFormat::Lz4, &x);
    assert_eq!(&c[0..4], &[0x04, 0x22, 0x4d, 0x18]);
    assert!(matches!(detect_ramdisk_format(&c), RamdiskFormat::Lz4));
    assert_eq!(decompress_ramdisk(&c).unwrap(), x);
}

#[test]
fn lz4_legacy_round_trip_and_framing() {
    let x = sample();
    let c = compress_ramdisk(RamdiskFormat::Lz4Legacy, &x);
    assert_eq!(&c[0..4], &[0x02, 0x21, 0x4c, 0x18]);
    let size = u32::from_le_bytes([c[4], c[5], c[6], c[7]]) as usize;
    assert_eq!(size + 8, c.len());
    assert!(matches!(detect_ramdisk_format(&c), RamdiskFormat::Lz4Legacy));
    assert_eq!(decompress_ramdisk(&c).unwrap(), x);
}

#[test]
fn uncompressed_passes_through() {
    let x = sample();
    assert!(matches!(detect_ramdisk_format(&x), RamdiskFormat::Uncompressed));
    let c = compress_ramdisk(RamdiskFormat::Uncompressed, &x);
    assert_eq!(c, x);
    assert_eq!(decompress_ramdisk(&c).unwrap(), x);
}

#[test]
fn short_buffer_detects_uncompressed() {
    assert!(matches!(detect_ramdisk_format(&[0x1f, 0x8b]), RamdiskFormat::Uncompressed));
}

#[test]
fn corrupt_gzip_is_codec_error() {
    let bad = [0x1f, 0x8b, 0xff, 0xff, 0x00, 0x01, 0x02];
    let e = decompress_ramdisk(&bad).unwrap_err();
    assert!(matches!(e, rua_flash::error::FlashError::CodecError(_)));
}
