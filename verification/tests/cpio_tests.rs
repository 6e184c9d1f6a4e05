use rua_flash::cpio::{
    cpio_create_entries, cpio_extract_file, cpio_extract_file_newc, cpio_parse_entries,
    detect_and_skip_cpio_header, CpioEntry,
};

fn entry(name: &str, mode: u32, data: &[u8]) -> CpioEntry {
    CpioEntry { name: name.to_string(), mode, data: data.to_vec() }
}

#[test]
fn single_entry_emit_and_parse() {
    let entries = vec![entry("init", 0o750, b"X")];
    let archive = cpio_create_entries(&entries).unwrap();
    assert_eq!(&archive[0..6], b"070701");
    let text = archive.clone();
    assert!(text.windows(4).any(|w| w == b"init"));
    assert!(text.windows(10).any(|w| w == b"TRAILER!!!"));
    let back = cpio_parse_entries(&archive).unwrap();
    assert_eq!(back.len(), 1);
    assert_eq!(back[0].name, "init");
    assert_eq!(back[0].mode, 0o750);
    assert_eq!(back[0].data, b"X");
}

#[test]
fn multi_entry_round_trip() {
    let entries = vec![
        entry("init", 0o750, b"binary contents"),
        entry("overlay.d/sbin/magisk.xz", 0o644, &[0u8; 37]),
        entry(".backup/.magisk", 0o000, b"KEEPVERITY=false\n"),
        entry("empty", 0o644, b""),
    ];
    let archive = cpio_create_entries(&entries).unwrap();
    assert_eq!(archive.len() % 4, 0);
    let back = cpio_parse_entries(&archive).unwrap();
    assert_eq!(back.len(), entries.len());
    for (a, b) in entries.iter().zip(back.iter()) {
        assert_eq!(a.name, b.name);
        assert_eq!(a.mode, b.mode);
        assert_eq!(a.data, b.data);
    }
}

#[test]
fn emit_rejects_sentinel_and_nul_names() {
    let bad = vec![entry("TRAILER!!!", 0o644, b"")];
    assert!(cpio_create_entries(&bad).is_err());
    let bad2 = vec![entry("a\0b", 0o644, b"")];
    assert!(cpio_create_entries(&bad2).is_err());
    let bad3 = vec![entry("", 0o644, b"")];
    assert!(cpio_create_entries(&bad3).is_err());
}

#[test]
fn parse_rejects_garbage() {
    let e = cpio_parse_entries(&[0u8; 200]).unwrap_err();
    assert!(matches!(e, rua_flash::error::FlashError::CpioParseError(_, _)));
    let e2 = cpio_parse_entries(b"070701").unwrap_err();
    assert!(matches!(e2, rua_flash::error::FlashError::CpioParseError(_, _)));
}

#[test]
fn extract_finds_first_match() {
    let entries = vec![
        entry("foo", 0o600, b"one"),
        entry("sepolicy", 0o644, b"policy-bytes"),
        entry("bar", 0o700, b"two"),
    ];
    let archive = cpio_create_entries(&entries).unwrap();
    let (mode, data) = cpio_extract_file_newc(&archive, "sepolicy").unwrap();
    assert_eq!(mode, 0o644);
    assert_eq!(data, b"policy-bytes");
    assert_eq!(cpio_extract_file(&archive, "bar").unwrap(), b"two");
    assert!(cpio_extract_file_newc(&archive, "missing").is_none());
}

#[test]
fn skip_header_finds_magic_offset() {
    let entries = vec![entry("init", 0o750, b"Y")];
    let archive = cpio_create_entries(&entries).unwrap();
    let mut padded = vec![0xAAu8; 16];
    padded.extend_from_slice(&archive);
    assert_eq!(detect_and_skip_cpio_header(&padded), 16);
    assert_eq!(detect_and_skip_cpio_header(&archive), 0);
    assert_eq!(detect_and_skip_cpio_header(&[0u8; 64]), 0);
    // An archive read from the found offset parses as usual.
    let off = detect_and_skip_cpio_header(&padded);
    let back = cpio_parse_entries(&padded[off..]).unwrap();
    assert_eq!(back[0].name, "init");
}
