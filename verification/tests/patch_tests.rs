use rua_flash::cpio::CpioEntry;
use rua_flash::patch::{kernelsu_patch_entries, magisk_patch_entries, sha1_hex};
use sha1::Digest;

fn entry(name: &str, mode: u32, data: &[u8]) -> CpioEntry {
    CpioEntry { name: name.to_string(), mode, data: data.to_vec() }
}

fn xz(data: &[u8]) -> Vec<u8> {
    let mut out = Vec::new();
    lzma_rs::xz_compress(&mut &data[..], &mut out).unwrap();
    out
}

#[test]
fn magisk_patch_on_init_boot_entries() {
    // An init_boot-style ramdisk: an init, a bystander, stale state.
    let image = vec![0xA5u8; 4096];
    let sha1 = sha1_hex(&image);
    assert_eq!(sha1, format!("{:x}", sha1::Sha1::digest(&image)));
    let mut entries = vec![
        entry("init", 0o750, b"OLD-INIT"),
        entry("other", 0o644, b"bystander"),
        entry("overlay.d/sbin/old.xz", 0o644, b"stale"),
        entry(".backup/.magisk", 0o000, b"stale-config"),
    ];
    let magiskinit = b"MAGISKINIT-BINARY";
    let magiskbin = b"MAGISK-BINARY";
    magisk_patch_entries(&mut entries, magiskinit, magiskbin, b"", b"", &sha1);
    // The bystander survives in front, the stale state is gone.
    assert_eq!(entries[0].name, "other");
    assert_eq!(entries[0].data, b"bystander");
    let inits: Vec<_> = entries.iter().filter(|e| e.name == "init").collect();
    assert_eq!(inits.len(), 1);
    assert_eq!(inits[0].mode, 0o750);
    assert_eq!(inits[0].data, magiskinit);
    let overlay: Vec<_> =
        entries.iter().filter(|e| e.name.starts_with("overlay.d")).collect();
    assert_eq!(overlay.len(), 1);
    assert_eq!(overlay[0].name, "overlay.d/sbin/magisk.xz");
    assert_eq!(overlay[0].mode, 0o644);
    assert_eq!(overlay[0].data, xz(magiskbin));
    let backup: Vec<_> = entries.iter().filter(|e| e.name == ".backup/.magisk").collect();
    assert_eq!(backup.len(), 1);
    assert_eq!(backup[0].mode, 0o000);
    let expected = format!(
        "KEEPVERITY=false\nKEEPFORCEENCRYPT=false\nRECOVERYMODE=false\nVENDORBOOT=false\nSHA1={sha1}\n"
    );
    assert_eq!(backup[0].data, expected.as_bytes());
}

#[test]
fn magisk_patch_is_structurally_idempotent() {
    let mut once = vec![entry("init", 0o750, b"x"), entry("keep", 0o644, b"y")];
    magisk_patch_entries(&mut once, b"MI", b"MB", b"", b"", "aa");
    let mut twice = once.clone();
    magisk_patch_entries(&mut twice, b"MI", b"MB", b"", b"", "aa");
    let pick = |v: &Vec<CpioEntry>| -> Vec<(String, u32, Vec<u8>)> {
        v.iter()
            .filter(|e| {
                e.name == "init" || e.name.starts_with("overlay.d")
                    || e.name.starts_with(".backup")
            })
            .map(|e| (e.name.clone(), e.mode, e.data.clone()))
            .collect()
    };
    assert_eq!(pick(&once), pick(&twice));
    assert_eq!(once.len(), twice.len());
}

#[test]
fn magisk_patch_appends_sepolicy_rules_in_place() {
    let mut policy = Vec::new();
    policy.extend_from_slice(&0xf97cff8fu32.to_le_bytes());
    policy.extend_from_slice(&30i32.to_le_bytes());
    let mut entries = vec![entry("sepolicy", 0o600, &policy)];
    magisk_patch_entries(&mut entries, b"MI", b"", b"", b"", "bb");
    assert_eq!(entries[0].name, "sepolicy");
    assert_eq!(entries[0].mode, 0o600);
    let mut expected = policy.clone();
    expected.extend_from_slice(b"allow\0");
    assert_eq!(entries[0].data, expected);
}

#[test]
fn kernelsu_patch_renames_init_and_adds_module() {
    let mut entries = vec![entry("init", 0o700, b"REAL-INIT"), entry("bin", 0o755, b"z")];
    let extra = vec![entry("ksuinit.d/hook", 0o755, b"hook")];
    let already =
        kernelsu_patch_entries(&mut entries, b"KSUINIT", b"KO-MODULE", &extra, false)
            .unwrap();
    assert!(!already);
    let names: Vec<_> = entries.iter().map(|e| e.name.as_str()).collect();
    assert_eq!(names, ["bin", "init.real", "init", "kernelsu.ko", "ksuinit.d/hook"]);
    assert_eq!(entries[1].mode, 0o700);
    assert_eq!(entries[1].data, b"REAL-INIT");
    assert_eq!(entries[2].mode, 0o755);
    assert_eq!(entries[2].data, b"KSUINIT");
    assert_eq!(entries[3].data, b"KO-MODULE");
}

#[test]
fn kernelsu_patch_refuses_magisk_state_unless_forced() {
    let magisked = vec![entry(".backup/.magisk", 0o000, b"cfg")];
    let mut entries = magisked.clone();
    let e = kernelsu_patch_entries(&mut entries, b"K", b"M", &vec![], false).unwrap_err();
    assert!(matches!(e, rua_flash::error::FlashError::PatchError(_)));
    assert_eq!(entries.len(), 1);
    // Forced installation proceeds and reports no prior module.
    let mut forced = magisked.clone();
    let already = kernelsu_patch_entries(&mut forced, b"K", b"M", &vec![], true).unwrap();
    assert!(!already);
    assert!(forced.iter().any(|e| e.name == "kernelsu.ko"));
}

#[test]
fn legacy_cpio_magic_order_is_first_offset() {
    // A crc-format magic before an odc one: the earlier offset wins.
    let mut data = Vec::new();
    data.extend_from_slice(b"070702070707");
    data.extend_from_slice(&[0u8; 8]);
    assert_eq!(rua_flash::cpio::detect_and_skip_cpio_header(&data), 0);
    // The newc magic is preferred over any earlier legacy magic.
    let mut data2 = Vec::new();
    data2.extend_from_slice(b"070707..070701..");
    assert_eq!(rua_flash::cpio::detect_and_skip_cpio_header(&data2), 8);
}

#[test]
fn fastboot_output_parsing() {
    let fb = rua_flash::fastboot::FastbootManager::from_path("fastboot".to_string());
    let transcript = "(bootloader) slot-count: 2\r\ncurrent-slot: a\r\nFinished.\n";
    assert_eq!(fb.parse_var_output("current-slot", transcript), "a");
    assert_eq!(fb.parse_var_output("product", "no such line\n"), "unknown");
    assert_eq!(fb.parse_var_output("is-userspace", "is-userspace: yes"), "yes");
    let ok = fb.parse_adb_var_output("ro.product.model", "  Pixel 8\n").unwrap();
    assert_eq!(ok, "Pixel 8");
    let e = fb.parse_adb_var_output("ro.x", "  \n ").unwrap_err();
    assert!(matches!(e, rua_flash::error::FlashError::PropertyNotFound(_)));
}
