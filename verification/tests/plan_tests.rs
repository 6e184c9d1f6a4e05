use rua_flash::device::DeviceMode;
use rua_flash::fastboot::FastbootManager;
use rua_flash::payload::{
    progress_bytes, PartitionRecord, PayloadSummary, UnpackAction, UnpackPlan,
};

fn record(name: &str, size: u64, ops: u64) -> PartitionRecord {
    PartitionRecord { name: name.to_string(), size_bytes: size, operations_count: ops }
}

#[test]
fn listing_returns_manifest_partitions_in_order() {
    let summary = PayloadSummary {
        partitions: vec![
            record("boot", 64 * 1024 * 1024, 4),
            record("vbmeta", 68 * 1024, 1),
            record("system", 3_758_096_384, 3200),
        ],
    };
    let listed = summary.list_partitions();
    assert_eq!(listed.len(), 3);
    assert_eq!(listed[0].name, "boot");
    assert_eq!(listed[1].name, "vbmeta");
    assert_eq!(listed[2].name, "system");
    assert_eq!(listed[0].operations_count, 4);
    assert_eq!(listed[2].size_bytes, 3_758_096_384);
}

#[test]
fn cancellation_stops_the_plan_mid_way() {
    let parts: Vec<PartitionRecord> =
        (0..10).map(|i| record(&format!("p{i}"), 1024, 1)).collect();
    let mut plan = UnpackPlan::new(parts);
    // Two partitions extract normally.
    assert!(matches!(plan.step(false), UnpackAction::Extract(n) if n == "p0"));
    assert!(matches!(plan.step(false), UnpackAction::Extract(n) if n == "p1"));
    // The flag set during the third is observed before further work.
    assert!(matches!(plan.step(true), UnpackAction::Cancelled));
    assert_eq!(plan.extracted(), 2);
}

#[test]
fn full_run_extracts_each_partition_once() {
    let parts: Vec<PartitionRecord> = (0..4).map(|i| record(&format!("q{i}"), 1, 1)).collect();
    let mut plan = UnpackPlan::new(parts);
    let mut names = Vec::new();
    loop {
        match plan.step(false) {
            UnpackAction::Extract(n) => names.push(n),
            UnpackAction::Done => break,
            UnpackAction::Cancelled => panic!("never cancelled"),
        }
    }
    assert_eq!(names, vec!["q0", "q1", "q2", "q3"]);
    assert_eq!(plan.extracted(), 4);
}

#[test]
fn progress_estimate_is_proportional_and_clamped() {
    assert_eq!(progress_bytes(2, 4, 1000), 500);
    assert_eq!(progress_bytes(9, 4, 1000), 1000);
    assert_eq!(progress_bytes(0, 4, 1000), 0);
    assert_eq!(progress_bytes(5, 0, 1000), 0);
    // No overflow on large values.
    assert_eq!(progress_bytes(u64::MAX, u64::MAX, u64::MAX), u64::MAX);
}

#[test]
fn fastboot_argument_vectors() {
    let fb = FastbootManager::from_path("platform-tools/fastboot".to_string());
    assert_eq!(fb.get_path(), "platform-tools/fastboot");
    assert_eq!(fb.flash("boot", "patched.img"), ["flash", "boot", "patched.img"]);
    assert_eq!(fb.reboot(None), ["reboot"]);
    assert_eq!(fb.reboot(Some("recovery")), ["reboot", "recovery"]);
    assert_eq!(fb.get_var("product"), ["getvar", "product"]);
    assert_eq!(fb.get_current_slot(), ["getvar", "current-slot"]);
    assert_eq!(fb.set_active_slot("b"), ["--set-active", "b"]);
    assert_eq!(fb.flashing_unlock(), ["flashing", "unlock"]);
    assert_eq!(fb.flashing_lock(), ["flashing", "lock"]);
    assert_eq!(fb.format_w(), ["-w"]);
    assert_eq!(fb.erase("userdata"), ["erase", "userdata"]);
    assert_eq!(fb.oem_unlock(), ["oem", "unlock"]);
    assert_eq!(fb.oem_lock(), ["oem", "lock"]);
    let edl = fb.reboot_edl();
    assert_eq!(edl[0], ["oem", "edl"]);
    assert_eq!(edl[1], ["reboot", "edl"]);
    assert_eq!(edl[2], ["reboot", "edl"]);
    assert_eq!(
        fb.get_adb_var("SERIAL1", "ro.product.model"),
        ["-s", "SERIAL1", "shell", "getprop", "ro.product.model"]
    );
    assert!(fb.is_fastbootd("yes"));
    assert!(!fb.is_fastbootd("no"));
}

#[test]
fn device_mode_parsing_is_case_insensitive() {
    assert!(matches!(DeviceMode::from_mode_str("FASTBOOT"), DeviceMode::Fastboot));
    assert!(matches!(DeviceMode::from_mode_str("fastbootd"), DeviceMode::FastbootD));
    assert!(matches!(DeviceMode::from_mode_str("Device"), DeviceMode::ADB));
    assert!(matches!(DeviceMode::from_mode_str("recovery"), DeviceMode::Recovery));
    assert!(matches!(DeviceMode::from_mode_str("sideload"), DeviceMode::Sideload));
    match DeviceMode::from_mode_str("weird-mode") {
        DeviceMode::Unknown(s) => assert_eq!(s, "weird-mode"),
        other => panic!("expected Unknown, got {other:?}"),
    }
}
