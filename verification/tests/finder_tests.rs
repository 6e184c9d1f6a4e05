use rua_flash::finder::FileFinder;

#[test]
fn test_extract_kmi() {
    assert_eq!(
        FileFinder::extract_kernelsu_kmi("android14-6.1_kernelsu.ko").as_deref(),
        Some("android14-6.1")
    );
    assert_eq!(
        FileFinder::extract_kernelsu_kmi("android13-5.10_kernelsu.ko").as_deref(),
        Some("android13-5.10")
    );
}

#[test]
fn extract_kmi_rejects_other_names() {
    assert_eq!(FileFinder::extract_kernelsu_kmi("kernelsu.ko"), None);
    assert_eq!(FileFinder::extract_kernelsu_kmi("android14-6.1.ko"), None);
    assert_eq!(FileFinder::extract_kernelsu_kmi("x_kernelsu.ko"), None);
}
