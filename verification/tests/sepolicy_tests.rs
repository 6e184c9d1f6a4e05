use rua_flash::sepolicy::{extract_sepolicy, Sepolicy};

#[test]
fn test_sepolicy_parse_valid() {
    let mut data = Vec::new();
    data.extend_from_slice(&0xf97cff8fu32.to_le_bytes());
    data.extend_from_slice(&26i32.to_le_bytes());
    data.extend_from_slice(&[0u8; 100]);

    let result = Sepolicy::parse(&data);
    assert!(result.is_ok());
    let sepolicy = result.unwrap();
    assert_eq!(sepolicy.version, 26);
    assert!(sepolicy.is_valid());
}

#[test]
fn test_sepolicy_parse_invalid_magic() {
    let mut data = Vec::new();
    data.extend_from_slice(&0xDEADBEEFu32.to_le_bytes());
    data.extend_from_slice(&26i32.to_le_bytes());

    let result = Sepolicy::parse(&data);
    assert!(result.is_err());
}

#[test]
fn test_sepolicy_parse_too_small() {
    let data = vec![0u8; 4];

    let result = Sepolicy::parse(&data);
    assert!(result.is_err());
}

#[test]
fn test_extract_sepolicy_not_found() {
    let empty_data = vec![0u8; 512];
    let result = extract_sepolicy(&empty_data);
    assert!(result.is_none());
}

#[test]
fn sepolicy_add_magisk_rules_appends() {
    let mut data = Vec::new();
    data.extend_from_slice(&0xf97cff8fu32.to_le_bytes());
    data.extend_from_slice(&30i32.to_le_bytes());
    let mut pol = Sepolicy::parse(&data).unwrap();
    let before = pol.data.len();
    pol.add_magisk_rules();
    assert_eq!(pol.data.len(), before + 6);
    assert_eq!(&pol.data[before..], b"allow\0");
    assert_eq!(pol.version, 30);
}

#[test]
fn sepolicy_negative_version_decodes() {
    let mut data = Vec::new();
    data.extend_from_slice(&0xf97cff8fu32.to_le_bytes());
    data.extend_from_slice(&(-1i32).to_le_bytes());
    let pol = Sepolicy::parse(&data).unwrap();
    assert_eq!(pol.version, -1);
    assert!(!pol.is_valid());
}
