use rsa::pkcs8::EncodePrivateKey;
use sha2::Digest;
use rsa::traits::PublicKeyParts;
use rua_flash::avb::{
    add_hash_footer, algorithm_for_key_name, build_public_key_blob, compute_partition_size,
    mont_n0inv, AvbAlgorithm,
};

fn test_key() -> rsa::RsaPrivateKey {
    let mut rng = rand::rngs::OsRng;
    rsa::RsaPrivateKey::new(&mut rng, 2048).unwrap()
}

fn be64_at(b: &[u8], off: usize) -> u64 {
    u64::from_be_bytes(b[off..off + 8].try_into().unwrap())
}

#[test]
fn footer_on_100_kib_image() {
    let key = test_key();
    let pem = key.to_pkcs8_pem(rsa::pkcs8::LineEnding::LF).unwrap();
    let image = vec![0x5Au8; 102_400];
    let psize = compute_partition_size(image.len() as u64);
    assert_eq!(psize, 3 * 1_048_576);
    let out = add_hash_footer(&image, "boot", psize, &pem, AvbAlgorithm::Sha256Rsa2048)
        .unwrap();
    assert_eq!(out.len() as u64, psize);
    // The image itself is untouched at the front.
    assert_eq!(&out[..image.len()], &image[..]);
    // The vbmeta header sits right after the image.
    assert_eq!(&out[102_400..102_404], &[0x41, 0x56, 0x42, 0x30]);
    // The last 64 bytes are the footer.
    let f = out.len() - 64;
    assert_eq!(&out[f..f + 4], &[0x41, 0x56, 0x42, 0x66]);
    assert_eq!(be64_at(&out, f + 12), 102_400);
    assert_eq!(be64_at(&out, f + 20), 102_400);
    // Signature length recorded in the header equals 256 for RSA-2048.
    assert_eq!(be64_at(&out, 102_400 + 56), 256);
    // The recorded vbmeta size covers header, authentication and
    // auxiliary blocks.
    let vb_size = be64_at(&out, f + 28);
    let auth_size = be64_at(&out, 102_400 + 12);
    let aux_size = be64_at(&out, 102_400 + 20);
    assert_eq!(vb_size, 256 + auth_size + aux_size);
    // The vbmeta digest in the authentication block matches a fresh
    // SHA-256 of header and auxiliary block.
    let header = &out[102_400..102_400 + 256];
    let aux_start = 102_400 + 256 + auth_size as usize;
    let aux = &out[aux_start..aux_start + aux_size as usize];
    let mut h = sha2::Sha256::new();
    h.update(header);
    h.update(aux);
    let digest = h.finalize();
    assert_eq!(&out[102_400 + 256..102_400 + 256 + 32], digest.as_slice());
}

#[test]
fn partition_size_envelope() {
    for len in [0u64, 1, 102_400, 1_048_576, 10 * 1_048_576 + 7] {
        let p = compute_partition_size(len);
        assert_eq!(p % 1_048_576, 0);
        assert!(p >= len + 2 * 1_048_576);
        assert!(p < len + 3 * 1_048_576);
    }
}

#[test]
fn public_key_blob_n0inv_property() {
    let key = test_key();
    let n = key.n().to_bytes_be();
    let nb = num_bigint::BigUint::from_bytes_be(&n);
    let r1 = num_bigint::BigUint::from(1u32) << 2048;
    let rr: num_bigint::BigUint = (&r1 * &r1) % &nb;
    let rr_be = rr.to_bytes_be();
    let blob = build_public_key_blob(&n, &rr_be).unwrap();
    let bits = u32::from_be_bytes(blob[0..4].try_into().unwrap());
    assert_eq!(bits, 2048);
    let n0inv = u32::from_be_bytes(blob[4..8].try_into().unwrap());
    let k = n.len();
    let n0 = u32::from_be_bytes(n[k - 4..k].try_into().unwrap());
    let prod = (n0 as u64).wrapping_mul(n0inv as u64);
    assert_eq!(prod % (1u64 << 32), (1u64 << 32) - 1);
    // The modulus and the remainder are embedded after the two words.
    assert_eq!(&blob[8..8 + k], &n[..]);
    assert_eq!(blob.len(), 8 + 2 * k);
    assert_eq!(&blob[blob.len() - rr_be.len()..], &rr_be[..]);
    // Malformed byte strings are rejected.
    assert!(build_public_key_blob(&vec![], &rr_be).is_err());
    assert!(build_public_key_blob(&vec![0u8, 1], &vec![1u8]).is_err());
}

#[test]
fn mont_n0inv_is_negated_inverse() {
    for n0 in [1u32, 3, 0x12345679, 0xFFFF_FFFF, 2_147_483_659u32 as u32] {
        let inv = mont_n0inv(n0);
        let prod = (n0 as u64).wrapping_mul(inv as u64);
        assert_eq!(prod % (1u64 << 32), (1u64 << 32) - 1, "n0 = {n0:#x}");
    }
    assert_eq!(mont_n0inv(4), 0);
}

#[test]
fn public_key_pem_is_rejected() {
    let image = vec![0u8; 1024];
    let pem = "-----BEGIN PUBLIC KEY-----\nAAAA\n-----END PUBLIC KEY-----\n";
    let e = add_hash_footer(&image, "boot", 4 * 1_048_576, pem, AvbAlgorithm::Sha256Rsa2048)
        .unwrap_err();
    assert!(matches!(e, rua_flash::error::FlashError::AvbError(_)));
}

#[test]
fn oversized_image_is_rejected() {
    let image = vec![0u8; 4096];
    let e = add_hash_footer(&image, "boot", 1024, "x", AvbAlgorithm::Sha256Rsa2048)
        .unwrap_err();
    assert!(matches!(e, rua_flash::error::FlashError::AvbError(_)));
}

#[test]
fn algorithm_picked_from_key_name() {
    assert!(matches!(
        algorithm_for_key_name("testkey_RSA4096.pem"),
        AvbAlgorithm::Sha256Rsa4096
    ));
    assert!(matches!(
        algorithm_for_key_name("testkey_rsa2048.pem"),
        AvbAlgorithm::Sha256Rsa2048
    ));
    assert!(matches!(algorithm_for_key_name("key.pem"), AvbAlgorithm::Sha256Rsa2048));
}
