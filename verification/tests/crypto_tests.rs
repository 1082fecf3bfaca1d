use jinshu::crypto::{
    decrypt_bytes, decrypt_jsb, derive_key_from_password, encrypt_bytes, encrypt_jsb, fingerprint, generate_key,
    DECRYPT_FAILED, NOT_A_BACKUP, NOT_A_FILE, WRONG_PASSWORD,
};

#[test]
fn crypto_crypto_roundtrip() {
    let key = generate_key();
    let plain = "第一章 少年出山
他握紧了剑柄。".as_bytes();
    let blob = encrypt_bytes(&key, b"novel.jsr", plain).unwrap();
    // 密文中不应包含明文
    assert!(!blob.windows(plain.len()).any(|w| w == plain));
    let dec = decrypt_bytes(&key, b"novel.jsr", &blob).unwrap();
    assert_eq!(dec, plain);
    // 错误密钥必须失败
    let key2 = generate_key();
    assert!(decrypt_bytes(&key2, b"novel.jsr", &blob).is_err());
    // 错误 AAD 必须失败
    assert!(decrypt_bytes(&key, b"other", &blob).is_err());
}

#[test]
fn jsb_password_roundtrip() {
    let key = generate_key();
    let plain = "{\"novel\":{\"title\":\"剑出昆仑\"}}".as_bytes();
    let blob = encrypt_jsb("我的密码123", plain).unwrap();
    assert_eq!(decrypt_jsb("我的密码123", &blob).unwrap(), plain);
    assert!(decrypt_jsb("错误密码", &blob).is_err());
    let _ = key;
}

#[test]
fn local_file_layout_and_errors() {
    let key = [7u8; 32];
    let blob = encrypt_bytes(&key, b"a.jsr", b"abc").unwrap();
    assert_eq!(&blob[0..4], b"JSR1");
    assert_eq!(blob[4], 1);
    // magic, version, 12-byte nonce, ciphertext with a 16-byte tag
    assert_eq!(blob.len(), 4 + 1 + 12 + 3 + 16);
    assert_eq!(decrypt_bytes(&key, b"a.jsr", b"JSR1").unwrap_err(), NOT_A_FILE);
    let mut wrong_magic = blob.clone();
    wrong_magic[0] = b'X';
    assert_eq!(decrypt_bytes(&key, b"a.jsr", &wrong_magic).unwrap_err(), NOT_A_FILE);
    let mut tampered = blob.clone();
    let last = tampered.len() - 1;
    tampered[last] ^= 1;
    assert_eq!(decrypt_bytes(&key, b"a.jsr", &tampered).unwrap_err(), DECRYPT_FAILED);
    // two encryptions of the same bytes differ (fresh nonces)
    let again = encrypt_bytes(&key, b"a.jsr", b"abc").unwrap();
    assert_ne!(blob, again);
}

#[test]
fn backup_errors() {
    assert_eq!(decrypt_jsb("pw", b"JSB1short").unwrap_err(), NOT_A_BACKUP);
    let blob = encrypt_jsb("pw", b"data").unwrap();
    assert_eq!(&blob[0..4], b"JSB1");
    assert_eq!(decrypt_jsb("other", &blob).unwrap_err(), WRONG_PASSWORD);
}

#[test]
fn fingerprint_is_sha256_prefix() {
    // SHA-256 of 32 zero bytes starts with 66687AADF862
    assert_eq!(fingerprint(&[0u8; 32]), "66687AADF862");
    assert_eq!(fingerprint(&[1u8; 32]).len(), 12);
    assert_ne!(fingerprint(&[0u8; 32]), fingerprint(&[1u8; 32]));
}

#[test]
fn password_key_depends_on_salt() {
    let a = derive_key_from_password("pw", b"0123456789abcdef").unwrap();
    let b = derive_key_from_password("pw", b"0123456789abcdef").unwrap();
    let c = derive_key_from_password("pw", b"fedcba9876543210").unwrap();
    assert_eq!(a, b);
    assert_ne!(a, c);
}

#[test]
fn encrypted_blob_length_and_fingerprint_shape() {
    let key = [7u8; 32];
    let plain = "第一章 少年出山\n他握紧了剑柄。".as_bytes();
    let blob = encrypt_bytes(&key, b"novel.jsr", plain).unwrap();
    assert_eq!(blob.len(), plain.len() + 33);
    assert_eq!(&blob[0..4], b"JSR1");
    let f = fingerprint(&key);
    assert_eq!(f.chars().count(), 12);
    assert!(f.chars().all(|c| c.is_ascii_digit() || ('A'..='F').contains(&c)));
}
