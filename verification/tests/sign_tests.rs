use latticed::sign::{
    checkpoint_at, create_checkpoint, decode_key_text, generate_keypair, keypair_text, load_signing_key,
    load_verifying_key, verify_checkpoint, Checkpoint, KeyError, SigningKey, VerifyingKey,
};

const RFC_SECRET: &str = "9d61b19deffd5a60ba844af492ec2cc44449c5697b326919703bac031cae7f60";
const RFC_PUBLIC: &str = "d75a980182b10ab7d54bfed3c964073a0ee172f3daa62325af021a68f707511a";

fn rfc_key() -> SigningKey {
    load_signing_key(RFC_SECRET).unwrap()
}

#[test]
fn test_keypair_files_written() {
    let (secret_text, public_text) = generate_keypair().unwrap();
    assert_eq!(secret_text.len(), 64);
    assert_eq!(public_text.len(), 64);
    let sk = load_signing_key(&secret_text).unwrap();
    let vk = load_verifying_key(&public_text).unwrap();
    assert_eq!(sk.verifying_key().to_bytes(), vk.to_bytes());
}

#[test]
fn test_checkpoint_roundtrip_verifies() {
    let (secret_text, public_text) = generate_keypair().unwrap();
    let sk = load_signing_key(&secret_text).unwrap();

    let cp = create_checkpoint(42, "ab".repeat(32).as_str(), &sk);
    assert_eq!(cp.height, 42);

    let vk = load_verifying_key(&public_text).unwrap();
    assert!(verify_checkpoint(&cp, &vk));
}

#[test]
fn test_tampered_height_fails_verification() {
    let (secret_text, public_text) = generate_keypair().unwrap();
    let sk = load_signing_key(&secret_text).unwrap();
    let vk = load_verifying_key(&public_text).unwrap();

    let mut cp = create_checkpoint(42, "ab".repeat(32).as_str(), &sk);
    cp.height = 43; // forged rollback attempt
    assert!(!verify_checkpoint(&cp, &vk));
}

#[test]
fn test_tampered_head_fails_verification() {
    let (secret_text, public_text) = generate_keypair().unwrap();
    let sk = load_signing_key(&secret_text).unwrap();
    let vk = load_verifying_key(&public_text).unwrap();

    let mut cp = create_checkpoint(42, "ab".repeat(32).as_str(), &sk);
    cp.head_hash = "cd".repeat(32); // fabricated chain head
    assert!(!verify_checkpoint(&cp, &vk));
}

#[test]
fn test_wrong_public_key_fails_verification() {
    let (secret1, _public1) = generate_keypair().unwrap();
    let (_secret2, public2) = generate_keypair().unwrap();

    let sk = load_signing_key(&secret1).unwrap();
    let wrong_vk = load_verifying_key(&public2).unwrap();

    let cp = create_checkpoint(7, "ab".repeat(32).as_str(), &sk);
    assert!(!verify_checkpoint(&cp, &wrong_vk));
}

#[test]
fn test_garbage_signature_fails_cleanly() {
    let (secret_text, public_text) = generate_keypair().unwrap();
    let sk = load_signing_key(&secret_text).unwrap();
    let vk = load_verifying_key(&public_text).unwrap();

    let mut cp = create_checkpoint(1, "ab".repeat(32).as_str(), &sk);
    cp.signature = "zz".repeat(64); // invalid hex length/content
    assert!(!verify_checkpoint(&cp, &vk));
}

#[test]
fn short_signature_fails_cleanly() {
    let sk = rfc_key();
    let vk = sk.verifying_key();
    let mut cp = create_checkpoint(1, "ab", &sk);
    cp.signature = "00".repeat(63);
    assert!(!verify_checkpoint(&cp, &vk));
}

#[test]
fn public_key_of_rfc8032_secret() {
    let sk = rfc_key();
    assert_eq!(hex::encode(sk.verifying_key().to_bytes()), RFC_PUBLIC);
    let vk = load_verifying_key(RFC_PUBLIC).unwrap();
    assert_eq!(vk.to_bytes(), sk.verifying_key().to_bytes());
}

#[test]
fn checkpoint_message_layout() {
    let cp = Checkpoint {
        height: 7,
        head_hash: "ab".to_string(),
        timestamp: -5,
        signature: String::new(),
    };
    assert_eq!(cp.message(), b"7|ab|-5".to_vec());
}

#[test]
fn checkpoint_at_signs_the_message_deterministically() {
    let sk = rfc_key();
    let cp = checkpoint_at(42, "ab".repeat(32).as_str(), 1700000000, &sk);
    assert_eq!(cp.height, 42);
    assert_eq!(cp.timestamp, 1700000000);
    assert_eq!(cp.head_hash, "ab".repeat(32));
    assert_eq!(
        cp.signature,
        "d76fb3a721a1ce5a231865f1e45ec1a1d35be4e5d1fc165af7792d66fe2f35cc7c98497ea7d145525524b65352fd0730a5594b21a1ebc607e02859a3fecd740f"
    );
    assert!(verify_checkpoint(&cp, &sk.verifying_key()));
}

#[test]
fn checkpoint_with_negative_timestamp_signs_its_message() {
    let sk = rfc_key();
    let cp = checkpoint_at(7, "ab".repeat(32).as_str(), -5, &sk);
    assert_eq!(
        cp.signature,
        "4a145d59be238e9e6acf6cab05d74c787fc56e61775fdcec42c7d00d64601fd8aec0874b1e77bf1f5a301ab8ef53e265dd1b90beede1463b564439c11a61a70f"
    );
}

#[test]
fn tampered_timestamp_fails_verification() {
    let sk = rfc_key();
    let mut cp = checkpoint_at(42, "ab", 100, &sk);
    cp.timestamp = 101;
    assert!(!verify_checkpoint(&cp, &sk.verifying_key()));
}

#[test]
fn key_text_may_be_surrounded_by_white_space() {
    let text = format!("  {}\n", RFC_SECRET);
    let bytes = decode_key_text(&text).unwrap();
    assert_eq!(hex::encode(bytes), RFC_SECRET);
    let upper = RFC_SECRET.to_uppercase();
    assert_eq!(decode_key_text(&upper).unwrap(), bytes);
    let unicode = format!("\u{3000}{}\u{a0}", RFC_SECRET);
    assert_eq!(decode_key_text(&unicode).unwrap(), bytes);
}

#[test]
fn key_text_errors() {
    assert_eq!(decode_key_text("xyz").err(), Some(KeyError::InvalidHex));
    assert_eq!(decode_key_text("abc").err(), Some(KeyError::InvalidHex));
    assert_eq!(decode_key_text("abcd").err(), Some(KeyError::WrongLength));
    assert_eq!(load_signing_key("zz").err(), Some(KeyError::InvalidHex));
    assert_eq!(load_verifying_key("00").err(), Some(KeyError::WrongLength));
    // y = 2 is not the y-coordinate of a curve point
    let not_a_point = format!("02{}", "00".repeat(31));
    assert_eq!(load_verifying_key(&not_a_point).err(), Some(KeyError::InvalidPoint));
    let mut raw = [0u8; 32];
    raw[0] = 2;
    assert!(VerifyingKey::from_bytes(raw).is_none());
}

#[test]
fn signing_key_bytes_roundtrip() {
    let bytes = [7u8; 32];
    assert_eq!(SigningKey::from_bytes(bytes).to_bytes(), bytes);
}

#[test]
fn keypair_text_of_rfc8032_secret() {
    let bytes = decode_key_text(RFC_SECRET).unwrap();
    let (secret_text, public_text) = keypair_text(bytes);
    assert_eq!(secret_text, RFC_SECRET);
    assert_eq!(public_text, RFC_PUBLIC);
    assert_eq!(load_signing_key(&secret_text).unwrap().to_bytes(), bytes);
}
