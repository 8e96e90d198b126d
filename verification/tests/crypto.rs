use base64::Engine;
use sonnun::crypto_utils::{
    generate_keypair, hash_text, is_digest, keypair_from_seed, sign, sign_document, to_hex,
    verify, verify_signature, verifying_key_of, CryptoError,
};

fn decode_base64(text: &str) -> Option<Vec<u8>> {
    base64::engine::general_purpose::STANDARD.decode(text).ok()
}

#[test]
fn lib_test_hash_text() {
    let text = "Hello, world!";
    let hash = hash_text(text);
    assert_eq!(hash.len(), 64);
    assert_eq!(hash, hash_text(text));
}

#[test]
fn test_core_test_hash_text() {
    let text = "Hello, world!";
    let hash = hash_text(text);
    assert_eq!(hash.len(), 64);
    assert_eq!(hash, hash_text(text));
}

#[test]
fn hash_text_matches_known_digests() {
    assert_eq!(
        hash_text("Hello, world!"),
        "315f5bdb76d078c43b8ac0064e4a0164612b1fce77c869345bfc94c75894edd3"
    );
    assert_eq!(
        hash_text(""),
        "e3b0c44298fc1c149afbf4c8996fb92427ae41e4649b934ca495991b7852b855"
    );
}

#[test]
fn lib_test_generate_keypair() {
    let result = generate_keypair();
    assert!(result.is_ok());

    let (private_key, public_key) = result.unwrap();
    assert!(!private_key.is_empty());
    assert!(!public_key.is_empty());

    assert!(decode_base64(&private_key).is_some());
    assert!(decode_base64(&public_key).is_some());
}

#[test]
fn test_core_test_generate_keypair() {
    let result = generate_keypair();
    assert!(result.is_ok());
    let (private_key, public_key) = result.unwrap();
    assert!(!private_key.is_empty());
    assert!(!public_key.is_empty());
    assert!(decode_base64(&private_key).is_some());
    assert!(decode_base64(&public_key).is_some());
}

#[test]
fn generated_keys_have_the_fixed_lengths_and_differ() {
    let (private_a, public_a) = generate_keypair().unwrap();
    let (private_b, _) = generate_keypair().unwrap();
    assert_eq!(decode_base64(&private_a).unwrap().len(), 32);
    assert_eq!(decode_base64(&public_a).unwrap().len(), 32);
    assert_ne!(private_a, private_b);
}

#[test]
fn lib_test_sign_and_verify_document() {
    let content = "This is a test document.";
    let (private_key_b64, public_key_b64) = generate_keypair().unwrap();
    let private_key_bytes = decode_base64(&private_key_b64).unwrap();

    let signature_result = sign_document(content.to_string(), private_key_bytes);
    assert!(signature_result.is_ok());

    let signature = signature_result.unwrap();

    let verification_result = verify_signature(content.to_string(), signature, public_key_b64);
    assert!(verification_result.is_ok());
    assert!(verification_result.unwrap());
}

#[test]
fn test_core_test_sign_and_verify_document() {
    let content = "This is a test document.";
    let (private_key_b64, public_key_b64) = generate_keypair().unwrap();
    let private_key_bytes = decode_base64(&private_key_b64).unwrap();
    let signature = sign_document(content.to_string(), private_key_bytes).unwrap();
    let result = verify_signature(content.to_string(), signature, public_key_b64).unwrap();
    assert!(result);
}

#[test]
fn lib_test_sign_document_validation() {
    let result = sign_document("".to_string(), vec![0; 32]);
    assert!(result.is_err());
    assert!(result.unwrap_err().message().contains("Content cannot be empty"));

    let result = sign_document("test".to_string(), vec![0; 10]);
    assert!(result.is_err());
    assert!(result.unwrap_err().message().contains("Invalid private key length"));
}

#[test]
fn test_core_test_sign_document_validation() {
    let result = sign_document("".to_string(), vec![0; 32]);
    assert!(result.is_err());
    let result = sign_document("test".to_string(), vec![0; 10]);
    assert!(result.is_err());
}

#[test]
fn lib_test_verify_signature_validation() {
    let result = verify_signature("".to_string(), "sig".to_string(), "key".to_string());
    assert!(result.is_err());
    assert!(result.unwrap_err().message().contains("Content cannot be empty"));

    let result = verify_signature(
        "test".to_string(),
        "invalid_base64!".to_string(),
        "key".to_string(),
    );
    assert!(result.is_err());
}

#[test]
fn test_core_test_verify_signature_validation() {
    let result = verify_signature("".to_string(), "sig".to_string(), "key".to_string());
    assert!(result.is_err());
    let result = verify_signature(
        "test".to_string(),
        "invalid_base64!".to_string(),
        "key".to_string(),
    );
    assert!(result.is_err());
}

// RFC 8032, section 7.1, test 2: a one-byte message.
const RFC_SEED: [u8; 32] = [
    0x4c, 0xcd, 0x08, 0x9b, 0x28, 0xff, 0x96, 0xda, 0x9d, 0xb6, 0xc3, 0x46, 0xec, 0x11, 0x4e,
    0x0f, 0x5b, 0x8a, 0x31, 0x9f, 0x35, 0xab, 0xa6, 0x24, 0xda, 0x8c, 0xf6, 0xed, 0x4f, 0xb8,
    0xa6, 0xfb,
];
const RFC_PUBLIC: [u8; 32] = [
    0x3d, 0x40, 0x17, 0xc3, 0xe8, 0x43, 0x89, 0x5a, 0x92, 0xb7, 0x0a, 0xa7, 0x4d, 0x1b, 0x7e,
    0xbc, 0x9c, 0x98, 0x2c, 0xcf, 0x2e, 0xc4, 0x96, 0x8c, 0xc0, 0xcd, 0x55, 0xf1, 0x2a, 0xf4,
    0x66, 0x0c,
];
const RFC_SIGNATURE: [u8; 64] = [
    0x92, 0xa0, 0x09, 0xa9, 0xf0, 0xd4, 0xca, 0xb8, 0x72, 0x0e, 0x82, 0x0b, 0x5f, 0x64, 0x25,
    0x40, 0xa2, 0xb2, 0x7b, 0x54, 0x16, 0x50, 0x3f, 0x8f, 0xb3, 0x76, 0x22, 0x23, 0xeb, 0xdb,
    0x69, 0xda, 0x08, 0x5a, 0xc1, 0xe4, 0x3e, 0x15, 0x99, 0x6e, 0x45, 0x8f, 0x36, 0x13, 0xd0,
    0xf1, 0x1d, 0x8c, 0x38, 0x7b, 0x2e, 0xae, 0xb4, 0x30, 0x2a, 0xee, 0xb0, 0x0d, 0x29, 0x16,
    0x12, 0xbb, 0x0c, 0x00,
];

#[test]
fn sign_gives_the_published_signature() {
    let signature = sign(&[0x72], &RFC_SEED).unwrap();
    assert_eq!(signature, RFC_SIGNATURE.to_vec());
    assert_eq!(verifying_key_of(&RFC_SEED).unwrap(), RFC_PUBLIC.to_vec());
    assert_eq!(
        verifying_key_of(&RFC_SEED[..5]),
        Err(CryptoError::InvalidPrivateKeyLength)
    );
    assert_eq!(verify(&[0x72], &signature, &RFC_PUBLIC), Ok(true));
}

#[test]
fn sign_is_deterministic() {
    let first = sign(b"provenance", &RFC_SEED).unwrap();
    let second = sign(b"provenance", &RFC_SEED).unwrap();
    assert_eq!(first, second);
    assert_ne!(first, b"provenance".to_vec());
}

#[test]
fn tampering_gives_false_not_an_error() {
    let message = b"This is a test document.".to_vec();
    let signature = sign(&message, &RFC_SEED).unwrap();
    assert_eq!(verify(&message, &signature, &RFC_PUBLIC), Ok(true));

    for i in 0..message.len() {
        let mut changed = message.clone();
        changed[i] ^= 0x01;
        assert_eq!(verify(&changed, &signature, &RFC_PUBLIC), Ok(false));
    }
    for i in 0..signature.len() {
        let mut changed = signature.clone();
        changed[i] ^= 0x01;
        assert_eq!(verify(&message, &changed, &RFC_PUBLIC), Ok(false));
    }
    let (_, other_public) = generate_keypair().unwrap();
    let other = decode_base64(&other_public).unwrap();
    assert_eq!(verify(&message, &signature, &other), Ok(false));
}

#[test]
fn each_malformed_input_has_its_error() {
    let signature = sign(b"m", &RFC_SEED).unwrap();
    assert_eq!(sign(b"", &RFC_SEED), Err(CryptoError::EmptyContent));
    assert_eq!(sign(b"m", &RFC_SEED[..31]), Err(CryptoError::InvalidPrivateKeyLength));
    assert_eq!(verify(b"", &signature, &RFC_PUBLIC), Err(CryptoError::EmptyContent));
    assert_eq!(
        verify(b"m", &signature, &RFC_PUBLIC[..31]),
        Err(CryptoError::InvalidPublicKeyLength)
    );
    assert_eq!(
        verify(b"m", &signature[..63], &RFC_PUBLIC),
        Err(CryptoError::InvalidSignatureLength)
    );
    // y = 2 is not the y-coordinate of any curve point
    let mut off_curve = [0u8; 32];
    off_curve[0] = 2;
    assert_eq!(
        verify(b"m", &signature, &off_curve),
        Err(CryptoError::InvalidPublicKeyFormat)
    );

    let key_text = base64::engine::general_purpose::STANDARD.encode(RFC_PUBLIC);
    let signature_text = base64::engine::general_purpose::STANDARD.encode(&signature);
    assert_eq!(
        verify_signature("m".to_string(), signature_text.clone(), "@@@".to_string()),
        Err(CryptoError::InvalidPublicKeyEncoding)
    );
    assert_eq!(
        verify_signature("m".to_string(), "@@@".to_string(), key_text.clone()),
        Err(CryptoError::InvalidSignatureEncoding)
    );
    assert_eq!(
        verify_signature("m".to_string(), signature_text, key_text),
        Ok(true)
    );
}

#[test]
fn error_messages_are_fixed() {
    assert_eq!(CryptoError::EmptyContent.message(), "Content cannot be empty");
    assert_eq!(CryptoError::InvalidPrivateKeyLength.message(), "Invalid private key length");
    assert_eq!(CryptoError::InvalidPublicKeyEncoding.message(), "Invalid public key encoding");
    assert_eq!(CryptoError::InvalidSignatureEncoding.message(), "Invalid signature encoding");
    assert_eq!(CryptoError::InvalidPublicKeyLength.message(), "Invalid public key length");
    assert_eq!(CryptoError::InvalidPublicKeyFormat.message(), "Invalid public key format");
    assert_eq!(CryptoError::InvalidSignatureLength.message(), "Invalid signature length");
    assert_eq!(CryptoError::RandomSourceFailed.message(), "Random source failed");
}

#[test]
fn key_pair_of_a_known_seed() {
    let (private_text, public_text) = keypair_from_seed(&RFC_SEED).unwrap();
    assert_eq!(private_text, "TM0Imyj/ltqdtsNG7BFOD1uKMZ81q6Yk2oz27U+4pvs=");
    assert_eq!(public_text, "PUAXw+hDiVqStwqnTRt+vJyYLM8uxJaMwM1V8Sr0Zgw=");
    assert_eq!(decode_base64(&private_text).unwrap(), RFC_SEED.to_vec());
    assert_eq!(decode_base64(&public_text).unwrap(), RFC_PUBLIC.to_vec());
    assert_eq!(
        keypair_from_seed(&[0u8; 33]),
        Err(CryptoError::InvalidPrivateKeyLength)
    );
}

#[test]
fn hexadecimal_text_and_the_shape_of_a_digest() {
    assert_eq!(to_hex(&[]), "");
    assert_eq!(to_hex(&[0x00, 0x0f, 0xa0, 0xff, 0x9c]), "000fa0ff9c");
    assert!(is_digest(&hash_text("anything")));
    assert!(is_digest(&"0123456789abcdef".repeat(4)));
    assert!(!is_digest(&"0123456789ABCDEF".repeat(4)));
    assert!(!is_digest(&"0123456789abcdef".repeat(3)));
    assert!(!is_digest(&"g".repeat(64)));
    assert!(!is_digest(&"é".repeat(32)));
    assert!(!is_digest(""));
}
