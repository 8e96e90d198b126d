//! The identity and signing primitive: content digests, key pairs, Ed25519
//! signatures and their verification.
//!
//! SHA-256, Base64 and Ed25519 are computed by the `sha2`, `base64` and
//! `ed25519-dalek` crates. Each call stands behind a small trusted function
//! whose contract names the result; everything around the calls is verified.

use base64::Engine;
use ed25519_dalek::{Signer, Verifier};
use rand::RngCore;
use sha2::Digest;
use vstd::prelude::*;
use vstd::string::StringExecFns;
use vstd::utf8::{encode_utf8, is_ascii_chars};

verus! {

/// Number of bytes in a SHA-256 digest.
pub const DIGEST_LENGTH: usize = 32;

/// Number of bytes in an Ed25519 signing key (its seed).
pub const SIGNING_KEY_LENGTH: usize = 32;

/// Number of bytes in an Ed25519 verifying key.
pub const VERIFYING_KEY_LENGTH: usize = 32;

/// Number of bytes in an Ed25519 signature.
pub const SIGNATURE_LENGTH: usize = 64;

/// Why a signing primitive refused its input.
#[derive(Clone, Copy, Debug, PartialEq, Eq, Structural)]
pub enum CryptoError {
    /// The content to sign or verify is empty.
    EmptyContent,
    /// The signing key is not exactly 32 bytes long.
    InvalidPrivateKeyLength,
    /// The verifying key is not valid Base64.
    InvalidPublicKeyEncoding,
    /// The signature is not valid Base64.
    InvalidSignatureEncoding,
    /// The verifying key is not exactly 32 bytes long.
    InvalidPublicKeyLength,
    /// The verifying key's 32 bytes do not encode a curve point.
    InvalidPublicKeyFormat,
    /// The signature is not exactly 64 bytes long.
    InvalidSignatureLength,
    /// The operating system's random source failed.
    RandomSourceFailed,
}

impl CryptoError {
    /// The text that `message` returns for each error.
    pub open spec fn message_text(self) -> Seq<char> {
        match self {
            CryptoError::EmptyContent => "Content cannot be empty"@,
            CryptoError::InvalidPrivateKeyLength => "Invalid private key length"@,
            CryptoError::InvalidPublicKeyEncoding => "Invalid public key encoding"@,
            CryptoError::InvalidSignatureEncoding => "Invalid signature encoding"@,
            CryptoError::InvalidPublicKeyLength => "Invalid public key length"@,
            CryptoError::InvalidPublicKeyFormat => "Invalid public key format"@,
            CryptoError::InvalidSignatureLength => "Invalid signature length"@,
            CryptoError::RandomSourceFailed => "Random source failed"@,
        }
    }

    /// A human-readable description of the error.
    pub fn message(&self) -> (text: String)
        ensures
            text@ == self.message_text(),
    {
        match self {
            CryptoError::EmptyContent => String::from_str("Content cannot be empty"),
            CryptoError::InvalidPrivateKeyLength => String::from_str("Invalid private key length"),
            CryptoError::InvalidPublicKeyEncoding => String::from_str(
                "Invalid public key encoding",
            ),
            CryptoError::InvalidSignatureEncoding => String::from_str(
                "Invalid signature encoding",
            ),
            CryptoError::InvalidPublicKeyLength => String::from_str("Invalid public key length"),
            CryptoError::InvalidPublicKeyFormat => String::from_str("Invalid public key format"),
            CryptoError::InvalidSignatureLength => String::from_str("Invalid signature length"),
            CryptoError::RandomSourceFailed => String::from_str("Random source failed"),
        }
    }
}

// ---------------------------------------------------------------------------
// Names for what the outside crates compute
// ---------------------------------------------------------------------------

/// The SHA-256 digest of `data`.
pub uninterp spec fn sha256_digest(data: Seq<u8>) -> Seq<u8>;

/// The standard padded Base64 text of `data`.
pub uninterp spec fn base64_text(data: Seq<u8>) -> Seq<char>;

/// The bytes that `text` stands for in standard padded Base64, if it is valid.
pub uninterp spec fn base64_bytes(text: Seq<char>) -> Option<Seq<u8>>;

/// The Ed25519 verifying key that belongs to the signing key `seed`.
pub uninterp spec fn ed25519_public_key(seed: Seq<u8>) -> Seq<u8>;

/// The Ed25519 signature of `message` under the signing key `seed`.
pub uninterp spec fn ed25519_signature(seed: Seq<u8>, message: Seq<u8>) -> Seq<u8>;

/// The 32 bytes `public_key` encode a point of the curve.
pub uninterp spec fn ed25519_key_valid(public_key: Seq<u8>) -> bool;

/// Ed25519 verification accepts `signature` for `message` under `public_key`.
pub uninterp spec fn ed25519_accepts(
    public_key: Seq<u8>,
    message: Seq<u8>,
    signature: Seq<u8>,
) -> bool;

// ---------------------------------------------------------------------------
// Trusted calls
// ---------------------------------------------------------------------------

/// Specifies `String::push` of the standard library: the character is
/// appended at the end.
pub assume_specification[ String::push ](text: &mut String, c: char)
    ensures
        final(text)@ == old(text)@.push(c),
;

/// Calls `sha2::Sha256::digest`. Trusted: the result is the SHA-256 digest
/// of the input, which is always 32 bytes long.
#[verifier::external_body]
fn sha256(data: &[u8]) -> (digest: Vec<u8>)
    ensures
        digest@ == sha256_digest(data@),
        digest@.len() == DIGEST_LENGTH,
{
    sha2::Sha256::digest(data).to_vec()
}

/// Calls `Engine::encode` of `base64` on its `STANDARD` engine. Trusted: the
/// result is the Base64 text of the input, and decoding that text with the
/// same engine gives the input back. The crate panics when the encoded
/// length overflows `usize`, which the bound on the input rules out.
#[verifier::external_body]
pub(crate) fn base64_encode(data: &[u8]) -> (text: String)
    requires
        data@.len() <= usize::MAX / 2,
    ensures
        text@ == base64_text(data@),
        base64_bytes(text@) == Some(data@),
{
    base64::engine::general_purpose::STANDARD.encode(data)
}

/// Calls `Engine::decode` of `base64` on its `STANDARD` engine. Trusted: the
/// result is the decoded bytes, or `None` where the text is not valid Base64.
#[verifier::external_body]
pub(crate) fn base64_decode(text: &str) -> (data: Option<Vec<u8>>)
    ensures
        bytes_view(data) == base64_bytes(text@),
{
    match base64::engine::general_purpose::STANDARD.decode(text) {
        Ok(bytes) => Some(bytes),
        Err(_) => None,
    }
}

/// Calls `try_fill_bytes` of `rand::rngs::OsRng` on a 32-byte buffer.
/// Trusted: on success the buffer holds 32 bytes. Nothing is claimed about
/// their values, and two calls may differ.
#[verifier::external_body]
fn random_seed() -> (seed: Option<Vec<u8>>)
    ensures
        seed matches Some(s) ==> s@.len() == SIGNING_KEY_LENGTH,
{
    let mut buffer = [0u8; 32];
    match rand::rngs::OsRng.try_fill_bytes(&mut buffer) {
        Ok(()) => Some(buffer.to_vec()),
        Err(_) => None,
    }
}

/// Calls `SigningKey::from_bytes` and `SigningKey::verifying_key` of
/// `ed25519-dalek`. Trusted: the result is the 32-byte verifying key of the
/// seed, and it decodes as a verifying key.
#[verifier::external_body]
fn ed25519_derive_public(seed: &[u8]) -> (public_key: Vec<u8>)
    requires
        seed@.len() == SIGNING_KEY_LENGTH,
    ensures
        public_key@ == ed25519_public_key(seed@),
        public_key@.len() == VERIFYING_KEY_LENGTH,
        ed25519_key_valid(public_key@),
{
    let key: [u8; 32] = seed.try_into().unwrap();
    ed25519_dalek::SigningKey::from_bytes(&key).verifying_key().to_bytes().to_vec()
}

/// Calls `Signer::sign` of `ed25519-dalek` on the signing key made from the
/// seed. Trusted: the result is the 64-byte signature of the message, and
/// verification under the seed's verifying key accepts it.
#[verifier::external_body]
fn ed25519_sign(seed: &[u8], message: &[u8]) -> (signature: Vec<u8>)
    requires
        seed@.len() == SIGNING_KEY_LENGTH,
    ensures
        signature@ == ed25519_signature(seed@, message@),
        signature@.len() == SIGNATURE_LENGTH,
        ed25519_accepts(ed25519_public_key(seed@), message@, signature@),
{
    let key: [u8; 32] = seed.try_into().unwrap();
    ed25519_dalek::SigningKey::from_bytes(&key).sign(message).to_bytes().to_vec()
}

/// Calls `VerifyingKey::from_bytes` of `ed25519-dalek`. Trusted: the result
/// says whether the 32 bytes decode as a verifying key.
#[verifier::external_body]
fn ed25519_key_decodes(public_key: &[u8]) -> (valid: bool)
    requires
        public_key@.len() == VERIFYING_KEY_LENGTH,
    ensures
        valid == ed25519_key_valid(public_key@),
{
    let key: [u8; 32] = public_key.try_into().unwrap();
    ed25519_dalek::VerifyingKey::from_bytes(&key).is_ok()
}

/// Calls `Verifier::verify` of `ed25519-dalek` on the verifying key decoded
/// from `public_key`. Trusted: the result says whether verification accepts
/// the signature; a signature that does not match gives `false`.
#[verifier::external_body]
fn ed25519_verify(public_key: &[u8], message: &[u8], signature: &[u8]) -> (accepted: bool)
    requires
        public_key@.len() == VERIFYING_KEY_LENGTH,
        signature@.len() == SIGNATURE_LENGTH,
        ed25519_key_valid(public_key@),
    ensures
        accepted == ed25519_accepts(public_key@, message@, signature@),
{
    let key: [u8; 32] = public_key.try_into().unwrap();
    let sig: [u8; 64] = signature.try_into().unwrap();
    let verifying_key = ed25519_dalek::VerifyingKey::from_bytes(&key).unwrap();
    verifying_key.verify(message, &ed25519_dalek::Signature::from_bytes(&sig)).is_ok()
}

// ---------------------------------------------------------------------------
// Views of results
// ---------------------------------------------------------------------------

/// The contents of an optional byte vector.
pub open spec fn bytes_view(data: Option<Vec<u8>>) -> Option<Seq<u8>> {
    match data {
        Some(bytes) => Some(bytes@),
        None => None,
    }
}

/// The contents of a result that carries text.
pub open spec fn text_result(r: Result<String, CryptoError>) -> Result<Seq<char>, CryptoError> {
    match r {
        Ok(text) => Ok(text@),
        Err(e) => Err(e),
    }
}

/// The contents of a result that carries bytes.
pub open spec fn bytes_result(r: Result<Vec<u8>, CryptoError>) -> Result<Seq<u8>, CryptoError> {
    match r {
        Ok(bytes) => Ok(bytes@),
        Err(e) => Err(e),
    }
}

// ---------------------------------------------------------------------------
// Hexadecimal digests
// ---------------------------------------------------------------------------

/// The lower-case hexadecimal digit of a value below 16.
pub open spec fn hex_digit(nibble: u8) -> char
    recommends
        nibble < 16,
{
    if nibble < 10 {
        (48 + nibble) as u8 as char
    } else {
        (87 + nibble) as u8 as char
    }
}

/// The lower-case hexadecimal text of `bytes`: two digits per byte, the high
/// half first.
pub open spec fn hex_lower(bytes: Seq<u8>) -> Seq<char> {
    Seq::new(
        2 * bytes.len(),
        |i: int|
            if i % 2 == 0 {
                hex_digit(bytes[i / 2] / 16)
            } else {
                hex_digit(bytes[i / 2] % 16)
            },
    )
}

/// `c` is one of `0`-`9` or `a`-`f`.
pub open spec fn is_lower_hex(c: char) -> bool {
    ('0' <= c && c <= '9') || ('a' <= c && c <= 'f')
}

/// `text` has the shape of a hex-encoded SHA-256 digest: 64 lower-case
/// hexadecimal digits.
pub open spec fn is_digest_text(text: Seq<char>) -> bool {
    &&& text.len() == 2 * DIGEST_LENGTH
    &&& forall|i: int| 0 <= i < text.len() ==> is_lower_hex(#[trigger] text[i])
}

fn hex_digit_of(nibble: u8) -> (c: char)
    requires
        nibble < 16,
    ensures
        c == hex_digit(nibble),
        is_lower_hex(c),
{
    if nibble < 10 {
        (48 + nibble) as char
    } else {
        (87 + nibble) as char
    }
}

/// Writes `bytes` as lower-case hexadecimal text.
pub fn to_hex(bytes: &[u8]) -> (text: String)
    ensures
        text@ == hex_lower(bytes@),
        text@.len() == 2 * bytes@.len(),
        forall|i: int| 0 <= i < text@.len() ==> is_lower_hex(#[trigger] text@[i]),
{
    let mut text = String::new();
    let mut k: usize = 0;
    while k < bytes.len()
        invariant
            k <= bytes.len(),
            text@.len() == 2 * k,
            forall|i: int|
                0 <= i < text@.len() ==> #[trigger] text@[i] == hex_lower(bytes@)[i],
            forall|i: int| 0 <= i < text@.len() ==> is_lower_hex(#[trigger] text@[i]),
        decreases bytes.len() - k,
    {
        let b: u8 = bytes[k];
        let high = hex_digit_of(b / 16);
        let low = hex_digit_of(b % 16);
        text.push(high);
        text.push(low);
        k += 1;
    }
    proof {
        assert(text@ =~= hex_lower(bytes@));
    }
    text
}

/// Tests whether `text` has the shape of a hex-encoded SHA-256 digest.
pub fn is_digest(text: &str) -> (ok: bool)
    ensures
        ok == is_digest_text(text@),
{
    broadcast use vstd::string::is_ascii_spec_bytes;

    if !text.is_ascii() {
        proof {
            let i = choose|i: int|
                0 <= i < text@.len() && !('\0' <= #[trigger] text@[i] && text@[i] <= '\u{7f}');
            assert(!is_lower_hex(text@[i]));
        }
        return false;
    }
    let bytes = text.as_bytes();
    if bytes.len() != 64 {
        return false;
    }
    let mut k: usize = 0;
    while k < 64
        invariant
            k <= 64,
            bytes@.len() == 64,
            text@.len() == 64,
            is_ascii_chars(text@),
            bytes@ == Seq::new(text@.len(), |i: int| text@[i] as u8),
            forall|i: int| 0 <= i < k ==> is_lower_hex(#[trigger] text@[i]),
        decreases 64 - k,
    {
        let b: u8 = bytes[k];
        proof {
            assert(b == text@[k as int] as u8);
            assert('\0' <= text@[k as int] <= '\u{7f}');
        }
        if !((48 <= b && b <= 57) || (97 <= b && b <= 102)) {
            proof {
                assert(!is_lower_hex(text@[k as int]));
            }
            return false;
        }
        k += 1;
    }
    true
}

/// The SHA-256 digest of `text`, as 64 lower-case hexadecimal digits.
pub fn hash_text(text: &str) -> (digest: String)
    ensures
        digest@ == hex_lower(sha256_digest(encode_utf8(text@))),
        is_digest_text(digest@),
{
    let digest = sha256(text.as_bytes());
    to_hex(digest.as_slice())
}

// ---------------------------------------------------------------------------
// Signing and verification on bytes
// ---------------------------------------------------------------------------

/// What `sign` returns for each input.
pub open spec fn sign_outcome(message: Seq<u8>, signing_key: Seq<u8>) -> Result<
    Seq<u8>,
    CryptoError,
> {
    if message.len() == 0 {
        Err(CryptoError::EmptyContent)
    } else if signing_key.len() != SIGNING_KEY_LENGTH {
        Err(CryptoError::InvalidPrivateKeyLength)
    } else {
        Ok(ed25519_signature(signing_key, message))
    }
}

/// What is wrong with a verifying key and a signature before any message is
/// looked at: the first of a key of the wrong length, a key that is no curve
/// point, and a signature of the wrong length.
pub open spec fn material_fault(signature: Seq<u8>, verifying_key: Seq<u8>) -> Option<CryptoError> {
    if verifying_key.len() != VERIFYING_KEY_LENGTH {
        Some(CryptoError::InvalidPublicKeyLength)
    } else if !ed25519_key_valid(verifying_key) {
        Some(CryptoError::InvalidPublicKeyFormat)
    } else if signature.len() != SIGNATURE_LENGTH {
        Some(CryptoError::InvalidSignatureLength)
    } else {
        None
    }
}

/// What `verify` returns for each input.
pub open spec fn verify_outcome(
    message: Seq<u8>,
    signature: Seq<u8>,
    verifying_key: Seq<u8>,
) -> Result<bool, CryptoError> {
    if message.len() == 0 {
        Err(CryptoError::EmptyContent)
    } else {
        match material_fault(signature, verifying_key) {
            Some(e) => Err(e),
            None => Ok(ed25519_accepts(verifying_key, message, signature)),
        }
    }
}

/// `signature` is a well-formed signature of `message` that verification
/// accepts under the verifying key of `signing_key`.
pub open spec fn signed_by(message: Seq<u8>, signature: Seq<u8>, signing_key: Seq<u8>) -> bool {
    &&& message.len() > 0
    &&& signing_key.len() == SIGNING_KEY_LENGTH
    &&& signature.len() == SIGNATURE_LENGTH
    &&& ed25519_accepts(ed25519_public_key(signing_key), message, signature)
}

/// `verifying_key` is the well-formed verifying key of `signing_key`.
pub open spec fn key_of(verifying_key: Seq<u8>, signing_key: Seq<u8>) -> bool {
    &&& signing_key.len() == SIGNING_KEY_LENGTH
    &&& verifying_key == ed25519_public_key(signing_key)
    &&& verifying_key.len() == VERIFYING_KEY_LENGTH
    &&& ed25519_key_valid(verifying_key)
}

/// Signs `message` with the 32-byte signing key.
///
/// Signing is deterministic. It fails only on an empty message or a key of
/// the wrong length. The signature returned is one that verification accepts
/// under the key's verifying key.
pub fn sign(message: &[u8], signing_key: &[u8]) -> (r: Result<Vec<u8>, CryptoError>)
    ensures
        bytes_result(r) == sign_outcome(message@, signing_key@),
        r matches Ok(signature) ==> signed_by(message@, signature@, signing_key@),
{
    if message.len() == 0 {
        return Err(CryptoError::EmptyContent);
    }
    if signing_key.len() != SIGNING_KEY_LENGTH {
        return Err(CryptoError::InvalidPrivateKeyLength);
    }
    Ok(ed25519_sign(signing_key, message))
}

/// The verifying key of a 32-byte signing key.
pub fn verifying_key_of(signing_key: &[u8]) -> (r: Result<Vec<u8>, CryptoError>)
    ensures
        bytes_result(r) == if signing_key@.len() == SIGNING_KEY_LENGTH {
            Ok::<Seq<u8>, CryptoError>(ed25519_public_key(signing_key@))
        } else {
            Err::<Seq<u8>, CryptoError>(CryptoError::InvalidPrivateKeyLength)
        },
        r matches Ok(key) ==> key_of(key@, signing_key@),
{
    if signing_key.len() != SIGNING_KEY_LENGTH {
        return Err(CryptoError::InvalidPrivateKeyLength);
    }
    Ok(ed25519_derive_public(signing_key))
}

/// Checks that a verifying key and a signature are well formed.
pub fn check_material(signature: &[u8], verifying_key: &[u8]) -> (fault: Option<CryptoError>)
    ensures
        fault == material_fault(signature@, verifying_key@),
{
    if verifying_key.len() != VERIFYING_KEY_LENGTH {
        return Some(CryptoError::InvalidPublicKeyLength);
    }
    if !ed25519_key_decodes(verifying_key) {
        return Some(CryptoError::InvalidPublicKeyFormat);
    }
    if signature.len() != SIGNATURE_LENGTH {
        return Some(CryptoError::InvalidSignatureLength);
    }
    None
}

/// Checks `signature` against `message` under `verifying_key`.
///
/// A signature that does not match is the ordinary result `Ok(false)`; only
/// malformed input is an error.
pub fn verify(message: &[u8], signature: &[u8], verifying_key: &[u8]) -> (r: Result<
    bool,
    CryptoError,
>)
    ensures
        r == verify_outcome(message@, signature@, verifying_key@),
{
    if message.len() == 0 {
        return Err(CryptoError::EmptyContent);
    }
    match check_material(signature, verifying_key) {
        Some(e) => Err(e),
        None => Ok(ed25519_verify(verifying_key, message, signature)),
    }
}

/// A signature made by `sign` verifies under the verifying key of the same
/// signing key: for every non-empty message, `verify(m, sign(m, sk), pk)` is
/// `Ok(true)`.
pub proof fn lemma_signature_verifies(
    message: Seq<u8>,
    signature: Seq<u8>,
    signing_key: Seq<u8>,
    verifying_key: Seq<u8>,
)
    requires
        signed_by(message, signature, signing_key),
        key_of(verifying_key, signing_key),
    ensures
        verify_outcome(message, signature, verifying_key) == Ok::<bool, CryptoError>(true),
{
}

/// On well-formed input verification never fails with an error: it answers
/// `Ok(true)` or `Ok(false)`.
pub proof fn lemma_well_formed_input_gets_an_answer(
    message: Seq<u8>,
    signature: Seq<u8>,
    verifying_key: Seq<u8>,
)
    requires
        message.len() > 0,
        signature.len() == SIGNATURE_LENGTH,
        verifying_key.len() == VERIFYING_KEY_LENGTH,
        ed25519_key_valid(verifying_key),
    ensures
        verify_outcome(message, signature, verifying_key) is Ok,
{
}

// ---------------------------------------------------------------------------
// Signing and verification on text
// ---------------------------------------------------------------------------

/// What `sign_document` returns for each input.
pub open spec fn signing_outcome(content: Seq<char>, signing_key: Seq<u8>) -> Result<
    Seq<char>,
    CryptoError,
> {
    match sign_outcome(encode_utf8(content), signing_key) {
        Ok(signature) => Ok(base64_text(signature)),
        Err(e) => Err(e),
    }
}

/// What `verify_signature` returns for each input.
pub open spec fn verification_outcome(
    content: Seq<char>,
    signature_text: Seq<char>,
    public_key_text: Seq<char>,
) -> Result<bool, CryptoError> {
    if content.len() == 0 {
        Err(CryptoError::EmptyContent)
    } else {
        match base64_bytes(public_key_text) {
            None => Err(CryptoError::InvalidPublicKeyEncoding),
            Some(public_key) => match base64_bytes(signature_text) {
                None => Err(CryptoError::InvalidSignatureEncoding),
                Some(signature) => verify_outcome(encode_utf8(content), signature, public_key),
            },
        }
    }
}

/// `signature_text` is the Base64 text of a signature of `content` that
/// verification accepts under the verifying key of `signing_key`.
pub open spec fn document_signed_by(
    content: Seq<char>,
    signature_text: Seq<char>,
    signing_key: Seq<u8>,
) -> bool {
    match base64_bytes(signature_text) {
        Some(signature) => signed_by(encode_utf8(content), signature, signing_key),
        None => false,
    }
}

/// The two texts are the Base64 forms of a 32-byte signing key and of its
/// verifying key.
pub open spec fn is_keypair(private_text: Seq<char>, public_text: Seq<char>) -> bool {
    match base64_bytes(private_text) {
        Some(seed) => {
            &&& private_text == base64_text(seed)
            &&& public_text == base64_text(ed25519_public_key(seed))
            &&& base64_bytes(public_text) == Some(ed25519_public_key(seed))
            &&& key_of(ed25519_public_key(seed), seed)
        },
        None => false,
    }
}

/// The UTF-8 encoding of a non-empty text is not empty.
pub proof fn lemma_encoded_text_not_empty(content: Seq<char>)
    ensures
        (encode_utf8(content).len() == 0) == (content.len() == 0),
{
    if content.len() > 0 {
        vstd::utf8::encode_utf8_first_scalar(content);
    } else {
        assert(encode_utf8(content).len() == 0);
    }
}

/// Signs the text of a document and returns the signature in Base64.
pub fn sign_document(content: String, private_key_bytes: Vec<u8>) -> (r: Result<
    String,
    CryptoError,
>)
    ensures
        text_result(r) == signing_outcome(content@, private_key_bytes@),
        r matches Ok(signature) ==> document_signed_by(content@, signature@, private_key_bytes@),
{
    proof {
        lemma_encoded_text_not_empty(content@);
    }
    match sign(content.as_str().as_bytes(), private_key_bytes.as_slice()) {
        Ok(signature) => Ok(base64_encode(signature.as_slice())),
        Err(e) => Err(e),
    }
}

/// Builds the Base64 key pair that belongs to a 32-byte signing key: the
/// key itself and its verifying key. Fails only on a key of the wrong
/// length.
pub fn keypair_from_seed(seed: &[u8]) -> (r: Result<(String, String), CryptoError>)
    ensures
        match r {
            Ok(pair) => {
                &&& seed@.len() == SIGNING_KEY_LENGTH
                &&& pair.0@ == base64_text(seed@)
                &&& pair.1@ == base64_text(ed25519_public_key(seed@))
                &&& is_keypair(pair.0@, pair.1@)
            },
            Err(e) => seed@.len() != SIGNING_KEY_LENGTH && e
                == CryptoError::InvalidPrivateKeyLength,
        },
{
    if seed.len() != SIGNING_KEY_LENGTH {
        return Err(CryptoError::InvalidPrivateKeyLength);
    }
    let public_key = ed25519_derive_public(seed);
    let private_text = base64_encode(seed);
    let public_text = base64_encode(public_key.as_slice());
    Ok((private_text, public_text))
}

/// Generates a fresh Ed25519 key pair from the operating system's random
/// source and returns `(signing key, verifying key)` in Base64.
///
/// The only failure is a failing random source. Whatever seed was drawn, the
/// two texts form a key pair.
pub fn generate_keypair() -> (r: Result<(String, String), CryptoError>)
    ensures
        match r {
            Ok(pair) => is_keypair(pair.0@, pair.1@),
            Err(e) => e == CryptoError::RandomSourceFailed,
        },
{
    match random_seed() {
        Some(seed) => keypair_from_seed(seed.as_slice()),
        None => Err(CryptoError::RandomSourceFailed),
    }
}

/// Checks a Base64 signature against the text of a document under a Base64
/// verifying key.
pub fn verify_signature(content: String, signature_b64: String, public_key_b64: String) -> (r:
    Result<bool, CryptoError>)
    ensures
        r == verification_outcome(content@, signature_b64@, public_key_b64@),
{
    if content.as_str().is_empty() {
        return Err(CryptoError::EmptyContent);
    }
    let public_key = match base64_decode(public_key_b64.as_str()) {
        Some(bytes) => bytes,
        None => { return Err(CryptoError::InvalidPublicKeyEncoding); },
    };
    let signature = match base64_decode(signature_b64.as_str()) {
        Some(bytes) => bytes,
        None => { return Err(CryptoError::InvalidSignatureEncoding); },
    };
    proof {
        lemma_encoded_text_not_empty(content@);
    }
    verify(content.as_str().as_bytes(), signature.as_slice(), public_key.as_slice())
}

/// A document signed by `sign_document` verifies under the verifying key of
/// a key pair made from the same signing key: `verify_signature` answers
/// `Ok(true)`.
pub proof fn lemma_signed_document_verifies(
    content: Seq<char>,
    signature_text: Seq<char>,
    private_text: Seq<char>,
    public_text: Seq<char>,
)
    requires
        is_keypair(private_text, public_text),
        document_signed_by(content, signature_text, base64_bytes(private_text).unwrap()),
    ensures
        verification_outcome(content, signature_text, public_text) == Ok::<bool, CryptoError>(
            true,
        ),
{
    lemma_encoded_text_not_empty(content);
}

} // verus!
