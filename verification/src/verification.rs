//! The verifier: reads the envelope of a published document, checks its
//! structure, and checks the signature over the canonical encoding of the
//! manifest it carries.
//!
//! Verification runs in stages, and each stage has its own errors:
//! extraction, structural validation, the optional key match, decoding of
//! key and signature, and the signature check itself. Nothing cryptographic
//! is computed before the structure has been validated.

use crate::bytes::text_equal;
use crate::canonical::{canonical_encoding, encode};
use crate::crypto_utils::{
    base64_bytes, base64_decode, check_material, ed25519_accepts, lemma_encoded_text_not_empty,
    material_fault, verify, CryptoError,
};
use crate::decimal::{parse_bounded, parse_decimal, parse_millionths, read_millionths};
use crate::event::{event_views, EventView, ProvenanceEvent};
use crate::json::{item_views, json_document, parse_json, JsonModel, JsonValue};
use crate::manifest::{ManifestData, ManifestView, Percentage, FULL_SHARE};
use crate::scan::{extract_envelope, extraction};
use vstd::prelude::*;
use vstd::string::StringExecFns;
use vstd::utf8::encode_utf8;

verus! {

/// A field of the envelope or of the manifest inside it.
#[derive(Clone, Copy, Debug, PartialEq, Eq, Structural)]
pub enum Field {
    /// The envelope as a whole.
    Envelope,
    Manifest,
    Signature,
    PublicKey,
    HumanPercentage,
    AiPercentage,
    CitedPercentage,
    TotalCharacters,
    Events,
}

impl Field {
    /// The key under which the field stands in the envelope.
    pub open spec fn name_text(self) -> Seq<char> {
        match self {
            Field::Envelope => "envelope"@,
            Field::Manifest => "manifest"@,
            Field::Signature => "signature"@,
            Field::PublicKey => "public_key"@,
            Field::HumanPercentage => "human_percentage"@,
            Field::AiPercentage => "ai_percentage"@,
            Field::CitedPercentage => "cited_percentage"@,
            Field::TotalCharacters => "total_characters"@,
            Field::Events => "events"@,
        }
    }

    /// The key under which the field stands in the envelope.
    pub fn name(&self) -> (text: &'static str)
        ensures
            text@ == self.name_text(),
    {
        match self {
            Field::Envelope => "envelope",
            Field::Manifest => "manifest",
            Field::Signature => "signature",
            Field::PublicKey => "public_key",
            Field::HumanPercentage => "human_percentage",
            Field::AiPercentage => "ai_percentage",
            Field::CitedPercentage => "cited_percentage",
            Field::TotalCharacters => "total_characters",
            Field::Events => "events",
        }
    }
}

/// Why a document could not be verified. A signature that does not match is
/// no error: it is the result `valid == false`.
#[derive(Clone, Copy, Debug, PartialEq, Eq, Structural)]
pub enum VerifyError {
    /// The document holds no marked envelope.
    NotFound,
    /// The envelope is never closed, or its text is not JSON.
    Malformed,
    /// A required field is missing or has the wrong shape.
    InvalidStructure(Field),
    /// The key that the caller expects is not the key of the envelope.
    KeyMismatch,
    /// The key or the signature of the envelope is malformed.
    Crypto(CryptoError),
}

impl VerifyError {
    /// The text that `message` returns for each error. It names the stage
    /// that failed, and for a structural error the field.
    pub open spec fn message_text(self) -> Seq<char> {
        match self {
            VerifyError::NotFound => "Extraction: no Sonnun manifest found in document"@,
            VerifyError::Malformed => "Extraction: invalid manifest JSON"@,
            VerifyError::InvalidStructure(field) => "Structural validation: missing or malformed '"@
                + field.name_text() + "' field"@,
            VerifyError::KeyMismatch =>
                "Key match: provided public key does not match document key"@,
            VerifyError::Crypto(e) => "Decoding: "@ + e.message_text(),
        }
    }

    /// A human-readable description of the error.
    pub fn message(&self) -> (text: String)
        ensures
            text@ == self.message_text(),
    {
        match self {
            VerifyError::NotFound => String::from_str(
                "Extraction: no Sonnun manifest found in document",
            ),
            VerifyError::Malformed => String::from_str("Extraction: invalid manifest JSON"),
            VerifyError::InvalidStructure(field) => {
                let mut text = String::from_str("Structural validation: missing or malformed '");
                text.append(field.name());
                text.append("' field");
                text
            },
            VerifyError::KeyMismatch => String::from_str(
                "Key match: provided public key does not match document key",
            ),
            VerifyError::Crypto(e) => {
                let mut text = String::from_str("Decoding: ");
                let detail = e.message();
                text.append(detail.as_str());
                text
            },
        }
    }
}

// ---------------------------------------------------------------------------
// Structural validation
// ---------------------------------------------------------------------------

/// The first thing that is missing from an envelope: the envelope must be
/// an object with the members `manifest`, `signature` and `public_key`, and
/// the manifest an object with the four numeric members.
pub open spec fn structure_fault(envelope: JsonModel) -> Option<Field> {
    if !(envelope is Object) {
        Some(Field::Envelope)
    } else if envelope.field("manifest"@) is None {
        Some(Field::Manifest)
    } else if envelope.field("signature"@) is None {
        Some(Field::Signature)
    } else if envelope.field("public_key"@) is None {
        Some(Field::PublicKey)
    } else {
        let manifest = envelope.field("manifest"@).unwrap();
        if !(manifest is Object) {
            Some(Field::Manifest)
        } else if manifest.field("human_percentage"@) is None {
            Some(Field::HumanPercentage)
        } else if manifest.field("ai_percentage"@) is None {
            Some(Field::AiPercentage)
        } else if manifest.field("cited_percentage"@) is None {
            Some(Field::CitedPercentage)
        } else if manifest.field("total_characters"@) is None {
            Some(Field::TotalCharacters)
        } else {
            None
        }
    }
}

/// Confirms that an envelope has its three members and that the manifest
/// inside has its four numeric members. The error names the first member
/// that is missing.
pub fn validate_manifest_structure(signed_manifest: &JsonValue) -> (r: Result<(), VerifyError>)
    ensures
        r == match structure_fault(signed_manifest@) {
            Some(field) => Err::<(), VerifyError>(VerifyError::InvalidStructure(field)),
            None => Ok::<(), VerifyError>(()),
        },
{
    if !signed_manifest.is_object() {
        return Err(VerifyError::InvalidStructure(Field::Envelope));
    }
    let manifest = match signed_manifest.get("manifest") {
        Some(manifest) => manifest,
        None => { return Err(VerifyError::InvalidStructure(Field::Manifest)); },
    };
    if signed_manifest.get("signature").is_none() {
        return Err(VerifyError::InvalidStructure(Field::Signature));
    }
    if signed_manifest.get("public_key").is_none() {
        return Err(VerifyError::InvalidStructure(Field::PublicKey));
    }
    if !manifest.is_object() {
        return Err(VerifyError::InvalidStructure(Field::Manifest));
    }
    if manifest.get("human_percentage").is_none() {
        return Err(VerifyError::InvalidStructure(Field::HumanPercentage));
    }
    if manifest.get("ai_percentage").is_none() {
        return Err(VerifyError::InvalidStructure(Field::AiPercentage));
    }
    if manifest.get("cited_percentage").is_none() {
        return Err(VerifyError::InvalidStructure(Field::CitedPercentage));
    }
    if manifest.get("total_characters").is_none() {
        return Err(VerifyError::InvalidStructure(Field::TotalCharacters));
    }
    Ok(())
}

// ---------------------------------------------------------------------------
// Typed decoding
// ---------------------------------------------------------------------------

/// The text of the member `key`, if it is there and is a string.
pub open spec fn text_field(model: JsonModel, key: Seq<char>) -> Option<Seq<char>> {
    match model.field(key) {
        Some(value) => value.text(),
        None => None,
    }
}

/// The count in the member `key`, if it is there and is a plain decimal
/// integer that fits `usize`.
pub open spec fn count_field(model: JsonModel, key: Seq<char>) -> Option<nat> {
    match model.field(key) {
        Some(JsonModel::Number(text)) => match parse_decimal(encode_utf8(text)) {
            Some(n) => if n <= usize::MAX {
                Some(n)
            } else {
                None
            },
            None => None,
        },
        _ => None,
    }
}

/// The share in the member `key`, in millionths of a percent, if it is
/// there and is a plain decimal number of at most one hundred with at most
/// six digits behind the point.
pub open spec fn share_field(model: JsonModel, key: Seq<char>) -> Option<nat> {
    match model.field(key) {
        Some(JsonModel::Number(text)) => match parse_millionths(encode_utf8(text)) {
            Some(n) => if n <= FULL_SHARE {
                Some(n)
            } else {
                None
            },
            None => None,
        },
        _ => None,
    }
}

/// The event that a JSON value stands for, if it has the five members of an
/// event with the right types.
pub open spec fn decoded_event(model: JsonModel) -> Option<EventView> {
    match (
        text_field(model, "timestamp"@),
        text_field(model, "event_type"@),
        text_field(model, "text_hash"@),
        text_field(model, "source"@),
        count_field(model, "span_length"@),
    ) {
        (
            Some(timestamp),
            Some(event_type),
            Some(text_hash),
            Some(source),
            Some(span_length),
        ) => Some(EventView { timestamp, event_type, text_hash, source, span_length }),
        _ => None,
    }
}

/// The events that a sequence of JSON values stands for, if each of them is
/// an event.
pub open spec fn decoded_events(items: Seq<JsonModel>) -> Option<Seq<EventView>>
    decreases items.len(),
{
    if items.len() == 0 {
        Some(Seq::empty())
    } else {
        match (decoded_events(items.drop_last()), decoded_event(items.last())) {
            (Some(front), Some(event)) => Some(front.push(event)),
            _ => None,
        }
    }
}

/// The manifest that a JSON value stands for, or the first member that is
/// missing or has the wrong shape.
pub open spec fn decoded_manifest(model: JsonModel) -> Result<ManifestView, VerifyError> {
    match share_field(model, "human_percentage"@) {
        None => Err(VerifyError::InvalidStructure(Field::HumanPercentage)),
        Some(human_percentage) => match share_field(model, "ai_percentage"@) {
            None => Err(VerifyError::InvalidStructure(Field::AiPercentage)),
            Some(ai_percentage) => match share_field(model, "cited_percentage"@) {
                None => Err(VerifyError::InvalidStructure(Field::CitedPercentage)),
                Some(cited_percentage) => match count_field(model, "total_characters"@) {
                    None => Err(VerifyError::InvalidStructure(Field::TotalCharacters)),
                    Some(total_characters) => match model.field("events"@) {
                        Some(JsonModel::Array(items)) => match decoded_events(items) {
                            Some(events) => Ok(
                                ManifestView {
                                    human_percentage,
                                    ai_percentage,
                                    cited_percentage,
                                    total_characters,
                                    events,
                                },
                            ),
                            None => Err(VerifyError::InvalidStructure(Field::Events)),
                        },
                        _ => Err(VerifyError::InvalidStructure(Field::Events)),
                    },
                },
            },
        },
    }
}

/// If one item is no event, the whole sequence stands for no events.
pub proof fn lemma_one_bad_event_spoils_all(items: Seq<JsonModel>, at: int)
    requires
        0 <= at < items.len(),
        decoded_event(items[at]) is None,
    ensures
        decoded_events(items) is None,
    decreases items.len(),
{
    if at < items.len() - 1 {
        assert(items.drop_last()[at] == items[at]);
        lemma_one_bad_event_spoils_all(items.drop_last(), at);
    }
}

fn read_text(value: &JsonValue, key: &str) -> (text: Option<String>)
    ensures
        match text {
            Some(t) => text_field(value@, key@) == Some(t@),
            None => text_field(value@, key@) is None,
        },
{
    match value.get(key) {
        Some(member) => match member.as_text() {
            Some(text) => Some(text.clone()),
            None => None,
        },
        None => None,
    }
}

fn read_count(value: &JsonValue, key: &str) -> (count: Option<usize>)
    ensures
        match count {
            Some(n) => count_field(value@, key@) == Some(n as nat),
            None => count_field(value@, key@) is None,
        },
{
    match value.get(key) {
        Some(member) => match member.as_number() {
            Some(text) => match parse_bounded(text.as_str().as_bytes(), usize::MAX as u64) {
                Some(n) => Some(n as usize),
                None => None,
            },
            None => None,
        },
        None => None,
    }
}

fn read_share(value: &JsonValue, key: &str) -> (share: Option<Percentage>)
    ensures
        match share {
            Some(p) => share_field(value@, key@) == Some(p@),
            None => share_field(value@, key@) is None,
        },
{
    match value.get(key) {
        Some(member) => match member.as_number() {
            Some(text) => match read_millionths(text.as_str().as_bytes(), FULL_SHARE) {
                Some(n) => Percentage::from_millionths(n),
                None => None,
            },
            None => None,
        },
        None => None,
    }
}

/// Decodes one event of the excerpt.
pub fn decode_event(value: &JsonValue) -> (event: Option<ProvenanceEvent>)
    ensures
        match event {
            Some(e) => decoded_event(value@) == Some(e@),
            None => decoded_event(value@) is None,
        },
{
    let timestamp = match read_text(value, "timestamp") {
        Some(text) => text,
        None => { return None; },
    };
    let event_type = match read_text(value, "event_type") {
        Some(text) => text,
        None => { return None; },
    };
    let text_hash = match read_text(value, "text_hash") {
        Some(text) => text,
        None => { return None; },
    };
    let source = match read_text(value, "source") {
        Some(text) => text,
        None => { return None; },
    };
    let span_length = match read_count(value, "span_length") {
        Some(n) => n,
        None => { return None; },
    };
    Some(ProvenanceEvent { timestamp, event_type, text_hash, source, span_length })
}

fn decode_events(items: &Vec<JsonValue>) -> (events: Option<Vec<ProvenanceEvent>>)
    ensures
        match events {
            Some(list) => decoded_events(item_views(items@)) == Some(event_views(list@)),
            None => decoded_events(item_views(items@)) is None,
        },
{
    let ghost models = item_views(items@);
    let mut events: Vec<ProvenanceEvent> = Vec::new();
    let mut i: usize = 0;
    proof {
        assert(models.take(0) =~= Seq::<JsonModel>::empty());
        assert(event_views(events@) =~= Seq::<EventView>::empty());
    }
    while i < items.len()
        invariant
            i <= items.len(),
            models == item_views(items@),
            decoded_events(models.take(i as int)) == Some(event_views(events@)),
        decreases items.len() - i,
    {
        let ghost before = event_views(events@);
        match decode_event(&items[i]) {
            Some(event) => {
                events.push(event);
                proof {
                    assert(models.take(i + 1).drop_last() =~= models.take(i as int));
                    assert(models.take(i + 1).last() == items[i as int]@);
                    assert(event_views(events@) =~= before.push(event@));
                }
            },
            None => {
                proof {
                    assert(models[i as int] == items[i as int]@);
                    lemma_one_bad_event_spoils_all(models, i as int);
                }
                return None;
            },
        }
        i += 1;
    }
    proof {
        assert(models.take(items.len() as int) =~= models);
    }
    Some(events)
}

/// Decodes the manifest of an envelope into its typed form.
pub fn decode_manifest(value: &JsonValue) -> (r: Result<ManifestData, VerifyError>)
    ensures
        match r {
            Ok(manifest) => decoded_manifest(value@) == Ok::<ManifestView, VerifyError>(manifest@),
            Err(e) => decoded_manifest(value@) == Err::<ManifestView, VerifyError>(e),
        },
{
    let human_percentage = match read_share(value, "human_percentage") {
        Some(share) => share,
        None => { return Err(VerifyError::InvalidStructure(Field::HumanPercentage)); },
    };
    let ai_percentage = match read_share(value, "ai_percentage") {
        Some(share) => share,
        None => { return Err(VerifyError::InvalidStructure(Field::AiPercentage)); },
    };
    let cited_percentage = match read_share(value, "cited_percentage") {
        Some(share) => share,
        None => { return Err(VerifyError::InvalidStructure(Field::CitedPercentage)); },
    };
    let total_characters = match read_count(value, "total_characters") {
        Some(n) => n,
        None => { return Err(VerifyError::InvalidStructure(Field::TotalCharacters)); },
    };
    let items = match value.get("events") {
        Some(member) => match member.as_items() {
            Some(items) => items,
            None => { return Err(VerifyError::InvalidStructure(Field::Events)); },
        },
        None => { return Err(VerifyError::InvalidStructure(Field::Events)); },
    };
    let events = match decode_events(items) {
        Some(events) => events,
        None => { return Err(VerifyError::InvalidStructure(Field::Events)); },
    };
    Ok(ManifestData { human_percentage, ai_percentage, cited_percentage, total_characters, events })
}

// ---------------------------------------------------------------------------
// Verification
// ---------------------------------------------------------------------------

/// What verification reports. The manifest and the key are reported whether
/// or not the signature is valid, so that a caller can show provenance that
/// is claimed but unverified; with `valid == false` they are not to be
/// trusted.
#[derive(Debug, PartialEq, Eq)]
pub struct VerificationResult {
    /// The signature matches the manifest under the envelope's key.
    pub valid: bool,
    /// The envelope's verifying key, in Base64.
    pub public_key: String,
    /// The manifest that the envelope carries.
    pub manifest: ManifestData,
}

/// The mathematical value of a `VerificationResult`.
pub struct VerificationView {
    pub valid: bool,
    pub public_key: Seq<char>,
    pub manifest: ManifestView,
}

impl View for VerificationResult {
    type V = VerificationView;

    open spec fn view(&self) -> VerificationView {
        VerificationView {
            valid: self.valid,
            public_key: self.public_key@,
            manifest: self.manifest@,
        }
    }
}

/// The value of a verification outcome.
pub open spec fn outcome_view(r: Result<VerificationResult, VerifyError>) -> Result<
    VerificationView,
    VerifyError,
> {
    match r {
        Ok(result) => Ok(result@),
        Err(e) => Err(e),
    }
}

/// The key that a caller expects, if any.
pub open spec fn expected_view(provided_key: Option<&String>) -> Option<Seq<char>> {
    match provided_key {
        Some(key) => Some(key@),
        None => None,
    }
}

/// What the last two stages answer for a manifest value with the decoded
/// key and signature: the manifest is decoded, encoded canonically, and the
/// signature is checked over that encoding.
pub open spec fn signature_outcome(
    manifest: JsonModel,
    key_text: Seq<char>,
    key: Seq<u8>,
    signature: Seq<u8>,
) -> Result<VerificationView, VerifyError> {
    match material_fault(signature, key) {
        Some(e) => Err(VerifyError::Crypto(e)),
        None => match decoded_manifest(manifest) {
            Err(e) => Err(e),
            Ok(decoded) => Ok(
                VerificationView {
                    valid: ed25519_accepts(key, canonical_encoding(decoded), signature),
                    public_key: key_text,
                    manifest: decoded,
                },
            ),
        },
    }
}

/// What verification answers for an envelope, stage by stage.
pub open spec fn envelope_outcome(envelope: JsonModel, expected_key: Option<Seq<char>>) -> Result<
    VerificationView,
    VerifyError,
> {
    match structure_fault(envelope) {
        Some(field) => Err(VerifyError::InvalidStructure(field)),
        None => match text_field(envelope, "signature"@) {
            None => Err(VerifyError::InvalidStructure(Field::Signature)),
            Some(signature_text) => match text_field(envelope, "public_key"@) {
                None => Err(VerifyError::InvalidStructure(Field::PublicKey)),
                Some(key_text) => if expected_key is Some && expected_key != Some(key_text) {
                    Err(VerifyError::KeyMismatch)
                } else {
                    match base64_bytes(key_text) {
                        None => Err(VerifyError::Crypto(CryptoError::InvalidPublicKeyEncoding)),
                        Some(key) => match base64_bytes(signature_text) {
                            None => Err(
                                VerifyError::Crypto(CryptoError::InvalidSignatureEncoding),
                            ),
                            Some(signature) => signature_outcome(
                                envelope.field("manifest"@).unwrap(),
                                key_text,
                                key,
                                signature,
                            ),
                        },
                    }
                },
            },
        },
    }
}

/// What verification answers for a document.
pub open spec fn document_outcome(document: Seq<u8>, expected_key: Option<Seq<char>>) -> Result<
    VerificationView,
    VerifyError,
> {
    match extraction(document) {
        Err(e) => Err(e),
        Ok(text) => match json_document(text) {
            None => Err(VerifyError::Malformed),
            Some(envelope) => envelope_outcome(envelope, expected_key),
        },
    }
}

/// The canonical encoding of a manifest is never empty.
pub proof fn lemma_encoding_not_empty(manifest: ManifestView)
    ensures
        canonical_encoding(manifest).len() > 0,
{
    reveal(canonical_encoding);
    reveal_strlit("{\"human_percentage\":");
    lemma_encoded_text_not_empty("{\"human_percentage\":"@);
}

/// The last two stages of verification: decodes the manifest, encodes it
/// canonically and checks the signature over the encoding.
pub fn check_signature(
    manifest: &JsonValue,
    public_key: String,
    key: Vec<u8>,
    signature: Vec<u8>,
) -> (r: Result<VerificationResult, VerifyError>)
    ensures
        outcome_view(r) == signature_outcome(manifest@, public_key@, key@, signature@),
{
    match check_material(signature.as_slice(), key.as_slice()) {
        Some(e) => { return Err(VerifyError::Crypto(e)); },
        None => {},
    }
    let decoded = match decode_manifest(manifest) {
        Ok(decoded) => decoded,
        Err(e) => { return Err(e); },
    };
    let canonical = encode(&decoded);
    proof {
        lemma_encoding_not_empty(decoded@);
    }
    match verify(canonical.as_slice(), signature.as_slice(), key.as_slice()) {
        Ok(valid) => Ok(VerificationResult { valid, public_key, manifest: decoded }),
        Err(e) => Err(VerifyError::Crypto(e)),
    }
}

/// Verifies an envelope that has been parsed: validates its structure,
/// matches the key against the one the caller expects, decodes key and
/// signature, and checks the signature over the canonical encoding of the
/// manifest.
pub fn verify_envelope(envelope: &JsonValue, provided_key: Option<&String>) -> (r: Result<
    VerificationResult,
    VerifyError,
>)
    ensures
        outcome_view(r) == envelope_outcome(envelope@, expected_view(provided_key)),
{
    match validate_manifest_structure(envelope) {
        Err(e) => { return Err(e); },
        Ok(()) => {},
    }
    let signature_text = match read_text(envelope, "signature") {
        Some(text) => text,
        None => { return Err(VerifyError::InvalidStructure(Field::Signature)); },
    };
    let key_text = match read_text(envelope, "public_key") {
        Some(text) => text,
        None => { return Err(VerifyError::InvalidStructure(Field::PublicKey)); },
    };
    match provided_key {
        Some(expected) => {
            if !text_equal(expected.as_str(), key_text.as_str()) {
                return Err(VerifyError::KeyMismatch);
            }
        },
        None => {},
    }
    let key = match base64_decode(key_text.as_str()) {
        Some(bytes) => bytes,
        None => { return Err(VerifyError::Crypto(CryptoError::InvalidPublicKeyEncoding)); },
    };
    let signature = match base64_decode(signature_text.as_str()) {
        Some(bytes) => bytes,
        None => { return Err(VerifyError::Crypto(CryptoError::InvalidSignatureEncoding)); },
    };
    match envelope.get("manifest") {
        Some(manifest) => check_signature(manifest, key_text, key, signature),
        None => Err(VerifyError::InvalidStructure(Field::Manifest)),
    }
}

/// Verifies the text of an envelope: parses it and verifies the value.
pub fn verify_envelope_text(text: &[u8], provided_key: Option<&String>) -> (r: Result<
    VerificationResult,
    VerifyError,
>)
    ensures
        outcome_view(r) == match json_document(text@) {
            None => Err::<VerificationView, VerifyError>(VerifyError::Malformed),
            Some(envelope) => envelope_outcome(envelope, expected_view(provided_key)),
        },
{
    match parse_json(text) {
        Some(envelope) => verify_envelope(&envelope, provided_key),
        None => Err(VerifyError::Malformed),
    }
}

/// Verifies a published document: locates the envelope, parses it and
/// verifies it. Where `provided_key` is given, the envelope must carry
/// exactly that key.
pub fn verify_document(content: &str, provided_key: Option<&String>) -> (r: Result<
    VerificationResult,
    VerifyError,
>)
    ensures
        outcome_view(r) == document_outcome(encode_utf8(content@), expected_view(provided_key)),
{
    match extract_envelope(content.as_bytes()) {
        Ok(text) => verify_envelope_text(text.as_slice(), provided_key),
        Err(e) => Err(e),
    }
}

} // verus!
