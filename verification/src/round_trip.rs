//! The law that ties sealing to verification: an envelope that was sealed
//! verifies, and verification gives back the manifest that was sealed.
//!
//! The law is stated on the JSON value that the text of an envelope stands
//! for. That the JSON parser reads this value from the text is the one step
//! of the round trip that rests on the parser and is not proved.

use crate::canonical::percent_text;
use crate::crypto_utils::{base64_bytes, material_fault};
use crate::decimal::{
    decimal_digits, fixed_digits, is_digit, lemma_decimal_round_trip, lemma_fixed_round_trip,
    lemma_millionths_round_trip, parse_decimal, parse_millionths, pow10,
};
use crate::envelope::{embedded, envelope_text, sealed_by, EnvelopeView};
use crate::event::EventView;
use crate::json::{json_document, member, JsonModel};
use crate::recovery::lemma_embedded_envelope_is_found;
use crate::manifest::{ManifestView, FULL_SHARE};
use crate::verification::{
    count_field, decoded_event, decoded_events, decoded_manifest, document_outcome,
    envelope_outcome, share_field, signature_outcome, structure_fault, text_field,
    VerificationView, VerifyError,
};
use vstd::prelude::*;
use vstd::utf8::{encode_utf8, is_ascii_chars, is_ascii_chars_encode_utf8};

verus! {

/// The text whose characters are the given ASCII bytes.
pub open spec fn ascii_text(bytes: Seq<u8>) -> Seq<char> {
    Seq::new(bytes.len(), |i: int| bytes[i] as char)
}

/// The JSON value that the canonical encoding of an event stands for. Its
/// members stand in ascending order of their keys, which is the order in
/// which the parser lists the members of an object.
pub open spec fn event_model(event: EventView) -> JsonModel {
    JsonModel::Object(
        seq![
            ("event_type"@, JsonModel::Text(event.event_type)),
            ("source"@, JsonModel::Text(event.source)),
            ("span_length"@, JsonModel::Number(ascii_text(decimal_digits(event.span_length)))),
            ("text_hash"@, JsonModel::Text(event.text_hash)),
            ("timestamp"@, JsonModel::Text(event.timestamp)),
        ],
    )
}

/// The JSON values that the canonical encodings of some events stand for.
pub open spec fn event_models(events: Seq<EventView>) -> Seq<JsonModel> {
    Seq::new(events.len(), |i: int| event_model(events[i]))
}

/// The JSON value that the canonical encoding of a manifest stands for.
pub open spec fn manifest_model(manifest: ManifestView) -> JsonModel {
    JsonModel::Object(
        seq![
            ("ai_percentage"@, JsonModel::Number(ascii_text(percent_text(manifest.ai_percentage)))),
            (
                "cited_percentage"@,
                JsonModel::Number(ascii_text(percent_text(manifest.cited_percentage))),
            ),
            ("events"@, JsonModel::Array(event_models(manifest.events))),
            (
                "human_percentage"@,
                JsonModel::Number(ascii_text(percent_text(manifest.human_percentage))),
            ),
            (
                "total_characters"@,
                JsonModel::Number(ascii_text(decimal_digits(manifest.total_characters))),
            ),
        ],
    )
}

/// The JSON value that the text of an envelope stands for.
pub open spec fn envelope_model(envelope: EnvelopeView) -> JsonModel {
    JsonModel::Object(
        seq![
            ("manifest"@, manifest_model(envelope.manifest)),
            ("public_key"@, JsonModel::Text(envelope.public_key)),
            ("signature"@, JsonModel::Text(envelope.signature)),
        ],
    )
}

/// The manifest is the value of some `ManifestData`: its shares are at most
/// one hundred percent and its counts fit `usize`.
pub open spec fn manifest_in_range(manifest: ManifestView) -> bool {
    &&& manifest.human_percentage <= FULL_SHARE
    &&& manifest.ai_percentage <= FULL_SHARE
    &&& manifest.cited_percentage <= FULL_SHARE
    &&& manifest.total_characters <= usize::MAX
    &&& forall|i: int|
        0 <= i < manifest.events.len() ==> (#[trigger] manifest.events[i]).span_length
            <= usize::MAX
}

/// The UTF-8 encoding of a text made of digits and points is the bytes it
/// was made of.
proof fn lemma_number_text_bytes(bytes: Seq<u8>)
    requires
        forall|i: int| 0 <= i < bytes.len() ==> is_digit(#[trigger] bytes[i]) || bytes[i] == 0x2e,
    ensures
        encode_utf8(ascii_text(bytes)) == bytes,
{
    let text = ascii_text(bytes);
    assert forall|i: int| 0 <= i < text.len() implies '\0' <= #[trigger] text[i] && text[i]
        <= '\u{7f}' by {
        assert(is_digit(bytes[i]) || bytes[i] == 0x2e);
        assert(text[i] == bytes[i] as char);
    }
    assert(is_ascii_chars(text));
    is_ascii_chars_encode_utf8(text);
    assert forall|i: int| 0 <= i < bytes.len() implies encode_utf8(text)[i] == bytes[i] by {
        assert(is_digit(bytes[i]) || bytes[i] == 0x2e);
        assert(text[i] as u8 == encode_utf8(text)[i]);
        assert(text[i] == bytes[i] as char);
    }
    assert(encode_utf8(text) =~= bytes);
}

/// A count that is written in its shortest decimal form reads back.
proof fn lemma_count_reads_back(n: nat)
    ensures
        parse_decimal(encode_utf8(ascii_text(decimal_digits(n)))) == Some(n),
{
    lemma_decimal_round_trip(n);
    lemma_number_text_bytes(decimal_digits(n));
}

/// A share that is written with six digits behind the point reads back.
proof fn lemma_share_reads_back(millionths: nat)
    ensures
        parse_millionths(encode_utf8(ascii_text(percent_text(millionths)))) == Some(millionths),
{
    let whole = decimal_digits(millionths / 1_000_000);
    let fraction = fixed_digits(millionths % 1_000_000, 6);
    let text = percent_text(millionths);
    assert(pow10(6) == 1_000_000) by {
        reveal_with_fuel(pow10, 7);
    }
    lemma_decimal_round_trip(millionths / 1_000_000);
    lemma_fixed_round_trip(millionths % 1_000_000, 6);
    assert forall|i: int| 0 <= i < text.len() implies is_digit(#[trigger] text[i]) || text[i]
        == 0x2e by {
        if i < whole.len() {
            assert(text[i] == whole[i]);
        } else if i > whole.len() {
            assert(text[i] == fraction[i - whole.len() - 1]);
        }
    }
    lemma_number_text_bytes(text);
    lemma_millionths_round_trip(millionths);
}

/// The member at an index is the one that a lookup finds, if no member in
/// front of it has the same key.
proof fn lemma_member_at(members: Seq<(Seq<char>, JsonModel)>, key: Seq<char>, at: int)
    requires
        0 <= at < members.len(),
        members[at].0 == key,
        forall|j: int| 0 <= j < at ==> (#[trigger] members[j]).0 != key,
    ensures
        member(members, key) == Some(members[at].1),
    decreases at,
{
    if at > 0 {
        let tail = members.drop_first();
        assert forall|j: int| 0 <= j < at - 1 implies (#[trigger] tail[j]).0 != key by {
            assert(tail[j] == members[j + 1]);
        }
        assert(members[0].0 != key);
        lemma_member_at(tail, key, at - 1);
    }
}

/// The keys of an event differ from each other.
proof fn lemma_event_keys_differ()
    ensures
        "timestamp"@ != "event_type"@,
        "timestamp"@ != "text_hash"@,
        "timestamp"@ != "source"@,
        "timestamp"@ != "span_length"@,
        "event_type"@ != "text_hash"@,
        "event_type"@ != "source"@,
        "event_type"@ != "span_length"@,
        "text_hash"@ != "source"@,
        "text_hash"@ != "span_length"@,
        "source"@ != "span_length"@,
{
    reveal_strlit("timestamp");
    reveal_strlit("event_type");
    reveal_strlit("text_hash");
    reveal_strlit("source");
    reveal_strlit("span_length");
    assert("timestamp"@.len() == 9);
    assert("event_type"@.len() == 10);
    assert("text_hash"@.len() == 9);
    assert("source"@.len() == 6);
    assert("span_length"@.len() == 11);
    assert("timestamp"@[1] == 'i');
    assert("text_hash"@[1] == 'e');
}

/// The keys of a manifest differ from each other.
proof fn lemma_manifest_keys_differ()
    ensures
        "human_percentage"@ != "ai_percentage"@,
        "human_percentage"@ != "cited_percentage"@,
        "human_percentage"@ != "total_characters"@,
        "human_percentage"@ != "events"@,
        "ai_percentage"@ != "cited_percentage"@,
        "ai_percentage"@ != "total_characters"@,
        "ai_percentage"@ != "events"@,
        "cited_percentage"@ != "total_characters"@,
        "cited_percentage"@ != "events"@,
        "total_characters"@ != "events"@,
{
    reveal_strlit("human_percentage");
    reveal_strlit("ai_percentage");
    reveal_strlit("cited_percentage");
    reveal_strlit("total_characters");
    reveal_strlit("events");
    assert("human_percentage"@.len() == 16);
    assert("ai_percentage"@.len() == 13);
    assert("cited_percentage"@.len() == 16);
    assert("total_characters"@.len() == 16);
    assert("events"@.len() == 6);
    assert("human_percentage"@[0] == 'h');
    assert("cited_percentage"@[0] == 'c');
    assert("total_characters"@[0] == 't');
}

/// The keys of an envelope differ from each other.
proof fn lemma_envelope_keys_differ()
    ensures
        "manifest"@ != "signature"@,
        "manifest"@ != "public_key"@,
        "signature"@ != "public_key"@,
{
    reveal_strlit("manifest");
    reveal_strlit("signature");
    reveal_strlit("public_key");
    assert("manifest"@.len() == 8);
    assert("signature"@.len() == 9);
    assert("public_key"@.len() == 10);
}

/// Decoding the JSON value of an event gives the event back.
pub proof fn lemma_event_round_trip(event: EventView)
    requires
        event.span_length <= usize::MAX,
    ensures
        decoded_event(event_model(event)) == Some(event),
{
    let members = event_model(event)->Object_0;
    lemma_event_keys_differ();
    lemma_member_at(members, "event_type"@, 0);
    lemma_member_at(members, "source"@, 1);
    lemma_member_at(members, "span_length"@, 2);
    lemma_member_at(members, "text_hash"@, 3);
    lemma_member_at(members, "timestamp"@, 4);
    lemma_count_reads_back(event.span_length);
}

/// Decoding the JSON values of some events gives the events back.
pub proof fn lemma_events_round_trip(events: Seq<EventView>)
    requires
        forall|i: int| 0 <= i < events.len() ==> (#[trigger] events[i]).span_length <= usize::MAX,
    ensures
        decoded_events(event_models(events)) == Some(events),
    decreases events.len(),
{
    let models = event_models(events);
    if events.len() > 0 {
        let front = events.drop_last();
        assert forall|i: int| 0 <= i < front.len() implies (#[trigger] front[i]).span_length
            <= usize::MAX by {
            assert(front[i] == events[i]);
        }
        lemma_events_round_trip(front);
        assert(models.drop_last() =~= event_models(front));
        assert(models.last() == event_model(events.last()));
        lemma_event_round_trip(events.last());
        assert(front.push(events.last()) =~= events);
    } else {
        assert(events =~= Seq::<EventView>::empty());
    }
}

/// Decoding the JSON value of a manifest gives the manifest back.
#[verifier::rlimit(30)]
pub proof fn lemma_manifest_round_trip(manifest: ManifestView)
    requires
        manifest_in_range(manifest),
    ensures
        decoded_manifest(manifest_model(manifest)) == Ok::<ManifestView, VerifyError>(manifest),
{
    let model = manifest_model(manifest);
    let members = model->Object_0;
    lemma_manifest_keys_differ();
    lemma_member_at(members, "ai_percentage"@, 0);
    lemma_member_at(members, "cited_percentage"@, 1);
    lemma_member_at(members, "events"@, 2);
    lemma_member_at(members, "human_percentage"@, 3);
    lemma_member_at(members, "total_characters"@, 4);
    lemma_share_reads_back(manifest.human_percentage);
    lemma_share_reads_back(manifest.ai_percentage);
    lemma_share_reads_back(manifest.cited_percentage);
    lemma_count_reads_back(manifest.total_characters);
    lemma_events_round_trip(manifest.events);
    assert(share_field(model, "human_percentage"@) == Some(manifest.human_percentage));
    assert(share_field(model, "ai_percentage"@) == Some(manifest.ai_percentage));
    assert(share_field(model, "cited_percentage"@) == Some(manifest.cited_percentage));
    assert(count_field(model, "total_characters"@) == Some(manifest.total_characters));
}

/// Verification of the value that the envelope's text stands for reports
/// `valid` and gives back the envelope's manifest and key.
pub open spec fn verifies(envelope: EnvelopeView) -> bool {
    envelope_outcome(envelope_model(envelope), None) == Ok::<VerificationView, VerifyError>(
        VerificationView {
            valid: true,
            public_key: envelope.public_key,
            manifest: envelope.manifest,
        },
    )
}

/// A sealed envelope verifies: for an envelope that carries a signature
/// made over its manifest and the verifying key of the same signing key,
/// verification of the value that its text stands for reports `valid` and
/// gives back the manifest and the key, whether the caller expects that key
/// or none.
#[verifier::rlimit(30)]
pub proof fn lemma_sealed_envelope_verifies(envelope: EnvelopeView, signing_key: Seq<u8>)
    requires
        sealed_by(envelope, signing_key),
        manifest_in_range(envelope.manifest),
    ensures
        verifies(envelope),
        envelope_outcome(envelope_model(envelope), Some(envelope.public_key)) == envelope_outcome(
            envelope_model(envelope),
            None,
        ),
{
    let model = envelope_model(envelope);
    let members = model->Object_0;
    let inner = manifest_model(envelope.manifest);
    lemma_envelope_keys_differ();
    lemma_member_at(members, "manifest"@, 0);
    lemma_member_at(members, "public_key"@, 1);
    lemma_member_at(members, "signature"@, 2);
    // the manifest has its four numeric members
    let inner_members = inner->Object_0;
    lemma_manifest_keys_differ();
    lemma_member_at(inner_members, "ai_percentage"@, 0);
    lemma_member_at(inner_members, "cited_percentage"@, 1);
    lemma_member_at(inner_members, "human_percentage"@, 3);
    lemma_member_at(inner_members, "total_characters"@, 4);
    assert(structure_fault(model) is None);
    assert(text_field(model, "signature"@) == Some(envelope.signature));
    assert(text_field(model, "public_key"@) == Some(envelope.public_key));
    lemma_manifest_round_trip(envelope.manifest);
    let key = base64_bytes(envelope.public_key).unwrap();
    let signature = base64_bytes(envelope.signature).unwrap();
    assert(material_fault(signature, key) is None);
    assert(signature_outcome(inner, envelope.public_key, key, signature) == Ok::<
        VerificationView,
        VerifyError,
    >(
        VerificationView {
            valid: true,
            public_key: envelope.public_key,
            manifest: envelope.manifest,
        },
    ));
}

/// The round trip through a document: an envelope that was sealed and
/// embedded is found, verifies, and gives back its manifest, provided that
/// the JSON parser reads the text of the envelope as the value that it
/// stands for. That proviso is the one step of the round trip that is not
/// proved here.
pub proof fn lemma_document_round_trip(envelope: EnvelopeView, signing_key: Seq<u8>)
    requires
        sealed_by(envelope, signing_key),
        manifest_in_range(envelope.manifest),
        json_document(envelope_text(envelope)) == Some(envelope_model(envelope)),
    ensures
        document_outcome(embedded(envelope), None) == Ok::<VerificationView, VerifyError>(
            VerificationView {
                valid: true,
                public_key: envelope.public_key,
                manifest: envelope.manifest,
            },
        ),
{
    lemma_embedded_envelope_is_found(envelope);
    lemma_sealed_envelope_verifies(envelope, signing_key);
}

/// The structure is validated before anything else: an envelope with a
/// structural fault is rejected with that fault, whatever its key and its
/// signature hold and whatever key the caller expects.
pub proof fn lemma_structure_is_checked_first(envelope: JsonModel, expected_key: Option<Seq<char>>)
    requires
        structure_fault(envelope) is Some,
    ensures
        envelope_outcome(envelope, expected_key) == Err::<VerificationView, VerifyError>(
            VerifyError::InvalidStructure(structure_fault(envelope).unwrap()),
        ),
{
}

/// An unexpected key is reported as such, whether or not the signature
/// would match: a well-formed envelope whose key is not the one the caller
/// expects gives `KeyMismatch`.
pub proof fn lemma_unexpected_key_is_a_mismatch(envelope: JsonModel, expected_key: Seq<char>)
    requires
        structure_fault(envelope) is None,
        text_field(envelope, "signature"@) is Some,
        text_field(envelope, "public_key"@) is Some,
        text_field(envelope, "public_key"@) != Some(expected_key),
    ensures
        envelope_outcome(envelope, Some(expected_key)) == Err::<VerificationView, VerifyError>(
            VerifyError::KeyMismatch,
        ),
{
}

/// A change to the manifest of a sealed envelope is never passed over: the
/// manifest that verification reports is the one that the envelope carries
/// when it is verified, and `valid` says whether the signature matches that
/// manifest.
pub proof fn lemma_reported_manifest_is_the_checked_one(
    envelope: JsonModel,
    expected_key: Option<Seq<char>>,
)
    ensures
        envelope_outcome(envelope, expected_key) matches Ok(result) ==> {
            &&& decoded_manifest(envelope.field("manifest"@).unwrap()) == Ok::<
                ManifestView,
                VerifyError,
            >(result.manifest)
            &&& base64_bytes(result.public_key) matches Some(key)
            &&& text_field(envelope, "signature"@) matches Some(signature_text)
            &&& base64_bytes(signature_text) matches Some(signature)
            &&& result.valid == crate::crypto_utils::ed25519_accepts(
                key,
                crate::canonical::canonical_encoding(result.manifest),
                signature,
            )
        },
{
}

} // verus!
