//! What is embedded is found again: the scan of a document recovers the
//! text that was embedded, and the text of an envelope can be embedded as it
//! is, because it never holds a `<`.

use crate::bytes::{has_prefix_at, lemma_first_byte};
use crate::canonical::{
    canonical_encoding, canonical_event, canonical_items, escape_byte, escaped, json_string,
    percent_text,
};
use crate::decimal::{
    decimal_digits, fixed_digits, is_digit, lemma_decimal_round_trip, lemma_fixed_round_trip,
    pow10,
};
use crate::envelope::{embedded, envelope_text, EnvelopeView};
use crate::event::EventView;
use crate::manifest::ManifestView;
use crate::scan::{
    after_spaces, attributes_written, before_spaces, extraction, first_occurrence, is_space,
    lemma_marker_read, marker_at, trimmed, WrittenAttribute,
};
use crate::verification::VerifyError;
use vstd::prelude::*;
use vstd::string::StringSliceAdditionalSpecFns;
use vstd::utf8::is_ascii_chars_encode_utf8;

verus! {

/// The text holds no `<` and no control byte, so it can stand inside a
/// `script` element and holds no white space but the space itself.
pub open spec fn plain(text: Seq<u8>) -> bool {
    forall|i: int| 0 <= i < text.len() ==> #[trigger] text[i] != 0x3c && text[i] >= 0x20
}

/// Joining plain texts gives a plain text.
proof fn lemma_plain_join(a: Seq<u8>, b: Seq<u8>)
    requires
        plain(a),
        plain(b),
    ensures
        plain(a + b),
{
    assert forall|i: int| 0 <= i < (a + b).len() implies #[trigger] (a + b)[i] != 0x3c && (a
        + b)[i] >= 0x20 by {
        if i < a.len() {
            assert((a + b)[i] == a[i]);
        } else {
            assert((a + b)[i] == b[i - a.len()]);
        }
    }
}

// ---------------------------------------------------------------------------
// The scan
// ---------------------------------------------------------------------------

/// An occurrence with none in front of it is the first.
proof fn lemma_first_occurrence_is(doc: Seq<u8>, from: int, pattern: Seq<u8>, at: int)
    requires
        0 <= from <= at <= doc.len(),
        has_prefix_at(doc, at, pattern),
        forall|p: int| from <= p < at ==> !has_prefix_at(doc, p, pattern),
    ensures
        first_occurrence(doc, from, pattern) == Some(at),
    decreases at - from,
{
    if from < at {
        lemma_first_occurrence_is(doc, from + 1, pattern, at);
    }
}

/// A document that starts with the opening tag, as `embed` writes it, has
/// its marker at the front, and its envelope starts behind the tag.
#[verifier::rlimit(30)]
proof fn lemma_marker_at_front(rest: Seq<u8>)
    ensures
        "<script type=\"application/json\" id=\"sonnun-manifest\">".spec_bytes().len() == 53,
        marker_at(
            "<script type=\"application/json\" id=\"sonnun-manifest\">".spec_bytes() + rest,
            0,
        ) == Some(53int),
{
    let open = "<script type=\"application/json\" id=\"sonnun-manifest\">".spec_bytes();
    let doc = open + rest;
    reveal_strlit("<script type=\"application/json\" id=\"sonnun-manifest\">");
    reveal_strlit("<script");
    reveal_strlit("type");
    reveal_strlit("application/json");
    reveal_strlit("id");
    reveal_strlit("sonnun-manifest");
    is_ascii_chars_encode_utf8("<script type=\"application/json\" id=\"sonnun-manifest\">"@);
    is_ascii_chars_encode_utf8("<script"@);
    is_ascii_chars_encode_utf8("type"@);
    is_ascii_chars_encode_utf8("application/json"@);
    is_ascii_chars_encode_utf8("id"@);
    is_ascii_chars_encode_utf8("sonnun-manifest"@);
    assert(open.len() == 53);
    assert forall|i: int| 0 <= i < 53 implies #[trigger] doc[i] == open[i] by {}
    assert(has_prefix_at(doc, 0, "<script".spec_bytes())) by {
        assert(doc.subrange(0, 7) =~= "<script".spec_bytes());
    }
    let first = WrittenAttribute { name_start: 8, name_end: 12, equals: 12, quote: 13, close: 30 };
    let second = WrittenAttribute {
        name_start: 32,
        name_end: 34,
        equals: 34,
        quote: 35,
        close: 51,
    };
    assert(first.written_in(doc));
    assert(second.written_in(doc));
    assert(first.is_type(doc)) by {
        assert(doc.subrange(8, 12) =~= "type".spec_bytes());
        assert(doc.subrange(14, 30) =~= "application/json".spec_bytes());
    }
    assert(second.is_id(doc)) by {
        assert(doc.subrange(32, 34) =~= "id".spec_bytes());
        assert(doc.subrange(36, 51) =~= "sonnun-manifest".spec_bytes());
    }
    let attributes = seq![first, second];
    assert(attributes_written(doc, 7, attributes, 53)) by {
        let after_first = attributes.drop_first();
        assert(after_first[0] == second);
        assert(after_first.drop_first() =~= Seq::<WrittenAttribute>::empty());
        assert(attributes_written(doc, 52, after_first.drop_first(), 53));
        assert(attributes_written(doc, 31, after_first, 53));
    }
    assert(attributes[0].is_type(doc));
    assert(attributes[1].is_id(doc));
    lemma_marker_read(doc, 0, attributes, 53);
}

/// Extraction recovers what was embedded: for every plain text, the scan of
/// the element that carries it answers the text, without the white space
/// around it.
#[verifier::rlimit(30)]
pub proof fn lemma_embedded_text_is_found(text: Seq<u8>)
    requires
        plain(text),
    ensures
        extraction(
            "<script type=\"application/json\" id=\"sonnun-manifest\">".spec_bytes() + text
                + "</script>".spec_bytes(),
        ) == Ok::<Seq<u8>, VerifyError>(trimmed(text)),
{
    let open = "<script type=\"application/json\" id=\"sonnun-manifest\">".spec_bytes();
    let close = "</script>".spec_bytes();
    let doc = open + text + close;
    lemma_marker_at_front(text + close);
    assert(doc =~= open + (text + close));
    reveal_strlit("</script>");
    lemma_first_byte("</script>"@, '<');
    let end: int = 53 + text.len() as int;
    assert(has_prefix_at(doc, end, close)) by {
        assert(doc.subrange(end, end + close.len()) =~= close);
    }
    assert forall|p: int| 53 <= p < end implies !has_prefix_at(doc, p, close) by {
        assert(doc[p] == text[p - 53]);
        if has_prefix_at(doc, p, close) {
            assert(doc.subrange(p, p + close.len())[0] == doc[p]);
        }
    }
    lemma_first_occurrence_is(doc, 53, close, end);
    assert(doc.subrange(53, end) =~= text);
}

// ---------------------------------------------------------------------------
// The text of an envelope
// ---------------------------------------------------------------------------

/// Decimal numbers are plain.
proof fn lemma_digits_plain(n: nat)
    ensures
        plain(decimal_digits(n)),
{
    lemma_decimal_round_trip(n);
    let digits = decimal_digits(n);
    assert forall|i: int| 0 <= i < digits.len() implies #[trigger] digits[i] != 0x3c && digits[i]
        >= 0x20 by {
        assert(is_digit(digits[i]));
    }
}

/// Shares are plain.
proof fn lemma_percent_plain(millionths: nat)
    ensures
        plain(percent_text(millionths)),
{
    assert(pow10(6) == 1_000_000) by {
        reveal_with_fuel(pow10, 7);
    }
    lemma_digits_plain(millionths / 1_000_000);
    lemma_fixed_round_trip(millionths % 1_000_000, 6);
    let fraction = fixed_digits(millionths % 1_000_000, 6);
    assert forall|i: int| 0 <= i < fraction.len() implies #[trigger] fraction[i] != 0x3c
        && fraction[i] >= 0x20 by {
        assert(is_digit(fraction[i]));
    }
    lemma_plain_join(decimal_digits(millionths / 1_000_000), seq![0x2eu8]);
    lemma_plain_join(decimal_digits(millionths / 1_000_000) + seq![0x2eu8], fraction);
}

/// Strings are plain, whatever they hold: every `<` and every control byte
/// in them is escaped.
proof fn lemma_escaped_plain(bytes: Seq<u8>)
    ensures
        plain(escaped(bytes)),
    decreases bytes.len(),
{
    if bytes.len() > 0 {
        lemma_escaped_plain(bytes.drop_last());
        lemma_plain_join(escaped(bytes.drop_last()), escape_byte(bytes.last()));
    }
}

proof fn lemma_string_plain(text: Seq<char>)
    ensures
        plain(json_string(text)),
{
    let inner = escaped(vstd::utf8::encode_utf8(text));
    lemma_escaped_plain(vstd::utf8::encode_utf8(text));
    lemma_plain_join(seq![0x22u8], inner);
    lemma_plain_join(seq![0x22u8] + inner, seq![0x22u8]);
}

/// The keys and brackets that the encodings are written with are plain.
proof fn lemma_pieces_plain()
    ensures
        plain("{\"timestamp\":".spec_bytes()),
        plain(",\"event_type\":".spec_bytes()),
        plain(",\"text_hash\":".spec_bytes()),
        plain(",\"source\":".spec_bytes()),
        plain(",\"span_length\":".spec_bytes()),
        plain("}".spec_bytes()),
        plain(",".spec_bytes()),
        plain("{\"human_percentage\":".spec_bytes()),
        plain(",\"ai_percentage\":".spec_bytes()),
        plain(",\"cited_percentage\":".spec_bytes()),
        plain(",\"total_characters\":".spec_bytes()),
        plain(",\"events\":[".spec_bytes()),
        plain("]}".spec_bytes()),
        plain("{\"manifest\":".spec_bytes()),
        plain(",\"signature\":".spec_bytes()),
        plain(",\"public_key\":".spec_bytes()),
{
    reveal_strlit("{\"timestamp\":");
    reveal_strlit(",\"event_type\":");
    reveal_strlit(",\"text_hash\":");
    reveal_strlit(",\"source\":");
    reveal_strlit(",\"span_length\":");
    reveal_strlit("}");
    reveal_strlit(",");
    reveal_strlit("{\"human_percentage\":");
    reveal_strlit(",\"ai_percentage\":");
    reveal_strlit(",\"cited_percentage\":");
    reveal_strlit(",\"total_characters\":");
    reveal_strlit(",\"events\":[");
    reveal_strlit("]}");
    reveal_strlit("{\"manifest\":");
    reveal_strlit(",\"signature\":");
    reveal_strlit(",\"public_key\":");
    is_ascii_chars_encode_utf8("{\"timestamp\":"@);
    is_ascii_chars_encode_utf8(",\"event_type\":"@);
    is_ascii_chars_encode_utf8(",\"text_hash\":"@);
    is_ascii_chars_encode_utf8(",\"source\":"@);
    is_ascii_chars_encode_utf8(",\"span_length\":"@);
    is_ascii_chars_encode_utf8("}"@);
    is_ascii_chars_encode_utf8(","@);
    is_ascii_chars_encode_utf8("{\"human_percentage\":"@);
    is_ascii_chars_encode_utf8(",\"ai_percentage\":"@);
    is_ascii_chars_encode_utf8(",\"cited_percentage\":"@);
    is_ascii_chars_encode_utf8(",\"total_characters\":"@);
    is_ascii_chars_encode_utf8(",\"events\":["@);
    is_ascii_chars_encode_utf8("]}"@);
    is_ascii_chars_encode_utf8("{\"manifest\":"@);
    is_ascii_chars_encode_utf8(",\"signature\":"@);
    is_ascii_chars_encode_utf8(",\"public_key\":"@);
}

/// The encoding of an event is plain.
proof fn lemma_event_plain(event: EventView)
    ensures
        plain(canonical_event(event)),
{
    reveal(canonical_event);
    lemma_pieces_plain();
    lemma_string_plain(event.timestamp);
    lemma_string_plain(event.event_type);
    lemma_string_plain(event.text_hash);
    lemma_string_plain(event.source);
    lemma_digits_plain(event.span_length);
    let p1 = "{\"timestamp\":".spec_bytes();
    let p2 = p1 + json_string(event.timestamp);
    let p3 = p2 + ",\"event_type\":".spec_bytes();
    let p4 = p3 + json_string(event.event_type);
    let p5 = p4 + ",\"text_hash\":".spec_bytes();
    let p6 = p5 + json_string(event.text_hash);
    let p7 = p6 + ",\"source\":".spec_bytes();
    let p8 = p7 + json_string(event.source);
    let p9 = p8 + ",\"span_length\":".spec_bytes();
    let p10 = p9 + decimal_digits(event.span_length);
    lemma_plain_join(p1, json_string(event.timestamp));
    lemma_plain_join(p2, ",\"event_type\":".spec_bytes());
    lemma_plain_join(p3, json_string(event.event_type));
    lemma_plain_join(p4, ",\"text_hash\":".spec_bytes());
    lemma_plain_join(p5, json_string(event.text_hash));
    lemma_plain_join(p6, ",\"source\":".spec_bytes());
    lemma_plain_join(p7, json_string(event.source));
    lemma_plain_join(p8, ",\"span_length\":".spec_bytes());
    lemma_plain_join(p9, decimal_digits(event.span_length));
    lemma_plain_join(p10, "}".spec_bytes());
}

/// The items of a list of events are plain.
proof fn lemma_items_plain(events: Seq<EventView>)
    ensures
        plain(canonical_items(events)),
    decreases events.len(),
{
    lemma_pieces_plain();
    if events.len() == 1 {
        lemma_event_plain(events[0]);
    } else if events.len() > 1 {
        lemma_items_plain(events.drop_last());
        lemma_event_plain(events.last());
        lemma_plain_join(canonical_items(events.drop_last()), ",".spec_bytes());
        lemma_plain_join(
            canonical_items(events.drop_last()) + ",".spec_bytes(),
            canonical_event(events.last()),
        );
    }
}

/// The canonical encoding of a manifest is plain.
pub proof fn lemma_encoding_plain(manifest: ManifestView)
    ensures
        plain(canonical_encoding(manifest)),
{
    reveal(canonical_encoding);
    lemma_pieces_plain();
    lemma_percent_plain(manifest.human_percentage);
    lemma_percent_plain(manifest.ai_percentage);
    lemma_percent_plain(manifest.cited_percentage);
    lemma_digits_plain(manifest.total_characters);
    lemma_items_plain(manifest.events);
    let p1 = "{\"human_percentage\":".spec_bytes();
    let p2 = p1 + percent_text(manifest.human_percentage);
    let p3 = p2 + ",\"ai_percentage\":".spec_bytes();
    let p4 = p3 + percent_text(manifest.ai_percentage);
    let p5 = p4 + ",\"cited_percentage\":".spec_bytes();
    let p6 = p5 + percent_text(manifest.cited_percentage);
    let p7 = p6 + ",\"total_characters\":".spec_bytes();
    let p8 = p7 + decimal_digits(manifest.total_characters);
    let p9 = p8 + ",\"events\":[".spec_bytes();
    let p10 = p9 + canonical_items(manifest.events);
    lemma_plain_join(p1, percent_text(manifest.human_percentage));
    lemma_plain_join(p2, ",\"ai_percentage\":".spec_bytes());
    lemma_plain_join(p3, percent_text(manifest.ai_percentage));
    lemma_plain_join(p4, ",\"cited_percentage\":".spec_bytes());
    lemma_plain_join(p5, percent_text(manifest.cited_percentage));
    lemma_plain_join(p6, ",\"total_characters\":".spec_bytes());
    lemma_plain_join(p7, decimal_digits(manifest.total_characters));
    lemma_plain_join(p8, ",\"events\":[".spec_bytes());
    lemma_plain_join(p9, canonical_items(manifest.events));
    lemma_plain_join(p10, "]}".spec_bytes());
}

/// The text of an envelope is plain, and it starts and ends with a brace.
pub proof fn lemma_envelope_text_plain(envelope: EnvelopeView)
    ensures
        plain(envelope_text(envelope)),
        envelope_text(envelope).len() > 0,
        envelope_text(envelope)[0] == 0x7b,
        envelope_text(envelope).last() == 0x7d,
{
    lemma_pieces_plain();
    lemma_encoding_plain(envelope.manifest);
    lemma_string_plain(envelope.signature);
    lemma_string_plain(envelope.public_key);
    let p1 = "{\"manifest\":".spec_bytes();
    let p2 = p1 + canonical_encoding(envelope.manifest);
    let p3 = p2 + ",\"signature\":".spec_bytes();
    let p4 = p3 + json_string(envelope.signature);
    let p5 = p4 + ",\"public_key\":".spec_bytes();
    let p6 = p5 + json_string(envelope.public_key);
    lemma_plain_join(p1, canonical_encoding(envelope.manifest));
    lemma_plain_join(p2, ",\"signature\":".spec_bytes());
    lemma_plain_join(p3, json_string(envelope.signature));
    lemma_plain_join(p4, ",\"public_key\":".spec_bytes());
    lemma_plain_join(p5, json_string(envelope.public_key));
    lemma_plain_join(p6, "}".spec_bytes());
    reveal_strlit("{\"manifest\":");
    reveal_strlit("}");
    lemma_first_byte("{\"manifest\":"@, '{');
    lemma_first_byte("}"@, '}');
    is_ascii_chars_encode_utf8("}"@);
    assert("}".spec_bytes().len() == 1);
    assert(envelope_text(envelope).last() == "}".spec_bytes()[0]);
    assert(envelope_text(envelope)[0] == p1[0]);
}

/// Plain text that starts and ends with something other than white space is
/// its own trimmed form.
proof fn lemma_nothing_to_trim(text: Seq<u8>)
    requires
        text.len() > 0,
        !is_space(text[0]),
        !is_space(text.last()),
    ensures
        trimmed(text) == text,
{
    assert(after_spaces(text, 0) == 0);
    assert(before_spaces(text, text.len() as int) == text.len());
    assert(text.subrange(0, text.len() as int) =~= text);
}

/// Extraction recovers an embedded envelope: the scan of the element that
/// `embed` writes answers exactly the text that `to_json` writes.
pub proof fn lemma_embedded_envelope_is_found(envelope: EnvelopeView)
    ensures
        extraction(embedded(envelope)) == Ok::<Seq<u8>, VerifyError>(envelope_text(envelope)),
{
    lemma_envelope_text_plain(envelope);
    lemma_embedded_text_is_found(envelope_text(envelope));
    lemma_nothing_to_trim(envelope_text(envelope));
}

} // verus!
