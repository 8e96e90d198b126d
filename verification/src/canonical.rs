//! The canonical encoding of a manifest: the one byte string that stands
//! for a manifest value, over which signatures are made and checked.
//!
//! The encoding is JSON text with a fixed layout:
//!
//! * object keys in the fixed order written below, never sorted or hashed;
//! * no white space anywhere outside strings;
//! * counts as shortest decimal integers;
//! * shares as decimal numbers with exactly six digits after the point;
//! * strings in UTF-8 with `"` and `\` escaped by a backslash, and control
//!   bytes, `<` and DEL written as `\u00XX` with lower-case digits.
//!
//! Because `<` is always escaped, the encoding never holds a closing tag
//! and can stand inside a `<script>` element as it is.

use crate::bytes::lemma_join;
use crate::decimal::{append_decimal, append_fixed, decimal_digits, fixed_digits};
use crate::event::{EventView, ProvenanceEvent};
use crate::manifest::{ManifestData, ManifestView, Percentage, PERCENT_SCALE};
use vstd::prelude::*;
use vstd::string::StringSliceAdditionalSpecFns;
use vstd::utf8::encode_utf8;

verus! {

/// The ASCII byte of the lower-case hexadecimal digit of a value below 16.
pub open spec fn hex_byte(nibble: u8) -> u8
    recommends
        nibble < 16,
{
    if nibble < 10 {
        (48 + nibble) as u8
    } else {
        (87 + nibble) as u8
    }
}

/// The byte must not stand for itself inside a string: control bytes, the
/// quote, the backslash, `<` and DEL.
pub open spec fn needs_escape(b: u8) -> bool {
    b < 0x20 || b == 0x22 || b == 0x5c || b == 0x3c || b == 0x7f
}

/// How one byte of a string is written.
pub open spec fn escape_byte(b: u8) -> Seq<u8> {
    if b == 0x22 {
        seq![0x5cu8, 0x22u8]
    } else if b == 0x5c {
        seq![0x5cu8, 0x5cu8]
    } else if needs_escape(b) {
        seq![0x5cu8, 0x75u8, 0x30u8, 0x30u8, hex_byte(b / 16), hex_byte(b % 16)]
    } else {
        seq![b]
    }
}

/// How the bytes of a string are written between its quotes.
pub open spec fn escaped(bytes: Seq<u8>) -> Seq<u8>
    decreases bytes.len(),
{
    if bytes.len() == 0 {
        Seq::empty()
    } else {
        escaped(bytes.drop_last()) + escape_byte(bytes.last())
    }
}

/// A text as a JSON string: its escaped UTF-8 bytes between quotes.
pub open spec fn json_string(text: Seq<char>) -> Seq<u8> {
    seq![0x22u8] + escaped(encode_utf8(text)) + seq![0x22u8]
}

/// A share as a decimal number: its whole percents, a point, and exactly
/// six digits of millionths.
pub open spec fn percent_text(millionths: nat) -> Seq<u8> {
    decimal_digits(millionths / (PERCENT_SCALE as nat)) + seq![0x2eu8] + fixed_digits(
        millionths % (PERCENT_SCALE as nat),
        6,
    )
}

/// One event as a JSON object.
#[verifier::opaque]
pub open spec fn canonical_event(event: EventView) -> Seq<u8> {
    "{\"timestamp\":".spec_bytes() + json_string(event.timestamp)
        + ",\"event_type\":".spec_bytes() + json_string(event.event_type)
        + ",\"text_hash\":".spec_bytes() + json_string(event.text_hash)
        + ",\"source\":".spec_bytes() + json_string(event.source)
        + ",\"span_length\":".spec_bytes() + decimal_digits(event.span_length) + "}".spec_bytes()
}

/// The events as the items of a JSON array, separated by commas.
pub open spec fn canonical_items(events: Seq<EventView>) -> Seq<u8>
    decreases events.len(),
{
    if events.len() == 0 {
        Seq::empty()
    } else if events.len() == 1 {
        canonical_event(events[0])
    } else {
        canonical_items(events.drop_last()) + ",".spec_bytes() + canonical_event(events.last())
    }
}

/// The canonical encoding of a manifest.
#[verifier::opaque]
pub open spec fn canonical_encoding(manifest: ManifestView) -> Seq<u8> {
    "{\"human_percentage\":".spec_bytes() + percent_text(manifest.human_percentage)
        + ",\"ai_percentage\":".spec_bytes() + percent_text(manifest.ai_percentage)
        + ",\"cited_percentage\":".spec_bytes() + percent_text(manifest.cited_percentage)
        + ",\"total_characters\":".spec_bytes() + decimal_digits(manifest.total_characters)
        + ",\"events\":[".spec_bytes() + canonical_items(manifest.events) + "]}".spec_bytes()
}

/// Appends the bytes of a literal.
pub fn append_text(out: &mut Vec<u8>, text: &str)
    ensures
        final(out)@ == old(out)@ + text.spec_bytes(),
{
    out.extend_from_slice(text.as_bytes());
}

fn hex_byte_of(nibble: u8) -> (b: u8)
    requires
        nibble < 16,
    ensures
        b == hex_byte(nibble),
{
    if nibble < 10 {
        48 + nibble
    } else {
        87 + nibble
    }
}

/// Appends a text as a JSON string.
#[verifier::rlimit(30)]
pub fn append_json_string(out: &mut Vec<u8>, text: &str)
    ensures
        final(out)@ == old(out)@ + json_string(text@),
{
    let bytes = text.as_bytes();
    let ghost start = out@;
    out.push(0x22);
    let mut k: usize = 0;
    proof {
        assert(bytes@.take(0) =~= Seq::<u8>::empty());
        assert(out@ =~= start + seq![0x22u8] + escaped(bytes@.take(0)));
    }
    while k < bytes.len()
        invariant
            k <= bytes.len(),
            out@ == start + seq![0x22u8] + escaped(bytes@.take(k as int)),
        decreases bytes.len() - k,
    {
        let b: u8 = bytes[k];
        let ghost before = out@;
        if b == 0x22 {
            out.push(0x5c);
            out.push(0x22);
        } else if b == 0x5c {
            out.push(0x5c);
            out.push(0x5c);
        } else if b < 0x20 || b == 0x3c || b == 0x7f {
            out.push(0x5c);
            out.push(0x75);
            out.push(0x30);
            out.push(0x30);
            out.push(hex_byte_of(b / 16));
            out.push(hex_byte_of(b % 16));
        } else {
            out.push(b);
        }
        proof {
            assert(bytes@.take(k + 1).drop_last() =~= bytes@.take(k as int));
            assert(bytes@.take(k + 1).last() == b);
            assert(out@ =~= before + escape_byte(b));
            assert(out@ =~= start + seq![0x22u8] + escaped(bytes@.take(k + 1)));
        }
        k += 1;
    }
    out.push(0x22);
    proof {
        assert(bytes@.take(bytes.len() as int) =~= bytes@);
        assert(out@ =~= start + json_string(text@));
    }
}

/// Appends a share as a decimal number with six digits after the point.
pub fn append_percent(out: &mut Vec<u8>, share: Percentage)
    ensures
        final(out)@ == old(out)@ + percent_text(share@),
{
    let ghost start = out@;
    append_decimal(out, share.whole_percent() as u64);
    out.push(0x2e);
    append_fixed(out, share.fraction() as u64, 6);
    proof {
        assert(out@ =~= start + percent_text(share@));
    }
}

/// Appends one event as a JSON object.
pub fn append_event(out: &mut Vec<u8>, event: &ProvenanceEvent)
    ensures
        final(out)@ == old(out)@ + canonical_event(event@),
{
    let ghost start = out@;
    append_text(out, "{\"timestamp\":");
    append_json_string(out, event.timestamp.as_str());
    append_text(out, ",\"event_type\":");
    append_json_string(out, event.event_type.as_str());
    append_text(out, ",\"text_hash\":");
    append_json_string(out, event.text_hash.as_str());
    append_text(out, ",\"source\":");
    append_json_string(out, event.source.as_str());
    append_text(out, ",\"span_length\":");
    append_decimal(out, event.span_length as u64);
    append_text(out, "}");
    proof {
        reveal(canonical_event);
        let q1 = "{\"timestamp\":".spec_bytes();
        let q2 = q1 + json_string(event@.timestamp);
        let q3 = q2 + ",\"event_type\":".spec_bytes();
        let q4 = q3 + json_string(event@.event_type);
        let q5 = q4 + ",\"text_hash\":".spec_bytes();
        let q6 = q5 + json_string(event@.text_hash);
        let q7 = q6 + ",\"source\":".spec_bytes();
        let q8 = q7 + json_string(event@.source);
        let q9 = q8 + ",\"span_length\":".spec_bytes();
        let q10 = q9 + decimal_digits(event@.span_length);
        lemma_join(start, q1, json_string(event@.timestamp));
        lemma_join(start, q2, ",\"event_type\":".spec_bytes());
        lemma_join(start, q3, json_string(event@.event_type));
        lemma_join(start, q4, ",\"text_hash\":".spec_bytes());
        lemma_join(start, q5, json_string(event@.text_hash));
        lemma_join(start, q6, ",\"source\":".spec_bytes());
        lemma_join(start, q7, json_string(event@.source));
        lemma_join(start, q8, ",\"span_length\":".spec_bytes());
        lemma_join(start, q9, decimal_digits(event@.span_length));
        lemma_join(start, q10, "}".spec_bytes());
    }
}

/// Appends the canonical encoding of a manifest.
pub fn append_manifest(out: &mut Vec<u8>, manifest: &ManifestData)
    ensures
        final(out)@ == old(out)@ + canonical_encoding(manifest@),
{
    let ghost start = out@;
    let ghost events = manifest@.events;
    append_text(out, "{\"human_percentage\":");
    append_percent(out, manifest.human_percentage);
    append_text(out, ",\"ai_percentage\":");
    append_percent(out, manifest.ai_percentage);
    append_text(out, ",\"cited_percentage\":");
    append_percent(out, manifest.cited_percentage);
    append_text(out, ",\"total_characters\":");
    append_decimal(out, manifest.total_characters as u64);
    append_text(out, ",\"events\":[");
    let ghost head = out@;
    let ghost q1 = "{\"human_percentage\":".spec_bytes();
    let ghost q2 = q1 + percent_text(manifest@.human_percentage);
    let ghost q3 = q2 + ",\"ai_percentage\":".spec_bytes();
    let ghost q4 = q3 + percent_text(manifest@.ai_percentage);
    let ghost q5 = q4 + ",\"cited_percentage\":".spec_bytes();
    let ghost q6 = q5 + percent_text(manifest@.cited_percentage);
    let ghost q7 = q6 + ",\"total_characters\":".spec_bytes();
    let ghost q8 = q7 + decimal_digits(manifest@.total_characters);
    let ghost q9 = q8 + ",\"events\":[".spec_bytes();
    let mut i: usize = 0;
    proof {
        lemma_join(start, q1, percent_text(manifest@.human_percentage));
        lemma_join(start, q2, ",\"ai_percentage\":".spec_bytes());
        lemma_join(start, q3, percent_text(manifest@.ai_percentage));
        lemma_join(start, q4, ",\"cited_percentage\":".spec_bytes());
        lemma_join(start, q5, percent_text(manifest@.cited_percentage));
        lemma_join(start, q6, ",\"total_characters\":".spec_bytes());
        lemma_join(start, q7, decimal_digits(manifest@.total_characters));
        lemma_join(start, q8, ",\"events\":[".spec_bytes());
        assert(head == start + q9);
        assert(events.take(0) =~= Seq::<EventView>::empty());
        assert(out@ =~= head + canonical_items(events.take(0)));
    }
    while i < manifest.events.len()
        invariant
            i <= manifest.events.len(),
            events == manifest@.events,
            events.len() == manifest.events.len(),
            out@ == head + canonical_items(events.take(i as int)),
        decreases manifest.events.len() - i,
    {
        let ghost before = out@;
        if i > 0 {
            append_text(out, ",");
        }
        append_event(out, &manifest.events[i]);
        proof {
            let upto = events.take(i + 1);
            let item = canonical_event(manifest.events[i as int]@);
            assert(upto.drop_last() =~= events.take(i as int));
            assert(upto.last() == manifest.events[i as int]@);
            if i == 0 {
                assert(upto[0] == manifest.events[i as int]@);
                assert(before =~= head + Seq::<u8>::empty());
                assert(head + Seq::<u8>::empty() =~= head);
            } else {
                let front = canonical_items(events.take(i as int));
                lemma_join(head, front, ",".spec_bytes());
                lemma_join(head, front + ",".spec_bytes(), item);
            }
        }
        i += 1;
    }
    append_text(out, "]}");
    proof {
        reveal(canonical_encoding);
        assert(events.take(manifest.events.len() as int) =~= events);
        lemma_join(start, q9, canonical_items(events));
        lemma_join(start, q9 + canonical_items(events), "]}".spec_bytes());
    }
}

/// The canonical encoding of a manifest.
///
/// Encoding is total and does nothing but compute: the result is a function
/// of the manifest's value alone. Signer and verifier both call this.
pub fn encode(manifest: &ManifestData) -> (bytes: Vec<u8>)
    ensures
        bytes@ == canonical_encoding(manifest@),
{
    let mut out: Vec<u8> = Vec::new();
    append_manifest(&mut out, manifest);
    proof {
        assert(Seq::<u8>::empty() + canonical_encoding(manifest@) =~= canonical_encoding(
            manifest@,
        ));
    }
    out
}

/// Encoding is deterministic: two manifests that were built independently
/// and have the same value have the same encoding, byte for byte.
pub proof fn lemma_encoding_deterministic(a: ManifestData, b: ManifestData)
    requires
        a@ == b@,
    ensures
        canonical_encoding(a@) == canonical_encoding(b@),
{
}

} // verus!
