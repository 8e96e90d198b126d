//! The canonical encoding is unambiguous: two manifests with the same
//! encoding are the same manifest. A signature over the encoding therefore
//! binds exactly one manifest.
//!
//! The proof reads an encoding from the left. Every part of it is delimited:
//! a number ends at the first byte that is no digit, a string at the first
//! quote that is not escaped, an event at its closing brace, the list of
//! events at its closing bracket.

use crate::bytes::{lemma_encoding_injective, lemma_first_byte, lemma_join};
use crate::canonical::{
    canonical_encoding, canonical_event, canonical_items, escape_byte, escaped, hex_byte,
    json_string, needs_escape, percent_text,
};
use crate::decimal::{
    decimal_digits, fixed_digits, is_digit, lemma_decimal_round_trip, lemma_fixed_round_trip,
    pow10,
};
use crate::event::EventView;
use crate::manifest::ManifestView;
use vstd::prelude::*;
use vstd::string::StringSliceAdditionalSpecFns;
use vstd::utf8::encode_utf8;

verus! {

/// Two equal texts that start alike go on alike.
proof fn lemma_cancel_front(front: Seq<u8>, a: Seq<u8>, b: Seq<u8>)
    requires
        front + a == front + b,
    ensures
        a == b,
{
    assert((front + a).skip(front.len() as int) =~= a);
    assert((front + b).skip(front.len() as int) =~= b);
}

/// Two equal texts that are cut at the same index have equal fronts and
/// equal rests.
proof fn lemma_split_alike(front_a: Seq<u8>, a: Seq<u8>, front_b: Seq<u8>, b: Seq<u8>)
    requires
        front_a + a == front_b + b,
        front_a.len() == front_b.len(),
    ensures
        front_a == front_b,
        a == b,
{
    assert((front_a + a).take(front_a.len() as int) =~= front_a);
    assert((front_b + b).take(front_b.len() as int) =~= front_b);
    assert((front_a + a).skip(front_a.len() as int) =~= a);
    assert((front_b + b).skip(front_b.len() as int) =~= b);
}

/// A decimal number ends where the digits end: two numbers that are
/// followed by something other than a digit and give the same text are the
/// same number, followed by the same text.
proof fn lemma_digits_delimited(x: nat, after_x: Seq<u8>, y: nat, after_y: Seq<u8>)
    requires
        decimal_digits(x) + after_x == decimal_digits(y) + after_y,
        after_x.len() > 0 && !is_digit(after_x[0]),
        after_y.len() > 0 && !is_digit(after_y[0]),
    ensures
        x == y,
        after_x == after_y,
{
    let dx = decimal_digits(x);
    let dy = decimal_digits(y);
    lemma_decimal_round_trip(x);
    lemma_decimal_round_trip(y);
    if dx.len() < dy.len() {
        assert((dx + after_x)[dx.len() as int] == after_x[0]);
        assert((dy + after_y)[dx.len() as int] == dy[dx.len() as int]);
        assert(is_digit(dy[dx.len() as int]));
    }
    if dy.len() < dx.len() {
        assert((dy + after_y)[dy.len() as int] == after_y[0]);
        assert((dx + after_x)[dy.len() as int] == dx[dy.len() as int]);
        assert(is_digit(dx[dy.len() as int]));
    }
    lemma_split_alike(dx, after_x, dy, after_y);
}

/// A share is delimited by its point and its six digits: two shares that
/// give the same text, whatever follows, are the same share, followed by
/// the same text.
proof fn lemma_percent_delimited(x: nat, after_x: Seq<u8>, y: nat, after_y: Seq<u8>)
    requires
        percent_text(x) + after_x == percent_text(y) + after_y,
    ensures
        x == y,
        after_x == after_y,
{
    let point = seq![0x2eu8];
    let fx = fixed_digits(x % 1_000_000, 6);
    let fy = fixed_digits(y % 1_000_000, 6);
    assert(pow10(6) == 1_000_000) by {
        reveal_with_fuel(pow10, 7);
    }
    lemma_fixed_round_trip(x % 1_000_000, 6);
    lemma_fixed_round_trip(y % 1_000_000, 6);
    let tail_x = point + (fx + after_x);
    let tail_y = point + (fy + after_y);
    assert(percent_text(x) + after_x =~= decimal_digits(x / 1_000_000) + tail_x);
    assert(percent_text(y) + after_y =~= decimal_digits(y / 1_000_000) + tail_y);
    assert(tail_x[0] == 0x2eu8);
    assert(tail_y[0] == 0x2eu8);
    lemma_digits_delimited(x / 1_000_000, tail_x, y / 1_000_000, tail_y);
    lemma_cancel_front(point, fx + after_x, fy + after_y);
    lemma_split_alike(fx, after_x, fy, after_y);
}

/// Different digits have different hexadecimal letters.
proof fn lemma_hex_byte_injective(a: u8, b: u8)
    requires
        a < 16,
        b < 16,
        hex_byte(a) == hex_byte(b),
    ensures
        a == b,
{
}

/// The way one byte is written is delimited: two bytes whose written forms
/// start the same text are the same byte, followed by the same text.
proof fn lemma_escape_byte_delimited(x: u8, after_x: Seq<u8>, y: u8, after_y: Seq<u8>)
    requires
        escape_byte(x) + after_x == escape_byte(y) + after_y,
    ensures
        x == y,
        after_x == after_y,
{
    let left = escape_byte(x) + after_x;
    let right = escape_byte(y) + after_y;
    assert(left[0] == escape_byte(x)[0]);
    assert(right[0] == escape_byte(y)[0]);
    if needs_escape(x) {
        assert(left[0] == 0x5c);
        assert(needs_escape(y));
        assert(left[1] == escape_byte(x)[1]);
        assert(right[1] == escape_byte(y)[1]);
        if x != 0x22 && x != 0x5c {
            assert(left[1] == 0x75);
            assert(y != 0x22 && y != 0x5c);
            assert(left[4] == escape_byte(x)[4]);
            assert(right[4] == escape_byte(y)[4]);
            assert(left[5] == escape_byte(x)[5]);
            assert(right[5] == escape_byte(y)[5]);
            lemma_hex_byte_injective(x / 16, y / 16);
            lemma_hex_byte_injective(x % 16, y % 16);
        }
    } else {
        assert(left[0] == x);
        assert(!needs_escape(y));
    }
    assert(x == y);
    lemma_cancel_front(escape_byte(x), after_x, after_y);
}

/// The written form of a string starts with the written form of its first
/// byte.
proof fn lemma_escaped_first(bytes: Seq<u8>)
    requires
        bytes.len() > 0,
    ensures
        escaped(bytes) == escape_byte(bytes[0]) + escaped(bytes.drop_first()),
    decreases bytes.len(),
{
    if bytes.len() == 1 {
        assert(bytes.drop_last() =~= Seq::<u8>::empty());
        assert(bytes.drop_first() =~= Seq::<u8>::empty());
        assert(escaped(bytes) =~= escape_byte(bytes[0]) + escaped(bytes.drop_first()));
    } else {
        lemma_escaped_first(bytes.drop_last());
        assert(bytes.drop_last().drop_first() =~= bytes.drop_first().drop_last());
        assert(bytes.drop_first().last() == bytes.last());
        assert(escaped(bytes) =~= escape_byte(bytes[0]) + escaped(bytes.drop_first()));
    }
}

/// The written form of a string ends at the first quote that is not
/// escaped: two strings whose written forms, closed by a quote, start the
/// same text are the same string, followed by the same text.
proof fn lemma_escaped_delimited(a: Seq<u8>, after_a: Seq<u8>, b: Seq<u8>, after_b: Seq<u8>)
    requires
        escaped(a) + seq![0x22u8] + after_a == escaped(b) + seq![0x22u8] + after_b,
    ensures
        a == b,
        after_a == after_b,
    decreases a.len(),
{
    let quote = seq![0x22u8];
    let left = escaped(a) + quote + after_a;
    let right = escaped(b) + quote + after_b;
    if a.len() == 0 && b.len() == 0 {
        assert(a =~= b);
        assert(left =~= quote + after_a);
        assert(right =~= quote + after_b);
        lemma_cancel_front(quote, after_a, after_b);
    } else if a.len() == 0 {
        lemma_escaped_first(b);
        assert(left[0] == 0x22u8);
        assert(right[0] == escape_byte(b[0])[0]);
        assert(false);
    } else if b.len() == 0 {
        lemma_escaped_first(a);
        assert(right[0] == 0x22u8);
        assert(left[0] == escape_byte(a[0])[0]);
        assert(false);
    } else {
        lemma_escaped_first(a);
        lemma_escaped_first(b);
        let tail_a = escaped(a.drop_first()) + quote + after_a;
        let tail_b = escaped(b.drop_first()) + quote + after_b;
        assert(left =~= escape_byte(a[0]) + tail_a);
        assert(right =~= escape_byte(b[0]) + tail_b);
        lemma_escape_byte_delimited(a[0], tail_a, b[0], tail_b);
        lemma_escaped_delimited(a.drop_first(), after_a, b.drop_first(), after_b);
        assert(a =~= seq![a[0]] + a.drop_first());
        assert(b =~= seq![b[0]] + b.drop_first());
    }
}

/// A JSON string is delimited by its quotes: two texts whose strings start
/// the same text are the same text, followed by the same text.
proof fn lemma_string_delimited(s: Seq<char>, after_s: Seq<u8>, t: Seq<char>, after_t: Seq<u8>)
    requires
        json_string(s) + after_s == json_string(t) + after_t,
    ensures
        s == t,
        after_s == after_t,
{
    let quote = seq![0x22u8];
    let inner_s = escaped(encode_utf8(s)) + quote + after_s;
    let inner_t = escaped(encode_utf8(t)) + quote + after_t;
    assert(json_string(s) + after_s =~= quote + inner_s);
    assert(json_string(t) + after_t =~= quote + inner_t);
    lemma_cancel_front(quote, inner_s, inner_t);
    lemma_escaped_delimited(encode_utf8(s), after_s, encode_utf8(t), after_t);
    lemma_encoding_injective(s, t);
}

/// The first bytes of the pieces that delimit numbers and events.
proof fn lemma_delimiters()
    ensures
        "{\"timestamp\":".spec_bytes().len() > 0 && "{\"timestamp\":".spec_bytes()[0] == 0x7b,
        "}".spec_bytes().len() > 0 && "}".spec_bytes()[0] == 0x7d,
        ",".spec_bytes().len() > 0 && ",".spec_bytes()[0] == 0x2c,
        ",\"events\":[".spec_bytes().len() > 0 && ",\"events\":[".spec_bytes()[0] == 0x2c,
        "]}".spec_bytes().len() > 0 && "]}".spec_bytes()[0] == 0x5d,
{
    reveal_strlit("{\"timestamp\":");
    reveal_strlit("}");
    reveal_strlit(",");
    reveal_strlit(",\"events\":[");
    reveal_strlit("]}");
    lemma_first_byte("{\"timestamp\":"@, '{');
    lemma_first_byte("}"@, '}');
    lemma_first_byte(","@, ',');
    lemma_first_byte(",\"events\":["@, ',');
    lemma_first_byte("]}"@, ']');
}

/// The encoding of an event and what follows it, bracketed from the right.
spec fn event_then(e: EventView, after: Seq<u8>) -> Seq<u8> {
    "{\"timestamp\":".spec_bytes() + (json_string(e.timestamp) + (",\"event_type\":".spec_bytes()
        + (json_string(e.event_type) + (",\"text_hash\":".spec_bytes() + (json_string(e.text_hash)
        + (",\"source\":".spec_bytes() + (json_string(e.source) + (",\"span_length\":".spec_bytes()
        + (decimal_digits(e.span_length) + ("}".spec_bytes() + after))))))))))
}

proof fn lemma_event_then(e: EventView, after: Seq<u8>)
    ensures
        canonical_event(e) + after == event_then(e, after),
{
    reveal(canonical_event);
    let k1 = "{\"timestamp\":".spec_bytes();
    let k2 = ",\"event_type\":".spec_bytes();
    let k3 = ",\"text_hash\":".spec_bytes();
    let k4 = ",\"source\":".spec_bytes();
    let k5 = ",\"span_length\":".spec_bytes();
    let close = "}".spec_bytes();
    let j1 = json_string(e.timestamp);
    let j2 = json_string(e.event_type);
    let j3 = json_string(e.text_hash);
    let j4 = json_string(e.source);
    let d = decimal_digits(e.span_length);
    let p2 = k1 + j1;
    let p3 = p2 + k2;
    let p4 = p3 + j2;
    let p5 = p4 + k3;
    let p6 = p5 + j3;
    let p7 = p6 + k4;
    let p8 = p7 + j4;
    let p9 = p8 + k5;
    let p10 = p9 + d;
    let t11 = close + after;
    let t10 = d + t11;
    let t9 = k5 + t10;
    let t8 = j4 + t9;
    let t7 = k4 + t8;
    let t6 = j3 + t7;
    let t5 = k3 + t6;
    let t4 = j2 + t5;
    let t3 = k2 + t4;
    let t2 = j1 + t3;
    lemma_join(p10, close, after);
    lemma_join(p9, d, t11);
    lemma_join(p8, k5, t10);
    lemma_join(p7, j4, t9);
    lemma_join(p6, k4, t8);
    lemma_join(p5, j3, t7);
    lemma_join(p4, k3, t6);
    lemma_join(p3, j2, t5);
    lemma_join(p2, k2, t4);
    lemma_join(k1, j1, t3);
}

/// The encoding of a manifest, bracketed from the right.
spec fn manifest_then(m: ManifestView) -> Seq<u8> {
    "{\"human_percentage\":".spec_bytes() + (percent_text(m.human_percentage) + (
    ",\"ai_percentage\":".spec_bytes() + (percent_text(m.ai_percentage) + (
    ",\"cited_percentage\":".spec_bytes() + (percent_text(m.cited_percentage) + (
    ",\"total_characters\":".spec_bytes() + (decimal_digits(m.total_characters) + (
    ",\"events\":[".spec_bytes() + (canonical_items(m.events) + "]}".spec_bytes())))))))))
}

proof fn lemma_manifest_then(m: ManifestView)
    ensures
        canonical_encoding(m) == manifest_then(m),
{
    reveal(canonical_encoding);
    let k1 = "{\"human_percentage\":".spec_bytes();
    let k2 = ",\"ai_percentage\":".spec_bytes();
    let k3 = ",\"cited_percentage\":".spec_bytes();
    let k4 = ",\"total_characters\":".spec_bytes();
    let k5 = ",\"events\":[".spec_bytes();
    let close = "]}".spec_bytes();
    let s1 = percent_text(m.human_percentage);
    let s2 = percent_text(m.ai_percentage);
    let s3 = percent_text(m.cited_percentage);
    let d = decimal_digits(m.total_characters);
    let items = canonical_items(m.events);
    let p2 = k1 + s1;
    let p3 = p2 + k2;
    let p4 = p3 + s2;
    let p5 = p4 + k3;
    let p6 = p5 + s3;
    let p7 = p6 + k4;
    let p8 = p7 + d;
    let p9 = p8 + k5;
    let t10 = items + close;
    let t9 = k5 + t10;
    let t8 = d + t9;
    let t7 = k4 + t8;
    let t6 = s3 + t7;
    let t5 = k3 + t6;
    let t4 = s2 + t5;
    let t3 = k2 + t4;
    lemma_join(p9, items, close);
    lemma_join(p8, k5, t10);
    lemma_join(p7, d, t9);
    lemma_join(p6, k4, t8);
    lemma_join(p5, s3, t7);
    lemma_join(p4, k3, t6);
    lemma_join(p3, s2, t5);
    lemma_join(p2, k2, t4);
    lemma_join(k1, s1, t3);
}

/// An event is delimited: two events whose encodings start the same text
/// are the same event, followed by the same text.
#[verifier::rlimit(30)]
proof fn lemma_event_delimited(e: EventView, after_e: Seq<u8>, f: EventView, after_f: Seq<u8>)
    requires
        canonical_event(e) + after_e == canonical_event(f) + after_f,
    ensures
        e == f,
        after_e == after_f,
{
    lemma_delimiters();
    let k1 = "{\"timestamp\":".spec_bytes();
    let k2 = ",\"event_type\":".spec_bytes();
    let k3 = ",\"text_hash\":".spec_bytes();
    let k4 = ",\"source\":".spec_bytes();
    let k5 = ",\"span_length\":".spec_bytes();
    let close = "}".spec_bytes();
    // the encodings, read from the right
    let e6 = close + after_e;
    let f6 = close + after_f;
    let e5 = k5 + (decimal_digits(e.span_length) + e6);
    let f5 = k5 + (decimal_digits(f.span_length) + f6);
    let e4 = k4 + (json_string(e.source) + e5);
    let f4 = k4 + (json_string(f.source) + f5);
    let e3 = k3 + (json_string(e.text_hash) + e4);
    let f3 = k3 + (json_string(f.text_hash) + f4);
    let e2 = k2 + (json_string(e.event_type) + e3);
    let f2 = k2 + (json_string(f.event_type) + f3);
    lemma_event_then(e, after_e);
    lemma_event_then(f, after_f);
    lemma_cancel_front(k1, json_string(e.timestamp) + e2, json_string(f.timestamp) + f2);
    lemma_string_delimited(e.timestamp, e2, f.timestamp, f2);
    lemma_cancel_front(k2, json_string(e.event_type) + e3, json_string(f.event_type) + f3);
    lemma_string_delimited(e.event_type, e3, f.event_type, f3);
    lemma_cancel_front(k3, json_string(e.text_hash) + e4, json_string(f.text_hash) + f4);
    lemma_string_delimited(e.text_hash, e4, f.text_hash, f4);
    lemma_cancel_front(k4, json_string(e.source) + e5, json_string(f.source) + f5);
    lemma_string_delimited(e.source, e5, f.source, f5);
    lemma_cancel_front(
        k5,
        decimal_digits(e.span_length) + e6,
        decimal_digits(f.span_length) + f6,
    );
    assert(e6[0] == 0x7d);
    assert(f6[0] == 0x7d);
    lemma_digits_delimited(e.span_length, e6, f.span_length, f6);
    lemma_cancel_front(close, after_e, after_f);
}

/// The items of a list start with the first event; a comma and the other
/// items follow it if there are any.
proof fn lemma_items_first(events: Seq<EventView>)
    requires
        events.len() > 0,
    ensures
        canonical_items(events) == if events.len() == 1 {
            canonical_event(events[0])
        } else {
            canonical_event(events[0]) + (",".spec_bytes() + canonical_items(events.drop_first()))
        },
    decreases events.len(),
{
    if events.len() > 1 {
        let comma = ",".spec_bytes();
        let front = events.drop_last();
        let others = events.drop_first();
        let first = canonical_event(events[0]);
        let last = canonical_event(events.last());
        lemma_items_first(front);
        assert(front[0] == events[0]);
        assert(others.last() == events.last());
        if events.len() == 2 {
            assert(others[0] == events.last());
            lemma_join(first, comma, last);
        } else {
            let middle = canonical_items(front.drop_first());
            assert(others.drop_last() =~= front.drop_first());
            lemma_join(first + (comma + middle), comma, last);
            lemma_join(first, comma + middle, comma + last);
            lemma_join(comma, middle, comma + last);
            lemma_join(middle, comma, last);
        }
    }
}

/// The encoding of an event starts with an opening brace.
proof fn lemma_event_starts_with_brace(e: EventView)
    ensures
        canonical_event(e).len() > 0,
        canonical_event(e)[0] == 0x7b,
{
    lemma_delimiters();
    lemma_event_then(e, Seq::empty());
    assert(canonical_event(e) + Seq::<u8>::empty() =~= canonical_event(e));
}

/// What follows the first event of a list: the rest of the text if it is
/// the only event, else a comma, the other items and the rest of the text.
spec fn after_first_item(events: Seq<EventView>, after: Seq<u8>) -> Seq<u8> {
    if events.len() == 1 {
        after
    } else {
        ",".spec_bytes() + (canonical_items(events.drop_first()) + after)
    }
}

proof fn lemma_items_then(events: Seq<EventView>, after: Seq<u8>)
    requires
        events.len() > 0,
        after.len() > 0,
    ensures
        canonical_items(events) + after == canonical_event(events[0]) + after_first_item(
            events,
            after,
        ),
        after_first_item(events, after).len() > 0,
        after_first_item(events, after)[0] == if events.len() == 1 {
            after[0]
        } else {
            0x2cu8
        },
{
    lemma_delimiters();
    lemma_items_first(events);
    if events.len() > 1 {
        let comma = ",".spec_bytes();
        let rest = canonical_items(events.drop_first());
        lemma_join(canonical_event(events[0]), comma + rest, after);
        lemma_join(comma, rest, after);
    }
}

/// The list of events is delimited by its closing bracket: two lists whose
/// items, followed by a bracket, start the same text are the same list,
/// followed by the same text.
proof fn lemma_items_delimited(
    es: Seq<EventView>,
    after_es: Seq<u8>,
    fs: Seq<EventView>,
    after_fs: Seq<u8>,
)
    requires
        canonical_items(es) + after_es == canonical_items(fs) + after_fs,
        after_es.len() > 0 && after_es[0] == 0x5d,
        after_fs.len() > 0 && after_fs[0] == 0x5d,
    ensures
        es == fs,
        after_es == after_fs,
    decreases es.len(),
{
    if es.len() == 0 && fs.len() == 0 {
        assert(es =~= fs);
        assert(canonical_items(es) + after_es =~= after_es);
        assert(canonical_items(fs) + after_fs =~= after_fs);
    } else if es.len() == 0 {
        lemma_items_then(fs, after_fs);
        lemma_event_starts_with_brace(fs[0]);
        assert(canonical_items(es) + after_es =~= after_es);
        assert((canonical_event(fs[0]) + after_first_item(fs, after_fs))[0] == 0x7b);
        assert(false);
    } else if fs.len() == 0 {
        lemma_items_then(es, after_es);
        lemma_event_starts_with_brace(es[0]);
        assert(canonical_items(fs) + after_fs =~= after_fs);
        assert((canonical_event(es[0]) + after_first_item(es, after_es))[0] == 0x7b);
        assert(false);
    } else {
        lemma_items_then(es, after_es);
        lemma_items_then(fs, after_fs);
        let tail_es = after_first_item(es, after_es);
        let tail_fs = after_first_item(fs, after_fs);
        lemma_event_delimited(es[0], tail_es, fs[0], tail_fs);
        if es.len() == 1 {
            assert(fs.len() == 1);
            assert(es =~= seq![es[0]]);
            assert(fs =~= seq![fs[0]]);
        } else {
            assert(fs.len() > 1);
            lemma_cancel_front(
                ",".spec_bytes(),
                canonical_items(es.drop_first()) + after_es,
                canonical_items(fs.drop_first()) + after_fs,
            );
            lemma_items_delimited(es.drop_first(), after_es, fs.drop_first(), after_fs);
            assert(es =~= seq![es[0]] + es.drop_first());
            assert(fs =~= seq![fs[0]] + fs.drop_first());
        }
    }
}

/// The canonical encoding is unambiguous: manifests with the same encoding
/// are the same manifest.
#[verifier::rlimit(30)]
pub proof fn lemma_encoding_unambiguous(a: ManifestView, b: ManifestView)
    requires
        canonical_encoding(a) == canonical_encoding(b),
    ensures
        a == b,
{
    lemma_delimiters();
    let k1 = "{\"human_percentage\":".spec_bytes();
    let k2 = ",\"ai_percentage\":".spec_bytes();
    let k3 = ",\"cited_percentage\":".spec_bytes();
    let k4 = ",\"total_characters\":".spec_bytes();
    let k5 = ",\"events\":[".spec_bytes();
    let close = "]}".spec_bytes();
    // the encodings, read from the right
    let a5 = k5 + (canonical_items(a.events) + close);
    let b5 = k5 + (canonical_items(b.events) + close);
    let a4 = k4 + (decimal_digits(a.total_characters) + a5);
    let b4 = k4 + (decimal_digits(b.total_characters) + b5);
    let a3 = k3 + (percent_text(a.cited_percentage) + a4);
    let b3 = k3 + (percent_text(b.cited_percentage) + b4);
    let a2 = k2 + (percent_text(a.ai_percentage) + a3);
    let b2 = k2 + (percent_text(b.ai_percentage) + b3);
    lemma_manifest_then(a);
    lemma_manifest_then(b);
    lemma_cancel_front(
        k1,
        percent_text(a.human_percentage) + a2,
        percent_text(b.human_percentage) + b2,
    );
    lemma_percent_delimited(a.human_percentage, a2, b.human_percentage, b2);
    lemma_cancel_front(k2, percent_text(a.ai_percentage) + a3, percent_text(b.ai_percentage) + b3);
    lemma_percent_delimited(a.ai_percentage, a3, b.ai_percentage, b3);
    lemma_cancel_front(
        k3,
        percent_text(a.cited_percentage) + a4,
        percent_text(b.cited_percentage) + b4,
    );
    lemma_percent_delimited(a.cited_percentage, a4, b.cited_percentage, b4);
    lemma_cancel_front(
        k4,
        decimal_digits(a.total_characters) + a5,
        decimal_digits(b.total_characters) + b5,
    );
    assert(a5[0] == 0x2c);
    assert(b5[0] == 0x2c);
    lemma_digits_delimited(a.total_characters, a5, b.total_characters, b5);
    lemma_cancel_front(k5, canonical_items(a.events) + close, canonical_items(b.events) + close);
    lemma_items_delimited(a.events, close, b.events, close);
}

/// A change to a manifest changes the bytes that are signed: manifests that
/// differ in any share, in the total or in any event have different
/// encodings. That a signature made over other bytes is then refused is
/// what the signature scheme adds.
pub proof fn lemma_change_alters_encoding(signed: ManifestView, changed: ManifestView)
    requires
        signed != changed,
    ensures
        canonical_encoding(signed) != canonical_encoding(changed),
{
    if canonical_encoding(signed) == canonical_encoding(changed) {
        lemma_encoding_unambiguous(signed, changed);
    }
}

} // verus!
