//! Locating the envelope in a published document.
//!
//! The envelope stands in a `script` element that is marked by two
//! attributes, `type="application/json"` and `id="sonnun-manifest"`. The scan
//! is structural: the two attributes may come in either order, among other
//! attributes, with any white space between them and around `=`, and with
//! either kind of quote.

use crate::bytes::{
    find_byte, has_prefix_at, lemma_next_byte_bounds, lemma_next_byte_is, next_byte,
    starts_with_at,
};
use crate::verification::VerifyError;
use vstd::prelude::*;
use vstd::slice::slice_subrange;
use vstd::string::StringSliceAdditionalSpecFns;

verus! {

/// White space: space, tab, line feed, vertical tab, form feed, carriage
/// return.
pub open spec fn is_space(b: u8) -> bool {
    b == 0x20 || (0x09 <= b && b <= 0x0d)
}

/// A byte of an attribute name: a letter, a digit, `-`, `_` or `:`.
pub open spec fn is_name_byte(b: u8) -> bool {
    (0x61 <= b && b <= 0x7a) || (0x41 <= b && b <= 0x5a) || (0x30 <= b && b <= 0x39) || b == 0x2d
        || b == 0x5f || b == 0x3a
}

/// The first index from `pos` on that holds no white space; the length of
/// the document if there is none.
pub open spec fn after_spaces(doc: Seq<u8>, pos: int) -> int
    decreases doc.len() - pos,
{
    if 0 <= pos < doc.len() && is_space(doc[pos]) {
        after_spaces(doc, pos + 1)
    } else {
        pos
    }
}

/// The first index from `pos` on that holds no name byte.
pub open spec fn after_name(doc: Seq<u8>, pos: int) -> int
    decreases doc.len() - pos,
{
    if 0 <= pos < doc.len() && is_name_byte(doc[pos]) {
        after_name(doc, pos + 1)
    } else {
        pos
    }
}

/// Where the name and the value of an attribute stand in the document.
pub struct AttributeSpan {
    pub name_start: usize,
    pub name_end: usize,
    pub value_start: usize,
    pub value_end: usize,
}

/// The attribute that starts at `pos`: a name, `=` with optional white
/// space around it, and a value between two quotes of the same kind.
pub open spec fn attribute_at(doc: Seq<u8>, pos: int) -> Option<(int, int, int, int)> {
    let name_end = after_name(doc, pos);
    let equals = after_spaces(doc, name_end);
    let quote = after_spaces(doc, equals + 1);
    if name_end == pos {
        None
    } else if !(0 <= equals < doc.len()) || doc[equals] != 0x3d {
        None
    } else if !(0 <= quote < doc.len()) || (doc[quote] != 0x22 && doc[quote] != 0x27) {
        None
    } else {
        let close = next_byte(doc, quote + 1, doc[quote]);
        if close >= doc.len() {
            None
        } else {
            Some((pos, name_end, quote + 1, close))
        }
    }
}

/// The attribute has the given name and value.
pub open spec fn attribute_is(
    doc: Seq<u8>,
    attribute: (int, int, int, int),
    name: Seq<u8>,
    value: Seq<u8>,
) -> bool {
    &&& doc.subrange(attribute.0, attribute.1) == name
    &&& doc.subrange(attribute.2, attribute.3) == value
}

/// The scans only move forward.
pub proof fn lemma_scans_advance(doc: Seq<u8>, pos: int, b: u8)
    requires
        0 <= pos <= doc.len(),
    ensures
        pos <= after_spaces(doc, pos) <= doc.len(),
        pos <= after_name(doc, pos) <= doc.len(),
        pos <= next_byte(doc, pos, b) <= doc.len(),
    decreases doc.len() - pos,
{
    lemma_next_byte_bounds(doc, pos, b);
    if pos < doc.len() {
        lemma_scans_advance(doc, pos + 1, b);
    }
}

/// An attribute lies in the document, behind the index it was read from.
pub proof fn lemma_attribute_bounds(doc: Seq<u8>, pos: int)
    requires
        0 <= pos <= doc.len(),
    ensures
        attribute_at(doc, pos) matches Some(a) ==> a.0 == pos && a.0 < a.1 && a.1 < a.2 && a.2
            <= a.3 && a.3 < doc.len(),
{
    lemma_scans_advance(doc, pos, 0);
    let name_end = after_name(doc, pos);
    lemma_scans_advance(doc, name_end, 0);
    let equals = after_spaces(doc, name_end);
    if equals < doc.len() {
        lemma_scans_advance(doc, equals + 1, 0);
        let quote = after_spaces(doc, equals + 1);
        if quote < doc.len() {
            lemma_scans_advance(doc, quote + 1, doc[quote]);
        }
    }
}

/// Reads the attributes of an opening tag from `pos` on. The result is the
/// index behind the closing `>` if the tag is well formed and carries both
/// marking attributes, counting those seen before `pos`.
pub open spec fn marker_attributes(doc: Seq<u8>, pos: int, has_type: bool, has_id: bool) -> Option<
    int,
>
    decreases doc.len() - pos,
{
    let at = after_spaces(doc, pos);
    if !(0 <= pos <= at < doc.len()) {
        None
    } else if doc[at] == 0x3e {
        if has_type && has_id {
            Some(at + 1)
        } else {
            None
        }
    } else if at == pos {
        None
    } else {
        match attribute_at(doc, at) {
            None => None,
            Some(a) => {
                proof {
                    lemma_attribute_bounds(doc, at);
                }
                marker_attributes(
                    doc,
                    a.3 + 1,
                    has_type || attribute_is(
                        doc,
                        a,
                        "type".spec_bytes(),
                        "application/json".spec_bytes(),
                    ),
                    has_id || attribute_is(
                        doc,
                        a,
                        "id".spec_bytes(),
                        "sonnun-manifest".spec_bytes(),
                    ),
                )
            },
        }
    }
}

/// The marked opening tag that starts at `pos`: the index behind its `>`.
pub open spec fn marker_at(doc: Seq<u8>, pos: int) -> Option<int> {
    if has_prefix_at(doc, pos, "<script".spec_bytes()) {
        marker_attributes(doc, pos + "<script".spec_bytes().len(), false, false)
    } else {
        None
    }
}

/// The first marked opening tag from `from` on: the index behind its `>`.
pub open spec fn first_marker(doc: Seq<u8>, from: int) -> Option<int>
    decreases doc.len() - from,
{
    if from < 0 || from >= doc.len() {
        None
    } else {
        match marker_at(doc, from) {
            Some(content) => Some(content),
            None => first_marker(doc, from + 1),
        }
    }
}

/// The first index from `from` on at which `pattern` occurs.
pub open spec fn first_occurrence(doc: Seq<u8>, from: int, pattern: Seq<u8>) -> Option<int>
    decreases doc.len() - from,
{
    if from < 0 || from > doc.len() {
        None
    } else if has_prefix_at(doc, from, pattern) {
        Some(from)
    } else if from == doc.len() {
        None
    } else {
        first_occurrence(doc, from + 1, pattern)
    }
}

/// The index behind the last byte before `end` that is no white space; 0 if
/// there is none.
pub open spec fn before_spaces(text: Seq<u8>, end: int) -> int
    decreases end,
{
    if 0 < end <= text.len() && is_space(text[end - 1]) {
        before_spaces(text, end - 1)
    } else {
        end
    }
}

/// The text without the white space at its two ends.
pub open spec fn trimmed(text: Seq<u8>) -> Seq<u8> {
    let start = after_spaces(text, 0);
    let end = before_spaces(text, text.len() as int);
    if start <= end {
        text.subrange(start, end)
    } else {
        Seq::empty()
    }
}

/// What extraction answers for a document: the text of the envelope, without
/// the white space around it. `NotFound` where the document holds no marked
/// opening tag, `Malformed` where the first one is never closed.
pub open spec fn extraction(doc: Seq<u8>) -> Result<Seq<u8>, VerifyError> {
    match first_marker(doc, 0) {
        None => Err(VerifyError::NotFound),
        Some(start) => match first_occurrence(doc, start, "</script>".spec_bytes()) {
            None => Err(VerifyError::Malformed),
            Some(end) => Ok(trimmed(doc.subrange(start, end))),
        },
    }
}

/// White space up to an index that holds none is what `after_spaces` skips.
pub proof fn lemma_after_spaces_is(doc: Seq<u8>, pos: int, at: int)
    requires
        0 <= pos <= at <= doc.len(),
        forall|i: int| pos <= i < at ==> is_space(#[trigger] doc[i]),
        at == doc.len() || !is_space(doc[at]),
    ensures
        after_spaces(doc, pos) == at,
    decreases at - pos,
{
    if pos < at {
        lemma_after_spaces_is(doc, pos + 1, at);
    }
}

/// Name bytes up to an index that holds none are what `after_name` skips.
pub proof fn lemma_after_name_is(doc: Seq<u8>, pos: int, at: int)
    requires
        0 <= pos <= at <= doc.len(),
        forall|i: int| pos <= i < at ==> is_name_byte(#[trigger] doc[i]),
        at == doc.len() || !is_name_byte(doc[at]),
    ensures
        after_name(doc, pos) == at,
    decreases at - pos,
{
    if pos < at {
        lemma_after_name_is(doc, pos + 1, at);
    }
}

/// Where an attribute is written in a document: its name, the `=`, the
/// opening quote and the closing quote.
pub struct WrittenAttribute {
    pub name_start: int,
    pub name_end: int,
    pub equals: int,
    pub quote: int,
    pub close: int,
}

impl WrittenAttribute {
    /// The span of the attribute as the scan reports it.
    pub open spec fn span(self) -> (int, int, int, int) {
        (self.name_start, self.name_end, self.quote + 1, self.close)
    }

    /// The attribute stands in the document as the positions say: a name of
    /// at least one name byte, any white space, `=`, any white space, a
    /// quote of either kind, a value without that quote, and the same quote
    /// again.
    pub open spec fn written_in(self, doc: Seq<u8>) -> bool {
        &&& 0 <= self.name_start < self.name_end <= self.equals < self.quote < self.close
            < doc.len()
        &&& forall|i: int| self.name_start <= i < self.name_end ==> is_name_byte(#[trigger] doc[i])
        &&& forall|i: int| self.name_end <= i < self.equals ==> is_space(#[trigger] doc[i])
        &&& doc[self.equals] == 0x3d
        &&& forall|i: int| self.equals < i < self.quote ==> is_space(#[trigger] doc[i])
        &&& (doc[self.quote] == 0x22 || doc[self.quote] == 0x27)
        &&& forall|i: int| self.quote < i < self.close ==> #[trigger] doc[i] != doc[self.quote]
        &&& doc[self.close] == doc[self.quote]
    }

    /// The attribute is one of the two that mark the envelope.
    pub open spec fn is_type(self, doc: Seq<u8>) -> bool {
        attribute_is(doc, self.span(), "type".spec_bytes(), "application/json".spec_bytes())
    }

    pub open spec fn is_id(self, doc: Seq<u8>) -> bool {
        attribute_is(doc, self.span(), "id".spec_bytes(), "sonnun-manifest".spec_bytes())
    }
}

/// An attribute is read as it is written, whatever white space stands
/// around its `=` and whichever quote it uses.
pub proof fn lemma_attribute_read(doc: Seq<u8>, a: WrittenAttribute)
    requires
        a.written_in(doc),
    ensures
        attribute_at(doc, a.name_start) == Some(a.span()),
{
    lemma_after_name_is(doc, a.name_start, a.name_end);
    lemma_after_spaces_is(doc, a.name_end, a.equals);
    lemma_after_spaces_is(doc, a.equals + 1, a.quote);
    lemma_next_byte_is(doc, a.quote + 1, doc[a.quote], a.close);
}

/// The attributes stand in the document from `pos` on, each behind at least
/// one byte of white space, and behind the last of them, after any white
/// space, stands the `>` that ends the tag in front of `end`.
pub open spec fn attributes_written(
    doc: Seq<u8>,
    pos: int,
    attributes: Seq<WrittenAttribute>,
    end: int,
) -> bool
    decreases attributes.len(),
{
    if attributes.len() == 0 {
        &&& 0 <= pos < end <= doc.len()
        &&& forall|i: int| pos <= i < end - 1 ==> is_space(#[trigger] doc[i])
        &&& doc[end - 1] == 0x3e
    } else {
        let first = attributes[0];
        &&& 0 <= pos < first.name_start
        &&& forall|i: int| pos <= i < first.name_start ==> is_space(#[trigger] doc[i])
        &&& first.written_in(doc)
        &&& attributes_written(doc, first.close + 1, attributes.drop_first(), end)
    }
}

/// One of the attributes marks the type.
pub open spec fn any_type(doc: Seq<u8>, attributes: Seq<WrittenAttribute>) -> bool {
    exists|k: int| 0 <= k < attributes.len() && (#[trigger] attributes[k]).is_type(doc)
}

/// One of the attributes marks the identifier.
pub open spec fn any_id(doc: Seq<u8>, attributes: Seq<WrittenAttribute>) -> bool {
    exists|k: int| 0 <= k < attributes.len() && (#[trigger] attributes[k]).is_id(doc)
}

/// A tag is read as it is written: whatever attributes an opening tag
/// carries, in whatever order and with whatever white space between them,
/// reading it ends behind its `>` exactly if both marking attributes are
/// among them or were seen before.
pub proof fn lemma_attributes_read(
    doc: Seq<u8>,
    pos: int,
    attributes: Seq<WrittenAttribute>,
    end: int,
    has_type: bool,
    has_id: bool,
)
    requires
        attributes_written(doc, pos, attributes, end),
    ensures
        marker_attributes(doc, pos, has_type, has_id) == if (has_type || any_type(doc, attributes))
            && (has_id || any_id(doc, attributes)) {
            Some(end)
        } else {
            None
        },
    decreases attributes.len(),
{
    if attributes.len() == 0 {
        lemma_after_spaces_is(doc, pos, end - 1);
    } else {
        let first = attributes[0];
        let others = attributes.drop_first();
        lemma_after_spaces_is(doc, pos, first.name_start);
        lemma_attribute_read(doc, first);
        let seen_type = has_type || first.is_type(doc);
        let seen_id = has_id || first.is_id(doc);
        lemma_attributes_read(doc, first.close + 1, others, end, seen_type, seen_id);
        // an attribute of the tag is the first one or one of the others
        assert(any_type(doc, attributes) == (first.is_type(doc) || any_type(doc, others))) by {
            if any_type(doc, attributes) {
                let k = choose|k: int|
                    0 <= k < attributes.len() && (#[trigger] attributes[k]).is_type(doc);
                if k > 0 {
                    assert(others[k - 1] == attributes[k]);
                }
            }
            if any_type(doc, others) {
                let k = choose|k: int| 0 <= k < others.len() && (#[trigger] others[k]).is_type(doc);
                assert(attributes[k + 1] == others[k]);
            }
        }
        assert(any_id(doc, attributes) == (first.is_id(doc) || any_id(doc, others))) by {
            if any_id(doc, attributes) {
                let k = choose|k: int|
                    0 <= k < attributes.len() && (#[trigger] attributes[k]).is_id(doc);
                if k > 0 {
                    assert(others[k - 1] == attributes[k]);
                }
            }
            if any_id(doc, others) {
                let k = choose|k: int| 0 <= k < others.len() && (#[trigger] others[k]).is_id(doc);
                assert(attributes[k + 1] == others[k]);
            }
        }
    }
}

/// The scan is structural: an opening `script` tag with any attributes, in
/// any order, with any white space between them and around each `=`, and
/// with either kind of quote, is the marker exactly if it carries both
/// marking attributes.
pub proof fn lemma_marker_read(doc: Seq<u8>, at: int, attributes: Seq<WrittenAttribute>, end: int)
    requires
        has_prefix_at(doc, at, "<script".spec_bytes()),
        attributes_written(doc, at + "<script".spec_bytes().len(), attributes, end),
    ensures
        marker_at(doc, at) == if any_type(doc, attributes) && any_id(doc, attributes) {
            Some(end)
        } else {
            None
        },
{
    lemma_attributes_read(
        doc,
        at + "<script".spec_bytes().len(),
        attributes,
        end,
        false,
        false,
    );
}

/// The marker that `first_marker` finds is the first one: a marked opening
/// tag starts at some index from `from` on, none starts in front of it, and
/// where `first_marker` finds nothing no marked opening tag starts anywhere
/// from `from` on.
pub proof fn lemma_first_marker_is_first(doc: Seq<u8>, from: int)
    requires
        0 <= from,
    ensures
        match first_marker(doc, from) {
            Some(content) => exists|at: int|
                from <= at < doc.len() && #[trigger] marker_at(doc, at) == Some(content) && forall|
                    earlier: int,
                |
                    from <= earlier < at ==> #[trigger] marker_at(doc, earlier) is None,
            None => forall|at: int|
                from <= at < doc.len() ==> #[trigger] marker_at(doc, at) is None,
        },
    decreases doc.len() - from,
{
    if from < doc.len() {
        if marker_at(doc, from) is None {
            lemma_first_marker_is_first(doc, from + 1);
            if first_marker(doc, from) is Some {
                let content = first_marker(doc, from).unwrap();
                let at = choose|at: int|
                    from + 1 <= at < doc.len() && #[trigger] marker_at(doc, at) == Some(content)
                        && forall|earlier: int|
                        from + 1 <= earlier < at ==> #[trigger] marker_at(doc, earlier) is None;
                assert(from <= at < doc.len() && marker_at(doc, at) == Some(content) && forall|
                    earlier: int,
                |
                    from <= earlier < at ==> #[trigger] marker_at(doc, earlier) is None);
            }
        } else {
            assert(from <= from < doc.len() && marker_at(doc, from) == first_marker(doc, from));
        }
    }
}

/// The occurrence that `first_occurrence` finds is the first one: the
/// pattern occurs there and nowhere between `from` and there, and where
/// `first_occurrence` finds nothing the pattern occurs nowhere from `from`
/// on.
pub proof fn lemma_first_occurrence_is_first(doc: Seq<u8>, from: int, pattern: Seq<u8>)
    requires
        0 <= from <= doc.len(),
    ensures
        match first_occurrence(doc, from, pattern) {
            Some(at) => from <= at && has_prefix_at(doc, at, pattern) && forall|earlier: int|
                from <= earlier < at ==> !#[trigger] has_prefix_at(doc, earlier, pattern),
            None => forall|at: int| from <= at ==> !#[trigger] has_prefix_at(doc, at, pattern),
        },
    decreases doc.len() - from,
{
    if !has_prefix_at(doc, from, pattern) && from < doc.len() {
        lemma_first_occurrence_is_first(doc, from + 1, pattern);
    }
}

/// What is left after trimming neither starts nor ends with white space.
pub proof fn lemma_trimmed_has_no_margin(text: Seq<u8>)
    ensures
        trimmed(text).len() > 0 ==> !is_space(trimmed(text)[0]) && !is_space(trimmed(text).last()),
{
    lemma_spaces_skipped(text, 0);
    lemma_spaces_dropped(text, text.len() as int);
}

/// Where `after_spaces` stops there is no white space, unless it is the end.
proof fn lemma_spaces_skipped(text: Seq<u8>, pos: int)
    requires
        0 <= pos <= text.len(),
    ensures
        pos <= after_spaces(text, pos) <= text.len(),
        after_spaces(text, pos) < text.len() ==> !is_space(text[after_spaces(text, pos)]),
    decreases text.len() - pos,
{
    if pos < text.len() && is_space(text[pos]) {
        lemma_spaces_skipped(text, pos + 1);
    }
}

/// Where `before_spaces` stops there is no white space in front, unless it
/// is the start.
proof fn lemma_spaces_dropped(text: Seq<u8>, end: int)
    requires
        0 <= end <= text.len(),
    ensures
        0 <= before_spaces(text, end) <= end,
        before_spaces(text, end) > 0 ==> !is_space(text[before_spaces(text, end) - 1]),
    decreases end,
{
    if end > 0 && is_space(text[end - 1]) {
        lemma_spaces_dropped(text, end - 1);
    }
}

fn is_space_byte(b: u8) -> (r: bool)
    ensures
        r == is_space(b),
{
    b == 0x20 || (0x09 <= b && b <= 0x0d)
}

fn is_name(b: u8) -> (r: bool)
    ensures
        r == is_name_byte(b),
{
    (0x61 <= b && b <= 0x7a) || (0x41 <= b && b <= 0x5a) || (0x30 <= b && b <= 0x39) || b == 0x2d
        || b == 0x5f || b == 0x3a
}

fn skip_spaces(doc: &[u8], pos: usize) -> (at: usize)
    requires
        pos <= doc.len(),
    ensures
        at == after_spaces(doc@, pos as int),
        pos <= at <= doc.len(),
{
    let mut at: usize = pos;
    while at < doc.len() && is_space_byte(doc[at])
        invariant
            pos <= at <= doc.len(),
            after_spaces(doc@, pos as int) == after_spaces(doc@, at as int),
        decreases doc.len() - at,
    {
        at += 1;
    }
    at
}

fn skip_name(doc: &[u8], pos: usize) -> (at: usize)
    requires
        pos <= doc.len(),
    ensures
        at == after_name(doc@, pos as int),
        pos <= at <= doc.len(),
{
    let mut at: usize = pos;
    while at < doc.len() && is_name(doc[at])
        invariant
            pos <= at <= doc.len(),
            after_name(doc@, pos as int) == after_name(doc@, at as int),
        decreases doc.len() - at,
    {
        at += 1;
    }
    at
}

/// The four positions of an attribute span, as integers.
pub open spec fn span_view(span: Option<AttributeSpan>) -> Option<(int, int, int, int)> {
    match span {
        Some(s) => Some(
            (s.name_start as int, s.name_end as int, s.value_start as int, s.value_end as int),
        ),
        None => None,
    }
}

fn read_attribute(doc: &[u8], pos: usize) -> (span: Option<AttributeSpan>)
    requires
        pos <= doc.len(),
    ensures
        span_view(span) == attribute_at(doc@, pos as int),
{
    let name_end = skip_name(doc, pos);
    if name_end == pos {
        return None;
    }
    let equals = skip_spaces(doc, name_end);
    if equals >= doc.len() || doc[equals] != 0x3d {
        return None;
    }
    let quote = skip_spaces(doc, equals + 1);
    if quote >= doc.len() || (doc[quote] != 0x22 && doc[quote] != 0x27) {
        return None;
    }
    let close = find_byte(doc, quote + 1, doc[quote]);
    if close >= doc.len() {
        return None;
    }
    Some(AttributeSpan { name_start: pos, name_end, value_start: quote + 1, value_end: close })
}

fn span_equals(doc: &[u8], start: usize, end: usize, text: &str) -> (same: bool)
    requires
        start <= end <= doc.len(),
    ensures
        same == (doc@.subrange(start as int, end as int) == text.spec_bytes()),
{
    let pattern = text.as_bytes();
    if end - start != pattern.len() {
        return false;
    }
    starts_with_at(doc, start, pattern)
}

fn read_marker_attributes(doc: &[u8], start: usize) -> (content: Option<usize>)
    requires
        start <= doc.len(),
    ensures
        match content {
            Some(at) => marker_attributes(doc@, start as int, false, false) == Some(at as int)
                && at <= doc.len(),
            None => marker_attributes(doc@, start as int, false, false) is None,
        },
{
    let mut pos: usize = start;
    let mut has_type = false;
    let mut has_id = false;
    loop
        invariant
            start <= pos <= doc.len(),
            marker_attributes(doc@, start as int, false, false) == marker_attributes(
                doc@,
                pos as int,
                has_type,
                has_id,
            ),
        decreases doc.len() - pos,
    {
        let at = skip_spaces(doc, pos);
        if at >= doc.len() {
            return None;
        }
        if doc[at] == 0x3e {
            if has_type && has_id {
                return Some(at + 1);
            }
            return None;
        }
        if at == pos {
            return None;
        }
        proof {
            lemma_attribute_bounds(doc@, at as int);
        }
        match read_attribute(doc, at) {
            None => {
                return None;
            },
            Some(span) => {
                let is_type = span_equals(doc, span.name_start, span.name_end, "type")
                    && span_equals(doc, span.value_start, span.value_end, "application/json");
                let is_id = span_equals(doc, span.name_start, span.name_end, "id") && span_equals(
                    doc,
                    span.value_start,
                    span.value_end,
                    "sonnun-manifest",
                );
                has_type = has_type || is_type;
                has_id = has_id || is_id;
                pos = span.value_end + 1;
            },
        }
    }
}

fn read_marker(doc: &[u8], pos: usize) -> (content: Option<usize>)
    requires
        pos <= doc.len(),
    ensures
        match content {
            Some(at) => marker_at(doc@, pos as int) == Some(at as int) && at <= doc.len(),
            None => marker_at(doc@, pos as int) is None,
        },
{
    let open = "<script".as_bytes();
    if starts_with_at(doc, pos, open) {
        read_marker_attributes(doc, pos + open.len())
    } else {
        None
    }
}

/// Finds the first marked opening tag of a document and answers the index
/// behind it, where the envelope begins.
pub fn find_marker(doc: &[u8]) -> (content: Option<usize>)
    ensures
        match content {
            Some(at) => first_marker(doc@, 0) == Some(at as int) && at <= doc.len(),
            None => first_marker(doc@, 0) is None,
        },
{
    let mut pos: usize = 0;
    while pos < doc.len()
        invariant
            pos <= doc.len(),
            first_marker(doc@, 0) == first_marker(doc@, pos as int),
        decreases doc.len() - pos,
    {
        match read_marker(doc, pos) {
            Some(at) => {
                return Some(at);
            },
            None => {},
        }
        pos += 1;
    }
    None
}

/// Finds the first occurrence of `pattern` in a document from `from` on.
pub fn find_pattern(doc: &[u8], from: usize, pattern: &[u8]) -> (found: Option<usize>)
    requires
        from <= doc.len(),
    ensures
        match found {
            Some(at) => first_occurrence(doc@, from as int, pattern@) == Some(at as int) && from
                <= at && at + pattern@.len() <= doc.len(),
            None => first_occurrence(doc@, from as int, pattern@) is None,
        },
{
    let mut pos: usize = from;
    loop
        invariant
            from <= pos <= doc.len(),
            first_occurrence(doc@, from as int, pattern@) == first_occurrence(
                doc@,
                pos as int,
                pattern@,
            ),
        decreases doc.len() - pos,
    {
        if starts_with_at(doc, pos, pattern) {
            return Some(pos);
        }
        if pos >= doc.len() {
            return None;
        }
        pos += 1;
    }
}

/// Removes the white space at the two ends of a text.
pub fn trim(text: &[u8]) -> (inner: &[u8])
    ensures
        inner@ == trimmed(text@),
{
    let start = skip_spaces(text, 0);
    let mut end: usize = text.len();
    while end > 0 && is_space_byte(text[end - 1])
        invariant
            end <= text.len(),
            before_spaces(text@, text.len() as int) == before_spaces(text@, end as int),
        decreases end,
    {
        end -= 1;
    }
    if start <= end {
        slice_subrange(text, start, end)
    } else {
        let nothing = slice_subrange(text, 0, 0);
        proof {
            assert(nothing@ =~= Seq::<u8>::empty());
        }
        nothing
    }
}

/// Locates the envelope in a document and answers its text.
pub fn extract_envelope(document: &[u8]) -> (r: Result<Vec<u8>, VerifyError>)
    ensures
        match r {
            Ok(text) => extraction(document@) == Ok::<Seq<u8>, VerifyError>(text@),
            Err(e) => extraction(document@) == Err::<Seq<u8>, VerifyError>(e),
        },
{
    let start = match find_marker(document) {
        Some(start) => start,
        None => { return Err(VerifyError::NotFound); },
    };
    let end = match find_pattern(document, start, "</script>".as_bytes()) {
        Some(end) => end,
        None => { return Err(VerifyError::Malformed); },
    };
    let inner = trim(slice_subrange(document, start, end));
    Ok(vstd::slice::slice_to_vec(inner))
}

} // verus!
