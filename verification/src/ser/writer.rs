//! Writing of tags through the XML writer.

use vstd::prelude::*;
use quick_xml::events::{BytesEnd, BytesStart, Event};
use quick_xml::Writer;
use crate::ser::model::{empty_tag, end_tag, start_tag};
use crate::ser::text::escaped;

verus! {

/// `quick_xml::escape::escape`: `raw` with each of `<`, `>`, `&`, `'` and `"`
/// made an entity reference, as an attribute's value needs it.
#[verifier::external_body]
pub(crate) fn escape(raw: &[u8]) -> (text: Vec<u8>)
    ensures
        text@ == escaped(raw@, true),
{
    quick_xml::escape::escape(raw).into_owned()
}

/// `quick_xml::events::BytesStart::push_attribute` on a tag with the raw
/// bytes `tag`: a space, the key, `="`, the value as it is given, and `"` are
/// appended.
#[verifier::external_body]
pub(crate) fn push_attribute(tag: &mut Vec<u8>, key: &[u8], value: &[u8])
    ensures
        final(tag)@ == old(tag)@ + seq![' ' as u8] + key@ + seq!['=' as u8, '"' as u8] + value@
            + seq!['"' as u8],
{
    let mut start = BytesStart::owned_name(std::mem::take(tag));
    start.push_attribute((key, value));
    *tag = start.to_vec();
}

/// The kinds of tags that are written.
pub enum Markup {
    /// An opening tag: `<`, the tag, `>`.
    Start,
    /// An empty element: `<`, the tag, `/>`.
    Empty,
    /// A closing tag: `</`, the name, `>`.
    End,
}

/// The bytes that are written for the tag of the kind `kind` with the raw
/// bytes `bytes`: for an opening tag and an empty element its name and its
/// attributes, for a closing tag its name.
pub open spec fn markup(kind: Markup, bytes: Seq<u8>) -> Seq<u8> {
    match kind {
        Markup::Start => start_tag(bytes),
        Markup::Empty => empty_tag(bytes),
        Markup::End => end_tag(bytes),
    }
}

/// `quick_xml::Writer::write_event` on a writer without indentation, with an
/// opening tag, an empty element or a closing tag: the tag is appended to
/// `out` between its brackets.
#[verifier::external_body]
pub(crate) fn write_event(out: &mut Vec<u8>, kind: Markup, bytes: &[u8])
    ensures
        final(out)@ == old(out)@ + markup(kind, bytes@),
{
    let event = match kind {
        Markup::Start => Event::Start(BytesStart::borrowed_name(bytes)),
        Markup::Empty => Event::Empty(BytesStart::borrowed_name(bytes)),
        Markup::End => Event::End(BytesEnd::borrowed(bytes)),
    };
    let _ = Writer::new(out).write_event(event);
}

} // verus!
