//! What the encoder writes, as a function of the value.

use vstd::prelude::*;
use vstd::utf8::encode_utf8;
use crate::ser::error::SerFailure;
use crate::ser::text::{escaped, render_bool, render_int};
use crate::value::ValueView;
use crate::{ATTRIBUTE_MARKER, CONTENT_MARKER};

verus! {

/// What is reported of a field that is an attribute without a name.
pub const ATTRIBUTE_WITHOUT_NAME: &'static str = "name for attribute is missing";

/// What is reported of an entry whose key is an absent value.
pub const OPTION_AS_KEY: &'static str = "Option as map key not supported";

/// What is reported of a structured value where a scalar is needed.
pub const NOT_A_SCALAR: &'static str = "only scalars can be written as an attribute or a key";

/// What is reported of entries that have no element to stand in.
pub const MAP_WITHOUT_ROOT: &'static str = "root tag name must be specified for a map";

/// What is reported of a key that is written on its own.
pub const KEY_ON_ITS_OWN: &'static str =
    "impossible to serialize the key on its own, please use serialize_entry()";

/// The opening tag with the raw bytes `tag`.
pub open spec fn start_tag(tag: Seq<u8>) -> Seq<u8> {
    seq!['<' as u8] + tag + seq!['>' as u8]
}

/// The empty element with the raw bytes `tag`.
pub open spec fn empty_tag(tag: Seq<u8>) -> Seq<u8> {
    seq!['<' as u8] + tag + seq!['/' as u8, '>' as u8]
}

/// The closing tag of the name `name`.
pub open spec fn end_tag(name: Seq<u8>) -> Seq<u8> {
    seq!['<' as u8, '/' as u8] + name + seq!['>' as u8]
}

/// The attribute `key` with the value `value`, as it stands in a tag.
pub open spec fn attribute(key: Seq<u8>, value: Seq<u8>) -> Seq<u8> {
    seq![' ' as u8] + key + seq!['=' as u8, '"' as u8] + escaped(value, true) + seq!['"' as u8]
}

/// `content` inside an element named `root`, or as it is where there is no
/// such name.
pub open spec fn wrapped(root: Option<Seq<u8>>, content: Seq<u8>) -> Seq<u8> {
    match root {
        Some(name) => start_tag(name) + content + end_tag(name),
        None => content,
    }
}

/// An element while it is written: its name, the raw bytes of its tag, which
/// are the name and the attributes, and the content written so far.
pub struct ElementView {
    pub name: Seq<u8>,
    pub tag: Seq<u8>,
    pub children: Seq<u8>,
}

impl ElementView {
    /// The element without attributes and content.
    pub open spec fn named(name: Seq<u8>) -> ElementView {
        ElementView { name, tag: name, children: Seq::empty() }
    }

    /// The element as it is emitted: self-closing without content, else an
    /// opening tag, the content and a closing tag.
    pub open spec fn closed(self) -> Seq<u8> {
        if self.children.len() == 0 {
            empty_tag(self.tag)
        } else {
            start_tag(self.tag) + self.children + end_tag(self.name)
        }
    }
}

/// The text of a scalar as an attribute's value or as a key; `None` for a
/// value that is absent. A structured value has none.
pub open spec fn scalar_text(v: ValueView) -> Result<Option<Seq<u8>>, SerFailure>
    decreases v,
{
    match v {
        ValueView::Unit => Ok(None),
        ValueView::Bool(b) => Ok(Some(render_bool(b))),
        ValueView::Int(i) => Ok(Some(render_int(i))),
        ValueView::UInt(u) => Ok(Some(render_int(u))),
        ValueView::Str(s) => Ok(Some(encode_utf8(s))),
        ValueView::Bytes(b) => Ok(Some(b)),
        ValueView::Absent => Ok(None),
        ValueView::Present(inner) => scalar_text(*inner),
        ValueView::UnitVariant(tag) => Ok(Some(encode_utf8(tag))),
        _ => Err(SerFailure::Unsupported(NOT_A_SCALAR@)),
    }
}

/// The element `e` after the field `key` with the value `value` is written
/// to it. A key that begins with `@` adds an attribute, and must name it. A
/// key that begins with `$` adds the value's encoding to the content as it
/// is. Any other key adds the value as child elements of that name.
pub open spec fn field_spec(e: ElementView, key: Seq<u8>, value: ValueView) -> Result<
    ElementView,
    SerFailure,
>
    decreases value, 1nat,
{
    if key.len() > 0 && key[0] == ATTRIBUTE_MARKER {
        if key.len() == 1 {
            Err(SerFailure::Custom(ATTRIBUTE_WITHOUT_NAME@))
        } else {
            match scalar_text(value) {
                Err(f) => Err(f),
                Ok(None) => Ok(e),
                Ok(Some(text)) => Ok(
                    ElementView {
                        name: e.name,
                        tag: e.tag + attribute(key.skip(1), text),
                        children: e.children,
                    },
                ),
            }
        }
    } else {
        let root = if key.len() > 0 && key[0] == CONTENT_MARKER {
            None
        } else {
            Some(key)
        };
        match encode_spec(value, root) {
            Err(f) => Err(f),
            Ok(bytes) => Ok(
                ElementView { name: e.name, tag: e.tag, children: e.children + bytes },
            ),
        }
    }
}

/// The element `e` after the fields `fields` are written to it, in order.
pub open spec fn fields_spec(e: ElementView, fields: Seq<(Seq<char>, ValueView)>) -> Result<
    ElementView,
    SerFailure,
>
    decreases fields, 2nat,
{
    if fields.len() == 0 {
        Ok(e)
    } else {
        match field_spec(e, encode_utf8(fields[0].0), fields[0].1) {
            Err(f) => Err(f),
            Ok(next) => fields_spec(next, fields.drop_first()),
        }
    }
}

/// The element `e` after the entries `entries` are written to it, in order.
/// The text of an entry's key is the key of a field.
pub open spec fn entries_spec(e: ElementView, entries: Seq<(ValueView, ValueView)>) -> Result<
    ElementView,
    SerFailure,
>
    decreases entries, 2nat,
{
    if entries.len() == 0 {
        Ok(e)
    } else {
        match scalar_text(entries[0].0) {
            Err(f) => Err(f),
            Ok(None) => Err(SerFailure::Unsupported(OPTION_AS_KEY@)),
            Ok(Some(key)) => match field_spec(e, key, entries[0].1) {
                Err(f) => Err(f),
                Ok(next) => entries_spec(next, entries.drop_first()),
            },
        }
    }
}

/// The encodings of `items`, each under the root `root`, one after another.
pub open spec fn items_spec(items: Seq<ValueView>, root: Option<Seq<u8>>) -> Result<
    Seq<u8>,
    SerFailure,
>
    decreases items, 2nat,
{
    if items.len() == 0 {
        Ok(Seq::empty())
    } else {
        match encode_spec(items[0], root) {
            Err(f) => Err(f),
            Ok(first) => match items_spec(items.drop_first(), root) {
                Err(f) => Err(f),
                Ok(others) => Ok(first + others),
            },
        }
    }
}

/// The encoding of `v` under the root `root`: the name of the element that
/// is to hold the value, where there is one.
///
/// A scalar is its text, inside the root element. A record is one element,
/// named by the root or else by its own name. A sequence has no element of
/// its own: each item is encoded under the root. A variant is named by its
/// tag, which is the root of its payload, and stands inside the root element.
pub open spec fn encode_spec(v: ValueView, root: Option<Seq<u8>>) -> Result<Seq<u8>, SerFailure>
    decreases v, 0nat,
{
    match v {
        ValueView::Unit => Ok(
            match root {
                Some(name) => empty_tag(name),
                None => Seq::empty(),
            },
        ),
        ValueView::Bool(b) => Ok(wrapped(root, render_bool(b))),
        ValueView::Int(i) => Ok(wrapped(root, render_int(i))),
        ValueView::UInt(u) => Ok(wrapped(root, render_int(u))),
        ValueView::Str(s) => Ok(wrapped(root, escaped(encode_utf8(s), false))),
        ValueView::Bytes(b) => Ok(wrapped(root, escaped(b, false))),
        ValueView::Absent => Ok(Seq::empty()),
        ValueView::Present(inner) => encode_spec(*inner, root),
        ValueView::List(items) => items_spec(items, root),
        ValueView::Record(name, fields) => match fields_spec(
            ElementView::named(
                match root {
                    Some(name) => name,
                    None => encode_utf8(name),
                },
            ),
            fields,
        ) {
            Ok(e) => Ok(e.closed()),
            Err(f) => Err(f),
        },
        ValueView::Entries(entries) => match root {
            Some(name) => match entries_spec(ElementView::named(name), entries) {
                Ok(e) => Ok(e.closed()),
                Err(f) => Err(f),
            },
            None => Err(SerFailure::Custom(MAP_WITHOUT_ROOT@)),
        },
        ValueView::UnitVariant(tag) => Ok(wrapped(root, empty_tag(encode_utf8(tag)))),
        ValueView::NewtypeVariant(tag, inner) => match encode_spec(*inner, Some(encode_utf8(tag))) {
            Ok(bytes) => Ok(wrapped(root, bytes)),
            Err(f) => Err(f),
        },
        ValueView::TupleVariant(tag, items) => match items_spec(items, Some(encode_utf8(tag))) {
            Ok(bytes) => Ok(wrapped(root, bytes)),
            Err(f) => Err(f),
        },
        ValueView::StructVariant(tag, fields) => match fields_spec(
            ElementView::named(encode_utf8(tag)),
            fields,
        ) {
            Ok(e) => Ok(wrapped(root, e.closed())),
            Err(f) => Err(f),
        },
    }
}

} // verus!
