//! The encoders of records and of sequences.

use vstd::prelude::*;
use vstd::slice::slice_subrange;
use vstd::string::StringSliceAdditionalSpecFns;
use crate::bytes::copy_bytes;
use crate::ser::attributes::AttributeSerializer;
use crate::ser::error::{SerError, SerFailure};
use crate::ser::model::{
    attribute, encode_spec, end_tag, field_spec, scalar_text, ElementView,
    ATTRIBUTE_WITHOUT_NAME, KEY_ON_ITS_OWN, OPTION_AS_KEY,
};
use crate::ser::writer::{escape, push_attribute};
use crate::ser::Serializer;
use crate::value::Value;
use crate::{ATTRIBUTE_MARKER, CONTENT_MARKER};

verus! {

/// The encoder of one element: of a record, of entries, or of a variant with
/// named fields.
pub struct Struct {
    /// The element's name.
    name: Vec<u8>,
    /// The element's tag: its name and the fields written as attributes.
    attrs: Vec<u8>,
    /// The fields written as content.
    children: Vec<u8>,
}

impl View for Struct {
    type V = ElementView;

    closed spec fn view(&self) -> ElementView {
        ElementView { name: self.name@, tag: self.attrs@, children: self.children@ }
    }
}

impl Struct {
    /// The encoder of an element named `name`, without attributes and
    /// content.
    pub fn new(name: &str) -> (element: Struct)
        ensures
            element@ == ElementView::named(name.spec_bytes()),
    {
        Struct::named(name.as_bytes())
    }

    /// The encoder of an element named `name`, without attributes and
    /// content.
    pub fn named(name: &[u8]) -> (element: Struct)
        ensures
            element@ == ElementView::named(name@),
    {
        Struct { name: copy_bytes(name), attrs: copy_bytes(name), children: Vec::new() }
    }

    /// Writes the field `key` with the value `value` to the element. A
    /// field that can not be written leaves the element as it was.
    pub fn serialize_tag(&mut self, key: &[u8], value: &Value) -> (r: Result<(), SerError>)
        ensures
            match field_spec(old(self)@, key@, value@) {
                Ok(e) => r is Ok && final(self)@ == e,
                Err(f) => r matches Err(e) && e@ == f && final(self)@ == old(self)@,
            },
        decreases value, 1nat,
    {
        if key.len() > 0 && key[0] == ATTRIBUTE_MARKER {
            if key.len() == 1 {
                return Err(SerError::Custom(ATTRIBUTE_WITHOUT_NAME.to_owned()));
            }
            let mut serializer = AttributeSerializer::new();
            match serializer.serialize(value) {
                Err(e) => Err(e),
                Ok(None) => Ok(()),
                Ok(Some(text)) => {
                    let value = escape(text.as_slice());
                    let name = slice_subrange(key, 1, key.len());
                    assert(name@ =~= key@.skip(1));
                    push_attribute(&mut self.attrs, name, value.as_slice());
                    assert(self.attrs@ =~= old(self).attrs@ + attribute(key@.skip(1), text@));
                    Ok(())
                },
            }
        } else {
            let root = if key.len() > 0 && key[0] == CONTENT_MARKER {
                None
            } else {
                Some(copy_bytes(key))
            };
            let mut serializer = Serializer::with_root(root);
            match serializer.serialize_value(value) {
                Err(e) => Err(e),
                Ok(()) => {
                    let mut buffer = serializer.into_inner();
                    self.children.append(&mut buffer);
                    Ok(())
                },
            }
        }
    }

    /// Emits the element to `parent`: self-closing where nothing was written
    /// as content, else as an opening tag, the content and a closing tag.
    pub fn close(&self, parent: &mut Serializer) -> (r: Result<(), SerError>)
        ensures
            r is Ok,
            final(parent).root() == old(parent).root(),
            final(parent).output() == old(parent).output() + self@.closed(),
    {
        if self.children.len() == 0 {
            parent.write_self_closed(self.attrs.as_slice());
        } else {
            parent.write_tag_start(self.attrs.as_slice());
            parent.write(self.children.as_slice());
            parent.write_tag_end(self.name.as_slice());
        }
        assert(parent.output() =~= old(parent).output() + self@.closed());
        Ok(())
    }

    /// Writes one field of a record. A field that can not be written leaves
    /// the element as it was.
    pub fn serialize_field(&mut self, key: &str, value: &Value) -> (r: Result<(), SerError>)
        ensures
            match field_spec(old(self)@, key.spec_bytes(), value@) {
                Ok(e) => r is Ok && final(self)@ == e,
                Err(f) => r matches Err(e) && e@ == f && final(self)@ == old(self)@,
            },
        decreases value, 2nat,
    {
        self.serialize_tag(key.as_bytes(), value)
    }

    /// Ends a record: emits its element to `parent`.
    pub fn end(self, parent: &mut Serializer) -> (r: Result<(), SerError>)
        ensures
            r is Ok,
            final(parent).root() == old(parent).root(),
            final(parent).output() == old(parent).output() + self@.closed(),
    {
        self.close(parent)
    }

    /// Ends a variant with named fields: emits its element to `parent`, and
    /// closes the root element, where there is one, that was opened around
    /// the variant.
    pub fn end_variant(self, parent: &mut Serializer) -> (r: Result<(), SerError>)
        ensures
            r is Ok,
            final(parent).root() == old(parent).root(),
            final(parent).output() == old(parent).output() + self@.closed() + match old(
                parent,
            ).root() {
                Some(root) => end_tag(root),
                None => Seq::empty(),
            },
    {
        let _ = self.close(parent);
        parent.write_root_end();
        assert(final(parent).output() =~= old(parent).output() + self@.closed() + match old(
            parent,
        ).root() {
            Some(root) => end_tag(root),
            None => Seq::empty(),
        });
        Ok(())
    }

    /// A key can not be written without its value.
    pub fn serialize_key(&mut self, key: &Value) -> (r: Result<(), SerError>)
        ensures
            final(self)@ == old(self)@,
            r matches Err(e) && e@ == SerFailure::Unsupported(KEY_ON_ITS_OWN@),
    {
        Err(SerError::Unsupported(KEY_ON_ITS_OWN))
    }

    /// Writes a value without a key: it is encoded to `parent`, before the
    /// element.
    pub fn serialize_value(&mut self, parent: &mut Serializer, value: &Value) -> (r: Result<
        (),
        SerError,
    >)
        ensures
            final(self)@ == old(self)@,
            final(parent).root() == old(parent).root(),
            match encode_spec(value@, old(parent).root()) {
                Ok(bytes) => r is Ok && final(parent).output() == old(parent).output() + bytes,
                Err(f) => r matches Err(e) && e@ == f,
            },
    {
        parent.serialize_value(value)
    }

    /// Writes one entry: the text of the scalar `key` is the key of a field
    /// with the value `value`. A key that is absent is refused. An entry
    /// that can not be written leaves the element as it was.
    pub fn serialize_entry(&mut self, key: &Value, value: &Value) -> (r: Result<(), SerError>)
        ensures
            r is Err ==> final(self)@ == old(self)@,
            match scalar_text(key@) {
                Err(f) => r matches Err(e) && e@ == f,
                Ok(None) => r matches Err(e) && e@ == SerFailure::Unsupported(OPTION_AS_KEY@),
                Ok(Some(tag)) => match field_spec(old(self)@, tag, value@) {
                    Ok(e) => r is Ok && final(self)@ == e,
                    Err(f) => r matches Err(e) && e@ == f,
                },
            },
        decreases value, 2nat,
    {
        let mut serializer = AttributeSerializer::new();
        match serializer.serialize(key) {
            Err(e) => Err(e),
            Ok(None) => Err(SerError::Unsupported(OPTION_AS_KEY)),
            Ok(Some(tag)) => self.serialize_tag(tag.as_slice(), value),
        }
    }
}

/// The encoder of a sequence or a tuple. A sequence has no element of its
/// own: each item is encoded under the root of `parent`.
pub struct SeqEncoder {}

impl SeqEncoder {
    /// A new encoder of a sequence.
    pub fn new() -> Self {
        SeqEncoder {  }
    }

    /// Writes one item.
    pub fn serialize_item(&mut self, parent: &mut Serializer, value: &Value) -> (r: Result<
        (),
        SerError,
    >)
        ensures
            final(parent).root() == old(parent).root(),
            match encode_spec(value@, old(parent).root()) {
                Ok(bytes) => r is Ok && final(parent).output() == old(parent).output() + bytes,
                Err(f) => r matches Err(e) && e@ == f,
            },
        decreases value, 1nat,
    {
        parent.serialize_value(value)
    }

    /// Ends a sequence: nothing is left to write.
    pub fn end(self) -> (r: Result<(), SerError>)
        ensures
            r is Ok,
    {
        Ok(())
    }

    /// Ends a variant with positional values: closes the root element, where
    /// there is one, that was opened around the variant.
    pub fn end_variant(self, parent: &mut Serializer) -> (r: Result<(), SerError>)
        ensures
            r is Ok,
            final(parent).root() == old(parent).root(),
            final(parent).output() == old(parent).output() + match old(parent).root() {
                Some(root) => end_tag(root),
                None => Seq::empty(),
            },
    {
        parent.write_root_end();
        Ok(())
    }
}

} // verus!
