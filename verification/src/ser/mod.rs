//! Encoding of typed values as XML.

pub mod attributes;
pub mod error;
pub mod model;
pub mod text;
pub mod var;
pub mod writer;

use vstd::prelude::*;
use vstd::string::StringSliceAdditionalSpecFns;
use vstd::utf8::encode_utf8;
use crate::bytes::copy_bytes;
use crate::ser::error::{SerError, SerFailure};
use crate::ser::model::{
    empty_tag, encode_spec, end_tag, entries_spec, fields_spec, items_spec, start_tag, wrapped,
    ElementView, MAP_WITHOUT_ROOT,
};
use crate::ser::text::{bool_text, escape_text, escaped, render_bool, render_int, signed_text, unsigned_text};
use crate::ser::var::{SeqEncoder, Struct};
use crate::ser::writer::{write_event, Markup};
use crate::value::{entry_views, field_views, views, Value, ValueView};

verus! {

/// The encoder of values. It appends to a buffer of its own, and knows the
/// name of the root: the element that is to hold what it encodes next.
pub struct Serializer {
    writer: Vec<u8>,
    root_tag: Option<Vec<u8>>,
}

impl Serializer {
    /// The bytes written so far.
    pub closed spec fn output(&self) -> Seq<u8> {
        self.writer@
    }

    /// The name of the root element, where there is one.
    pub closed spec fn root(&self) -> Option<Seq<u8>> {
        match self.root_tag {
            Some(name) => Some(name@),
            None => None,
        }
    }

    /// An encoder without a root: a record is named by its own name, and a
    /// scalar stands bare.
    pub fn new() -> (ser: Serializer)
        ensures
            ser.output() == Seq::<u8>::empty(),
            ser.root() is None,
    {
        Serializer { writer: Vec::new(), root_tag: None }
    }

    /// An encoder with the root `root`.
    pub fn new_with_root(root: Option<&str>) -> (ser: Serializer)
        ensures
            ser.output() == Seq::<u8>::empty(),
            ser.root() == match root {
                Some(name) => Some(name.spec_bytes()),
                None => None,
            },
    {
        match root {
            Some(name) => Serializer::with_root(Some(copy_bytes(name.as_bytes()))),
            None => Serializer::with_root(None),
        }
    }

    /// An encoder with the root `root`.
    pub fn with_root(root: Option<Vec<u8>>) -> (ser: Serializer)
        ensures
            ser.output() == Seq::<u8>::empty(),
            ser.root() == match root {
                Some(name) => Some(name@),
                None => None,
            },
    {
        Serializer { writer: Vec::new(), root_tag: root }
    }

    /// The bytes written.
    pub fn into_inner(self) -> (bytes: Vec<u8>)
        ensures
            bytes@ == self.output(),
    {
        self.writer
    }

    /// Appends bytes as they are.
    pub fn write(&mut self, bytes: &[u8])
        ensures
            final(self).root() == old(self).root(),
            final(self).output() == old(self).output() + bytes@,
    {
        let mut i: usize = 0;
        while i < bytes.len()
            invariant
                i <= bytes@.len(),
                self.root() == old(self).root(),
                self.output() == old(self).output() + bytes@.subrange(0, i as int),
            decreases bytes@.len() - i,
        {
            self.writer.push(bytes[i]);
            assert(bytes@.subrange(0, i + 1) =~= bytes@.subrange(0, i as int).push(bytes@[i as int]));
            assert(self.output() =~= old(self).output() + bytes@.subrange(0, i + 1));
            i += 1;
        }
        assert(bytes@.subrange(0, i as int) =~= bytes@);
    }

    /// Appends the opening tag with the raw bytes `tag`.
    pub fn write_tag_start(&mut self, tag: &[u8])
        ensures
            final(self).root() == old(self).root(),
            final(self).output() == old(self).output() + start_tag(tag@),
    {
        write_event(&mut self.writer, Markup::Start, tag);
        assert(self.output() =~= old(self).output() + start_tag(tag@));
    }

    /// Appends the closing tag of the name `name`.
    pub fn write_tag_end(&mut self, name: &[u8])
        ensures
            final(self).root() == old(self).root(),
            final(self).output() == old(self).output() + end_tag(name@),
    {
        write_event(&mut self.writer, Markup::End, name);
        assert(self.output() =~= old(self).output() + end_tag(name@));
    }

    /// Appends the empty element with the raw bytes `tag`.
    pub fn write_self_closed(&mut self, tag: &[u8])
        ensures
            final(self).root() == old(self).root(),
            final(self).output() == old(self).output() + empty_tag(tag@),
    {
        write_event(&mut self.writer, Markup::Empty, tag);
        assert(self.output() =~= old(self).output() + empty_tag(tag@));
    }

    /// Appends the opening tag of the root element, where there is one.
    pub fn write_root_start(&mut self)
        ensures
            final(self).root() == old(self).root(),
            final(self).output() == old(self).output() + match old(self).root() {
                Some(root) => start_tag(root),
                None => Seq::empty(),
            },
    {
        match &self.root_tag {
            Some(root) => {
                write_event(&mut self.writer, Markup::Start, root.as_slice());
                assert(self.output() =~= old(self).output() + start_tag(root@));
            },
            None => {
                assert(self.output() =~= old(self).output() + Seq::<u8>::empty());
            },
        }
    }

    /// Appends the closing tag of the root element, where there is one.
    pub fn write_root_end(&mut self)
        ensures
            final(self).root() == old(self).root(),
            final(self).output() == old(self).output() + match old(self).root() {
                Some(root) => end_tag(root),
                None => Seq::empty(),
            },
    {
        match &self.root_tag {
            Some(root) => {
                write_event(&mut self.writer, Markup::End, root.as_slice());
                assert(self.output() =~= old(self).output() + end_tag(root@));
            },
            None => {
                assert(self.output() =~= old(self).output() + Seq::<u8>::empty());
            },
        }
    }

    /// Appends `content` inside the root element, or as it is without a
    /// root.
    pub fn write_wrapped(&mut self, content: &[u8])
        ensures
            final(self).root() == old(self).root(),
            final(self).output() == old(self).output() + wrapped(old(self).root(), content@),
    {
        self.write_root_start();
        self.write(content);
        self.write_root_end();
        assert(self.output() =~= old(self).output() + wrapped(old(self).root(), content@));
    }

    /// Writes a boolean: `true` or `false`, inside the root element.
    pub fn serialize_bool(&mut self, v: bool)
        ensures
            final(self).root() == old(self).root(),
            final(self).output() == old(self).output() + wrapped(old(self).root(), render_bool(v)),
    {
        let text = bool_text(v);
        self.write_wrapped(text.as_slice());
    }

    /// Writes a signed integer in decimal, inside the root element.
    pub fn serialize_i64(&mut self, v: i64)
        ensures
            final(self).root() == old(self).root(),
            final(self).output() == old(self).output() + wrapped(
                old(self).root(),
                render_int(v as int),
            ),
    {
        let text = signed_text(v);
        self.write_wrapped(text.as_slice());
    }

    /// Writes an unsigned integer in decimal, inside the root element.
    pub fn serialize_u64(&mut self, v: u64)
        ensures
            final(self).root() == old(self).root(),
            final(self).output() == old(self).output() + wrapped(
                old(self).root(),
                render_int(v as int),
            ),
    {
        let text = unsigned_text(v);
        self.write_wrapped(text.as_slice());
    }

    /// Writes text, escaped for element content.
    pub fn serialize_bytes(&mut self, v: &[u8])
        ensures
            final(self).root() == old(self).root(),
            final(self).output() == old(self).output() + wrapped(
                old(self).root(),
                escaped(v@, false),
            ),
    {
        let text = escape_text(v);
        self.write_wrapped(text.as_slice());
    }

    /// Writes text, escaped for element content.
    pub fn serialize_str(&mut self, v: &str)
        ensures
            final(self).root() == old(self).root(),
            final(self).output() == old(self).output() + wrapped(
                old(self).root(),
                escaped(v.spec_bytes(), false),
            ),
    {
        self.serialize_bytes(v.as_bytes());
    }

    /// Writes an absent value: nothing.
    pub fn serialize_none(&mut self)
        ensures
            final(self).root() == old(self).root(),
            final(self).output() == old(self).output(),
    {
    }

    /// Writes a unit: the root element, empty, where there is one.
    pub fn serialize_unit(&mut self)
        ensures
            final(self).root() == old(self).root(),
            final(self).output() == old(self).output() + match old(self).root() {
                Some(name) => empty_tag(name),
                None => Seq::empty(),
            },
    {
        match &self.root_tag {
            Some(root) => {
                write_event(&mut self.writer, Markup::Empty, root.as_slice());
                assert(self.output() =~= old(self).output() + empty_tag(root@));
            },
            None => {
                assert(self.output() =~= old(self).output() + Seq::<u8>::empty());
            },
        }
    }

    /// Begins a record named `name`: its element is named by the root, or
    /// else by `name`.
    pub fn serialize_struct(&mut self, name: &str) -> (element: Struct)
        ensures
            final(self).root() == old(self).root(),
            final(self).output() == old(self).output(),
            element@ == ElementView::named(
                match old(self).root() {
                    Some(root) => root,
                    None => name.spec_bytes(),
                },
            ),
    {
        match &self.root_tag {
            Some(root) => Struct::named(root.as_slice()),
            None => Struct::new(name),
        }
    }

    /// Begins a sequence.
    pub fn serialize_seq(&mut self) -> (seq: SeqEncoder)
        ensures
            final(self).root() == old(self).root(),
            final(self).output() == old(self).output(),
    {
        SeqEncoder::new()
    }

    /// Writes the items `items`, each under the root.
    fn serialize_items(&mut self, items: &Vec<Value>) -> (r: Result<(), SerError>)
        ensures
            final(self).root() == old(self).root(),
            match items_spec(views(items@), old(self).root()) {
                Ok(bytes) => r is Ok && final(self).output() == old(self).output() + bytes,
                Err(f) => r matches Err(e) && e@ == f,
            },
        decreases items, 2nat,
    {
        let mut seq = self.serialize_seq();
        let ghost mut written: Seq<u8> = Seq::empty();
        let mut i: usize = 0;
        let ghost all = views(items@);
        assert(all.skip(0) =~= all);
        while i < items.len()
            invariant
                i <= items@.len(),
                all == views(items@),
                self.root() == old(self).root(),
                self.output() == old(self).output() + written,
                items_spec(all, old(self).root()) == match items_spec(
                    all.skip(i as int),
                    old(self).root(),
                ) {
                    Ok(rest) => Ok::<Seq<u8>, SerFailure>(written + rest),
                    Err(f) => Err(f),
                },
            decreases items@.len() - i,
        {
            let ghost before = self.output();
            assert(all.skip(i as int)[0] == items@[i as int]@);
            assert(all.skip(i as int).drop_first() =~= all.skip(i + 1));
            match seq.serialize_item(self, &items[i]) {
                Err(e) => {
                    return Err(e);
                },
                Ok(()) => {},
            }
            proof {
                let item = encode_spec(items@[i as int]@, old(self).root())->Ok_0;
                assert(self.output() =~= old(self).output() + (written + item));
                match items_spec(all.skip(i + 1), old(self).root()) {
                    Ok(rest) => {
                        assert(written + (item + rest) =~= (written + item) + rest);
                    },
                    Err(f) => {},
                }
                written = written + item;
            }
            i += 1;
        }
        assert(all.skip(i as int) =~= Seq::<ValueView>::empty());
        assert(written + Seq::<u8>::empty() =~= written);
        seq.end()
    }

    /// Writes the fields `fields` to `element`.
    fn serialize_fields(element: &mut Struct, fields: &Vec<(String, Value)>) -> (r: Result<
        (),
        SerError,
    >)
        ensures
            match fields_spec(old(element)@, field_views(fields@)) {
                Ok(e) => r is Ok && final(element)@ == e,
                Err(f) => r matches Err(e) && e@ == f,
            },
        decreases fields, 2nat,
    {
        let mut i: usize = 0;
        let ghost all = field_views(fields@);
        assert(all.skip(0) =~= all);
        while i < fields.len()
            invariant
                i <= fields@.len(),
                all == field_views(fields@),
                fields_spec(element@, all.skip(i as int)) == fields_spec(old(element)@, all),
            decreases fields@.len() - i,
        {
            assert(all.skip(i as int)[0] == (fields@[i as int].0@, fields@[i as int].1@));
            assert(all.skip(i as int).drop_first() =~= all.skip(i + 1));
            match element.serialize_field(fields[i].0.as_str(), &fields[i].1) {
                Err(e) => {
                    return Err(e);
                },
                Ok(()) => {},
            }
            i += 1;
        }
        assert(all.skip(i as int) =~= Seq::<(Seq<char>, ValueView)>::empty());
        Ok(())
    }

    /// Writes the entries `entries` to `element`.
    fn serialize_entries(element: &mut Struct, entries: &Vec<(Value, Value)>) -> (r: Result<
        (),
        SerError,
    >)
        ensures
            match entries_spec(old(element)@, entry_views(entries@)) {
                Ok(e) => r is Ok && final(element)@ == e,
                Err(f) => r matches Err(e) && e@ == f,
            },
        decreases entries, 3nat,
    {
        let mut i: usize = 0;
        let ghost all = entry_views(entries@);
        assert(all.skip(0) =~= all);
        while i < entries.len()
            invariant
                i <= entries@.len(),
                all == entry_views(entries@),
                entries_spec(element@, all.skip(i as int)) == entries_spec(old(element)@, all),
            decreases entries@.len() - i,
        {
            assert(all.skip(i as int)[0] == (entries@[i as int].0@, entries@[i as int].1@));
            assert(all.skip(i as int).drop_first() =~= all.skip(i + 1));
            match element.serialize_entry(&entries[i].0, &entries[i].1) {
                Err(e) => {
                    return Err(e);
                },
                Ok(()) => {},
            }
            i += 1;
        }
        assert(all.skip(i as int) =~= Seq::<(ValueView, ValueView)>::empty());
        Ok(())
    }

    /// Appends `content` inside the root element, or as it is without a
    /// root.
    fn finish_wrapped(&mut self, inner: Serializer)
        ensures
            final(self).root() == old(self).root(),
            final(self).output() == old(self).output() + wrapped(old(self).root(), inner.output()),
    {
        let content = inner.into_inner();
        self.write_wrapped(content.as_slice());
    }

    /// Encodes `value` under the root.
    pub fn serialize_value(&mut self, value: &Value) -> (r: Result<(), SerError>)
        ensures
            final(self).root() == old(self).root(),
            match encode_spec(value@, old(self).root()) {
                Ok(bytes) => r is Ok && final(self).output() == old(self).output() + bytes,
                Err(f) => r matches Err(e) && e@ == f,
            },
        decreases value, 0nat,
    {
        match value {
            Value::Unit => {
                self.serialize_unit();
                Ok(())
            },
            Value::Bool(b) => {
                self.serialize_bool(*b);
                Ok(())
            },
            Value::Int(i) => {
                self.serialize_i64(*i);
                Ok(())
            },
            Value::UInt(u) => {
                self.serialize_u64(*u);
                Ok(())
            },
            Value::Str(s) => {
                self.serialize_str(s.as_str());
                Ok(())
            },
            Value::Bytes(b) => {
                self.serialize_bytes(b.as_slice());
                Ok(())
            },
            Value::Absent => {
                self.serialize_none();
                assert(self.output() =~= old(self).output() + Seq::<u8>::empty());
                Ok(())
            },
            Value::Present(inner) => self.serialize_value(inner),
            Value::List(items) => self.serialize_items(items),
            Value::Record(name, fields) => {
                let mut element = self.serialize_struct(name.as_str());
                match Self::serialize_fields(&mut element, fields) {
                    Err(e) => Err(e),
                    Ok(()) => element.end(self),
                }
            },
            Value::Entries(entries) => {
                let mut element = match &self.root_tag {
                    Some(root) => Struct::named(root.as_slice()),
                    None => {
                        return Err(SerError::Custom(MAP_WITHOUT_ROOT.to_owned()));
                    },
                };
                match Self::serialize_entries(&mut element, entries) {
                    Err(e) => Err(e),
                    Ok(()) => element.end(self),
                }
            },
            Value::UnitVariant(tag) => {
                let mut inner = Serializer::new();
                inner.write_self_closed(tag.as_str().as_bytes());
                assert(inner.output() =~= empty_tag(encode_utf8(tag@)));
                self.finish_wrapped(inner);
                Ok(())
            },
            Value::NewtypeVariant(tag, payload) => {
                let mut inner = Serializer::with_root(Some(copy_bytes(tag.as_str().as_bytes())));
                match inner.serialize_value(payload) {
                    Err(e) => Err(e),
                    Ok(()) => {
                        assert(inner.output() =~= encode_spec(payload@, inner.root())->Ok_0);
                        self.finish_wrapped(inner);
                        Ok(())
                    },
                }
            },
            Value::TupleVariant(tag, items) => {
                let mut inner = Serializer::with_root(Some(copy_bytes(tag.as_str().as_bytes())));
                match inner.serialize_items(items) {
                    Err(e) => Err(e),
                    Ok(()) => {
                        assert(inner.output() =~= items_spec(views(items@), inner.root())->Ok_0);
                        self.write_root_start();
                        let content = inner.into_inner();
                        self.write(content.as_slice());
                        let seq = self.serialize_seq();
                        let _ = seq.end_variant(self);
                        assert(self.output() =~= old(self).output() + wrapped(
                            old(self).root(),
                            content@,
                        ));
                        Ok(())
                    },
                }
            },
            Value::StructVariant(tag, fields) => {
                let mut element = Struct::new(tag.as_str());
                match Self::serialize_fields(&mut element, fields) {
                    Err(e) => Err(e),
                    Ok(()) => {
                        self.write_root_start();
                        let ghost closed = element@.closed();
                        let _ = element.end_variant(self);
                        assert(self.output() =~= old(self).output() + wrapped(
                            old(self).root(),
                            closed,
                        ));
                        Ok(())
                    },
                }
            },
        }
    }
}

/// Encodes `value` as a document: under the root `root`, or without a root,
/// so that a record is named by its own name.
pub fn to_vec(value: &Value, root: Option<&str>) -> (r: Result<Vec<u8>, SerError>)
    ensures
        match encode_spec(
            value@,
            match root {
                Some(name) => Some(name.spec_bytes()),
                None => None,
            },
        ) {
            Ok(bytes) => r matches Ok(v) && v@ == bytes,
            Err(f) => r matches Err(e) && e@ == f,
        },
{
    let mut serializer = Serializer::new_with_root(root);
    match serializer.serialize_value(value) {
        Err(e) => Err(e),
        Ok(()) => {
            assert(serializer.output() =~= encode_spec(value@, serializer.root())->Ok_0);
            Ok(serializer.into_inner())
        },
    }
}

} // verus!
