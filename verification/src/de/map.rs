//! Decoding of a record from one element: its attributes first, in document
//! order, then its text and its child elements.

use vstd::prelude::*;
use quick_xml::events::BytesStart;
use crate::bytes::copy_bytes;
use crate::de::error::{DeError, Failure};
use crate::de::escape::{text_of, EscapedDeserializer};
use crate::de::token::{Token, TokenView};
use crate::de::{Decoder, DecoderView};
use crate::{ATTRIBUTE_MARKER, INNER_VALUE};

verus! {

/// What `quick_xml::events::BytesStart::attributes` yields for the opening tag
/// with the raw bytes `tag`, of which the first `name_len` are its name: each
/// attribute's key and raw value, in document order, or `None` where an
/// attribute is malformed or a key occurs twice.
pub uninterp spec fn attributes_of(tag: Seq<u8>, name_len: nat) -> Option<
    Seq<(Seq<u8>, Seq<u8>)>,
>;

/// `quick_xml::events::BytesStart::attributes`, collected up to the first
/// error.
#[verifier::external_body]
fn parse_attributes(tag: &[u8], name_len: usize) -> (r: Result<
    Vec<(Vec<u8>, Vec<u8>)>,
    quick_xml::Error,
>)
    ensures
        match attributes_of(tag@, name_len as nat) {
            Some(pairs) => r matches Ok(v) && v.deep_view() == pairs,
            None => r is Err,
        },
{
    BytesStart::borrowed(tag, name_len).attributes().map(
        |a| a.map(|a| (a.key.to_vec(), a.value.into_owned())),
    ).collect()
}

/// The index of the first colon in `name`.
pub open spec fn first_colon(name: Seq<u8>) -> Option<int>
    decreases name.len(),
{
    if name.len() == 0 {
        None
    } else if name[0] == ':' as u8 {
        Some(0)
    } else {
        match first_colon(name.drop_first()) {
            Some(i) => Some(i + 1),
            None => None,
        }
    }
}

/// The local part of a tag's name: what follows its first colon, or all of
/// it where it has none.
pub open spec fn local_name_of(name: Seq<u8>) -> Seq<u8> {
    match first_colon(name) {
        Some(i) => name.skip(i + 1),
        None => name,
    }
}

/// `quick_xml::events::BytesStart::local_name` of a tag with the name `name`:
/// the name without what precedes its first colon, and without that colon.
#[verifier::external_body]
pub(crate) fn local_name(name: &[u8]) -> (local: Vec<u8>)
    ensures
        local@ == local_name_of(name@),
{
    BytesStart::borrowed_name(name).local_name().to_vec()
}

/// Where the value of the key that was fetched last is to be decoded from.
pub enum MapValue {
    /// No key is pending.
    Empty,
    /// The raw value of an attribute.
    Attribute { value: Vec<u8> },
    /// The child element that the stream begins with.
    Nested,
    /// The text or the child element that the stream begins with, as the
    /// record's inner value.
    InnerValue,
}

/// The mathematical value of a [`MapValue`].
pub enum MapValueView {
    Empty,
    Attribute { value: Seq<u8> },
    Nested,
    InnerValue,
}

impl View for MapValue {
    type V = MapValueView;

    open spec fn view(&self) -> MapValueView {
        match *self {
            MapValue::Empty => MapValueView::Empty,
            MapValue::Attribute { value } => MapValueView::Attribute { value: value@ },
            MapValue::Nested => MapValueView::Nested,
            MapValue::InnerValue => MapValueView::InnerValue,
        }
    }
}

/// What a value is decoded from.
pub enum ValueSource {
    /// From the value of an attribute.
    Attribute(EscapedDeserializer),
    /// From the decoder's stream.
    Content,
}

/// The state of a record's decoding: the attributes not yet read, where the
/// pending value is, the name of the record's element, and what was in force
/// around the record: whether the element around it takes unnamed children as
/// its inner value.
pub struct MapAccessView {
    pub attributes: Seq<(Seq<u8>, Seq<u8>)>,
    pub value: MapValueView,
    pub name: Seq<u8>,
    pub outer: bool,
}

/// The key under which a record receives the attribute `key`.
pub open spec fn attr_key(key: Seq<u8>) -> Seq<u8> {
    seq![ATTRIBUTE_MARKER] + key
}

/// The record that the opening tag `start` begins, inside an element of
/// which `outer` says whether it takes unnamed children as its inner value.
pub open spec fn map_of(start: TokenView, outer: bool) -> Result<MapAccessView, Failure> {
    match start {
        TokenView::StartTag { name, tag } => match attributes_of(tag, name.len()) {
            Some(pairs) => Ok(
                MapAccessView { attributes: pairs, value: MapValueView::Empty, name, outer },
            ),
            None => Err(Failure::Xml),
        },
        _ => Err(Failure::Start),
    }
}

/// The next key of a record and the record's state after it. While
/// attributes are unread the key is that of the first of them, whatever the
/// stream holds. After them a run of text gives the inner value's key; so
/// does a child element where the record takes unnamed children as its inner
/// value, and else the child's local name is the key. A closing tag or the
/// end of the input ends the record.
pub open spec fn next_key_spec(m: MapAccessView, d: DecoderView) -> Result<
    (Option<Seq<char>>, MapAccessView),
    Failure,
> {
    if m.attributes.len() > 0 {
        match text_of(attr_key(m.attributes[0].0)) {
            Ok(key) => Ok(
                (
                    Some(key),
                    MapAccessView {
                        attributes: m.attributes.drop_first(),
                        value: MapValueView::Attribute { value: m.attributes[0].1 },
                        name: m.name,
                        outer: m.outer,
                    },
                ),
            ),
            Err(f) => Err(f),
        }
    } else {
        match d.stream.first() {
            Err(f) => Err(f),
            Ok(TokenView::Text { raw, escaped }) => Ok(
                (
                    Some(INNER_VALUE@),
                    MapAccessView {
                        attributes: m.attributes,
                        value: MapValueView::InnerValue,
                        name: m.name,
                        outer: m.outer,
                    },
                ),
            ),
            Ok(TokenView::StartTag { name, tag }) => if d.has_value_field {
                Ok(
                    (
                        Some(INNER_VALUE@),
                        MapAccessView {
                            attributes: m.attributes,
                            value: MapValueView::InnerValue,
                            name: m.name,
                            outer: m.outer,
                        },
                    ),
                )
            } else {
                match text_of(local_name_of(name)) {
                    Ok(key) => Ok(
                        (
                            Some(key),
                            MapAccessView {
                                attributes: m.attributes,
                                value: MapValueView::Nested,
                                name: m.name,
                                outer: m.outer,
                            },
                        ),
                    ),
                    Err(f) => Err(f),
                }
            },
            Ok(other) => Ok((None, m)),
        }
    }
}

/// The decoder of one record.
pub struct MapAccess {
    attributes: Vec<(Vec<u8>, Vec<u8>)>,
    /// How many of the attributes have been read.
    taken: usize,
    value: MapValue,
    name: Vec<u8>,
    /// Whether the element around the record takes unnamed children as its
    /// inner value.
    outer: bool,
}

impl View for MapAccess {
    type V = MapAccessView;

    closed spec fn view(&self) -> MapAccessView {
        MapAccessView {
            attributes: self.attributes.deep_view().skip(self.taken as int),
            value: self.value@,
            name: self.name@,
            outer: self.outer,
        }
    }
}

impl MapAccess {
    /// No more attributes are read than there are.
    #[verifier::type_invariant]
    spec fn wf(&self) -> bool {
        self.taken <= self.attributes@.len()
    }

    /// The key under which a record receives the attribute `key`: the
    /// attribute marker and the attribute's name.
    pub fn create_attr_key(key: &[u8]) -> (marked: Vec<u8>)
        ensures
            marked@ == attr_key(key@),
    {
        let mut result: Vec<u8> = Vec::new();
        result.push(ATTRIBUTE_MARKER);
        let mut i: usize = 0;
        while i < key.len()
            invariant
                i <= key@.len(),
                result@ == attr_key(key@.subrange(0, i as int)),
            decreases key@.len() - i,
        {
            result.push(key[i]);
            assert(key@.subrange(0, i + 1) =~= key@.subrange(0, i as int).push(key@[i as int]));
            assert(result@ =~= attr_key(key@.subrange(0, i + 1)));
            i += 1;
        }
        assert(key@.subrange(0, i as int) =~= key@);
        result
    }

    /// The decoder of the record that the opening tag `start` begins. It
    /// keeps what is in force in `de`, for the end of the record.
    pub fn new(de: &Decoder, start: &Token) -> (r: Result<MapAccess, DeError>)
        ensures
            match map_of(start@, de@.has_value_field) {
                Ok(m) => r matches Ok(map) && map@ == m,
                Err(f) => r matches Err(e) && e@ == f,
            },
    {
        match start {
            Token::StartTag { name, tag } => {
                match parse_attributes(tag.as_slice(), name.len()) {
                    Ok(attributes) => {
                        let map = MapAccess {
                            attributes,
                            taken: 0,
                            value: MapValue::Empty,
                            name: copy_bytes(name.as_slice()),
                            outer: de.has_value_field(),
                        };
                        assert(map.attributes.deep_view().skip(0) =~= map.attributes.deep_view());
                        Ok(map)
                    },
                    Err(e) => Err(DeError::Xml(e)),
                }
            },
            _ => Err(DeError::Start),
        }
    }

    /// The name of the record's element.
    pub fn name(&self) -> (name: &[u8])
        ensures
            name@ == self@.name,
    {
        self.name.as_slice()
    }

    /// How many of the record's attributes are not yet read.
    pub fn unread(&self) -> (n: usize)
        ensures
            n == self@.attributes.len(),
    {
        proof {
            use_type_invariant(self);
        }
        self.attributes.len() - self.taken
    }

    /// Whether the element around the record takes unnamed children as its
    /// inner value.
    pub fn outer(&self) -> (outer: bool)
        ensures
            outer == self@.outer,
    {
        self.outer
    }

    /// Fetches the next key of the record, `None` after the last. The stream
    /// is looked at and left as it is.
    pub fn next_key(&mut self, de: &mut Decoder) -> (r: Result<Option<String>, DeError>)
        ensures
            match next_key_spec(old(self)@, old(de)@) {
                Ok((key, m)) => {
                    &&& r matches Ok(k)
                    &&& match key {
                        Some(text) => k matches Some(s) && s@ == text,
                        None => k is None,
                    }
                    &&& final(self)@ == m
                    &&& final(de)@ == old(de)@
                },
                Err(f) => r matches Err(e) && e@ == f,
            },
    {
        proof {
            use_type_invariant(&*self);
        }
        if self.taken < self.attributes.len() {
            let ghost before = self.attributes.deep_view().skip(self.taken as int);
            let key = Self::create_attr_key(self.attributes[self.taken].0.as_slice());
            let value = copy_bytes(self.attributes[self.taken].1.as_slice());
            proof {
                assert(before[0] == self.attributes.deep_view()[self.taken as int]);
                assert(self.attributes.deep_view()[self.taken as int] == (
                    self.attributes@[self.taken as int].0@,
                    self.attributes@[self.taken as int].1@,
                ));
                assert(before.drop_first() =~= self.attributes.deep_view().skip(self.taken + 1));
            }
            self.value = MapValue::Attribute { value };
            self.taken = self.taken + 1;
            match EscapedDeserializer::new(key, false).deserialize_str() {
                Ok(key) => Ok(Some(key)),
                Err(e) => Err(e),
            }
        } else {
            assert(self.attributes.deep_view().skip(self.taken as int).len() == 0);
            let has_value_field = de.has_value_field();
            match de.peek() {
                Err(e) => Err(e),
                Ok(Token::Text { raw, escaped }) => {
                    self.value = MapValue::InnerValue;
                    Ok(Some(INNER_VALUE.to_owned()))
                },
                Ok(Token::StartTag { name, tag }) => {
                    if has_value_field {
                        self.value = MapValue::InnerValue;
                        Ok(Some(INNER_VALUE.to_owned()))
                    } else {
                        let name = local_name(name.as_slice());
                        self.value = MapValue::Nested;
                        match EscapedDeserializer::new(name, false).deserialize_str() {
                            Ok(key) => Ok(Some(key)),
                            Err(e) => Err(e),
                        }
                    }
                },
                Ok(_) => Ok(None),
            }
        }
    }

    /// Where the value of the key that was fetched last is to be decoded
    /// from. Without such a key that is an error.
    pub fn next_value(&mut self) -> (r: Result<ValueSource, DeError>)
        ensures
            match old(self)@.value {
                MapValueView::Empty => r matches Err(e) && e@ == Failure::EndOfAttributes,
                MapValueView::Attribute { value } => {
                    &&& r matches Ok(ValueSource::Attribute(d))
                    &&& d.raw() == value
                    &&& d.is_escaped()
                },
                _ => r matches Ok(ValueSource::Content),
            },
            r is Ok ==> final(self)@ == (MapAccessView {
                attributes: old(self)@.attributes,
                value: MapValueView::Empty,
                name: old(self)@.name,
                outer: old(self)@.outer,
            }),
    {
        proof {
            use_type_invariant(&*self);
        }
        let mut value = MapValue::Empty;
        core::mem::swap(&mut self.value, &mut value);
        match value {
            MapValue::Attribute { value } => Ok(
                ValueSource::Attribute(EscapedDeserializer::new(value, true)),
            ),
            MapValue::Nested => Ok(ValueSource::Content),
            MapValue::InnerValue => Ok(ValueSource::Content),
            MapValue::Empty => Err(DeError::EndOfAttributes),
        }
    }
}

} // verus!
