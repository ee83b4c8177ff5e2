//! Decoding of XML tokens into typed values.
//!
//! A [`Decoder`] answers the requests of a value model: a scalar of some
//! kind, an option, a record, a sequence, a variant. Each request consumes
//! the tokens of its own subtree and no others.

pub mod cursor;
pub mod decode;
pub mod error;
pub mod escape;
pub mod map;
pub mod model;
pub mod number;
pub mod seq;
pub mod token;
pub mod var;

use vstd::prelude::*;
use vstd::string::StringSliceAdditionalSpecFns;
use crate::bytes::{bytes_eq, str_eq};
use crate::de::cursor::{
    data_tokens, skip_subtree_spec, token_views, xml_broken, xml_events, Cursor, Stream,
};
use crate::de::error::{DeError, Failure};
use crate::de::escape::{
    bool_of, content_of, integer_of, str_of, EscapedDeserializer,
};
use crate::de::map::{map_of, MapAccess, MapAccessView};
use crate::de::seq::{seq_of, SeqAccess};
use crate::de::token::{Token, TokenView};
use crate::de::var::{variant_at, EnumAccess, VariantAccess};
use crate::value::IntKind;
use crate::INNER_VALUE;

verus! {

/// What is reported where a unit is asked for and no element follows.
pub const UNIT_NOT_ELEMENT: &'static str = "Expecting unit, got no element";

/// What a decoder stands at: the stream before it, and whether the record
/// being decoded takes the children that no field names as its inner value.
pub struct DecoderView {
    pub stream: Stream,
    pub has_value_field: bool,
}

/// The next opening tag and the stream behind it, text before it being
/// passed over; no tag at the end of the input.
pub open spec fn next_start_spec(s: Stream) -> Result<(Option<TokenView>, Stream), Failure>
    decreases s.tokens.len(),
{
    if s.tokens.len() == 0 {
        if s.broken {
            Err(Failure::Xml)
        } else {
            Ok((None, s))
        }
    } else {
        match s.tokens[0] {
            TokenView::StartTag { name, tag } => Ok(
                (Some(TokenView::StartTag { name, tag }), s.rest()),
            ),
            TokenView::EndTag { name } => Err(Failure::End),
            TokenView::Eof => Ok((None, s)),
            TokenView::Text { raw, escaped } => next_start_spec(s.rest()),
        }
    }
}

/// The text of the value that the stream begins with, as captured bytes and
/// whether they are escaped, and the stream behind the value. The value is a
/// run of text, or an element that holds at most one run of text; before a
/// closing tag it is empty and nothing is consumed.
pub open spec fn next_text_spec(s: Stream) -> Result<((Seq<u8>, bool), Stream), Failure> {
    match s.first() {
        Err(f) => Err(f),
        Ok(TokenView::Text { raw, escaped }) => Ok(((raw, escaped), s.rest())),
        Ok(TokenView::Eof) => Err(Failure::Eof),
        Ok(TokenView::EndTag { name }) => Ok(((Seq::empty(), true), s)),
        Ok(TokenView::StartTag { name, tag }) => match s.rest().first() {
            Err(f) => Err(f),
            Ok(TokenView::Text { raw, escaped }) => match skip_subtree_spec(
                s.rest().rest(),
                name,
                0,
            ) {
                Ok(after) => Ok(((raw, escaped), after)),
                Err(f) => Err(f),
            },
            Ok(TokenView::StartTag { name: inner, tag: t }) => Err(Failure::Start),
            Ok(TokenView::EndTag { name: end }) => if end == name {
                Ok(((Seq::empty(), true), s.rest().rest()))
            } else {
                Err(Failure::End)
            },
            Ok(TokenView::Eof) => Err(Failure::Eof),
        },
    }
}

/// The boolean that the stream begins with.
pub open spec fn bool_at(s: Stream) -> Result<(bool, Stream), Failure> {
    match next_text_spec(s) {
        Err(f) => Err(f),
        Ok(((raw, escaped), after)) => match bool_of(raw) {
            Ok(b) => Ok((b, after)),
            Err(f) => Err(f),
        },
    }
}

/// The integer of the range `min` to `max` that the stream begins with.
pub open spec fn integer_at(s: Stream, min: int, max: int) -> Result<(int, Stream), Failure> {
    match next_text_spec(s) {
        Err(f) => Err(f),
        Ok(((raw, escaped), after)) => match integer_of(raw, escaped, min, max) {
            Ok(v) => Ok((v, after)),
            Err(f) => Err(f),
        },
    }
}

/// The string that the stream begins with.
pub open spec fn string_at(s: Stream) -> Result<(Seq<char>, Stream), Failure> {
    match next_text_spec(s) {
        Err(f) => Err(f),
        Ok(((raw, escaped), after)) => match str_of(raw, escaped) {
            Ok(text) => Ok((text, after)),
            Err(f) => Err(f),
        },
    }
}

/// The bytes that the stream begins with.
pub open spec fn bytes_at(s: Stream) -> Result<(Seq<u8>, Stream), Failure> {
    match next_text_spec(s) {
        Err(f) => Err(f),
        Ok(((raw, escaped), after)) => match content_of(raw, escaped) {
            Ok(bytes) => Ok((bytes, after)),
            Err(f) => Err(f),
        },
    }
}

/// The stream behind the unit that the stream begins with: an element,
/// whatever it holds.
pub open spec fn unit_at(s: Stream) -> Result<Stream, Failure> {
    match s.first() {
        Err(f) => Err(f),
        Ok(TokenView::StartTag { name, tag }) => skip_subtree_spec(s.rest(), name, 0),
        Ok(other) => Err(Failure::InvalidUnit(UNIT_NOT_ELEMENT@)),
    }
}

/// Whether the stream begins with a value: an empty run of text and the end
/// of the input are none.
pub open spec fn present_at(s: Stream) -> Result<bool, Failure> {
    match s.first() {
        Err(f) => Err(f),
        Ok(TokenView::Text { raw, escaped }) => Ok(raw.len() > 0),
        Ok(TokenView::Eof) => Ok(false),
        Ok(other) => Ok(true),
    }
}

/// The stream behind the value that the stream begins with, whatever it is:
/// a whole element, or one run of text.
pub open spec fn ignored_at(s: Stream) -> Result<Stream, Failure> {
    match s.first() {
        Err(f) => Err(f),
        Ok(TokenView::StartTag { name, tag }) => skip_subtree_spec(s.rest(), name, 0),
        Ok(TokenView::EndTag { name }) => Err(Failure::End),
        Ok(other) => Ok(s.rest()),
    }
}

/// Whether a record with the fields `fields` has one for its inner value.
pub open spec fn names_inner_value(fields: Seq<&str>) -> bool {
    exists|i: int| 0 <= i < fields.len() && (#[trigger] fields[i])@ == INNER_VALUE@
}

/// The record that the stream begins with, its opening tag read and its
/// attributes parsed, and the stream behind that tag.
pub open spec fn struct_at(d: DecoderView) -> Result<(MapAccessView, Stream), Failure> {
    match next_start_spec(d.stream) {
        Err(f) => Err(f),
        Ok((Some(start), after)) => match map_of(start, d.has_value_field) {
            Ok(m) => Ok((m, after)),
            Err(f) => Err(f),
        },
        Ok((None, after)) => Err(Failure::Start),
    }
}

/// What a value is taken to be where no shape is asked for.
#[derive(Debug, Clone, Copy, PartialEq, Eq)]
pub enum Guess {
    /// An element: a record with whatever keys it holds.
    Record,
    /// Nothing, before a closing tag: a unit.
    Unit,
    /// Text.
    Text,
}

/// What the value that the stream begins with is taken to be where no shape
/// is asked for.
pub open spec fn guess_at(s: Stream) -> Result<Guess, Failure> {
    match s.first() {
        Err(f) => Err(f),
        Ok(TokenView::StartTag { name, tag }) => Ok(Guess::Record),
        Ok(TokenView::EndTag { name }) => Ok(Guess::Unit),
        Ok(other) => Ok(Guess::Text),
    }
}

/// The decoder of one document.
pub struct Decoder<'a> {
    cursor: Cursor<'a>,
    has_value_field: bool,
}

impl<'a> View for Decoder<'a> {
    type V = DecoderView;

    closed spec fn view(&self) -> DecoderView {
        DecoderView { stream: self.cursor@, has_value_field: self.has_value_field }
    }
}

impl<'a> Decoder<'a> {
    /// A decoder at the start of the document `input`.
    pub fn new(input: &'a [u8]) -> (de: Decoder<'a>)
        ensures
            de@.stream == (Stream {
                tokens: data_tokens(xml_events(input@)),
                broken: xml_broken(input@),
            }),
            !de@.has_value_field,
    {
        Decoder { cursor: Cursor::new(input), has_value_field: false }
    }

    /// A decoder at the start of the document `input`.
    pub fn from_str(input: &'a str) -> (de: Decoder<'a>)
        ensures
            de@.stream == (Stream {
                tokens: data_tokens(xml_events(input.spec_bytes())),
                broken: xml_broken(input.spec_bytes()),
            }),
            !de@.has_value_field,
    {
        Decoder::new(input.as_bytes())
    }

    /// A decoder before the tokens `tokens`, which end the input. It needs
    /// no tokenizer: the tokens are taken as they are given.
    pub fn from_tokens(tokens: Vec<Token>) -> (de: Decoder<'a>)
        ensures
            de@.stream == (Stream { tokens: token_views(tokens@), broken: false }),
            !de@.has_value_field,
    {
        Decoder { cursor: Cursor::from_tokens(tokens), has_value_field: false }
    }

    /// Whether the record being decoded takes the children that no field
    /// names as its inner value.
    pub fn has_value_field(&self) -> (flag: bool)
        ensures
            flag == self@.has_value_field,
    {
        self.has_value_field
    }

    /// Sets whether the record being decoded takes the children that no
    /// field names as its inner value.
    pub fn set_has_value_field(&mut self, flag: bool)
        ensures
            final(self)@.stream == old(self)@.stream,
            final(self)@.has_value_field == flag,
    {
        self.has_value_field = flag;
    }

    /// The next token, which stays in the stream.
    pub fn peek(&mut self) -> (r: Result<&Token, DeError>)
        ensures
            match old(self)@.stream.first() {
                Ok(t) => r matches Ok(p) && p@ == t && final(self)@ == old(self)@,
                Err(f) => r matches Err(e) && e@ == f,
            },
    {
        self.cursor.peek()
    }

    /// Takes the next token from the stream.
    pub fn next(&mut self) -> (r: Result<Token, DeError>)
        ensures
            final(self)@.has_value_field == old(self)@.has_value_field,
            match old(self)@.stream.first() {
                Ok(t) => r matches Ok(p) && p@ == t && final(self)@.stream == old(
                    self,
                )@.stream.rest(),
                Err(f) => r matches Err(e) && e@ == f,
            },
    {
        self.cursor.next()
    }

    /// Takes the tokens up to and including the next opening tag, which it
    /// returns; at the end of the input there is none. Text before the tag is
    /// passed over, and a closing tag before it is an error.
    pub fn next_start(&mut self) -> (r: Result<Option<Token>, DeError>)
        ensures
            final(self)@.has_value_field == old(self)@.has_value_field,
            match next_start_spec(old(self)@.stream) {
                Ok((start, after)) => {
                    &&& r matches Ok(t)
                    &&& final(self)@.stream == after
                    &&& match start {
                        Some(s) => t matches Some(p) && p@ == s,
                        None => t is None,
                    }
                },
                Err(f) => r matches Err(e) && e@ == f,
            },
    {
        loop
            invariant
                self@.has_value_field == old(self)@.has_value_field,
                next_start_spec(self@.stream) == next_start_spec(old(self)@.stream),
            decreases self@.stream.tokens.len(),
        {
            match self.cursor.next() {
                Err(e) => {
                    return Err(e);
                },
                Ok(Token::StartTag { name, tag }) => {
                    return Ok(Some(Token::StartTag { name, tag }));
                },
                Ok(Token::EndTag { name }) => {
                    return Err(DeError::End);
                },
                Ok(Token::Eof) => {
                    return Ok(None);
                },
                Ok(Token::Text { raw, escaped }) => {},
            }
        }
    }

    /// Discards the tokens up to and including the closing tag `name` of the
    /// element that the decoder is in.
    pub fn read_to_end(&mut self, name: &[u8]) -> (r: Result<(), DeError>)
        ensures
            final(self)@.has_value_field == old(self)@.has_value_field,
            match skip_subtree_spec(old(self)@.stream, name@, 0) {
                Ok(after) => r is Ok && final(self)@.stream == after,
                Err(f) => r matches Err(e) && e@ == f,
            },
    {
        self.cursor.skip_subtree(name)
    }

    /// Takes the value that the stream begins with and returns its text, to
    /// be decoded as a scalar.
    pub fn next_text(&mut self) -> (r: Result<EscapedDeserializer, DeError>)
        ensures
            final(self)@.has_value_field == old(self)@.has_value_field,
            match next_text_spec(old(self)@.stream) {
                Ok(((raw, escaped), after)) => {
                    &&& r matches Ok(text)
                    &&& text.raw() == raw
                    &&& text.is_escaped() == escaped
                    &&& final(self)@.stream == after
                },
                Err(f) => r matches Err(e) && e@ == f,
            },
    {
        match self.cursor.peek() {
            Err(e) => {
                return Err(e);
            },
            Ok(Token::EndTag { name }) => {
                return Ok(EscapedDeserializer::new(Vec::new(), true));
            },
            Ok(_) => {},
        }
        match self.cursor.next() {
            Err(e) => Err(e),
            Ok(Token::Text { raw, escaped }) => Ok(EscapedDeserializer::new(raw, escaped)),
            Ok(Token::Eof) => Err(DeError::Eof),
            Ok(Token::EndTag { name }) => Ok(EscapedDeserializer::new(Vec::new(), true)),
            Ok(Token::StartTag { name, tag }) => {
                match self.cursor.next() {
                    Err(e) => Err(e),
                    Ok(Token::Text { raw, escaped }) => {
                        match self.cursor.skip_subtree(name.as_slice()) {
                            Ok(()) => Ok(EscapedDeserializer::new(raw, escaped)),
                            Err(e) => Err(e),
                        }
                    },
                    Ok(Token::StartTag { name: inner, tag: t }) => Err(DeError::Start),
                    Ok(Token::EndTag { name: end }) => {
                        if bytes_eq(end.as_slice(), name.as_slice()) {
                            Ok(EscapedDeserializer::new(Vec::new(), true))
                        } else {
                            Err(DeError::End)
                        }
                    },
                    Ok(Token::Eof) => Err(DeError::Eof),
                }
            },
        }
    }

    /// Decodes a boolean from the text of the value that the stream begins
    /// with.
    pub fn decode_bool(&mut self) -> (r: Result<bool, DeError>)
        ensures
            final(self)@.has_value_field == old(self)@.has_value_field,
            match bool_at(old(self)@.stream) {
                Ok((b, after)) => r == Ok::<bool, DeError>(b) && final(self)@.stream == after,
                Err(f) => r matches Err(e) && e@ == f,
            },
    {
        match self.next_text() {
            Ok(text) => text.deserialize_bool(),
            Err(e) => Err(e),
        }
    }

    /// Decodes an integer of the type `kind`.
    pub fn decode_integer(&mut self, kind: IntKind) -> (r: Result<i128, DeError>)
        ensures
            final(self)@.has_value_field == old(self)@.has_value_field,
            match integer_at(old(self)@.stream, kind.min(), kind.max()) {
                Ok((v, after)) => r == Ok::<i128, DeError>(v as i128) && final(self)@.stream
                    == after,
                Err(f) => r matches Err(e) && e@ == f,
            },
    {
        match self.next_text() {
            Ok(text) => text.deserialize_integer(kind),
            Err(e) => Err(e),
        }
    }
    /// Decodes an `i8`.
    pub fn decode_i8(&mut self) -> (r: Result<i8, DeError>)
        ensures
            final(self)@.has_value_field == old(self)@.has_value_field,
            match integer_at(old(self)@.stream, i8::MIN as int, i8::MAX as int) {
                Ok((v, after)) => r == Ok::<i8, DeError>(v as i8) && final(self)@.stream == after,
                Err(f) => r matches Err(e) && e@ == f,
            },
    {
        match self.decode_integer(IntKind::I8) {
            Ok(v) => Ok(v as i8),
            Err(e) => Err(e),
        }
    }

    /// Decodes an `i16`.
    pub fn decode_i16(&mut self) -> (r: Result<i16, DeError>)
        ensures
            final(self)@.has_value_field == old(self)@.has_value_field,
            match integer_at(old(self)@.stream, i16::MIN as int, i16::MAX as int) {
                Ok((v, after)) => r == Ok::<i16, DeError>(v as i16) && final(self)@.stream == after,
                Err(f) => r matches Err(e) && e@ == f,
            },
    {
        match self.decode_integer(IntKind::I16) {
            Ok(v) => Ok(v as i16),
            Err(e) => Err(e),
        }
    }

    /// Decodes an `i32`.
    pub fn decode_i32(&mut self) -> (r: Result<i32, DeError>)
        ensures
            final(self)@.has_value_field == old(self)@.has_value_field,
            match integer_at(old(self)@.stream, i32::MIN as int, i32::MAX as int) {
                Ok((v, after)) => r == Ok::<i32, DeError>(v as i32) && final(self)@.stream == after,
                Err(f) => r matches Err(e) && e@ == f,
            },
    {
        match self.decode_integer(IntKind::I32) {
            Ok(v) => Ok(v as i32),
            Err(e) => Err(e),
        }
    }

    /// Decodes an `i64`.
    pub fn decode_i64(&mut self) -> (r: Result<i64, DeError>)
        ensures
            final(self)@.has_value_field == old(self)@.has_value_field,
            match integer_at(old(self)@.stream, i64::MIN as int, i64::MAX as int) {
                Ok((v, after)) => r == Ok::<i64, DeError>(v as i64) && final(self)@.stream == after,
                Err(f) => r matches Err(e) && e@ == f,
            },
    {
        match self.decode_integer(IntKind::I64) {
            Ok(v) => Ok(v as i64),
            Err(e) => Err(e),
        }
    }

    /// Decodes a `u8`.
    pub fn decode_u8(&mut self) -> (r: Result<u8, DeError>)
        ensures
            final(self)@.has_value_field == old(self)@.has_value_field,
            match integer_at(old(self)@.stream, u8::MIN as int, u8::MAX as int) {
                Ok((v, after)) => r == Ok::<u8, DeError>(v as u8) && final(self)@.stream == after,
                Err(f) => r matches Err(e) && e@ == f,
            },
    {
        match self.decode_integer(IntKind::U8) {
            Ok(v) => Ok(v as u8),
            Err(e) => Err(e),
        }
    }

    /// Decodes a `u16`.
    pub fn decode_u16(&mut self) -> (r: Result<u16, DeError>)
        ensures
            final(self)@.has_value_field == old(self)@.has_value_field,
            match integer_at(old(self)@.stream, u16::MIN as int, u16::MAX as int) {
                Ok((v, after)) => r == Ok::<u16, DeError>(v as u16) && final(self)@.stream == after,
                Err(f) => r matches Err(e) && e@ == f,
            },
    {
        match self.decode_integer(IntKind::U16) {
            Ok(v) => Ok(v as u16),
            Err(e) => Err(e),
        }
    }

    /// Decodes a `u32`.
    pub fn decode_u32(&mut self) -> (r: Result<u32, DeError>)
        ensures
            final(self)@.has_value_field == old(self)@.has_value_field,
            match integer_at(old(self)@.stream, u32::MIN as int, u32::MAX as int) {
                Ok((v, after)) => r == Ok::<u32, DeError>(v as u32) && final(self)@.stream == after,
                Err(f) => r matches Err(e) && e@ == f,
            },
    {
        match self.decode_integer(IntKind::U32) {
            Ok(v) => Ok(v as u32),
            Err(e) => Err(e),
        }
    }

    /// Decodes a `u64`.
    pub fn decode_u64(&mut self) -> (r: Result<u64, DeError>)
        ensures
            final(self)@.has_value_field == old(self)@.has_value_field,
            match integer_at(old(self)@.stream, u64::MIN as int, u64::MAX as int) {
                Ok((v, after)) => r == Ok::<u64, DeError>(v as u64) && final(self)@.stream == after,
                Err(f) => r matches Err(e) && e@ == f,
            },
    {
        match self.decode_integer(IntKind::U64) {
            Ok(v) => Ok(v as u64),
            Err(e) => Err(e),
        }
    }

    /// Decodes a string from the text of the value that the stream begins
    /// with.
    pub fn decode_string(&mut self) -> (r: Result<String, DeError>)
        ensures
            final(self)@.has_value_field == old(self)@.has_value_field,
            match string_at(old(self)@.stream) {
                Ok((text, after)) => r matches Ok(s) && s@ == text && final(self)@.stream == after,
                Err(f) => r matches Err(e) && e@ == f,
            },
    {
        match self.next_text() {
            Ok(text) => text.deserialize_str(),
            Err(e) => Err(e),
        }
    }

    /// Decodes bytes from the text of the value that the stream begins with.
    pub fn decode_bytes(&mut self) -> (r: Result<Vec<u8>, DeError>)
        ensures
            final(self)@.has_value_field == old(self)@.has_value_field,
            match bytes_at(old(self)@.stream) {
                Ok((bytes, after)) => r matches Ok(v) && v@ == bytes && final(self)@.stream
                    == after,
                Err(f) => r matches Err(e) && e@ == f,
            },
    {
        match self.next_text() {
            Ok(text) => text.deserialize_bytes(),
            Err(e) => Err(e),
        }
    }

    /// Decodes a unit: takes one whole element, whatever it holds.
    pub fn decode_unit(&mut self) -> (r: Result<(), DeError>)
        ensures
            final(self)@.has_value_field == old(self)@.has_value_field,
            match unit_at(old(self)@.stream) {
                Ok(after) => r is Ok && final(self)@.stream == after,
                Err(f) => r matches Err(e) && e@ == f,
            },
    {
        match self.cursor.next() {
            Err(e) => Err(e),
            Ok(Token::StartTag { name, tag }) => self.cursor.skip_subtree(name.as_slice()),
            Ok(_) => Err(DeError::InvalidUnit(UNIT_NOT_ELEMENT.to_owned())),
        }
    }

    /// Whether an optional value is present. Nothing is consumed: a present
    /// value is decoded next.
    pub fn decode_option(&mut self) -> (r: Result<bool, DeError>)
        ensures
            match present_at(old(self)@.stream) {
                Ok(present) => r == Ok::<bool, DeError>(present) && final(self)@ == old(self)@,
                Err(f) => r matches Err(e) && e@ == f,
            },
    {
        match self.cursor.peek() {
            Err(e) => Err(e),
            Ok(Token::Text { raw, escaped }) => Ok(raw.len() > 0),
            Ok(Token::Eof) => Ok(false),
            Ok(_) => Ok(true),
        }
    }

    /// Whether a record with the fields `fields` has one for its inner value.
    pub fn has_inner_value(fields: &[&str]) -> (found: bool)
        ensures
            found == names_inner_value(fields@),
    {
        let mut i: usize = 0;
        while i < fields.len()
            invariant
                i <= fields@.len(),
                forall|j: int| 0 <= j < i ==> (#[trigger] fields@[j])@ != INNER_VALUE@,
            decreases fields@.len() - i,
        {
            if str_eq(fields[i], INNER_VALUE) {
                return true;
            }
            i += 1;
        }
        false
    }

    /// Begins to decode a record with the fields `fields`: takes the opening
    /// tag of its element and parses the attributes. Until the record ends,
    /// the decoder takes children that no field names as the record's inner
    /// value if and only if a field is named so.
    pub fn decode_struct(&mut self, fields: &[&str]) -> (r: Result<MapAccess, DeError>)
        ensures
            match struct_at(old(self)@) {
                Ok((m, after)) => {
                    &&& r matches Ok(map)
                    &&& map@ == m
                    &&& final(self)@.stream == after
                    &&& final(self)@.has_value_field == names_inner_value(fields@)
                },
                Err(f) => r matches Err(e) && e@ == f,
            },
    {
        self.decode_struct_with(Self::has_inner_value(fields))
    }

    /// Begins to decode a record: takes the opening tag of its element and
    /// parses the attributes. Until the record ends, the decoder takes
    /// children that no field names as the record's inner value if and only
    /// if `has_value_field`.
    pub fn decode_struct_with(&mut self, has_value_field: bool) -> (r: Result<MapAccess, DeError>)
        ensures
            match struct_at(old(self)@) {
                Ok((m, after)) => {
                    &&& r matches Ok(map)
                    &&& map@ == m
                    &&& final(self)@.stream == after
                    &&& final(self)@.has_value_field == has_value_field
                },
                Err(f) => r matches Err(e) && e@ == f,
            },
    {
        match self.next_start() {
            Err(e) => Err(e),
            Ok(None) => Err(DeError::Start),
            Ok(Some(start)) => {
                let map = MapAccess::new(&*self, &start);
                self.has_value_field = has_value_field;
                map
            },
        }
    }

    /// Ends the record of `map`: takes what is left of its element, up to
    /// and including the closing tag. What was in force around the record is
    /// in force again.
    pub fn end_struct(&mut self, map: &MapAccess) -> (r: Result<(), DeError>)
        ensures
            match skip_subtree_spec(old(self)@.stream, map@.name, 0) {
                Ok(after) => {
                    &&& r is Ok
                    &&& final(self)@.stream == after
                    &&& final(self)@.has_value_field == map@.outer
                },
                Err(f) => r matches Err(e) && e@ == f,
            },
    {
        self.has_value_field = map.outer();
        self.cursor.skip_subtree(map.name())
    }

    /// Begins to decode a sequence, of at most `max_size` items where that
    /// is given. The stream is looked at and left as it is.
    pub fn decode_seq(&mut self, max_size: Option<usize>) -> (r: Result<SeqAccess, DeError>)
        ensures
            match seq_of(old(self)@, max_size) {
                Ok(q) => r matches Ok(seq) && seq@ == q && final(self)@ == old(self)@,
                Err(f) => r matches Err(e) && e@ == f,
            },
    {
        SeqAccess::new(self, max_size)
    }

    /// Begins to decode a tuple of `len` items: a sequence of at most that
    /// many.
    pub fn decode_tuple(&mut self, len: usize) -> (r: Result<SeqAccess, DeError>)
        ensures
            match seq_of(old(self)@, Some(len)) {
                Ok(q) => r matches Ok(seq) && seq@ == q && final(self)@ == old(self)@,
                Err(f) => r matches Err(e) && e@ == f,
            },
    {
        SeqAccess::new(self, Some(len))
    }

    /// Tells the variant of a tagged union that is present: its tag, and the
    /// decoder of its payload. The token that names the variant stays in the
    /// stream.
    pub fn decode_enum(&mut self) -> (r: Result<(String, VariantAccess), DeError>)
        ensures
            match variant_at(old(self)@.stream) {
                Ok(tag) => r matches Ok(v) && v.0@ == tag && final(self)@ == old(self)@,
                Err(f) => r matches Err(e) && e@ == f,
            },
    {
        EnumAccess::new().variant(self)
    }

    /// What the value that the stream begins with is taken to be where no
    /// shape is asked for. The stream is looked at and left as it is.
    pub fn guess(&mut self) -> (r: Result<Guess, DeError>)
        ensures
            match guess_at(old(self)@.stream) {
                Ok(g) => r == Ok::<Guess, DeError>(g) && final(self)@ == old(self)@,
                Err(f) => r matches Err(e) && e@ == f,
            },
    {
        match self.cursor.peek() {
            Err(e) => Err(e),
            Ok(Token::StartTag { name, tag }) => Ok(Guess::Record),
            Ok(Token::EndTag { name }) => Ok(Guess::Unit),
            Ok(_) => Ok(Guess::Text),
        }
    }

    /// Takes the value that the stream begins with and drops it. A record
    /// does so with the value of a key that it does not know, so that what
    /// follows is read from the right place.
    pub fn decode_ignored(&mut self) -> (r: Result<(), DeError>)
        ensures
            final(self)@.has_value_field == old(self)@.has_value_field,
            match ignored_at(old(self)@.stream) {
                Ok(after) => r is Ok && final(self)@.stream == after,
                Err(f) => r matches Err(e) && e@ == f,
            },
    {
        match self.cursor.next() {
            Err(e) => Err(e),
            Ok(Token::StartTag { name, tag }) => self.cursor.skip_subtree(name.as_slice()),
            Ok(Token::EndTag { name }) => Err(DeError::End),
            Ok(_) => Ok(()),
        }
    }
}

} // verus!
