//! Decoding of a variant of a tagged union: the next token selects it.

use vstd::prelude::*;
use crate::bytes::copy_bytes;
use crate::de::cursor::{skip_subtree_spec, Stream};
use crate::de::error::{DeError, Failure};
use crate::de::escape::{str_of, EscapedDeserializer};
use crate::de::map::{local_name, local_name_of, MapAccess};
use crate::de::seq::{seq_of, SeqAccess};
use crate::de::token::{Token, TokenView};
use crate::de::{names_inner_value, struct_at, Decoder};

verus! {

/// The tag of the variant that the stream begins with: the text of a run of
/// text, or the local name of an element. No other token selects a variant.
pub open spec fn variant_at(s: Stream) -> Result<Seq<char>, Failure> {
    match s.first() {
        Err(f) => Err(f),
        Ok(TokenView::Text { raw, escaped }) => str_of(raw, escaped),
        Ok(TokenView::StartTag { name, tag }) => str_of(local_name_of(name), false),
        Ok(TokenView::Eof) => Err(Failure::Eof),
        Ok(TokenView::EndTag { name }) => Err(Failure::InvalidEnum(TokenView::EndTag { name })),
    }
}

/// The stream behind a variant without payload: behind the whole element
/// that names it, or behind the run of text that does.
pub open spec fn unit_variant_at(s: Stream) -> Result<Stream, Failure> {
    match s.first() {
        Err(f) => Err(f),
        Ok(TokenView::StartTag { name, tag }) => skip_subtree_spec(s.rest(), name, 0),
        Ok(TokenView::Text { raw, escaped }) => Ok(s.rest()),
        Ok(TokenView::Eof) => Err(Failure::Eof),
        Ok(TokenView::EndTag { name }) => Err(Failure::InvalidEnum(TokenView::EndTag { name })),
    }
}

/// The decoder of a tagged union.
pub struct EnumAccess {}

impl EnumAccess {
    /// A decoder of a tagged union. It holds nothing: the stream tells the
    /// variant.
    pub fn new() -> Self {
        EnumAccess {  }
    }

    /// The tag of the variant that is present, and the decoder of its
    /// payload. The token that names the variant stays in the stream: it
    /// belongs to the payload.
    pub fn variant(self, de: &mut Decoder) -> (r: Result<(String, VariantAccess), DeError>)
        ensures
            match variant_at(old(de)@.stream) {
                Ok(tag) => r matches Ok(v) && v.0@ == tag && final(de)@ == old(de)@,
                Err(f) => r matches Err(e) && e@ == f,
            },
    {
        let tag = match de.peek() {
            Err(e) => {
                return Err(e);
            },
            Ok(Token::Text { raw, escaped }) => EscapedDeserializer::new(
                copy_bytes(raw.as_slice()),
                *escaped,
            ),
            Ok(Token::StartTag { name, tag }) => EscapedDeserializer::new(
                local_name(name.as_slice()),
                false,
            ),
            Ok(Token::Eof) => {
                return Err(DeError::Eof);
            },
            Ok(Token::EndTag { name }) => {
                return Err(DeError::InvalidEnum(Token::EndTag { name: copy_bytes(name.as_slice()) }));
            },
        };
        match tag.variant() {
            Ok(name) => Ok((name, VariantAccess {  })),
            Err(e) => Err(e),
        }
    }
}

/// The decoder of a variant's payload. A payload of one value is decoded
/// from the decoder itself, where the token that named the variant still
/// stands.
pub struct VariantAccess {}

impl VariantAccess {
    /// Decodes no payload: takes the element or the text that named the
    /// variant.
    pub fn unit_variant(self, de: &mut Decoder) -> (r: Result<(), DeError>)
        ensures
            final(de)@.has_value_field == old(de)@.has_value_field,
            match unit_variant_at(old(de)@.stream) {
                Ok(after) => r is Ok && final(de)@.stream == after,
                Err(f) => r matches Err(e) && e@ == f,
            },
    {
        match de.next() {
            Err(e) => Err(e),
            Ok(Token::StartTag { name, tag }) => de.read_to_end(name.as_slice()),
            Ok(Token::Text { raw, escaped }) => Ok(()),
            Ok(Token::Eof) => Err(DeError::Eof),
            Ok(Token::EndTag { name }) => Err(DeError::InvalidEnum(Token::EndTag { name })),
        }
    }

    /// Begins to decode a payload of `len` positional values, as a sequence
    /// of at most that many items.
    pub fn tuple_variant(self, de: &mut Decoder, len: usize) -> (r: Result<SeqAccess, DeError>)
        ensures
            match seq_of(old(de)@, Some(len)) {
                Ok(q) => r matches Ok(seq) && seq@ == q && final(de)@ == old(de)@,
                Err(f) => r matches Err(e) && e@ == f,
            },
    {
        SeqAccess::new(de, Some(len))
    }

    /// Begins to decode a payload with the named fields `fields`, as a
    /// record.
    pub fn struct_variant(self, de: &mut Decoder, fields: &[&str]) -> (r: Result<
        MapAccess,
        DeError,
    >)
        ensures
            match struct_at(old(de)@) {
                Ok((m, after)) => {
                    &&& r matches Ok(map)
                    &&& map@ == m
                    &&& final(de)@.stream == after
                    &&& final(de)@.has_value_field == names_inner_value(fields@)
                },
                Err(f) => r matches Err(e) && e@ == f,
            },
    {
        de.decode_struct(fields)
    }
}

} // verus!
