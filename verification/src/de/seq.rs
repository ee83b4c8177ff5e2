//! Decoding of a sequence from a run of sibling tokens.

use vstd::prelude::*;
use crate::bytes::{bytes_eq, copy_bytes};
use crate::de::error::{DeError, Failure};
use crate::de::token::{Token, TokenView};
use crate::de::{Decoder, DecoderView};

verus! {

/// Which siblings belong to a sequence.
#[derive(Debug)]
pub enum Names {
    /// Any sibling does.
    Unknown,
    /// Those with the name of the first.
    Peek(Vec<u8>),
}

/// The mathematical value of [`Names`].
pub enum NamesView {
    Unknown,
    Peek(Seq<u8>),
}

impl View for Names {
    type V = NamesView;

    open spec fn view(&self) -> NamesView {
        match *self {
            Names::Unknown => NamesView::Unknown,
            Names::Peek(n) => NamesView::Peek(n@),
        }
    }
}

impl NamesView {
    /// Whether an element of the name `name` belongs to the sequence.
    pub open spec fn admits(self, name: Seq<u8>) -> bool {
        match self {
            NamesView::Unknown => true,
            NamesView::Peek(n) => n == name,
        }
    }
}

impl Names {
    /// Whether an element of the name `name` belongs to the sequence.
    pub fn is_valid(&self, name: &[u8]) -> (valid: bool)
        ensures
            valid == self@.admits(name@),
    {
        match self {
            Names::Unknown => true,
            Names::Peek(n) => bytes_eq(n.as_slice(), name),
        }
    }
}

/// The state of a sequence's decoding: how many items may still come, where
/// their number is bounded, and which siblings belong to it.
pub struct SeqAccessView {
    pub max_size: Option<usize>,
    pub names: NamesView,
}

/// The sequence that begins where the decoder stands. Where the record
/// around it takes unnamed children as its inner value, every sibling
/// belongs to it; else, where an element comes first, those of its name do.
pub open spec fn seq_of(d: DecoderView, max_size: Option<usize>) -> Result<SeqAccessView, Failure> {
    if d.has_value_field {
        Ok(SeqAccessView { max_size, names: NamesView::Unknown })
    } else {
        match d.stream.first() {
            Err(f) => Err(f),
            Ok(TokenView::StartTag { name, tag }) => Ok(
                SeqAccessView { max_size, names: NamesView::Peek(name) },
            ),
            Ok(other) => Ok(SeqAccessView { max_size, names: NamesView::Unknown }),
        }
    }
}

/// Whether a sequence has a next item, and the sequence's state after the
/// question. A sequence that may hold no more items has none. Nor has one
/// before the end of the input, before a closing tag, or before an element
/// that does not belong to it. Before any other token it has.
pub open spec fn next_element_spec(q: SeqAccessView, d: DecoderView) -> Result<
    (bool, SeqAccessView),
    Failure,
> {
    if q.max_size == Some(0usize) {
        Ok((false, q))
    } else {
        let counted = SeqAccessView {
            max_size: match q.max_size {
                Some(n) => Some((n - 1) as usize),
                None => None,
            },
            names: q.names,
        };
        match d.stream.first() {
            Err(f) => Err(f),
            Ok(TokenView::Eof) => Ok((false, counted)),
            Ok(TokenView::EndTag { name }) => Ok((false, counted)),
            Ok(TokenView::StartTag { name, tag }) => Ok((q.names.admits(name), counted)),
            Ok(TokenView::Text { raw, escaped }) => Ok((true, counted)),
        }
    }
}

/// The decoder of one sequence.
pub struct SeqAccess {
    max_size: Option<usize>,
    names: Names,
}

impl View for SeqAccess {
    type V = SeqAccessView;

    closed spec fn view(&self) -> SeqAccessView {
        SeqAccessView { max_size: self.max_size, names: self.names@ }
    }
}

impl SeqAccess {
    /// The decoder of the sequence that begins where `de` stands, of at most
    /// `max_size` items where that is given. The stream is looked at and left
    /// as it is.
    pub fn new(de: &mut Decoder, max_size: Option<usize>) -> (r: Result<SeqAccess, DeError>)
        ensures
            match seq_of(old(de)@, max_size) {
                Ok(q) => r matches Ok(seq) && seq@ == q && final(de)@ == old(de)@,
                Err(f) => r matches Err(e) && e@ == f,
            },
    {
        let names = if de.has_value_field() {
            Names::Unknown
        } else {
            match de.peek() {
                Err(e) => {
                    return Err(e);
                },
                Ok(Token::StartTag { name, tag }) => Names::Peek(copy_bytes(name.as_slice())),
                Ok(_) => Names::Unknown,
            }
        };
        Ok(SeqAccess { max_size, names })
    }

    /// How many items may still come, where their number is bounded.
    pub fn size_hint(&self) -> (hint: Option<usize>)
        ensures
            hint == self@.max_size,
    {
        self.max_size
    }

    /// Whether the sequence has a next item, which is then decoded from
    /// `de`. The token that ends the sequence stays in the stream.
    pub fn next_element(&mut self, de: &mut Decoder) -> (r: Result<bool, DeError>)
        ensures
            match next_element_spec(old(self)@, old(de)@) {
                Ok((more, q)) => {
                    &&& r == Ok::<bool, DeError>(more)
                    &&& final(self)@ == q
                    &&& final(de)@ == old(de)@
                },
                Err(f) => r matches Err(e) && e@ == f,
            },
    {
        match self.max_size {
            Some(s) => {
                if s == 0 {
                    return Ok(false);
                }
                self.max_size = Some(s - 1);
            },
            None => {},
        }
        match de.peek() {
            Err(e) => Err(e),
            Ok(Token::Eof) => Ok(false),
            Ok(Token::EndTag { name }) => Ok(false),
            Ok(Token::StartTag { name, tag }) => Ok(self.names.is_valid(name.as_slice())),
            Ok(Token::Text { raw, escaped }) => Ok(true),
        }
    }
}

} // verus!
