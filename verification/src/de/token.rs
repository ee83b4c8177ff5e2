//! The tokens that the decoder reads.

use vstd::prelude::*;
use crate::bytes::copy_bytes;

verus! {

/// One parsed unit of XML structure.
///
/// A start tag keeps the raw bytes of the whole tag (its name and the text of
/// its attributes); the attribute list is parsed from them when a record is
/// decoded from the element.
#[derive(Debug, PartialEq, Eq)]
pub enum Token {
    /// An opening tag. An empty element `<a/>` is read as an opening tag
    /// followed by a closing tag.
    StartTag { name: Vec<u8>, tag: Vec<u8> },
    /// A closing tag.
    EndTag { name: Vec<u8> },
    /// A run of character data. `escaped` says whether entity references in
    /// `raw` still have to be resolved.
    Text { raw: Vec<u8>, escaped: bool },
    /// The end of the input.
    Eof,
}

/// The mathematical value of a [`Token`].
pub enum TokenView {
    StartTag { name: Seq<u8>, tag: Seq<u8> },
    EndTag { name: Seq<u8> },
    Text { raw: Seq<u8>, escaped: bool },
    Eof,
}

impl View for Token {
    type V = TokenView;

    open spec fn view(&self) -> TokenView {
        match *self {
            Token::StartTag { name, tag } => TokenView::StartTag { name: name@, tag: tag@ },
            Token::EndTag { name } => TokenView::EndTag { name: name@ },
            Token::Text { raw, escaped } => TokenView::Text { raw: raw@, escaped },
            Token::Eof => TokenView::Eof,
        }
    }
}

impl Token {
    /// A copy of the token.
    pub fn duplicate(&self) -> (copy: Token)
        ensures
            copy@ == self@,
    {
        match self {
            Token::StartTag { name, tag } => Token::StartTag {
                name: copy_bytes(name.as_slice()),
                tag: copy_bytes(tag.as_slice()),
            },
            Token::EndTag { name } => Token::EndTag { name: copy_bytes(name.as_slice()) },
            Token::Text { raw, escaped } => Token::Text {
                raw: copy_bytes(raw.as_slice()),
                escaped: *escaped,
            },
            Token::Eof => Token::Eof,
        }
    }
}

} // verus!
