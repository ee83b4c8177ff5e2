//! The errors of decoding.

use vstd::prelude::*;
use vstd::string::StringExecFns;
use crate::de::escape::{shown, utf8_lossy};
use crate::de::token::{Token, TokenView};

verus! {

/// The error type of the XML tokenizer, carried through unread.
#[verifier::external_type_specification]
#[verifier::external_body]
pub struct ExXmlError(quick_xml::Error);

/// Why a decode failed.
#[derive(Debug)]
pub enum DeError {
    /// A complaint of the caller's value model.
    Custom(String),
    /// The markup is malformed.
    Xml(quick_xml::Error),
    /// Text is not valid UTF-8.
    Utf8(quick_xml::Error),
    /// An entity reference is malformed or unknown.
    Escape(quick_xml::Error),
    /// A value was requested before a key was fetched.
    EndOfAttributes,
    /// The input ended too early.
    Eof,
    /// The text is no boolean literal.
    InvalidBoolean(String),
    /// The text is no literal of the requested number type.
    InvalidNumber(String),
    /// Content where none was expected.
    InvalidUnit(String),
    /// The token can not select a variant.
    InvalidEnum(Token),
    /// An opening tag was expected.
    Start,
    /// A closing tag was expected.
    End,
    /// The requested shape can not be decoded.
    Unsupported(&'static str),
}

/// The kind of a [`DeError`] and what it says, without the tokenizer's own
/// error values.
pub enum Failure {
    Custom(Seq<char>),
    Xml,
    Utf8,
    Escape,
    EndOfAttributes,
    Eof,
    InvalidBoolean(Seq<char>),
    InvalidNumber(Seq<char>),
    InvalidUnit(Seq<char>),
    InvalidEnum(TokenView),
    Start,
    End,
    Unsupported(Seq<char>),
}

impl View for DeError {
    type V = Failure;

    open spec fn view(&self) -> Failure {
        match *self {
            DeError::Custom(s) => Failure::Custom(s@),
            DeError::Xml(_) => Failure::Xml,
            DeError::Utf8(_) => Failure::Utf8,
            DeError::Escape(_) => Failure::Escape,
            DeError::EndOfAttributes => Failure::EndOfAttributes,
            DeError::Eof => Failure::Eof,
            DeError::InvalidBoolean(s) => Failure::InvalidBoolean(s@),
            DeError::InvalidNumber(s) => Failure::InvalidNumber(s@),
            DeError::InvalidUnit(s) => Failure::InvalidUnit(s@),
            DeError::InvalidEnum(t) => Failure::InvalidEnum(t@),
            DeError::Start => Failure::Start,
            DeError::End => Failure::End,
            DeError::Unsupported(s) => Failure::Unsupported(s@),
        }
    }
}

/// `quick_xml::Error`'s `Display`: what the tokenizer says of its error.
#[verifier::external_body]
fn xml_error_text(e: &quick_xml::Error) -> String {
    format!("{}", e)
}

/// A token as a reader is shown it: its kind, and its name or its text.
pub open spec fn token_text(t: TokenView) -> Seq<char> {
    match t {
        TokenView::StartTag { name, tag } => "Start("@ + shown(name) + ")"@,
        TokenView::EndTag { name } => "End("@ + shown(name) + ")"@,
        TokenView::Text { raw, escaped } => "Text("@ + shown(raw) + ")"@,
        TokenView::Eof => "Eof"@,
    }
}

/// A token as a reader is shown it.
pub fn describe(token: &Token) -> (text: String)
    ensures
        text@ == token_text(token@),
{
    match token {
        Token::StartTag { name, tag } => "Start(".to_owned().concat(
            utf8_lossy(name.as_slice()).as_str(),
        ).concat(")"),
        Token::EndTag { name } => "End(".to_owned().concat(
            utf8_lossy(name.as_slice()).as_str(),
        ).concat(")"),
        Token::Text { raw, escaped } => "Text(".to_owned().concat(
            utf8_lossy(raw.as_slice()).as_str(),
        ).concat(")"),
        Token::Eof => "Eof".to_owned(),
    }
}

/// What is said of a failure, where the library words it itself; the
/// tokenizer words its own errors.
pub open spec fn message_of(f: Failure) -> Option<Seq<char>> {
    match f {
        Failure::Custom(s) => Some(s),
        Failure::Xml => None,
        Failure::Utf8 => None,
        Failure::Escape => None,
        Failure::EndOfAttributes => Some("Unexpected end of attributes"@),
        Failure::Eof => Some("Unexpected `Event::Eof`"@),
        Failure::InvalidBoolean(v) => Some("Invalid boolean value '"@ + v + "'"@),
        Failure::InvalidNumber(v) => Some("Invalid number value '"@ + v + "'"@),
        Failure::InvalidUnit(v) => Some(
            "Invalid unit value '"@ + v + "', expected empty string"@,
        ),
        Failure::InvalidEnum(t) => Some(
            "Invalid event for Enum, expecting Text or Start, got: "@ + token_text(t),
        ),
        Failure::Start => Some("Expecting Start event"@),
        Failure::End => Some("Expecting End event"@),
        Failure::Unsupported(s) => Some("Unsupported operation "@ + s),
    }
}

impl DeError {
    /// What the error says, for a reader.
    pub fn message(&self) -> (text: String)
        ensures
            match message_of(self@) {
                Some(m) => text@ == m,
                None => true,
            },
    {
        match self {
            DeError::Custom(s) => s.clone(),
            DeError::Xml(e) => xml_error_text(e),
            DeError::Utf8(e) => xml_error_text(e),
            DeError::Escape(e) => xml_error_text(e),
            DeError::EndOfAttributes => "Unexpected end of attributes".to_owned(),
            DeError::Eof => "Unexpected `Event::Eof`".to_owned(),
            DeError::InvalidBoolean(v) => "Invalid boolean value '".to_owned().concat(
                v.as_str(),
            ).concat("'"),
            DeError::InvalidNumber(v) => "Invalid number value '".to_owned().concat(
                v.as_str(),
            ).concat("'"),
            DeError::InvalidUnit(v) => "Invalid unit value '".to_owned().concat(v.as_str()).concat(
                "', expected empty string",
            ),
            DeError::InvalidEnum(t) => "Invalid event for Enum, expecting Text or Start, got: ".to_owned().concat(
                describe(t).as_str(),
            ),
            DeError::Start => "Expecting Start event".to_owned(),
            DeError::End => "Expecting End event".to_owned(),
            DeError::Unsupported(s) => "Unsupported operation ".to_owned().concat(s),
        }
    }
}

} // verus!
