//! A schema-less codec between typed, structured values and XML documents.
//!
//! The [`de`] module reads a stream of XML tokens into values, one request
//! at a time: a scalar, an option, a record, a sequence, a variant. The
//! [`ser`] module writes values as XML. Both agree on the keys of a record's
//! fields: a key names a child element, unless it begins with one of two
//! markers. A key that begins with [`ATTRIBUTE_MARKER`] names an attribute.
//! A key that begins with [`CONTENT_MARKER`] stands for the element's own
//! content, and [`INNER_VALUE`] is the key under which the decoder hands that
//! content out.
//!
//! A whole value is read with [`de::decode::from_bytes`], by a
//! [`value::Shape`] that says what is expected, and written with
//! [`ser::to_vec`]. A value model of its own drives a [`de::Decoder`] and a
//! [`ser::Serializer`] request by request. A decoder also reads tokens that
//! are given to it ([`de::Decoder::from_tokens`]), without a tokenizer.
//!
//! What each function returns is stated in its contract and proved. The
//! contracts speak of a document through its tokens: which tokens a document
//! has, what an entity reference stands for and which attributes a tag holds
//! is the XML tokenizer's to say, and is taken from it as it is. The module
//! [`laws`] holds what follows for every input.

use vstd::prelude::*;
use vstd::string::{is_ascii_spec_bytes, StringSliceAdditionalSpecFns};

pub mod bytes;
pub mod de;
pub mod element;
pub mod laws;
pub mod ser;
pub mod value;

verus! {

/// The marker `@`, which begins the key of a field that is an XML attribute.
pub const ATTRIBUTE_MARKER: u8 = 64;

/// The marker `$`, which begins the key of a field that is the element's own
/// content: its text, or children that no name identifies.
pub const CONTENT_MARKER: u8 = 36;

/// The key of a record's own text, and of a child that no tag name
/// identifies. A value model names a field so to receive them.
pub const INNER_VALUE: &'static str = "$value";

/// Extensible Markup Language (XML) version.
#[allow(non_camel_case_types)]
#[derive(Debug, Copy, Clone, Eq, PartialEq, Ord, PartialOrd)]
pub enum XmlVersion {
    /// Version 1.0
    v1_0,
    /// Version 1.1
    v1_1,
}

impl XmlVersion {
    /// The version number as it is written in an XML declaration.
    pub open spec fn text(self) -> Seq<char> {
        match self {
            XmlVersion::v1_0 => seq!['1', '.', '0'],
            XmlVersion::v1_1 => seq!['1', '.', '1'],
        }
    }

    /// The bytes of the version number.
    pub open spec fn bytes(self) -> Seq<u8> {
        match self {
            XmlVersion::v1_0 => seq!['1' as u8, '.' as u8, '0' as u8],
            XmlVersion::v1_1 => seq!['1' as u8, '.' as u8, '1' as u8],
        }
    }

    /// The version number as text.
    pub fn as_str(&self) -> (s: &'static str)
        ensures
            s@ == self.text(),
    {
        match self {
            XmlVersion::v1_0 => {
                proof {
                    reveal_strlit("1.0");
                }
                assert("1.0"@ =~= self.text());
                "1.0"
            },
            XmlVersion::v1_1 => {
                proof {
                    reveal_strlit("1.1");
                }
                assert("1.1"@ =~= self.text());
                "1.1"
            },
        }
    }

    /// The version number as bytes.
    pub fn as_bytes(&self) -> (b: &'static [u8])
        ensures
            b@ == self.bytes(),
    {
        let s = self.as_str();
        proof {
            is_ascii_spec_bytes(s);
            assert(s.spec_bytes() =~= self.bytes());
        }
        s.as_bytes()
    }
}

} // verus!
