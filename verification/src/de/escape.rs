//! Decoding of scalars from a captured span of bytes: an attribute's value, a
//! run of text, an attribute's key or a tag's name.

use vstd::prelude::*;
use vstd::utf8::{decode_utf8, valid_utf8};
use crate::bytes::{bytes_eq, copy_bytes};
use crate::de::error::{DeError, Failure};
use crate::de::number::{integer_in, parse_integer};
use crate::value::IntKind;

verus! {

/// What `quick_xml::escape::unescape` makes of `raw`: the bytes with each
/// entity reference replaced by what it stands for, or `None` where a
/// reference is malformed or unknown.
pub uninterp spec fn unescaped(raw: Seq<u8>) -> Option<Seq<u8>>;

/// `quick_xml::escape::unescape`, with its error as the tokenizer's error.
#[verifier::external_body]
fn unescape(raw: &[u8]) -> (r: Result<Vec<u8>, quick_xml::Error>)
    ensures
        match unescaped(raw@) {
            Some(bytes) => r matches Ok(v) && v@ == bytes,
            None => r is Err,
        },
{
    quick_xml::escape::unescape(raw).map(|bytes| bytes.into_owned()).map_err(
        quick_xml::Error::EscapeError,
    )
}

/// `std::str::from_utf8`, with its error as the tokenizer's error: the text
/// that `bytes` encode, which they do if and only if they are valid UTF-8.
#[verifier::external_body]
fn utf8_text(bytes: &[u8]) -> (r: Result<String, quick_xml::Error>)
    ensures
        if valid_utf8(bytes@) {
            r matches Ok(s) && s@ == decode_utf8(bytes@)
        } else {
            r is Err
        },
{
    std::str::from_utf8(bytes).map(|s| s.to_owned()).map_err(quick_xml::Error::Utf8)
}

/// What `String::from_utf8_lossy` makes of `bytes`: their text, with each
/// sequence that is not valid UTF-8 replaced by the replacement character.
pub uninterp spec fn lossy_text(bytes: Seq<u8>) -> Seq<char>;

/// `String::from_utf8_lossy`: the text of `bytes` for a reader. Valid UTF-8
/// comes out as the text that it encodes.
#[verifier::external_body]
pub(crate) fn utf8_lossy(bytes: &[u8]) -> (text: String)
    ensures
        text@ == lossy_text(bytes@),
        valid_utf8(bytes@) ==> text@ == decode_utf8(bytes@),
{
    String::from_utf8_lossy(bytes).into_owned()
}

/// What is reported of content where a unit was asked for.
pub const UNIT_NOT_EMPTY: &'static str = "Expecting unit, got non empty attribute";

/// The bytes that a span stands for: the span itself, or, where it is
/// escaped, the span with its entity references resolved.
pub open spec fn content_of(raw: Seq<u8>, escaped: bool) -> Result<Seq<u8>, Failure> {
    if escaped {
        match unescaped(raw) {
            Some(bytes) => Ok(bytes),
            None => Err(Failure::Escape),
        }
    } else {
        Ok(raw)
    }
}

/// The text that `bytes` encode in UTF-8.
pub open spec fn text_of(bytes: Seq<u8>) -> Result<Seq<char>, Failure> {
    if valid_utf8(bytes) {
        Ok(decode_utf8(bytes))
    } else {
        Err(Failure::Utf8)
    }
}

/// The string that a span stands for.
pub open spec fn str_of(raw: Seq<u8>, escaped: bool) -> Result<Seq<char>, Failure> {
    match content_of(raw, escaped) {
        Ok(bytes) => text_of(bytes),
        Err(f) => Err(f),
    }
}

/// The literal `true`.
pub open spec fn lit_true() -> Seq<u8> {
    seq!['t' as u8, 'r' as u8, 'u' as u8, 'e' as u8]
}

/// The literal `false`.
pub open spec fn lit_false() -> Seq<u8> {
    seq!['f' as u8, 'a' as u8, 'l' as u8, 's' as u8, 'e' as u8]
}

/// The text of `bytes` for a reader: the text that they encode, where they
/// are valid UTF-8, and else what the lossy conversion makes of them.
pub open spec fn shown(bytes: Seq<u8>) -> Seq<char> {
    if valid_utf8(bytes) {
        decode_utf8(bytes)
    } else {
        lossy_text(bytes)
    }
}

/// The boolean that a span stands for: `true` and `1` are true, `false` and
/// `0` are false, and nothing else is a boolean. What else the span holds is
/// reported as its text.
pub open spec fn bool_of(raw: Seq<u8>) -> Result<bool, Failure> {
    if raw == lit_true() || raw == seq!['1' as u8] {
        Ok(true)
    } else if raw == lit_false() || raw == seq!['0' as u8] {
        Ok(false)
    } else {
        Err(Failure::InvalidBoolean(shown(raw)))
    }
}

/// The integer of the range `min` to `max` that a span stands for.
pub open spec fn integer_of(raw: Seq<u8>, escaped: bool, min: int, max: int) -> Result<
    int,
    Failure,
> {
    match content_of(raw, escaped) {
        Err(f) => Err(f),
        Ok(bytes) => match text_of(bytes) {
            Err(f) => Err(f),
            Ok(text) => match integer_in(bytes, min, max) {
                Some(v) => Ok(v),
                None => Err(Failure::InvalidNumber(text)),
            },
        },
    }
}

/// The unit that a span stands for: only an empty span does.
pub open spec fn unit_of(raw: Seq<u8>) -> Result<(), Failure> {
    if raw.len() == 0 {
        Ok(())
    } else {
        Err(Failure::InvalidUnit(UNIT_NOT_EMPTY@))
    }
}

/// A decoder of one captured span of bytes.
///
/// Escaping matters for strings and bytes only: no boolean literal holds an
/// entity reference.
pub struct EscapedDeserializer {
    /// The possibly escaped value of a text or an attribute.
    escaped_value: Vec<u8>,
    /// Whether entity references in the value are to be resolved.
    escaped: bool,
}

impl EscapedDeserializer {
    /// The span's bytes as they were captured.
    pub closed spec fn raw(&self) -> Seq<u8> {
        self.escaped_value@
    }

    /// Whether entity references in the span are to be resolved.
    pub closed spec fn is_escaped(&self) -> bool {
        self.escaped
    }

    /// A decoder of the span `escaped_value`, which is escaped if `escaped`.
    pub fn new(escaped_value: Vec<u8>, escaped: bool) -> (d: Self)
        ensures
            d.raw() == escaped_value@,
            d.is_escaped() == escaped,
    {
        EscapedDeserializer { escaped_value, escaped }
    }

    /// The bytes that the span stands for.
    pub fn unescaped(&self) -> (r: Result<Vec<u8>, DeError>)
        ensures
            match content_of(self.raw(), self.is_escaped()) {
                Ok(bytes) => r matches Ok(v) && v@ == bytes,
                Err(f) => r matches Err(e) && e@ == f,
            },
    {
        if self.escaped {
            match unescape(self.escaped_value.as_slice()) {
                Ok(v) => Ok(v),
                Err(e) => Err(DeError::Escape(e)),
            }
        } else {
            Ok(copy_bytes(self.escaped_value.as_slice()))
        }
    }

    /// The text that `v` encodes.
    pub fn from_utf8(v: &[u8]) -> (r: Result<String, DeError>)
        ensures
            match text_of(v@) {
                Ok(text) => r matches Ok(s) && s@ == text,
                Err(f) => r matches Err(e) && e@ == f,
            },
    {
        match utf8_text(v) {
            Ok(s) => Ok(s),
            Err(e) => Err(DeError::Utf8(e)),
        }
    }

    /// The boolean that the span stands for. The span is compared as it was
    /// captured.
    pub fn deserialize_bool(&self) -> (r: Result<bool, DeError>)
        ensures
            match bool_of(self.raw()) {
                Ok(b) => r == Ok::<bool, DeError>(b),
                Err(f) => r matches Err(e) && e@ == f,
            },
    {
        let value = self.escaped_value.as_slice();
        let t: [u8; 4] = ['t' as u8, 'r' as u8, 'u' as u8, 'e' as u8];
        let f: [u8; 5] = ['f' as u8, 'a' as u8, 'l' as u8, 's' as u8, 'e' as u8];
        let one: [u8; 1] = ['1' as u8];
        let zero: [u8; 1] = ['0' as u8];
        assert(t@ =~= lit_true());
        assert(f@ =~= lit_false());
        assert(one@ =~= seq!['1' as u8]);
        assert(zero@ =~= seq!['0' as u8]);
        if bytes_eq(value, t.as_slice()) || bytes_eq(value, one.as_slice()) {
            Ok(true)
        } else if bytes_eq(value, f.as_slice()) || bytes_eq(value, zero.as_slice()) {
            Ok(false)
        } else {
            Err(DeError::InvalidBoolean(utf8_lossy(value)))
        }
    }

    /// The integer of the type `kind` that the span stands for.
    pub fn deserialize_integer(&self, kind: IntKind) -> (r: Result<i128, DeError>)
        ensures
            match integer_of(self.raw(), self.is_escaped(), kind.min(), kind.max()) {
                Ok(v) => r == Ok::<i128, DeError>(v as i128),
                Err(f) => r matches Err(e) && e@ == f,
            },
    {
        let bytes = match self.unescaped() {
            Ok(bytes) => bytes,
            Err(e) => {
                return Err(e);
            },
        };
        let text = match Self::from_utf8(bytes.as_slice()) {
            Ok(text) => text,
            Err(e) => {
                return Err(e);
            },
        };
        match parse_integer(bytes.as_slice(), kind) {
            Some(v) => Ok(v),
            None => Err(DeError::InvalidNumber(text)),
        }
    }

    /// The `i8` that the span stands for.
    pub fn deserialize_i8(&self) -> (r: Result<i8, DeError>)
        ensures
            match integer_of(self.raw(), self.is_escaped(), i8::MIN as int, i8::MAX as int) {
                Ok(v) => r == Ok::<i8, DeError>(v as i8),
                Err(f) => r matches Err(e) && e@ == f,
            },
    {
        match self.deserialize_integer(IntKind::I8) {
            Ok(v) => Ok(v as i8),
            Err(e) => Err(e),
        }
    }

    /// The `i16` that the span stands for.
    pub fn deserialize_i16(&self) -> (r: Result<i16, DeError>)
        ensures
            match integer_of(self.raw(), self.is_escaped(), i16::MIN as int, i16::MAX as int) {
                Ok(v) => r == Ok::<i16, DeError>(v as i16),
                Err(f) => r matches Err(e) && e@ == f,
            },
    {
        match self.deserialize_integer(IntKind::I16) {
            Ok(v) => Ok(v as i16),
            Err(e) => Err(e),
        }
    }

    /// The `i32` that the span stands for.
    pub fn deserialize_i32(&self) -> (r: Result<i32, DeError>)
        ensures
            match integer_of(self.raw(), self.is_escaped(), i32::MIN as int, i32::MAX as int) {
                Ok(v) => r == Ok::<i32, DeError>(v as i32),
                Err(f) => r matches Err(e) && e@ == f,
            },
    {
        match self.deserialize_integer(IntKind::I32) {
            Ok(v) => Ok(v as i32),
            Err(e) => Err(e),
        }
    }

    /// The `i64` that the span stands for.
    pub fn deserialize_i64(&self) -> (r: Result<i64, DeError>)
        ensures
            match integer_of(self.raw(), self.is_escaped(), i64::MIN as int, i64::MAX as int) {
                Ok(v) => r == Ok::<i64, DeError>(v as i64),
                Err(f) => r matches Err(e) && e@ == f,
            },
    {
        match self.deserialize_integer(IntKind::I64) {
            Ok(v) => Ok(v as i64),
            Err(e) => Err(e),
        }
    }

    /// The `u8` that the span stands for.
    pub fn deserialize_u8(&self) -> (r: Result<u8, DeError>)
        ensures
            match integer_of(self.raw(), self.is_escaped(), u8::MIN as int, u8::MAX as int) {
                Ok(v) => r == Ok::<u8, DeError>(v as u8),
                Err(f) => r matches Err(e) && e@ == f,
            },
    {
        match self.deserialize_integer(IntKind::U8) {
            Ok(v) => Ok(v as u8),
            Err(e) => Err(e),
        }
    }

    /// The `u16` that the span stands for.
    pub fn deserialize_u16(&self) -> (r: Result<u16, DeError>)
        ensures
            match integer_of(self.raw(), self.is_escaped(), u16::MIN as int, u16::MAX as int) {
                Ok(v) => r == Ok::<u16, DeError>(v as u16),
                Err(f) => r matches Err(e) && e@ == f,
            },
    {
        match self.deserialize_integer(IntKind::U16) {
            Ok(v) => Ok(v as u16),
            Err(e) => Err(e),
        }
    }

    /// The `u32` that the span stands for.
    pub fn deserialize_u32(&self) -> (r: Result<u32, DeError>)
        ensures
            match integer_of(self.raw(), self.is_escaped(), u32::MIN as int, u32::MAX as int) {
                Ok(v) => r == Ok::<u32, DeError>(v as u32),
                Err(f) => r matches Err(e) && e@ == f,
            },
    {
        match self.deserialize_integer(IntKind::U32) {
            Ok(v) => Ok(v as u32),
            Err(e) => Err(e),
        }
    }

    /// The `u64` that the span stands for.
    pub fn deserialize_u64(&self) -> (r: Result<u64, DeError>)
        ensures
            match integer_of(self.raw(), self.is_escaped(), u64::MIN as int, u64::MAX as int) {
                Ok(v) => r == Ok::<u64, DeError>(v as u64),
                Err(f) => r matches Err(e) && e@ == f,
            },
    {
        match self.deserialize_integer(IntKind::U64) {
            Ok(v) => Ok(v as u64),
            Err(e) => Err(e),
        }
    }

    /// The string that the span stands for.
    pub fn deserialize_str(&self) -> (r: Result<String, DeError>)
        ensures
            match str_of(self.raw(), self.is_escaped()) {
                Ok(text) => r matches Ok(s) && s@ == text,
                Err(f) => r matches Err(e) && e@ == f,
            },
    {
        match self.unescaped() {
            Ok(bytes) => Self::from_utf8(bytes.as_slice()),
            Err(e) => Err(e),
        }
    }

    /// The bytes that the span stands for.
    pub fn deserialize_bytes(&self) -> (r: Result<Vec<u8>, DeError>)
        ensures
            match content_of(self.raw(), self.is_escaped()) {
                Ok(bytes) => r matches Ok(v) && v@ == bytes,
                Err(f) => r matches Err(e) && e@ == f,
            },
    {
        self.unescaped()
    }

    /// The tag of the variant that the span names: its text. The span is
    /// also the payload of a variant that carries one value.
    pub fn variant(&self) -> (r: Result<String, DeError>)
        ensures
            match str_of(self.raw(), self.is_escaped()) {
                Ok(text) => r matches Ok(s) && s@ == text,
                Err(f) => r matches Err(e) && e@ == f,
            },
    {
        self.deserialize_str()
    }

    /// Whether the span holds a value: an empty span is an absent one, and
    /// any other is decoded as the value itself.
    pub fn deserialize_option(&self) -> (present: bool)
        ensures
            present == (self.raw().len() > 0),
    {
        self.escaped_value.len() > 0
    }

    /// The unit that the span stands for: only an empty span does.
    pub fn deserialize_unit(&self) -> (r: Result<(), DeError>)
        ensures
            match unit_of(self.raw()) {
                Ok(u) => r is Ok,
                Err(f) => r matches Err(e) && e@ == f,
            },
    {
        if self.escaped_value.len() == 0 {
            Ok(())
        } else {
            Err(DeError::InvalidUnit(UNIT_NOT_EMPTY.to_owned()))
        }
    }
}

} // verus!
