//! The text of scalars where no element can stand: in an attribute's value
//! and in the key of an entry.

use vstd::prelude::*;
use crate::bytes::copy_bytes;
use crate::ser::error::SerError;
use crate::ser::model::{scalar_text, NOT_A_SCALAR};
use crate::ser::text::{bool_text, signed_text, unsigned_text};
use crate::value::Value;

verus! {

/// The encoder of scalars as plain text.
pub struct AttributeSerializer {}

impl AttributeSerializer {
    /// A new encoder.
    pub fn new() -> Self {
        AttributeSerializer {  }
    }

    /// The text of the scalar `value`, not yet escaped; `None` for a value
    /// that is absent. A structured value is refused.
    pub fn serialize(&mut self, value: &Value) -> (r: Result<Option<Vec<u8>>, SerError>)
        ensures
            match scalar_text(value@) {
                Ok(Some(text)) => r matches Ok(Some(t)) && t@ == text,
                Ok(None) => r matches Ok(None),
                Err(f) => r matches Err(e) && e@ == f,
            },
        decreases value,
    {
        match value {
            Value::Unit => Ok(None),
            Value::Bool(b) => Ok(Some(bool_text(*b))),
            Value::Int(i) => Ok(Some(signed_text(*i))),
            Value::UInt(u) => Ok(Some(unsigned_text(*u))),
            Value::Str(s) => Ok(Some(copy_bytes(s.as_str().as_bytes()))),
            Value::Bytes(b) => Ok(Some(copy_bytes(b.as_slice()))),
            Value::Absent => Ok(None),
            Value::Present(inner) => self.serialize(inner),
            Value::UnitVariant(tag) => Ok(Some(copy_bytes(tag.as_str().as_bytes()))),
            _ => Err(SerError::Unsupported(NOT_A_SCALAR)),
        }
    }
}

} // verus!
