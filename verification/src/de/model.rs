//! What decoding yields, as a function of the shape that is asked for and of
//! the tokens that the decoder stands at.

use vstd::prelude::*;
use crate::de::cursor::{skip_subtree_spec, Stream};
use crate::de::error::Failure;
use crate::de::escape::{bool_of, content_of, integer_of, str_of, unit_of};
use crate::de::map::{next_key_spec, MapAccessView, MapValueView};
use crate::de::seq::{next_element_spec, seq_of, SeqAccessView};
use crate::de::var::{unit_variant_at, variant_at};
use crate::de::{
    bool_at, bytes_at, ignored_at, integer_at, present_at, string_at, struct_at, unit_at,
    DecoderView,
};
use crate::value::{Payload, Shape, ValueView};
use crate::INNER_VALUE;

verus! {

/// The beginning of what is reported of a field without a value and without
/// a default; the field's key follows.
pub const MISSING_FIELD: &'static str = "missing field ";

/// The beginning of what is reported of a field that occurs again; the
/// field's key follows.
pub const DUPLICATE_FIELD: &'static str = "duplicate field ";

/// The beginning of what is reported of a tag that names no variant; the tag
/// follows.
pub const UNKNOWN_VARIANT: &'static str = "unknown variant ";

/// What is reported of a tuple with too few items.
pub const INVALID_LENGTH: &'static str = "invalid length: an item is missing";

/// What is reported of a value inside a sequence or a record that took no
/// token: the decoder would stand still.
pub const STALLED: &'static str = "a value took no token";

/// What is reported of a structured shape where only a captured span of
/// bytes is at hand.
pub const STRUCTURE_IN_SCALAR: &'static str = "a structured value can not be decoded from a scalar";

/// The index of the first of `entries` with the key `key`.
pub open spec fn first_named<T>(entries: Seq<(String, T)>, key: Seq<char>) -> Option<int>
    decreases entries.len(),
{
    if entries.len() == 0 {
        None
    } else if entries[0].0@ == key {
        Some(0)
    } else {
        match first_named(entries.drop_first(), key) {
            Some(i) => Some(i + 1),
            None => None,
        }
    }
}

/// The index that `first_named` finds is the index of an entry.
pub proof fn lemma_first_named<T>(entries: Seq<(String, T)>, key: Seq<char>)
    ensures
        first_named(entries, key) matches Some(j) ==> 0 <= j < entries.len() && entries[j].0@
            == key,
    decreases entries.len(),
{
    if entries.len() > 0 && entries[0].0@ != key {
        lemma_first_named(entries.drop_first(), key);
    }
}

/// The value of a field that the document does not hold: an optional value
/// is absent and a sequence is empty. Any other field is missing.
pub open spec fn default_of(shape: Shape) -> Option<ValueView> {
    match shape {
        Shape::Option(inner) => Some(ValueView::Absent),
        Shape::List(item) => Some(ValueView::List(Seq::empty())),
        _ => None,
    }
}

/// Whether a value of the shape `shape` is made of elements: a sequence, a
/// tuple, a record or a variant, or an option of one of them. A scalar is
/// made of text.
pub open spec fn made_of_elements(shape: Shape) -> bool
    decreases shape,
{
    match shape {
        Shape::List(item) => true,
        Shape::Tuple(shapes) => true,
        Shape::Record(name, fields) => true,
        Shape::Enum(variants) => true,
        Shape::Option(inner) => made_of_elements(*inner),
        _ => false,
    }
}

/// Whether a record with the fields `fields` takes the children that no
/// field names as its inner value: it does where it has a field for its
/// inner value and that field is made of elements. An inner value of text
/// leaves each child to the field of its name.
pub open spec fn takes_children(fields: Seq<(String, Shape)>) -> bool {
    match first_named(fields, INNER_VALUE@) {
        Some(j) => made_of_elements(fields[j].1),
        None => false,
    }
}

/// The state `d` with the stream `s`.
pub open spec fn with_stream(d: DecoderView, s: Stream) -> DecoderView {
    DecoderView { stream: s, has_value_field: d.has_value_field }
}

/// A record's state with no value pending.
pub open spec fn settled(m: MapAccessView) -> MapAccessView {
    MapAccessView {
        attributes: m.attributes,
        value: MapValueView::Empty,
        name: m.name,
        outer: m.outer,
    }
}

/// The value of the shape `shape` that a captured span of bytes stands for.
pub open spec fn scalar_value(shape: Shape, raw: Seq<u8>, escaped: bool) -> Result<
    ValueView,
    Failure,
>
    decreases shape,
{
    match shape {
        Shape::Unit => match unit_of(raw) {
            Ok(u) => Ok(ValueView::Unit),
            Err(f) => Err(f),
        },
        Shape::Bool => match bool_of(raw) {
            Ok(b) => Ok(ValueView::Bool(b)),
            Err(f) => Err(f),
        },
        Shape::Int(kind) => match integer_of(raw, escaped, kind.min(), kind.max()) {
            Ok(v) => Ok(
                if kind.signed() {
                    ValueView::Int(v)
                } else {
                    ValueView::UInt(v)
                },
            ),
            Err(f) => Err(f),
        },
        Shape::Str => match str_of(raw, escaped) {
            Ok(text) => Ok(ValueView::Str(text)),
            Err(f) => Err(f),
        },
        Shape::Bytes => match content_of(raw, escaped) {
            Ok(bytes) => Ok(ValueView::Bytes(bytes)),
            Err(f) => Err(f),
        },
        Shape::Option(inner) => if raw.len() > 0 {
            match scalar_value(*inner, raw, escaped) {
                Ok(v) => Ok(ValueView::Present(Box::new(v))),
                Err(f) => Err(f),
            }
        } else {
            Ok(ValueView::Absent)
        },
        Shape::Enum(variants) => match str_of(raw, escaped) {
            Err(f) => Err(f),
            Ok(tag) => match first_named(variants@, tag) {
                None => Err(Failure::Custom(UNKNOWN_VARIANT@ + tag)),
                Some(j) => {
                    proof {
                        lemma_first_named(variants@, tag);
                    }
                    match variants[j].1 {
                        Payload::Unit => Ok(ValueView::UnitVariant(tag)),
                        Payload::Newtype(inner) => match scalar_value(inner, raw, escaped) {
                            Ok(v) => Ok(ValueView::NewtypeVariant(tag, Box::new(v))),
                            Err(f) => Err(f),
                        },
                        _ => Err(Failure::Unsupported(STRUCTURE_IN_SCALAR@)),
                    }
                },
            },
        },
        Shape::Ignored => match str_of(raw, escaped) {
            Ok(text) => Ok(ValueView::Unit),
            Err(f) => Err(f),
        },
        _ => Err(Failure::Unsupported(STRUCTURE_IN_SCALAR@)),
    }
}

/// The fields of a record in the order of `fields`, each with the value
/// that was decoded for it or else with its default.
pub open spec fn filled(fields: Seq<(String, Shape)>, slots: Seq<Option<ValueView>>) -> Result<
    Seq<(Seq<char>, ValueView)>,
    Failure,
>
    decreases fields.len(),
{
    if fields.len() == 0 || slots.len() == 0 {
        Ok(Seq::empty())
    } else {
        let value = match slots[0] {
            Some(v) => Some(v),
            None => default_of(fields[0].1),
        };
        match value {
            None => Err(Failure::Custom(MISSING_FIELD@ + fields[0].0@)),
            Some(v) => match filled(fields.drop_first(), slots.drop_first()) {
                Err(f) => Err(f),
                Ok(rest) => Ok(seq![(fields[0].0@, v)] + rest),
            },
        }
    }
}

/// The items of a sequence of items of the shape `item`, and the state
/// behind the last. The sequence ends where its decoder says so; the token
/// that ends it is left. An item that takes no token is an error.
pub open spec fn items_at(item: Shape, q: SeqAccessView, d: DecoderView) -> Result<
    (Seq<ValueView>, DecoderView),
    Failure,
>
    decreases item, d.stream.tokens.len(), 1nat,
{
    match next_element_spec(q, d) {
        Err(f) => Err(f),
        Ok((false, q2)) => Ok((Seq::empty(), d)),
        Ok((true, q2)) => match value_at(item, d) {
            Err(f) => Err(f),
            Ok((v, d2)) => if d2.stream.tokens.len() < d.stream.tokens.len() {
                match items_at(item, q2, d2) {
                    Err(f) => Err(f),
                    Ok((rest, d3)) => Ok((seq![v] + rest, d3)),
                }
            } else {
                Err(Failure::Unsupported(STALLED@))
            },
        },
    }
}

/// The items of a tuple with the shapes `shapes`, and the state behind the
/// last. A tuple that ends before its last item is an error.
pub open spec fn tuple_at(shapes: Seq<Shape>, q: SeqAccessView, d: DecoderView) -> Result<
    (Seq<ValueView>, DecoderView),
    Failure,
>
    decreases shapes, 0nat, 0nat,
{
    if shapes.len() == 0 {
        Ok((Seq::empty(), d))
    } else {
        match next_element_spec(q, d) {
            Err(f) => Err(f),
            Ok((false, q2)) => Err(Failure::Custom(INVALID_LENGTH@)),
            Ok((true, q2)) => match value_at(shapes[0], d) {
                Err(f) => Err(f),
                Ok((v, d2)) => match tuple_at(shapes.drop_first(), q2, d2) {
                    Err(f) => Err(f),
                    Ok((rest, d3)) => Ok((seq![v] + rest, d3)),
                },
            },
        }
    }
}

/// The slots of a record's fields after the value of the key `key` is
/// decoded, and the state behind the value. The value is found where
/// `source` says: in an attribute, or in the stream.
///
/// The key is looked up among `fields`. The value of a known key is decoded
/// by the field's shape and fills the field's slot; a known key that comes
/// again is an error. The value of an unknown key is taken and dropped: the
/// text of an attribute, or from the stream a whole subtree, where it is an
/// element. After a value from the stream, what was in force before it is in
/// force again.
pub open spec fn entry_at(
    fields: Seq<(String, Shape)>,
    source: MapValueView,
    key: Seq<char>,
    d: DecoderView,
    slots: Seq<Option<ValueView>>,
) -> Result<(Seq<Option<ValueView>>, DecoderView), Failure>
    decreases fields, d.stream.tokens.len(), 0nat,
{
    match first_named(fields, key) {
        Some(j) => if slots[j] is Some {
            Err(Failure::Custom(DUPLICATE_FIELD@ + key))
        } else {
            proof {
                lemma_first_named(fields, key);
            }
            match source {
                MapValueView::Empty => Err(Failure::EndOfAttributes),
                MapValueView::Attribute { value } => match scalar_value(fields[j].1, value, true) {
                    Err(f) => Err(f),
                    Ok(v) => Ok((slots.update(j, Some(v)), d)),
                },
                _ => match value_at(fields[j].1, d) {
                    Err(f) => Err(f),
                    Ok((v, d2)) => Ok((slots.update(j, Some(v)), with_stream(d, d2.stream))),
                },
            }
        },
        None => match source {
            MapValueView::Empty => Err(Failure::EndOfAttributes),
            MapValueView::Attribute { value } => match str_of(value, true) {
                Err(f) => Err(f),
                Ok(text) => Ok((slots, d)),
            },
            _ => match ignored_at(d.stream) {
                Err(f) => Err(f),
                Ok(after) => Ok((slots, with_stream(d, after))),
            },
        },
    }
}

/// The slots of a record's fields after all its keys are read, and the state
/// before the record's closing tag. Each key takes an attribute or tokens;
/// one whose value takes neither is an error.
pub open spec fn entries_at(
    fields: Seq<(String, Shape)>,
    m: MapAccessView,
    d: DecoderView,
    slots: Seq<Option<ValueView>>,
) -> Result<(Seq<Option<ValueView>>, DecoderView), Failure>
    decreases fields, m.attributes.len() + d.stream.tokens.len(), 1nat,
{
    match next_key_spec(m, d) {
        Err(f) => Err(f),
        Ok((None, m2)) => Ok((slots, d)),
        Ok((Some(key), m2)) => match entry_at(fields, m2.value, key, d, slots) {
            Err(f) => Err(f),
            Ok((filled, d2)) => if m2.attributes.len() + d2.stream.tokens.len()
                < m.attributes.len() + d.stream.tokens.len() {
                entries_at(fields, settled(m2), d2, filled)
            } else {
                Err(Failure::Unsupported(STALLED@))
            },
        },
    }
}

/// The fields of the record with the fields `fields` that the stream begins
/// with, and the state behind the record's element.
pub open spec fn record_at(fields: Vec<(String, Shape)>, d: DecoderView) -> Result<
    (Seq<(Seq<char>, ValueView)>, DecoderView),
    Failure,
>
    decreases fields, 0nat, 0nat,
{
    match struct_at(d) {
        Err(f) => Err(f),
        Ok((m, after)) => match entries_at(
            fields@,
            m,
            DecoderView { stream: after, has_value_field: takes_children(fields@) },
            Seq::new(fields@.len(), |i: int| None::<ValueView>),
        ) {
            Err(f) => Err(f),
            Ok((slots, d2)) => match filled(fields@, slots) {
                Err(f) => Err(f),
                Ok(values) => match skip_subtree_spec(d2.stream, m.name, 0) {
                    Err(f) => Err(f),
                    Ok(end) => Ok((values, with_stream(d, end))),
                },
            },
        },
    }
}

/// The value of the shape `shape` that the stream begins with, and the state
/// behind it.
pub open spec fn value_at(shape: Shape, d: DecoderView) -> Result<(ValueView, DecoderView), Failure>
    decreases shape, d.stream.tokens.len(), 0nat,
{
    match shape {
        Shape::Unit => match unit_at(d.stream) {
            Ok(after) => Ok((ValueView::Unit, with_stream(d, after))),
            Err(f) => Err(f),
        },
        Shape::Bool => match bool_at(d.stream) {
            Ok((b, after)) => Ok((ValueView::Bool(b), with_stream(d, after))),
            Err(f) => Err(f),
        },
        Shape::Int(kind) => match integer_at(d.stream, kind.min(), kind.max()) {
            Ok((v, after)) => Ok(
                (
                    if kind.signed() {
                        ValueView::Int(v)
                    } else {
                        ValueView::UInt(v)
                    },
                    with_stream(d, after),
                ),
            ),
            Err(f) => Err(f),
        },
        Shape::Str => match string_at(d.stream) {
            Ok((text, after)) => Ok((ValueView::Str(text), with_stream(d, after))),
            Err(f) => Err(f),
        },
        Shape::Bytes => match bytes_at(d.stream) {
            Ok((bytes, after)) => Ok((ValueView::Bytes(bytes), with_stream(d, after))),
            Err(f) => Err(f),
        },
        Shape::Option(inner) => match present_at(d.stream) {
            Err(f) => Err(f),
            Ok(false) => Ok((ValueView::Absent, d)),
            Ok(true) => match value_at(*inner, d) {
                Ok((v, d2)) => Ok((ValueView::Present(Box::new(v)), d2)),
                Err(f) => Err(f),
            },
        },
        Shape::List(item) => match seq_of(d, None) {
            Err(f) => Err(f),
            Ok(q) => match items_at(*item, q, d) {
                Ok((items, d2)) => Ok((ValueView::List(items), d2)),
                Err(f) => Err(f),
            },
        },
        Shape::Tuple(shapes) => match seq_of(d, Some(shapes.len())) {
            Err(f) => Err(f),
            Ok(q) => match tuple_at(shapes@, q, d) {
                Ok((items, d2)) => Ok((ValueView::List(items), d2)),
                Err(f) => Err(f),
            },
        },
        Shape::Record(name, fields) => match record_at(fields, d) {
            Ok((values, d2)) => Ok((ValueView::Record(name@, values), d2)),
            Err(f) => Err(f),
        },
        Shape::Enum(variants) => match variant_at(d.stream) {
            Err(f) => Err(f),
            Ok(tag) => match first_named(variants@, tag) {
                None => Err(Failure::Custom(UNKNOWN_VARIANT@ + tag)),
                Some(j) => {
                    proof {
                        lemma_first_named(variants@, tag);
                    }
                    match variants[j].1 {
                        Payload::Unit => match unit_variant_at(d.stream) {
                            Ok(after) => Ok((ValueView::UnitVariant(tag), with_stream(d, after))),
                            Err(f) => Err(f),
                        },
                        Payload::Newtype(inner) => match value_at(inner, d) {
                            Ok((v, d2)) => Ok((ValueView::NewtypeVariant(tag, Box::new(v)), d2)),
                            Err(f) => Err(f),
                        },
                        Payload::Tuple(shapes) => match seq_of(d, Some(shapes.len())) {
                            Err(f) => Err(f),
                            Ok(q) => match tuple_at(shapes@, q, d) {
                                Ok((items, d2)) => Ok((ValueView::TupleVariant(tag, items), d2)),
                                Err(f) => Err(f),
                            },
                        },
                        Payload::Record(fields) => match record_at(fields, d) {
                            Ok((values, d2)) => Ok((ValueView::StructVariant(tag, values), d2)),
                            Err(f) => Err(f),
                        },
                    }
                },
            },
        },
        Shape::Ignored => match ignored_at(d.stream) {
            Ok(after) => Ok((ValueView::Unit, with_stream(d, after))),
            Err(f) => Err(f),
        },
    }
}

} // verus!
