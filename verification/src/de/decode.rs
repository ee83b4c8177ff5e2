//! Decoding of whole values by their shape.

use vstd::prelude::*;
use vstd::string::{StringExecFns, StringSliceAdditionalSpecFns};
use crate::bytes::str_eq;
use crate::de::cursor::{
    data_tokens, skip_subtree_spec, token_views, xml_broken, xml_events, Stream,
};
use crate::de::error::{DeError, Failure};
use crate::de::escape::EscapedDeserializer;
use crate::de::map::{MapAccess, ValueSource};
use crate::de::model::{
    default_of, entries_at, entry_at, filled, first_named, items_at, lemma_first_named,
    made_of_elements, record_at, scalar_value, settled, tuple_at, value_at, DUPLICATE_FIELD,
    INVALID_LENGTH, MISSING_FIELD, STALLED, STRUCTURE_IN_SCALAR, UNKNOWN_VARIANT,
};
use crate::de::seq::SeqAccess;
use crate::de::token::{Token, TokenView};
use crate::de::var::{unit_variant_at, EnumAccess};
use crate::de::{
    ignored_at, next_start_spec, next_text_spec, struct_at, unit_at, Decoder, DecoderView,
};
use crate::value::{field_views, views, Payload, Shape, Value, ValueView};
use crate::INNER_VALUE;

verus! {

/// Whether the stream begins with a run of text or with an element.
pub open spec fn at_value(s: Stream) -> bool {
    match s.first() {
        Ok(TokenView::Text { raw, escaped }) => true,
        Ok(TokenView::StartTag { name, tag }) => true,
        _ => false,
    }
}

/// Skipping to a closing tag takes tokens.
pub proof fn lemma_skip_takes(s: Stream, name: Seq<u8>, depth: nat)
    ensures
        skip_subtree_spec(s, name, depth) matches Ok(after) ==> after.tokens.len()
            < s.tokens.len(),
    decreases s.tokens.len(),
{
    if s.tokens.len() > 0 && s.tokens[0] != TokenView::Eof {
        lemma_skip_takes(s.rest(), name, depth);
        lemma_skip_takes(s.rest(), name, depth + 1);
        if depth > 0 {
            lemma_skip_takes(s.rest(), name, (depth - 1) as nat);
        }
    }
}

/// Reading on to an opening tag takes that tag.
pub proof fn lemma_next_start_takes(s: Stream)
    ensures
        next_start_spec(s) matches Ok((start, after)) ==> after.tokens.len() <= s.tokens.len()
            && (start is Some ==> after.tokens.len() < s.tokens.len()),
    decreases s.tokens.len(),
{
    if s.tokens.len() > 0 && s.tokens[0] != TokenView::Eof {
        lemma_next_start_takes(s.rest());
    }
}

/// Reading a value's text takes tokens if and only if the stream begins
/// with a run of text or with an element.
pub proof fn lemma_next_text_takes(s: Stream)
    ensures
        next_text_spec(s) matches Ok((text, after)) ==> after.tokens.len() <= s.tokens.len()
            && (after.tokens.len() < s.tokens.len() <==> at_value(s)),
{
    match s.first() {
        Ok(TokenView::StartTag { name, tag }) => {
            lemma_skip_takes(s.rest().rest(), name, 0);
        },
        _ => {},
    }
}

/// The mathematical values of the slots of a record's fields.
pub open spec fn slot_views(slots: Seq<Option<Value>>) -> Seq<Option<ValueView>> {
    Seq::new(
        slots.len(),
        |i: int|
            match slots[i] {
                Some(v) => Some(v@),
                None => None,
            },
    )
}

/// The index of the first of `entries` with the key `key`.
pub fn find_named<T>(entries: &Vec<(String, T)>, key: &str) -> (r: Option<usize>)
    ensures
        match r {
            Some(j) => first_named(entries@, key@) == Some(j as int) && j < entries@.len(),
            None => first_named(entries@, key@) is None,
        },
{
    let mut i: usize = 0;
    assert(entries@.skip(0) =~= entries@);
    while i < entries.len()
        invariant
            i <= entries@.len(),
            first_named(entries@, key@) == match first_named(entries@.skip(i as int), key@) {
                Some(j) => Some(j + i),
                None => None,
            },
        decreases entries@.len() - i,
    {
        assert(entries@.skip(i as int)[0] == entries@[i as int]);
        assert(entries@.skip(i as int).drop_first() =~= entries@.skip(i + 1));
        if str_eq(entries[i].0.as_str(), key) {
            return Some(i);
        }
        i += 1;
    }
    None
}

/// Whether a value of the shape `shape` is made of elements.
pub fn is_made_of_elements(shape: &Shape) -> (r: bool)
    ensures
        r == made_of_elements(*shape),
    decreases shape,
{
    match shape {
        Shape::List(item) => true,
        Shape::Tuple(shapes) => true,
        Shape::Record(name, fields) => true,
        Shape::Enum(variants) => true,
        Shape::Option(inner) => is_made_of_elements(inner),
        _ => false,
    }
}

/// Decodes the value of the shape `shape` from a captured span of bytes.
pub fn decode_scalar(text: &EscapedDeserializer, shape: &Shape) -> (r: Result<Value, DeError>)
    ensures
        match scalar_value(*shape, text.raw(), text.is_escaped()) {
            Ok(v) => r matches Ok(value) && value@ == v,
            Err(f) => r matches Err(e) && e@ == f,
        },
    decreases shape,
{
    match shape {
        Shape::Unit => match text.deserialize_unit() {
            Ok(()) => Ok(Value::Unit),
            Err(e) => Err(e),
        },
        Shape::Bool => match text.deserialize_bool() {
            Ok(b) => Ok(Value::Bool(b)),
            Err(e) => Err(e),
        },
        Shape::Int(kind) => {
            match text.deserialize_integer(*kind) {
                Ok(v) => if kind.is_signed() {
                    Ok(Value::Int(v as i64))
                } else {
                    Ok(Value::UInt(v as u64))
                },
                Err(e) => Err(e),
            }
        },
        Shape::Str => match text.deserialize_str() {
            Ok(s) => Ok(Value::Str(s)),
            Err(e) => Err(e),
        },
        Shape::Bytes => match text.deserialize_bytes() {
            Ok(b) => Ok(Value::Bytes(b)),
            Err(e) => Err(e),
        },
        Shape::Option(inner) => {
            if text.deserialize_option() {
                match decode_scalar(text, inner) {
                    Ok(v) => Ok(Value::Present(Box::new(v))),
                    Err(e) => Err(e),
                }
            } else {
                Ok(Value::Absent)
            }
        },
        Shape::Enum(variants) => {
            let tag = match text.variant() {
                Ok(tag) => tag,
                Err(e) => {
                    return Err(e);
                },
            };
            match find_named(variants, tag.as_str()) {
                None => Err(DeError::Custom(UNKNOWN_VARIANT.to_owned().concat(tag.as_str()))),
                Some(j) => match &variants[j].1 {
                    Payload::Unit => Ok(Value::UnitVariant(tag)),
                    Payload::Newtype(inner) => match decode_scalar(text, inner) {
                        Ok(v) => Ok(Value::NewtypeVariant(tag, Box::new(v))),
                        Err(e) => Err(e),
                    },
                    _ => Err(DeError::Unsupported(STRUCTURE_IN_SCALAR)),
                },
            }
        },
        Shape::Ignored => match text.deserialize_str() {
            Ok(s) => Ok(Value::Unit),
            Err(e) => Err(e),
        },
        _ => Err(DeError::Unsupported(STRUCTURE_IN_SCALAR)),
    }
}

/// The fields of a record in the order of `fields`, each with the value in
/// its slot or else with its default.
fn fill(fields: &Vec<(String, Shape)>, slots: Vec<Option<Value>>) -> (r: Result<
    Vec<(String, Value)>,
    DeError,
>)
    requires
        slots@.len() == fields@.len(),
    ensures
        match filled(fields@, slot_views(slots@)) {
            Ok(values) => r matches Ok(v) && field_views(v@) == values,
            Err(f) => r matches Err(e) && e@ == f,
        },
{
    let ghost all = slot_views(slots@);
    let mut cells = slots;
    let mut values: Vec<(String, Value)> = Vec::new();
    let mut j: usize = 0;
    assert(fields@.skip(0) =~= fields@);
    assert(all.skip(0) =~= all);
    assert(field_views(values@) =~= Seq::empty());
    while j < fields.len()
        invariant
            j <= fields@.len(),
            cells@.len() == fields@.len(),
            all.len() == fields@.len(),
            all == slot_views(slots@),
            forall|k: int| j <= k < cells@.len() ==> (#[trigger] slot_views(cells@)[k]) == all[k],
            filled(fields@, all) == match filled(fields@.skip(j as int), all.skip(j as int)) {
                Ok(rest) => Ok::<Seq<(Seq<char>, ValueView)>, Failure>(
                    field_views(values@) + rest,
                ),
                Err(f) => Err(f),
            },
        decreases fields@.len() - j,
    {
        assert(fields@.skip(j as int)[0] == fields@[j as int]);
        assert(fields@.skip(j as int).drop_first() =~= fields@.skip(j + 1));
        assert(all.skip(j as int)[0] == all[j as int]);
        assert(all.skip(j as int).drop_first() =~= all.skip(j + 1));
        assert(slot_views(cells@)[j as int] == all[j as int]);
        let mut slot: Option<Value> = None;
        let ghost held = cells@;
        cells.set_and_swap(j, &mut slot);
        assert forall|k: int| j + 1 <= k < cells@.len() implies (#[trigger] slot_views(
            cells@,
        )[k]) == all[k] by {
            assert(slot_views(held)[k] == all[k]);
        }
        let value = match slot {
            Some(v) => v,
            None => match &fields[j].1 {
                Shape::Option(inner) => Value::Absent,
                Shape::List(item) => {
                    let v = Value::List(Vec::new());
                    assert(views(Seq::<Value>::empty()) =~= Seq::<ValueView>::empty());
                    v
                },
                _ => {
                    let message = MISSING_FIELD.to_owned().concat(fields[j].0.as_str());
                    assert(default_of(fields@[j as int].1) is None);
                    assert(all[j as int] is None);
                    assert(message@ == MISSING_FIELD@ + fields@[j as int].0@);
                    assert(filled(fields@.skip(j as int), all.skip(j as int)) == Err::<
                        Seq<(Seq<char>, ValueView)>,
                        Failure,
                    >(Failure::Custom(message@)));
                    return Err(DeError::Custom(message));
                },
            },
        };
        let ghost before = values@;
        values.push((fields[j].0.clone(), value));
        proof {
            let entry = (fields@[j as int].0@, value@);
            assert(field_views(values@) =~= field_views(before).push(entry));
            match filled(fields@.skip(j + 1), all.skip(j + 1)) {
                Ok(rest) => {
                    assert(field_views(before) + (seq![entry] + rest) =~= field_views(values@)
                        + rest);
                },
                Err(f) => {},
            }
        }
        j += 1;
    }
    assert(fields@.skip(j as int).len() == 0);
    assert(field_views(values@) + Seq::<(Seq<char>, ValueView)>::empty() =~= field_views(
        values@,
    ));
    Ok(values)
}

/// Decoding a unit takes tokens.
pub proof fn lemma_unit_takes(s: Stream)
    ensures
        unit_at(s) matches Ok(after) ==> after.tokens.len() < s.tokens.len(),
{
    match s.first() {
        Ok(TokenView::StartTag { name, tag }) => {
            lemma_skip_takes(s.rest(), name, 0);
        },
        _ => {},
    }
}

/// Passing over a value takes tokens if and only if the stream begins with
/// a run of text or with an element.
pub proof fn lemma_ignored_takes(s: Stream)
    ensures
        ignored_at(s) matches Ok(after) ==> after.tokens.len() <= s.tokens.len() && (
        after.tokens.len() < s.tokens.len() <==> at_value(s)),
{
    match s.first() {
        Ok(TokenView::StartTag { name, tag }) => {
            lemma_skip_takes(s.rest(), name, 0);
        },
        _ => {},
    }
}

/// Decoding a variant without payload takes tokens.
pub proof fn lemma_unit_variant_takes(s: Stream)
    ensures
        unit_variant_at(s) matches Ok(after) ==> after.tokens.len() < s.tokens.len(),
{
    match s.first() {
        Ok(TokenView::StartTag { name, tag }) => {
            lemma_skip_takes(s.rest(), name, 0);
        },
        _ => {},
    }
}

/// Beginning a record takes its opening tag.
pub proof fn lemma_struct_takes(d: DecoderView)
    ensures
        struct_at(d) matches Ok((m, after)) ==> after.tokens.len() < d.stream.tokens.len(),
{
    lemma_next_start_takes(d.stream);
}

impl<'a> Decoder<'a> {
    /// Whether the stream begins with a run of text or with an element.
    fn at_value(&mut self) -> (r: Result<bool, DeError>)
        ensures
            match old(self)@.stream.first() {
                Ok(t) => r == Ok::<bool, DeError>(at_value(old(self)@.stream)) && final(self)@
                    == old(self)@,
                Err(f) => r matches Err(e) && e@ == f,
            },
    {
        match self.peek() {
            Err(e) => Err(e),
            Ok(Token::Text { raw, escaped }) => Ok(true),
            Ok(Token::StartTag { name, tag }) => Ok(true),
            Ok(_) => Ok(false),
        }
    }

    /// Decodes the items of a sequence of items of the shape `item`, and
    /// says whether a token was taken.
    fn decode_items(&mut self, item: &Shape, seq: SeqAccess) -> (r: Result<
        (Vec<Value>, bool),
        DeError,
    >)
        ensures
            match items_at(*item, seq@, old(self)@) {
                Ok((items, d)) => {
                    &&& r matches Ok(out)
                    &&& views(out.0@) == items
                    &&& final(self)@ == d
                    &&& d.stream.tokens.len() <= old(self)@.stream.tokens.len()
                    &&& out.1 == (d.stream.tokens.len() < old(self)@.stream.tokens.len())
                },
                Err(f) => r matches Err(e) && e@ == f,
            },
        decreases item, old(self)@.stream.tokens.len(), 1nat,
    {
        let mut access = seq;
        let mut items: Vec<Value> = Vec::new();
        assert(views(items@) =~= Seq::<ValueView>::empty());
        loop
            invariant
                items_at(*item, seq@, old(self)@) == match items_at(*item, access@, self@) {
                    Ok((rest, d)) => Ok::<(Seq<ValueView>, DecoderView), Failure>(
                        (views(items@) + rest, d),
                    ),
                    Err(f) => Err(f),
                },
                self@.stream.tokens.len() <= old(self)@.stream.tokens.len(),
                (items@.len() > 0) == (self@.stream.tokens.len() < old(
                    self,
                )@.stream.tokens.len()),
            decreases self@.stream.tokens.len(),
        {
            let ghost here = self@;
            let ghost held = items@;
            match access.next_element(self) {
                Err(e) => {
                    return Err(e);
                },
                Ok(false) => {
                    assert(views(items@) + Seq::<ValueView>::empty() =~= views(items@));
                    let taken = items.len() > 0;
                    return Ok((items, taken));
                },
                Ok(true) => {},
            }
            match self.decode_tracked(item) {
                Err(e) => {
                    return Err(e);
                },
                Ok((value, progress)) => {
                    if !progress {
                        return Err(DeError::Unsupported(STALLED));
                    }
                    items.push(value);
                    proof {
                        assert(views(items@) =~= views(held).push(value@));
                        match items_at(*item, access@, self@) {
                            Ok((rest, d)) => {
                                assert(views(held) + (seq![value@] + rest) =~= views(items@)
                                    + rest);
                            },
                            Err(f) => {},
                        }
                    }
                },
            }
        }
    }

    /// Decodes the items of a tuple with the shapes `shapes`, and says
    /// whether a token was taken.
    fn decode_positions(&mut self, shapes: &Vec<Shape>, seq: SeqAccess) -> (r: Result<
        (Vec<Value>, bool),
        DeError,
    >)
        ensures
            match tuple_at(shapes@, seq@, old(self)@) {
                Ok((items, d)) => {
                    &&& r matches Ok(out)
                    &&& views(out.0@) == items
                    &&& final(self)@ == d
                    &&& d.stream.tokens.len() <= old(self)@.stream.tokens.len()
                    &&& out.1 == (d.stream.tokens.len() < old(self)@.stream.tokens.len())
                },
                Err(f) => r matches Err(e) && e@ == f,
            },
        decreases shapes@, 0nat, 0nat,
    {
        let mut access = seq;
        let mut items: Vec<Value> = Vec::new();
        let mut taken = false;
        let mut i: usize = 0;
        assert(views(items@) =~= Seq::<ValueView>::empty());
        assert(shapes@.skip(0) =~= shapes@);
        while i < shapes.len()
            invariant
                i <= shapes@.len(),
                tuple_at(shapes@, seq@, old(self)@) == match tuple_at(
                    shapes@.skip(i as int),
                    access@,
                    self@,
                ) {
                    Ok((rest, d)) => Ok::<(Seq<ValueView>, DecoderView), Failure>(
                        (views(items@) + rest, d),
                    ),
                    Err(f) => Err(f),
                },
                self@.stream.tokens.len() <= old(self)@.stream.tokens.len(),
                taken == (self@.stream.tokens.len() < old(self)@.stream.tokens.len()),
            decreases shapes@.len() - i,
        {
            let ghost held = items@;
            assert(shapes@.skip(i as int)[0] == shapes@[i as int]);
            assert(shapes@.skip(i as int).drop_first() =~= shapes@.skip(i + 1));
            match access.next_element(self) {
                Err(e) => {
                    return Err(e);
                },
                Ok(false) => {
                    return Err(DeError::Custom(INVALID_LENGTH.to_owned()));
                },
                Ok(true) => {},
            }
            match self.decode_tracked(&shapes[i]) {
                Err(e) => {
                    return Err(e);
                },
                Ok((value, progress)) => {
                    taken = taken || progress;
                    items.push(value);
                    proof {
                        assert(views(items@) =~= views(held).push(value@));
                        match tuple_at(shapes@.skip(i + 1), access@, self@) {
                            Ok((rest, d)) => {
                                assert(views(held) + (seq![value@] + rest) =~= views(items@)
                                    + rest);
                            },
                            Err(f) => {},
                        }
                    }
                },
            }
            i += 1;
        }
        assert(shapes@.skip(i as int).len() == 0);
        assert(views(items@) + Seq::<ValueView>::empty() =~= views(items@));
        Ok((items, taken))
    }

    /// Decodes the value of the key `key` into the slot of its field, or
    /// drops it where no field has the key, and says whether a token was
    /// taken.
    fn decode_entry(
        &mut self,
        fields: &Vec<(String, Shape)>,
        map: &mut MapAccess,
        key: &str,
        slots: &mut Vec<Option<Value>>,
    ) -> (r: Result<bool, DeError>)
        requires
            old(slots)@.len() == fields@.len(),
        ensures
            match entry_at(fields@, old(map)@.value, key@, old(self)@, slot_views(old(slots)@)) {
                Ok((filled, d)) => {
                    &&& r matches Ok(taken)
                    &&& taken == (d.stream.tokens.len() < old(self)@.stream.tokens.len())
                    &&& d.stream.tokens.len() <= old(self)@.stream.tokens.len()
                    &&& slot_views(final(slots)@) == filled
                    &&& final(slots)@.len() == fields@.len()
                    &&& final(self)@ == d
                    &&& final(map)@ == settled(old(map)@)
                },
                Err(f) => r matches Err(e) && e@ == f,
            },
        decreases fields@, old(self)@.stream.tokens.len(), 0nat,
    {
        proof {
            lemma_first_named(fields@, key@);
            lemma_ignored_takes(old(self)@.stream);
        }
        let ghost held = slots@;
        let flag = self.has_value_field();
        match find_named(fields, key) {
            Some(j) => {
                assert(slot_views(slots@)[j as int] is Some == slots@[j as int] is Some);
                if slots[j].is_some() {
                    let message = DUPLICATE_FIELD.to_owned().concat(key);
                    assert(message@ == DUPLICATE_FIELD@ + key@);
                    return Err(DeError::Custom(message));
                }
                match map.next_value() {
                    Err(e) => Err(e),
                    Ok(ValueSource::Attribute(text)) => {
                        match decode_scalar(&text, &fields[j].1) {
                            Err(e) => Err(e),
                            Ok(value) => {
                                slots.set(j, Some(value));
                                assert(slot_views(slots@) =~= slot_views(held).update(
                                    j as int,
                                    Some(value@),
                                ));
                                Ok(false)
                            },
                        }
                    },
                    Ok(ValueSource::Content) => {
                        match self.decode_tracked(&fields[j].1) {
                            Err(e) => Err(e),
                            Ok((value, taken)) => {
                                self.set_has_value_field(flag);
                                slots.set(j, Some(value));
                                assert(slot_views(slots@) =~= slot_views(held).update(
                                    j as int,
                                    Some(value@),
                                ));
                                Ok(taken)
                            },
                        }
                    },
                }
            },
            None => {
                match map.next_value() {
                    Err(e) => Err(e),
                    Ok(ValueSource::Attribute(text)) => {
                        match text.deserialize_str() {
                            Err(e) => Err(e),
                            Ok(dropped) => Ok(false),
                        }
                    },
                    Ok(ValueSource::Content) => {
                        let taken = match self.at_value() {
                            Ok(taken) => taken,
                            Err(e) => {
                                return Err(e);
                            },
                        };
                        match self.decode_ignored() {
                            Err(e) => Err(e),
                            Ok(()) => Ok(taken),
                        }
                    },
                }
            },
        }
    }

    /// Reads the keys of a record up to the last and decodes their values
    /// into the slots of the fields.
    fn decode_entries(
        &mut self,
        fields: &Vec<(String, Shape)>,
        map: &mut MapAccess,
        slots: &mut Vec<Option<Value>>,
    ) -> (r: Result<(), DeError>)
        requires
            old(slots)@.len() == fields@.len(),
        ensures
            match entries_at(fields@, old(map)@, old(self)@, slot_views(old(slots)@)) {
                Ok((filled, d)) => {
                    &&& r is Ok
                    &&& slot_views(final(slots)@) == filled
                    &&& final(slots)@.len() == fields@.len()
                    &&& final(self)@ == d
                    &&& final(map)@.name == old(map)@.name
                    &&& final(map)@.outer == old(map)@.outer
                    &&& d.stream.tokens.len() <= old(self)@.stream.tokens.len()
                },
                Err(f) => r matches Err(e) && e@ == f,
            },
        decreases fields@, old(map)@.attributes.len() + old(self)@.stream.tokens.len(), 1nat,
    {
        loop
            invariant
                slots@.len() == fields@.len(),
                entries_at(fields@, map@, self@, slot_views(slots@)) == entries_at(
                    fields@,
                    old(map)@,
                    old(self)@,
                    slot_views(old(slots)@),
                ),
                map@.name == old(map)@.name,
                map@.outer == old(map)@.outer,
                self@.stream.tokens.len() <= old(self)@.stream.tokens.len(),
                map@.attributes.len() <= old(map)@.attributes.len(),
            decreases map@.attributes.len() + self@.stream.tokens.len(),
        {
            let unread = map.unread();
            let key = match map.next_key(self) {
                Err(e) => {
                    return Err(e);
                },
                Ok(None) => {
                    return Ok(());
                },
                Ok(Some(key)) => key,
            };
            let read = map.unread() < unread;
            match self.decode_entry(fields, map, key.as_str(), slots) {
                Err(e) => {
                    return Err(e);
                },
                Ok(taken) => {
                    if !read && !taken {
                        return Err(DeError::Unsupported(STALLED));
                    }
                },
            }
        }
    }

    /// Decodes the fields of the record with the fields `fields`.
    fn decode_record(&mut self, fields: &Vec<(String, Shape)>) -> (r: Result<
        Vec<(String, Value)>,
        DeError,
    >)
        ensures
            match record_at(*fields, old(self)@) {
                Ok((values, d)) => {
                    &&& r matches Ok(out)
                    &&& field_views(out@) == values
                    &&& final(self)@ == d
                    &&& d.stream.tokens.len() < old(self)@.stream.tokens.len()
                },
                Err(f) => r matches Err(e) && e@ == f,
            },
        decreases fields, 0nat, 0nat,
    {
        proof {
            lemma_struct_takes(old(self)@);
        }
        let flag = match find_named(fields, INNER_VALUE) {
            Some(j) => is_made_of_elements(&fields[j].1),
            None => false,
        };
        let mut map = match self.decode_struct_with(flag) {
            Ok(map) => map,
            Err(e) => {
                return Err(e);
            },
        };
        let mut slots: Vec<Option<Value>> = Vec::new();
        let mut i: usize = 0;
        while i < fields.len()
            invariant
                i <= fields@.len(),
                slots@.len() == i,
                forall|k: int| 0 <= k < i ==> (#[trigger] slots@[k]) is None,
            decreases fields@.len() - i,
        {
            slots.push(None);
            i += 1;
        }
        assert(slot_views(slots@) =~= Seq::new(fields@.len(), |i: int| None::<ValueView>));
        match self.decode_entries(fields, &mut map, &mut slots) {
            Ok(()) => {},
            Err(e) => {
                return Err(e);
            },
        }
        let values = match fill(fields, slots) {
            Ok(values) => values,
            Err(e) => {
                return Err(e);
            },
        };
        proof {
            lemma_skip_takes(self@.stream, map@.name, 0);
        }
        match self.end_struct(&map) {
            Ok(()) => Ok(values),
            Err(e) => Err(e),
        }
    }

    /// Decodes the value of the shape `shape`, and says whether a token was
    /// taken.
    fn decode_tracked(&mut self, shape: &Shape) -> (r: Result<(Value, bool), DeError>)
        ensures
            match value_at(*shape, old(self)@) {
                Ok((v, d)) => {
                    &&& r matches Ok(out)
                    &&& out.0@ == v
                    &&& final(self)@ == d
                    &&& d.stream.tokens.len() <= old(self)@.stream.tokens.len()
                    &&& out.1 == (d.stream.tokens.len() < old(self)@.stream.tokens.len())
                },
                Err(f) => r matches Err(e) && e@ == f,
            },
        decreases shape, old(self)@.stream.tokens.len(), 0nat,
    {
        proof {
            lemma_next_text_takes(old(self)@.stream);
            lemma_unit_takes(old(self)@.stream);
            lemma_ignored_takes(old(self)@.stream);
            lemma_unit_variant_takes(old(self)@.stream);
        }
        match shape {
            Shape::Unit => match self.decode_unit() {
                Ok(()) => Ok((Value::Unit, true)),
                Err(e) => Err(e),
            },
            Shape::Bool => {
                let taken = match self.at_value() {
                    Ok(taken) => taken,
                    Err(e) => {
                        return Err(e);
                    },
                };
                match self.decode_bool() {
                    Ok(b) => Ok((Value::Bool(b), taken)),
                    Err(e) => Err(e),
                }
            },
            Shape::Int(kind) => {
                let taken = match self.at_value() {
                    Ok(taken) => taken,
                    Err(e) => {
                        return Err(e);
                    },
                };
                match self.decode_integer(*kind) {
                    Ok(v) => if kind.is_signed() {
                        Ok((Value::Int(v as i64), taken))
                    } else {
                        Ok((Value::UInt(v as u64), taken))
                    },
                    Err(e) => Err(e),
                }
            },
            Shape::Str => {
                let taken = match self.at_value() {
                    Ok(taken) => taken,
                    Err(e) => {
                        return Err(e);
                    },
                };
                match self.decode_string() {
                    Ok(s) => Ok((Value::Str(s), taken)),
                    Err(e) => Err(e),
                }
            },
            Shape::Bytes => {
                let taken = match self.at_value() {
                    Ok(taken) => taken,
                    Err(e) => {
                        return Err(e);
                    },
                };
                match self.decode_bytes() {
                    Ok(b) => Ok((Value::Bytes(b), taken)),
                    Err(e) => Err(e),
                }
            },
            Shape::Option(inner) => match self.decode_option() {
                Err(e) => Err(e),
                Ok(false) => Ok((Value::Absent, false)),
                Ok(true) => match self.decode_tracked(inner) {
                    Ok((v, taken)) => Ok((Value::Present(Box::new(v)), taken)),
                    Err(e) => Err(e),
                },
            },
            Shape::List(item) => match SeqAccess::new(self, None) {
                Err(e) => Err(e),
                Ok(seq) => match self.decode_items(item, seq) {
                    Ok((items, taken)) => Ok((Value::List(items), taken)),
                    Err(e) => Err(e),
                },
            },
            Shape::Tuple(shapes) => match SeqAccess::new(self, Some(shapes.len())) {
                Err(e) => Err(e),
                Ok(seq) => match self.decode_positions(shapes, seq) {
                    Ok((items, taken)) => Ok((Value::List(items), taken)),
                    Err(e) => Err(e),
                },
            },
            Shape::Record(name, fields) => match self.decode_record(fields) {
                Ok(values) => Ok((Value::Record(name.clone(), values), true)),
                Err(e) => Err(e),
            },
            Shape::Enum(variants) => {
                let (tag, access) = match EnumAccess::new().variant(self) {
                    Ok(found) => found,
                    Err(e) => {
                        return Err(e);
                    },
                };
                match find_named(variants, tag.as_str()) {
                    None => Err(DeError::Custom(UNKNOWN_VARIANT.to_owned().concat(tag.as_str()))),
                    Some(j) => match &variants[j].1 {
                        Payload::Unit => match access.unit_variant(self) {
                            Ok(()) => Ok((Value::UnitVariant(tag), true)),
                            Err(e) => Err(e),
                        },
                        Payload::Newtype(inner) => match self.decode_tracked(inner) {
                            Ok((v, taken)) => Ok(
                                (Value::NewtypeVariant(tag, Box::new(v)), taken),
                            ),
                            Err(e) => Err(e),
                        },
                        Payload::Tuple(shapes) => match access.tuple_variant(
                            self,
                            shapes.len(),
                        ) {
                            Err(e) => Err(e),
                            Ok(seq) => match self.decode_positions(shapes, seq) {
                                Ok((items, taken)) => Ok((Value::TupleVariant(tag, items), taken)),
                                Err(e) => Err(e),
                            },
                        },
                        Payload::Record(fields) => match self.decode_record(fields) {
                            Ok(values) => Ok((Value::StructVariant(tag, values), true)),
                            Err(e) => Err(e),
                        },
                    },
                }
            },
            Shape::Ignored => {
                let taken = match self.at_value() {
                    Ok(taken) => taken,
                    Err(e) => {
                        return Err(e);
                    },
                };
                match self.decode_ignored() {
                    Ok(()) => Ok((Value::Unit, taken)),
                    Err(e) => Err(e),
                }
            },
        }
    }

    /// Decodes the value of the shape `shape` that the stream begins with.
    pub fn decode_value(&mut self, shape: &Shape) -> (r: Result<Value, DeError>)
        ensures
            match value_at(*shape, old(self)@) {
                Ok((v, d)) => r matches Ok(value) && value@ == v && final(self)@ == d,
                Err(f) => r matches Err(e) && e@ == f,
            },
    {
        match self.decode_tracked(shape) {
            Ok((value, taken)) => Ok(value),
            Err(e) => Err(e),
        }
    }
}

/// The state of a decoder at the start of the document `input`.
pub open spec fn document(input: Seq<u8>) -> DecoderView {
    DecoderView {
        stream: Stream { tokens: data_tokens(xml_events(input)), broken: xml_broken(input) },
        has_value_field: false,
    }
}

/// Decodes the value of the shape `shape` that the document `input` begins
/// with.
pub fn from_bytes(input: &[u8], shape: &Shape) -> (r: Result<Value, DeError>)
    ensures
        match value_at(*shape, document(input@)) {
            Ok((v, d)) => r matches Ok(value) && value@ == v,
            Err(f) => r matches Err(e) && e@ == f,
        },
{
    let mut de = Decoder::new(input);
    de.decode_value(shape)
}

/// Decodes the value of the shape `shape` that the tokens `tokens` begin
/// with.
pub fn from_tokens(tokens: Vec<Token>, shape: &Shape) -> (r: Result<Value, DeError>)
    ensures
        match value_at(
            *shape,
            DecoderView {
                stream: Stream { tokens: token_views(tokens@), broken: false },
                has_value_field: false,
            },
        ) {
            Ok((v, d)) => r matches Ok(value) && value@ == v,
            Err(f) => r matches Err(e) && e@ == f,
        },
{
    let mut de = Decoder::from_tokens(tokens);
    de.decode_value(shape)
}

/// Decodes the value of the shape `shape` that the document `input` begins
/// with.
pub fn from_str(input: &str, shape: &Shape) -> (r: Result<Value, DeError>)
    ensures
        match value_at(*shape, document(input.spec_bytes())) {
            Ok((v, d)) => r matches Ok(value) && value@ == v,
            Err(f) => r matches Err(e) && e@ == f,
        },
{
    from_bytes(input.as_bytes(), shape)
}

} // verus!
