//! What holds of the codec for every input.

use vstd::prelude::*;
use vstd::utf8::{
    decode_utf8, is_leading_byte_width_1, partial_valid_utf8,
    partial_valid_utf8_extend_ascii_block, valid_utf8,
};
use crate::de::cursor::{skip_subtree_spec, Stream};
use crate::de::decode::lemma_skip_takes;
use crate::de::error::Failure;
use crate::de::escape::{bool_of, integer_of, lit_false, lit_true, str_of, text_of};
use crate::de::number::is_digit;
use crate::de::map::{
    attr_key, local_name_of, next_key_spec, MapAccessView, MapValueView,
};
use crate::de::model::{
    entries_at, entry_at, first_named, items_at, lemma_first_named, record_at, settled,
    takes_children, tuple_at,
    value_at, with_stream,
};
use crate::de::seq::{next_element_spec, seq_of, SeqAccessView};
use crate::de::var::{unit_variant_at, variant_at};
use crate::de::token::TokenView;
use crate::de::{
    ignored_at, next_start_spec, next_text_spec, struct_at, unit_at, DecoderView,
};
use crate::ser::text::{
    escape_byte, escaped, lemma_integer_round_trip, lemma_render_nat, render_bool, render_int,
    render_nat,
};
use crate::value::{IntKind, Payload, Shape, ValueView};
use crate::ATTRIBUTE_MARKER;

verus! {

/// While a record has unread attributes, its next key is the key of the
/// first of them, whatever the stream holds: the two streams of `d1` and
/// `d2` give the same key and leave the same state. So an element never
/// takes the place of an attribute of its name.
pub proof fn attributes_come_first(m: MapAccessView, d1: DecoderView, d2: DecoderView)
    requires
        m.attributes.len() > 0,
    ensures
        next_key_spec(m, d1) == next_key_spec(m, d2),
        match next_key_spec(m, d1) {
            Ok((key, after)) => {
                &&& text_of(attr_key(m.attributes[0].0)) == Ok::<Seq<char>, Failure>(key->Some_0)
                &&& key is Some
                &&& after.value == MapValueView::Attribute { value: m.attributes[0].1 }
                &&& after.attributes == m.attributes.drop_first()
            },
            Err(f) => f == Failure::Utf8,
        },
{
}

/// A record's key comes from the stream only after the record's last
/// attribute: an attribute is never passed over for an element or for text.
pub proof fn elements_come_last(m: MapAccessView, d: DecoderView)
    requires
        next_key_spec(m, d) matches Ok((key, after)) && (after.value is Nested
            || after.value is InnerValue) && key is Some,
    ensures
        m.attributes.len() == 0,
{
}

/// The key of an attribute begins with the attribute marker `@`, which no
/// key of the inner value does.
pub proof fn attribute_keys_are_marked(key: Seq<u8>)
    requires
        text_of(attr_key(key)) is Ok,
    ensures
        text_of(attr_key(key))->Ok_0.len() > 0,
        text_of(attr_key(key))->Ok_0[0] == '@',
{
    let bytes = attr_key(key);
    assert(bytes[0] == ATTRIBUTE_MARKER);
    assert(valid_utf8(bytes));
    assert(64u8 & 0x7f == 64u8) by (bit_vector);
    assert(decode_utf8(bytes)[0] == '@');
}

/// What ends a sequence: the end of the input, a closing tag, or an element
/// that does not belong to the sequence.
pub open spec fn ends_sequence(q: SeqAccessView, t: TokenView) -> bool {
    match t {
        TokenView::Eof => true,
        TokenView::EndTag { name } => true,
        TokenView::StartTag { name, tag } => !q.names.admits(name),
        TokenView::Text { raw, escaped } => false,
    }
}

/// A sequence that may hold no more items, or that stands before a token
/// that ends it, is empty, and it is no error: nothing is taken, and the
/// token that ends the sequence is left for what follows.
pub proof fn sequence_ends_without_items(item: Shape, q: SeqAccessView, d: DecoderView)
    requires
        q.max_size == Some(0usize) || (d.stream.first() matches Ok(t) && ends_sequence(q, t)),
    ensures
        items_at(item, q, d) == Ok::<(Seq<ValueView>, DecoderView), Failure>((Seq::empty(), d)),
{
}

/// A child element whose name is no key of the record is passed over with
/// all that it holds: the record is decoded as from behind the child's
/// closing tag.
pub proof fn unknown_child_is_passed_over(
    fields: Seq<(String, Shape)>,
    m: MapAccessView,
    d: DecoderView,
    slots: Seq<Option<ValueView>>,
    name: Seq<u8>,
    tag: Seq<u8>,
)
    requires
        m.attributes.len() == 0,
        !d.has_value_field,
        d.stream.first() == Ok::<TokenView, Failure>(TokenView::StartTag { name, tag }),
        text_of(local_name_of(name)) matches Ok(key) && first_named(fields, key) is None,
        skip_subtree_spec(d.stream.rest(), name, 0) is Ok,
    ensures
        entries_at(fields, m, d, slots) == entries_at(
            fields,
            settled(m),
            with_stream(d, skip_subtree_spec(d.stream.rest(), name, 0)->Ok_0),
            slots,
        ),
{
    let key = text_of(local_name_of(name))->Ok_0;
    let after = skip_subtree_spec(d.stream.rest(), name, 0)->Ok_0;
    lemma_skip_takes(d.stream.rest(), name, 0);
    assert(entry_at(fields, MapValueView::Nested, key, d, slots) == Ok::<
        (Seq<Option<ValueView>>, DecoderView),
        Failure,
    >((slots, with_stream(d, after))));
}

/// An attribute whose name is no key of the record is passed over: the
/// record is decoded as without it, where its value is well-formed text.
pub proof fn unknown_attribute_is_passed_over(
    fields: Seq<(String, Shape)>,
    m: MapAccessView,
    d: DecoderView,
    slots: Seq<Option<ValueView>>,
)
    requires
        m.attributes.len() > 0,
        text_of(attr_key(m.attributes[0].0)) matches Ok(key) && first_named(fields, key) is None,
        str_of(m.attributes[0].1, true) is Ok,
    ensures
        entries_at(fields, m, d, slots) == entries_at(
            fields,
            MapAccessView {
                attributes: m.attributes.drop_first(),
                value: MapValueView::Empty,
                name: m.name,
                outer: m.outer,
            },
            d,
            slots,
        ),
{
    let key = text_of(attr_key(m.attributes[0].0))->Ok_0;
    assert(entry_at(
        fields,
        MapValueView::Attribute { value: m.attributes[0].1 },
        key,
        d,
        slots,
    ) == Ok::<(Seq<Option<ValueView>>, DecoderView), Failure>((slots, d)));
}

/// Decoding a value leaves in force what was in force before it: whether
/// unnamed children are the inner value of the element around the value.
pub proof fn value_keeps_what_is_in_force(shape: Shape, d: DecoderView)
    ensures
        value_at(shape, d) matches Ok((v, after)) ==> after.has_value_field
            == d.has_value_field,
    decreases shape, d.stream.tokens.len(), 0nat,
{
    match shape {
        Shape::Option(inner) => {
            value_keeps_what_is_in_force(*inner, d);
        },
        Shape::List(item) => {
            match seq_of(d, None) {
                Ok(q) => {
                    items_keep_what_is_in_force(*item, q, d);
                },
                Err(f) => {},
            }
        },
        Shape::Tuple(shapes) => {
            match seq_of(d, Some(shapes.len())) {
                Ok(q) => {
                    tuple_keeps_what_is_in_force(shapes@, q, d);
                },
                Err(f) => {},
            }
        },
        Shape::Enum(variants) => {
            match variant_at(d.stream) {
                Ok(tag) => match first_named(variants@, tag) {
                    Some(j) => {
                        lemma_first_named(variants@, tag);
                        match variants[j].1 {
                            Payload::Newtype(inner) => {
                                value_keeps_what_is_in_force(inner, d);
                            },
                            Payload::Tuple(shapes) => {
                                match seq_of(d, Some(shapes.len())) {
                                    Ok(q) => {
                                        tuple_keeps_what_is_in_force(shapes@, q, d);
                                    },
                                    Err(f) => {},
                                }
                            },
                            Payload::Unit => {},
                            Payload::Record(fields) => {
                                assert(record_at(fields, d) matches Ok((values, after)) ==> after
                                    == with_stream(d, after.stream));
                            },
                        }
                    },
                    None => {},
                },
                Err(f) => {},
            }
        },
        Shape::Unit => {},
        Shape::Bool => {},
        Shape::Int(kind) => {},
        Shape::Str => {},
        Shape::Bytes => {},
        Shape::Record(name, fields) => {
            assert(record_at(fields, d) matches Ok((values, after)) ==> after == with_stream(
                d,
                after.stream,
            ));
        },
        Shape::Ignored => {},
    }
}

/// The items of a sequence leave in force what was in force before them.
pub proof fn items_keep_what_is_in_force(item: Shape, q: SeqAccessView, d: DecoderView)
    ensures
        items_at(item, q, d) matches Ok((items, after)) ==> after.has_value_field
            == d.has_value_field,
    decreases item, d.stream.tokens.len(), 1nat,
{
    match next_element_spec(q, d) {
        Ok((true, q2)) => {
            value_keeps_what_is_in_force(item, d);
            match value_at(item, d) {
                Ok((v, d2)) => {
                    if d2.stream.tokens.len() < d.stream.tokens.len() {
                        items_keep_what_is_in_force(item, q2, d2);
                    }
                },
                Err(f) => {},
            }
        },
        _ => {},
    }
}

/// The items of a tuple leave in force what was in force before them.
pub proof fn tuple_keeps_what_is_in_force(shapes: Seq<Shape>, q: SeqAccessView, d: DecoderView)
    ensures
        tuple_at(shapes, q, d) matches Ok((items, after)) ==> after.has_value_field
            == d.has_value_field,
    decreases shapes, 0nat, 0nat,
{
    if shapes.len() > 0 {
        match next_element_spec(q, d) {
            Ok((true, q2)) => {
                value_keeps_what_is_in_force(shapes[0], d);
                match value_at(shapes[0], d) {
                    Ok((v, d2)) => {
                        tuple_keeps_what_is_in_force(shapes.drop_first(), q2, d2);
                    },
                    Err(f) => {},
                }
            },
            _ => {},
        }
    }
}

/// Whether the stream `after` is the stream `before` less some tokens in
/// front.
pub open spec fn follows(after: Stream, before: Stream) -> bool {
    &&& after.broken == before.broken
    &&& after.tokens.len() <= before.tokens.len()
    &&& after.tokens == before.tokens.skip(before.tokens.len() - after.tokens.len())
}

/// A stream that follows one that follows a third follows the third.
pub proof fn follows_is_transitive(c: Stream, b: Stream, a: Stream)
    requires
        follows(c, b),
        follows(b, a),
    ensures
        follows(c, a),
{
    let kb = a.tokens.len() - b.tokens.len();
    let kc = b.tokens.len() - c.tokens.len();
    assert(a.tokens.skip(kb).skip(kc) =~= a.tokens.skip(kb + kc));
}

/// The stream behind the next token follows the stream.
pub proof fn rest_follows(s: Stream)
    ensures
        follows(s.rest(), s),
{
    assert(s.tokens.skip(0) =~= s.tokens);
    if s.tokens.len() > 0 {
        assert(s.tokens.drop_first() =~= s.tokens.skip(1));
    }
}

/// Skipping to a closing tag takes tokens from the front and leaves the
/// others as they are.
pub proof fn skip_takes_from_the_front(s: Stream, name: Seq<u8>, depth: nat)
    ensures
        skip_subtree_spec(s, name, depth) matches Ok(after) ==> follows(after, s),
    decreases s.tokens.len(),
{
    rest_follows(s);
    if s.tokens.len() > 0 && s.tokens[0] != TokenView::Eof {
        skip_takes_from_the_front(s.rest(), name, depth);
        skip_takes_from_the_front(s.rest(), name, depth + 1);
        if depth > 0 {
            skip_takes_from_the_front(s.rest(), name, (depth - 1) as nat);
        }
        match skip_subtree_spec(s, name, depth) {
            Ok(after) => {
                if after != s.rest() {
                    follows_is_transitive(after, s.rest(), s);
                }
            },
            Err(f) => {},
        }
    }
}

/// Reading on to an opening tag takes tokens from the front and leaves the
/// others as they are.
pub proof fn next_start_takes_from_the_front(s: Stream)
    ensures
        next_start_spec(s) matches Ok((start, after)) ==> follows(after, s),
    decreases s.tokens.len(),
{
    rest_follows(s);
    if s.tokens.len() > 0 && s.tokens[0] != TokenView::Eof {
        next_start_takes_from_the_front(s.rest());
        match next_start_spec(s) {
            Ok((start, after)) => {
                if after != s.rest() {
                    follows_is_transitive(after, s.rest(), s);
                }
            },
            Err(f) => {},
        }
    }
}

/// Every request of a scalar, of a unit, of a record's opening tag or of a
/// variant without payload takes tokens from the front of the stream and
/// leaves the others as they are.
pub proof fn requests_take_from_the_front(s: Stream)
    ensures
        next_text_spec(s) matches Ok((text, after)) ==> follows(after, s),
        unit_at(s) matches Ok(after) ==> follows(after, s),
        ignored_at(s) matches Ok(after) ==> follows(after, s),
        unit_variant_at(s) matches Ok(after) ==> follows(after, s),
{
    rest_follows(s);
    rest_follows(s.rest());
    follows_is_transitive(s.rest().rest(), s.rest(), s);
    assert(follows(s, s)) by {
        assert(s.tokens.skip(0) =~= s.tokens);
    }
    match s.first() {
        Ok(TokenView::StartTag { name, tag }) => {
            skip_takes_from_the_front(s.rest(), name, 0);
            skip_takes_from_the_front(s.rest().rest(), name, 0);
            match skip_subtree_spec(s.rest(), name, 0) {
                Ok(after) => {
                    follows_is_transitive(after, s.rest(), s);
                },
                Err(f) => {},
            }
            match skip_subtree_spec(s.rest().rest(), name, 0) {
                Ok(after) => {
                    follows_is_transitive(after, s.rest().rest(), s);
                },
                Err(f) => {},
            }
        },
        _ => {},
    }
}

/// Decoding a value takes tokens from the front of the stream and leaves
/// the others as they are: a value is made of the tokens of its own subtree,
/// and what follows it stays for what is decoded next.
pub proof fn value_takes_from_the_front(shape: Shape, d: DecoderView)
    ensures
        value_at(shape, d) matches Ok((v, after)) ==> follows(after.stream, d.stream),
    decreases shape, d.stream.tokens.len(), 0nat,
{
    requests_take_from_the_front(d.stream);
    assert(follows(d.stream, d.stream)) by {
        assert(d.stream.tokens.skip(0) =~= d.stream.tokens);
    }
    match shape {
        Shape::Option(inner) => {
            value_takes_from_the_front(*inner, d);
        },
        Shape::List(item) => {
            match seq_of(d, None) {
                Ok(q) => {
                    items_take_from_the_front(*item, q, d);
                },
                Err(f) => {},
            }
        },
        Shape::Tuple(shapes) => {
            match seq_of(d, Some(shapes.len())) {
                Ok(q) => {
                    tuple_takes_from_the_front(shapes@, q, d);
                },
                Err(f) => {},
            }
        },
        Shape::Record(name, fields) => {
            record_takes_from_the_front(fields, d);
        },
        Shape::Enum(variants) => {
            match variant_at(d.stream) {
                Ok(tag) => match first_named(variants@, tag) {
                    Some(j) => {
                        lemma_first_named(variants@, tag);
                        match variants[j].1 {
                            Payload::Newtype(inner) => {
                                value_takes_from_the_front(inner, d);
                            },
                            Payload::Tuple(shapes) => {
                                match seq_of(d, Some(shapes.len())) {
                                    Ok(q) => {
                                        tuple_takes_from_the_front(shapes@, q, d);
                                    },
                                    Err(f) => {},
                                }
                            },
                            Payload::Unit => {},
                            Payload::Record(fields) => {
                                record_takes_from_the_front(fields, d);
                            },
                        }
                    },
                    None => {},
                },
                Err(f) => {},
            }
        },
        Shape::Unit => {},
        Shape::Bool => {},
        Shape::Int(kind) => {},
        Shape::Str => {},
        Shape::Bytes => {},
        Shape::Ignored => {},
    }
}

/// The items of a sequence take tokens from the front of the stream and
/// leave the others as they are.
pub proof fn items_take_from_the_front(item: Shape, q: SeqAccessView, d: DecoderView)
    ensures
        items_at(item, q, d) matches Ok((items, after)) ==> follows(after.stream, d.stream),
    decreases item, d.stream.tokens.len(), 1nat,
{
    assert(follows(d.stream, d.stream)) by {
        assert(d.stream.tokens.skip(0) =~= d.stream.tokens);
    }
    match next_element_spec(q, d) {
        Ok((true, q2)) => {
            value_takes_from_the_front(item, d);
            match value_at(item, d) {
                Ok((v, d2)) => {
                    if d2.stream.tokens.len() < d.stream.tokens.len() {
                        items_take_from_the_front(item, q2, d2);
                        match items_at(item, q2, d2) {
                            Ok((rest, d3)) => {
                                follows_is_transitive(d3.stream, d2.stream, d.stream);
                            },
                            Err(f) => {},
                        }
                    }
                },
                Err(f) => {},
            }
        },
        _ => {},
    }
}

/// The items of a tuple take tokens from the front of the stream and leave
/// the others as they are.
pub proof fn tuple_takes_from_the_front(shapes: Seq<Shape>, q: SeqAccessView, d: DecoderView)
    ensures
        tuple_at(shapes, q, d) matches Ok((items, after)) ==> follows(after.stream, d.stream),
    decreases shapes, 0nat, 0nat,
{
    assert(follows(d.stream, d.stream)) by {
        assert(d.stream.tokens.skip(0) =~= d.stream.tokens);
    }
    if shapes.len() > 0 {
        match next_element_spec(q, d) {
            Ok((true, q2)) => {
                value_takes_from_the_front(shapes[0], d);
                match value_at(shapes[0], d) {
                    Ok((v, d2)) => {
                        tuple_takes_from_the_front(shapes.drop_first(), q2, d2);
                        match tuple_at(shapes.drop_first(), q2, d2) {
                            Ok((rest, d3)) => {
                                follows_is_transitive(d3.stream, d2.stream, d.stream);
                            },
                            Err(f) => {},
                        }
                    },
                    Err(f) => {},
                }
            },
            _ => {},
        }
    }
}

/// The value of a record's key takes tokens from the front of the stream
/// and leaves the others as they are.
pub proof fn entry_takes_from_the_front(
    fields: Seq<(String, Shape)>,
    source: MapValueView,
    key: Seq<char>,
    d: DecoderView,
    slots: Seq<Option<ValueView>>,
)
    ensures
        entry_at(fields, source, key, d, slots) matches Ok((filled, after)) ==> follows(
            after.stream,
            d.stream,
        ),
    decreases fields, d.stream.tokens.len(), 0nat,
{
    requests_take_from_the_front(d.stream);
    assert(follows(d.stream, d.stream)) by {
        assert(d.stream.tokens.skip(0) =~= d.stream.tokens);
    }
    match first_named(fields, key) {
        Some(j) => {
            lemma_first_named(fields, key);
            value_takes_from_the_front(fields[j].1, d);
        },
        None => {},
    }
}

/// The values of a record's keys take tokens from the front of the stream
/// and leave the others as they are.
pub proof fn entries_take_from_the_front(
    fields: Seq<(String, Shape)>,
    m: MapAccessView,
    d: DecoderView,
    slots: Seq<Option<ValueView>>,
)
    ensures
        entries_at(fields, m, d, slots) matches Ok((filled, after)) ==> follows(
            after.stream,
            d.stream,
        ),
    decreases fields, m.attributes.len() + d.stream.tokens.len(), 1nat,
{
    assert(follows(d.stream, d.stream)) by {
        assert(d.stream.tokens.skip(0) =~= d.stream.tokens);
    }
    match next_key_spec(m, d) {
        Ok((Some(key), m2)) => {
            entry_takes_from_the_front(fields, m2.value, key, d, slots);
            match entry_at(fields, m2.value, key, d, slots) {
                Ok((filled, d2)) => {
                    if m2.attributes.len() + d2.stream.tokens.len() < m.attributes.len()
                        + d.stream.tokens.len() {
                        entries_take_from_the_front(fields, settled(m2), d2, filled);
                        match entries_at(fields, settled(m2), d2, filled) {
                            Ok((last, d3)) => {
                                follows_is_transitive(d3.stream, d2.stream, d.stream);
                            },
                            Err(f) => {},
                        }
                    }
                },
                Err(f) => {},
            }
        },
        _ => {},
    }
}

/// A record takes tokens from the front of the stream and leaves the others
/// as they are: its element, from the opening tag to the closing tag.
pub proof fn record_takes_from_the_front(fields: Vec<(String, Shape)>, d: DecoderView)
    ensures
        record_at(fields, d) matches Ok((values, after)) ==> follows(after.stream, d.stream),
    decreases fields, 0nat, 0nat,
{
    next_start_takes_from_the_front(d.stream);
    match struct_at(d) {
        Ok((m, begun)) => {
            let inner = DecoderView { stream: begun, has_value_field: takes_children(fields@) };
            entries_take_from_the_front(fields@, m, inner, Seq::new(fields@.len(), |i: int| None::<ValueView>));
            match entries_at(fields@, m, inner, Seq::new(fields@.len(), |i: int| None::<ValueView>)) {
                Ok((slots, d2)) => {
                    follows_is_transitive(d2.stream, begun, d.stream);
                    skip_takes_from_the_front(d2.stream, m.name, 0);
                    match skip_subtree_spec(d2.stream, m.name, 0) {
                        Ok(end) => {
                            follows_is_transitive(end, d2.stream, d.stream);
                        },
                        Err(f) => {},
                    }
                },
                Err(f) => {},
            }
        },
        Err(f) => {},
    }
}

/// The literal that is written for an integer is read as that integer, by
/// every type that holds the integer: rendering and decoding are inverse.
pub proof fn integer_round_trip(v: int, kind: IntKind)
    requires
        kind.min() <= v <= kind.max(),
    ensures
        integer_of(render_int(v), false, kind.min(), kind.max()) == Ok::<int, Failure>(v),
{
    let text = render_int(v);
    lemma_integer_round_trip(v, kind.min(), kind.max());
    if v < 0 {
        lemma_render_nat((-v) as nat);
    } else {
        lemma_render_nat(v as nat);
    }
    assert forall|i: int| 0 <= i < text.len() implies #[trigger] is_leading_byte_width_1(
        text[i],
    ) by {
        if v < 0 {
            if i > 0 {
                assert(text[i] == render_nat((-v) as nat)[i - 1]);
                assert(is_digit(render_nat((-v) as nat)[i - 1]));
            }
        } else {
            assert(is_digit(render_nat(v as nat)[i]));
        }
    }
    assert(text.subrange(0, 0) =~= Seq::<u8>::empty());
    assert(partial_valid_utf8(text, 0));
    partial_valid_utf8_extend_ascii_block(text, 0, text.len() as int);
    assert(text.subrange(0, text.len() as int) =~= text);
}

/// The literal that is written for a boolean is read as that boolean.
pub proof fn boolean_round_trip(b: bool)
    ensures
        bool_of(render_bool(b)) == Ok::<bool, Failure>(b),
{
    assert(lit_false()[0] != lit_true()[0]);
    assert(lit_false().len() != 1);
}

/// Escaped text holds no character of markup: no `<` and no `>`, and, where
/// the quotes are escaped, no quote. So a text can not end the element or
/// the attribute that holds it.
pub proof fn escaped_text_is_plain(raw: Seq<u8>, quotes: bool)
    ensures
        forall|i: int|
            0 <= i < escaped(raw, quotes).len() ==> {
                let b = #[trigger] escaped(raw, quotes)[i];
                &&& b != '<' as u8
                &&& b != '>' as u8
                &&& quotes ==> b != '"' as u8 && b != '\'' as u8
            },
    decreases raw.len(),
{
    if raw.len() > 0 {
        escaped_text_is_plain(raw.drop_last(), quotes);
        let head = escaped(raw.drop_last(), quotes);
        let tail = escape_byte(raw.last(), quotes);
        assert forall|i: int| 0 <= i < escaped(raw, quotes).len() implies {
            let b = #[trigger] escaped(raw, quotes)[i];
            &&& b != '<' as u8
            &&& b != '>' as u8
            &&& quotes ==> b != '"' as u8 && b != '\'' as u8
        } by {
            if i < head.len() {
                assert(escaped(raw, quotes)[i] == head[i]);
            } else {
                assert(escaped(raw, quotes)[i] == tail[i - head.len()]);
            }
        }
    }
}

} // verus!
