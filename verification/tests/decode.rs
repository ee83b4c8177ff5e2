use xserde::de::cursor::Cursor;
use xserde::de::error::DeError;
use xserde::de::escape::EscapedDeserializer;
use xserde::de::map::ValueSource;
use xserde::de::seq::SeqAccess;
use xserde::de::token::Token;
use xserde::de::var::EnumAccess;
use xserde::de::{Decoder, Guess};

fn start(name: &str, tag: &str) -> Token {
    Token::StartTag { name: name.as_bytes().to_vec(), tag: tag.as_bytes().to_vec() }
}

fn end(name: &str) -> Token {
    Token::EndTag { name: name.as_bytes().to_vec() }
}

fn text(raw: &str) -> Token {
    Token::Text { raw: raw.as_bytes().to_vec(), escaped: true }
}

#[test]
fn cursor_yields_tokens_in_document_order() {
    let mut cursor = Cursor::new(b"<a x=\"1\"><!-- note --><b>hi</b><c/></a>");
    assert_eq!(cursor.next().unwrap(), start("a", "a x=\"1\""));
    assert_eq!(cursor.next().unwrap(), start("b", "b"));
    assert_eq!(cursor.next().unwrap(), text("hi"));
    assert_eq!(cursor.next().unwrap(), end("b"));
    assert_eq!(cursor.next().unwrap(), start("c", "c"));
    assert_eq!(cursor.next().unwrap(), end("c"));
    assert_eq!(cursor.next().unwrap(), end("a"));
    assert_eq!(cursor.next().unwrap(), Token::Eof);
    assert_eq!(cursor.next().unwrap(), Token::Eof);
}

#[test]
fn peek_twice_returns_the_same_token() {
    let mut cursor = Cursor::new(b"<a>1</a>");
    assert_eq!(*cursor.peek().unwrap(), start("a", "a"));
    assert_eq!(*cursor.peek().unwrap(), start("a", "a"));
    assert_eq!(cursor.next().unwrap(), start("a", "a"));
    assert_eq!(*cursor.peek().unwrap(), text("1"));
}

#[test]
fn skip_subtree_counts_nested_elements_of_the_same_name() {
    let mut cursor = Cursor::new(b"<a><a><b/></a>x<a/></a><next/>");
    assert_eq!(cursor.next().unwrap(), start("a", "a"));
    cursor.skip_subtree(b"a").unwrap();
    assert_eq!(cursor.next().unwrap(), start("next", "next"));
}

#[test]
fn skip_subtree_fails_at_the_end_of_input() {
    let mut cursor = Cursor::new(b"<b>x</b>");
    assert!(matches!(cursor.skip_subtree(b"a"), Err(DeError::Eof)));
}

#[test]
fn malformed_markup_is_reported() {
    let mut cursor = Cursor::new(b"<a></b>");
    assert_eq!(cursor.next().unwrap(), start("a", "a"));
    assert!(matches!(cursor.next(), Err(DeError::Xml(_))));
}

#[test]
fn boolean_literal_set() {
    let scalar = |s: &str| EscapedDeserializer::new(s.as_bytes().to_vec(), true);
    assert_eq!(scalar("true").deserialize_bool().unwrap(), true);
    assert_eq!(scalar("1").deserialize_bool().unwrap(), true);
    assert_eq!(scalar("false").deserialize_bool().unwrap(), false);
    assert_eq!(scalar("0").deserialize_bool().unwrap(), false);
    match scalar("yes").deserialize_bool() {
        Err(DeError::InvalidBoolean(literal)) => assert_eq!(literal, "yes"),
        other => panic!("unexpected {:?}", other),
    }
}

#[test]
fn sequence_ends_at_another_name() {
    let mut de = Decoder::new(b"<item>1</item><item>2</item><other/>");
    let mut seq = SeqAccess::new(&mut de, None).unwrap();
    let mut items = Vec::new();
    while seq.next_element(&mut de).unwrap() {
        items.push(de.decode_u8().unwrap());
    }
    assert_eq!(items, vec![1, 2]);
    assert_eq!(de.next().unwrap(), start("other", "other"));
}

#[test]
fn attribute_and_child_of_one_name() {
    let mut de = Decoder::new(b"<r a=\"1\"><a>2</a></r>");
    let mut map = de.decode_struct(&["@a", "a"]).unwrap();
    assert_eq!(map.next_key(&mut de).unwrap().as_deref(), Some("@a"));
    match map.next_value().unwrap() {
        ValueSource::Attribute(value) => assert_eq!(value.deserialize_u8().unwrap(), 1),
        ValueSource::Content => panic!("the attribute comes first"),
    }
    assert_eq!(map.next_key(&mut de).unwrap().as_deref(), Some("a"));
    match map.next_value().unwrap() {
        ValueSource::Content => assert_eq!(de.decode_u8().unwrap(), 2),
        ValueSource::Attribute(_) => panic!("the child comes second"),
    }
    assert_eq!(map.next_key(&mut de).unwrap(), None);
    de.end_struct(&map).unwrap();
    assert_eq!(de.next().unwrap(), Token::Eof);
}

#[test]
fn enum_dispatch_on_element_and_text() {
    let mut de = Decoder::new(b"<Shape><Circle r=\"2\"/></Shape>");
    let outer = de.decode_struct(&["$value"]).unwrap();
    let (tag, variant) = EnumAccess::new().variant(&mut de).unwrap();
    assert_eq!(tag, "Circle");
    let mut payload = variant.struct_variant(&mut de, &["@r"]).unwrap();
    assert_eq!(payload.next_key(&mut de).unwrap().as_deref(), Some("@r"));
    match payload.next_value().unwrap() {
        ValueSource::Attribute(value) => assert_eq!(value.deserialize_u32().unwrap(), 2),
        ValueSource::Content => panic!("r is an attribute"),
    }
    assert_eq!(payload.next_key(&mut de).unwrap(), None);
    de.end_struct(&payload).unwrap();
    de.end_struct(&outer).unwrap();

    let mut de = Decoder::new(b"<Shape>Empty</Shape>");
    let outer = de.decode_struct(&["$value"]).unwrap();
    let (tag, variant) = EnumAccess::new().variant(&mut de).unwrap();
    assert_eq!(tag, "Empty");
    variant.unit_variant(&mut de).unwrap();
    de.end_struct(&outer).unwrap();
    assert_eq!(de.next().unwrap(), Token::Eof);
}

#[test]
fn decoder_from_a_string() {
    let mut de = Decoder::from_str("<?xml version=\"1.0\"?><!DOCTYPE a><a>t</a>");
    assert_eq!(de.next_start().unwrap(), Some(start("a", "a")));
    assert_eq!(de.next_text().unwrap().deserialize_str().unwrap(), "t");
    de.read_to_end(b"a").unwrap();
    assert_eq!(de.next_start().unwrap(), None);
}

#[test]
fn unknown_child_is_consumed_with_its_subtree() {
    let mut de = Decoder::new(b"<r><x><r><y/></r>t</x><k>1</k></r><after/>");
    let mut map = de.decode_struct(&["k"]).unwrap();
    assert_eq!(map.next_key(&mut de).unwrap().as_deref(), Some("x"));
    assert!(matches!(map.next_value().unwrap(), ValueSource::Content));
    de.decode_ignored().unwrap();
    assert_eq!(map.next_key(&mut de).unwrap().as_deref(), Some("k"));
    assert!(matches!(map.next_value().unwrap(), ValueSource::Content));
    assert_eq!(de.decode_u8().unwrap(), 1);
    assert_eq!(map.next_key(&mut de).unwrap(), None);
    de.end_struct(&map).unwrap();
    assert_eq!(de.next().unwrap(), start("after", "after"));
}

#[test]
fn empty_sequence_is_no_error() {
    let mut de = Decoder::new(b"<r></r>");
    de.next().unwrap();
    let mut seq = SeqAccess::new(&mut de, None).unwrap();
    assert!(!seq.next_element(&mut de).unwrap());
    assert_eq!(de.next().unwrap(), end("r"));
    let mut seq = SeqAccess::new(&mut de, None).unwrap();
    assert!(!seq.next_element(&mut de).unwrap());
    assert_eq!(de.next().unwrap(), Token::Eof);
}

#[test]
fn text_variant_stays_for_its_payload() {
    let mut de = Decoder::new(b"<v>Label</v>");
    de.next().unwrap();
    let (tag, _variant) = EnumAccess::new().variant(&mut de).unwrap();
    assert_eq!(tag, "Label");
    assert_eq!(de.decode_string().unwrap(), "Label");
    assert_eq!(de.next().unwrap(), end("v"));
}

#[test]
fn requests_of_the_decoder() {
    let mut de = Decoder::new(b"<t>1</t><t>2</t><V/>");
    let mut seq = de.decode_tuple(2).unwrap();
    assert_eq!(seq.size_hint(), Some(2));
    assert!(seq.next_element(&mut de).unwrap());
    assert_eq!(de.decode_i64().unwrap(), 1);
    assert!(seq.next_element(&mut de).unwrap());
    assert_eq!(de.decode_i64().unwrap(), 2);
    assert!(!seq.next_element(&mut de).unwrap());
    let (tag, variant) = de.decode_enum().unwrap();
    assert_eq!(tag, "V");
    variant.unit_variant(&mut de).unwrap();
    let mut seq = de.decode_seq(None).unwrap();
    assert_eq!(seq.size_hint(), None);
    assert!(!seq.next_element(&mut de).unwrap());
}

#[test]
fn after_a_failure_the_input_is_at_its_end() {
    let mut cursor = Cursor::new(b"<a>text</b><c/>");
    assert_eq!(cursor.next().unwrap(), start("a", "a"));
    assert_eq!(cursor.next().unwrap(), text("text"));
    assert!(matches!(cursor.peek(), Err(DeError::Xml(_))));
    assert_eq!(*cursor.peek().unwrap(), Token::Eof);
    assert_eq!(cursor.next().unwrap(), Token::Eof);
}

#[test]
fn markup_without_data_is_passed_over() {
    let mut cursor = Cursor::new(
        b"<?xml version=\"1.0\"?>\n<!DOCTYPE a>\n<!-- one --><a><?pi x?> <!-- two -->t<!-- three --></a> <!-- four -->",
    );
    assert_eq!(*cursor.peek().unwrap(), start("a", "a"));
    assert_eq!(cursor.next().unwrap(), start("a", "a"));
    assert_eq!(cursor.next().unwrap(), text("t"));
    assert_eq!(cursor.next().unwrap(), end("a"));
    assert_eq!(cursor.next().unwrap(), Token::Eof);
}

#[test]
fn empty_element_is_an_opening_and_a_closing_tag() {
    let mut cursor = Cursor::new(b"<a k=\"v\" />");
    assert_eq!(cursor.next().unwrap(), start("a", "a k=\"v\" "));
    assert_eq!(cursor.next().unwrap(), end("a"));
    assert_eq!(cursor.next().unwrap(), Token::Eof);
}

#[test]
fn guess_of_a_value_without_shape() {
    let mut de = Decoder::new(b"<a>t</a>");
    assert_eq!(de.guess().unwrap(), Guess::Record);
    de.next().unwrap();
    assert_eq!(de.guess().unwrap(), Guess::Text);
    de.next().unwrap();
    assert_eq!(de.guess().unwrap(), Guess::Unit);
    de.next().unwrap();
    assert_eq!(de.guess().unwrap(), Guess::Text);
}

#[test]
fn variant_tag_of_a_prefixed_element() {
    let mut de = Decoder::new(b"<ns:Circle r=\"2\"/>");
    let (tag, _variant) = EnumAccess::new().variant(&mut de).unwrap();
    assert_eq!(tag, "Circle");
    assert_eq!(de.next().unwrap(), start("ns:Circle", "ns:Circle r=\"2\""));
}

#[test]
fn decoder_over_given_tokens() {
    let tokens = vec![
        start("r", "r a=\"1\""),
        Token::Text { raw: b"a &lt; b".to_vec(), escaped: false },
        end("r"),
        start("s", "s"),
        Token::Text { raw: b"a &lt; b".to_vec(), escaped: true },
        end("s"),
    ];
    let mut de = Decoder::from_tokens(tokens);
    assert_eq!(de.decode_string().unwrap(), "a &lt; b");
    assert_eq!(*de.peek().unwrap(), start("s", "s"));
    assert_eq!(de.decode_string().unwrap(), "a < b");
    assert_eq!(de.next().unwrap(), Token::Eof);
    assert_eq!(de.next().unwrap(), Token::Eof);
}

#[test]
fn given_tokens_end_at_an_end_of_input() {
    let mut cursor = Cursor::from_tokens(vec![text("a"), Token::Eof, text("b")]);
    assert_eq!(*cursor.peek().unwrap(), text("a"));
    assert_eq!(cursor.next().unwrap(), text("a"));
    assert_eq!(*cursor.peek().unwrap(), Token::Eof);
    assert_eq!(cursor.next().unwrap(), Token::Eof);
    assert_eq!(cursor.next().unwrap(), Token::Eof);
    let mut cursor = Cursor::from_tokens(vec![]);
    assert_eq!(cursor.next().unwrap(), Token::Eof);
    assert!(matches!(cursor.skip_subtree(b"a"), Err(DeError::Eof)));
}
