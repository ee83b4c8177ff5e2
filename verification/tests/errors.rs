use xserde::de::decode::from_bytes;
use xserde::de::error::DeError;
use xserde::de::escape::EscapedDeserializer;
use xserde::de::map::MapAccess;
use xserde::de::token::Token;
use xserde::de::var::EnumAccess;
use xserde::de::Decoder;
use xserde::ser::error::SerError;
use xserde::value::{IntKind, Payload, Shape, Value};

fn s(text: &str) -> String {
    text.to_string()
}

#[test]
fn malformed_markup_gives_xml() {
    let error = from_bytes(b"<a><b></a>", &Shape::Ignored).unwrap_err();
    assert!(matches!(error, DeError::Xml(_)));
    assert!(!error.message().is_empty());
}

#[test]
fn malformed_attributes_give_xml_when_the_record_is_decoded() {
    let xml = b"<a x=1></a>";
    assert!(matches!(
        from_bytes(xml, &Shape::Record(s("a"), vec![])),
        Err(DeError::Xml(_))
    ));
    assert_eq!(from_bytes(xml, &Shape::Ignored).unwrap(), Value::Unit);
    let twice = b"<a x=\"1\" x=\"2\"/>";
    assert!(matches!(
        from_bytes(twice, &Shape::Record(s("a"), vec![])),
        Err(DeError::Xml(_))
    ));
}

#[test]
fn invalid_utf8_gives_utf8() {
    let error = from_bytes(b"<a>\xff\xfe</a>", &Shape::Str).unwrap_err();
    assert!(matches!(error, DeError::Utf8(_)));
    assert!(!error.message().is_empty());
    assert_eq!(
        from_bytes(b"<a>\xff\xfe</a>", &Shape::Bytes).unwrap(),
        Value::Bytes(vec![0xff, 0xfe])
    );
}

#[test]
fn unknown_entity_gives_escape() {
    let error = from_bytes(b"<a>&bogus;</a>", &Shape::Str).unwrap_err();
    assert!(matches!(error, DeError::Escape(_)));
    assert!(!error.message().is_empty());
    assert!(matches!(
        from_bytes(b"<a>a &amp b</a>", &Shape::Str),
        Err(DeError::Escape(_))
    ));
}

#[test]
fn value_without_key_gives_end_of_attributes() {
    let start = Token::StartTag { name: b"a".to_vec(), tag: b"a k=\"v\"".to_vec() };
    let de = Decoder::new(b"");
    let mut map = MapAccess::new(&de, &start).unwrap();
    match map.next_value() {
        Err(e) => {
            assert!(matches!(e, DeError::EndOfAttributes));
            assert_eq!(e.message(), "Unexpected end of attributes");
        }
        Ok(_) => panic!("no key was fetched"),
    }
}

#[test]
fn record_decoder_needs_an_opening_tag() {
    let end = Token::EndTag { name: b"a".to_vec() };
    let de = Decoder::new(b"");
    assert!(matches!(MapAccess::new(&de, &end), Err(DeError::Start)));
    assert!(matches!(MapAccess::new(&de, &Token::Eof), Err(DeError::Start)));
}

#[test]
fn end_of_input_gives_eof() {
    match from_bytes(b"", &Shape::Bool) {
        Err(e) => {
            assert!(matches!(e, DeError::Eof));
            assert_eq!(e.message(), "Unexpected `Event::Eof`");
        }
        other => panic!("unexpected {:?}", other),
    }
    assert!(matches!(from_bytes(b"<a>text", &Shape::Str), Err(DeError::Eof)));
    assert!(matches!(from_bytes(b"", &Shape::Enum(vec![])), Err(DeError::Eof)));
}

#[test]
fn invalid_boolean_names_the_literal() {
    match from_bytes(b"<b>yes</b>", &Shape::Bool) {
        Err(e) => {
            assert!(matches!(e, DeError::InvalidBoolean(_)));
            assert_eq!(e.message(), "Invalid boolean value 'yes'");
        }
        other => panic!("unexpected {:?}", other),
    }
    for literal in ["True", "TRUE", "t", "y", "no", ""] {
        let scalar = EscapedDeserializer::new(literal.as_bytes().to_vec(), true);
        match scalar.deserialize_bool() {
            Err(DeError::InvalidBoolean(text)) => assert_eq!(text, literal),
            _ => panic!("{} is no boolean", literal),
        }
    }
    let scalar = EscapedDeserializer::new(vec![b't', 0xff], true);
    match scalar.deserialize_bool() {
        Err(DeError::InvalidBoolean(text)) => assert_eq!(text, "t\u{fffd}"),
        _ => panic!("the span is no boolean"),
    }
}

#[test]
fn invalid_number_names_the_literal() {
    match from_bytes(b"<n>12a</n>", &Shape::Int(IntKind::U32)) {
        Err(e) => {
            assert!(matches!(e, DeError::InvalidNumber(_)));
            assert_eq!(e.message(), "Invalid number value '12a'");
        }
        other => panic!("unexpected {:?}", other),
    }
}

#[test]
fn content_where_a_unit_is_expected_gives_invalid_unit() {
    let scalar = EscapedDeserializer::new(b"x".to_vec(), true);
    match scalar.deserialize_unit() {
        Err(e) => {
            assert!(matches!(e, DeError::InvalidUnit(_)));
            assert_eq!(
                e.message(),
                "Invalid unit value 'Expecting unit, got non empty attribute', expected empty string"
            );
        }
        Ok(()) => panic!("the span is not empty"),
    }
    assert!(EscapedDeserializer::new(Vec::new(), true).deserialize_unit().is_ok());
    assert!(matches!(from_bytes(b"text", &Shape::Unit), Err(DeError::InvalidUnit(_))));
    assert_eq!(from_bytes(b"<u><v/>text</u>", &Shape::Unit).unwrap(), Value::Unit);
}

#[test]
fn closing_tag_where_a_variant_is_expected_gives_invalid_enum() {
    let mut de = Decoder::new(b"<a></a>");
    de.next().unwrap();
    match EnumAccess::new().variant(&mut de) {
        Err(DeError::InvalidEnum(token)) => {
            assert_eq!(token, Token::EndTag { name: b"a".to_vec() })
        }
        _ => panic!("a closing tag names no variant"),
    }
}

#[test]
fn nested_element_where_text_is_expected_gives_start() {
    match from_bytes(b"<a><b/></a>", &Shape::Str) {
        Err(e) => {
            assert!(matches!(e, DeError::Start));
            assert_eq!(e.message(), "Expecting Start event");
        }
        other => panic!("unexpected {:?}", other),
    }
    assert!(matches!(
        from_bytes(b"", &Shape::Record(s("r"), vec![])),
        Err(DeError::Start)
    ));
}

#[test]
fn closing_tag_where_a_value_is_expected_gives_end() {
    let mut de = Decoder::new(b"<a></a>");
    de.next().unwrap();
    match de.decode_ignored() {
        Err(e) => {
            assert!(matches!(e, DeError::End));
            assert_eq!(e.message(), "Expecting End event");
        }
        Ok(()) => panic!("a closing tag is no value"),
    }
    let mut de = Decoder::new(b"<a></a>");
    de.next().unwrap();
    assert!(matches!(de.next_start(), Err(DeError::End)));
    let mut de = Decoder::new(b"<a></a>");
    de.next().unwrap();
    assert!(matches!(de.decode_struct(&[]), Err(DeError::End)));
}

#[test]
fn structure_from_a_scalar_is_unsupported() {
    let shape = Shape::Record(s("r"), vec![(s("@a"), Shape::List(Box::new(Shape::Str)))]);
    match from_bytes(b"<r a=\"1\"/>", &shape) {
        Err(e) => {
            assert!(matches!(e, DeError::Unsupported(_)));
            assert_eq!(
                e.message(),
                "Unsupported operation a structured value can not be decoded from a scalar"
            );
        }
        other => panic!("unexpected {:?}", other),
    }
    let variants = Shape::Enum(vec![(s("P"), Payload::Tuple(vec![Shape::Str]))]);
    let shape = Shape::Record(s("r"), vec![(s("@a"), variants)]);
    assert!(matches!(from_bytes(b"<r a=\"P\"/>", &shape), Err(DeError::Unsupported(_))));
}

#[test]
fn custom_message_is_the_text() {
    assert_eq!(DeError::Custom(s("as it is")).message(), "as it is");
    assert_eq!(SerError::Custom(s("as it is")).message(), "as it is");
    assert_eq!(SerError::Unsupported("this").message(), "Unsupported operation this");
    assert_eq!(
        DeError::InvalidEnum(Token::Eof).message(),
        "Invalid event for Enum, expecting Text or Start, got: Eof"
    );
    assert_eq!(
        DeError::InvalidEnum(Token::EndTag { name: b"a".to_vec() }).message(),
        "Invalid event for Enum, expecting Text or Start, got: End(a)"
    );
}
