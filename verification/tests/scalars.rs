use xserde::bytes::{bytes_eq, copy_bytes, str_eq};
use xserde::de::decode::{decode_scalar, find_named, from_bytes};
use xserde::de::error::DeError;
use xserde::de::escape::EscapedDeserializer;
use xserde::de::map::MapAccess;
use xserde::de::number::parse_integer;
use xserde::de::seq::{Names, SeqAccess};
use xserde::de::token::Token;
use xserde::de::Decoder;
use xserde::ser::text::{bool_text, escape_text, signed_text, unsigned_text};
use xserde::value::{IntKind, Payload, Shape, Value};
use xserde::{XmlVersion, ATTRIBUTE_MARKER, CONTENT_MARKER, INNER_VALUE};

fn s(text: &str) -> String {
    text.to_string()
}

fn scalar(text: &str, escaped: bool) -> EscapedDeserializer {
    EscapedDeserializer::new(text.as_bytes().to_vec(), escaped)
}

#[test]
fn version_bytes() {
    assert_eq!(XmlVersion::v1_0.as_bytes(), b"1.0");
    assert_eq!(XmlVersion::v1_1.as_bytes(), b"1.1");
}

#[test]
fn markers_are_at_sign_and_dollar() {
    assert_eq!(ATTRIBUTE_MARKER, b'@');
    assert_eq!(CONTENT_MARKER, b'$');
    assert_eq!(INNER_VALUE, "$value");
}

#[test]
fn byte_helpers() {
    assert!(bytes_eq(b"abc", b"abc"));
    assert!(!bytes_eq(b"abc", b"abd"));
    assert!(!bytes_eq(b"abc", b"ab"));
    assert!(bytes_eq(b"", b""));
    assert_eq!(copy_bytes(b"xyz"), b"xyz".to_vec());
    assert!(str_eq("key", "key"));
    assert!(!str_eq("key", "kez"));
}

#[test]
fn integer_grammar() {
    assert_eq!(parse_integer(b"0", IntKind::U8), Some(0));
    assert_eq!(parse_integer(b"255", IntKind::U8), Some(255));
    assert_eq!(parse_integer(b"256", IntKind::U8), None);
    assert_eq!(parse_integer(b"+7", IntKind::U8), Some(7));
    assert_eq!(parse_integer(b"-7", IntKind::U8), None);
    assert_eq!(parse_integer(b"-7", IntKind::I8), Some(-7));
    assert_eq!(parse_integer(b"-128", IntKind::I8), Some(-128));
    assert_eq!(parse_integer(b"-129", IntKind::I8), None);
    assert_eq!(parse_integer(b"", IntKind::I8), None);
    assert_eq!(parse_integer(b"-", IntKind::I8), None);
    assert_eq!(parse_integer(b"+", IntKind::I8), None);
    assert_eq!(parse_integer(b"1_0", IntKind::I8), None);
    assert_eq!(parse_integer(b" 1", IntKind::I8), None);
    assert_eq!(parse_integer(b"0000000000000000000000012", IntKind::U8), Some(12));
    assert_eq!(
        parse_integer(b"18446744073709551615", IntKind::U64),
        Some(u64::MAX as i128)
    );
    assert_eq!(parse_integer(b"18446744073709551616", IntKind::U64), None);
    assert_eq!(parse_integer(b"99999999999999999999999", IntKind::U64), None);
    assert_eq!(
        parse_integer(b"-9223372036854775808", IntKind::I64),
        Some(i64::MIN as i128)
    );
    assert_eq!(
        parse_integer(b"-9223372036854775809", IntKind::I64),
        None
    );
}

#[test]
fn typed_integers_keep_to_their_range() {
    assert_eq!(scalar("127", true).deserialize_i8().unwrap(), 127);
    assert!(matches!(scalar("128", true).deserialize_i8(), Err(DeError::InvalidNumber(_))));
    assert_eq!(scalar("-32768", true).deserialize_i16().unwrap(), i16::MIN);
    assert_eq!(scalar("2147483647", true).deserialize_i32().unwrap(), i32::MAX);
    assert_eq!(scalar("-9223372036854775808", true).deserialize_i64().unwrap(), i64::MIN);
    assert_eq!(scalar("255", true).deserialize_u8().unwrap(), 255);
    assert_eq!(scalar("65535", true).deserialize_u16().unwrap(), u16::MAX);
    assert_eq!(scalar("4294967295", true).deserialize_u32().unwrap(), u32::MAX);
    assert_eq!(scalar("18446744073709551615", true).deserialize_u64().unwrap(), u64::MAX);
    assert!(matches!(scalar("-1", true).deserialize_u64(), Err(DeError::InvalidNumber(_))));
}

#[test]
fn numbers_are_unescaped_where_the_span_is_escaped() {
    assert_eq!(scalar("&#49;&#x32;", true).deserialize_u8().unwrap(), 12);
    assert!(matches!(
        scalar("&#49;&#x32;", false).deserialize_u8(),
        Err(DeError::InvalidNumber(_))
    ));
}

#[test]
fn strings_are_unescaped_unless_raw() {
    assert_eq!(scalar("a &lt; b &amp;&quot;&apos;&gt;", true).deserialize_str().unwrap(), "a < b &\"'>");
    assert_eq!(scalar("a &lt; b", false).deserialize_str().unwrap(), "a &lt; b");
    assert_eq!(scalar("&#x263A;", true).deserialize_bytes().unwrap(), "\u{263A}".as_bytes());
    assert_eq!(scalar("&#x263A;", false).deserialize_bytes().unwrap(), b"&#x263A;");
    assert_eq!(scalar("gr\u{fc}n", true).deserialize_str().unwrap(), "gr\u{fc}n");
    assert_eq!(scalar("Tag", false).variant().unwrap(), "Tag");
}

#[test]
fn option_of_a_span_is_absent_when_empty() {
    assert!(!scalar("", true).deserialize_option());
    assert!(scalar("x", true).deserialize_option());
    let shape = Shape::Option(Box::new(Shape::Int(IntKind::U8)));
    assert_eq!(decode_scalar(&scalar("", true), &shape).unwrap(), Value::Absent);
    assert_eq!(
        decode_scalar(&scalar("5", true), &shape).unwrap(),
        Value::Present(Box::new(Value::UInt(5)))
    );
}

#[test]
fn variant_from_a_span() {
    let shape = Shape::Enum(vec![
        (s("On"), Payload::Unit),
        (s("Off"), Payload::Unit),
        (s("Level"), Payload::Newtype(Shape::Str)),
    ]);
    assert_eq!(decode_scalar(&scalar("Off", true), &shape).unwrap(), Value::UnitVariant(s("Off")));
    assert_eq!(
        decode_scalar(&scalar("Level", true), &shape).unwrap(),
        Value::NewtypeVariant(s("Level"), Box::new(Value::Str(s("Level"))))
    );
    match decode_scalar(&scalar("Dim", true), &shape) {
        Err(DeError::Custom(message)) => assert_eq!(message, "unknown variant Dim"),
        other => panic!("unexpected {:?}", other),
    }
    assert_eq!(find_named(&vec![(s("a"), 1), (s("b"), 2), (s("a"), 3)], "a"), Some(0));
    assert_eq!(find_named(&vec![(s("a"), 1), (s("b"), 2)], "b"), Some(1));
    assert_eq!(find_named(&vec![(s("a"), 1)], "c"), None);
}

#[test]
fn attribute_keys_carry_the_marker() {
    assert_eq!(MapAccess::create_attr_key(b"id"), b"@id".to_vec());
    assert_eq!(MapAccess::create_attr_key(b""), b"@".to_vec());
}

#[test]
fn attributes_are_parsed_in_document_order() {
    let mut de = Decoder::new(b"<e  b = 'x&amp;y' a=\"2\"\tc=\"\">t</e>");
    let mut map = de.decode_struct(&[]).unwrap();
    assert_eq!(map.name(), b"e");
    let mut seen = Vec::new();
    while let Some(key) = map.next_key(&mut de).unwrap() {
        match map.next_value().unwrap() {
            xserde::de::map::ValueSource::Attribute(value) => {
                seen.push((key, value.deserialize_str().unwrap()))
            }
            xserde::de::map::ValueSource::Content => {
                seen.push((key, de.decode_string().unwrap()))
            }
        }
    }
    assert_eq!(
        seen,
        vec![(s("@b"), s("x&y")), (s("@a"), s("2")), (s("@c"), s("")), (s("$value"), s("t"))]
    );
    de.end_struct(&map).unwrap();
}

#[test]
fn child_keys_are_local_names() {
    let mut de = Decoder::new(b"<r><ns:item>1</ns:item><a:b:c/></r>");
    let mut map = de.decode_struct(&["item"]).unwrap();
    assert_eq!(map.next_key(&mut de).unwrap().as_deref(), Some("item"));
    map.next_value().unwrap();
    assert_eq!(de.decode_u8().unwrap(), 1);
    assert_eq!(map.next_key(&mut de).unwrap().as_deref(), Some("b:c"));
    map.next_value().unwrap();
    de.decode_ignored().unwrap();
    assert_eq!(map.next_key(&mut de).unwrap(), None);
}

#[test]
fn children_are_the_inner_value_where_the_record_says_so() {
    assert!(Decoder::has_inner_value(&["a", "$value"]));
    assert!(!Decoder::has_inner_value(&["a", "value"]));
    let mut de = Decoder::new(b"<r><a/><b/></r>");
    let mut map = de.decode_struct(&["$value"]).unwrap();
    assert!(de.has_value_field());
    assert_eq!(map.next_key(&mut de).unwrap().as_deref(), Some("$value"));
    de.set_has_value_field(false);
    assert_eq!(map.next_key(&mut de).unwrap().as_deref(), Some("a"));
    de.set_has_value_field(true);
    let mut inner = de.decode_struct(&["a"]).unwrap();
    assert!(inner.outer());
    assert!(!de.has_value_field());
    assert_eq!(inner.next_key(&mut de).unwrap(), None);
    de.end_struct(&inner).unwrap();
    assert!(de.has_value_field());
    de.end_struct(&map).unwrap();
    assert!(!de.has_value_field());
}

#[test]
fn sequence_names_and_bounds() {
    assert!(Names::Unknown.is_valid(b"any"));
    assert!(Names::Peek(b"a".to_vec()).is_valid(b"a"));
    assert!(!Names::Peek(b"a".to_vec()).is_valid(b"ab"));
    let mut de = Decoder::new(b"<a>1</a><a>2</a><a>3</a>");
    let mut seq = SeqAccess::new(&mut de, Some(2)).unwrap();
    assert_eq!(seq.size_hint(), Some(2));
    assert!(seq.next_element(&mut de).unwrap());
    assert_eq!(de.decode_u8().unwrap(), 1);
    assert_eq!(seq.size_hint(), Some(1));
    assert!(seq.next_element(&mut de).unwrap());
    assert_eq!(de.decode_u8().unwrap(), 2);
    assert!(!seq.next_element(&mut de).unwrap());
    assert_eq!(de.next().unwrap(), Token::StartTag { name: b"a".to_vec(), tag: b"a".to_vec() });
}

#[test]
fn text_of_a_value_is_bare_or_inside_one_element() {
    assert_eq!(from_bytes(b"bare", &Shape::Str).unwrap(), Value::Str(s("bare")));
    assert_eq!(from_bytes(b"<a>inside</a>", &Shape::Str).unwrap(), Value::Str(s("inside")));
    assert_eq!(from_bytes(b"<a></a>", &Shape::Str).unwrap(), Value::Str(s("")));
    assert_eq!(from_bytes(b"<a/>", &Shape::Str).unwrap(), Value::Str(s("")));
    let mut de = Decoder::new(b"<a></a>");
    de.next().unwrap();
    assert_eq!(de.decode_string().unwrap(), "");
    assert_eq!(de.next().unwrap(), Token::EndTag { name: b"a".to_vec() });
    let mut de = Decoder::new(b"<a>x<b/>more</a><n/>");
    assert_eq!(de.decode_string().unwrap(), "x");
    assert_eq!(de.next().unwrap(), Token::StartTag { name: b"n".to_vec(), tag: b"n".to_vec() });
}

#[test]
fn option_at_the_stream() {
    let shape = Shape::Option(Box::new(Shape::Str));
    assert_eq!(from_bytes(b"", &shape).unwrap(), Value::Absent);
    assert_eq!(from_bytes(b"<![CDATA[]]>", &shape).unwrap(), Value::Absent);
    assert_eq!(from_bytes(b"x", &shape).unwrap(), Value::Present(Box::new(Value::Str(s("x")))));
}

#[test]
fn token_copies_are_equal() {
    for token in [
        Token::StartTag { name: b"a".to_vec(), tag: b"a k=\"v\"".to_vec() },
        Token::EndTag { name: b"a".to_vec() },
        Token::Text { raw: b"t".to_vec(), escaped: true },
        Token::Eof,
    ] {
        assert_eq!(token.duplicate(), token);
    }
}

#[test]
fn text_forms_of_scalars() {
    assert_eq!(bool_text(true), b"true".to_vec());
    assert_eq!(bool_text(false), b"false".to_vec());
    assert_eq!(signed_text(0), b"0".to_vec());
    assert_eq!(signed_text(-10), b"-10".to_vec());
    assert_eq!(signed_text(i64::MIN), b"-9223372036854775808".to_vec());
    assert_eq!(unsigned_text(1234567890), b"1234567890".to_vec());
    assert_eq!(escape_text(b"<a & 'b' \"c\">"), b"&lt;a &amp; 'b' \"c\"&gt;".to_vec());
    assert_eq!(escape_text(b""), b"".to_vec());
}
