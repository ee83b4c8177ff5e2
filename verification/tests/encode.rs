use xserde::ser::error::SerError;
use xserde::ser::var::Struct;
use xserde::ser::{to_vec, Serializer};
use xserde::value::Value;

fn s(text: &str) -> String {
    text.to_string()
}

fn encoded(value: &Value, root: Option<&str>) -> String {
    String::from_utf8(to_vec(value, root).unwrap()).unwrap()
}

#[test]
fn scalars_render_to_their_text() {
    assert_eq!(encoded(&Value::Bool(true), None), "true");
    assert_eq!(encoded(&Value::Bool(false), Some("b")), "<b>false</b>");
    assert_eq!(encoded(&Value::Int(-42), Some("n")), "<n>-42</n>");
    assert_eq!(encoded(&Value::Int(i64::MIN), None), "-9223372036854775808");
    assert_eq!(encoded(&Value::UInt(u64::MAX), None), "18446744073709551615");
    assert_eq!(encoded(&Value::UInt(0), None), "0");
    assert_eq!(encoded(&Value::Unit, Some("u")), "<u/>");
    assert_eq!(encoded(&Value::Unit, None), "");
    assert_eq!(encoded(&Value::Absent, Some("o")), "");
    assert_eq!(encoded(&Value::Present(Box::new(Value::UInt(7))), Some("o")), "<o>7</o>");
}

#[test]
fn text_and_attributes_are_escaped_for_their_context() {
    let text = Value::Str(s("a<b & \"c\" 'd' >"));
    assert_eq!(encoded(&text, Some("t")), "<t>a&lt;b &amp; \"c\" 'd' &gt;</t>");
    let record = Value::Record(s("r"), vec![(s("@a"), Value::Str(s("a<b & \"c\" 'd' >")))]);
    assert_eq!(
        encoded(&record, None),
        "<r a=\"a&lt;b &amp; &quot;c&quot; &apos;d&apos; &gt;\"/>"
    );
}

#[test]
fn record_with_attributes_children_and_content() {
    let record = Value::Record(
        s("person"),
        vec![
            (s("@id"), Value::UInt(7)),
            (s("name"), Value::Str(s("Bob"))),
            (s("@nick"), Value::Absent),
            (s("$value"), Value::Str(s("text"))),
            (s("tag"), Value::List(vec![Value::Str(s("a")), Value::Str(s("b"))])),
        ],
    );
    assert_eq!(
        encoded(&record, None),
        "<person id=\"7\"><name>Bob</name>text<tag>a</tag><tag>b</tag></person>"
    );
    assert_eq!(encoded(&Value::Record(s("empty"), vec![]), None), "<empty/>");
    assert_eq!(encoded(&Value::Record(s("empty"), vec![]), Some("root")), "<root/>");
}

#[test]
fn attribute_without_a_name_is_refused() {
    let record = Value::Record(s("r"), vec![(s("@"), Value::UInt(1))]);
    match to_vec(&record, None) {
        Err(SerError::Custom(message)) => assert_eq!(message, "name for attribute is missing"),
        other => panic!("unexpected {:?}", other),
    }
}

#[test]
fn structured_value_as_attribute_is_refused() {
    let record = Value::Record(s("r"), vec![(s("@a"), Value::List(vec![]))]);
    assert!(matches!(to_vec(&record, None), Err(SerError::Unsupported(_))));
}

#[test]
fn variants_are_named_by_their_tag() {
    assert_eq!(encoded(&Value::UnitVariant(s("Empty")), None), "<Empty/>");
    assert_eq!(
        encoded(&Value::NewtypeVariant(s("A"), Box::new(Value::Str(s("x")))), None),
        "<A>x</A>"
    );
    assert_eq!(
        encoded(&Value::TupleVariant(s("P"), vec![Value::Int(1), Value::Int(2)]), None),
        "<P>1</P><P>2</P>"
    );
    assert_eq!(
        encoded(&Value::StructVariant(s("Circle"), vec![(s("@r"), Value::UInt(2))]), None),
        "<Circle r=\"2\"/>"
    );
    assert_eq!(
        encoded(&Value::StructVariant(s("Circle"), vec![(s("@r"), Value::UInt(2))]), Some("Shape")),
        "<Shape><Circle r=\"2\"/></Shape>"
    );
}

#[test]
fn entries_are_fields_by_the_text_of_their_keys() {
    let entries = Value::Entries(vec![
        (Value::Str(s("@id")), Value::UInt(1)),
        (Value::Str(s("k")), Value::Bool(true)),
        (Value::UInt(5), Value::Unit),
    ]);
    assert_eq!(encoded(&entries, Some("m")), "<m id=\"1\"><k>true</k><5/></m>");
    assert!(matches!(to_vec(&entries, None), Err(SerError::Custom(_))));
    let absent_key = Value::Entries(vec![(Value::Absent, Value::UInt(1))]);
    match to_vec(&absent_key, Some("m")) {
        Err(SerError::Unsupported(message)) => assert_eq!(message, "Option as map key not supported"),
        other => panic!("unexpected {:?}", other),
    }
}

#[test]
fn struct_encoder_by_hand() {
    let mut parent = Serializer::new();
    let mut element = Struct::new("point");
    element.serialize_field("@x", &Value::Int(1)).unwrap();
    element.serialize_field("y", &Value::Int(-2)).unwrap();
    assert!(matches!(element.serialize_key(&Value::Str(s("k"))), Err(SerError::Unsupported(_))));
    element.end(&mut parent).unwrap();
    assert_eq!(parent.into_inner(), b"<point x=\"1\"><y>-2</y></point>".to_vec());
}

#[test]
fn escaped_text_holds_no_markup() {
    let all: Vec<u8> = (0..=255).collect();
    let text = xserde::ser::text::escape_text(&all);
    assert!(!text.contains(&b'<'));
    assert!(!text.contains(&b'>'));
    let record = Value::Record(s("r"), vec![(s("@a"), Value::Bytes(all))]);
    let xml = to_vec(&record, None).unwrap();
    let value = &xml[6..xml.len() - 3];
    assert!(!value.contains(&b'<'));
    assert!(!value.contains(&b'>'));
    assert!(!value.contains(&b'"'));
    assert!(!value.contains(&b'\''));
}

#[test]
fn a_field_that_fails_leaves_the_element_as_it_was() {
    let mut parent = Serializer::new();
    let mut element = Struct::new("e");
    element.serialize_field("@a", &Value::UInt(1)).unwrap();
    element.serialize_field("c", &Value::Str(s("x"))).unwrap();
    assert!(matches!(element.serialize_field("@", &Value::UInt(2)), Err(SerError::Custom(_))));
    assert!(matches!(
        element.serialize_field("@b", &Value::List(vec![])),
        Err(SerError::Unsupported(_))
    ));
    let bad_child = Value::Record(s("r"), vec![(s("ok"), Value::UInt(1)), (s("@"), Value::UInt(2))]);
    assert!(matches!(element.serialize_field("d", &bad_child), Err(SerError::Custom(_))));
    assert!(matches!(
        element.serialize_entry(&Value::Absent, &Value::UInt(3)),
        Err(SerError::Unsupported(_))
    ));
    assert!(matches!(
        element.serialize_entry(&Value::List(vec![]), &Value::UInt(3)),
        Err(SerError::Unsupported(_))
    ));
    element.end(&mut parent).unwrap();
    assert_eq!(parent.into_inner(), b"<e a=\"1\"><c>x</c></e>".to_vec());
}
