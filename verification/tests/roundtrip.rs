use xserde::de::decode::{from_bytes, from_str, from_tokens};
use xserde::de::token::Token;
use xserde::de::error::DeError;
use xserde::ser::to_vec;
use xserde::value::{IntKind, Payload, Shape, Value};

fn s(text: &str) -> String {
    text.to_string()
}

fn round_trip(value: &Value, shape: &Shape, root: Option<&str>) -> Value {
    let xml = to_vec(value, root).unwrap();
    match from_bytes(&xml, shape) {
        Ok(decoded) => decoded,
        Err(e) => panic!("{:?} on {}", e, String::from_utf8_lossy(&xml)),
    }
}

fn point_shape() -> Shape {
    Shape::Record(
        s("point"),
        vec![(s("@x"), Shape::Int(IntKind::I32)), (s("y"), Shape::Int(IntKind::I32))],
    )
}

fn point(x: i64, y: i64) -> Value {
    Value::Record(s("point"), vec![(s("@x"), Value::Int(x)), (s("y"), Value::Int(y))])
}

#[test]
fn document_in_a_string() {
    assert_eq!(from_str("<point x=\"3\"><y>4</y></point>", &point_shape()).unwrap(), point(3, 4));
}

#[test]
fn record_round_trip() {
    assert_eq!(round_trip(&point(1, -2), &point_shape(), None), point(1, -2));
}

#[test]
fn record_fields_come_back_in_the_order_of_the_shape() {
    let shape = Shape::Record(
        s("r"),
        vec![
            (s("child"), Shape::Str),
            (s("@attr"), Shape::Bool),
            (s("$value"), Shape::Str),
        ],
    );
    let value = Value::Record(
        s("r"),
        vec![
            (s("child"), Value::Str(s("c"))),
            (s("@attr"), Value::Bool(true)),
            (s("$value"), Value::Str(s("inner"))),
        ],
    );
    assert_eq!(to_vec(&value, None).unwrap(), b"<r attr=\"true\"><child>c</child>inner</r>".to_vec());
    assert_eq!(round_trip(&value, &shape, None), value);
}

#[test]
fn sequence_round_trip() {
    let shape = Shape::Record(
        s("list"),
        vec![(s("item"), Shape::List(Box::new(Shape::Int(IntKind::U16))))],
    );
    let value = Value::Record(
        s("list"),
        vec![(s("item"), Value::List(vec![Value::UInt(1), Value::UInt(2), Value::UInt(3)]))],
    );
    assert_eq!(round_trip(&value, &shape, None), value);
    let empty = Value::Record(s("list"), vec![(s("item"), Value::List(vec![]))]);
    assert_eq!(to_vec(&empty, None).unwrap(), b"<list/>".to_vec());
    assert_eq!(round_trip(&empty, &shape, None), empty);
}

#[test]
fn option_round_trip_present_and_absent() {
    let shape = Shape::Record(
        s("o"),
        vec![
            (s("@a"), Shape::Option(Box::new(Shape::Int(IntKind::I8)))),
            (s("b"), Shape::Option(Box::new(Shape::Str))),
        ],
    );
    let present = Value::Record(
        s("o"),
        vec![
            (s("@a"), Value::Present(Box::new(Value::Int(-7)))),
            (s("b"), Value::Present(Box::new(Value::Str(s("text"))))),
        ],
    );
    assert_eq!(round_trip(&present, &shape, None), present);
    let absent = Value::Record(s("o"), vec![(s("@a"), Value::Absent), (s("b"), Value::Absent)]);
    assert_eq!(round_trip(&absent, &shape, None), absent);
}

fn shape_enum() -> Shape {
    Shape::Enum(vec![
        (s("Empty"), Payload::Unit),
        (s("Label"), Payload::Newtype(Shape::Str)),
        (s("Pair"), Payload::Tuple(vec![Shape::Int(IntKind::I64), Shape::Int(IntKind::I64)])),
        (s("Circle"), Payload::Record(vec![(s("@r"), Shape::Int(IntKind::U32))])),
    ])
}

fn holder_shape() -> Shape {
    Shape::Record(s("Shape"), vec![(s("$value"), shape_enum())])
}

fn holder(variant: Value) -> Value {
    Value::Record(s("Shape"), vec![(s("$value"), variant)])
}

#[test]
fn enum_variants_round_trip() {
    for variant in [
        Value::UnitVariant(s("Empty")),
        Value::NewtypeVariant(s("Label"), Box::new(Value::Str(s("a label")))),
        Value::TupleVariant(s("Pair"), vec![Value::Int(3), Value::Int(-4)]),
        Value::StructVariant(s("Circle"), vec![(s("@r"), Value::UInt(2))]),
    ] {
        let value = holder(variant);
        assert_eq!(round_trip(&value, &holder_shape(), None), value);
    }
}

#[test]
fn enum_dispatch_on_an_element() {
    let decoded = from_bytes(b"<Shape><Circle r=\"2\"/></Shape>", &holder_shape()).unwrap();
    assert_eq!(decoded, holder(Value::StructVariant(s("Circle"), vec![(s("@r"), Value::UInt(2))])));
}

#[test]
fn enum_dispatch_on_text() {
    let decoded = from_bytes(b"<Shape>Empty</Shape>", &holder_shape()).unwrap();
    assert_eq!(decoded, holder(Value::UnitVariant(s("Empty"))));
}

#[test]
fn unknown_variant_is_reported() {
    match from_bytes(b"<Shape><Square/></Shape>", &holder_shape()) {
        Err(DeError::Custom(message)) => assert_eq!(message, "unknown variant Square"),
        other => panic!("unexpected {:?}", other),
    }
}

#[test]
fn attribute_is_not_shadowed_by_an_element_of_its_name() {
    let shape = Shape::Record(
        s("r"),
        vec![(s("@a"), Shape::Int(IntKind::U8)), (s("a"), Shape::Int(IntKind::U8))],
    );
    let decoded = from_bytes(b"<r a=\"1\"><a>2</a></r>", &shape).unwrap();
    assert_eq!(
        decoded,
        Value::Record(s("r"), vec![(s("@a"), Value::UInt(1)), (s("a"), Value::UInt(2))])
    );
}

#[test]
fn unknown_fields_are_consumed() {
    let shape = Shape::Tuple(vec![point_shape(), Shape::Str]);
    let xml = b"<point x=\"1\" extra=\"e\"><skip><y>9</y><skip>deep</skip></skip><y>2</y>text</point><point>next</point>";
    let decoded = from_bytes(xml, &shape).unwrap();
    assert_eq!(decoded, Value::List(vec![point(1, 2), Value::Str(s("next"))]));
}

#[test]
fn missing_field_is_reported() {
    match from_bytes(b"<point x=\"1\"/>", &point_shape()) {
        Err(DeError::Custom(message)) => assert_eq!(message, "missing field y"),
        other => panic!("unexpected {:?}", other),
    }
}

#[test]
fn duplicate_field_is_reported() {
    match from_bytes(b"<point x=\"1\"><y>1</y><z/><y>2</y></point>", &point_shape()) {
        Err(DeError::Custom(message)) => assert_eq!(message, "duplicate field y"),
        other => panic!("unexpected {:?}", other),
    }
}

#[test]
fn tuple_needs_all_its_items() {
    let shape = Shape::Tuple(vec![Shape::Bool, Shape::Bool]);
    assert_eq!(
        from_bytes(b"<b>true</b><b>0</b>", &shape).unwrap(),
        Value::List(vec![Value::Bool(true), Value::Bool(false)])
    );
    match from_bytes(b"<b>true</b>", &shape) {
        Err(DeError::Custom(message)) => assert_eq!(message, "invalid length: an item is missing"),
        other => panic!("unexpected {:?}", other),
    }
}

#[test]
fn sequence_stops_before_another_name() {
    let shape = Shape::Record(
        s("root"),
        vec![
            (s("item"), Shape::List(Box::new(Shape::Int(IntKind::U8)))),
            (s("other"), Shape::Unit),
        ],
    );
    let decoded =
        from_bytes(b"<root><item>1</item><item>2</item><other/></root>", &shape).unwrap();
    assert_eq!(
        decoded,
        Value::Record(
            s("root"),
            vec![
                (s("item"), Value::List(vec![Value::UInt(1), Value::UInt(2)])),
                (s("other"), Value::Unit),
            ]
        )
    );
}

#[test]
fn sequence_without_items_is_empty() {
    let shape = Shape::Record(
        s("root"),
        vec![(s("item"), Shape::List(Box::new(Shape::Str))), (s("other"), Shape::Unit)],
    );
    let decoded = from_bytes(b"<root><other/></root>", &shape).unwrap();
    assert_eq!(
        decoded,
        Value::Record(s("root"), vec![(s("item"), Value::List(vec![])), (s("other"), Value::Unit)])
    );
    assert_eq!(
        from_bytes(b"", &Shape::List(Box::new(Shape::Str))).unwrap(),
        Value::List(vec![])
    );
}

#[test]
fn collection_of_variants_as_inner_value() {
    let shape = Shape::Record(s("all"), vec![(s("$value"), Shape::List(Box::new(shape_enum())))]);
    let value = Value::Record(
        s("all"),
        vec![(
            s("$value"),
            Value::List(vec![
                Value::NewtypeVariant(s("Label"), Box::new(Value::Str(s("x")))),
                Value::StructVariant(s("Circle"), vec![(s("@r"), Value::UInt(1))]),
                Value::UnitVariant(s("Empty")),
            ]),
        )],
    );
    assert_eq!(
        to_vec(&value, None).unwrap(),
        b"<all><Label>x</Label><Circle r=\"1\"/><Empty/></all>".to_vec()
    );
    assert_eq!(round_trip(&value, &shape, None), value);
}

#[test]
fn escaped_text_round_trip() {
    let shape = Shape::Record(s("t"), vec![(s("@a"), Shape::Str), (s("b"), Shape::Str)]);
    let text = "a < b && \"c\" > 'd'";
    let value = Value::Record(
        s("t"),
        vec![(s("@a"), Value::Str(s(text))), (s("b"), Value::Str(s(text)))],
    );
    assert_eq!(round_trip(&value, &shape, None), value);
}

#[test]
fn integers_round_trip_at_their_limits() {
    for v in [i64::MIN, -1, 0, 1, i64::MAX] {
        assert_eq!(
            round_trip(&Value::Int(v), &Shape::Int(IntKind::I64), Some("n")),
            Value::Int(v)
        );
    }
    for v in [0, 1, u64::MAX] {
        assert_eq!(
            round_trip(&Value::UInt(v), &Shape::Int(IntKind::U64), Some("n")),
            Value::UInt(v)
        );
    }
}

#[test]
fn number_out_of_range_is_invalid() {
    for xml in ["<n>128</n>", "<n>-129</n>", "<n>1 2</n>", "<n>0x10</n>", "<n>--1</n>", "<n>+</n>"] {
        match from_bytes(xml.as_bytes(), &Shape::Int(IntKind::I8)) {
            Err(DeError::InvalidNumber(_)) => {},
            other => panic!("unexpected {:?} on {}", other, xml),
        }
    }
    assert_eq!(from_bytes(b"<n>+127</n>", &Shape::Int(IntKind::I8)).unwrap(), Value::Int(127));
    assert_eq!(from_bytes(b"<n>-128</n>", &Shape::Int(IntKind::I8)).unwrap(), Value::Int(-128));
    assert_eq!(from_bytes(b"<n>007</n>", &Shape::Int(IntKind::U8)).unwrap(), Value::UInt(7));
    match from_bytes(b"<n>-0</n>", &Shape::Int(IntKind::U8)) {
        Err(DeError::InvalidNumber(literal)) => assert_eq!(literal, "-0"),
        other => panic!("unexpected {:?}", other),
    }
}

#[test]
fn a_value_that_takes_no_token_ends_the_sequence_with_an_error() {
    let shape = Shape::List(Box::new(Shape::Option(Box::new(Shape::Str))));
    assert!(matches!(
        from_bytes(b"<![CDATA[]]>", &shape),
        Err(DeError::Unsupported(_))
    ));
}

#[test]
fn variant_is_named_by_the_local_name_of_its_element() {
    let decoded = from_bytes(b"<Shape><ns:Circle r=\"2\"/></Shape>", &holder_shape()).unwrap();
    assert_eq!(decoded, holder(Value::StructVariant(s("Circle"), vec![(s("@r"), Value::UInt(2))])));
    let decoded = from_bytes(b"<Shape><a:Empty></a:Empty></Shape>", &holder_shape()).unwrap();
    assert_eq!(decoded, holder(Value::UnitVariant(s("Empty"))));
    let decoded = from_bytes(b"<Shape><a:Pair>1</a:Pair><a:Pair>2</a:Pair></Shape>", &holder_shape())
        .unwrap();
    assert_eq!(decoded, holder(Value::TupleVariant(s("Pair"), vec![Value::Int(1), Value::Int(2)])));
}

#[test]
fn value_from_given_tokens() {
    let tokens = vec![
        Token::StartTag { name: b"point".to_vec(), tag: b"point x=\"5\"".to_vec() },
        Token::StartTag { name: b"p:y".to_vec(), tag: b"p:y".to_vec() },
        Token::Text { raw: b"6".to_vec(), escaped: false },
        Token::EndTag { name: b"p:y".to_vec() },
        Token::EndTag { name: b"point".to_vec() },
    ];
    assert_eq!(from_tokens(tokens, &point_shape()).unwrap(), point(5, 6));
    assert!(matches!(from_tokens(vec![], &point_shape()), Err(DeError::Start)));
}
