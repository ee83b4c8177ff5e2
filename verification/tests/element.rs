use xserde::bytes::{bytes_order, Order};
use xserde::element::Element;
use xserde::ser::to_vec;
use xserde::value::Value;

fn s(text: &str) -> String {
    text.to_string()
}

fn element(tag: &str, attributes: &[(&str, &str)], children: Vec<Element>) -> Element {
    let mut e = Element::new(s(tag));
    for (name, value) in attributes {
        e.set_attribute(s(name), s(value));
    }
    for child in children {
        e.push_child(child);
    }
    e
}

#[test]
fn scalars_become_text() {
    assert_eq!(Element::from_value(&Value::Bool(true)).unwrap().inner_prefix(), "yes");
    assert_eq!(Element::from_value(&Value::Bool(false)).unwrap().inner_prefix(), "no");
    assert_eq!(Element::from_value(&Value::Int(-120)).unwrap().inner_prefix(), "-120");
    assert_eq!(
        Element::from_value(&Value::Int(i64::MIN)).unwrap().inner_prefix(),
        "-9223372036854775808"
    );
    assert_eq!(Element::from_value(&Value::UInt(0)).unwrap().inner_prefix(), "0");
    assert_eq!(
        Element::from_value(&Value::UInt(u64::MAX)).unwrap().inner_prefix(),
        "18446744073709551615"
    );
    assert_eq!(Element::from_value(&Value::Str(s("text"))).unwrap(), Element::text(s("text")));
    assert_eq!(Element::from_value(&Value::Absent).unwrap(), Element::text(s("")));
    assert_eq!(Element::from_value(&Value::Unit).unwrap(), Element::text(s("")));
    assert_eq!(Element::from_value(&Value::List(vec![])), None);
    assert_eq!(Element::from_value(&Value::Present(Box::new(Value::Unit))), None);
    let text = Element::text(s("t"));
    assert_eq!(text.tag(), "");
    assert_eq!(text.outer_suffix(), "");
    assert!(text.attributes().is_empty());
    assert!(text.children().is_empty());
}

#[test]
fn attributes_are_kept_in_the_order_of_their_names() {
    let mut e = Element::new(s("e"));
    e.set_attribute(s("b"), s("1"));
    e.set_attribute(s("a"), s("2"));
    e.set_attribute(s("c"), s("3"));
    e.set_attribute(s("ab"), s("4"));
    e.set_attribute(s("B"), s("5"));
    e.set_attribute(s("b"), s("6"));
    e.set_attribute(s(""), s("7"));
    assert_eq!(
        *e.attributes(),
        vec![
            (s(""), s("7")),
            (s("B"), s("5")),
            (s("a"), s("2")),
            (s("ab"), s("4")),
            (s("b"), s("6")),
            (s("c"), s("3")),
        ]
    );
    let mut sorted: std::collections::BTreeMap<String, String> = std::collections::BTreeMap::new();
    for (name, value) in [("b", "1"), ("a", "2"), ("c", "3"), ("ab", "4"), ("B", "5"), ("b", "6"), ("", "7")] {
        sorted.insert(s(name), s(value));
    }
    let expected: Vec<(String, String)> = sorted.into_iter().collect();
    assert_eq!(*e.attributes(), expected);
}

#[test]
fn order_of_byte_strings() {
    assert_eq!(bytes_order(b"a", b"b"), Order::Less);
    assert_eq!(bytes_order(b"b", b"a"), Order::Greater);
    assert_eq!(bytes_order(b"a", b"a"), Order::Equal);
    assert_eq!(bytes_order(b"", b""), Order::Equal);
    assert_eq!(bytes_order(b"", b"a"), Order::Less);
    assert_eq!(bytes_order(b"a", b"ab"), Order::Less);
    assert_eq!(bytes_order(b"ab", b"a"), Order::Greater);
    assert_eq!(bytes_order(b"ab", b"b"), Order::Less);
    assert_eq!(bytes_order(&[0xff], &[0x7f, 0x00]), Order::Greater);
}

#[test]
fn text_around_an_element() {
    let mut e = Element::new(s("e"));
    e.set_inner_prefix(s("in"));
    e.set_outer_suffix(s("out"));
    assert_eq!(e.tag(), "e");
    assert_eq!(e.inner_prefix(), "in");
    assert_eq!(e.outer_suffix(), "out");
    assert_eq!(e.to_value(), Value::Entries(vec![]));
}

#[test]
fn element_tree_is_written_through_its_value() {
    let tree = element(
        "a",
        &[("k", "v"), ("j", "<")],
        vec![
            element("b", &[], vec![element("c", &[("x", "1")], vec![])]),
            element("d", &[], vec![]),
        ],
    );
    assert_eq!(tree.children().len(), 2);
    assert_eq!(tree.children()[1].tag(), "d");
    let value = tree.to_value();
    assert_eq!(
        value,
        Value::Entries(vec![
            (Value::Str(s("@j")), Value::Str(s("<"))),
            (Value::Str(s("@k")), Value::Str(s("v"))),
            (
                Value::Str(s("b")),
                Value::Entries(vec![(
                    Value::Str(s("c")),
                    Value::Entries(vec![(Value::Str(s("@x")), Value::Str(s("1")))])
                )])
            ),
            (Value::Str(s("d")), Value::Entries(vec![])),
        ])
    );
    assert_eq!(
        to_vec(&value, Some("a")).unwrap(),
        b"<a j=\"&lt;\" k=\"v\"><b><c x=\"1\"/></b><d/></a>".to_vec()
    );
}
