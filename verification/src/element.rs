//! A whole element as a tree of its own.

use vstd::prelude::*;
use vstd::string::{StringExecFns, StringSliceAdditionalSpecFns};
use vstd::utf8::{encode_utf8, encode_utf8_decode_utf8};
use crate::bytes::{bytes_less, bytes_order, lemma_less_asymmetric, lemma_less_transitive, Order};
use crate::value::{entry_views, Value, ValueView};

verus! {

/// An element with its attributes and child elements, and the text around
/// them: what stands in the element before its first child, and what stands
/// behind the element. The attributes are kept in the ascending order of
/// their names, and no name occurs twice.
#[derive(Debug, PartialEq, Eq)]
pub struct Element {
    tag: String,
    attributes: Vec<(String, String)>,
    children: Vec<Element>,
    inner_prefix: String,
    outer_suffix: String,
}

/// The mathematical value of an [`Element`].
pub struct ElementTree {
    pub tag: Seq<char>,
    pub attributes: Seq<(Seq<char>, Seq<char>)>,
    pub children: Seq<ElementTree>,
    pub inner_prefix: Seq<char>,
    pub outer_suffix: Seq<char>,
}

impl ElementTree {
    /// The tree of an element named `tag` that holds nothing.
    pub open spec fn named(tag: Seq<char>) -> ElementTree {
        ElementTree {
            tag,
            attributes: Seq::empty(),
            children: Seq::empty(),
            inner_prefix: Seq::empty(),
            outer_suffix: Seq::empty(),
        }
    }
}

/// Whether the names of `attributes` ascend in the order of the dictionary,
/// by their bytes: each name comes before the next, so that none occurs
/// twice.
pub open spec fn ascending(attributes: Seq<(Seq<char>, Seq<char>)>) -> bool {
    forall|i: int, j: int|
        0 <= i < j < attributes.len() ==> bytes_less(
            encode_utf8(#[trigger] attributes[i].0),
            encode_utf8(#[trigger] attributes[j].0),
        )
}

/// The attributes `attributes` after the attribute `name` is set to `value`:
/// an attribute of that name has its value replaced, and else the attribute
/// is put in before the first name that comes after it.
pub open spec fn put(attributes: Seq<(Seq<char>, Seq<char>)>, name: Seq<char>, value: Seq<char>) -> Seq<
    (Seq<char>, Seq<char>),
>
    decreases attributes.len(),
{
    if attributes.len() == 0 {
        seq![(name, value)]
    } else if attributes[0].0 == name {
        seq![(name, value)] + attributes.drop_first()
    } else if bytes_less(encode_utf8(name), encode_utf8(attributes[0].0)) {
        seq![(name, value)] + attributes
    } else {
        seq![attributes[0]] + put(attributes.drop_first(), name, value)
    }
}

/// Names and values as text.
pub open spec fn pairs(attributes: Seq<(String, String)>) -> Seq<(Seq<char>, Seq<char>)> {
    Seq::new(attributes.len(), |i: int| (attributes[i].0@, attributes[i].1@))
}

/// The trees of `children`.
spec fn trees(children: Seq<Element>) -> Seq<ElementTree>
    decreases children,
{
    Seq::new(
        children.len(),
        |i: int|
            if 0 <= i < children.len() {
                tree_of(children[i])
            } else {
                ElementTree::named(Seq::empty())
            },
    )
}

/// The tree of `e`.
spec fn tree_of(e: Element) -> ElementTree
    decreases e,
{
    ElementTree {
        tag: e.tag@,
        attributes: pairs(e.attributes@),
        children: trees(e.children@),
        inner_prefix: e.inner_prefix@,
        outer_suffix: e.outer_suffix@,
    }
}

impl View for Element {
    type V = ElementTree;

    closed spec fn view(&self) -> ElementTree {
        tree_of(*self)
    }
}

/// The decimal digit `d` as a character.
pub open spec fn digit_char(d: nat) -> char {
    if d == 0 {
        '0'
    } else if d == 1 {
        '1'
    } else if d == 2 {
        '2'
    } else if d == 3 {
        '3'
    } else if d == 4 {
        '4'
    } else if d == 5 {
        '5'
    } else if d == 6 {
        '6'
    } else if d == 7 {
        '7'
    } else if d == 8 {
        '8'
    } else {
        '9'
    }
}

/// The decimal digits of `n` as text, without leading zeros.
pub open spec fn decimal(n: nat) -> Seq<char>
    decreases n,
{
    if n < 10 {
        seq![digit_char(n)]
    } else {
        decimal(n / 10).push(digit_char(n % 10))
    }
}

/// The decimal literal of `v` as text.
pub open spec fn decimal_text(v: int) -> Seq<char> {
    if v < 0 {
        seq!['-'] + decimal((-v) as nat)
    } else {
        decimal(v as nat)
    }
}

/// The entries that stand for the attributes `attributes`: under the key of
/// an attribute, its value.
pub open spec fn attribute_entries(attributes: Seq<(Seq<char>, Seq<char>)>) -> Seq<
    (ValueView, ValueView),
> {
    Seq::new(
        attributes.len(),
        |i: int| (ValueView::Str(seq!['@'] + attributes[i].0), ValueView::Str(attributes[i].1)),
    )
}

/// The entries that stand for the child elements `children`: under the tag
/// of a child, the child's own entries.
pub open spec fn child_entries(children: Seq<ElementTree>) -> Seq<(ValueView, ValueView)>
    decreases children,
{
    Seq::new(
        children.len(),
        |i: int|
            if 0 <= i < children.len() {
                (ValueView::Str(children[i].tag), element_value(children[i]))
            } else {
                (ValueView::Unit, ValueView::Unit)
            },
    )
}

/// The value that stands for the element `e`: entries for its attributes,
/// in their order, and then for its children. Encoded under the element's
/// tag as the root, it is the element without its text.
pub open spec fn element_value(e: ElementTree) -> ValueView
    decreases e,
{
    ValueView::Entries(attribute_entries(e.attributes) + child_entries(e.children))
}

/// The text that an element holds for the scalar `v`; no other value is
/// text.
pub open spec fn scalar_as_text(v: ValueView) -> Option<Seq<char>> {
    match v {
        ValueView::Bool(b) => Some(
            if b {
                "yes"@
            } else {
                "no"@
            },
        ),
        ValueView::Int(i) => Some(decimal_text(i)),
        ValueView::UInt(u) => Some(decimal_text(u)),
        ValueView::Str(s) => Some(s),
        ValueView::Absent => Some(Seq::empty()),
        ValueView::Unit => Some(Seq::empty()),
        _ => None,
    }
}

/// Setting an attribute leaves alone the attributes whose names come before
/// its name.
proof fn lemma_put_behind(
    attributes: Seq<(Seq<char>, Seq<char>)>,
    name: Seq<char>,
    value: Seq<char>,
    i: int,
)
    requires
        0 <= i <= attributes.len(),
        forall|k: int|
            0 <= k < i ==> bytes_less(encode_utf8(#[trigger] attributes[k].0), encode_utf8(name)),
    ensures
        put(attributes, name, value) == attributes.subrange(0, i) + put(
            attributes.skip(i),
            name,
            value,
        ),
    decreases i,
{
    if i == 0 {
        assert(attributes.skip(0) =~= attributes);
        assert(attributes.subrange(0, 0) + put(attributes, name, value) =~= put(
            attributes,
            name,
            value,
        ));
    } else {
        let rest = attributes.drop_first();
        lemma_less_asymmetric(encode_utf8(attributes[0].0), encode_utf8(name));
        assert forall|k: int| 0 <= k < i - 1 implies bytes_less(
            encode_utf8(#[trigger] rest[k].0),
            encode_utf8(name),
        ) by {
            assert(rest[k] == attributes[k + 1]);
        }
        lemma_put_behind(rest, name, value, i - 1);
        assert(rest.skip(i - 1) =~= attributes.skip(i));
        assert(seq![attributes[0]] + (rest.subrange(0, i - 1) + put(rest.skip(i - 1), name, value))
            =~= attributes.subrange(0, i) + put(attributes.skip(i), name, value));
    }
}

/// One decimal digit as text.
fn digit_str(d: u64) -> (s: &'static str)
    requires
        d < 10,
    ensures
        s@ == seq![digit_char(d as nat)],
{
    proof {
        reveal_strlit("0");
        reveal_strlit("1");
        reveal_strlit("2");
        reveal_strlit("3");
        reveal_strlit("4");
        reveal_strlit("5");
        reveal_strlit("6");
        reveal_strlit("7");
        reveal_strlit("8");
        reveal_strlit("9");
    }
    let s = if d == 0 {
        "0"
    } else if d == 1 {
        "1"
    } else if d == 2 {
        "2"
    } else if d == 3 {
        "3"
    } else if d == 4 {
        "4"
    } else if d == 5 {
        "5"
    } else if d == 6 {
        "6"
    } else if d == 7 {
        "7"
    } else if d == 8 {
        "8"
    } else {
        "9"
    };
    assert(s@ =~= seq![digit_char(d as nat)]);
    s
}

/// `text` with the decimal digits of `n` behind it.
fn with_decimal(text: String, n: u64) -> (r: String)
    ensures
        r@ == text@ + decimal(n as nat),
    decreases n,
{
    let head = if n >= 10 {
        with_decimal(text, n / 10)
    } else {
        text
    };
    let r = head.concat(digit_str(n % 10));
    assert(r@ =~= text@ + decimal(n as nat));
    r
}

/// Where the attribute `name` stands or is to stand among `attributes`: the
/// index behind the names that come before it, and whether the name stands
/// there.
fn place(attributes: &Vec<(String, String)>, name: &str) -> (r: (usize, bool))
    ensures
        r.0 <= attributes@.len(),
        forall|k: int|
            0 <= k < r.0 ==> bytes_less(
                encode_utf8(#[trigger] pairs(attributes@)[k].0),
                encode_utf8(name@),
            ),
        r.1 ==> r.0 < attributes@.len() && pairs(attributes@)[r.0 as int].0 == name@,
        !r.1 && r.0 < attributes@.len() ==> bytes_less(
            encode_utf8(name@),
            encode_utf8(pairs(attributes@)[r.0 as int].0),
        ),
{
    let mut i: usize = 0;
    while i < attributes.len()
        invariant
            i <= attributes@.len(),
            forall|k: int|
                0 <= k < i ==> bytes_less(
                    encode_utf8(#[trigger] pairs(attributes@)[k].0),
                    encode_utf8(name@),
                ),
        decreases attributes@.len() - i,
    {
        let held = attributes[i].0.as_str();
        assert(held@ == pairs(attributes@)[i as int].0);
        match bytes_order(held.as_bytes(), name.as_bytes()) {
            Order::Less => {},
            Order::Equal => {
                proof {
                    encode_utf8_decode_utf8(held@);
                    encode_utf8_decode_utf8(name@);
                }
                return (i, true);
            },
            Order::Greater => {
                return (i, false);
            },
        }
        i += 1;
    }
    (i, false)
}

impl Element {
    /// The names of the attributes ascend.
    #[verifier::type_invariant]
    spec fn wf(&self) -> bool {
        ascending(pairs(self.attributes@))
    }

    /// An element named `tag` that holds nothing.
    pub fn new(tag: String) -> (e: Element)
        ensures
            e@ == ElementTree::named(tag@),
    {
        let e = Element {
            tag,
            attributes: Vec::new(),
            children: Vec::new(),
            inner_prefix: String::new(),
            outer_suffix: String::new(),
        };
        assert(pairs(e.attributes@) =~= Seq::empty());
        assert(trees(e.children@) =~= Seq::empty());
        e
    }

    /// An element without a tag that holds nothing but the text `text`.
    pub fn text(text: String) -> (e: Element)
        ensures
            e@ == (ElementTree {
                tag: Seq::empty(),
                attributes: Seq::empty(),
                children: Seq::empty(),
                inner_prefix: text@,
                outer_suffix: Seq::empty(),
            }),
    {
        let e = Element {
            tag: String::new(),
            attributes: Vec::new(),
            children: Vec::new(),
            inner_prefix: text,
            outer_suffix: String::new(),
        };
        assert(pairs(e.attributes@) =~= Seq::empty());
        assert(trees(e.children@) =~= Seq::empty());
        e
    }

    /// The element's tag.
    pub fn tag(&self) -> (tag: &str)
        ensures
            tag@ == self@.tag,
    {
        self.tag.as_str()
    }

    /// The element's attributes, in the ascending order of their names.
    pub fn attributes(&self) -> (attributes: &Vec<(String, String)>)
        ensures
            pairs(attributes@) == self@.attributes,
            ascending(self@.attributes),
    {
        proof {
            use_type_invariant(self);
        }
        &self.attributes
    }

    /// The element's child elements, in their order.
    pub fn children(&self) -> (children: &Vec<Element>)
        ensures
            children@.len() == self@.children.len(),
            forall|i: int| 0 <= i < children@.len() ==> (#[trigger] children@[i])@ == self@.children[i],
    {
        &self.children
    }

    /// The text in the element before its first child.
    pub fn inner_prefix(&self) -> (text: &str)
        ensures
            text@ == self@.inner_prefix,
    {
        self.inner_prefix.as_str()
    }

    /// The text behind the element.
    pub fn outer_suffix(&self) -> (text: &str)
        ensures
            text@ == self@.outer_suffix,
    {
        self.outer_suffix.as_str()
    }

    /// Sets the attribute `name` to `value`: an attribute of that name has
    /// its value replaced, and else the attribute takes its place in the
    /// order of the names.
    pub fn set_attribute(&mut self, name: String, value: String)
        ensures
            final(self)@ == (ElementTree {
                tag: old(self)@.tag,
                attributes: put(old(self)@.attributes, name@, value@),
                children: old(self)@.children,
                inner_prefix: old(self)@.inner_prefix,
                outer_suffix: old(self)@.outer_suffix,
            }),
            ascending(final(self)@.attributes),
    {
        proof {
            use_type_invariant(&*self);
        }
        let mut attributes: Vec<(String, String)> = Vec::new();
        assert(pairs(attributes@) =~= Seq::empty());
        core::mem::swap(&mut self.attributes, &mut attributes);
        let ghost all = pairs(attributes@);
        let (i, found) = place(&attributes, name.as_str());
        proof {
            lemma_put_behind(all, name@, value@, i as int);
            if i < all.len() {
                assert(all.skip(i as int)[0] == all[i as int]);
                lemma_less_asymmetric(encode_utf8(name@), encode_utf8(all[i as int].0));
                if !found {
                    assert(all[i as int].0 != name@);
                }
            }
        }
        let ghost entry = (name@, value@);
        if found {
            attributes.set(i, (name, value));
            proof {
                let now = pairs(attributes@);
                assert(now =~= all.subrange(0, i as int) + (seq![entry] + all.skip(
                    i as int,
                ).drop_first()));
                assert forall|x: int, y: int| 0 <= x < y < now.len() implies bytes_less(
                    encode_utf8(#[trigger] now[x].0),
                    encode_utf8(#[trigger] now[y].0),
                ) by {
                    assert(now[x].0 == all[x].0);
                    assert(now[y].0 == all[y].0);
                }
            }
        } else {
            attributes.insert(i, (name, value));
            proof {
                let now = pairs(attributes@);
                assert(now =~= all.subrange(0, i as int) + (seq![entry] + all.skip(i as int)));
                assert forall|x: int, y: int| 0 <= x < y < now.len() implies bytes_less(
                    encode_utf8(#[trigger] now[x].0),
                    encode_utf8(#[trigger] now[y].0),
                ) by {
                    if y < i {
                        assert(now[x] == all[x] && now[y] == all[y]);
                    } else if y == i {
                        assert(now[x] == all[x]);
                    } else if x < i {
                        assert(now[x] == all[x] && now[y] == all[y - 1]);
                    } else if x == i {
                        assert(now[y] == all[y - 1]);
                        if y - 1 > i {
                            lemma_less_transitive(
                                encode_utf8(entry.0),
                                encode_utf8(all[i as int].0),
                                encode_utf8(all[y - 1].0),
                            );
                        }
                    } else {
                        assert(now[x] == all[x - 1] && now[y] == all[y - 1]);
                    }
                }
            }
        }
        core::mem::swap(&mut self.attributes, &mut attributes);
    }

    /// Adds `child` behind the element's children.
    pub fn push_child(&mut self, child: Element)
        ensures
            final(self)@ == (ElementTree {
                tag: old(self)@.tag,
                attributes: old(self)@.attributes,
                children: old(self)@.children.push(child@),
                inner_prefix: old(self)@.inner_prefix,
                outer_suffix: old(self)@.outer_suffix,
            }),
    {
        proof {
            use_type_invariant(&*self);
        }
        let mut children: Vec<Element> = Vec::new();
        core::mem::swap(&mut self.children, &mut children);
        let ghost before = children@;
        children.push(child);
        assert(trees(children@) =~= trees(before).push(child@));
        core::mem::swap(&mut self.children, &mut children);
    }

    /// Sets the text in the element before its first child.
    pub fn set_inner_prefix(&mut self, text: String)
        ensures
            final(self)@ == (ElementTree {
                tag: old(self)@.tag,
                attributes: old(self)@.attributes,
                children: old(self)@.children,
                inner_prefix: text@,
                outer_suffix: old(self)@.outer_suffix,
            }),
    {
        proof {
            use_type_invariant(&*self);
        }
        self.inner_prefix = text;
    }

    /// Sets the text behind the element.
    pub fn set_outer_suffix(&mut self, text: String)
        ensures
            final(self)@ == (ElementTree {
                tag: old(self)@.tag,
                attributes: old(self)@.attributes,
                children: old(self)@.children,
                inner_prefix: old(self)@.inner_prefix,
                outer_suffix: text@,
            }),
    {
        proof {
            use_type_invariant(&*self);
        }
        self.outer_suffix = text;
    }

    /// The element that holds the scalar `value` as its text: `yes` or `no`
    /// for a boolean, the decimal literal for an integer, and nothing for a
    /// value that is absent. A structured value is no text.
    pub fn from_value(value: &Value) -> (r: Option<Element>)
        ensures
            match scalar_as_text(value@) {
                Some(text) => r matches Some(e) && e@ == (ElementTree {
                    tag: Seq::empty(),
                    attributes: Seq::empty(),
                    children: Seq::empty(),
                    inner_prefix: text,
                    outer_suffix: Seq::empty(),
                }),
                None => r is None,
            },
    {
        match value {
            Value::Bool(b) => Some(
                Element::text(
                    if *b {
                        "yes".to_owned()
                    } else {
                        "no".to_owned()
                    },
                ),
            ),
            Value::Int(i) => {
                let text = if *i < 0 {
                    proof {
                        reveal_strlit("-");
                    }
                    assert("-"@ =~= seq!['-']);
                    with_decimal("-".to_owned(), (-(*i as i128)) as u64)
                } else {
                    let r = with_decimal(String::new(), *i as u64);
                    assert(r@ =~= decimal(*i as nat));
                    r
                };
                Some(Element::text(text))
            },
            Value::UInt(u) => {
                let r = with_decimal(String::new(), *u);
                assert(r@ =~= decimal(*u as nat));
                Some(Element::text(r))
            },
            Value::Str(s) => Some(Element::text(s.clone())),
            Value::Absent => Some(Element::text(String::new())),
            Value::Unit => Some(Element::text(String::new())),
            _ => None,
        }
    }

    /// The value that stands for the element: entries for its attributes,
    /// in the ascending order of their names, and then for its children.
    pub fn to_value(&self) -> (value: Value)
        ensures
            value@ == element_value(self@),
            ascending(self@.attributes),
        decreases self,
    {
        proof {
            use_type_invariant(self);
        }
        let ghost attributes = pairs(self.attributes@);
        let ghost children = trees(self.children@);
        let mut entries: Vec<(Value, Value)> = Vec::new();
        let mut i: usize = 0;
        assert(entry_views(entries@) =~= attribute_entries(attributes).subrange(0, 0));
        while i < self.attributes.len()
            invariant
                i <= self.attributes@.len(),
                attributes == pairs(self.attributes@),
                entry_views(entries@) == attribute_entries(attributes).subrange(0, i as int),
            decreases self.attributes@.len() - i,
        {
            proof {
                reveal_strlit("@");
            }
            assert("@"@ =~= seq!['@']);
            let key = "@".to_owned().concat(self.attributes[i].0.as_str());
            let ghost before = entries@;
            entries.push((Value::Str(key), Value::Str(self.attributes[i].1.clone())));
            assert(entry_views(entries@) =~= entry_views(before).push(
                attribute_entries(attributes)[i as int],
            ));
            assert(attribute_entries(attributes).subrange(0, i + 1) =~= attribute_entries(
                attributes,
            ).subrange(0, i as int).push(attribute_entries(attributes)[i as int]));
            i += 1;
        }
        assert(attribute_entries(attributes).subrange(0, i as int) =~= attribute_entries(
            attributes,
        ));
        let mut j: usize = 0;
        assert(entry_views(entries@) =~= attribute_entries(attributes) + child_entries(
            children,
        ).subrange(0, 0));
        while j < self.children.len()
            invariant
                j <= self.children@.len(),
                children == trees(self.children@),
                entry_views(entries@) == attribute_entries(attributes) + child_entries(
                    children,
                ).subrange(0, j as int),
            decreases self.children@.len() - j,
        {
            let child = &self.children[j];
            let ghost before = entries@;
            assert(children[j as int] == child@);
            entries.push((Value::Str(child.tag.clone()), child.to_value()));
            assert(entry_views(entries@) =~= entry_views(before).push(
                child_entries(children)[j as int],
            ));
            assert(child_entries(children).subrange(0, j + 1) =~= child_entries(
                children,
            ).subrange(0, j as int).push(child_entries(children)[j as int]));
            assert(entry_views(entries@) =~= attribute_entries(attributes) + child_entries(
                children,
            ).subrange(0, j + 1));
            j += 1;
        }
        assert(child_entries(children).subrange(0, j as int) =~= child_entries(children));
        Value::Entries(entries)
    }
}

} // verus!
