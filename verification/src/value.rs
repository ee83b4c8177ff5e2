//! The generic value tree that the codec reads and writes, and the shapes
//! that tell the decoder what to read.

use vstd::prelude::*;

verus! {

/// A typed, structured value.
///
/// The key of a field is the name of a child element. A key that begins with
/// `@` names an attribute, and one that begins with `$` stands for the
/// element's own content: text, or children that no name identifies.
#[derive(Debug, PartialEq, Eq)]
pub enum Value {
    Unit,
    Bool(bool),
    Int(i64),
    UInt(u64),
    Str(String),
    Bytes(Vec<u8>),
    /// An optional value that is absent.
    Absent,
    /// An optional value that is present.
    Present(Box<Value>),
    /// An ordered sequence, or a tuple.
    List(Vec<Value>),
    /// A record with a name and named fields, in their order.
    Record(String, Vec<(String, Value)>),
    /// Entries whose keys are values themselves.
    Entries(Vec<(Value, Value)>),
    /// A variant of a tagged union without payload.
    UnitVariant(String),
    /// A variant that carries one value.
    NewtypeVariant(String, Box<Value>),
    /// A variant that carries positional values.
    TupleVariant(String, Vec<Value>),
    /// A variant that carries named fields.
    StructVariant(String, Vec<(String, Value)>),
}

/// The mathematical value of a [`Value`].
pub enum ValueView {
    Unit,
    Bool(bool),
    Int(int),
    UInt(int),
    Str(Seq<char>),
    Bytes(Seq<u8>),
    Absent,
    Present(Box<ValueView>),
    List(Seq<ValueView>),
    Record(Seq<char>, Seq<(Seq<char>, ValueView)>),
    Entries(Seq<(ValueView, ValueView)>),
    UnitVariant(Seq<char>),
    NewtypeVariant(Seq<char>, Box<ValueView>),
    TupleVariant(Seq<char>, Seq<ValueView>),
    StructVariant(Seq<char>, Seq<(Seq<char>, ValueView)>),
}

/// The mathematical values of `items`.
pub open spec fn views(items: Seq<Value>) -> Seq<ValueView>
    decreases items,
{
    Seq::new(
        items.len(),
        |i: int|
            if 0 <= i < items.len() {
                value_view(items[i])
            } else {
                ValueView::Unit
            },
    )
}

/// The mathematical values of `fields`.
pub open spec fn field_views(fields: Seq<(String, Value)>) -> Seq<(Seq<char>, ValueView)>
    decreases fields,
{
    Seq::new(
        fields.len(),
        |i: int|
            if 0 <= i < fields.len() {
                (fields[i].0@, value_view(fields[i].1))
            } else {
                (Seq::empty(), ValueView::Unit)
            },
    )
}

/// The mathematical values of `entries`.
pub open spec fn entry_views(entries: Seq<(Value, Value)>) -> Seq<(ValueView, ValueView)>
    decreases entries,
{
    Seq::new(
        entries.len(),
        |i: int|
            if 0 <= i < entries.len() {
                (value_view(entries[i].0), value_view(entries[i].1))
            } else {
                (ValueView::Unit, ValueView::Unit)
            },
    )
}

/// The mathematical value of `v`.
pub open spec fn value_view(v: Value) -> ValueView
    decreases v,
{
    match v {
        Value::Unit => ValueView::Unit,
        Value::Bool(b) => ValueView::Bool(b),
        Value::Int(i) => ValueView::Int(i as int),
        Value::UInt(u) => ValueView::UInt(u as int),
        Value::Str(s) => ValueView::Str(s@),
        Value::Bytes(b) => ValueView::Bytes(b@),
        Value::Absent => ValueView::Absent,
        Value::Present(inner) => ValueView::Present(Box::new(value_view(*inner))),
        Value::List(items) => ValueView::List(views(items@)),
        Value::Record(name, fields) => ValueView::Record(name@, field_views(fields@)),
        Value::Entries(entries) => ValueView::Entries(entry_views(entries@)),
        Value::UnitVariant(tag) => ValueView::UnitVariant(tag@),
        Value::NewtypeVariant(tag, inner) => ValueView::NewtypeVariant(
            tag@,
            Box::new(value_view(*inner)),
        ),
        Value::TupleVariant(tag, items) => ValueView::TupleVariant(tag@, views(items@)),
        Value::StructVariant(tag, fields) => ValueView::StructVariant(tag@, field_views(fields@)),
    }
}

impl View for Value {
    type V = ValueView;

    open spec fn view(&self) -> ValueView {
        value_view(*self)
    }
}

/// The integer types.
#[derive(Debug, Clone, Copy, PartialEq, Eq)]
pub enum IntKind {
    I8,
    I16,
    I32,
    I64,
    U8,
    U16,
    U32,
    U64,
}

impl IntKind {
    /// The least value of the type.
    pub open spec fn min(self) -> int {
        match self {
            IntKind::I8 => i8::MIN as int,
            IntKind::I16 => i16::MIN as int,
            IntKind::I32 => i32::MIN as int,
            IntKind::I64 => i64::MIN as int,
            _ => 0,
        }
    }

    /// The greatest value of the type.
    pub open spec fn max(self) -> int {
        match self {
            IntKind::I8 => i8::MAX as int,
            IntKind::I16 => i16::MAX as int,
            IntKind::I32 => i32::MAX as int,
            IntKind::I64 => i64::MAX as int,
            IntKind::U8 => u8::MAX as int,
            IntKind::U16 => u16::MAX as int,
            IntKind::U32 => u32::MAX as int,
            IntKind::U64 => u64::MAX as int,
        }
    }

    /// Whether the type has negative values.
    pub open spec fn signed(self) -> bool {
        self.min() < 0
    }

    /// Whether the type has negative values.
    pub fn is_signed(self) -> (s: bool)
        ensures
            s == self.signed(),
    {
        match self {
            IntKind::I8 => true,
            IntKind::I16 => true,
            IntKind::I32 => true,
            IntKind::I64 => true,
            _ => false,
        }
    }

    /// The least value of the type.
    pub fn min_value(self) -> (m: i128)
        ensures
            m == self.min(),
    {
        match self {
            IntKind::I8 => i8::MIN as i128,
            IntKind::I16 => i16::MIN as i128,
            IntKind::I32 => i32::MIN as i128,
            IntKind::I64 => i64::MIN as i128,
            _ => 0,
        }
    }

    /// The greatest value of the type.
    pub fn max_value(self) -> (m: i128)
        ensures
            m == self.max(),
    {
        match self {
            IntKind::I8 => i8::MAX as i128,
            IntKind::I16 => i16::MAX as i128,
            IntKind::I32 => i32::MAX as i128,
            IntKind::I64 => i64::MAX as i128,
            IntKind::U8 => u8::MAX as i128,
            IntKind::U16 => u16::MAX as i128,
            IntKind::U32 => u32::MAX as i128,
            IntKind::U64 => u64::MAX as i128,
        }
    }
}

/// What a value is expected to be: the request that a value model makes of
/// the decoder.
#[derive(Debug)]
pub enum Shape {
    Unit,
    Bool,
    Int(IntKind),
    Str,
    Bytes,
    /// A value that may be absent.
    Option(Box<Shape>),
    /// A sequence of any length, of items of one shape.
    List(Box<Shape>),
    /// As many positional values as there are shapes.
    Tuple(Vec<Shape>),
    /// A record with a name and the fields of the given keys.
    Record(String, Vec<(String, Shape)>),
    /// A tagged union with the variants of the given tags.
    Enum(Vec<(String, Payload)>),
    /// Anything: the value is passed over.
    Ignored,
}

/// What a variant carries.
#[derive(Debug)]
pub enum Payload {
    /// Nothing.
    Unit,
    /// One value.
    Newtype(Shape),
    /// Positional values.
    Tuple(Vec<Shape>),
    /// Named fields.
    Record(Vec<(String, Shape)>),
}

} // verus!
