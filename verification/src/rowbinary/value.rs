//! Rows as trees: the values that the codec carries, the shapes that tell a
//! decoder what to expect, and the mathematical view of both.

use crate::rowbinary::wire::Scalar;
use vstd::prelude::*;

verus! {

/// How a decoder treats the bytes of a string.
#[derive(Clone, Copy, Debug, PartialEq, Eq, Structural)]
pub enum TextPolicy {
    /// Malformed UTF-8 is an error.
    Strict,
    /// Malformed UTF-8 is replaced, never refused.
    Lossy,
}

/// The declared type of a column, a field or a row. The wire carries no type
/// information: the shape is what tells a decoder what the next bytes are.
#[derive(Debug, PartialEq, Eq)]
pub enum Shape {
    Scalar(Scalar),
    Bool,
    /// A string that is decoded to text under the given policy.
    Text(TextPolicy),
    /// A string whose bytes are handed out as they are, unvalidated.
    Bytes,
    Nullable(Box<Shape>),
    Array(Box<Shape>),
    /// A struct or tuple: the shapes of its fields, in declared order.
    Tuple(Vec<Shape>),
    /// An enum: the shapes of its variants' payloads, in declared order.
    Enum(Vec<Shape>),
}

/// A row, a field of it, or any value nested in one.
#[derive(Debug, PartialEq, Eq)]
pub enum Value {
    UInt8(u8),
    UInt16(u16),
    UInt32(u32),
    UInt64(u64),
    Int8(i8),
    Int16(i16),
    Int32(i32),
    Int64(i64),
    /// The IEEE-754 bit pattern of a 32-bit float.
    Float32(u32),
    /// The IEEE-754 bit pattern of a 64-bit float.
    Float64(u64),
    Bool(bool),
    Text(String),
    Bytes(Vec<u8>),
    Nullable(Option<Box<Value>>),
    Array(Vec<Value>),
    Tuple(Vec<Value>),
    /// Variant number `index` of an enum that declares `declared` variants.
    Enum { declared: usize, index: usize, payload: Box<Value> },
}

/// The mathematical view of a [`Shape`].
pub enum Layout {
    Scalar(Scalar),
    Bool,
    Text(TextPolicy),
    Bytes,
    Nullable(Box<Layout>),
    Array(Box<Layout>),
    Tuple(Seq<Layout>),
    Enum(Seq<Layout>),
}

/// The mathematical view of a [`Value`]: numbers as integers, texts as
/// character sequences, collections as sequences.
pub enum Datum {
    Scalar(Scalar, int),
    Bool(bool),
    Text(Seq<char>),
    Bytes(Seq<u8>),
    Nullable(Option<Box<Datum>>),
    Array(Seq<Datum>),
    Tuple(Seq<Datum>),
    Enum { declared: nat, index: nat, payload: Box<Datum> },
}

impl Shape {
    /// The layout that this shape declares.
    pub open spec fn layout(&self) -> Layout
        decreases self, 0nat,
    {
        match self {
            Shape::Scalar(kind) => Layout::Scalar(*kind),
            Shape::Bool => Layout::Bool,
            Shape::Text(policy) => Layout::Text(*policy),
            Shape::Bytes => Layout::Bytes,
            Shape::Nullable(inner) => Layout::Nullable(Box::new(inner.layout())),
            Shape::Array(item) => Layout::Array(Box::new(item.layout())),
            Shape::Tuple(fields) => Layout::Tuple(layouts_of(fields@)),
            Shape::Enum(variants) => Layout::Enum(layouts_of(variants@)),
        }
    }
}

/// The layouts that `shapes` declare, in order.
pub open spec fn layouts_of(shapes: Seq<Shape>) -> Seq<Layout>
    decreases shapes, 1nat,
{
    Seq::new(
        shapes.len(),
        |i: int|
            if 0 <= i < shapes.len() {
                shapes[i].layout()
            } else {
                Layout::Bool
            },
    )
}

impl View for Shape {
    type V = Layout;

    open spec fn view(&self) -> Layout {
        self.layout()
    }
}

impl Value {
    /// The datum that this value holds.
    pub open spec fn datum(&self) -> Datum
        decreases self, 0nat,
    {
        match self {
            Value::UInt8(v) => Datum::Scalar(Scalar::UInt8, *v as int),
            Value::UInt16(v) => Datum::Scalar(Scalar::UInt16, *v as int),
            Value::UInt32(v) => Datum::Scalar(Scalar::UInt32, *v as int),
            Value::UInt64(v) => Datum::Scalar(Scalar::UInt64, *v as int),
            Value::Int8(v) => Datum::Scalar(Scalar::Int8, *v as int),
            Value::Int16(v) => Datum::Scalar(Scalar::Int16, *v as int),
            Value::Int32(v) => Datum::Scalar(Scalar::Int32, *v as int),
            Value::Int64(v) => Datum::Scalar(Scalar::Int64, *v as int),
            Value::Float32(bits) => Datum::Scalar(Scalar::Float32, *bits as int),
            Value::Float64(bits) => Datum::Scalar(Scalar::Float64, *bits as int),
            Value::Bool(v) => Datum::Bool(*v),
            Value::Text(text) => Datum::Text(text@),
            Value::Bytes(bytes) => Datum::Bytes(bytes@),
            Value::Nullable(inner) => Datum::Nullable(
                match inner {
                    Some(present) => Some(Box::new(present.datum())),
                    None => None,
                },
            ),
            Value::Array(items) => Datum::Array(data_of(items@)),
            Value::Tuple(fields) => Datum::Tuple(data_of(fields@)),
            Value::Enum { declared, index, payload } => Datum::Enum {
                declared: *declared as nat,
                index: *index as nat,
                payload: Box::new(payload.datum()),
            },
        }
    }
}

/// The data that `values` hold, in order.
pub open spec fn data_of(values: Seq<Value>) -> Seq<Datum>
    decreases values, 1nat,
{
    Seq::new(
        values.len(),
        |i: int|
            if 0 <= i < values.len() {
                values[i].datum()
            } else {
                Datum::Bool(false)
            },
    )
}

impl View for Value {
    type V = Datum;

    open spec fn view(&self) -> Datum {
        self.datum()
    }
}

} // verus!
