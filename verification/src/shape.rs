//! How a target describes what it wants from a value.

use vstd::prelude::*;

verus! {

/// Optional decoding capabilities. All are off by default.
#[derive(Clone, Copy, Debug, PartialEq, Eq, Structural)]
pub struct Capabilities {
    /// Honour the number capsule token and decode its literal losslessly.
    pub arbitrary_precision: bool,
    /// Honour the raw capsule token and keep its text untouched.
    pub raw_capture: bool,
    /// Accept targets that ask for 128-bit integers.
    pub wide_integers: bool,
}

impl Capabilities {
    /// Every capability switched off.
    pub fn none() -> (caps: Capabilities)
        ensures
            caps == (Capabilities {
                arbitrary_precision: false,
                raw_capture: false,
                wide_integers: false,
            }),
    {
        Capabilities { arbitrary_precision: false, raw_capture: false, wide_integers: false }
    }
}

impl Default for Capabilities {
    fn default() -> (caps: Capabilities)
        ensures
            caps == (Capabilities {
                arbitrary_precision: false,
                raw_capture: false,
                wide_integers: false,
            }),
    {
        Capabilities::none()
    }
}

/// The width and signedness of an integer target.
#[derive(Clone, Copy, Debug, PartialEq, Eq, Structural)]
pub enum IntWidth {
    I8,
    I16,
    I32,
    I64,
    I128,
    U8,
    U16,
    U32,
    U64,
    U128,
}

impl IntWidth {
    /// The least value of the width.
    pub open spec fn lower(self) -> int {
        match self {
            IntWidth::I8 => -0x80,
            IntWidth::I16 => -0x8000,
            IntWidth::I32 => -0x8000_0000,
            IntWidth::I64 => -0x8000_0000_0000_0000,
            IntWidth::I128 => -0x8000_0000_0000_0000_0000_0000_0000_0000,
            _ => 0,
        }
    }

    /// The greatest value of the width.
    pub open spec fn upper(self) -> int {
        match self {
            IntWidth::I8 => 0x7f,
            IntWidth::I16 => 0x7fff,
            IntWidth::I32 => 0x7fff_ffff,
            IntWidth::I64 => 0x7fff_ffff_ffff_ffff,
            IntWidth::I128 => 0x7fff_ffff_ffff_ffff_ffff_ffff_ffff_ffff,
            IntWidth::U8 => 0xff,
            IntWidth::U16 => 0xffff,
            IntWidth::U32 => 0xffff_ffff,
            IntWidth::U64 => 0xffff_ffff_ffff_ffff,
            IntWidth::U128 => 0xffff_ffff_ffff_ffff_ffff_ffff_ffff_ffff,
        }
    }

    /// Whether the width has 128 bits.
    pub open spec fn is_wide(self) -> bool {
        self == IntWidth::I128 || self == IntWidth::U128
    }

    /// Whether the width admits negative values.
    pub open spec fn is_signed(self) -> bool {
        self.lower() < 0
    }
}

/// The width of a floating-point target.
#[derive(Clone, Copy, Debug, PartialEq, Eq, Structural)]
pub enum FloatWidth {
    F32,
    F64,
}

/// A named field of a record target.
#[derive(Debug, PartialEq, Eq)]
pub struct Field {
    pub name: String,
    pub shape: Shape,
}

/// What a variant of a tagged union carries.
#[derive(Debug, PartialEq, Eq)]
pub enum VariantKind {
    /// No payload.
    Unit,
    /// One payload.
    Newtype(Shape),
    /// Positional fields.
    Tuple(Vec<Shape>),
    /// Named fields.
    Struct(Vec<Field>),
}

/// A declared variant of a tagged union.
#[derive(Debug, PartialEq, Eq)]
pub struct Variant {
    pub name: String,
    pub kind: VariantKind,
}

/// What a target accepts.
#[derive(Debug, PartialEq, Eq)]
pub enum Shape {
    /// A probe: whatever the value is, rebuilt as a value.
    Any,
    Unit,
    Bool,
    Int(IntWidth),
    Float(FloatWidth),
    /// Text, also an identifier.
    Str,
    Bytes,
    Option(Box<Shape>),
    /// Any number of elements, all of one shape.
    Sequence(Box<Shape>),
    /// A fixed number of elements, each of its own shape.
    Tuple(Vec<Shape>),
    /// Any number of entries with one key shape and one value shape.
    Mapping(Box<Shape>, Box<Shape>),
    /// A record of named fields, which may also be given by position.
    Struct(Vec<Field>),
    /// A tagged union over a closed set of variants.
    Enum(Vec<Variant>),
    /// Accept and discard whatever is there.
    Ignored,
}

/// What walks the elements of an array on a target's behalf.
#[derive(Clone, Copy, Debug)]
pub enum SeqVisitor<'a> {
    /// A probe, which rebuilds every element.
    Probe,
    /// A byte target, which takes every element as a byte.
    Bytes,
    /// A sequence target, which takes every element at one shape.
    Elements(&'a Shape),
    /// A tuple target, which takes one element per shape.
    Tuple(&'a Vec<Shape>),
    /// A record target read by position, which takes one element per field.
    Fields(&'a Vec<Field>),
}

/// What walks the entries of an object on a target's behalf.
#[derive(Clone, Copy, Debug)]
pub enum MapVisitor<'a> {
    /// A probe, which looks for a capsule and else rebuilds every entry.
    Probe,
    /// A map target, which takes every entry at one key shape and one value
    /// shape.
    Entries(&'a Shape, &'a Shape),
    /// A record target, which takes the entries that name its fields.
    Fields(&'a Vec<Field>),
}

impl<'a> SeqVisitor<'a> {
    /// The shapes that a target of fixed arity expects, in order.
    pub open spec fn positional(self) -> Seq<Shape> {
        match self {
            SeqVisitor::Tuple(shapes) => shapes@,
            SeqVisitor::Fields(fields) => field_shapes(fields@),
            _ => Seq::empty(),
        }
    }

    /// How many elements the target takes from an array of `len`, where it
    /// succeeds.
    pub open spec fn consumed(self, len: nat) -> nat {
        match self {
            SeqVisitor::Tuple(shapes) => shapes@.len(),
            SeqVisitor::Fields(fields) => fields@.len(),
            _ => len,
        }
    }
}

/// The shapes of a record's fields, in declaration order.
pub open spec fn field_shapes(fields: Seq<Field>) -> Seq<Shape> {
    Seq::new(fields.len(), |i: int| fields[i].shape)
}

} // verus!
