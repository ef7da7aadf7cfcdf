//! What a failed decode reports.

use crate::value::{DType, Number};
use vstd::prelude::*;

verus! {

/// The shape a target asked for when the value turned out to be something
/// else.
#[derive(Clone, Copy, Debug, PartialEq, Eq, Structural)]
pub enum Expected {
    Unit,
    Bool,
    Integer,
    Float,
    Str,
    Bytes,
    Sequence,
    Mapping,
    Struct,
    /// A tagged union: a string or a single-entry object.
    Enum,
    TupleVariant,
    StructVariant,
}

/// A classification of what a value actually is, by its own kind alone:
/// nothing below the value is looked at. A scalar is carried along.
#[derive(Debug, PartialEq, Eq)]
pub enum Found {
    Unit,
    Bool(bool),
    Unsigned(u64),
    Signed(i64),
    /// A floating-point literal, by bit pattern.
    Float(u64),
    /// A string, with its text.
    Str(String),
    Sequence,
    Mapping,
    /// A tagged union given as a bare name, without payload.
    UnitVariant,
    DateTime,
}

/// The mathematical value of a [`Found`].
pub ghost enum Seen {
    Unit,
    Bool(bool),
    Unsigned(u64),
    Signed(i64),
    Float(u64),
    Str(Seq<char>),
    Sequence,
    Mapping,
    UnitVariant,
    DateTime,
}

impl View for Found {
    type V = Seen;

    open spec fn view(&self) -> Seen {
        match self {
            Found::Unit => Seen::Unit,
            Found::Bool(b) => Seen::Bool(*b),
            Found::Unsigned(u) => Seen::Unsigned(*u),
            Found::Signed(i) => Seen::Signed(*i),
            Found::Float(f) => Seen::Float(*f),
            Found::Str(s) => Seen::Str(s@),
            Found::Sequence => Seen::Sequence,
            Found::Mapping => Seen::Mapping,
            Found::UnitVariant => Seen::UnitVariant,
            Found::DateTime => Seen::DateTime,
        }
    }
}

/// Which kind of collection a cursor was walking.
#[derive(Clone, Copy, Debug, PartialEq, Eq, Structural)]
pub enum Container {
    Array,
    Object,
}

/// Every way a decode can fail. Any one of them abandons the whole call.
#[derive(Debug, PartialEq, Eq)]
pub enum Error {
    /// The value does not have a shape the target accepts.
    TypeMismatch(Expected, Found),
    /// An integer literal lies outside the range of the requested width.
    NumericRange,
    /// A numeric literal cannot be given in the requested form without loss.
    NumericLoss,
    /// The target stopped before the collection of the given length was
    /// drained.
    ExcessElements(usize, Container),
    /// A map value was asked for without a key having been read first.
    MissingValue,
    /// A tagged union was given as an object that does not hold exactly one
    /// entry.
    InvalidVariantEncoding,
    /// The name is not among the variants that the target declares.
    UnknownVariant(String),
    /// A single-payload variant was given as a bare name.
    MissingPayload,
    /// Raised by a fixed-arity target: no element at this position.
    MissingElement(usize),
    /// Raised by a record target: the named field never appeared.
    MissingField(String),
    /// Raised by a record target: the named field appeared twice.
    DuplicateField(String),
    /// The request needs a capability that is switched off.
    Unsupported,
}

/// The mathematical value of an [`Error`].
pub ghost enum Fault {
    TypeMismatch(Expected, Seen),
    NumericRange,
    NumericLoss,
    ExcessElements(nat, Container),
    MissingValue,
    InvalidVariantEncoding,
    UnknownVariant(Seq<char>),
    MissingPayload,
    MissingElement(nat),
    MissingField(Seq<char>),
    DuplicateField(Seq<char>),
    Unsupported,
}

impl View for Error {
    type V = Fault;

    open spec fn view(&self) -> Fault {
        match self {
            Error::TypeMismatch(e, f) => Fault::TypeMismatch(*e, f@),
            Error::NumericRange => Fault::NumericRange,
            Error::NumericLoss => Fault::NumericLoss,
            Error::ExcessElements(n, c) => Fault::ExcessElements(*n as nat, *c),
            Error::MissingValue => Fault::MissingValue,
            Error::InvalidVariantEncoding => Fault::InvalidVariantEncoding,
            Error::UnknownVariant(name) => Fault::UnknownVariant(name@),
            Error::MissingPayload => Fault::MissingPayload,
            Error::MissingElement(i) => Fault::MissingElement(*i as nat),
            Error::MissingField(name) => Fault::MissingField(name@),
            Error::DuplicateField(name) => Fault::DuplicateField(name@),
            Error::Unsupported => Fault::Unsupported,
        }
    }
}

impl DType {
    /// The classification that a mismatch reports for this value. The text
    /// of a string is copied into it.
    pub fn unexpected(&self) -> (found: Found)
        ensures
            found@ == self@.found(),
    {
        match self {
            DType::Null => Found::Unit,
            DType::Boolean(b) => Found::Bool(*b),
            DType::Number(Number::PosInt(u)) => Found::Unsigned(*u),
            DType::Number(Number::NegInt(i)) => Found::Signed(*i),
            DType::Number(Number::Float(f)) => Found::Float(*f),
            DType::String(s) => Found::Str(s.clone()),
            DType::Array(_) => Found::Sequence,
            DType::Object(_) => Found::Mapping,
            DType::DateTime(_) => Found::DateTime,
        }
    }

    /// The classification that a mismatch reports for this value, which is
    /// given up for it. The text of a string is moved into it.
    pub fn into_unexpected(self) -> (found: Found)
        ensures
            found@ == self@.found(),
    {
        match self {
            DType::Null => Found::Unit,
            DType::Boolean(b) => Found::Bool(b),
            DType::Number(Number::PosInt(u)) => Found::Unsigned(u),
            DType::Number(Number::NegInt(i)) => Found::Signed(i),
            DType::Number(Number::Float(f)) => Found::Float(f),
            DType::String(s) => Found::Str(s),
            DType::Array(_) => Found::Sequence,
            DType::Object(_) => Found::Mapping,
            DType::DateTime(_) => Found::DateTime,
        }
    }

    /// The failure of a target that expected one shape and found this value.
    pub fn invalid_type(&self, expected: Expected) -> (e: Error)
        ensures
            e@ == Fault::TypeMismatch(expected, self@.found()),
    {
        Error::TypeMismatch(expected, self.unexpected())
    }

    /// The failure of a target that expected one shape and found this
    /// value, which is given up for it.
    pub fn into_invalid_type(self, expected: Expected) -> (e: Error)
        ensures
            e@ == Fault::TypeMismatch(expected, self@.found()),
    {
        Error::TypeMismatch(expected, self.into_unexpected())
    }
}

} // verus!
