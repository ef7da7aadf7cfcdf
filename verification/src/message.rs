//! The text of an error, for display.
//!
//! The sentences for a mismatched type, a malformed tagged union, a
//! collection that was not drained and a missing map value are composed by
//! serde, whose wording other decoders share. What serde writes is stated
//! here word for word, but for the quoting of a string's text, which is
//! Rust's own and is only given a name.

use crate::error::{Container, Error, Expected, Fault, Found, Seen};
use crate::parse::{decimal, integer_text};
use serde::de::Unexpected;
use vstd::prelude::*;
use vstd::string::*;

verus! {

/// What Rust's debug formatting writes for a string: the text between
/// double quotes, with the characters that need it escaped.
pub uninterp spec fn debug_text(text: Seq<char>) -> Seq<char>;

/// What was found, in the terms that serde's messages know.
#[derive(Clone, Copy, Debug, PartialEq, Eq)]
pub enum Wording<'a> {
    Unit,
    Bool(bool),
    Unsigned(u64),
    Signed(i64),
    Str(&'a str),
    Sequence,
    Mapping,
    UnitVariant,
    /// Something serde has no word for, by a word of its own.
    Other(&'a str),
}

impl<'a> Wording<'a> {
    /// What serde writes for what was found.
    pub open spec fn text(self) -> Seq<char> {
        match self {
            Wording::Unit => "unit value"@,
            Wording::Bool(b) => if b {
                "boolean `true`"@
            } else {
                "boolean `false`"@
            },
            Wording::Unsigned(u) => "integer `"@ + decimal(u as nat) + "`"@,
            Wording::Signed(i) => "integer `"@ + integer_text(i as int) + "`"@,
            Wording::Str(s) => "string "@ + debug_text(s@),
            Wording::Sequence => "sequence"@,
            Wording::Mapping => "map"@,
            Wording::UnitVariant => "unit variant"@,
            Wording::Other(word) => word@,
        }
    }
}

impl Seen {
    /// How a message calls what was found. A floating-point literal and a
    /// timestamp go by their kind.
    pub open spec fn text(self) -> Seq<char> {
        match self {
            Seen::Unit => Wording::Unit.text(),
            Seen::Bool(b) => Wording::Bool(b).text(),
            Seen::Unsigned(u) => Wording::Unsigned(u).text(),
            Seen::Signed(i) => Wording::Signed(i).text(),
            Seen::Float(_) => "floating point number"@,
            Seen::Str(s) => "string "@ + debug_text(s),
            Seen::Sequence => Wording::Sequence.text(),
            Seen::Mapping => Wording::Mapping.text(),
            Seen::UnitVariant => Wording::UnitVariant.text(),
            Seen::DateTime => "datetime"@,
        }
    }
}

impl Found {
    /// What was found, in the terms that serde's messages know.
    pub fn wording(&self) -> (w: Wording<'_>)
        ensures
            w.text() == self@.text(),
    {
        match self {
            Found::Unit => Wording::Unit,
            Found::Bool(b) => Wording::Bool(*b),
            Found::Unsigned(u) => Wording::Unsigned(*u),
            Found::Signed(i) => Wording::Signed(*i),
            Found::Float(_) => Wording::Other("floating point number"),
            Found::Str(s) => Wording::Str(s.as_str()),
            Found::Sequence => Wording::Sequence,
            Found::Mapping => Wording::Mapping,
            Found::UnitVariant => Wording::UnitVariant,
            Found::DateTime => Wording::Other("datetime"),
        }
    }
}

/// The sentence for a value of the wrong type.
pub open spec fn invalid_type_text(found: Seq<char>, expected: Seq<char>) -> Seq<char> {
    "invalid type: "@ + found + ", expected "@ + expected
}

/// The sentence for a value of the right type that is wrong otherwise.
pub open spec fn invalid_value_text(found: Seq<char>, expected: Seq<char>) -> Seq<char> {
    "invalid value: "@ + found + ", expected "@ + expected
}

/// The sentence for a collection of the wrong length.
pub open spec fn invalid_length_text(len: nat, expected: Seq<char>) -> Seq<char> {
    "invalid length "@ + decimal(len) + ", expected "@ + expected
}

#[verifier::external_type_specification]
#[verifier::external_body]
pub struct ExUnexpected<'a>(Unexpected<'a>);

/// Turns what was found into serde's `Unexpected`, variant for variant.
#[verifier::external_body]
fn unexpected_of<'a>(found: Wording<'a>) -> Unexpected<'a> {
    match found {
        Wording::Unit => Unexpected::Unit,
        Wording::Bool(b) => Unexpected::Bool(b),
        Wording::Unsigned(u) => Unexpected::Unsigned(u),
        Wording::Signed(i) => Unexpected::Signed(i),
        Wording::Str(s) => Unexpected::Str(s),
        Wording::Sequence => Unexpected::Seq,
        Wording::Mapping => Unexpected::Map,
        Wording::UnitVariant => Unexpected::UnitVariant,
        Wording::Other(word) => Unexpected::Other(word),
    }
}

/// Calls `serde::de::Error::invalid_type` on serde's own error type and
/// returns the message it holds. serde writes "invalid type: ", then what
/// was found in its own wording, then ", expected " and the expected text;
/// a found string is written as "string " and the text as Rust's debug
/// formatting quotes it.
#[verifier::external_body]
fn invalid_type_message(found: Wording<'_>, expected: &str) -> (text: String)
    ensures
        text@ == invalid_type_text(found.text(), expected@),
        found matches Wording::Str(s) ==> text@ == "invalid type: string "@ + debug_text(s@)
            + ", expected "@ + expected@,
{
    let e: serde::de::value::Error = serde::de::Error::invalid_type(unexpected_of(found), &expected);
    e.to_string()
}

/// Calls `serde::de::Error::invalid_value` on serde's own error type and
/// returns the message it holds. serde writes "invalid value: ", then what
/// was found in its own wording, then ", expected " and the expected text.
#[verifier::external_body]
fn invalid_value_message(found: Wording<'_>, expected: &str) -> (text: String)
    ensures
        text@ == invalid_value_text(found.text(), expected@),
{
    let e: serde::de::value::Error = serde::de::Error::invalid_value(unexpected_of(found), &expected);
    e.to_string()
}

/// Calls `serde::de::Error::invalid_length` on serde's own error type and
/// returns the message it holds. serde writes "invalid length ", then the
/// length in decimal digits, then ", expected " and the expected text.
#[verifier::external_body]
fn invalid_length_message(len: usize, expected: &str) -> (text: String)
    ensures
        text@ == invalid_length_text(len as nat, expected@),
{
    let e: serde::de::value::Error = serde::de::Error::invalid_length(len, &expected);
    e.to_string()
}

/// Calls `serde::de::Error::custom` on serde's own error type and returns
/// the message it holds, which is the message it was given.
#[verifier::external_body]
fn custom_message(msg: &str) -> (text: String)
    ensures
        text@ == msg@,
{
    let e: serde::de::value::Error = serde::de::Error::custom(msg);
    e.to_string()
}

impl Expected {
    /// How the expected shape is called in a sentence.
    pub open spec fn text(self) -> Seq<char> {
        match self {
            Expected::Unit => "unit"@,
            Expected::Bool => "a boolean"@,
            Expected::Integer => "an integer"@,
            Expected::Float => "a floating point number"@,
            Expected::Str => "a string"@,
            Expected::Bytes => "a byte array"@,
            Expected::Sequence => "a sequence"@,
            Expected::Mapping => "a map"@,
            Expected::Struct => "a record"@,
            Expected::Enum => "string or map"@,
            Expected::TupleVariant => "tuple variant"@,
            Expected::StructVariant => "struct variant"@,
        }
    }

    /// How the expected shape is called in a sentence.
    pub fn name(self) -> (text: &'static str)
        ensures
            text@ == self.text(),
    {
        match self {
            Expected::Unit => "unit",
            Expected::Bool => "a boolean",
            Expected::Integer => "an integer",
            Expected::Float => "a floating point number",
            Expected::Str => "a string",
            Expected::Bytes => "a byte array",
            Expected::Sequence => "a sequence",
            Expected::Mapping => "a map",
            Expected::Struct => "a record",
            Expected::Enum => "string or map",
            Expected::TupleVariant => "tuple variant",
            Expected::StructVariant => "struct variant",
        }
    }
}

impl Container {
    /// What is expected of a collection that was not drained, whichever
    /// kind it is.
    pub open spec fn text(self) -> Seq<char> {
        "fewer elements expected"@
    }

    /// What is expected of a collection that was not drained.
    pub fn name(self) -> (text: &'static str)
        ensures
            text@ == self.text(),
    {
        "fewer elements expected"
    }
}

/// The text before and after a quoted name.
pub open spec fn quoted(before: Seq<char>, name: Seq<char>) -> Seq<char> {
    before + name + "`"@
}

/// Puts a name between a lead-in and a closing quote.
fn quote(before: &str, name: &str) -> (text: String)
    ensures
        text@ == quoted(before@, name@),
{
    before.to_owned().concat(name).concat("`")
}

impl Fault {
    /// The message that an error displays.
    pub open spec fn text(self) -> Seq<char> {
        match self {
            Fault::TypeMismatch(expected, found) => invalid_type_text(
                found.text(),
                expected.text(),
            ),
            Fault::NumericRange => "number out of range"@,
            Fault::NumericLoss => "number cannot be given without loss"@,
            Fault::ExcessElements(len, container) => invalid_length_text(len, container.text()),
            Fault::MissingValue => "value is missing"@,
            Fault::InvalidVariantEncoding => invalid_value_text(
                Wording::Mapping.text(),
                "map with a single key"@,
            ),
            Fault::UnknownVariant(name) => quoted("unknown variant `"@, name),
            Fault::MissingPayload => invalid_type_text(
                Wording::UnitVariant.text(),
                "newtype variant"@,
            ),
            Fault::MissingElement(i) => invalid_length_text(i, "more elements"@),
            Fault::MissingField(name) => quoted("missing field `"@, name),
            Fault::DuplicateField(name) => quoted("duplicate field `"@, name),
            Fault::Unsupported => "128-bit integers are not enabled"@,
        }
    }
}

impl Error {
    /// The message of the error, fit for display.
    pub fn message(&self) -> (text: String)
        ensures
            text@ == self@.text(),
    {
        match self {
            Error::TypeMismatch(expected, found) => invalid_type_message(
                found.wording(),
                expected.name(),
            ),
            Error::NumericRange => "number out of range".to_owned(),
            Error::NumericLoss => "number cannot be given without loss".to_owned(),
            Error::ExcessElements(len, container) => invalid_length_message(
                *len,
                container.name(),
            ),
            Error::MissingValue => custom_message("value is missing"),
            Error::InvalidVariantEncoding => invalid_value_message(
                Wording::Mapping,
                "map with a single key",
            ),
            Error::UnknownVariant(name) => quote("unknown variant `", name.as_str()),
            Error::MissingPayload => invalid_type_message(Wording::UnitVariant, "newtype variant"),
            Error::MissingElement(i) => invalid_length_message(*i, "more elements"),
            Error::MissingField(name) => quote("missing field `", name.as_str()),
            Error::DuplicateField(name) => quote("duplicate field `", name.as_str()),
            Error::Unsupported => "128-bit integers are not enabled".to_owned(),
        }
    }
}

} // verus!
