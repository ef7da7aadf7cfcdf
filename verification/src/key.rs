//! Object keys: classifying the first key of an object, and decoding a key
//! against what the target expects of it.

use crate::decoded::{outcome, Decoded, Out};
use crate::error::{Error, Expected, Fault, Found, Seen};
use crate::model::{
    bare_model, bare_variant_model, classify, field_from, field_index, key_model, tagged,
    variant_from, variant_index, KeyKind,
};
use crate::parse::{key_integer, parse_integer};
use crate::shape::{Capabilities, Field, IntWidth, Shape, Variant, VariantKind};
use crate::text::{cow_into_owned, cow_str, number_token_text, raw_token_text, str_eq};
use crate::value::DType;
use std::borrow::Cow;
use vstd::prelude::*;
use vstd::string::*;

verus! {

/// Finds the first field with the given name.
pub fn find_field(fields: &Vec<Field>, name: &str) -> (found: Option<usize>)
    ensures
        match found {
            Some(j) => field_index(fields@, name@) == Some(j as int) && j < fields@.len(),
            None => field_index(fields@, name@) is None,
        },
{
    let mut i: usize = 0;
    while i < fields.len()
        invariant
            i <= fields@.len(),
            field_from(fields@, name@, i as nat) == field_index(fields@, name@),
        decreases fields@.len() - i,
    {
        if str_eq(fields[i].name.as_str(), name) {
            return Some(i);
        }
        i += 1;
    }
    None
}

/// Finds the first variant with the given name.
pub fn find_variant(variants: &Vec<Variant>, name: &str) -> (found: Option<usize>)
    ensures
        match found {
            Some(j) => variant_index(variants@, name@) == Some(j as int) && j < variants@.len(),
            None => variant_index(variants@, name@) is None,
        },
{
    let mut i: usize = 0;
    while i < variants.len()
        invariant
            i <= variants@.len(),
            variant_from(variants@, name@, i as nat) == variant_index(variants@, name@),
        decreases variants@.len() - i,
    {
        if str_eq(variants[i].name.as_str(), name) {
            return Some(i);
        }
        i += 1;
    }
    None
}

/// What the first key of an object announces.
#[derive(Debug, PartialEq, Eq)]
pub enum KeyClass {
    /// An ordinary key, handed back.
    Ordinary(String),
    /// The object stands for a number.
    Number,
    /// The object stands for a captured sub-document.
    RawDType,
}

impl KeyClass {
    /// The kind of the class.
    pub open spec fn kind(self) -> KeyKind {
        match self {
            KeyClass::Ordinary(_) => KeyKind::Ordinary,
            KeyClass::Number => KeyKind::Number,
            KeyClass::RawDType => KeyKind::Raw,
        }
    }
}

/// Looks at the first key of an object for the reserved capsule tokens.
#[derive(Clone, Copy, Debug)]
pub struct KeyClassifier {
    pub caps: Capabilities,
}

impl KeyClassifier {
    /// Classifies a borrowed key; an ordinary key is copied.
    pub fn visit_str(self, s: &str) -> (class: KeyClass)
        ensures
            class.kind() == classify(s@, self.caps),
            class matches KeyClass::Ordinary(key) ==> key@ == s@,
    {
        if self.caps.arbitrary_precision && str_eq(s, number_token_text()) {
            KeyClass::Number
        } else if self.caps.raw_capture && str_eq(s, raw_token_text()) {
            KeyClass::RawDType
        } else {
            KeyClass::Ordinary(s.to_owned())
        }
    }

    /// Classifies an owned key; an ordinary key is handed back as it came.
    pub fn visit_string(self, s: String) -> (class: KeyClass)
        ensures
            class.kind() == classify(s@, self.caps),
            class matches KeyClass::Ordinary(key) ==> key@ == s@,
    {
        if self.caps.arbitrary_precision && str_eq(s.as_str(), number_token_text()) {
            KeyClass::Number
        } else if self.caps.raw_capture && str_eq(s.as_str(), raw_token_text()) {
            KeyClass::RawDType
        } else {
            KeyClass::Ordinary(s)
        }
    }
}

/// A stand-in for a variant's payload where there is none: only a variant
/// without payload can be read from it.
#[derive(Clone, Copy, Debug, PartialEq, Eq, Structural)]
pub struct UnitOnly;

impl UnitOnly {
    /// A variant without payload is there.
    pub fn unit_variant(self) -> (r: Result<Decoded<'static>, Error>)
        ensures
            outcome(r) == bare_model(VariantKind::Unit),
            r matches Ok(d) && d is Unit,
    {
        Ok(Decoded::Unit)
    }

    /// A variant with one payload finds none.
    pub fn newtype_variant_seed(self, seed: &Shape) -> (r: Result<Decoded<'static>, Error>)
        ensures
            outcome(r) == Err::<Out, Fault>(Fault::MissingPayload),
    {
        Err(Error::MissingPayload)
    }

    /// A variant with positional fields finds none.
    pub fn tuple_variant(self, shapes: &Vec<Shape>) -> (r: Result<Decoded<'static>, Error>)
        ensures
            outcome(r) == Err::<Out, Fault>(
                Fault::TypeMismatch(Expected::TupleVariant, Seen::UnitVariant),
            ),
    {
        Err(Error::TypeMismatch(Expected::TupleVariant, Found::UnitVariant))
    }

    /// A variant with named fields finds none.
    pub fn struct_variant(self, fields: &Vec<Field>) -> (r: Result<Decoded<'static>, Error>)
        ensures
            outcome(r) == Err::<Out, Fault>(
                Fault::TypeMismatch(Expected::StructVariant, Seen::UnitVariant),
            ),
    {
        Err(Error::TypeMismatch(Expected::StructVariant, Found::UnitVariant))
    }

    /// Reads the variant of the given kind.
    pub fn variant(self, kind: &VariantKind) -> (r: Result<Decoded<'static>, Error>)
        ensures
            outcome(r) == bare_model(*kind),
            r matches Ok(d) ==> d is Unit,
    {
        match kind {
            VariantKind::Unit => self.unit_variant(),
            VariantKind::Newtype(seed) => self.newtype_variant_seed(seed),
            VariantKind::Tuple(shapes) => self.tuple_variant(shapes),
            VariantKind::Struct(fields) => self.struct_variant(fields),
        }
    }
}

/// How a piece of text reaches the target: as a reference into the document
/// where there is one to give, else as a string of its own.
#[derive(Debug, PartialEq, Eq)]
pub enum StrVisit<'de> {
    Borrowed(&'de str),
    Owned(String),
}

impl<'de> StrVisit<'de> {
    /// The text as a string of its own. Only lent text is copied.
    pub fn into_string(self) -> (s: String)
        ensures
            s@ == self@,
    {
        match self {
            StrVisit::Borrowed(s) => s.to_owned(),
            StrVisit::Owned(s) => s,
        }
    }
}

impl<'de> View for StrVisit<'de> {
    type V = Seq<char>;

    open spec fn view(&self) -> Seq<char> {
        match self {
            StrVisit::Borrowed(s) => s@,
            StrVisit::Owned(s) => s@,
        }
    }
}

/// A piece of text, borrowed or owned, as a source of its own: it decodes as
/// a string, or as a tagged union given by a bare name.
pub struct BorrowedCowStrDeserializer<'de> {
    pub value: Cow<'de, str>,
}

impl<'de> BorrowedCowStrDeserializer<'de> {
    /// A source that holds `value`.
    pub fn new(value: Cow<'de, str>) -> (de: BorrowedCowStrDeserializer<'de>)
        ensures
            de.value == value,
    {
        BorrowedCowStrDeserializer { value }
    }

    /// Hands the text to the target: borrowed text as a reference, owned
    /// text as a string. Nothing is copied.
    pub fn deserialize_any(self) -> (visit: StrVisit<'de>)
        ensures
            visit@ == self.value@,
            visit is Borrowed <==> self.value is Borrowed,
    {
        match self.value {
            Cow::Borrowed(string) => StrVisit::Borrowed(string),
            Cow::Owned(string) => StrVisit::Owned(string),
        }
    }

    /// Resolves the text as the name of one of `variants`.
    pub fn variant_seed(self, variants: &Vec<Variant>) -> (r: Result<(usize, UnitOnly), Error>)
        ensures
            match r {
                Ok((j, _)) => variant_index(variants@, self.value@) == Some(j as int) && j
                    < variants@.len(),
                Err(e) => variant_index(variants@, self.value@) is None && e@
                    == Fault::UnknownVariant(self.value@),
            },
    {
        match find_variant(variants, cow_str(&self.value)) {
            Some(j) => Ok((j, UnitOnly)),
            None => Err(Error::UnknownVariant(cow_into_owned(self.value))),
        }
    }

    /// Decodes the text as a tagged union: the text names the variant, and
    /// no payload comes with it.
    pub fn deserialize_enum(self, variants: &Vec<Variant>) -> (r: Result<Decoded<'de>, Error>)
        ensures
            outcome(r) == bare_variant_model(self.value@, variants@),
            self.value is Borrowed ==> (r matches Ok(d) ==> d.lent()),
    {
        match find_variant(variants, cow_str(&self.value)) {
            Some(j) => match UnitOnly.variant(&variants[j].kind) {
                Ok(payload) => {
                    assert(payload.lent());
                    Ok(Decoded::Variant(self.value, Box::new(payload)))
                },
                Err(e) => Err(e),
            },
            None => Err(Error::UnknownVariant(cow_into_owned(self.value))),
        }
    }
}

/// What an integer target makes of a key: the integer that the text
/// denotes, or else the text as it was.
#[derive(Debug, PartialEq, Eq)]
pub enum KeyVisit<'de> {
    Integer(Decoded<'de>),
    Text(StrVisit<'de>),
}

/// The text of an object key as a source of its own.
pub struct MapKeyDeserializer<'de> {
    pub key: Cow<'de, str>,
}

impl<'de> MapKeyDeserializer<'de> {
    /// The failure of a target that expected anything but text of a key.
    fn mismatch(self, expected: Expected) -> (e: Error)
        ensures
            e@ == Fault::TypeMismatch(expected, Seen::Str(self.key@)),
    {
        Error::TypeMismatch(expected, Found::Str(cow_into_owned(self.key)))
    }

    /// Hands the key to the target as text. Nothing is copied.
    pub fn deserialize_any(self) -> (visit: StrVisit<'de>)
        ensures
            visit@ == self.key@,
            visit is Borrowed <==> self.key is Borrowed,
    {
        BorrowedCowStrDeserializer::new(self.key).deserialize_any()
    }

    /// Hands the key to a target that wants an integer of the given width:
    /// the integer where the text denotes one, else the text unchanged and
    /// uncopied.
    pub fn deserialize_integer(self, width: IntWidth) -> (visit: KeyVisit<'de>)
        ensures
            match key_integer(self.key@, width) {
                Some(v) => visit matches KeyVisit::Integer(d) && d@ == crate::number::integer_out(
                    v,
                    width,
                ),
                None => visit matches KeyVisit::Text(t) && t@ == self.key@ && (t is Borrowed
                    <==> self.key is Borrowed),
            },
    {
        match parse_integer(cow_str(&self.key), width) {
            Some(d) => KeyVisit::Integer(d),
            None => KeyVisit::Text(self.deserialize_any()),
        }
    }

    /// Decodes the key as a tagged union: the text names the variant.
    pub fn deserialize_enum(self, variants: &Vec<Variant>) -> (r: Result<Decoded<'de>, Error>)
        ensures
            outcome(r) == bare_variant_model(self.key@, variants@),
            self.key is Borrowed ==> (r matches Ok(d) ==> d.lent()),
    {
        BorrowedCowStrDeserializer::new(self.key).deserialize_enum(variants)
    }

    /// Decodes the key against an optional target: a key is never absent.
    pub fn deserialize_option(self, inner: &Shape, caps: Capabilities) -> (r: Result<
        Decoded<'de>,
        Error,
    >)
        ensures
            outcome(r) == key_model(self.key@, Shape::Option(Box::new(*inner)), caps),
            self.key is Borrowed ==> (r matches Ok(d) ==> d.lent()),
        decreases *inner, 1nat,
    {
        match self.deserialize(inner, caps) {
            Ok(d) => Ok(Decoded::Present(Box::new(d))),
            Err(e) => Err(e),
        }
    }

    /// Decodes the key against `shape`.
    ///
    /// An integer target receives the integer that the text denotes; every
    /// other target sees a string. A string target receives the text as
    /// the key holds it, lent or owned.
    pub fn deserialize(self, shape: &Shape, caps: Capabilities) -> (r: Result<Decoded<'de>, Error>)
        ensures
            outcome(r) == key_model(self.key@, *shape, caps),
            *shape is Str ==> r == Ok::<Decoded<'de>, Error>(Decoded::Str(self.key)),
            self.key is Borrowed ==> (r matches Ok(d) ==> d.lent()),
        decreases *shape, 0nat,
    {
        match shape {
            Shape::Any => Ok(Decoded::Value(DType::String(cow_into_owned(self.key)))),
            Shape::Unit => Err(self.mismatch(Expected::Unit)),
            Shape::Bool => Err(self.mismatch(Expected::Bool)),
            Shape::Int(width) => {
                if width.wide() && !caps.wide_integers {
                    Err(Error::Unsupported)
                } else {
                    match self.deserialize_integer(*width) {
                        KeyVisit::Integer(d) => Ok(d),
                        KeyVisit::Text(text) => Err(
                            Error::TypeMismatch(Expected::Integer, Found::Str(text.into_string())),
                        ),
                    }
                }
            },
            Shape::Float(_) => Err(self.mismatch(Expected::Float)),
            Shape::Str => Ok(Decoded::Str(self.key)),
            Shape::Bytes => Ok(Decoded::Bytes(cow_str(&self.key).as_bytes_vec())),
            Shape::Option(inner) => self.deserialize_option(inner, caps),
            Shape::Sequence(_) => Err(self.mismatch(Expected::Sequence)),
            Shape::Tuple(_) => Err(self.mismatch(Expected::Sequence)),
            Shape::Mapping(_, _) => Err(self.mismatch(Expected::Mapping)),
            Shape::Struct(_) => Err(self.mismatch(Expected::Struct)),
            Shape::Enum(variants) => self.deserialize_enum(variants),
            Shape::Ignored => Ok(Decoded::Unit),
        }
    }
}

} // verus!
