//! What decoding a value against a shape yields, as a mathematical function.
//!
//! Both traversals of the engine are specified against [`decode_model`]. The
//! functions that walk a collection take the position reached and what has
//! been collected so far; a walk starts at position zero with nothing
//! collected.

use crate::decoded::Out;
use crate::error::{Container, Expected, Fault, Seen};
use crate::number::integer_out;
use crate::parse::{integer_value, key_integer};
use crate::shape::{
    field_shapes, Capabilities, Field, IntWidth, MapVisitor, SeqVisitor, Shape, Variant,
    VariantKind,
};
use crate::value::{Number, Tree};
use vstd::prelude::*;
use vstd::utf8::encode_utf8;

verus! {

/// The key that marks an object as the capsule of a numeric literal.
pub open spec fn number_token() -> Seq<char> {
    "$dtype::private::Number"@
}

/// The key that marks an object as the capsule of an untouched sub-document.
pub open spec fn raw_token() -> Seq<char> {
    "$dtype::private::RawValue"@
}

/// How the first key of an object is to be read.
pub ghost enum KeyKind {
    /// An ordinary key of an ordinary object.
    Ordinary,
    /// The object stands for a number.
    Number,
    /// The object stands for a captured sub-document.
    Raw,
}

/// Classifies the first key of an object. A token counts only while its
/// capability is switched on.
pub open spec fn classify(key: Seq<char>, caps: Capabilities) -> KeyKind {
    if caps.arbitrary_precision && key == number_token() {
        KeyKind::Number
    } else if caps.raw_capture && key == raw_token() {
        KeyKind::Raw
    } else {
        KeyKind::Ordinary
    }
}

impl Tree {
    /// The classification that a mismatch reports for this value.
    pub open spec fn found(self) -> Seen {
        match self {
            Tree::Null => Seen::Unit,
            Tree::Boolean(b) => Seen::Bool(b),
            Tree::Number(Number::PosInt(u)) => Seen::Unsigned(u),
            Tree::Number(Number::NegInt(i)) => Seen::Signed(i),
            Tree::Number(Number::Float(f)) => Seen::Float(f),
            Tree::String(s) => Seen::Str(s),
            Tree::Array(_) => Seen::Sequence,
            Tree::Object(_) => Seen::Mapping,
            Tree::DateTime(_) => Seen::DateTime,
        }
    }
}

/// The failure of a target that expected one shape and found another.
pub open spec fn mismatch<T>(expected: Expected, tree: Tree) -> Result<T, Fault> {
    Err(Fault::TypeMismatch(expected, tree.found()))
}

/// The number that the text of a numeric capsule denotes: an integer
/// literal that fits 64 bits.
pub open spec fn number_literal(text: Seq<char>) -> Result<Number, Fault> {
    match integer_value(text) {
        None => Err(Fault::NumericLoss),
        Some(v) => if 0 <= v <= u64::MAX {
            Ok(Number::PosInt(v as u64))
        } else if i64::MIN <= v < 0 {
            Ok(Number::NegInt(v as i64))
        } else {
            Err(Fault::NumericRange)
        },
    }
}

/// The position of the first field with the given name, looking from
/// position `i` on.
pub open spec fn field_from(fields: Seq<Field>, name: Seq<char>, i: nat) -> Option<int>
    decreases fields.len() - i,
{
    if i >= fields.len() {
        None
    } else if fields[i as int].name@ == name {
        Some(i as int)
    } else {
        field_from(fields, name, i + 1)
    }
}

/// The position of the first field with the given name.
pub open spec fn field_index(fields: Seq<Field>, name: Seq<char>) -> Option<int> {
    field_from(fields, name, 0)
}

/// The position of the first variant with the given name, looking from
/// position `i` on.
pub open spec fn variant_from(variants: Seq<Variant>, name: Seq<char>, i: nat) -> Option<int>
    decreases variants.len() - i,
{
    if i >= variants.len() {
        None
    } else if variants[i as int].name@ == name {
        Some(i as int)
    } else {
        variant_from(variants, name, i + 1)
    }
}

/// The position of the first variant with the given name.
pub open spec fn variant_index(variants: Seq<Variant>, name: Seq<char>) -> Option<int> {
    variant_from(variants, name, 0)
}

/// What a variant makes of an encoding that carries no payload.
pub open spec fn bare_model(kind: VariantKind) -> Result<Out, Fault> {
    match kind {
        VariantKind::Unit => Ok(Out::Unit),
        VariantKind::Newtype(_) => Err(Fault::MissingPayload),
        VariantKind::Tuple(_) => Err(
            Fault::TypeMismatch(Expected::TupleVariant, Seen::UnitVariant),
        ),
        VariantKind::Struct(_) => Err(
            Fault::TypeMismatch(Expected::StructVariant, Seen::UnitVariant),
        ),
    }
}

/// Wraps a payload's result in the variant it belongs to.
pub open spec fn tagged(name: Seq<char>, payload: Result<Out, Fault>) -> Result<Out, Fault> {
    match payload {
        Ok(p) => Ok(Out::Variant(name, Box::new(p))),
        Err(e) => Err(e),
    }
}

/// The engine's check once a target has returned: a target that succeeded
/// but consumed fewer items than its collection of `len` held has failed
/// after all.
pub open spec fn exact<T>(
    walked: Result<T, Fault>,
    consumed: nat,
    len: nat,
    container: Container,
) -> Result<T, Fault> {
    match walked {
        Ok(out) => if len > consumed {
            Err(Fault::ExcessElements(len, container))
        } else {
            Ok(out)
        },
        Err(e) => Err(e),
    }
}

/// Wraps the elements that a walk collected.
pub open spec fn sequence(items: Result<Seq<Out>, Fault>) -> Result<Out, Fault> {
    match items {
        Ok(s) => Ok(Out::Sequence(s)),
        Err(e) => Err(e),
    }
}

/// What a tagged union given as a bare name decodes to.
pub open spec fn bare_variant_model(name: Seq<char>, variants: Seq<Variant>) -> Result<
    Out,
    Fault,
> {
    match variant_index(variants, name) {
        None => Err(Fault::UnknownVariant(name)),
        Some(j) => tagged(name, bare_model(variants[j].kind)),
    }
}

/// What the text of an object key decodes to against a shape.
///
/// A key is text. An integer target receives the integer the text denotes,
/// and fails if it denotes none; an optional target always finds the key
/// present. Every other target sees a string.
pub open spec fn key_model(text: Seq<char>, shape: Shape, caps: Capabilities) -> Result<
    Out,
    Fault,
>
    decreases shape,
{
    match shape {
        Shape::Any => Ok(Out::Value(Tree::String(text))),
        Shape::Unit => mismatch(Expected::Unit, Tree::String(text)),
        Shape::Bool => mismatch(Expected::Bool, Tree::String(text)),
        Shape::Int(width) => if width.is_wide() && !caps.wide_integers {
            Err(Fault::Unsupported)
        } else {
            match key_integer(text, width) {
                Some(v) => Ok(integer_out(v, width)),
                None => mismatch(Expected::Integer, Tree::String(text)),
            }
        },
        Shape::Float(_) => mismatch(Expected::Float, Tree::String(text)),
        Shape::Str => Ok(Out::Str(text)),
        Shape::Bytes => Ok(Out::Bytes(encode_utf8(text))),
        Shape::Option(inner) => match key_model(text, *inner, caps) {
            Ok(d) => Ok(Out::Present(Box::new(d))),
            Err(e) => Err(e),
        },
        Shape::Sequence(_) => mismatch(Expected::Sequence, Tree::String(text)),
        Shape::Tuple(_) => mismatch(Expected::Sequence, Tree::String(text)),
        Shape::Mapping(_, _) => mismatch(Expected::Mapping, Tree::String(text)),
        Shape::Struct(_) => mismatch(Expected::Struct, Tree::String(text)),
        Shape::Enum(variants) => bare_variant_model(text, variants@),
        Shape::Ignored => Ok(Out::Unit),
    }
}

/// What a record makes of its slots once every entry was read: the values
/// from position `j` on, in declaration order, unless a slot is still
/// empty, which is then a missing field.
pub open spec fn record_model(
    fields: Seq<Field>,
    slots: Seq<Option<Out>>,
    j: nat,
    acc: Seq<Out>,
) -> Result<Seq<Out>, Fault>
    decreases fields.len() - j,
{
    if j >= fields.len() || j >= slots.len() {
        Ok(acc)
    } else {
        match slots[j as int] {
            None => Err(Fault::MissingField(fields[j as int].name@)),
            Some(d) => record_model(fields, slots, j + 1, acc.push(d)),
        }
    }
}

/// What decoding `tree` against `shape` yields.
pub open spec fn decode_model(tree: Tree, shape: Shape, caps: Capabilities) -> Result<Out, Fault>
    decreases tree, 0nat, shape,
{
    match shape {
        Shape::Any => match tree {
            Tree::Array(items) => match probe_items(items, caps, 0, Seq::empty()) {
                Ok(rebuilt) => Ok(Out::Value(Tree::Array(rebuilt))),
                Err(e) => Err(e),
            },
            Tree::Object(entries) => exact(
                probe_walk(entries, caps),
                probe_consumed(entries, caps),
                entries.len(),
                Container::Object,
            ),
            _ => Ok(Out::Value(tree)),
        },
        Shape::Unit => match tree {
            Tree::Null => Ok(Out::Unit),
            _ => mismatch(Expected::Unit, tree),
        },
        Shape::Bool => match tree {
            Tree::Boolean(b) => Ok(Out::Bool(b)),
            _ => mismatch(Expected::Bool, tree),
        },
        Shape::Int(width) => match tree {
            Tree::Number(n) => n.narrow_model(width, caps),
            _ => mismatch(Expected::Integer, tree),
        },
        Shape::Float(_) => match tree {
            Tree::Number(n) => Ok(Out::Number(n)),
            _ => mismatch(Expected::Float, tree),
        },
        Shape::Str => match tree {
            Tree::String(s) => Ok(Out::Str(s)),
            _ => mismatch(Expected::Str, tree),
        },
        Shape::Bytes => match tree {
            Tree::String(s) => Ok(Out::Bytes(encode_utf8(s))),
            Tree::Array(items) => match bytes_model(items, caps, 0, Seq::empty()) {
                Ok(bytes) => Ok(Out::Bytes(bytes)),
                Err(e) => Err(e),
            },
            _ => mismatch(Expected::Bytes, tree),
        },
        Shape::Option(inner) => match tree {
            Tree::Null => Ok(Out::Absent),
            _ => match decode_model(tree, *inner, caps) {
                Ok(d) => Ok(Out::Present(Box::new(d))),
                Err(e) => Err(e),
            },
        },
        Shape::Sequence(elem) => match tree {
            Tree::Array(items) => sequence(elements_model(items, *elem, caps, 0, Seq::empty())),
            _ => mismatch(Expected::Sequence, tree),
        },
        Shape::Tuple(shapes) => match tree {
            Tree::Array(items) => sequence(
                exact(
                    tuple_walk(items, shapes@, caps, 0, Seq::empty()),
                    shapes@.len(),
                    items.len(),
                    Container::Array,
                ),
            ),
            _ => mismatch(Expected::Sequence, tree),
        },
        Shape::Mapping(key, value) => match tree {
            Tree::Object(entries) => match entries_model(
                entries,
                *key,
                *value,
                caps,
                0,
                Seq::empty(),
            ) {
                Ok(pairs) => Ok(Out::Mapping(pairs)),
                Err(e) => Err(e),
            },
            _ => mismatch(Expected::Mapping, tree),
        },
        Shape::Struct(fields) => match tree {
            Tree::Array(items) => sequence(
                exact(
                    tuple_walk(items, field_shapes(fields@), caps, 0, Seq::empty()),
                    fields@.len(),
                    items.len(),
                    Container::Array,
                ),
            ),
            Tree::Object(entries) => sequence(
                fields_model(entries, fields@, caps, 0, empty_slots(fields@.len())),
            ),
            _ => mismatch(Expected::Struct, tree),
        },
        Shape::Enum(variants) => match tree {
            Tree::String(name) => bare_variant_model(name, variants@),
            Tree::Object(entries) => if entries.len() != 1 {
                Err(Fault::InvalidVariantEncoding)
            } else {
                match variant_index(variants@, entries[0].0) {
                    None => Err(Fault::UnknownVariant(entries[0].0)),
                    Some(j) => tagged(
                        entries[0].0,
                        payload_model(entries[0].1, variants@[j].kind, caps),
                    ),
                }
            },
            _ => mismatch(Expected::Enum, tree),
        },
        Shape::Ignored => Ok(Out::Unit),
    }
}

/// What a variant makes of the payload that came with its name.
pub open spec fn payload_model(payload: Tree, kind: VariantKind, caps: Capabilities) -> Result<
    Out,
    Fault,
>
    decreases payload, 0nat, kind,
{
    match kind {
        VariantKind::Unit => match payload {
            Tree::Null => Ok(Out::Unit),
            _ => mismatch(Expected::Unit, payload),
        },
        VariantKind::Newtype(shape) => decode_model(payload, shape, caps),
        VariantKind::Tuple(shapes) => match payload {
            Tree::Array(items) => sequence(
                exact(
                    tuple_walk(items, shapes@, caps, 0, Seq::empty()),
                    shapes@.len(),
                    items.len(),
                    Container::Array,
                ),
            ),
            _ => mismatch(Expected::TupleVariant, payload),
        },
        VariantKind::Struct(fields) => match payload {
            Tree::Object(entries) => sequence(
                fields_model(entries, fields@, caps, 0, empty_slots(fields@.len())),
            ),
            _ => mismatch(Expected::StructVariant, payload),
        },
    }
}

/// A probe walking the elements of an array.
pub open spec fn probe_items(items: Seq<Tree>, caps: Capabilities, i: nat, acc: Seq<Tree>) -> Result<
    Seq<Tree>,
    Fault,
>
    decreases items, items.len() - i,
{
    if i >= items.len() {
        Ok(acc)
    } else {
        match decode_model(items[i as int], Shape::Any, caps) {
            Ok(out) => probe_items(items, caps, i + 1, acc.push(out->Value_0)),
            Err(e) => Err(e),
        }
    }
}

/// How many entries a probe takes from an object: the first alone where it
/// makes the object a capsule, else all.
pub open spec fn probe_consumed(entries: Seq<(Seq<char>, Tree)>, caps: Capabilities) -> nat {
    if entries.len() > 0 && !(classify(entries[0].0, caps) is Ordinary) {
        1
    } else {
        entries.len()
    }
}

/// The number that a numeric capsule holds.
pub open spec fn capsule_number(payload: Tree) -> Result<Out, Fault> {
    match payload {
        Tree::String(text) => match number_literal(text) {
            Ok(n) => Ok(Out::Value(Tree::Number(n))),
            Err(e) => Err(e),
        },
        other => mismatch(Expected::Str, other),
    }
}

/// The text that a raw capsule holds, kept as it is.
pub open spec fn capsule_raw(payload: Tree) -> Result<Out, Fault> {
    match payload {
        Tree::String(text) => Ok(Out::Value(Tree::String(text))),
        other => mismatch(Expected::Str, other),
    }
}

/// A probe looking at an object: a capsule if its first key says so, else
/// an object of probed values.
pub open spec fn probe_walk(entries: Seq<(Seq<char>, Tree)>, caps: Capabilities) -> Result<
    Out,
    Fault,
>
    decreases entries, entries.len() + 1,
{
    if entries.len() == 0 {
        Ok(Out::Value(Tree::Object(Seq::empty())))
    } else {
        match classify(entries[0].0, caps) {
            KeyKind::Number => capsule_number(entries[0].1),
            KeyKind::Raw => capsule_raw(entries[0].1),
            KeyKind::Ordinary => match probe_entries(entries, caps, 0, Seq::empty()) {
                Ok(rebuilt) => Ok(Out::Value(Tree::Object(rebuilt))),
                Err(e) => Err(e),
            },
        }
    }
}

/// A probe walking the entries of an ordinary object.
pub open spec fn probe_entries(
    entries: Seq<(Seq<char>, Tree)>,
    caps: Capabilities,
    i: nat,
    acc: Seq<(Seq<char>, Tree)>,
) -> Result<Seq<(Seq<char>, Tree)>, Fault>
    decreases entries, entries.len() - i,
{
    if i >= entries.len() {
        Ok(acc)
    } else {
        match decode_model(entries[i as int].1, Shape::Any, caps) {
            Ok(out) => probe_entries(
                entries,
                caps,
                i + 1,
                acc.push((entries[i as int].0, out->Value_0)),
            ),
            Err(e) => Err(e),
        }
    }
}

/// A byte target walking the elements of an array.
pub open spec fn bytes_model(items: Seq<Tree>, caps: Capabilities, i: nat, acc: Seq<u8>) -> Result<
    Seq<u8>,
    Fault,
>
    decreases items, items.len() - i,
{
    if i >= items.len() {
        Ok(acc)
    } else {
        match decode_model(items[i as int], Shape::Int(IntWidth::U8), caps) {
            Ok(out) => bytes_model(items, caps, i + 1, acc.push(out->UInt_0 as u8)),
            Err(e) => Err(e),
        }
    }
}

/// A sequence target walking the elements of an array: it takes every
/// element there is.
pub open spec fn elements_model(
    items: Seq<Tree>,
    elem: Shape,
    caps: Capabilities,
    i: nat,
    acc: Seq<Out>,
) -> Result<Seq<Out>, Fault>
    decreases items, items.len() - i,
{
    if i >= items.len() {
        Ok(acc)
    } else {
        match decode_model(items[i as int], elem, caps) {
            Ok(d) => elements_model(items, elem, caps, i + 1, acc.push(d)),
            Err(e) => Err(e),
        }
    }
}

/// A target of fixed arity walking the elements of an array: it takes one
/// element per shape and misses one that is not there. What it leaves
/// behind is for the engine to refuse.
pub open spec fn tuple_walk(
    items: Seq<Tree>,
    shapes: Seq<Shape>,
    caps: Capabilities,
    i: nat,
    acc: Seq<Out>,
) -> Result<Seq<Out>, Fault>
    decreases items, shapes.len() - i,
{
    if i >= shapes.len() {
        Ok(acc)
    } else if i >= items.len() {
        Err(Fault::MissingElement(i))
    } else {
        match decode_model(items[i as int], shapes[i as int], caps) {
            Ok(d) => tuple_walk(items, shapes, caps, i + 1, acc.push(d)),
            Err(e) => Err(e),
        }
    }
}

/// A map target walking the entries of an object.
pub open spec fn entries_model(
    entries: Seq<(Seq<char>, Tree)>,
    key: Shape,
    value: Shape,
    caps: Capabilities,
    i: nat,
    acc: Seq<(Out, Out)>,
) -> Result<Seq<(Out, Out)>, Fault>
    decreases entries, entries.len() - i,
{
    if i >= entries.len() {
        Ok(acc)
    } else {
        match key_model(entries[i as int].0, key, caps) {
            Err(e) => Err(e),
            Ok(k) => match decode_model(entries[i as int].1, value, caps) {
                Err(e) => Err(e),
                Ok(v) => entries_model(entries, key, value, caps, i + 1, acc.push((k, v))),
            },
        }
    }
}

/// A record target walking the entries of an object: each entry fills the
/// slot of the field it names, an entry that names no field is passed over,
/// and at the end every slot must be filled.
pub open spec fn fields_model(
    entries: Seq<(Seq<char>, Tree)>,
    fields: Seq<Field>,
    caps: Capabilities,
    i: nat,
    slots: Seq<Option<Out>>,
) -> Result<Seq<Out>, Fault>
    decreases entries, entries.len() - i,
{
    if i >= entries.len() {
        record_model(fields, slots, 0, Seq::empty())
    } else {
        match field_index(fields, entries[i as int].0) {
            None => fields_model(entries, fields, caps, i + 1, slots),
            Some(j) => if 0 <= j < slots.len() && slots[j] is Some {
                Err(Fault::DuplicateField(fields[j].name@))
            } else {
                match decode_model(entries[i as int].1, fields[j].shape, caps) {
                    Err(e) => Err(e),
                    Ok(d) => fields_model(entries, fields, caps, i + 1, slots.update(j, Some(d))),
                }
            },
        }
    }
}

/// The slots of a record before any entry has been read.
pub open spec fn empty_slots(n: nat) -> Seq<Option<Out>> {
    Seq::new(n, |j: int| None)
}

/// What a walk over the elements of an array hands back to the engine.
pub open spec fn visit_seq_model(items: Seq<Tree>, visitor: SeqVisitor, caps: Capabilities) -> Result<
    Out,
    Fault,
> {
    match visitor {
        SeqVisitor::Probe => match probe_items(items, caps, 0, Seq::empty()) {
            Ok(rebuilt) => Ok(Out::Value(Tree::Array(rebuilt))),
            Err(e) => Err(e),
        },
        SeqVisitor::Bytes => match bytes_model(items, caps, 0, Seq::empty()) {
            Ok(bytes) => Ok(Out::Bytes(bytes)),
            Err(e) => Err(e),
        },
        SeqVisitor::Elements(elem) => sequence(
            elements_model(items, *elem, caps, 0, Seq::empty()),
        ),
        SeqVisitor::Tuple(_) => sequence(
            tuple_walk(items, visitor.positional(), caps, 0, Seq::empty()),
        ),
        SeqVisitor::Fields(_) => sequence(
            tuple_walk(items, visitor.positional(), caps, 0, Seq::empty()),
        ),
    }
}

/// What decoding an array through a walk yields: the walk's result, unless
/// it left elements behind.
pub open spec fn visit_array_model(items: Seq<Tree>, visitor: SeqVisitor, caps: Capabilities) -> Result<
    Out,
    Fault,
> {
    exact(
        visit_seq_model(items, visitor, caps),
        visitor.consumed(items.len()),
        items.len(),
        Container::Array,
    )
}

/// What a walk over the entries of an object hands back to the engine.
pub open spec fn visit_map_model(
    entries: Seq<(Seq<char>, Tree)>,
    visitor: MapVisitor,
    caps: Capabilities,
) -> Result<Out, Fault> {
    match visitor {
        MapVisitor::Probe => probe_walk(entries, caps),
        MapVisitor::Entries(key, value) => match entries_model(
            entries,
            *key,
            *value,
            caps,
            0,
            Seq::empty(),
        ) {
            Ok(pairs) => Ok(Out::Mapping(pairs)),
            Err(e) => Err(e),
        },
        MapVisitor::Fields(fields) => sequence(
            fields_model(entries, fields@, caps, 0, empty_slots(fields@.len())),
        ),
    }
}

/// How many entries a walk takes from an object, where it succeeds.
pub open spec fn map_consumed(
    entries: Seq<(Seq<char>, Tree)>,
    visitor: MapVisitor,
    caps: Capabilities,
) -> nat {
    match visitor {
        MapVisitor::Probe => probe_consumed(entries, caps),
        _ => entries.len(),
    }
}

/// What decoding an object through a walk yields: the walk's result, unless
/// it left entries behind.
pub open spec fn visit_object_model(
    entries: Seq<(Seq<char>, Tree)>,
    visitor: MapVisitor,
    caps: Capabilities,
) -> Result<Out, Fault> {
    exact(
        visit_map_model(entries, visitor, caps),
        map_consumed(entries, visitor, caps),
        entries.len(),
        Container::Object,
    )
}

/// What a variant of the given kind makes of its encoding, with the payload
/// where one came with the name.
pub open spec fn variant_model(payload: Option<Tree>, kind: VariantKind, caps: Capabilities) -> Result<
    Out,
    Fault,
> {
    match payload {
        Some(t) => payload_model(t, kind, caps),
        None => bare_model(kind),
    }
}

/// The name and, if there is one, the payload of a tagged union as the
/// document gives it: a bare name, or an object with exactly one entry.
pub open spec fn enum_parts(tree: Tree) -> Result<(Seq<char>, Option<Tree>), Fault> {
    match tree {
        Tree::String(name) => Ok((name, None)),
        Tree::Object(entries) => if entries.len() != 1 {
            Err(Fault::InvalidVariantEncoding)
        } else {
            Ok((entries[0].0, Some(entries[0].1)))
        },
        _ => mismatch(Expected::Enum, tree),
    }
}

/// What a tagged union makes of a name and the payload that came with it,
/// if one did.
pub open spec fn enum_model(
    name: Seq<char>,
    payload: Option<Tree>,
    variants: Seq<Variant>,
    caps: Capabilities,
) -> Result<Out, Fault> {
    match variant_index(variants, name) {
        None => Err(Fault::UnknownVariant(name)),
        Some(j) => tagged(name, variant_model(payload, variants[j].kind, caps)),
    }
}

/// A probe always hands back a value.
pub proof fn lemma_probe_yields_value(tree: Tree, caps: Capabilities)
    ensures
        decode_model(tree, Shape::Any, caps) matches Ok(out) ==> out is Value,
{
    match tree {
        Tree::Object(entries) => {
            let walked = probe_walk(entries, caps);
            if entries.len() > 0 {
                match classify(entries[0].0, caps) {
                    KeyKind::Number => {
                        assert(walked == capsule_number(entries[0].1));
                    },
                    KeyKind::Raw => {
                        assert(walked == capsule_raw(entries[0].1));
                    },
                    KeyKind::Ordinary => {},
                }
            }
        },
        _ => {},
    }
}

} // verus!
