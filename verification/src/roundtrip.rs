//! Encoding a decoded value back into a document, and the law that
//! decoding undoes it.
//!
//! The encoding is the one the engine reads: a tagged union as a bare name
//! or a single-entry object, a record as an object of its fields, an
//! integer key as a decimal literal.

use crate::decoded::Out;
use crate::error::Fault;
use crate::laws::{capsule_free, law_probe_round_trip};
use crate::model::{
    bare_variant_model, bytes_model, decode_model, elements_model, empty_slots, entries_model,
    field_from, field_index, fields_model, key_model, payload_model, record_model, tuple_walk,
    variant_index,
};
use crate::number::integer_out;
use crate::parse::{integer_text, lemma_key_integer_round_trip};
use crate::shape::{Capabilities, Field, IntWidth, Shape, VariantKind};
use crate::value::{Number, Tree};
use vstd::prelude::*;
use vstd::utf8::{decode_utf8, decode_utf8_encode_utf8, valid_utf8};

verus! {

/// The integer that a decoded integer holds.
pub open spec fn integer_of(d: Out) -> int {
    match d {
        Out::Int(v) => v as int,
        Out::UInt(v) => v as int,
        _ => 0,
    }
}

/// The numeric literal of an integer that fits 64 bits.
pub open spec fn number_of(v: int) -> Number {
    if v >= 0 {
        Number::PosInt(v as u64)
    } else {
        Number::NegInt(v as i64)
    }
}

/// A decoded integer of the given width: of the right signedness, within
/// the width, and of a width that is enabled.
pub open spec fn conforms_integer(d: Out, width: IntWidth, caps: Capabilities) -> bool {
    &&& width.is_wide() ==> caps.wide_integers
    &&& d is Int || d is UInt
    &&& d == integer_out(integer_of(d), width)
    &&& width.lower() <= integer_of(d) <= width.upper()
}

/// The shape that a variant's payload is decoded against.
pub open spec fn kind_shape(kind: VariantKind) -> Shape {
    match kind {
        VariantKind::Unit => Shape::Unit,
        VariantKind::Newtype(shape) => shape,
        VariantKind::Tuple(shapes) => Shape::Tuple(shapes),
        VariantKind::Struct(fields) => Shape::Struct(fields),
    }
}

/// No two fields have the same name.
pub open spec fn distinct_names(fields: Seq<Field>) -> bool {
    forall|a: int, b: int|
        0 <= a < b < fields.len() ==> (#[trigger] fields[a]).name@ != (#[trigger] fields[b]).name@
}

/// The text that a decoded key is written as.
pub open spec fn encode_key(d: Out, shape: Shape) -> Seq<char>
    decreases shape,
{
    match shape {
        Shape::Int(_) => integer_text(integer_of(d)),
        Shape::Option(inner) => match d {
            Out::Present(x) => encode_key(*x, *inner),
            _ => Seq::empty(),
        },
        Shape::Bytes => match d {
            Out::Bytes(b) => decode_utf8(b),
            _ => Seq::empty(),
        },
        Shape::Any => match d {
            Out::Value(Tree::String(s)) => s,
            _ => Seq::empty(),
        },
        Shape::Enum(_) => match d {
            Out::Variant(name, _) => name,
            _ => Seq::empty(),
        },
        _ => match d {
            Out::Str(s) => s,
            _ => Seq::empty(),
        },
    }
}

/// Whether `d` is a key that a target of the given shape can have decoded.
pub open spec fn conforms_key(d: Out, shape: Shape, caps: Capabilities) -> bool
    decreases shape,
{
    match shape {
        Shape::Any => d is Value && d->Value_0 is String,
        Shape::Int(width) => conforms_integer(d, width, caps),
        Shape::Str => d is Str,
        Shape::Bytes => d is Bytes && valid_utf8(d->Bytes_0),
        Shape::Option(inner) => d is Present && conforms_key(*d->Present_0, *inner, caps),
        Shape::Enum(variants) => d is Variant && *d->Variant_1 == Out::Unit && variant_index(
            variants@,
            d->Variant_0,
        ) is Some && variants@[variant_index(variants@, d->Variant_0)->0].kind is Unit,
        Shape::Ignored => d == Out::Unit,
        _ => false,
    }
}

/// Reading back a key: the text of a key decodes to that key.
pub proof fn law_key_round_trip(d: Out, shape: Shape, caps: Capabilities)
    requires
        conforms_key(d, shape, caps),
    ensures
        key_model(encode_key(d, shape), shape, caps) == Ok::<Out, Fault>(d),
    decreases shape,
{
    match shape {
        Shape::Int(width) => {
            lemma_key_integer_round_trip(integer_of(d), width);
        },
        Shape::Option(inner) => {
            law_key_round_trip(*d->Present_0, *inner, caps);
        },
        Shape::Bytes => {
            decode_utf8_encode_utf8(d->Bytes_0);
        },
        Shape::Enum(variants) => {
            let name = d->Variant_0;
            assert(bare_variant_model(name, variants@) == Ok::<Out, Fault>(d));
        },
        _ => {},
    }
}

/// The elements that bytes are written as.
pub open spec fn encode_bytes(bytes: Seq<u8>) -> Seq<Tree> {
    Seq::new(bytes.len(), |i: int| Tree::Number(Number::PosInt(bytes[i] as u64)))
}

/// The first `n` elements of a sequence, written at one shape.
pub open spec fn encode_elements(xs: Seq<Out>, elem: Shape, n: nat) -> Seq<Tree>
    decreases xs, n,
{
    if n == 0 || n > xs.len() {
        Seq::empty()
    } else {
        encode_elements(xs, elem, (n - 1) as nat).push(encode(xs[n - 1], elem))
    }
}

/// The first `n` elements of a tuple, each written at its own shape.
pub open spec fn encode_tuple(xs: Seq<Out>, shapes: Seq<Shape>, n: nat) -> Seq<Tree>
    decreases xs, n,
{
    if n == 0 || n > xs.len() {
        Seq::empty()
    } else {
        encode_tuple(xs, shapes, (n - 1) as nat).push(encode(xs[n - 1], shapes[n - 1]))
    }
}

/// The first `n` entries of a map.
pub open spec fn encode_entries(pairs: Seq<(Out, Out)>, key: Shape, value: Shape, n: nat) -> Seq<
    (Seq<char>, Tree),
>
    decreases pairs, n,
{
    if n == 0 || n > pairs.len() {
        Seq::empty()
    } else {
        encode_entries(pairs, key, value, (n - 1) as nat).push(
            (encode_key(pairs[n - 1].0, key), encode(pairs[n - 1].1, value)),
        )
    }
}

/// The first `n` fields of a record, each under its name.
pub open spec fn encode_fields(xs: Seq<Out>, fields: Seq<Field>, n: nat) -> Seq<(Seq<char>, Tree)>
    decreases xs, n,
{
    if n == 0 || n > xs.len() {
        Seq::empty()
    } else {
        encode_fields(xs, fields, (n - 1) as nat).push(
            (fields[n - 1].name@, encode(xs[n - 1], fields[n - 1].shape)),
        )
    }
}

/// The document that a decoded value is written as, for a target of the
/// given shape.
pub open spec fn encode(d: Out, shape: Shape) -> Tree
    decreases d, 0nat,
{
    match shape {
        Shape::Any => match d {
            Out::Value(t) => t,
            _ => Tree::Null,
        },
        Shape::Unit => Tree::Null,
        Shape::Ignored => Tree::Null,
        Shape::Bool => match d {
            Out::Bool(b) => Tree::Boolean(b),
            _ => Tree::Null,
        },
        Shape::Int(_) => Tree::Number(number_of(integer_of(d))),
        Shape::Float(_) => match d {
            Out::Number(n) => Tree::Number(n),
            _ => Tree::Null,
        },
        Shape::Str => match d {
            Out::Str(s) => Tree::String(s),
            _ => Tree::Null,
        },
        Shape::Bytes => match d {
            Out::Bytes(b) => Tree::Array(encode_bytes(b)),
            _ => Tree::Null,
        },
        Shape::Option(inner) => match d {
            Out::Present(x) => encode(*x, *inner),
            _ => Tree::Null,
        },
        Shape::Sequence(elem) => match d {
            Out::Sequence(xs) => Tree::Array(encode_elements(xs, *elem, xs.len())),
            _ => Tree::Null,
        },
        Shape::Tuple(shapes) => match d {
            Out::Sequence(xs) => Tree::Array(encode_tuple(xs, shapes@, xs.len())),
            _ => Tree::Null,
        },
        Shape::Mapping(key, value) => match d {
            Out::Mapping(pairs) => Tree::Object(encode_entries(pairs, *key, *value, pairs.len())),
            _ => Tree::Null,
        },
        Shape::Struct(fields) => match d {
            Out::Sequence(xs) => Tree::Object(encode_fields(xs, fields@, xs.len())),
            _ => Tree::Null,
        },
        Shape::Enum(variants) => match d {
            Out::Variant(name, payload) => match variant_index(variants@, name) {
                Some(j) => match variants@[j].kind {
                    VariantKind::Unit => Tree::String(name),
                    kind => Tree::Object(seq![(name, encode(*payload, kind_shape(kind)))]),
                },
                None => Tree::Null,
            },
            _ => Tree::Null,
        },
    }
}

/// Whether `d` is a value that a target of the given shape can have
/// decoded, and that can be told from its encoding.
///
/// A 64-bit literal holds no integer beyond 64 bits, so a wider integer
/// does not conform; a present payload that is written as the null value
/// would be read as absent, so it does not conform either; and a record is
/// read by name, so its fields must differ in name.
pub open spec fn conforms(d: Out, shape: Shape, caps: Capabilities) -> bool
    decreases d, 0nat,
{
    match shape {
        Shape::Any => d is Value && capsule_free(d->Value_0, caps),
        Shape::Unit => d == Out::Unit,
        Shape::Ignored => d == Out::Unit,
        Shape::Bool => d is Bool,
        Shape::Int(width) => conforms_integer(d, width, caps) && i64::MIN <= integer_of(d)
            <= u64::MAX,
        Shape::Float(_) => d is Number,
        Shape::Str => d is Str,
        Shape::Bytes => d is Bytes,
        Shape::Option(inner) => d is Absent || (d is Present && conforms(
            *d->Present_0,
            *inner,
            caps,
        ) && !(encode(*d->Present_0, *inner) is Null)),
        Shape::Sequence(elem) => d is Sequence && forall|i: int|
            0 <= i < d->Sequence_0.len() ==> conforms(#[trigger] d->Sequence_0[i], *elem, caps),
        Shape::Tuple(shapes) => d is Sequence && d->Sequence_0.len() == shapes@.len() && forall|
            i: int,
        |
            0 <= i < d->Sequence_0.len() ==> conforms(
                #[trigger] d->Sequence_0[i],
                shapes@[i],
                caps,
            ),
        Shape::Mapping(key, value) => d is Mapping && forall|i: int|
            0 <= i < d->Mapping_0.len() ==> conforms_key(
                (#[trigger] d->Mapping_0[i]).0,
                *key,
                caps,
            ) && conforms(d->Mapping_0[i].1, *value, caps),
        Shape::Struct(fields) => d is Sequence && d->Sequence_0.len() == fields@.len()
            && distinct_names(fields@) && forall|i: int|
            0 <= i < d->Sequence_0.len() ==> conforms(
                #[trigger] d->Sequence_0[i],
                fields@[i].shape,
                caps,
            ),
        Shape::Enum(variants) => d is Variant && variant_index(variants@, d->Variant_0) is Some
            && match variants@[variant_index(variants@, d->Variant_0)->0].kind {
            VariantKind::Unit => *d->Variant_1 == Out::Unit,
            kind => conforms(*d->Variant_1, kind_shape(kind), caps),
        },
    }
}

proof fn lemma_encode_elements(xs: Seq<Out>, elem: Shape, n: nat)
    requires
        n <= xs.len(),
    ensures
        encode_elements(xs, elem, n).len() == n,
        forall|j: int| 0 <= j < n ==> encode_elements(xs, elem, n)[j] == encode(xs[j], elem),
    decreases n,
{
    if n > 0 {
        lemma_encode_elements(xs, elem, (n - 1) as nat);
        let a = encode_elements(xs, elem, n);
        let b = encode_elements(xs, elem, (n - 1) as nat);
        assert(a == b.push(encode(xs[n - 1], elem)));
    } else {
        assert(encode_elements(xs, elem, n).len() == 0);
    }
}

proof fn lemma_encode_tuple(xs: Seq<Out>, shapes: Seq<Shape>, n: nat)
    requires
        n <= xs.len(),
    ensures
        encode_tuple(xs, shapes, n).len() == n,
        forall|j: int| 0 <= j < n ==> encode_tuple(xs, shapes, n)[j] == encode(xs[j], shapes[j]),
    decreases n,
{
    if n > 0 {
        lemma_encode_tuple(xs, shapes, (n - 1) as nat);
        let a = encode_tuple(xs, shapes, n);
        let b = encode_tuple(xs, shapes, (n - 1) as nat);
        assert(a == b.push(encode(xs[n - 1], shapes[n - 1])));
    } else {
        assert(encode_tuple(xs, shapes, n).len() == 0);
    }
}

proof fn lemma_encode_entries(pairs: Seq<(Out, Out)>, key: Shape, value: Shape, n: nat)
    requires
        n <= pairs.len(),
    ensures
        encode_entries(pairs, key, value, n).len() == n,
        forall|j: int|
            0 <= j < n ==> encode_entries(pairs, key, value, n)[j] == (
                encode_key(pairs[j].0, key),
                encode(pairs[j].1, value),
            ),
    decreases n,
{
    if n > 0 {
        lemma_encode_entries(pairs, key, value, (n - 1) as nat);
        let a = encode_entries(pairs, key, value, n);
        let b = encode_entries(pairs, key, value, (n - 1) as nat);
        assert(a == b.push((encode_key(pairs[n - 1].0, key), encode(pairs[n - 1].1, value))));
    } else {
        assert(encode_entries(pairs, key, value, n).len() == 0);
    }
}

proof fn lemma_encode_fields(xs: Seq<Out>, fields: Seq<Field>, n: nat)
    requires
        n <= xs.len(),
    ensures
        encode_fields(xs, fields, n).len() == n,
        forall|j: int|
            0 <= j < n ==> encode_fields(xs, fields, n)[j] == (
                fields[j].name@,
                encode(xs[j], fields[j].shape),
            ),
    decreases n,
{
    if n > 0 {
        lemma_encode_fields(xs, fields, (n - 1) as nat);
        let a = encode_fields(xs, fields, n);
        let b = encode_fields(xs, fields, (n - 1) as nat);
        assert(a == b.push((fields[n - 1].name@, encode(xs[n - 1], fields[n - 1].shape))));
    } else {
        assert(encode_fields(xs, fields, n).len() == 0);
    }
}

proof fn lemma_bytes_back(bytes: Seq<u8>, caps: Capabilities, i: nat)
    requires
        i <= bytes.len(),
    ensures
        bytes_model(encode_bytes(bytes), caps, i, bytes.take(i as int)) == Ok::<Seq<u8>, Fault>(
            bytes,
        ),
    decreases bytes.len() - i,
{
    let items = encode_bytes(bytes);
    if i >= bytes.len() {
        assert(bytes.take(i as int) =~= bytes);
    } else {
        let n = Number::PosInt(bytes[i as int] as u64);
        assert(items[i as int] == Tree::Number(n));
        assert(n.narrow_model(IntWidth::U8, caps) == Ok::<Out, Fault>(
            Out::UInt(bytes[i as int] as u128),
        ));
        assert(decode_model(items[i as int], Shape::Int(IntWidth::U8), caps) == Ok::<Out, Fault>(
            Out::UInt(bytes[i as int] as u128),
        ));
        assert(bytes.take(i as int).push(bytes[i as int]) =~= bytes.take(i + 1 as int));
        lemma_bytes_back(bytes, caps, i + 1);
    }
}

proof fn lemma_elements_back(xs: Seq<Out>, elem: Shape, caps: Capabilities, i: nat)
    requires
        i <= xs.len(),
        forall|j: int| 0 <= j < xs.len() ==> conforms(#[trigger] xs[j], elem, caps),
    ensures
        elements_model(encode_elements(xs, elem, xs.len()), elem, caps, i, xs.take(i as int))
            == Ok::<Seq<Out>, Fault>(xs),
    decreases xs, xs.len() - i,
{
    let items = encode_elements(xs, elem, xs.len());
    lemma_encode_elements(xs, elem, xs.len());
    if i >= xs.len() {
        assert(xs.take(i as int) =~= xs);
    } else {
        law_round_trip(xs[i as int], elem, caps);
        assert(items[i as int] == encode(xs[i as int], elem));
        assert(xs.take(i as int).push(xs[i as int]) =~= xs.take(i + 1 as int));
        lemma_elements_back(xs, elem, caps, i + 1);
    }
}

proof fn lemma_tuple_back(xs: Seq<Out>, shapes: Seq<Shape>, caps: Capabilities, i: nat)
    requires
        i <= xs.len(),
        xs.len() == shapes.len(),
        forall|j: int| 0 <= j < xs.len() ==> conforms(#[trigger] xs[j], shapes[j], caps),
    ensures
        tuple_walk(encode_tuple(xs, shapes, xs.len()), shapes, caps, i, xs.take(i as int)) == Ok::<
            Seq<Out>,
            Fault,
        >(xs),
    decreases xs, xs.len() - i,
{
    let items = encode_tuple(xs, shapes, xs.len());
    lemma_encode_tuple(xs, shapes, xs.len());
    if i >= xs.len() {
        assert(xs.take(i as int) =~= xs);
    } else {
        law_round_trip(xs[i as int], shapes[i as int], caps);
        assert(items[i as int] == encode(xs[i as int], shapes[i as int]));
        assert(xs.take(i as int).push(xs[i as int]) =~= xs.take(i + 1 as int));
        lemma_tuple_back(xs, shapes, caps, i + 1);
    }
}

proof fn lemma_entries_back(
    pairs: Seq<(Out, Out)>,
    key: Shape,
    value: Shape,
    caps: Capabilities,
    i: nat,
)
    requires
        i <= pairs.len(),
        forall|j: int|
            0 <= j < pairs.len() ==> conforms_key((#[trigger] pairs[j]).0, key, caps) && conforms(
                pairs[j].1,
                value,
                caps,
            ),
    ensures
        entries_model(
            encode_entries(pairs, key, value, pairs.len()),
            key,
            value,
            caps,
            i,
            pairs.take(i as int),
        ) == Ok::<Seq<(Out, Out)>, Fault>(pairs),
    decreases pairs, pairs.len() - i,
{
    let entries = encode_entries(pairs, key, value, pairs.len());
    lemma_encode_entries(pairs, key, value, pairs.len());
    if i >= pairs.len() {
        assert(pairs.take(i as int) =~= pairs);
    } else {
        let pair = pairs[i as int];
        law_key_round_trip(pair.0, key, caps);
        law_round_trip(pair.1, value, caps);
        assert(entries[i as int] == (encode_key(pair.0, key), encode(pair.1, value)));
        assert(pairs.take(i as int).push((pair.0, pair.1)) =~= pairs.take(i + 1 as int));
        lemma_entries_back(pairs, key, value, caps, i + 1);
    }
}

proof fn lemma_field_found(fields: Seq<Field>, i: int, from: nat)
    requires
        0 <= from <= i < fields.len(),
        distinct_names(fields),
    ensures
        field_from(fields, fields[i].name@, from) == Some(i),
    decreases i - from,
{
    if from < i {
        assert(fields[from as int].name@ != fields[i].name@);
        lemma_field_found(fields, i, from + 1);
    }
}

/// The slots of a record after its first `i` fields have been read.
pub open spec fn slots_filled(xs: Seq<Out>, i: nat) -> Seq<Option<Out>> {
    Seq::new(
        xs.len(),
        |j: int|
            if j < i {
                Some(xs[j])
            } else {
                None
            },
    )
}

proof fn lemma_record_back(fields: Seq<Field>, xs: Seq<Out>, j: nat)
    requires
        j <= xs.len(),
        xs.len() == fields.len(),
    ensures
        record_model(fields, slots_filled(xs, xs.len()), j, xs.take(j as int)) == Ok::<
            Seq<Out>,
            Fault,
        >(xs),
    decreases xs.len() - j,
{
    let slots = slots_filled(xs, xs.len());
    if j >= xs.len() {
        assert(xs.take(j as int) =~= xs);
    } else {
        assert(slots[j as int] == Some(xs[j as int]));
        assert(xs.take(j as int).push(xs[j as int]) =~= xs.take(j + 1 as int));
        lemma_record_back(fields, xs, j + 1);
    }
}

proof fn lemma_fields_back(xs: Seq<Out>, fields: Seq<Field>, caps: Capabilities, i: nat)
    requires
        i <= xs.len(),
        xs.len() == fields.len(),
        distinct_names(fields),
        forall|j: int| 0 <= j < xs.len() ==> conforms(#[trigger] xs[j], fields[j].shape, caps),
    ensures
        fields_model(
            encode_fields(xs, fields, xs.len()),
            fields,
            caps,
            i,
            slots_filled(xs, i),
        ) == Ok::<Seq<Out>, Fault>(xs),
    decreases xs, xs.len() - i,
{
    let entries = encode_fields(xs, fields, xs.len());
    lemma_encode_fields(xs, fields, xs.len());
    if i >= xs.len() {
        lemma_record_back(fields, xs, 0);
        assert(xs.take(0) =~= Seq::<Out>::empty());
        assert(slots_filled(xs, i) =~= slots_filled(xs, xs.len()));
    } else {
        let slots = slots_filled(xs, i);
        lemma_field_found(fields, i as int, 0);
        assert(entries[i as int] == (
            fields[i as int].name@,
            encode(xs[i as int], fields[i as int].shape),
        ));
        assert(field_index(fields, entries[i as int].0) == Some(i as int));
        assert(slots[i as int] is None);
        law_round_trip(xs[i as int], fields[i as int].shape, caps);
        assert(slots.update(i as int, Some(xs[i as int])) =~= slots_filled(xs, i + 1));
        lemma_fields_back(xs, fields, caps, i + 1);
    }
}

/// Round trip: a value that conforms to a shape, written as a document and
/// decoded against that shape, comes back as it was.
pub proof fn law_round_trip(d: Out, shape: Shape, caps: Capabilities)
    requires
        conforms(d, shape, caps),
    ensures
        decode_model(encode(d, shape), shape, caps) == Ok::<Out, Fault>(d),
    decreases d, 0nat,
{
    match shape {
        Shape::Any => {
            law_probe_round_trip(d->Value_0, caps);
        },
        Shape::Int(width) => {
            let v = integer_of(d);
            let n = number_of(v);
            assert(n.integer() == Some(v));
            assert(n.narrow_model(width, caps) == Ok::<Out, Fault>(d));
        },
        Shape::Bytes => {
            let b = d->Bytes_0;
            lemma_bytes_back(b, caps, 0);
            assert(b.take(0) =~= Seq::<u8>::empty());
        },
        Shape::Option(inner) => {
            if d is Present {
                law_round_trip(*d->Present_0, *inner, caps);
            }
        },
        Shape::Sequence(elem) => {
            let xs = d->Sequence_0;
            lemma_elements_back(xs, *elem, caps, 0);
            assert(xs.take(0) =~= Seq::<Out>::empty());
        },
        Shape::Tuple(shapes) => {
            let xs = d->Sequence_0;
            lemma_tuple_back(xs, shapes@, caps, 0);
            lemma_encode_tuple(xs, shapes@, xs.len());
            assert(xs.take(0) =~= Seq::<Out>::empty());
        },
        Shape::Mapping(key, value) => {
            let pairs = d->Mapping_0;
            lemma_entries_back(pairs, *key, *value, caps, 0);
            assert(pairs.take(0) =~= Seq::<(Out, Out)>::empty());
        },
        Shape::Struct(fields) => {
            let xs = d->Sequence_0;
            lemma_fields_back(xs, fields@, caps, 0);
            assert(slots_filled(xs, 0) =~= empty_slots(fields@.len()));
        },
        Shape::Enum(variants) => {
            let name = d->Variant_0;
            let payload = *d->Variant_1;
            let j = variant_index(variants@, name)->0;
            let kind = variants@[j].kind;
            match kind {
                VariantKind::Unit => {
                    assert(bare_variant_model(name, variants@) == Ok::<Out, Fault>(d));
                },
                VariantKind::Newtype(inner) => {
                    law_round_trip(payload, inner, caps);
                    let entries = seq![(name, encode(payload, inner))];
                    assert(encode(d, shape) == Tree::Object(entries));
                    assert(payload_model(entries[0].1, kind, caps) == Ok::<Out, Fault>(payload));
                },
                VariantKind::Tuple(shapes) => {
                    assert(conforms(payload, Shape::Tuple(shapes), caps));
                    assert(payload is Sequence);
                    let xs = payload->Sequence_0;
                    assert(decreases_to!(d => payload));
                    assert(decreases_to!(payload => xs));
                    lemma_tuple_back(xs, shapes@, caps, 0);
                    lemma_encode_tuple(xs, shapes@, xs.len());
                    assert(xs.take(0) =~= Seq::<Out>::empty());
                    let entries = seq![(name, encode(payload, Shape::Tuple(shapes)))];
                    assert(encode(d, shape) == Tree::Object(entries));
                    assert(payload_model(entries[0].1, kind, caps) == Ok::<Out, Fault>(payload));
                },
                VariantKind::Struct(fields) => {
                    assert(conforms(payload, Shape::Struct(fields), caps));
                    assert(payload is Sequence);
                    let xs = payload->Sequence_0;
                    assert(decreases_to!(d => payload));
                    assert(decreases_to!(payload => xs));
                    lemma_fields_back(xs, fields@, caps, 0);
                    assert(slots_filled(xs, 0) =~= empty_slots(fields@.len()));
                    let entries = seq![(name, encode(payload, Shape::Struct(fields)))];
                    assert(encode(d, shape) == Tree::Object(entries));
                    assert(payload_model(entries[0].1, kind, caps) == Ok::<Out, Fault>(payload));
                },
            }
        },
        _ => {},
    }
}

} // verus!
