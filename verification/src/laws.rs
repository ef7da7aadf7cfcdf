//! Laws of the engine, proved over its mathematical model.

use crate::de::decode;
use crate::de_ref::decode_ref;
use crate::decoded::{outcome, Decoded, Out};
use crate::error::{Container, Error, Fault};
use crate::model::{
    classify, decode_model, entries_model, key_model, probe_consumed, probe_entries, probe_items,
    probe_walk, tuple_walk,
};
use crate::number::integer_out;
use crate::parse::{integer_text, lemma_key_integer_round_trip};
use crate::shape::{Capabilities, IntWidth, Shape};
use crate::value::{DType, Tree};
use vstd::prelude::*;

verus! {

/// No object within the value is a capsule: none has a first key that the
/// enabled capabilities reserve.
pub open spec fn capsule_free(tree: Tree, caps: Capabilities) -> bool
    decreases tree,
{
    match tree {
        Tree::Array(items) => forall|i: int|
            0 <= i < items.len() ==> capsule_free(#[trigger] items[i], caps),
        Tree::Object(entries) => (entries.len() == 0 || classify(entries[0].0, caps) is Ordinary)
            && forall|i: int|
            0 <= i < entries.len() ==> capsule_free((#[trigger] entries[i]).1, caps),
        _ => true,
    }
}

proof fn lemma_probe_items_rebuild(items: Seq<Tree>, caps: Capabilities, i: nat)
    requires
        i <= items.len(),
        forall|j: int| 0 <= j < items.len() ==> capsule_free(#[trigger] items[j], caps),
    ensures
        probe_items(items, caps, i, items.take(i as int)) == Ok::<Seq<Tree>, Fault>(items),
    decreases items, items.len() - i,
{
    if i >= items.len() {
        assert(items.take(i as int) =~= items);
    } else {
        law_probe_round_trip(items[i as int], caps);
        assert(items.take(i as int).push(items[i as int]) =~= items.take(i + 1 as int));
        lemma_probe_items_rebuild(items, caps, i + 1);
    }
}

proof fn lemma_probe_entries_rebuild(entries: Seq<(Seq<char>, Tree)>, caps: Capabilities, i: nat)
    requires
        i <= entries.len(),
        forall|j: int| 0 <= j < entries.len() ==> capsule_free((#[trigger] entries[j]).1, caps),
    ensures
        probe_entries(entries, caps, i, entries.take(i as int)) == Ok::<
            Seq<(Seq<char>, Tree)>,
            Fault,
        >(entries),
    decreases entries, entries.len() - i,
{
    if i >= entries.len() {
        assert(entries.take(i as int) =~= entries);
    } else {
        law_probe_round_trip(entries[i as int].1, caps);
        assert(entries.take(i as int).push((entries[i as int].0, entries[i as int].1))
            =~= entries.take(i + 1 as int));
        lemma_probe_entries_rebuild(entries, caps, i + 1);
    }
}

/// Round trip through a probe: a value that holds no capsule decodes to
/// itself. With every capability off no value holds a capsule.
pub proof fn law_probe_round_trip(tree: Tree, caps: Capabilities)
    requires
        capsule_free(tree, caps),
    ensures
        decode_model(tree, Shape::Any, caps) == Ok::<Out, Fault>(Out::Value(tree)),
    decreases tree, 0nat,
{
    match tree {
        Tree::Array(items) => {
            assert forall|j: int| 0 <= j < items.len() implies capsule_free(
                #[trigger] items[j],
                caps,
            ) by {}
            lemma_probe_items_rebuild(items, caps, 0);
            assert(items.take(0) =~= Seq::<Tree>::empty());
            assert(probe_items(items, caps, 0, Seq::empty()) == Ok::<Seq<Tree>, Fault>(items));
            assert(tree == Tree::Array(items));
            assert(decode_model(Tree::Array(items), Shape::Any, caps) == Ok::<Out, Fault>(
                Out::Value(Tree::Array(items)),
            ));
        },
        Tree::Object(entries) => {
            if entries.len() == 0 {
                assert(entries =~= Seq::empty());
                assert(probe_walk(entries, caps) == Ok::<Out, Fault>(Out::Value(tree)));
            } else {
                assert forall|j: int| 0 <= j < entries.len() implies capsule_free(
                    (#[trigger] entries[j]).1,
                    caps,
                ) by {}
                lemma_probe_entries_rebuild(entries, caps, 0);
                assert(entries.take(0) =~= Seq::<(Seq<char>, Tree)>::empty());
                assert(probe_consumed(entries, caps) == entries.len());
                assert(probe_entries(entries, caps, 0, Seq::empty()) == Ok::<
                    Seq<(Seq<char>, Tree)>,
                    Fault,
                >(entries));
                assert(probe_walk(entries, caps) == Ok::<Out, Fault>(Out::Value(tree)));
            }
        },
        _ => {},
    }
}

/// With every capability off, no value holds a capsule.
pub proof fn law_no_capsule_without_capability(tree: Tree, caps: Capabilities)
    requires
        !caps.arbitrary_precision,
        !caps.raw_capture,
    ensures
        capsule_free(tree, caps),
    decreases tree,
{
    match tree {
        Tree::Array(items) => {
            assert forall|i: int| 0 <= i < items.len() implies capsule_free(
                #[trigger] items[i],
                caps,
            ) by {
                law_no_capsule_without_capability(items[i], caps);
            }
        },
        Tree::Object(entries) => {
            assert forall|i: int| 0 <= i < entries.len() implies capsule_free(
                (#[trigger] entries[i]).1,
                caps,
            ) by {
                law_no_capsule_without_capability(entries[i].1, caps);
            }
        },
        _ => {},
    }
}

/// What the elements of a tuple decode to, one by one, while each of them
/// decodes.
pub open spec fn decoded_elements(
    items: Seq<Tree>,
    shapes: Seq<Shape>,
    caps: Capabilities,
    n: nat,
) -> Seq<Out> {
    Seq::new(n, |i: int| decode_model(items[i], shapes[i], caps)->Ok_0)
}

proof fn lemma_tuple_walk(items: Seq<Tree>, shapes: Seq<Shape>, caps: Capabilities, i: nat)
    requires
        i <= shapes.len(),
        i <= items.len(),
        forall|j: int|
            0 <= j < items.len() && j < shapes.len() ==> (#[trigger] decode_model(
                items[j],
                shapes[j],
                caps,
            )) is Ok,
    ensures
        tuple_walk(items, shapes, caps, i, decoded_elements(items, shapes, caps, i)) == if shapes.len()
            > items.len() {
            Err::<Seq<Out>, Fault>(Fault::MissingElement(items.len()))
        } else {
            Ok::<Seq<Out>, Fault>(decoded_elements(items, shapes, caps, shapes.len()))
        },
    decreases shapes.len() - i,
{
    if i >= shapes.len() {
    } else if i >= items.len() {
    } else {
        let d = decode_model(items[i as int], shapes[i as int], caps);
        assert(d is Ok);
        assert(decoded_elements(items, shapes, caps, i).push(d->Ok_0) =~= decoded_elements(
            items,
            shapes,
            caps,
            i + 1,
        ));
        lemma_tuple_walk(items, shapes, caps, i + 1);
    }
}

/// Exact consumption: an array of `N` elements against a tuple of arity `M`,
/// where every element that has a shape decodes against it, fails for
/// excess elements if `M < N`, fails for a missing element if `M > N`, and
/// succeeds with the decoded elements if `M == N`.
pub proof fn law_exact_consumption(items: Seq<Tree>, shapes: Vec<Shape>, caps: Capabilities)
    requires
        forall|j: int|
            0 <= j < items.len() && j < shapes@.len() ==> (#[trigger] decode_model(
                items[j],
                shapes@[j],
                caps,
            )) is Ok,
    ensures
        shapes@.len() < items.len() ==> decode_model(Tree::Array(items), Shape::Tuple(shapes), caps)
            == Err::<Out, Fault>(Fault::ExcessElements(items.len(), Container::Array)),
        shapes@.len() > items.len() ==> decode_model(Tree::Array(items), Shape::Tuple(shapes), caps)
            == Err::<Out, Fault>(Fault::MissingElement(items.len())),
        shapes@.len() == items.len() ==> decode_model(
            Tree::Array(items),
            Shape::Tuple(shapes),
            caps,
        ) == Ok::<Out, Fault>(
            Out::Sequence(decoded_elements(items, shapes@, caps, items.len())),
        ),
{
    lemma_tuple_walk(items, shapes@, caps, 0);
    assert(decoded_elements(items, shapes@, caps, 0) =~= Seq::<Out>::empty());
}

/// An object without entries decodes against any map target to a map
/// without entries.
pub proof fn law_empty_object_is_empty_map(key: Shape, value: Shape, caps: Capabilities)
    ensures
        decode_model(
            Tree::Object(Seq::empty()),
            Shape::Mapping(Box::new(key), Box::new(value)),
            caps,
        ) == Ok::<Out, Fault>(Out::Mapping(Seq::empty())),
{
    let entries = Seq::<(Seq<char>, Tree)>::empty();
    assert(entries_model(entries, key, value, caps, 0, Seq::empty()) == Ok::<
        Seq<(Out, Out)>,
        Fault,
    >(Seq::empty()));
}

/// Key coercion: the decimal literal of an integer within a width is a key
/// that an integer target of that width receives as the integer, and that
/// a string target receives as the text, unchanged.
pub proof fn law_key_coercion(v: int, width: IntWidth, caps: Capabilities)
    requires
        width.lower() <= v <= width.upper(),
        width.is_wide() ==> caps.wide_integers,
    ensures
        key_model(integer_text(v), Shape::Int(width), caps) == Ok::<Out, Fault>(
            integer_out(v, width),
        ),
        key_model(integer_text(v), Shape::Str, caps) == Ok::<Out, Fault>(
            Out::Str(integer_text(v)),
        ),
{
    lemma_key_integer_round_trip(v, width);
}

/// A string target receives every key as its text, unchanged.
pub proof fn law_text_key_unchanged(text: Seq<char>, caps: Capabilities)
    ensures
        key_model(text, Shape::Str, caps) == Ok::<Out, Fault>(Out::Str(text)),
{
}

/// The two traversals agree: whatever the consuming traversal returns for
/// a value and a shape, the borrowing traversal returns for the same value,
/// which it leaves as it is.
pub proof fn law_owned_borrowed_agree(
    value: DType,
    shape: Shape,
    caps: Capabilities,
    owned: Result<Decoded<'static>, Error>,
    borrowed: Result<Decoded<'static>, Error>,
)
    requires
        call_ensures(decode, (value, &shape, caps), owned),
        call_ensures(decode_ref, (&value, &shape, caps), borrowed),
    ensures
        outcome(owned) == outcome(borrowed),
{
}

} // verus!
