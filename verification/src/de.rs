//! The consuming traversal.
//!
//! Every value is visited at most once and moved into the narrower call
//! that decodes it. The cursors remove what they hand out.

use crate::decoded::{
    lemma_mapping_view, lemma_sequence_view, out_pairs, outcome, outs, Decoded, Out,
};
use crate::error::{Container, Error, Expected, Fault, Found};
use crate::key::{find_field, find_variant, KeyClass, KeyClassifier, MapKeyDeserializer};
use crate::model::{
    bytes_model, classify, decode_model, elements_model, empty_slots, entries_model, enum_model,
    enum_parts, fields_model, key_model, lemma_probe_yields_value, map_consumed, probe_consumed,
    probe_entries, probe_items, probe_walk, record_model, tuple_walk, variant_index, variant_model,
    visit_array_model, visit_map_model, visit_object_model, visit_seq_model,
};
use crate::shape::{
    Capabilities, Field, FloatWidth, IntWidth, MapVisitor, SeqVisitor, Shape, Variant,
    VariantKind,
};
use crate::text::{cow_into_owned, cow_str, reversed};
use crate::walk::lemma_skip_step;
use crate::value::{entry_trees, lemma_array_view, lemma_object_view, trees, DType, Number, Tree};
use std::borrow::Cow;
use vstd::prelude::*;
use vstd::string::*;

verus! {

/// A cursor over the elements of an array that it owns.
pub struct SeqDeserializer {
    /// The elements not yet handed out, the next one last.
    stack: Vec<DType>,
}

impl SeqDeserializer {
    /// What the elements not yet handed out stand for, the next one first.
    pub closed spec fn remaining(&self) -> Seq<Tree> {
        Seq::new(self.stack@.len(), |i: int| self.stack@[self.stack@.len() - 1 - i]@)
    }

    /// A cursor that stands before the first element of `vec`.
    pub fn new(vec: Vec<DType>) -> (de: SeqDeserializer)
        ensures
            de.remaining() == trees(vec@),
    {
        let ghost all = vec@;
        let de = SeqDeserializer { stack: reversed(vec) };
        assert(de.remaining() =~= trees(all));
        de
    }

    /// The number of elements not yet handed out. It is always known.
    pub fn size_hint(&self) -> (hint: Option<usize>)
        ensures
            hint == Some(self.remaining().len() as usize),
    {
        Some(self.stack.len())
    }

    /// Hands out the next element as it is, or reports that none is left.
    pub fn next_value(&mut self) -> (r: Option<DType>)
        ensures
            old(self).remaining().len() == 0 ==> r is None && final(self).remaining() == old(
                self,
            ).remaining(),
            old(self).remaining().len() > 0 ==> final(self).remaining() == old(
                self,
            ).remaining().drop_first() && (r matches Some(v) && v@ == old(self).remaining()[0]),
    {
        let ghost before = self.remaining();
        let r = self.stack.pop();
        proof {
            if before.len() > 0 {
                assert(self.remaining() =~= before.drop_first());
                assert(r->0@ == before[0]);
            }
        }
        r
    }

    /// Whether every element was handed out; if not, the array of `len`
    /// elements was not drained.
    pub fn end(&self, len: usize) -> (r: Result<(), Error>)
        ensures
            match r {
                Ok(_) => self.remaining().len() == 0,
                Err(e) => self.remaining().len() > 0 && e@ == Fault::ExcessElements(
                    len as nat,
                    Container::Array,
                ),
            },
    {
        if self.stack.len() == 0 {
            Ok(())
        } else {
            Err(Error::ExcessElements(len, Container::Array))
        }
    }

    /// Hands out the next element, decoded against `seed`, or reports that
    /// none is left. The element is gone from the cursor either way.
    pub fn next_element_seed(&mut self, seed: &Shape, caps: Capabilities) -> (r: Result<
        Option<Decoded<'static>>,
        Error,
    >)
        ensures
            old(self).remaining().len() == 0 ==> (r matches Ok(None)) && final(self).remaining()
                == old(self).remaining(),
            old(self).remaining().len() > 0 ==> final(self).remaining() == old(
                self,
            ).remaining().drop_first() && match r {
                Ok(Some(d)) => decode_model(old(self).remaining()[0], *seed, caps) == Ok::<
                    Out,
                    Fault,
                >(d@),
                Ok(None) => false,
                Err(e) => decode_model(old(self).remaining()[0], *seed, caps) == Err::<
                    Out,
                    Fault,
                >(e@),
            },
        decreases 1int, old(self).remaining(), Shape::Any, 1nat,
    {
        match self.next_value() {
            Some(value) => match decode(value, seed, caps) {
                Ok(d) => Ok(Some(d)),
                Err(e) => Err(e),
            },
            None => Ok(None),
        }
    }
}

/// A cursor over the entries of an object that it owns. A key is read
/// first, then the value that belongs to it.
pub struct MapDeserializer {
    /// The entries not yet handed out, the next one last.
    stack: Vec<(String, DType)>,
    /// The value that belongs to the key read last, until it is asked for.
    value: Option<DType>,
    /// The text of the key read last.
    key: Ghost<Seq<char>>,
}

impl MapDeserializer {
    /// What the entries whose key was not yet read stand for, the next one
    /// first.
    pub closed spec fn remaining(&self) -> Seq<(Seq<char>, Tree)> {
        Seq::new(
            self.stack@.len(),
            |i: int|
                (
                    self.stack@[self.stack@.len() - 1 - i].0@,
                    self.stack@[self.stack@.len() - 1 - i].1@,
                ),
        )
    }

    /// What the value stands for whose key was read and which was not yet
    /// asked for.
    pub closed spec fn pending(&self) -> Option<Tree> {
        match self.value {
            Some(v) => Some(v@),
            None => None,
        }
    }

    /// Every entry whose value can still be handed out.
    pub closed spec fn unread(&self) -> Seq<(Seq<char>, Tree)> {
        match self.pending() {
            Some(t) => seq![(self.key@, t)] + self.remaining(),
            None => self.remaining(),
        }
    }

    /// A cursor that stands before the first entry of `map`.
    pub fn new(map: Vec<(String, DType)>) -> (de: MapDeserializer)
        ensures
            de.remaining() == entry_trees(map@),
            de.pending() is None,
    {
        let ghost all = map@;
        let de = MapDeserializer { stack: reversed(map), value: None, key: Ghost(Seq::empty()) };
        assert(de.remaining() =~= entry_trees(all));
        de
    }

    /// The number of entries whose key was not yet read. It is always
    /// known.
    pub fn size_hint(&self) -> (hint: Option<usize>)
        ensures
            hint == Some(self.remaining().len() as usize),
    {
        Some(self.stack.len())
    }

    /// Reads the next key as it is, and keeps its value for the call that
    /// asks for it; or reports that no entry is left.
    pub fn next_key(&mut self) -> (r: Option<String>)
        ensures
            old(self).remaining().len() == 0 ==> r is None && final(self).remaining() == old(
                self,
            ).remaining() && final(self).pending() == old(self).pending(),
            old(self).remaining().len() > 0 ==> final(self).remaining() == old(
                self,
            ).remaining().drop_first() && final(self).pending() == Some(
                old(self).remaining()[0].1,
            ) && final(self).unread() == old(self).remaining() && (r matches Some(key) && key@
                == old(self).remaining()[0].0),
    {
        let ghost before = self.remaining();
        match self.stack.pop() {
            Some((key, value)) => {
                assert(self.remaining() =~= before.drop_first());
                assert(key@ == before[0].0);
                assert(value@ == before[0].1);
                self.value = Some(value);
                self.key = Ghost(key@);
                assert(self.unread() =~= before);
                Some(key)
            },
            None => None,
        }
    }

    /// Hands out, as it is, the value that belongs to the key read last, if
    /// it was not yet asked for.
    pub fn take_value(&mut self) -> (r: Option<DType>)
        ensures
            final(self).remaining() == old(self).remaining(),
            final(self).pending() is None,
            match old(self).pending() {
                Some(t) => r matches Some(v) && v@ == t,
                None => r is None,
            },
    {
        self.value.take()
    }

    /// Whether the key of every entry was read; if not, the object of `len`
    /// entries was not drained.
    pub fn end(&self, len: usize) -> (r: Result<(), Error>)
        ensures
            match r {
                Ok(_) => self.remaining().len() == 0,
                Err(e) => self.remaining().len() > 0 && e@ == Fault::ExcessElements(
                    len as nat,
                    Container::Object,
                ),
            },
    {
        if self.stack.len() == 0 {
            Ok(())
        } else {
            Err(Error::ExcessElements(len, Container::Object))
        }
    }

    /// Reads the next key, decoded against `seed`, and keeps its value for
    /// the call that asks for it; or reports that no entry is left. Where
    /// the key does not decode, its value is given up with it: no value is
    /// handed out for a key that failed.
    pub fn next_key_seed(&mut self, seed: &Shape, caps: Capabilities) -> (r: Result<
        Option<Decoded<'static>>,
        Error,
    >)
        ensures
            old(self).remaining().len() == 0 ==> (r matches Ok(None)) && final(self).remaining()
                == old(self).remaining() && final(self).pending() == old(self).pending(),
            old(self).remaining().len() > 0 ==> final(self).remaining() == old(
                self,
            ).remaining().drop_first() && match r {
                Ok(Some(k)) => key_model(old(self).remaining()[0].0, *seed, caps) == Ok::<
                    Out,
                    Fault,
                >(k@) && final(self).pending() == Some(old(self).remaining()[0].1)
                    && final(self).unread() == old(self).remaining(),
                Ok(None) => false,
                Err(e) => key_model(old(self).remaining()[0].0, *seed, caps) == Err::<
                    Out,
                    Fault,
                >(e@) && final(self).pending() is None,
            },
    {
        match self.next_key() {
            Some(key) => {
                let key_de = MapKeyDeserializer { key: Cow::Owned(key) };
                match key_de.deserialize(seed, caps) {
                    Ok(k) => Ok(Some(k)),
                    Err(e) => {
                        let _ = self.take_value();
                        Err(e)
                    },
                }
            },
            None => Ok(None),
        }
    }

    /// Reads the next key for a probe, which looks at it for a capsule
    /// token, and keeps its value for the call that asks for it; or reports
    /// that no entry is left.
    pub fn next_key_classified(&mut self, caps: Capabilities) -> (r: Option<KeyClass>)
        ensures
            old(self).remaining().len() == 0 ==> r is None && final(self).remaining() == old(
                self,
            ).remaining() && final(self).pending() == old(self).pending(),
            old(self).remaining().len() > 0 ==> final(self).remaining() == old(
                self,
            ).remaining().drop_first() && final(self).pending() == Some(
                old(self).remaining()[0].1,
            ) && final(self).unread() == old(self).remaining() && match r {
                Some(class) => class.kind() == classify(old(self).remaining()[0].0, caps) && (
                class matches KeyClass::Ordinary(key) ==> key@ == old(self).remaining()[0].0),
                None => false,
            },
    {
        match self.next_key() {
            Some(key) => Some(KeyClassifier { caps }.visit_string(key)),
            None => None,
        }
    }

    /// Hands out the value that belongs to the key read last, decoded
    /// against `seed`. Without such a value the call fails.
    pub fn next_value_seed(&mut self, seed: &Shape, caps: Capabilities) -> (r: Result<
        Decoded<'static>,
        Error,
    >)
        ensures
            final(self).remaining() == old(self).remaining(),
            final(self).pending() is None,
            match old(self).pending() {
                Some(t) => outcome(r) == decode_model(t, *seed, caps),
                None => outcome(r) == Err::<Out, Fault>(Fault::MissingValue),
            },
        decreases 1int, old(self).unread(), Shape::Any, 1nat,
    {
        match self.take_value() {
            Some(value) => {
                assert(old(self).unread()[0].1 == value@);
                decode(value, seed, caps)
            },
            None => Err(Error::MissingValue),
        }
    }
}

/// A probe walking an array: it rebuilds every element.
fn visit_probe_items(de: &mut SeqDeserializer, caps: Capabilities) -> (r: Result<
    Vec<DType>,
    Error,
>)
    ensures
        match r {
            Ok(out) => probe_items(old(de).remaining(), caps, 0, Seq::empty()) == Ok::<
                Seq<Tree>,
                Fault,
            >(trees(out@)) && final(de).remaining().len() == 0,
            Err(e) => probe_items(old(de).remaining(), caps, 0, Seq::empty()) == Err::<
                Seq<Tree>,
                Fault,
            >(e@),
        },
    decreases 1int, old(de).remaining(), Shape::Any, 2nat,
{
    let ghost all = de.remaining();
    let mut out: Vec<DType> = Vec::new();
    assert(trees(out@) =~= Seq::empty());
    loop
        invariant
            out@.len() <= all.len(),
            de.remaining() == all.skip(out@.len() as int),
            all == old(de).remaining(),
            probe_items(all, caps, out@.len() as nat, trees(out@)) == probe_items(
                all,
                caps,
                0,
                Seq::empty(),
            ),
        decreases all.len() - out@.len(),
    {
        let ghost i = out@.len() as int;
        let ghost acc = trees(out@);
        proof {
            lemma_skip_step(all, i);
            if i < all.len() {
                lemma_probe_yields_value(all[i], caps);
            }
        }
        match de.next_element_seed(&Shape::Any, caps) {
            Ok(Some(probed)) => {
                let v = probed.into_value();
                out.push(v);
                assert(trees(out@) =~= acc.push(v@));
            },
            Ok(None) => {
                return Ok(out);
            },
            Err(e) => {
                return Err(e);
            },
        }
    }
}

/// A byte target walking an array: it takes every element as a byte.
fn visit_bytes(de: &mut SeqDeserializer, caps: Capabilities) -> (r: Result<Vec<u8>, Error>)
    ensures
        match r {
            Ok(out) => bytes_model(old(de).remaining(), caps, 0, Seq::empty()) == Ok::<
                Seq<u8>,
                Fault,
            >(out@) && final(de).remaining().len() == 0,
            Err(e) => bytes_model(old(de).remaining(), caps, 0, Seq::empty()) == Err::<
                Seq<u8>,
                Fault,
            >(e@),
        },
    decreases 1int, old(de).remaining(), Shape::Any, 2nat,
{
    let ghost all = de.remaining();
    let mut out: Vec<u8> = Vec::new();
    loop
        invariant
            out@.len() <= all.len(),
            de.remaining() == all.skip(out@.len() as int),
            all == old(de).remaining(),
            bytes_model(all, caps, out@.len() as nat, out@) == bytes_model(
                all,
                caps,
                0,
                Seq::empty(),
            ),
        decreases all.len() - out@.len(),
    {
        let ghost i = out@.len() as int;
        let ghost acc = out@;
        proof {
            lemma_skip_step(all, i);
        }
        match de.next_element_seed(&Shape::Int(IntWidth::U8), caps) {
            Ok(Some(d)) => {
                out.push(d.into_byte());
            },
            Ok(None) => {
                return Ok(out);
            },
            Err(e) => {
                return Err(e);
            },
        }
    }
}

/// A sequence target walking an array: it takes every element at one
/// shape.
fn visit_elements(de: &mut SeqDeserializer, elem: &Shape, caps: Capabilities) -> (r: Result<
    Vec<Decoded<'static>>,
    Error,
>)
    ensures
        match r {
            Ok(out) => elements_model(old(de).remaining(), *elem, caps, 0, Seq::empty()) == Ok::<
                Seq<Out>,
                Fault,
            >(outs(out@)) && final(de).remaining().len() == 0,
            Err(e) => elements_model(old(de).remaining(), *elem, caps, 0, Seq::empty()) == Err::<
                Seq<Out>,
                Fault,
            >(e@),
        },
    decreases 1int, old(de).remaining(), Shape::Any, 2nat,
{
    let ghost all = de.remaining();
    let mut out: Vec<Decoded<'static>> = Vec::new();
    assert(outs(out@) =~= Seq::empty());
    loop
        invariant
            out@.len() <= all.len(),
            de.remaining() == all.skip(out@.len() as int),
            all == old(de).remaining(),
            elements_model(all, *elem, caps, out@.len() as nat, outs(out@)) == elements_model(
                all,
                *elem,
                caps,
                0,
                Seq::empty(),
            ),
        decreases all.len() - out@.len(),
    {
        let ghost i = out@.len() as int;
        let ghost acc = outs(out@);
        proof {
            lemma_skip_step(all, i);
        }
        match de.next_element_seed(elem, caps) {
            Ok(Some(d)) => {
                out.push(d);
                assert(outs(out@) =~= acc.push(d@));
            },
            Ok(None) => {
                return Ok(out);
            },
            Err(e) => {
                return Err(e);
            },
        }
    }
}

/// The shape that a target of fixed arity expects at position `i`.
pub(crate) fn positional_shape<'a>(visitor: SeqVisitor<'a>, i: usize) -> (shape: &'a Shape)
    requires
        i < visitor.positional().len(),
    ensures
        *shape == visitor.positional()[i as int],
{
    match visitor {
        SeqVisitor::Tuple(shapes) => &shapes[i],
        SeqVisitor::Fields(fields) => &fields[i].shape,
        _ => &Shape::Any,
    }
}

/// The number of elements that a target of fixed arity expects.
pub(crate) fn arity(visitor: SeqVisitor<'_>) -> (n: usize)
    ensures
        n == visitor.positional().len(),
{
    match visitor {
        SeqVisitor::Tuple(shapes) => shapes.len(),
        SeqVisitor::Fields(fields) => fields.len(),
        _ => 0,
    }
}

/// A target of fixed arity walking an array: it takes one element per
/// shape and fails where one is not there.
fn visit_positional(de: &mut SeqDeserializer, visitor: SeqVisitor<'_>, caps: Capabilities) -> (r:
    Result<Vec<Decoded<'static>>, Error>)
    ensures
        match r {
            Ok(out) => tuple_walk(
                old(de).remaining(),
                visitor.positional(),
                caps,
                0,
                Seq::empty(),
            ) == Ok::<Seq<Out>, Fault>(outs(out@)) && final(de).remaining().len()
                + visitor.positional().len() == old(de).remaining().len(),
            Err(e) => tuple_walk(old(de).remaining(), visitor.positional(), caps, 0, Seq::empty())
                == Err::<Seq<Out>, Fault>(e@),
        },
    decreases 1int, old(de).remaining(), Shape::Any, 2nat,
{
    let ghost all = de.remaining();
    let ghost shapes = visitor.positional();
    let n: usize = arity(visitor);
    let mut out: Vec<Decoded<'static>> = Vec::new();
    assert(outs(out@) =~= Seq::empty());
    while out.len() < n
        invariant
            n == shapes.len(),
            shapes == visitor.positional(),
            out@.len() <= n,
            out@.len() <= all.len(),
            de.remaining() == all.skip(out@.len() as int),
            all == old(de).remaining(),
            tuple_walk(all, shapes, caps, out@.len() as nat, outs(out@)) == tuple_walk(
                all,
                shapes,
                caps,
                0,
                Seq::empty(),
            ),
        decreases n - out@.len(),
    {
        let ghost i = out@.len() as int;
        let ghost acc = outs(out@);
        proof {
            lemma_skip_step(all, i);
        }
        let position: usize = out.len();
        let shape = positional_shape(visitor, position);
        match de.next_element_seed(shape, caps) {
            Ok(Some(d)) => {
                out.push(d);
                assert(outs(out@) =~= acc.push(d@));
            },
            Ok(None) => {
                return Err(Error::MissingElement(position));
            },
            Err(e) => {
                return Err(e);
            },
        }
    }
    Ok(out)
}

/// Walks the elements of an array on the target's behalf.
fn visit_seq(visitor: SeqVisitor<'_>, de: &mut SeqDeserializer, caps: Capabilities) -> (r: Result<
    Decoded<'static>,
    Error,
>)
    ensures
        outcome(r) == visit_seq_model(old(de).remaining(), visitor, caps),
        r is Ok ==> final(de).remaining().len() + visitor.consumed(old(de).remaining().len())
            == old(de).remaining().len(),
    decreases 1int, old(de).remaining(), Shape::Any, 3nat,
{
    match visitor {
        SeqVisitor::Probe => match visit_probe_items(de, caps) {
            Ok(items) => {
                proof {
                    lemma_array_view(items);
                }
                Ok(Decoded::Value(DType::Array(items)))
            },
            Err(e) => Err(e),
        },
        SeqVisitor::Bytes => match visit_bytes(de, caps) {
            Ok(bytes) => Ok(Decoded::Bytes(bytes)),
            Err(e) => Err(e),
        },
        SeqVisitor::Elements(elem) => match visit_elements(de, elem, caps) {
            Ok(out) => {
                proof {
                    lemma_sequence_view(out);
                }
                Ok(Decoded::Sequence(out))
            },
            Err(e) => Err(e),
        },
        SeqVisitor::Tuple(_) => match visit_positional(de, visitor, caps) {
            Ok(out) => {
                proof {
                    lemma_sequence_view(out);
                }
                Ok(Decoded::Sequence(out))
            },
            Err(e) => Err(e),
        },
        SeqVisitor::Fields(_) => match visit_positional(de, visitor, caps) {
            Ok(out) => {
                proof {
                    lemma_sequence_view(out);
                }
                Ok(Decoded::Sequence(out))
            },
            Err(e) => Err(e),
        },
    }
}

/// Decodes an array through a walk, and refuses a walk that succeeded but
/// left elements behind.
pub fn visit_array(array: Vec<DType>, visitor: SeqVisitor<'_>, caps: Capabilities) -> (r: Result<
    Decoded<'static>,
    Error,
>)
    ensures
        outcome(r) == visit_array_model(trees(array@), visitor, caps),
    decreases 1int, trees(array@), Shape::Any, 4nat,
{
    let len = array.len();
    let mut deserializer = SeqDeserializer::new(array);
    match visit_seq(visitor, &mut deserializer, caps) {
        Ok(seq) => match deserializer.end(len) {
            Ok(_) => Ok(seq),
            Err(e) => Err(e),
        },
        Err(e) => Err(e),
    }
}

/// The values of the slots of a record.
pub open spec fn slot_outs<'de>(slots: Seq<Option<Decoded<'de>>>) -> Seq<Option<Out>> {
    Seq::new(
        slots.len(),
        |j: int|
            match slots[j] {
                Some(d) => Some(d@),
                None => None,
            },
    )
}

/// A map target walking an object: it takes every entry at one key shape
/// and one value shape.
fn visit_entries(de: &mut MapDeserializer, key: &Shape, value: &Shape, caps: Capabilities) -> (r:
    Result<Vec<(Decoded<'static>, Decoded<'static>)>, Error>)
    requires
        old(de).pending() is None,
    ensures
        match r {
            Ok(out) => entries_model(old(de).remaining(), *key, *value, caps, 0, Seq::empty())
                == Ok::<Seq<(Out, Out)>, Fault>(out_pairs(out@)) && final(de).remaining().len()
                == 0,
            Err(e) => entries_model(old(de).remaining(), *key, *value, caps, 0, Seq::empty())
                == Err::<Seq<(Out, Out)>, Fault>(e@),
        },
    decreases 1int, old(de).unread(), Shape::Any, 2nat,
{
    let ghost all = de.remaining();
    let mut out: Vec<(Decoded<'static>, Decoded<'static>)> = Vec::new();
    assert(out_pairs(out@) =~= Seq::empty());
    loop
        invariant
            out@.len() <= all.len(),
            de.remaining() == all.skip(out@.len() as int),
            de.pending() is None,
            all == old(de).remaining(),
            all == old(de).unread(),
            entries_model(all, *key, *value, caps, out@.len() as nat, out_pairs(out@))
                == entries_model(all, *key, *value, caps, 0, Seq::empty()),
        decreases all.len() - out@.len(),
    {
        let ghost i = out@.len() as int;
        let ghost acc = out_pairs(out@);
        proof {
            lemma_skip_step(all, i);
        }
        match de.next_key_seed(key, caps) {
            Ok(Some(k)) => match de.next_value_seed(value, caps) {
                Ok(v) => {
                    out.push((k, v));
                    assert(out_pairs(out@) =~= acc.push((k@, v@)));
                },
                Err(e) => {
                    return Err(e);
                },
            },
            Ok(None) => {
                return Ok(out);
            },
            Err(e) => {
                return Err(e);
            },
        }
    }
}

/// The slots of a record before any entry has been read.
pub(crate) fn fresh_slots<'de>(n: usize) -> (slots: Vec<Option<Decoded<'de>>>)
    ensures
        slots@.len() == n,
        slot_outs(slots@) == empty_slots(n as nat),
        forall|j: int| 0 <= j < n ==> (#[trigger] slots@[j]) is None,
{
    let mut slots: Vec<Option<Decoded<'de>>> = Vec::new();
    while slots.len() < n
        invariant
            slots@.len() <= n,
            forall|j: int| 0 <= j < slots@.len() ==> slots@[j] is None,
        decreases n - slots@.len(),
    {
        slots.push(None);
    }
    assert(slot_outs(slots@) =~= empty_slots(n as nat));
    slots
}

/// Takes the values out of the slots of a record, all of which must be
/// filled; the first that is not fails the record.
pub(crate) fn collect_slots<'de>(fields: &Vec<Field>, slots: Vec<Option<Decoded<'de>>>) -> (r: Result<
    Vec<Decoded<'de>>,
    Error,
>)
    requires
        slots@.len() == fields@.len(),
    ensures
        match r {
            Ok(out) => record_model(fields@, slot_outs(slots@), 0, Seq::empty()) == Ok::<
                Seq<Out>,
                Fault,
            >(outs(out@)) && out@.len() == slots@.len() && forall|k: int|
                0 <= k < out@.len() ==> slots@[k] == Some(#[trigger] out@[k]),
            Err(e) => record_model(fields@, slot_outs(slots@), 0, Seq::empty()) == Err::<
                Seq<Out>,
                Fault,
            >(e@),
        },
{
    let ghost filled = slot_outs(slots@);
    let ghost all = slots@;
    let n: usize = slots.len();
    let mut j: usize = 0;
    let ghost mut acc: Seq<Out> = Seq::empty();
    while j < n
        invariant
            j <= n,
            n == all.len(),
            n == fields@.len(),
            slots@ == all,
            filled == slot_outs(all),
            acc.len() == j,
            forall|k: int| 0 <= k < j ==> (#[trigger] all[k] is Some) && acc[k] == (all[k]->0)@,
            record_model(fields@, filled, j as nat, acc) == record_model(
                fields@,
                filled,
                0,
                Seq::empty(),
            ),
        decreases n - j,
    {
        if slots[j].is_none() {
            return Err(Error::MissingField(fields[j].name.clone()));
        }
        proof {
            acc = acc.push(filled[j as int]->0);
        }
        j += 1;
    }
    let mut slots = slots;
    let mut back: Vec<Decoded<'de>> = Vec::new();
    while slots.len() > 0
        invariant
            slots@.len() + back@.len() == n,
            n == all.len(),
            slots@ == all.take(slots@.len() as int),
            forall|k: int| 0 <= k < n ==> (#[trigger] all[k] is Some),
            forall|k: int| 0 <= k < back@.len() ==> back@[k] == all[n - 1 - k]->0,
        decreases slots@.len(),
    {
        match slots.pop() {
            Some(Some(d)) => {
                back.push(d);
            },
            _ => {},
        }
    }
    let out = reversed(back);
    assert(outs(out@) =~= acc);
    Ok(out)
}

/// A record target walking an object: every entry fills the slot of the
/// field it names, and an entry that names no field is passed over.
fn visit_fields(de: &mut MapDeserializer, fields: &Vec<Field>, caps: Capabilities) -> (r: Result<
    Vec<Decoded<'static>>,
    Error,
>)
    requires
        old(de).pending() is None,
    ensures
        match r {
            Ok(out) => fields_model(
                old(de).remaining(),
                fields@,
                caps,
                0,
                empty_slots(fields@.len()),
            ) == Ok::<Seq<Out>, Fault>(outs(out@)) && final(de).remaining().len() == 0,
            Err(e) => fields_model(
                old(de).remaining(),
                fields@,
                caps,
                0,
                empty_slots(fields@.len()),
            ) == Err::<Seq<Out>, Fault>(e@),
        },
    decreases 1int, old(de).unread(), Shape::Any, 2nat,
{
    let ghost all = de.remaining();
    let mut slots = fresh_slots(fields.len());
    let ghost mut i: int = 0;
    loop
        invariant
            0 <= i <= all.len(),
            slots@.len() == fields@.len(),
            de.remaining() == all.skip(i),
            de.pending() is None,
            all == old(de).remaining(),
            all == old(de).unread(),
            fields_model(all, fields@, caps, i as nat, slot_outs(slots@)) == fields_model(
                all,
                fields@,
                caps,
                0,
                empty_slots(fields@.len()),
            ),
        decreases all.len() - i,
    {
        let ghost before = slot_outs(slots@);
        proof {
            lemma_skip_step(all, i);
        }
        match de.next_key_seed(&Shape::Str, caps) {
            Ok(Some(key)) => {
                let name = key.into_text();
                match find_field(fields, cow_str(&name)) {
                    None => match de.next_value_seed(&Shape::Ignored, caps) {
                        Ok(_) => {},
                        Err(e) => {
                            return Err(e);
                        },
                    },
                    Some(j) => {
                        if slots[j].is_some() {
                            return Err(Error::DuplicateField(fields[j].name.clone()));
                        }
                        match de.next_value_seed(&fields[j].shape, caps) {
                            Ok(d) => {
                                slots[j] = Some(d);
                                assert(slot_outs(slots@) =~= before.update(j as int, Some(d@)));
                            },
                            Err(e) => {
                                return Err(e);
                            },
                        }
                    },
                }
                proof {
                    i = i + 1;
                }
            },
            Ok(None) => {
                return collect_slots(fields, slots);
            },
            Err(e) => {
                return Err(e);
            },
        }
    }
}

/// A probe walking an object. Its first key may make the object a capsule;
/// else every entry is rebuilt, the first one included.
fn visit_probe_object(de: &mut MapDeserializer, caps: Capabilities) -> (r: Result<DType, Error>)
    requires
        old(de).pending() is None,
    ensures
        match r {
            Ok(v) => probe_walk(old(de).remaining(), caps) == Ok::<Out, Fault>(Out::Value(v@))
                && final(de).remaining().len() + probe_consumed(old(de).remaining(), caps) == old(
                de,
            ).remaining().len(),
            Err(e) => probe_walk(old(de).remaining(), caps) == Err::<Out, Fault>(e@),
        },
    decreases 1int, old(de).unread(), Shape::Any, 2nat,
{
    let ghost all = de.remaining();
    proof {
        if all.len() > 0 {
            assert(all.drop_first() =~= all.skip(1));
            lemma_probe_yields_value(all[0].1, caps);
        }
    }
    match de.next_key_classified(caps) {
        None => {
            let entries: Vec<(String, DType)> = Vec::new();
            proof {
                lemma_object_view(entries);
                assert(entry_trees(entries@) =~= Seq::empty());
            }
            Ok(DType::Object(entries))
        },
        Some(KeyClass::Number) => match de.next_value_seed(&Shape::Str, caps) {
            Ok(d) => {
                let text = d.into_text();
                match Number::from_literal(cow_str(&text)) {
                    Ok(n) => Ok(DType::Number(n)),
                    Err(e) => Err(e),
                }
            },
            Err(e) => Err(e),
        },
        Some(KeyClass::RawDType) => match de.next_value_seed(&Shape::Str, caps) {
            Ok(d) => Ok(DType::String(cow_into_owned(d.into_text()))),
            Err(e) => Err(e),
        },
        Some(KeyClass::Ordinary(first_key)) => {
            let mut values: Vec<(String, DType)> = Vec::new();
            assert(entry_trees(values@) =~= Seq::empty());
            match de.next_value_seed(&Shape::Any, caps) {
                Ok(probed) => {
                    let v = probed.into_value();
                    values.push((first_key, v));
                    assert(entry_trees(values@) =~= Seq::empty().push((all[0].0, v@)));
                },
                Err(e) => {
                    return Err(e);
                },
            }
            loop
                invariant
                    1 <= values@.len() <= all.len(),
                    de.remaining() == all.skip(values@.len() as int),
                    de.pending() is None,
                    all == old(de).remaining(),
                    all == old(de).unread(),
                    all.len() > 0,
                    classify(all[0].0, caps) is Ordinary,
                    probe_entries(all, caps, values@.len() as nat, entry_trees(values@))
                        == probe_entries(all, caps, 0, Seq::empty()),
                decreases all.len() - values@.len(),
            {
                let ghost i = values@.len() as int;
                let ghost acc = entry_trees(values@);
                proof {
                    lemma_skip_step(all, i);
                    if i < all.len() {
                        lemma_probe_yields_value(all[i].1, caps);
                    }
                }
                match de.next_key_seed(&Shape::Str, caps) {
                    Ok(Some(key)) => match de.next_value_seed(&Shape::Any, caps) {
                        Ok(probed) => {
                            let v = probed.into_value();
                            values.push((cow_into_owned(key.into_text()), v));
                            assert(entry_trees(values@) =~= acc.push((all[i].0, v@)));
                        },
                        Err(e) => {
                            return Err(e);
                        },
                    },
                    Ok(None) => {
                        proof {
                            lemma_object_view(values);
                        }
                        return Ok(DType::Object(values));
                    },
                    Err(e) => {
                        return Err(e);
                    },
                }
            }
        },
    }
}

/// Walks the entries of an object on the target's behalf.
fn visit_map(visitor: MapVisitor<'_>, de: &mut MapDeserializer, caps: Capabilities) -> (r: Result<
    Decoded<'static>,
    Error,
>)
    requires
        old(de).pending() is None,
    ensures
        outcome(r) == visit_map_model(old(de).remaining(), visitor, caps),
        r is Ok ==> final(de).remaining().len() + map_consumed(
            old(de).remaining(),
            visitor,
            caps,
        ) == old(de).remaining().len(),
    decreases 1int, old(de).unread(), Shape::Any, 3nat,
{
    match visitor {
        MapVisitor::Probe => match visit_probe_object(de, caps) {
            Ok(v) => Ok(Decoded::Value(v)),
            Err(e) => Err(e),
        },
        MapVisitor::Entries(key, value) => match visit_entries(de, key, value, caps) {
            Ok(out) => {
                proof {
                    lemma_mapping_view(out);
                }
                Ok(Decoded::Mapping(out))
            },
            Err(e) => Err(e),
        },
        MapVisitor::Fields(fields) => match visit_fields(de, fields, caps) {
            Ok(out) => {
                proof {
                    lemma_sequence_view(out);
                }
                Ok(Decoded::Sequence(out))
            },
            Err(e) => Err(e),
        },
    }
}

/// Decodes an object through a walk, and refuses a walk that succeeded but
/// left entries behind.
pub fn visit_object(
    object: Vec<(String, DType)>,
    visitor: MapVisitor<'_>,
    caps: Capabilities,
) -> (r: Result<Decoded<'static>, Error>)
    ensures
        outcome(r) == visit_object_model(entry_trees(object@), visitor, caps),
    decreases 1int, entry_trees(object@), Shape::Any, 4nat,
{
    let len = object.len();
    let mut deserializer = MapDeserializer::new(object);
    match visit_map(visitor, &mut deserializer, caps) {
        Ok(map) => match deserializer.end(len) {
            Ok(_) => Ok(map),
            Err(e) => Err(e),
        },
        Err(e) => Err(e),
    }
}

/// What a payload stands for, if there is one.
pub open spec fn payload_view(payload: Option<DType>) -> Option<Tree> {
    match payload {
        Some(v) => Some(v@),
        None => None,
    }
}

/// One where there is a payload, zero where there is none.
pub open spec fn payload_flag(payload: Option<DType>) -> int {
    if payload is Some {
        1
    } else {
        0
    }
}

/// What a payload stands for; nothing in particular where there is none.
pub open spec fn payload_tree(payload: Option<DType>) -> Tree {
    match payload {
        Some(v) => v@,
        None => Tree::Null,
    }
}

/// The payload of a variant, if one came with the name.
pub struct VariantDeserializer {
    pub value: Option<DType>,
}

impl VariantDeserializer {
    /// Reads a variant without payload. A payload that came nevertheless
    /// must be the null value, and is discarded.
    pub fn unit_variant(self) -> (r: Result<Decoded<'static>, Error>)
        ensures
            forall|caps: Capabilities|
                outcome(r) == #[trigger] variant_model(
                    payload_view(self.value),
                    VariantKind::Unit,
                    caps,
                ),
    {
        let ghost payload = payload_view(self.value);
        match self.value {
            Some(value) => {
                let r = match value.deserialize_unit() {
                    Ok(_) => Ok(Decoded::Unit),
                    Err(e) => Err(e),
                };
                proof {
                    assert forall|caps: Capabilities|
                        outcome(r) == #[trigger] variant_model(
                            payload,
                            VariantKind::Unit,
                            caps,
                        ) by {
                        let direct = decode_model(payload->0, Shape::Unit, caps);
                    }
                }
                r
            },
            None => Ok(Decoded::Unit),
        }
    }

    /// Reads a variant with one payload, decoded against `seed`. A bare
    /// name has none.
    pub fn newtype_variant_seed(self, seed: &Shape, caps: Capabilities) -> (r: Result<
        Decoded<'static>,
        Error,
    >)
        ensures
            outcome(r) == variant_model(payload_view(self.value), VariantKind::Newtype(*seed), caps),
        decreases payload_flag(self.value), payload_tree(self.value), *seed, 2nat,
    {
        match self.value {
            Some(value) => decode(value, seed, caps),
            None => Err(Error::MissingPayload),
        }
    }

    /// Reads a variant with positional fields: the payload must be an
    /// array, and an empty one counts as no fields at all.
    pub fn tuple_variant(self, shapes: &Vec<Shape>, caps: Capabilities) -> (r: Result<
        Decoded<'static>,
        Error,
    >)
        ensures
            outcome(r) == variant_model(payload_view(self.value), VariantKind::Tuple(*shapes), caps),
        decreases payload_flag(self.value), payload_tree(self.value), *shapes, 2nat,
    {
        match self.value {
            Some(DType::Array(v)) => {
                proof {
                    lemma_array_view(v);
                }
                if v.is_empty() {
                    if shapes.len() == 0 {
                        let out: Vec<Decoded<'static>> = Vec::new();
                        proof {
                            lemma_sequence_view(out);
                            assert(outs(out@) =~= Seq::empty());
                        }
                        Ok(Decoded::Sequence(out))
                    } else {
                        Err(Error::MissingElement(0))
                    }
                } else {
                    visit_array(v, SeqVisitor::Tuple(shapes), caps)
                }
            },
            Some(other) => Err(other.into_invalid_type(Expected::TupleVariant)),
            None => Err(Error::TypeMismatch(Expected::TupleVariant, Found::UnitVariant)),
        }
    }

    /// Reads a variant with named fields: the payload must be an object.
    pub fn struct_variant(self, fields: &Vec<Field>, caps: Capabilities) -> (r: Result<
        Decoded<'static>,
        Error,
    >)
        ensures
            outcome(r) == variant_model(
                payload_view(self.value),
                VariantKind::Struct(*fields),
                caps,
            ),
        decreases payload_flag(self.value), payload_tree(self.value), *fields, 2nat,
    {
        match self.value {
            Some(DType::Object(v)) => {
                proof {
                    lemma_object_view(v);
                }
                visit_object(v, MapVisitor::Fields(fields), caps)
            },
            Some(other) => Err(other.into_invalid_type(Expected::StructVariant)),
            None => Err(Error::TypeMismatch(Expected::StructVariant, Found::UnitVariant)),
        }
    }
}

/// A tagged union as the document gave it: the name, and the payload if one
/// came with it.
pub struct EnumDeserializer {
    pub variant: String,
    pub value: Option<DType>,
}

impl EnumDeserializer {
    /// Resolves the name among `variants`, and hands on the payload.
    pub fn variant_seed(self, variants: &Vec<Variant>) -> (r: Result<
        (usize, String, VariantDeserializer),
        Error,
    >)
        ensures
            match r {
                Ok((j, name, access)) => variant_index(variants@, self.variant@) == Some(
                    j as int,
                ) && j < variants@.len() && name@ == self.variant@ && access.value == self.value,
                Err(e) => variant_index(variants@, self.variant@) is None && e@
                    == Fault::UnknownVariant(self.variant@),
            },
    {
        match find_variant(variants, self.variant.as_str()) {
            Some(j) => Ok((j, self.variant, VariantDeserializer { value: self.value })),
            None => Err(Error::UnknownVariant(self.variant)),
        }
    }
}

/// A tagged-union target reading what the document gave: it resolves the
/// name and reads the payload as the variant's kind asks.
fn visit_enum(access: EnumDeserializer, variants: &Vec<Variant>, caps: Capabilities) -> (r: Result<
    Decoded<'static>,
    Error,
>)
    ensures
        outcome(r) == enum_model(access.variant@, payload_view(access.value), variants@, caps),
    decreases payload_flag(access.value), payload_tree(access.value), *variants, 3nat,
{
    match access.variant_seed(variants) {
        Ok((j, name, variant)) => {
            let payload = match &variants[j].kind {
                VariantKind::Unit => variant.unit_variant(),
                VariantKind::Newtype(seed) => variant.newtype_variant_seed(seed, caps),
                VariantKind::Tuple(shapes) => variant.tuple_variant(shapes, caps),
                VariantKind::Struct(fields) => variant.struct_variant(fields, caps),
            };
            match payload {
                Ok(p) => Ok(Decoded::Variant(Cow::Owned(name), Box::new(p))),
                Err(e) => Err(e),
            }
        },
        Err(e) => Err(e),
    }
}

impl DType {
    /// Hands the value to a probe, which rebuilds it: a scalar as it is, an
    /// array element by element, an object entry by entry unless its first
    /// key makes it a capsule.
    pub fn deserialize_any(self, caps: Capabilities) -> (r: Result<Decoded<'static>, Error>)
        ensures
            outcome(r) == decode_model(self@, Shape::Any, caps),
        decreases 1int, self@, Shape::Any, 0nat,
    {
        match self {
            DType::Array(v) => {
                proof {
                    lemma_array_view(v);
                }
                visit_array(v, SeqVisitor::Probe, caps)
            },
            DType::Object(v) => {
                proof {
                    lemma_object_view(v);
                }
                visit_object(v, MapVisitor::Probe, caps)
            },
            other => Ok(Decoded::Value(other)),
        }
    }

    /// Succeeds only on the null value.
    pub fn deserialize_unit(self) -> (r: Result<Decoded<'static>, Error>)
        ensures
            forall|caps: Capabilities| outcome(r) == #[trigger] decode_model(self@, Shape::Unit, caps),
    {
        match self {
            DType::Null => Ok(Decoded::Unit),
            other => Err(other.into_invalid_type(Expected::Unit)),
        }
    }

    /// Succeeds only on a boolean.
    pub fn deserialize_bool(self) -> (r: Result<Decoded<'static>, Error>)
        ensures
            forall|caps: Capabilities| outcome(r) == #[trigger] decode_model(self@, Shape::Bool, caps),
    {
        match self {
            DType::Boolean(v) => Ok(Decoded::Bool(v)),
            other => Err(other.into_invalid_type(Expected::Bool)),
        }
    }

    /// Succeeds only on a number, which is narrowed to the given width.
    pub fn deserialize_integer(self, width: IntWidth, caps: Capabilities) -> (r: Result<
        Decoded<'static>,
        Error,
    >)
        ensures
            outcome(r) == decode_model(self@, Shape::Int(width), caps),
    {
        match self {
            DType::Number(n) => n.narrow(width, caps),
            other => Err(other.into_invalid_type(Expected::Integer)),
        }
    }

    /// Succeeds only on a number, which is handed on as the document had it.
    pub fn deserialize_float(self, width: FloatWidth) -> (r: Result<Decoded<'static>, Error>)
        ensures
            forall|caps: Capabilities|
                outcome(r) == #[trigger] decode_model(self@, Shape::Float(width), caps),
    {
        match self {
            DType::Number(n) => Ok(Decoded::Number(n)),
            other => Err(other.into_invalid_type(Expected::Float)),
        }
    }

    /// Succeeds only on a string, which is moved to the target.
    pub fn deserialize_string(self) -> (r: Result<Decoded<'static>, Error>)
        ensures
            forall|caps: Capabilities| outcome(r) == #[trigger] decode_model(self@, Shape::Str, caps),
    {
        match self {
            DType::String(v) => Ok(Decoded::Str(Cow::Owned(v))),
            other => Err(other.into_invalid_type(Expected::Str)),
        }
    }

    /// An identifier is a string.
    pub fn deserialize_identifier(self) -> (r: Result<Decoded<'static>, Error>)
        ensures
            forall|caps: Capabilities| outcome(r) == #[trigger] decode_model(self@, Shape::Str, caps),
    {
        self.deserialize_string()
    }

    /// Succeeds on a string, whose text is taken as bytes, and on an array,
    /// whose elements are taken as bytes one by one.
    pub fn deserialize_byte_buf(self, caps: Capabilities) -> (r: Result<Decoded<'static>, Error>)
        ensures
            outcome(r) == decode_model(self@, Shape::Bytes, caps),
        decreases 1int, self@, Shape::Bytes, 0nat,
    {
        match self {
            DType::String(v) => Ok(Decoded::Bytes(v.as_str().as_bytes_vec())),
            DType::Array(v) => {
                proof {
                    lemma_array_view(v);
                }
                visit_array(v, SeqVisitor::Bytes, caps)
            },
            other => Err(other.into_invalid_type(Expected::Bytes)),
        }
    }

    /// The null value is an absent payload; any other value is a present
    /// one, and is itself decoded against `inner`.
    pub fn deserialize_option(self, inner: &Shape, caps: Capabilities) -> (r: Result<
        Decoded<'static>,
        Error,
    >)
        ensures
            outcome(r) == decode_model(self@, Shape::Option(Box::new(*inner)), caps),
        decreases 1int, self@, *inner, 2nat,
    {
        match self {
            DType::Null => Ok(Decoded::Absent),
            other => match decode(other, inner, caps) {
                Ok(d) => Ok(Decoded::Present(Box::new(d))),
                Err(e) => Err(e),
            },
        }
    }

    /// A target that only wraps another hands the value on to it.
    pub fn deserialize_newtype_struct(self, inner: &Shape, caps: Capabilities) -> (r: Result<
        Decoded<'static>,
        Error,
    >)
        ensures
            outcome(r) == decode_model(self@, *inner, caps),
        decreases 1int, self@, *inner, 2nat,
    {
        decode(self, inner, caps)
    }

    /// Succeeds only on an array, whose elements are all decoded against
    /// `elem`.
    pub fn deserialize_seq(self, elem: &Shape, caps: Capabilities) -> (r: Result<Decoded<'static>, Error>)
        ensures
            outcome(r) == decode_model(self@, Shape::Sequence(Box::new(*elem)), caps),
        decreases 1int, self@, *elem, 2nat,
    {
        match self {
            DType::Array(v) => {
                proof {
                    lemma_array_view(v);
                }
                visit_array(v, SeqVisitor::Elements(elem), caps)
            },
            other => Err(other.into_invalid_type(Expected::Sequence)),
        }
    }

    /// Succeeds only on an array that holds one element for each of
    /// `shapes`, no fewer and no more.
    pub fn deserialize_tuple(self, shapes: &Vec<Shape>, caps: Capabilities) -> (r: Result<
        Decoded<'static>,
        Error,
    >)
        ensures
            outcome(r) == decode_model(self@, Shape::Tuple(*shapes), caps),
        decreases 1int, self@, *shapes, 2nat,
    {
        match self {
            DType::Array(v) => {
                proof {
                    lemma_array_view(v);
                }
                visit_array(v, SeqVisitor::Tuple(shapes), caps)
            },
            other => Err(other.into_invalid_type(Expected::Sequence)),
        }
    }

    /// Succeeds only on an object, whose entries are all decoded against
    /// the key shape and the value shape.
    pub fn deserialize_map(self, key: &Shape, value: &Shape, caps: Capabilities) -> (r: Result<
        Decoded<'static>,
        Error,
    >)
        ensures
            outcome(r) == decode_model(
                self@,
                Shape::Mapping(Box::new(*key), Box::new(*value)),
                caps,
            ),
        decreases 1int, self@, *value, 2nat,
    {
        match self {
            DType::Object(v) => {
                proof {
                    lemma_object_view(v);
                }
                visit_object(v, MapVisitor::Entries(key, value), caps)
            },
            other => Err(other.into_invalid_type(Expected::Mapping)),
        }
    }

    /// Succeeds on an object, read by the names of `fields`, and on an
    /// array, read by their positions.
    pub fn deserialize_struct(self, fields: &Vec<Field>, caps: Capabilities) -> (r: Result<
        Decoded<'static>,
        Error,
    >)
        ensures
            outcome(r) == decode_model(self@, Shape::Struct(*fields), caps),
        decreases 1int, self@, *fields, 2nat,
    {
        match self {
            DType::Array(v) => {
                proof {
                    lemma_array_view(v);
                }
                visit_array(v, SeqVisitor::Fields(fields), caps)
            },
            DType::Object(v) => {
                proof {
                    lemma_object_view(v);
                }
                visit_object(v, MapVisitor::Fields(fields), caps)
            },
            other => Err(other.into_invalid_type(Expected::Struct)),
        }
    }

    /// Reads a tagged union: a string names a variant without payload, an
    /// object with exactly one entry names a variant by its key and carries
    /// the payload as its value.
    pub fn deserialize_enum(self, variants: &Vec<Variant>, caps: Capabilities) -> (r: Result<
        Decoded<'static>,
        Error,
    >)
        ensures
            outcome(r) == decode_model(self@, Shape::Enum(*variants), caps),
        decreases 1int, self@, *variants, 2nat,
    {
        let ghost tree = self@;
        match self.into_enum() {
            Ok(access) => {
                proof {
                    if tree is Object {
                        assert(payload_tree(access.value) == tree->Object_0[0].1);
                    }
                }
                visit_enum(access, variants, caps)
            },
            Err(e) => Err(e),
        }
    }

    /// Takes the value apart as a tagged union: a string is a name without
    /// payload, an object with exactly one entry is a name with a payload.
    /// Any other object is an invalid encoding, any other value a mismatch.
    pub fn into_enum(self) -> (r: Result<EnumDeserializer, Error>)
        ensures
            match r {
                Ok(access) => enum_parts(self@) == Ok::<
                    (Seq<char>, Option<Tree>),
                    Fault,
                >((access.variant@, payload_view(access.value))),
                Err(e) => enum_parts(self@) == Err::<
                    (Seq<char>, Option<Tree>),
                    Fault,
                >(e@),
            },
    {
        match self {
            DType::Object(value) => {
                proof {
                    lemma_object_view(value);
                }
                if value.len() != 1 {
                    return Err(Error::InvalidVariantEncoding);
                }
                let mut value = value;
                match value.pop() {
                    Some((variant, payload)) => Ok(
                        EnumDeserializer { variant, value: Some(payload) },
                    ),
                    None => Err(Error::InvalidVariantEncoding),
                }
            },
            DType::String(variant) => Ok(EnumDeserializer { variant, value: None }),
            other => Err(other.into_invalid_type(Expected::Enum)),
        }
    }

    /// Succeeds whatever the value is, and discards it.
    pub fn deserialize_ignored_any(self) -> (r: Result<Decoded<'static>, Error>)
        ensures
            forall|caps: Capabilities|
                outcome(r) == #[trigger] decode_model(self@, Shape::Ignored, caps),
    {
        Ok(Decoded::Unit)
    }

    /// The document model is meant to be read by people.
    pub fn is_human_readable(&self) -> (r: bool)
        ensures
            r,
    {
        true
    }

    /// Rebuilds a value from a value: what a probe finds.
    pub fn deserialize(source: DType, caps: Capabilities) -> (r: Result<DType, Error>)
        ensures
            match r {
                Ok(v) => decode_model(source@, Shape::Any, caps) == Ok::<Out, Fault>(
                    Out::Value(v@),
                ),
                Err(e) => decode_model(source@, Shape::Any, caps) == Err::<Out, Fault>(e@),
            },
    {
        proof {
            lemma_probe_yields_value(source@, caps);
        }
        match source.deserialize_any(caps) {
            Ok(probed) => Ok(probed.into_value()),
            Err(e) => Err(e),
        }
    }
}

/// Decodes `value` against `shape`, consuming the value.
///
/// The target says through `shape` what it accepts; the value must have
/// one of those shapes, and a collection must be drained exactly.
pub fn decode(value: DType, shape: &Shape, caps: Capabilities) -> (r: Result<Decoded<'static>, Error>)
    ensures
        outcome(r) == decode_model(value@, *shape, caps),
    decreases 1int, value@, *shape, 1nat,
{
    match shape {
        Shape::Any => value.deserialize_any(caps),
        Shape::Unit => value.deserialize_unit(),
        Shape::Bool => value.deserialize_bool(),
        Shape::Int(width) => value.deserialize_integer(*width, caps),
        Shape::Float(width) => value.deserialize_float(*width),
        Shape::Str => value.deserialize_string(),
        Shape::Bytes => value.deserialize_byte_buf(caps),
        Shape::Option(inner) => value.deserialize_option(inner, caps),
        Shape::Sequence(elem) => value.deserialize_seq(elem, caps),
        Shape::Tuple(shapes) => value.deserialize_tuple(shapes, caps),
        Shape::Mapping(key, val) => value.deserialize_map(key, val, caps),
        Shape::Struct(fields) => value.deserialize_struct(fields, caps),
        Shape::Enum(variants) => value.deserialize_enum(variants, caps),
        Shape::Ignored => value.deserialize_ignored_any(),
    }
}

} // verus!
