//! The borrowing traversal.
//!
//! The document is only read, through references that live as long as it
//! does; it can be decoded again and again. Text reaches the target as a
//! reference into the document. Only a probe, which builds a value of its
//! own, copies what it reads.

use crate::de::{arity, collect_slots, fresh_slots, positional_shape, slot_outs};
use crate::decoded::{
    lemma_mapping_view, lemma_sequence_view, out_pairs, outcome, outs, Decoded, Out,
};
use crate::error::{Container, Error, Expected, Fault, Found};
use crate::key::{find_field, find_variant, KeyClass, KeyClassifier, MapKeyDeserializer};
use crate::model::{
    bytes_model, classify, decode_model, elements_model, empty_slots, entries_model, enum_model,
    enum_parts, fields_model, key_model, lemma_probe_yields_value, map_consumed, probe_consumed,
    probe_entries, probe_items, probe_walk, tuple_walk, variant_index, variant_model,
    visit_array_model, visit_map_model, visit_object_model, visit_seq_model,
};
use crate::shape::{
    Capabilities, Field, FloatWidth, IntWidth, MapVisitor, SeqVisitor, Shape, Variant,
    VariantKind,
};
use crate::text::{cow_into_owned, cow_str};
use crate::walk::lemma_skip_step;
use crate::value::{entry_trees, lemma_array_view, lemma_object_view, trees, DType, Number, Tree};
use std::borrow::Cow;
use vstd::prelude::*;
use vstd::slice::*;
use vstd::string::*;

verus! {

/// A cursor over the elements of an array that it only reads.
pub struct SeqRefDeserializer<'de> {
    /// The elements of the array.
    slice: &'de [DType],
    /// How many of them were handed out.
    pos: usize,
}

impl<'de> SeqRefDeserializer<'de> {
    /// What the elements not yet handed out stand for, the next one first.
    pub closed spec fn remaining(&self) -> Seq<Tree> {
        if self.pos <= self.slice@.len() {
            trees(self.slice@).skip(self.pos as int)
        } else {
            Seq::empty()
        }
    }

    /// A cursor that stands before the first element of `slice`.
    pub fn new(slice: &'de [DType]) -> (de: SeqRefDeserializer<'de>)
        ensures
            de.remaining() == trees(slice@),
    {
        let de = SeqRefDeserializer { slice, pos: 0 };
        assert(de.remaining() =~= trees(slice@));
        de
    }

    /// The number of elements not yet handed out. It is always known.
    pub fn size_hint(&self) -> (hint: Option<usize>)
        ensures
            hint == Some(self.remaining().len() as usize),
    {
        if self.pos <= self.slice.len() {
            Some(self.slice.len() - self.pos)
        } else {
            Some(0)
        }
    }

    /// Hands out a reference to the next element, or reports that none is
    /// left.
    pub fn next_value(&mut self) -> (r: Option<&'de DType>)
        ensures
            old(self).remaining().len() == 0 ==> r is None && final(self).remaining() == old(
                self,
            ).remaining(),
            old(self).remaining().len() > 0 ==> final(self).remaining() == old(
                self,
            ).remaining().drop_first() && (r matches Some(v) && v@ == old(self).remaining()[0]),
    {
        let ghost before = self.remaining();
        if self.pos < self.slice.len() {
            let value = &self.slice[self.pos];
            self.pos = self.pos + 1;
            assert(self.remaining() =~= before.drop_first());
            assert(value@ == before[0]);
            Some(value)
        } else {
            None
        }
    }

    /// Whether every element was handed out; if not, the array of `len`
    /// elements was not drained.
    pub fn end(&self, len: usize) -> (r: Result<(), Error>)
        ensures
            match r {
                Ok(_) => self.remaining().len() == 0,
                Err(e) => self.remaining().len() > 0 && e@ == Fault::ExcessElements(
                    len as nat,
                    Container::Array,
                ),
            },
    {
        if self.pos >= self.slice.len() {
            Ok(())
        } else {
            Err(Error::ExcessElements(len, Container::Array))
        }
    }

    /// Hands out the next element, decoded against `seed`, or reports that
    /// none is left. The cursor moves on either way; the array stays as it
    /// is.
    pub fn next_element_seed(&mut self, seed: &Shape, caps: Capabilities) -> (r: Result<
        Option<Decoded<'de>>,
        Error,
    >)
        ensures
            r matches Ok(Some(d)) ==> d.lent(),
            old(self).remaining().len() == 0 ==> (r matches Ok(None)) && final(self).remaining()
                == old(self).remaining(),
            old(self).remaining().len() > 0 ==> final(self).remaining() == old(
                self,
            ).remaining().drop_first() && match r {
                Ok(Some(d)) => decode_model(old(self).remaining()[0], *seed, caps) == Ok::<
                    Out,
                    Fault,
                >(d@),
                Ok(None) => false,
                Err(e) => decode_model(old(self).remaining()[0], *seed, caps) == Err::<
                    Out,
                    Fault,
                >(e@),
            },
        decreases 1int, old(self).remaining(), Shape::Any, 1nat,
    {
        match self.next_value() {
            Some(value) => match decode_ref(value, seed, caps) {
                Ok(d) => Ok(Some(d)),
                Err(e) => Err(e),
            },
            None => Ok(None),
        }
    }
}

/// A cursor over the entries of an object that it only reads. A key is
/// read first, then the value that belongs to it.
pub struct MapRefDeserializer<'de> {
    /// The entries of the object.
    slice: &'de [(String, DType)],
    /// How many keys were read.
    pos: usize,
    /// The value that belongs to the key read last, until it is asked for.
    value: Option<&'de DType>,
    /// The text of the key read last.
    key: Ghost<Seq<char>>,
}

impl<'de> MapRefDeserializer<'de> {
    /// What the entries whose key was not yet read stand for, the next one
    /// first.
    pub closed spec fn remaining(&self) -> Seq<(Seq<char>, Tree)> {
        if self.pos <= self.slice@.len() {
            entry_trees(self.slice@).skip(self.pos as int)
        } else {
            Seq::empty()
        }
    }

    /// What the value stands for whose key was read and which was not yet
    /// asked for.
    pub closed spec fn pending(&self) -> Option<Tree> {
        match self.value {
            Some(v) => Some(v@),
            None => None,
        }
    }

    /// Every entry whose value can still be handed out.
    pub closed spec fn unread(&self) -> Seq<(Seq<char>, Tree)> {
        match self.pending() {
            Some(t) => seq![(self.key@, t)] + self.remaining(),
            None => self.remaining(),
        }
    }

    /// A cursor that stands before the first entry of `map`.
    pub fn new(map: &'de [(String, DType)]) -> (de: MapRefDeserializer<'de>)
        ensures
            de.remaining() == entry_trees(map@),
            de.pending() is None,
    {
        let de = MapRefDeserializer { slice: map, pos: 0, value: None, key: Ghost(Seq::empty()) };
        assert(de.remaining() =~= entry_trees(map@));
        de
    }

    /// The number of entries whose key was not yet read. It is always
    /// known.
    pub fn size_hint(&self) -> (hint: Option<usize>)
        ensures
            hint == Some(self.remaining().len() as usize),
    {
        if self.pos <= self.slice.len() {
            Some(self.slice.len() - self.pos)
        } else {
            Some(0)
        }
    }

    /// Reads the next key as a reference to its text, and notes its value
    /// for the call that asks for it; or reports that no entry is left.
    pub fn next_key(&mut self) -> (r: Option<&'de str>)
        ensures
            old(self).remaining().len() == 0 ==> r is None && final(self).remaining() == old(
                self,
            ).remaining() && final(self).pending() == old(self).pending(),
            old(self).remaining().len() > 0 ==> final(self).remaining() == old(
                self,
            ).remaining().drop_first() && final(self).pending() == Some(
                old(self).remaining()[0].1,
            ) && final(self).unread() == old(self).remaining() && (r matches Some(key) && key@
                == old(self).remaining()[0].0),
    {
        let ghost before = self.remaining();
        if self.pos < self.slice.len() {
            let entry = &self.slice[self.pos];
            self.pos = self.pos + 1;
            assert(self.remaining() =~= before.drop_first());
            assert(entry.0@ == before[0].0);
            assert(entry.1@ == before[0].1);
            self.value = Some(&entry.1);
            self.key = Ghost(entry.0@);
            assert(self.unread() =~= before);
            Some(entry.0.as_str())
        } else {
            None
        }
    }

    /// Hands out a reference to the value that belongs to the key read
    /// last, if it was not yet asked for.
    pub fn take_value(&mut self) -> (r: Option<&'de DType>)
        ensures
            final(self).remaining() == old(self).remaining(),
            final(self).pending() is None,
            match old(self).pending() {
                Some(t) => r matches Some(v) && v@ == t,
                None => r is None,
            },
    {
        self.value.take()
    }

    /// Whether the key of every entry was read; if not, the object of `len`
    /// entries was not drained.
    pub fn end(&self, len: usize) -> (r: Result<(), Error>)
        ensures
            match r {
                Ok(_) => self.remaining().len() == 0,
                Err(e) => self.remaining().len() > 0 && e@ == Fault::ExcessElements(
                    len as nat,
                    Container::Object,
                ),
            },
    {
        if self.pos >= self.slice.len() {
            Ok(())
        } else {
            Err(Error::ExcessElements(len, Container::Object))
        }
    }

    /// Reads the next key, decoded against `seed`, and notes its value for
    /// the call that asks for it; or reports that no entry is left. The
    /// key's text is lent to the key decoder, not copied. Where the key
    /// does not decode, its value is given up with it: no value is handed
    /// out for a key that failed.
    pub fn next_key_seed(&mut self, seed: &Shape, caps: Capabilities) -> (r: Result<
        Option<Decoded<'de>>,
        Error,
    >)
        ensures
            r matches Ok(Some(d)) ==> d.lent(),
            old(self).remaining().len() > 0 && *seed is Str ==> (r matches Ok(
                Some(Decoded::Str(text)),
            ) && text is Borrowed),
            old(self).remaining().len() == 0 ==> (r matches Ok(None)) && final(self).remaining()
                == old(self).remaining() && final(self).pending() == old(self).pending(),
            old(self).remaining().len() > 0 ==> final(self).remaining() == old(
                self,
            ).remaining().drop_first() && match r {
                Ok(Some(k)) => key_model(old(self).remaining()[0].0, *seed, caps) == Ok::<
                    Out,
                    Fault,
                >(k@) && final(self).pending() == Some(old(self).remaining()[0].1)
                    && final(self).unread() == old(self).remaining(),
                Ok(None) => false,
                Err(e) => key_model(old(self).remaining()[0].0, *seed, caps) == Err::<
                    Out,
                    Fault,
                >(e@) && final(self).pending() is None,
            },
    {
        match self.next_key() {
            Some(key) => {
                let key_de = MapKeyDeserializer { key: Cow::Borrowed(key) };
                match key_de.deserialize(seed, caps) {
                    Ok(k) => Ok(Some(k)),
                    Err(e) => {
                        let _ = self.take_value();
                        Err(e)
                    },
                }
            },
            None => Ok(None),
        }
    }

    /// Reads the next key for a probe, which looks at it for a capsule
    /// token, and notes its value for the call that asks for it; or reports
    /// that no entry is left.
    pub fn next_key_classified(&mut self, caps: Capabilities) -> (r: Option<KeyClass>)
        ensures
            old(self).remaining().len() == 0 ==> r is None && final(self).remaining() == old(
                self,
            ).remaining() && final(self).pending() == old(self).pending(),
            old(self).remaining().len() > 0 ==> final(self).remaining() == old(
                self,
            ).remaining().drop_first() && final(self).pending() == Some(
                old(self).remaining()[0].1,
            ) && final(self).unread() == old(self).remaining() && match r {
                Some(class) => class.kind() == classify(old(self).remaining()[0].0, caps) && (
                class matches KeyClass::Ordinary(key) ==> key@ == old(self).remaining()[0].0),
                None => false,
            },
    {
        match self.next_key() {
            Some(key) => Some(KeyClassifier { caps }.visit_str(key)),
            None => None,
        }
    }

    /// Hands out the value that belongs to the key read last, decoded
    /// against `seed`. Without such a value the call fails.
    pub fn next_value_seed(&mut self, seed: &Shape, caps: Capabilities) -> (r: Result<
        Decoded<'de>,
        Error,
    >)
        ensures
            r matches Ok(d) ==> d.lent(),
            final(self).remaining() == old(self).remaining(),
            final(self).pending() is None,
            match old(self).pending() {
                Some(t) => outcome(r) == decode_model(t, *seed, caps),
                None => outcome(r) == Err::<Out, Fault>(Fault::MissingValue),
            },
        decreases 1int, old(self).unread(), Shape::Any, 1nat,
    {
        match self.take_value() {
            Some(value) => {
                assert(old(self).unread()[0].1 == value@);
                decode_ref(value, seed, caps)
            },
            None => Err(Error::MissingValue),
        }
    }
}

/// A probe walking an array: it rebuilds every element.
fn visit_probe_items_ref<'de>(de: &mut SeqRefDeserializer<'de>, caps: Capabilities) -> (r: Result<
    Vec<DType>,
    Error,
>)
    ensures
        match r {
            Ok(out) => probe_items(old(de).remaining(), caps, 0, Seq::empty()) == Ok::<
                Seq<Tree>,
                Fault,
            >(trees(out@)) && final(de).remaining().len() == 0,
            Err(e) => probe_items(old(de).remaining(), caps, 0, Seq::empty()) == Err::<
                Seq<Tree>,
                Fault,
            >(e@),
        },
    decreases 1int, old(de).remaining(), Shape::Any, 2nat,
{
    let ghost all = de.remaining();
    let mut out: Vec<DType> = Vec::new();
    assert(trees(out@) =~= Seq::empty());
    loop
        invariant
            out@.len() <= all.len(),
            de.remaining() == all.skip(out@.len() as int),
            all == old(de).remaining(),
            probe_items(all, caps, out@.len() as nat, trees(out@)) == probe_items(
                all,
                caps,
                0,
                Seq::empty(),
            ),
        decreases all.len() - out@.len(),
    {
        let ghost i = out@.len() as int;
        let ghost acc = trees(out@);
        proof {
            lemma_skip_step(all, i);
            if i < all.len() {
                lemma_probe_yields_value(all[i], caps);
            }
        }
        match de.next_element_seed(&Shape::Any, caps) {
            Ok(Some(probed)) => {
                let v = probed.into_value();
                out.push(v);
                assert(trees(out@) =~= acc.push(v@));
            },
            Ok(None) => {
                return Ok(out);
            },
            Err(e) => {
                return Err(e);
            },
        }
    }
}

/// A byte target walking an array: it takes every element as a byte.
fn visit_bytes_ref<'de>(de: &mut SeqRefDeserializer<'de>, caps: Capabilities) -> (r: Result<Vec<u8>, Error>)
    ensures
        match r {
            Ok(out) => bytes_model(old(de).remaining(), caps, 0, Seq::empty()) == Ok::<
                Seq<u8>,
                Fault,
            >(out@) && final(de).remaining().len() == 0,
            Err(e) => bytes_model(old(de).remaining(), caps, 0, Seq::empty()) == Err::<
                Seq<u8>,
                Fault,
            >(e@),
        },
    decreases 1int, old(de).remaining(), Shape::Any, 2nat,
{
    let ghost all = de.remaining();
    let mut out: Vec<u8> = Vec::new();
    loop
        invariant
            out@.len() <= all.len(),
            de.remaining() == all.skip(out@.len() as int),
            all == old(de).remaining(),
            bytes_model(all, caps, out@.len() as nat, out@) == bytes_model(
                all,
                caps,
                0,
                Seq::empty(),
            ),
        decreases all.len() - out@.len(),
    {
        let ghost i = out@.len() as int;
        let ghost acc = out@;
        proof {
            lemma_skip_step(all, i);
        }
        match de.next_element_seed(&Shape::Int(IntWidth::U8), caps) {
            Ok(Some(d)) => {
                out.push(d.into_byte());
            },
            Ok(None) => {
                return Ok(out);
            },
            Err(e) => {
                return Err(e);
            },
        }
    }
}

/// A sequence target walking an array: it takes every element at one
/// shape.
fn visit_elements_ref<'de>(de: &mut SeqRefDeserializer<'de>, elem: &Shape, caps: Capabilities) -> (r: Result<
    Vec<Decoded<'de>>,
    Error,
>)
    ensures
        r matches Ok(out) ==> forall|i: int| 0 <= i < out@.len() ==> (#[trigger] out@[i]).lent(),
        match r {
            Ok(out) => elements_model(old(de).remaining(), *elem, caps, 0, Seq::empty()) == Ok::<
                Seq<Out>,
                Fault,
            >(outs(out@)) && final(de).remaining().len() == 0,
            Err(e) => elements_model(old(de).remaining(), *elem, caps, 0, Seq::empty()) == Err::<
                Seq<Out>,
                Fault,
            >(e@),
        },
    decreases 1int, old(de).remaining(), Shape::Any, 2nat,
{
    let ghost all = de.remaining();
    let mut out: Vec<Decoded<'de>> = Vec::new();
    assert(outs(out@) =~= Seq::empty());
    loop
        invariant
            out@.len() <= all.len(),
            forall|k: int| 0 <= k < out@.len() ==> (#[trigger] out@[k]).lent(),
            de.remaining() == all.skip(out@.len() as int),
            all == old(de).remaining(),
            elements_model(all, *elem, caps, out@.len() as nat, outs(out@)) == elements_model(
                all,
                *elem,
                caps,
                0,
                Seq::empty(),
            ),
        decreases all.len() - out@.len(),
    {
        let ghost i = out@.len() as int;
        let ghost acc = outs(out@);
        proof {
            lemma_skip_step(all, i);
        }
        match de.next_element_seed(elem, caps) {
            Ok(Some(d)) => {
                out.push(d);
                assert(outs(out@) =~= acc.push(d@));
            },
            Ok(None) => {
                return Ok(out);
            },
            Err(e) => {
                return Err(e);
            },
        }
    }
}

/// A target of fixed arity walking an array: it takes one element per
/// shape and fails where one is not there.
fn visit_positional_ref<'de>(de: &mut SeqRefDeserializer<'de>, visitor: SeqVisitor<'_>, caps: Capabilities) -> (r:
    Result<Vec<Decoded<'de>>, Error>)
    ensures
        r matches Ok(out) ==> forall|i: int| 0 <= i < out@.len() ==> (#[trigger] out@[i]).lent(),
        match r {
            Ok(out) => tuple_walk(
                old(de).remaining(),
                visitor.positional(),
                caps,
                0,
                Seq::empty(),
            ) == Ok::<Seq<Out>, Fault>(outs(out@)) && final(de).remaining().len()
                + visitor.positional().len() == old(de).remaining().len(),
            Err(e) => tuple_walk(old(de).remaining(), visitor.positional(), caps, 0, Seq::empty())
                == Err::<Seq<Out>, Fault>(e@),
        },
    decreases 1int, old(de).remaining(), Shape::Any, 2nat,
{
    let ghost all = de.remaining();
    let ghost shapes = visitor.positional();
    let n: usize = arity(visitor);
    let mut out: Vec<Decoded<'de>> = Vec::new();
    assert(outs(out@) =~= Seq::empty());
    while out.len() < n
        invariant
            n == shapes.len(),
            shapes == visitor.positional(),
            out@.len() <= n,
            out@.len() <= all.len(),
            forall|k: int| 0 <= k < out@.len() ==> (#[trigger] out@[k]).lent(),
            de.remaining() == all.skip(out@.len() as int),
            all == old(de).remaining(),
            tuple_walk(all, shapes, caps, out@.len() as nat, outs(out@)) == tuple_walk(
                all,
                shapes,
                caps,
                0,
                Seq::empty(),
            ),
        decreases n - out@.len(),
    {
        let ghost i = out@.len() as int;
        let ghost acc = outs(out@);
        proof {
            lemma_skip_step(all, i);
        }
        let position: usize = out.len();
        let shape = positional_shape(visitor, position);
        match de.next_element_seed(shape, caps) {
            Ok(Some(d)) => {
                out.push(d);
                assert(outs(out@) =~= acc.push(d@));
            },
            Ok(None) => {
                return Err(Error::MissingElement(position));
            },
            Err(e) => {
                return Err(e);
            },
        }
    }
    Ok(out)
}

/// Walks the elements of an array on the target's behalf.
fn visit_seq_ref<'de>(visitor: SeqVisitor<'_>, de: &mut SeqRefDeserializer<'de>, caps: Capabilities) -> (r: Result<
    Decoded<'de>,
    Error,
>)
    ensures
        r matches Ok(d) ==> d.lent(),
        outcome(r) == visit_seq_model(old(de).remaining(), visitor, caps),
        r is Ok ==> final(de).remaining().len() + visitor.consumed(old(de).remaining().len())
            == old(de).remaining().len(),
    decreases 1int, old(de).remaining(), Shape::Any, 3nat,
{
    match visitor {
        SeqVisitor::Probe => match visit_probe_items_ref(de, caps) {
            Ok(items) => {
                proof {
                    lemma_array_view(items);
                }
                Ok(Decoded::Value(DType::Array(items)))
            },
            Err(e) => Err(e),
        },
        SeqVisitor::Bytes => match visit_bytes_ref(de, caps) {
            Ok(bytes) => Ok(Decoded::Bytes(bytes)),
            Err(e) => Err(e),
        },
        SeqVisitor::Elements(elem) => match visit_elements_ref(de, elem, caps) {
            Ok(out) => {
                proof {
                    lemma_sequence_view(out);
                }
                Ok(Decoded::Sequence(out))
            },
            Err(e) => Err(e),
        },
        SeqVisitor::Tuple(_) => match visit_positional_ref(de, visitor, caps) {
            Ok(out) => {
                proof {
                    lemma_sequence_view(out);
                }
                Ok(Decoded::Sequence(out))
            },
            Err(e) => Err(e),
        },
        SeqVisitor::Fields(_) => match visit_positional_ref(de, visitor, caps) {
            Ok(out) => {
                proof {
                    lemma_sequence_view(out);
                }
                Ok(Decoded::Sequence(out))
            },
            Err(e) => Err(e),
        },
    }
}

/// Decodes an array through a walk, and refuses a walk that succeeded but
/// left elements behind.
pub fn visit_array_ref<'de>(array: &'de [DType], visitor: SeqVisitor<'_>, caps: Capabilities) -> (r: Result<
    Decoded<'de>,
    Error,
>)
    ensures
        r matches Ok(d) ==> d.lent(),
        outcome(r) == visit_array_model(trees(array@), visitor, caps),
    decreases 1int, trees(array@), Shape::Any, 4nat,
{
    let len = array.len();
    let mut deserializer = SeqRefDeserializer::new(array);
    match visit_seq_ref(visitor, &mut deserializer, caps) {
        Ok(seq) => match deserializer.end(len) {
            Ok(_) => Ok(seq),
            Err(e) => Err(e),
        },
        Err(e) => Err(e),
    }
}

/// A map target walking an object: it takes every entry at one key shape
/// and one value shape.
fn visit_entries_ref<'de>(de: &mut MapRefDeserializer<'de>, key: &Shape, value: &Shape, caps: Capabilities) -> (r:
    Result<Vec<(Decoded<'de>, Decoded<'de>)>, Error>)
    requires
        old(de).pending() is None,
    ensures
        r matches Ok(out) ==> forall|i: int|
            0 <= i < out@.len() ==> (#[trigger] out@[i]).0.lent() && out@[i].1.lent(),
        match r {
            Ok(out) => entries_model(old(de).remaining(), *key, *value, caps, 0, Seq::empty())
                == Ok::<Seq<(Out, Out)>, Fault>(out_pairs(out@)) && final(de).remaining().len()
                == 0,
            Err(e) => entries_model(old(de).remaining(), *key, *value, caps, 0, Seq::empty())
                == Err::<Seq<(Out, Out)>, Fault>(e@),
        },
    decreases 1int, old(de).unread(), Shape::Any, 2nat,
{
    let ghost all = de.remaining();
    let mut out: Vec<(Decoded<'de>, Decoded<'de>)> = Vec::new();
    assert(out_pairs(out@) =~= Seq::empty());
    loop
        invariant
            out@.len() <= all.len(),
            forall|k: int|
                0 <= k < out@.len() ==> (#[trigger] out@[k]).0.lent() && out@[k].1.lent(),
            de.remaining() == all.skip(out@.len() as int),
            de.pending() is None,
            all == old(de).remaining(),
            all == old(de).unread(),
            entries_model(all, *key, *value, caps, out@.len() as nat, out_pairs(out@))
                == entries_model(all, *key, *value, caps, 0, Seq::empty()),
        decreases all.len() - out@.len(),
    {
        let ghost i = out@.len() as int;
        let ghost acc = out_pairs(out@);
        proof {
            lemma_skip_step(all, i);
        }
        match de.next_key_seed(key, caps) {
            Ok(Some(k)) => match de.next_value_seed(value, caps) {
                Ok(v) => {
                    out.push((k, v));
                    assert(out_pairs(out@) =~= acc.push((k@, v@)));
                },
                Err(e) => {
                    return Err(e);
                },
            },
            Ok(None) => {
                return Ok(out);
            },
            Err(e) => {
                return Err(e);
            },
        }
    }
}

/// A record target walking an object: every entry fills the slot of the
/// field it names, and an entry that names no field is passed over.
fn visit_fields_ref<'de>(de: &mut MapRefDeserializer<'de>, fields: &Vec<Field>, caps: Capabilities) -> (r: Result<
    Vec<Decoded<'de>>,
    Error,
>)
    requires
        old(de).pending() is None,
    ensures
        r matches Ok(out) ==> forall|i: int| 0 <= i < out@.len() ==> (#[trigger] out@[i]).lent(),
        match r {
            Ok(out) => fields_model(
                old(de).remaining(),
                fields@,
                caps,
                0,
                empty_slots(fields@.len()),
            ) == Ok::<Seq<Out>, Fault>(outs(out@)) && final(de).remaining().len() == 0,
            Err(e) => fields_model(
                old(de).remaining(),
                fields@,
                caps,
                0,
                empty_slots(fields@.len()),
            ) == Err::<Seq<Out>, Fault>(e@),
        },
    decreases 1int, old(de).unread(), Shape::Any, 2nat,
{
    let ghost all = de.remaining();
    let mut slots = fresh_slots(fields.len());
    let ghost mut i: int = 0;
    loop
        invariant
            0 <= i <= all.len(),
            slots@.len() == fields@.len(),
            forall|k: int|
                0 <= k < slots@.len() && (#[trigger] slots@[k]) is Some ==> slots@[k]->0.lent(),
            de.remaining() == all.skip(i),
            de.pending() is None,
            all == old(de).remaining(),
            all == old(de).unread(),
            fields_model(all, fields@, caps, i as nat, slot_outs(slots@)) == fields_model(
                all,
                fields@,
                caps,
                0,
                empty_slots(fields@.len()),
            ),
        decreases all.len() - i,
    {
        let ghost before = slot_outs(slots@);
        proof {
            lemma_skip_step(all, i);
        }
        match de.next_key_seed(&Shape::Str, caps) {
            Ok(Some(key)) => {
                let name = key.into_text();
                match find_field(fields, cow_str(&name)) {
                    None => match de.next_value_seed(&Shape::Ignored, caps) {
                        Ok(_) => {},
                        Err(e) => {
                            return Err(e);
                        },
                    },
                    Some(j) => {
                        if slots[j].is_some() {
                            return Err(Error::DuplicateField(fields[j].name.clone()));
                        }
                        match de.next_value_seed(&fields[j].shape, caps) {
                            Ok(d) => {
                                slots[j] = Some(d);
                                assert(slot_outs(slots@) =~= before.update(j as int, Some(d@)));
                            },
                            Err(e) => {
                                return Err(e);
                            },
                        }
                    },
                }
                proof {
                    i = i + 1;
                }
            },
            Ok(None) => {
                return collect_slots(fields, slots);
            },
            Err(e) => {
                return Err(e);
            },
        }
    }
}

/// A probe walking an object. Its first key may make the object a capsule;
/// else every entry is rebuilt, the first one included.
fn visit_probe_object_ref<'de>(de: &mut MapRefDeserializer<'de>, caps: Capabilities) -> (r: Result<DType, Error>)
    requires
        old(de).pending() is None,
    ensures
        match r {
            Ok(v) => probe_walk(old(de).remaining(), caps) == Ok::<Out, Fault>(Out::Value(v@))
                && final(de).remaining().len() + probe_consumed(old(de).remaining(), caps) == old(
                de,
            ).remaining().len(),
            Err(e) => probe_walk(old(de).remaining(), caps) == Err::<Out, Fault>(e@),
        },
    decreases 1int, old(de).unread(), Shape::Any, 2nat,
{
    let ghost all = de.remaining();
    proof {
        if all.len() > 0 {
            assert(all.drop_first() =~= all.skip(1));
            lemma_probe_yields_value(all[0].1, caps);
        }
    }
    match de.next_key_classified(caps) {
        None => {
            let entries: Vec<(String, DType)> = Vec::new();
            proof {
                lemma_object_view(entries);
                assert(entry_trees(entries@) =~= Seq::empty());
            }
            Ok(DType::Object(entries))
        },
        Some(KeyClass::Number) => match de.next_value_seed(&Shape::Str, caps) {
            Ok(d) => {
                let text = d.into_text();
                match Number::from_literal(cow_str(&text)) {
                    Ok(n) => Ok(DType::Number(n)),
                    Err(e) => Err(e),
                }
            },
            Err(e) => Err(e),
        },
        Some(KeyClass::RawDType) => match de.next_value_seed(&Shape::Str, caps) {
            Ok(d) => Ok(DType::String(cow_into_owned(d.into_text()))),
            Err(e) => Err(e),
        },
        Some(KeyClass::Ordinary(first_key)) => {
            let mut values: Vec<(String, DType)> = Vec::new();
            assert(entry_trees(values@) =~= Seq::empty());
            match de.next_value_seed(&Shape::Any, caps) {
                Ok(probed) => {
                    let v = probed.into_value();
                    values.push((first_key, v));
                    assert(entry_trees(values@) =~= Seq::empty().push((all[0].0, v@)));
                },
                Err(e) => {
                    return Err(e);
                },
            }
            loop
                invariant
                    1 <= values@.len() <= all.len(),
                    de.remaining() == all.skip(values@.len() as int),
                    de.pending() is None,
                    all == old(de).remaining(),
                    all == old(de).unread(),
                    all.len() > 0,
                    classify(all[0].0, caps) is Ordinary,
                    probe_entries(all, caps, values@.len() as nat, entry_trees(values@))
                        == probe_entries(all, caps, 0, Seq::empty()),
                decreases all.len() - values@.len(),
            {
                let ghost i = values@.len() as int;
                let ghost acc = entry_trees(values@);
                proof {
                    lemma_skip_step(all, i);
                    if i < all.len() {
                        lemma_probe_yields_value(all[i].1, caps);
                    }
                }
                match de.next_key_seed(&Shape::Str, caps) {
                    Ok(Some(key)) => match de.next_value_seed(&Shape::Any, caps) {
                        Ok(probed) => {
                            let v = probed.into_value();
                            values.push((cow_into_owned(key.into_text()), v));
                            assert(entry_trees(values@) =~= acc.push((all[i].0, v@)));
                        },
                        Err(e) => {
                            return Err(e);
                        },
                    },
                    Ok(None) => {
                        proof {
                            lemma_object_view(values);
                        }
                        return Ok(DType::Object(values));
                    },
                    Err(e) => {
                        return Err(e);
                    },
                }
            }
        },
    }
}

/// Walks the entries of an object on the target's behalf.
fn visit_map_ref<'de>(visitor: MapVisitor<'_>, de: &mut MapRefDeserializer<'de>, caps: Capabilities) -> (r: Result<
    Decoded<'de>,
    Error,
>)
    requires
        old(de).pending() is None,
    ensures
        r matches Ok(d) ==> d.lent(),
        outcome(r) == visit_map_model(old(de).remaining(), visitor, caps),
        r is Ok ==> final(de).remaining().len() + map_consumed(
            old(de).remaining(),
            visitor,
            caps,
        ) == old(de).remaining().len(),
    decreases 1int, old(de).unread(), Shape::Any, 3nat,
{
    match visitor {
        MapVisitor::Probe => match visit_probe_object_ref(de, caps) {
            Ok(v) => Ok(Decoded::Value(v)),
            Err(e) => Err(e),
        },
        MapVisitor::Entries(key, value) => match visit_entries_ref(de, key, value, caps) {
            Ok(out) => {
                proof {
                    lemma_mapping_view(out);
                }
                Ok(Decoded::Mapping(out))
            },
            Err(e) => Err(e),
        },
        MapVisitor::Fields(fields) => match visit_fields_ref(de, fields, caps) {
            Ok(out) => {
                proof {
                    lemma_sequence_view(out);
                }
                Ok(Decoded::Sequence(out))
            },
            Err(e) => Err(e),
        },
    }
}

/// Decodes an object through a walk, and refuses a walk that succeeded but
/// left entries behind.
pub fn visit_object_ref<'de>(
    object: &'de [(String, DType)],
    visitor: MapVisitor<'_>,
    caps: Capabilities,
) -> (r: Result<Decoded<'de>, Error>)
    ensures
        r matches Ok(d) ==> d.lent(),
        outcome(r) == visit_object_model(entry_trees(object@), visitor, caps),
    decreases 1int, entry_trees(object@), Shape::Any, 4nat,
{
    let len = object.len();
    let mut deserializer = MapRefDeserializer::new(object);
    match visit_map_ref(visitor, &mut deserializer, caps) {
        Ok(map) => match deserializer.end(len) {
            Ok(_) => Ok(map),
            Err(e) => Err(e),
        },
        Err(e) => Err(e),
    }
}

/// What a payload stands for, if there is one.
pub open spec fn payload_view_ref(payload: Option<&DType>) -> Option<Tree> {
    match payload {
        Some(v) => Some(v@),
        None => None,
    }
}

/// One where there is a payload, zero where there is none.
pub open spec fn payload_flag_ref(payload: Option<&DType>) -> int {
    if payload is Some {
        1
    } else {
        0
    }
}

/// What a payload stands for; nothing in particular where there is none.
pub open spec fn payload_tree_ref(payload: Option<&DType>) -> Tree {
    match payload {
        Some(v) => v@,
        None => Tree::Null,
    }
}

/// The payload of a variant, if one came with the name.
pub struct VariantRefDeserializer<'de> {
    pub value: Option<&'de DType>,
}

impl<'de> VariantRefDeserializer<'de> {
    /// Reads a variant without payload. A payload that came nevertheless
    /// must be the null value.
    pub fn unit_variant(self) -> (r: Result<Decoded<'de>, Error>)
        ensures
            r matches Ok(d) ==> d.lent(),
            forall|caps: Capabilities|
                outcome(r) == #[trigger] variant_model(
                    payload_view_ref(self.value),
                    VariantKind::Unit,
                    caps,
                ),
    {
        let ghost payload = payload_view_ref(self.value);
        match self.value {
            Some(value) => {
                let r = match value.deserialize_unit_ref() {
                    Ok(_) => Ok(Decoded::Unit),
                    Err(e) => Err(e),
                };
                proof {
                    assert forall|caps: Capabilities|
                        outcome(r) == #[trigger] variant_model(
                            payload,
                            VariantKind::Unit,
                            caps,
                        ) by {
                        let direct = decode_model(payload->0, Shape::Unit, caps);
                    }
                }
                r
            },
            None => Ok(Decoded::Unit),
        }
    }

    /// Reads a variant with one payload, decoded against `seed`. A bare
    /// name has none.
    pub fn newtype_variant_seed(self, seed: &Shape, caps: Capabilities) -> (r: Result<
        Decoded<'de>,
        Error,
    >)
        ensures
            r matches Ok(d) ==> d.lent(),
            outcome(r) == variant_model(
                payload_view_ref(self.value),
                VariantKind::Newtype(*seed),
                caps,
            ),
        decreases payload_flag_ref(self.value), payload_tree_ref(self.value), *seed, 2nat,
    {
        match self.value {
            Some(value) => decode_ref(value, seed, caps),
            None => Err(Error::MissingPayload),
        }
    }

    /// Reads a variant with positional fields: the payload must be an
    /// array, and an empty one counts as no fields at all.
    pub fn tuple_variant(self, shapes: &Vec<Shape>, caps: Capabilities) -> (r: Result<
        Decoded<'de>,
        Error,
    >)
        ensures
            r matches Ok(d) ==> d.lent(),
            outcome(r) == variant_model(
                payload_view_ref(self.value),
                VariantKind::Tuple(*shapes),
                caps,
            ),
        decreases payload_flag_ref(self.value), payload_tree_ref(self.value), *shapes, 2nat,
    {
        match self.value {
            Some(DType::Array(v)) => {
                proof {
                    lemma_array_view(*v);
                }
                if v.is_empty() {
                    if shapes.len() == 0 {
                        let out: Vec<Decoded<'de>> = Vec::new();
                        proof {
                            lemma_sequence_view(out);
                            assert(outs(out@) =~= Seq::empty());
                        }
                        Ok(Decoded::Sequence(out))
                    } else {
                        Err(Error::MissingElement(0))
                    }
                } else {
                    visit_array_ref(v.as_slice(), SeqVisitor::Tuple(shapes), caps)
                }
            },
            Some(other) => Err(other.invalid_type(Expected::TupleVariant)),
            None => Err(Error::TypeMismatch(Expected::TupleVariant, Found::UnitVariant)),
        }
    }

    /// Reads a variant with named fields: the payload must be an object.
    pub fn struct_variant(self, fields: &Vec<Field>, caps: Capabilities) -> (r: Result<
        Decoded<'de>,
        Error,
    >)
        ensures
            r matches Ok(d) ==> d.lent(),
            outcome(r) == variant_model(
                payload_view_ref(self.value),
                VariantKind::Struct(*fields),
                caps,
            ),
        decreases payload_flag_ref(self.value), payload_tree_ref(self.value), *fields, 2nat,
    {
        match self.value {
            Some(DType::Object(v)) => {
                proof {
                    lemma_object_view(*v);
                }
                visit_object_ref(v.as_slice(), MapVisitor::Fields(fields), caps)
            },
            Some(other) => Err(other.invalid_type(Expected::StructVariant)),
            None => Err(Error::TypeMismatch(Expected::StructVariant, Found::UnitVariant)),
        }
    }
}

/// A tagged union as the document gave it: the name, and the payload if one
/// came with it.
pub struct EnumRefDeserializer<'de> {
    pub variant: &'de str,
    pub value: Option<&'de DType>,
}

impl<'de> EnumRefDeserializer<'de> {
    /// Resolves the name among `variants`, and hands on the payload.
    pub fn variant_seed(self, variants: &Vec<Variant>) -> (r: Result<
        (usize, &'de str, VariantRefDeserializer<'de>),
        Error,
    >)
        ensures
            match r {
                Ok((j, name, access)) => variant_index(variants@, self.variant@) == Some(
                    j as int,
                ) && j < variants@.len() && name@ == self.variant@ && access.value == self.value,
                Err(e) => variant_index(variants@, self.variant@) is None && e@
                    == Fault::UnknownVariant(self.variant@),
            },
    {
        match find_variant(variants, self.variant) {
            Some(j) => Ok((j, self.variant, VariantRefDeserializer { value: self.value })),
            None => Err(Error::UnknownVariant(self.variant.to_owned())),
        }
    }
}

/// A tagged-union target reading what the document gave: it resolves the
/// name and reads the payload as the variant's kind asks.
fn visit_enum_ref<'de>(access: EnumRefDeserializer<'de>, variants: &Vec<Variant>, caps: Capabilities) -> (r:
    Result<Decoded<'de>, Error>)
    ensures
        r matches Ok(d) ==> d.lent(),
        outcome(r) == enum_model(access.variant@, payload_view_ref(access.value), variants@, caps),
    decreases payload_flag_ref(access.value), payload_tree_ref(access.value), *variants, 3nat,
{
    match access.variant_seed(variants) {
        Ok((j, name, variant)) => {
            let payload = match &variants[j].kind {
                VariantKind::Unit => variant.unit_variant(),
                VariantKind::Newtype(seed) => variant.newtype_variant_seed(seed, caps),
                VariantKind::Tuple(shapes) => variant.tuple_variant(shapes, caps),
                VariantKind::Struct(fields) => variant.struct_variant(fields, caps),
            };
            match payload {
                Ok(p) => Ok(Decoded::Variant(Cow::Borrowed(name), Box::new(p))),
                Err(e) => Err(e),
            }
        },
        Err(e) => Err(e),
    }
}

impl DType {
    /// Shows the value to a probe, which rebuilds it: a scalar as it is, an
    /// array element by element, an object entry by entry unless its first
    /// key makes it a capsule.
    pub fn deserialize_any_ref<'de>(&'de self, caps: Capabilities) -> (r: Result<Decoded<'de>, Error>)
        ensures
            r matches Ok(d) ==> d.lent(),
            outcome(r) == decode_model(self@, Shape::Any, caps),
        decreases 1int, self@, Shape::Any, 0nat,
    {
        match self {
            DType::Null => Ok(Decoded::Value(DType::Null)),
            DType::Boolean(v) => Ok(Decoded::Value(DType::Boolean(*v))),
            DType::Number(n) => Ok(Decoded::Value(DType::Number(*n))),
            DType::String(v) => Ok(Decoded::Value(DType::String(v.clone()))),
            DType::Array(v) => {
                proof {
                    lemma_array_view(*v);
                }
                visit_array_ref(v.as_slice(), SeqVisitor::Probe, caps)
            },
            DType::Object(v) => {
                proof {
                    lemma_object_view(*v);
                }
                visit_object_ref(v.as_slice(), MapVisitor::Probe, caps)
            },
            DType::DateTime(d) => Ok(Decoded::Value(DType::DateTime(*d))),
        }
    }

    /// Succeeds only on the null value.
    pub fn deserialize_unit_ref<'de>(&'de self) -> (r: Result<Decoded<'de>, Error>)
        ensures
            r matches Ok(d) ==> d.lent(),
            forall|caps: Capabilities| outcome(r) == #[trigger] decode_model(self@, Shape::Unit, caps),
    {
        match self {
            DType::Null => Ok(Decoded::Unit),
            other => Err(other.invalid_type(Expected::Unit)),
        }
    }

    /// Succeeds only on a boolean.
    pub fn deserialize_bool_ref<'de>(&'de self) -> (r: Result<Decoded<'de>, Error>)
        ensures
            r matches Ok(d) ==> d.lent(),
            forall|caps: Capabilities| outcome(r) == #[trigger] decode_model(self@, Shape::Bool, caps),
    {
        match self {
            DType::Boolean(v) => Ok(Decoded::Bool(*v)),
            other => Err(other.invalid_type(Expected::Bool)),
        }
    }

    /// Succeeds only on a number, which is narrowed to the given width.
    pub fn deserialize_integer_ref<'de>(&'de self, width: IntWidth, caps: Capabilities) -> (r: Result<
        Decoded<'de>,
        Error,
    >)
        ensures
            r matches Ok(d) ==> d.lent(),
            outcome(r) == decode_model(self@, Shape::Int(width), caps),
    {
        match self {
            DType::Number(n) => n.narrow(width, caps),
            other => Err(other.invalid_type(Expected::Integer)),
        }
    }

    /// Succeeds only on a number, which is handed on as the document has it.
    pub fn deserialize_float_ref<'de>(&'de self, width: FloatWidth) -> (r: Result<Decoded<'de>, Error>)
        ensures
            r matches Ok(d) ==> d.lent(),
            forall|caps: Capabilities|
                outcome(r) == #[trigger] decode_model(self@, Shape::Float(width), caps),
    {
        match self {
            DType::Number(n) => Ok(Decoded::Number(*n)),
            other => Err(other.invalid_type(Expected::Float)),
        }
    }

    /// Succeeds only on a string, which is lent to the target.
    pub fn deserialize_str_ref<'de>(&'de self) -> (r: Result<Decoded<'de>, Error>)
        ensures
            r matches Ok(d) ==> d.lent(),
            forall|caps: Capabilities| outcome(r) == #[trigger] decode_model(self@, Shape::Str, caps),
            r matches Ok(Decoded::Str(text)) ==> text is Borrowed,
    {
        match self {
            DType::String(v) => Ok(Decoded::Str(Cow::Borrowed(v.as_str()))),
            other => Err(other.invalid_type(Expected::Str)),
        }
    }

    /// An identifier is a string.
    pub fn deserialize_identifier_ref<'de>(&'de self) -> (r: Result<Decoded<'de>, Error>)
        ensures
            r matches Ok(d) ==> d.lent(),
            forall|caps: Capabilities| outcome(r) == #[trigger] decode_model(self@, Shape::Str, caps),
    {
        self.deserialize_str_ref()
    }

    /// Succeeds on a string, whose text is taken as bytes, and on an array,
    /// whose elements are taken as bytes one by one.
    pub fn deserialize_bytes_ref<'de>(&'de self, caps: Capabilities) -> (r: Result<Decoded<'de>, Error>)
        ensures
            r matches Ok(d) ==> d.lent(),
            outcome(r) == decode_model(self@, Shape::Bytes, caps),
        decreases 1int, self@, Shape::Bytes, 0nat,
    {
        match self {
            DType::String(v) => Ok(Decoded::Bytes(v.as_str().as_bytes_vec())),
            DType::Array(v) => {
                proof {
                    lemma_array_view(*v);
                }
                visit_array_ref(v.as_slice(), SeqVisitor::Bytes, caps)
            },
            other => Err(other.invalid_type(Expected::Bytes)),
        }
    }

    /// The null value is an absent payload; any other value is a present
    /// one, and is itself decoded against `inner`.
    pub fn deserialize_option_ref<'de>(&'de self, inner: &Shape, caps: Capabilities) -> (r: Result<
        Decoded<'de>,
        Error,
    >)
        ensures
            r matches Ok(d) ==> d.lent(),
            outcome(r) == decode_model(self@, Shape::Option(Box::new(*inner)), caps),
        decreases 1int, self@, *inner, 2nat,
    {
        match self {
            DType::Null => Ok(Decoded::Absent),
            other => match decode_ref(other, inner, caps) {
                Ok(d) => Ok(Decoded::Present(Box::new(d))),
                Err(e) => Err(e),
            },
        }
    }

    /// A target that only wraps another is shown the value in its place.
    pub fn deserialize_newtype_struct_ref<'de>(&'de self, inner: &Shape, caps: Capabilities) -> (r: Result<
        Decoded<'de>,
        Error,
    >)
        ensures
            r matches Ok(d) ==> d.lent(),
            outcome(r) == decode_model(self@, *inner, caps),
        decreases 1int, self@, *inner, 2nat,
    {
        decode_ref(self, inner, caps)
    }

    /// Succeeds only on an array, whose elements are all decoded against
    /// `elem`.
    pub fn deserialize_seq_ref<'de>(&'de self, elem: &Shape, caps: Capabilities) -> (r: Result<
        Decoded<'de>,
        Error,
    >)
        ensures
            r matches Ok(d) ==> d.lent(),
            outcome(r) == decode_model(self@, Shape::Sequence(Box::new(*elem)), caps),
        decreases 1int, self@, *elem, 2nat,
    {
        match self {
            DType::Array(v) => {
                proof {
                    lemma_array_view(*v);
                }
                visit_array_ref(v.as_slice(), SeqVisitor::Elements(elem), caps)
            },
            other => Err(other.invalid_type(Expected::Sequence)),
        }
    }

    /// Succeeds only on an array that holds one element for each of
    /// `shapes`, no fewer and no more.
    pub fn deserialize_tuple_ref<'de>(&'de self, shapes: &Vec<Shape>, caps: Capabilities) -> (r: Result<
        Decoded<'de>,
        Error,
    >)
        ensures
            r matches Ok(d) ==> d.lent(),
            outcome(r) == decode_model(self@, Shape::Tuple(*shapes), caps),
        decreases 1int, self@, *shapes, 2nat,
    {
        match self {
            DType::Array(v) => {
                proof {
                    lemma_array_view(*v);
                }
                visit_array_ref(v.as_slice(), SeqVisitor::Tuple(shapes), caps)
            },
            other => Err(other.invalid_type(Expected::Sequence)),
        }
    }

    /// Succeeds only on an object, whose entries are all decoded against
    /// the key shape and the value shape.
    pub fn deserialize_map_ref<'de>(&'de self, key: &Shape, value: &Shape, caps: Capabilities) -> (r: Result<
        Decoded<'de>,
        Error,
    >)
        ensures
            r matches Ok(d) ==> d.lent(),
            outcome(r) == decode_model(
                self@,
                Shape::Mapping(Box::new(*key), Box::new(*value)),
                caps,
            ),
        decreases 1int, self@, *value, 2nat,
    {
        match self {
            DType::Object(v) => {
                proof {
                    lemma_object_view(*v);
                }
                visit_object_ref(v.as_slice(), MapVisitor::Entries(key, value), caps)
            },
            other => Err(other.invalid_type(Expected::Mapping)),
        }
    }

    /// Succeeds on an object, read by the names of `fields`, and on an
    /// array, read by their positions.
    pub fn deserialize_struct_ref<'de>(&'de self, fields: &Vec<Field>, caps: Capabilities) -> (r: Result<
        Decoded<'de>,
        Error,
    >)
        ensures
            r matches Ok(d) ==> d.lent(),
            outcome(r) == decode_model(self@, Shape::Struct(*fields), caps),
        decreases 1int, self@, *fields, 2nat,
    {
        match self {
            DType::Array(v) => {
                proof {
                    lemma_array_view(*v);
                }
                visit_array_ref(v.as_slice(), SeqVisitor::Fields(fields), caps)
            },
            DType::Object(v) => {
                proof {
                    lemma_object_view(*v);
                }
                visit_object_ref(v.as_slice(), MapVisitor::Fields(fields), caps)
            },
            other => Err(other.invalid_type(Expected::Struct)),
        }
    }

    /// Reads a tagged union: a string names a variant without payload, an
    /// object with exactly one entry names a variant by its key and carries
    /// the payload as its value.
    pub fn deserialize_enum_ref<'de>(&'de self, variants: &Vec<Variant>, caps: Capabilities) -> (r: Result<
        Decoded<'de>,
        Error,
    >)
        ensures
            r matches Ok(d) ==> d.lent(),
            outcome(r) == decode_model(self@, Shape::Enum(*variants), caps),
        decreases 1int, self@, *variants, 2nat,
    {
        match self.as_enum() {
            Ok(access) => {
                proof {
                    if self@ is Object {
                        assert(payload_tree_ref(access.value) == self@->Object_0[0].1);
                    }
                }
                visit_enum_ref(access, variants, caps)
            },
            Err(e) => Err(e),
        }
    }

    /// Reads the value as a tagged union: a string is a name without
    /// payload, an object with exactly one entry is a name with a payload.
    /// Any other object is an invalid encoding, any other value a mismatch.
    pub fn as_enum(&self) -> (r: Result<EnumRefDeserializer<'_>, Error>)
        ensures
            match r {
                Ok(access) => enum_parts(self@) == Ok::<
                    (Seq<char>, Option<Tree>),
                    Fault,
                >((access.variant@, payload_view_ref(access.value))),
                Err(e) => enum_parts(self@) == Err::<
                    (Seq<char>, Option<Tree>),
                    Fault,
                >(e@),
            },
    {
        match self {
            DType::Object(value) => {
                proof {
                    lemma_object_view(*value);
                }
                if value.len() != 1 {
                    return Err(Error::InvalidVariantEncoding);
                }
                let entry = &value[0];
                Ok(EnumRefDeserializer { variant: entry.0.as_str(), value: Some(&entry.1) })
            },
            DType::String(variant) => Ok(
                EnumRefDeserializer { variant: variant.as_str(), value: None },
            ),
            other => Err(other.invalid_type(Expected::Enum)),
        }
    }

    /// Succeeds whatever the value is, and looks no further.
    pub fn deserialize_ignored_any_ref<'de>(&'de self) -> (r: Result<Decoded<'de>, Error>)
        ensures
            r matches Ok(d) ==> d.lent(),
            forall|caps: Capabilities|
                outcome(r) == #[trigger] decode_model(self@, Shape::Ignored, caps),
    {
        Ok(Decoded::Unit)
    }

    /// Rebuilds a value from a value that is only read: what a probe finds.
    pub fn deserialize_ref(source: &DType, caps: Capabilities) -> (r: Result<DType, Error>)
        ensures
            match r {
                Ok(v) => decode_model(source@, Shape::Any, caps) == Ok::<Out, Fault>(
                    Out::Value(v@),
                ),
                Err(e) => decode_model(source@, Shape::Any, caps) == Err::<Out, Fault>(e@),
            },
    {
        proof {
            lemma_probe_yields_value(source@, caps);
        }
        match source.deserialize_any_ref(caps) {
            Ok(probed) => Ok(probed.into_value()),
            Err(e) => Err(e),
        }
    }
}

/// Decodes `value` against `shape`, reading the value only.
///
/// The result is that of the consuming traversal on an equal value; the
/// value itself stays as it is and can be decoded again.
pub fn decode_ref<'de>(value: &'de DType, shape: &Shape, caps: Capabilities) -> (r: Result<Decoded<'de>, Error>)
    ensures
        r matches Ok(d) ==> d.lent(),
        outcome(r) == decode_model(value@, *shape, caps),
    decreases 1int, value@, *shape, 1nat,
{
    match shape {
        Shape::Any => value.deserialize_any_ref(caps),
        Shape::Unit => value.deserialize_unit_ref(),
        Shape::Bool => value.deserialize_bool_ref(),
        Shape::Int(width) => value.deserialize_integer_ref(*width, caps),
        Shape::Float(width) => value.deserialize_float_ref(*width),
        Shape::Str => value.deserialize_str_ref(),
        Shape::Bytes => value.deserialize_bytes_ref(caps),
        Shape::Option(inner) => value.deserialize_option_ref(inner, caps),
        Shape::Sequence(elem) => value.deserialize_seq_ref(elem, caps),
        Shape::Tuple(shapes) => value.deserialize_tuple_ref(shapes, caps),
        Shape::Mapping(key, val) => value.deserialize_map_ref(key, val, caps),
        Shape::Struct(fields) => value.deserialize_struct_ref(fields, caps),
        Shape::Enum(variants) => value.deserialize_enum_ref(variants, caps),
        Shape::Ignored => value.deserialize_ignored_any_ref(),
    }
}

} // verus!
