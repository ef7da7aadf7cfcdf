//! What a successful decode hands to the target.

use crate::value::{DType, Number, Tree};
use std::borrow::Cow;
use vstd::prelude::*;

verus! {

/// A decoded value, in the form the target asked for.
#[derive(Debug, PartialEq, Eq)]
pub enum Decoded<'de> {
    Unit,
    Bool(bool),
    /// An integer within the range of the requested signed width.
    Int(i128),
    /// An integer within the range of the requested unsigned width.
    UInt(u128),
    /// A numeric literal for a floating-point target, left as the document
    /// had it.
    Number(Number),
    /// Text, lent by the document where it can be.
    Str(Cow<'de, str>),
    Bytes(Vec<u8>),
    /// An optional target that found nothing.
    Absent,
    /// An optional target that found a payload.
    Present(Box<Decoded<'de>>),
    /// The elements of a sequence, a tuple or a record, in order.
    Sequence(Vec<Decoded<'de>>),
    /// Key and value of each entry, in document order.
    Mapping(Vec<(Decoded<'de>, Decoded<'de>)>),
    /// A variant of a tagged union, by name, with its payload.
    Variant(Cow<'de, str>, Box<Decoded<'de>>),
    /// What a probe found: the value itself.
    Value(DType),
}

/// The mathematical value of a [`Decoded`].
pub ghost enum Out {
    Unit,
    Bool(bool),
    Int(i128),
    UInt(u128),
    Number(Number),
    Str(Seq<char>),
    Bytes(Seq<u8>),
    Absent,
    Present(Box<Out>),
    Sequence(Seq<Out>),
    Mapping(Seq<(Out, Out)>),
    Variant(Seq<char>, Box<Out>),
    Value(Tree),
}

/// The values of the first `n` of a run of decoded elements.
pub open spec fn outs_upto<'de>(items: Seq<Decoded<'de>>, n: nat) -> Seq<Out>
    decreases items, n,
{
    if n == 0 || n > items.len() {
        Seq::empty()
    } else {
        outs_upto(items, (n - 1) as nat).push(items[n - 1].view())
    }
}

/// The values of the first `n` of a run of decoded entries.
pub open spec fn pairs_upto<'de>(entries: Seq<(Decoded<'de>, Decoded<'de>)>, n: nat) -> Seq<(Out, Out)>
    decreases entries, n,
{
    if n == 0 || n > entries.len() {
        Seq::empty()
    } else {
        pairs_upto(entries, (n - 1) as nat).push(
            (entries[n - 1].0.view(), entries[n - 1].1.view()),
        )
    }
}

impl<'de> View for Decoded<'de> {
    type V = Out;

    open spec fn view(&self) -> Out
        decreases self,
    {
        match self {
            Decoded::Unit => Out::Unit,
            Decoded::Bool(b) => Out::Bool(*b),
            Decoded::Int(i) => Out::Int(*i),
            Decoded::UInt(u) => Out::UInt(*u),
            Decoded::Number(n) => Out::Number(*n),
            Decoded::Str(s) => Out::Str(s@),
            Decoded::Bytes(b) => Out::Bytes(b@),
            Decoded::Absent => Out::Absent,
            Decoded::Present(inner) => Out::Present(Box::new((**inner).view())),
            Decoded::Sequence(items) => Out::Sequence(outs_upto(items@, items@.len())),
            Decoded::Mapping(entries) => Out::Mapping(pairs_upto(entries@, entries@.len())),
            Decoded::Variant(name, payload) => Out::Variant(name@, Box::new((**payload).view())),
            Decoded::Value(v) => Out::Value(v@),
        }
    }
}

impl<'de> Decoded<'de> {
    /// Whether every text in the value is lent: each string and each
    /// variant name is a reference, none a copy.
    pub open spec fn lent(&self) -> bool
        decreases self,
    {
        match self {
            Decoded::Str(text) => text is Borrowed,
            Decoded::Present(inner) => (**inner).lent(),
            Decoded::Variant(name, payload) => name is Borrowed && (**payload).lent(),
            Decoded::Sequence(items) => forall|i: int|
                0 <= i < items@.len() ==> (#[trigger] items@[i]).lent(),
            Decoded::Mapping(entries) => forall|i: int|
                0 <= i < entries@.len() ==> (#[trigger] entries@[i]).0.lent()
                    && entries@[i].1.lent(),
            _ => true,
        }
    }

    /// The value that a probe handed back.
    pub(crate) fn into_value(self) -> (v: DType)
        requires
            self is Value,
        ensures
            self == Decoded::Value(v),
    {
        match self {
            Decoded::Value(v) => v,
            _ => unreached(),
        }
    }

    /// The text that a string target received.
    pub(crate) fn into_text(self) -> (s: Cow<'de, str>)
        requires
            self is Str,
        ensures
            self == Decoded::Str(s),
    {
        match self {
            Decoded::Str(s) => s,
            _ => unreached(),
        }
    }

    /// The byte that a target of eight unsigned bits received.
    pub(crate) fn into_byte(self) -> (b: u8)
        requires
            self is UInt,
            self->UInt_0 <= 255,
        ensures
            b == self->UInt_0,
    {
        match self {
            Decoded::UInt(b) => b as u8,
            _ => unreached(),
        }
    }
}

/// The mathematical value of a decode result.
pub open spec fn outcome<'de>(r: Result<Decoded<'de>, crate::error::Error>) -> Result<
    Out,
    crate::error::Fault,
> {
    match r {
        Ok(d) => Ok(d@),
        Err(e) => Err(e@),
    }
}

/// The values of a run of decoded elements.
pub open spec fn outs<'de>(items: Seq<Decoded<'de>>) -> Seq<Out> {
    Seq::new(items.len(), |i: int| items[i]@)
}

/// The values of a run of decoded entries.
pub open spec fn out_pairs<'de>(entries: Seq<(Decoded<'de>, Decoded<'de>)>) -> Seq<(Out, Out)> {
    Seq::new(entries.len(), |i: int| (entries[i].0@, entries[i].1@))
}

proof fn lemma_outs_upto<'de>(items: Seq<Decoded<'de>>, n: nat)
    requires
        n <= items.len(),
    ensures
        outs_upto(items, n) =~= outs(items).take(n as int),
    decreases n,
{
    if n > 0 {
        lemma_outs_upto(items, (n - 1) as nat);
        let a = outs_upto(items, n);
        let b = outs_upto(items, (n - 1) as nat);
        assert(a == b.push(items[n - 1].view()));
        assert(b.len() == n - 1);
        assert(a.len() == n);
    } else {
        assert(outs_upto(items, n).len() == 0);
    }
}

proof fn lemma_pairs_upto<'de>(entries: Seq<(Decoded<'de>, Decoded<'de>)>, n: nat)
    requires
        n <= entries.len(),
    ensures
        pairs_upto(entries, n) =~= out_pairs(entries).take(n as int),
    decreases n,
{
    if n > 0 {
        lemma_pairs_upto(entries, (n - 1) as nat);
        let a = pairs_upto(entries, n);
        let b = pairs_upto(entries, (n - 1) as nat);
        assert(a == b.push((entries[n - 1].0.view(), entries[n - 1].1.view())));
        assert(b.len() == n - 1);
        assert(a.len() == n);
    } else {
        assert(pairs_upto(entries, n).len() == 0);
    }
}

/// A decoded sequence has the values of its elements.
pub proof fn lemma_sequence_view<'de>(items: Vec<Decoded<'de>>)
    ensures
        Decoded::Sequence(items)@ == Out::Sequence(outs(items@)),
{
    lemma_outs_upto(items@, items@.len());
    assert(outs(items@).take(items@.len() as int) =~= outs(items@));
    assert(Decoded::Sequence(items)@ == Out::Sequence(outs_upto(items@, items@.len())));
}

/// A decoded map has the values of its entries.
pub proof fn lemma_mapping_view<'de>(entries: Vec<(Decoded<'de>, Decoded<'de>)>)
    ensures
        Decoded::Mapping(entries)@ == Out::Mapping(out_pairs(entries@)),
{
    lemma_pairs_upto(entries@, entries@.len());
    assert(out_pairs(entries@).take(entries@.len() as int) =~= out_pairs(entries@));
    assert(Decoded::Mapping(entries)@ == Out::Mapping(pairs_upto(entries@, entries@.len())));
}

} // verus!
