//! The document model: a closed set of seven variants.

use vstd::prelude::*;

verus! {

/// A numeric literal as the document carries it.
///
/// A floating-point literal is held by its IEEE-754 bit pattern, so that the
/// value stays a plain, comparable datum.
#[derive(Clone, Copy, Debug, PartialEq, Eq, Structural)]
pub enum Number {
    /// A non-negative integer.
    PosInt(u64),
    /// A negative integer.
    NegInt(i64),
    /// The bit pattern of a 64-bit float.
    Float(u64),
}

/// An opaque timestamp, in seconds and nanoseconds since the epoch.
#[derive(Clone, Copy, Debug, PartialEq, Eq, Structural)]
pub struct DateTime {
    pub seconds: i64,
    pub nanos: u32,
}

/// A dynamic document value.
#[derive(Debug, PartialEq, Eq)]
pub enum DType {
    Null,
    Boolean(bool),
    Number(Number),
    String(String),
    Array(Vec<DType>),
    /// Key/value pairs in insertion order.
    Object(Vec<(String, DType)>),
    DateTime(DateTime),
}

/// The mathematical value that a [`DType`] stands for.
pub ghost enum Tree {
    Null,
    Boolean(bool),
    Number(Number),
    String(Seq<char>),
    Array(Seq<Tree>),
    Object(Seq<(Seq<char>, Tree)>),
    DateTime(DateTime),
}

/// What the first `n` of a run of documents stand for.
pub open spec fn trees_upto(items: Seq<DType>, n: nat) -> Seq<Tree>
    decreases items, n,
{
    if n == 0 || n > items.len() {
        Seq::empty()
    } else {
        trees_upto(items, (n - 1) as nat).push(items[n - 1].view())
    }
}

/// What the first `n` of a run of keyed documents stand for.
pub open spec fn entries_upto(entries: Seq<(String, DType)>, n: nat) -> Seq<(Seq<char>, Tree)>
    decreases entries, n,
{
    if n == 0 || n > entries.len() {
        Seq::empty()
    } else {
        entries_upto(entries, (n - 1) as nat).push((entries[n - 1].0@, entries[n - 1].1.view()))
    }
}

impl View for DType {
    type V = Tree;

    open spec fn view(&self) -> Tree
        decreases self,
    {
        match self {
            DType::Null => Tree::Null,
            DType::Boolean(b) => Tree::Boolean(*b),
            DType::Number(n) => Tree::Number(*n),
            DType::String(s) => Tree::String(s@),
            DType::Array(items) => Tree::Array(trees_upto(items@, items@.len())),
            DType::Object(entries) => Tree::Object(entries_upto(entries@, entries@.len())),
            DType::DateTime(d) => Tree::DateTime(*d),
        }
    }
}

/// What a run of documents stands for.
pub open spec fn trees(items: Seq<DType>) -> Seq<Tree> {
    Seq::new(items.len(), |i: int| items[i]@)
}

/// What a run of keyed documents stands for.
pub open spec fn entry_trees(entries: Seq<(String, DType)>) -> Seq<(Seq<char>, Tree)> {
    Seq::new(entries.len(), |i: int| (entries[i].0@, entries[i].1@))
}

proof fn lemma_trees_upto(items: Seq<DType>, n: nat)
    requires
        n <= items.len(),
    ensures
        trees_upto(items, n) =~= trees(items).take(n as int),
    decreases n,
{
    if n > 0 {
        lemma_trees_upto(items, (n - 1) as nat);
        let a = trees_upto(items, n);
        let b = trees_upto(items, (n - 1) as nat);
        assert(a == b.push(items[n - 1].view()));
        assert(b.len() == n - 1);
        assert(a.len() == n);
    } else {
        assert(trees_upto(items, n).len() == 0);
    }
}

proof fn lemma_entries_upto(entries: Seq<(String, DType)>, n: nat)
    requires
        n <= entries.len(),
    ensures
        entries_upto(entries, n) =~= entry_trees(entries).take(n as int),
    decreases n,
{
    if n > 0 {
        lemma_entries_upto(entries, (n - 1) as nat);
        let a = entries_upto(entries, n);
        let b = entries_upto(entries, (n - 1) as nat);
        assert(a == b.push((entries[n - 1].0@, entries[n - 1].1.view())));
        assert(b.len() == n - 1);
        assert(a.len() == n);
    } else {
        assert(entries_upto(entries, n).len() == 0);
    }
}

/// An array stands for the array of what its elements stand for.
pub proof fn lemma_array_view(items: Vec<DType>)
    ensures
        DType::Array(items)@ == Tree::Array(trees(items@)),
{
    lemma_trees_upto(items@, items@.len());
    assert(trees(items@).take(items@.len() as int) =~= trees(items@));
    assert(DType::Array(items)@ == Tree::Array(trees_upto(items@, items@.len())));
}

/// An object stands for the object of what its entries stand for.
pub proof fn lemma_object_view(entries: Vec<(String, DType)>)
    ensures
        DType::Object(entries)@ == Tree::Object(entry_trees(entries@)),
{
    lemma_entries_upto(entries@, entries@.len());
    assert(entry_trees(entries@).take(entries@.len() as int) =~= entry_trees(entries@));
    assert(DType::Object(entries)@ == Tree::Object(entries_upto(entries@, entries@.len())));
}

/// The position of the first entry with the given key, looking from
/// position `i` on.
pub open spec fn key_from(entries: Seq<(String, DType)>, key: Seq<char>, i: nat) -> Option<int>
    decreases entries.len() - i,
{
    if i >= entries.len() {
        None
    } else if entries[i as int].0@ == key {
        Some(i as int)
    } else {
        key_from(entries, key, i + 1)
    }
}

/// No two entries have the same key.
pub open spec fn unique_keys(entries: Seq<(String, DType)>) -> bool {
    forall|a: int, b: int|
        0 <= a < b < entries.len() ==> (#[trigger] entries[a]).0@ != (#[trigger] entries[b]).0@
}

/// Writes an entry into an object under construction. The last write to a
/// key wins: an entry that has the key keeps its place and takes the new
/// value; a new key is added at the end.
pub fn insert(entries: &mut Vec<(String, DType)>, key: String, value: DType)
    ensures
        match key_from(old(entries)@, key@, 0) {
            Some(i) => final(entries)@.len() == old(entries)@.len() && final(entries)@[i].0@ == key@
                && final(entries)@[i].1 == value && forall|j: int|
                0 <= j < old(entries)@.len() && j != i ==> final(entries)@[j] == old(entries)@[j],
            None => final(entries)@ == old(entries)@.push((key, value)),
        },
        unique_keys(old(entries)@) ==> unique_keys(final(entries)@),
{
    let ghost before = entries@;
    let mut i: usize = 0;
    while i < entries.len()
        invariant
            i <= entries@.len(),
            entries@ == before,
            before == old(entries)@,
            key_from(before, key@, i as nat) == key_from(before, key@, 0),
            forall|j: int| 0 <= j < i ==> (#[trigger] before[j]).0@ != key@,
        decreases entries@.len() - i,
    {
        if entries[i].0 == key {
            assert(key_from(before, key@, i as nat) == Some(i as int));
            entries[i] = (key, value);
            proof {
                let after = entries@;
                assert(after == before.update(i as int, (key, value)));
                if unique_keys(before) {
                    assert forall|a: int, b: int| 0 <= a < b < after.len() implies (
                    #[trigger] after[a]).0@ != (#[trigger] after[b]).0@ by {
                        assert(after[a].0@ == before[a].0@);
                        assert(after[b].0@ == before[b].0@);
                        assert(before[a].0@ != before[b].0@);
                    }
                }
            }
            return ;
        }
        i += 1;
    }
    entries.push((key, value));
    proof {
        let after = entries@;
        if unique_keys(before) {
            assert forall|a: int, b: int| 0 <= a < b < after.len() implies (#[trigger] after[a]).0@
                != (#[trigger] after[b]).0@ by {
                if b < before.len() {
                    assert(before[a].0@ != before[b].0@);
                } else {
                    assert(before[a].0@ != key@);
                }
            }
        }
    }
}

} // verus!
