//! Stepping through a sequence from its front.

use vstd::prelude::*;

verus! {

/// What is left of a sequence after its first `i` elements: all of it where
/// `i` is zero, else a shorter part of it; and where an element is left,
/// the first of them is the one at `i`, and the rest is what is left after
/// `i + 1`.
pub proof fn lemma_skip_step<T>(all: Seq<T>, i: int)
    requires
        0 <= i <= all.len(),
    ensures
        all.skip(0) == all,
        all.skip(i) == all.subrange(i, all.len() as int),
        i < all.len() ==> all.skip(i)[0] == all[i] && all.skip(i).drop_first() == all.skip(i + 1),
{
    assert(all.skip(0) =~= all);
    assert(all.skip(i) =~= all.subrange(i, all.len() as int));
    if i < all.len() {
        assert(all.skip(i).drop_first() =~= all.skip(i + 1));
    }
}

} // verus!
