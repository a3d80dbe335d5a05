//! The first position at which something holds.

use vstd::prelude::*;

verus! {

/// `index` is the first position at which `flags` is true.
pub open spec fn is_first_true(flags: Seq<bool>, index: int) -> bool {
    &&& 0 <= index < flags.len()
    &&& flags[index]
    &&& forall|j: int| 0 <= j < index ==> !#[trigger] flags[j]
}

/// The first position at which `flags` is true.
pub open spec fn first_true(flags: Seq<bool>) -> Option<int> {
    if exists|i: int| is_first_true(flags, i) {
        Some(choose|i: int| is_first_true(flags, i))
    } else {
        None
    }
}

proof fn lemma_some_true(flags: Seq<bool>, index: int)
    requires
        0 <= index < flags.len(),
        flags[index],
    ensures
        exists|i: int| is_first_true(flags, i),
    decreases index,
{
    if exists|j: int| 0 <= j < index && #[trigger] flags[j] {
        let j = choose|j: int| 0 <= j < index && #[trigger] flags[j];
        lemma_some_true(flags, j);
    } else {
        assert(is_first_true(flags, index));
    }
}

/// `first_true` gives the first true position, and nothing only where no
/// position is true.
pub proof fn lemma_first_true(flags: Seq<bool>)
    ensures
        match first_true(flags) {
            Some(i) => is_first_true(flags, i),
            None => forall|j: int| 0 <= j < flags.len() ==> !#[trigger] flags[j],
        },
{
    if first_true(flags) is None {
        assert forall|j: int| 0 <= j < flags.len() implies !#[trigger] flags[j] by {
            if flags[j] {
                lemma_some_true(flags, j);
            }
        }
    }
}

/// The first true position is what `first_true` gives.
pub proof fn lemma_is_first_true(flags: Seq<bool>, index: int)
    requires
        is_first_true(flags, index),
    ensures
        first_true(flags) == Some(index),
{
    let found = choose|i: int| is_first_true(flags, i);
    assert(is_first_true(flags, found));
    if found < index {
        assert(!flags[found]);
    } else if index < found {
        assert(!flags[index]);
    }
}

} // verus!
