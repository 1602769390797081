//! Assignments as mathematical sequences: one slot per cell in row-major
//! order, `None` for a blank cell.
use vstd::prelude::*;

verus! {

/// Position of the first blank slot, if there is one.
#[verifier::opaque]
pub open spec fn first_blank<T>(xs: Seq<Option<T>>) -> Option<int> {
    if exists|i: int| 0 <= i < xs.len() && xs[i] is None {
        Some(
            choose|i: int|
                0 <= i < xs.len() && xs[i] is None && forall|j: int| 0 <= j < i ==> xs[j] is Some,
        )
    } else {
        None
    }
}

/// The assignment with its first blank slot set to `y`; the assignment itself
/// when it has no blank slot.
pub open spec fn fill_first_blank<T>(xs: Seq<Option<T>>, y: T) -> Seq<Option<T>> {
    match first_blank(xs) {
        Some(i) => xs.update(i, Some(y)),
        None => xs,
    }
}

/// No slot is blank.
pub open spec fn is_complete<T>(xs: Seq<Option<T>>) -> bool {
    forall|i: int| 0 <= i < xs.len() ==> xs[i] is Some
}

/// Number of blank slots.
pub open spec fn blank_count<T>(xs: Seq<Option<T>>) -> nat
    decreases xs.len(),
{
    if xs.len() == 0 {
        0
    } else {
        blank_count(xs.drop_last()) + if xs.last() is None {
            1nat
        } else {
            0nat
        }
    }
}

/// The symbols of an assignment, slot by slot. It is meant for complete
/// assignments.
pub open spec fn symbols<T>(xs: Seq<Option<T>>) -> Seq<T> {
    Seq::new(xs.len(), |i: int| xs[i]->0)
}

/// The complete assignment that holds the given symbols.
pub open spec fn clues<T>(symbols: Seq<T>) -> Seq<Option<T>> {
    Seq::new(symbols.len(), |i: int| Some(symbols[i]))
}

proof fn lemma_least_blank<T>(xs: Seq<Option<T>>, b: int)
    requires
        0 <= b < xs.len(),
        xs[b] is None,
    ensures
        exists|i: int|
            0 <= i < xs.len() && xs[i] is None && forall|j: int| 0 <= j < i ==> xs[j] is Some,
    decreases b,
{
    if exists|j: int| 0 <= j < b && xs[j] is None {
        lemma_least_blank(xs, choose|j: int| 0 <= j < b && xs[j] is None);
    } else {
        assert(0 <= b < xs.len() && xs[b] is None && forall|j: int| 0 <= j < b ==> xs[j] is Some);
    }
}

/// What `first_blank` finds: a blank slot with no blank slot before it, or
/// nothing when every slot is filled.
pub proof fn lemma_first_blank_found<T>(xs: Seq<Option<T>>)
    ensures
        match first_blank(xs) {
            Some(i) => 0 <= i < xs.len() && xs[i] is None && forall|j: int|
                0 <= j < i ==> xs[j] is Some,
            None => is_complete(xs),
        },
{
    reveal(first_blank);
    if exists|i: int| 0 <= i < xs.len() && xs[i] is None {
        lemma_least_blank(xs, choose|i: int| 0 <= i < xs.len() && xs[i] is None);
    }
}

/// A blank slot with no blank slot before it is the first blank slot.
pub proof fn lemma_first_blank_at<T>(xs: Seq<Option<T>>, i: int)
    requires
        0 <= i < xs.len(),
        xs[i] is None,
        forall|j: int| 0 <= j < i ==> xs[j] is Some,
    ensures
        first_blank(xs) == Some(i),
{
    lemma_first_blank_found(xs);
    let k = first_blank(xs)->0;
    if k < i {
        assert(xs[k] is Some);
    } else if i < k {
        assert(xs[i] is Some);
    }
}

/// Setting a blank slot lowers the number of blank slots by one.
pub proof fn lemma_blank_count_update<T>(xs: Seq<Option<T>>, i: int, y: T)
    requires
        0 <= i < xs.len(),
        xs[i] is None,
    ensures
        blank_count(xs.update(i, Some(y))) + 1 == blank_count(xs),
    decreases xs.len(),
{
    let filled = xs.update(i, Some(y));
    if i == xs.len() - 1 {
        assert(filled.drop_last() =~= xs.drop_last());
    } else {
        lemma_blank_count_update(xs.drop_last(), i, y);
        assert(filled.drop_last() =~= xs.drop_last().update(i, Some(y)));
    }
}

/// Filling the first blank slot of an incomplete assignment lowers the number
/// of blank slots by one.
pub proof fn lemma_fill_lowers_blank_count<T>(xs: Seq<Option<T>>, y: T)
    requires
        !is_complete(xs),
    ensures
        blank_count(fill_first_blank(xs, y)) + 1 == blank_count(xs),
{
    lemma_first_blank_found(xs);
    lemma_blank_count_update(xs, first_blank(xs)->0, y);
}

/// Reading the symbols of the clues made of `s` gives `s` back.
pub proof fn lemma_symbols_of_clues<T>(s: Seq<T>)
    ensures
        symbols(clues(s)) == s,
        is_complete(clues(s)),
        clues(s).len() == s.len(),
{
    assert(symbols(clues(s)) =~= s);
}

} // verus!
