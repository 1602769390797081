//! Value transforms on sequences: neither changes its input.
use vstd::prelude::*;
use crate::assignment::{first_blank, lemma_first_blank_at, lemma_first_blank_found};

verus! {

/// Copies `xs` with its first blank slot set to `y`. Every other slot, blank
/// or filled, is copied as it is; with no blank slot `y` is dropped.
pub fn splice<T>(xs: &[Option<T>], y: T) -> (filled: Vec<Option<T>>) where T: Clone
    ensures
        filled@.len() == xs@.len(),
        forall|i: int|
            0 <= i < xs@.len() ==> if first_blank(xs@) == Some(i) {
                filled@[i] == Some(y)
            } else if xs@[i] is None {
                filled@[i] is None
            } else {
                filled@[i] is Some && cloned(xs@[i]->0, filled@[i]->0)
            },
{
    let mut out: Vec<Option<T>> = Vec::new();
    let mut pending: Option<T> = Some(y);
    let mut i: usize = 0;
    while i < xs.len()
        invariant
            i <= xs.len(),
            out@.len() == i,
            pending is Some ==> pending == Some(y) && forall|j: int| 0 <= j < i ==> xs@[j] is Some,
            pending is None ==> exists|b: int| 0 <= b < i && first_blank(xs@) == Some(b),
            forall|k: int|
                0 <= k < i ==> if first_blank(xs@) == Some(k) {
                    out@[k] == Some(y)
                } else if xs@[k] is None {
                    out@[k] is None
                } else {
                    out@[k] is Some && cloned(xs@[k]->0, out@[k]->0)
                },
        decreases xs.len() - i,
    {
        proof {
            lemma_first_blank_found(xs@);
        }
        match &xs[i] {
            Some(value) => {
                out.push(Some(value.clone()));
            },
            None => {
                proof {
                    if pending is Some {
                        lemma_first_blank_at(xs@, i as int);
                    }
                }
                out.push(pending.take());
            },
        }
        i += 1;
    }
    out
}

/// Copies `xs` and puts a copy of `y` behind its last element.
pub fn append<T>(xs: &[T], y: &T) -> (extended: Vec<T>) where T: Clone
    ensures
        extended@.len() == xs@.len() + 1,
        forall|i: int| 0 <= i < xs@.len() ==> cloned(xs@[i], #[trigger] extended@[i]),
        cloned(*y, extended@[xs@.len() as int]),
{
    let mut out: Vec<T> = Vec::new();
    let mut i: usize = 0;
    while i < xs.len()
        invariant
            i <= xs.len(),
            out@.len() == i,
            forall|k: int| 0 <= k < i ==> cloned(xs@[k], #[trigger] out@[k]),
        decreases xs.len() - i,
    {
        out.push(xs[i].clone());
        i += 1;
    }
    out.push(y.clone());
    out
}

/// Copies `xs`, element by element.
pub fn copy<T>(xs: &[T]) -> (copied: Vec<T>) where T: Clone
    ensures
        copied@.len() == xs@.len(),
        forall|i: int| 0 <= i < xs@.len() ==> cloned(xs@[i], #[trigger] copied@[i]),
{
    let mut out: Vec<T> = Vec::new();
    let mut i: usize = 0;
    while i < xs.len()
        invariant
            i <= xs.len(),
            out@.len() == i,
            forall|k: int| 0 <= k < i ==> cloned(xs@[k], #[trigger] out@[k]),
        decreases xs.len() - i,
    {
        out.push(xs[i].clone());
        i += 1;
    }
    out
}

} // verus!
