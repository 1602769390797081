//! Two notions on mathematical sequences that the rules are stated with:
//! keeping what a partial function maps, and holding a value twice.
use vstd::prelude::*;

verus! {

/// The values `f(x)` for the elements `x` of `s` on which `f` is defined, in
/// the order of `s`.
pub open spec fn filter_map<A, B>(s: Seq<A>, f: spec_fn(A) -> Option<B>) -> Seq<B>
    decreases s.len(),
{
    if s.len() == 0 {
        Seq::empty()
    } else {
        match f(s.last()) {
            Some(y) => filter_map(s.drop_last(), f).push(y),
            None => filter_map(s.drop_last(), f),
        }
    }
}

/// `f`, then `g` on what `f` gave.
pub open spec fn and_then<A, B, C>(f: spec_fn(A) -> Option<B>, g: spec_fn(B) -> Option<C>)
    -> spec_fn(A) -> Option<C> {
    |x: A|
        match f(x) {
            Some(y) => g(y),
            None => None,
        }
}

/// Two different positions of `s` hold the same value.
pub open spec fn has_duplicates<T>(s: Seq<T>) -> bool {
    exists|i: int, j: int| 0 <= i < j < s.len() && #[trigger] s[i] == #[trigger] s[j]
}

/// One more element of the input adds at most one element to the output.
pub proof fn lemma_filter_map_step<A, B>(s: Seq<A>, f: spec_fn(A) -> Option<B>, n: int)
    requires
        0 <= n < s.len(),
    ensures
        filter_map(s.take(n + 1), f) == match f(s[n]) {
            Some(y) => filter_map(s.take(n), f).push(y),
            None => filter_map(s.take(n), f),
        },
{
    assert(s.take(n + 1).drop_last() =~= s.take(n));
}

/// The output holds `y` exactly when `f` maps some element of the input to `y`.
pub proof fn lemma_filter_map_contains<A, B>(s: Seq<A>, f: spec_fn(A) -> Option<B>, y: B)
    ensures
        filter_map(s, f).contains(y) <==> exists|p: int|
            0 <= p < s.len() && f(#[trigger] s[p]) == Some(y),
    decreases s.len(),
{
    let out = filter_map(s, f);
    if s.len() > 0 {
        let front = s.drop_last();
        let rest = filter_map(front, f);
        lemma_filter_map_contains(front, f, y);
        if out.contains(y) {
            let k = choose|k: int| 0 <= k < out.len() && out[k] == y;
            if f(s.last()) == Some(y) {
                assert(f(s[s.len() - 1]) == Some(y));
            } else {
                assert(rest[k] == y);
                assert(rest.contains(y));
                let p = choose|p: int| 0 <= p < front.len() && f(#[trigger] front[p]) == Some(y);
                assert(f(s[p]) == Some(y));
            }
        }
        if exists|p: int| 0 <= p < s.len() && f(#[trigger] s[p]) == Some(y) {
            let p = choose|p: int| 0 <= p < s.len() && f(#[trigger] s[p]) == Some(y);
            if p == s.len() - 1 {
                assert(out[out.len() - 1] == y);
            } else {
                assert(f(front[p]) == Some(y));
                let k = choose|k: int| 0 <= k < rest.len() && rest[k] == y;
                assert(out[k] == y);
            }
        }
    }
}

/// The output holds a value twice exactly when `f` maps two different
/// positions of the input to the same value.
pub proof fn lemma_filter_map_duplicates<A, B>(s: Seq<A>, f: spec_fn(A) -> Option<B>)
    ensures
        has_duplicates(filter_map(s, f)) <==> exists|p: int, q: int|
            0 <= p < q < s.len() && f(#[trigger] s[p]) is Some && f(s[p]) == f(#[trigger] s[q]),
    decreases s.len(),
{
    let out = filter_map(s, f);
    if s.len() > 0 {
        let front = s.drop_last();
        let rest = filter_map(front, f);
        let last = s.len() - 1;
        lemma_filter_map_duplicates(front, f);
        if has_duplicates(out) {
            let (i, j) = choose|i: int, j: int|
                0 <= i < j < out.len() && #[trigger] out[i] == #[trigger] out[j];
            if f(s.last()) is Some && j == out.len() - 1 {
                let y = f(s.last())->0;
                assert(rest[i] == y);
                assert(rest.contains(y));
                lemma_filter_map_contains(front, f, y);
                let p = choose|p: int| 0 <= p < front.len() && f(#[trigger] front[p]) == Some(y);
                assert(f(s[p]) is Some && f(s[p]) == f(s[last]));
            } else {
                assert(rest[i] == rest[j]);
                assert(has_duplicates(rest));
                let (p, q) = choose|p: int, q: int|
                    0 <= p < q < front.len() && f(#[trigger] front[p]) is Some && f(front[p]) == f(
                        #[trigger] front[q],
                    );
                assert(f(s[p]) is Some && f(s[p]) == f(s[q]));
            }
        }
        if exists|p: int, q: int|
            0 <= p < q < s.len() && f(#[trigger] s[p]) is Some && f(s[p]) == f(#[trigger] s[q]) {
            let (p, q) = choose|p: int, q: int|
                0 <= p < q < s.len() && f(#[trigger] s[p]) is Some && f(s[p]) == f(#[trigger] s[q]);
            if q == last {
                let y = f(s[p])->0;
                assert(f(front[p]) == Some(y));
                lemma_filter_map_contains(front, f, y);
                let i = choose|i: int| 0 <= i < rest.len() && rest[i] == y;
                assert(out[i] == out[out.len() - 1]);
            } else {
                assert(f(front[p]) is Some && f(front[p]) == f(front[q]));
                assert(has_duplicates(rest));
                let (i, j) = choose|i: int, j: int|
                    0 <= i < j < rest.len() && #[trigger] rest[i] == #[trigger] rest[j];
                assert(out[i] == out[j]);
            }
        }
    } else {
        assert(out.len() == 0);
    }
}

/// Keeping what `f` maps and then what `g` maps keeps what `f` followed by
/// `g` maps.
pub proof fn lemma_filter_map_twice<A, B, C>(
    s: Seq<A>,
    f: spec_fn(A) -> Option<B>,
    g: spec_fn(B) -> Option<C>,
)
    ensures
        filter_map(filter_map(s, f), g) == filter_map(s, and_then(f, g)),
    decreases s.len(),
{
    if s.len() > 0 {
        lemma_filter_map_twice(s.drop_last(), f, g);
        match f(s.last()) {
            Some(y) => {
                let mid = filter_map(s.drop_last(), f);
                assert(mid.push(y).drop_last() =~= mid);
            },
            None => {},
        }
    }
}

/// More positions than values to pick from leave two positions with the same
/// value.
pub proof fn lemma_pigeonhole<T>(s: Seq<T>, pool: Seq<T>)
    requires
        forall|i: int| 0 <= i < s.len() ==> pool.contains(#[trigger] s[i]),
        s.len() > pool.len(),
    ensures
        has_duplicates(s),
{
    if !has_duplicates(s) {
        assert(s.no_duplicates()) by {
            assert forall|i: int, j: int| 0 <= i < s.len() && 0 <= j < s.len() && i != j implies s[i]
                != s[j] by {
                if i < j {
                    assert(!(0 <= i < j < s.len() && s[i] == s[j]));
                } else {
                    assert(!(0 <= j < i < s.len() && s[j] == s[i]));
                }
            }
        }
        s.unique_seq_to_set();
        pool.lemma_cardinality_of_set();
        vstd::seq_lib::seq_to_set_is_finite(pool);
        assert(s.to_set().subset_of(pool.to_set())) by {
            assert forall|x: T| s.to_set().contains(x) implies pool.to_set().contains(x) by {
                let i = choose|i: int| 0 <= i < s.len() && s[i] == x;
                assert(pool.contains(s[i]));
            }
        }
        vstd::set_lib::lemma_len_subset(s.to_set(), pool.to_set());
    }
}

} // verus!
