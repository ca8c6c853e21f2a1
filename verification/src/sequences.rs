//! Subsequences: what is left of a sequence when some of its items are
//! taken out and the others keep their order.

use vstd::prelude::*;

verus! {

/// Whether `a` can be had from `b` by taking items out.
pub open spec fn is_subsequence<T>(a: Seq<T>, b: Seq<T>) -> bool
    decreases b.len(),
{
    if a.len() == 0 {
        true
    } else if b.len() == 0 {
        false
    } else {
        ||| (a.last() == b.last() && is_subsequence(a.drop_last(), b.drop_last()))
        ||| is_subsequence(a, b.drop_last())
    }
}

/// A sequence is a subsequence of itself.
pub proof fn lemma_subsequence_refl<T>(a: Seq<T>)
    ensures
        is_subsequence(a, a),
    decreases a.len(),
{
    if a.len() > 0 {
        lemma_subsequence_refl(a.drop_last());
    }
}

/// Subsequences of two sequences, put in a row, give a subsequence of the
/// two sequences put in a row.
pub proof fn lemma_subsequence_concat<T>(a: Seq<T>, b: Seq<T>, c: Seq<T>, d: Seq<T>)
    requires
        is_subsequence(a, b),
        is_subsequence(c, d),
    ensures
        is_subsequence(a + c, b + d),
    decreases d.len(),
{
    if d.len() > 0 {
        assert((b + d).drop_last() =~= b + d.drop_last());
        if c.len() > 0 && c.last() == d.last() && is_subsequence(c.drop_last(), d.drop_last()) {
            lemma_subsequence_concat(a, b, c.drop_last(), d.drop_last());
            assert((a + c).last() == c.last());
            assert((a + c).drop_last() =~= a + c.drop_last());
        } else {
            lemma_subsequence_concat(a, b, c, d.drop_last());
        }
    }
}

/// Every item of a subsequence is an item of the sequence.
pub proof fn lemma_subsequence_contains<T>(a: Seq<T>, b: Seq<T>, i: int)
    requires
        is_subsequence(a, b),
        0 <= i < a.len(),
    ensures
        b.contains(a[i]),
    decreases b.len(),
{
    let shorter = b.drop_last();
    if a.last() == b.last() && is_subsequence(a.drop_last(), shorter) {
        if i < a.len() - 1 {
            lemma_subsequence_contains(a.drop_last(), shorter, i);
            let j = choose|j: int| 0 <= j < shorter.len() && shorter[j] == a[i];
            assert(b[j] == a[i]);
        }
    } else {
        lemma_subsequence_contains(a, shorter, i);
        let j = choose|j: int| 0 <= j < shorter.len() && shorter[j] == a[i];
        assert(b[j] == a[i]);
    }
}

/// Keeping the items that satisfy a predicate, in a subsequence and in the
/// sequence, gives a subsequence again.
pub proof fn lemma_subsequence_filter<T>(a: Seq<T>, b: Seq<T>, keep: spec_fn(T) -> bool)
    requires
        is_subsequence(a, b),
    ensures
        is_subsequence(a.filter(keep), b.filter(keep)),
    decreases b.len(),
{
    reveal(Seq::filter);
    if a.len() == 0 {
    } else if a.last() == b.last() && is_subsequence(a.drop_last(), b.drop_last()) {
        lemma_subsequence_filter(a.drop_last(), b.drop_last(), keep);
        if keep(a.last()) {
            let x = a.drop_last().filter(keep);
            let y = b.drop_last().filter(keep);
            assert(x.push(a.last()).drop_last() =~= x);
            assert(y.push(b.last()).drop_last() =~= y);
        }
    } else {
        lemma_subsequence_filter(a, b.drop_last(), keep);
        if keep(b.last()) {
            let y = b.drop_last().filter(keep);
            assert(y.push(b.last()).drop_last() =~= y);
        }
    }
}

/// What is left of a one-item sequence when the items that satisfy a
/// predicate are kept.
pub proof fn lemma_filter_one<T>(item: T, keep: spec_fn(T) -> bool)
    ensures
        seq![item].filter(keep) == if keep(item) {
            seq![item]
        } else {
            Seq::<T>::empty()
        },
{
    reveal_with_fuel(Seq::filter, 2);
    assert(seq![item].drop_last() =~= Seq::<T>::empty());
}

} // verus!
