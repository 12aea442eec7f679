//! Small facts about sequences that the proofs of this library share.

use vstd::prelude::*;
use vstd::seq_lib::lemma_seq_contains_after_push;

verus! {

/// A non-empty sequence holds what it holds without its last item, and
/// that item.
pub proof fn lemma_drop_last_contains<T>(s: Seq<T>, item: T)
    requires
        s.len() > 0,
    ensures
        s.contains(item) <==> s.drop_last().contains(item) || item == s.last(),
{
    assert(s =~= s.drop_last().push(s.last()));
    lemma_seq_contains_after_push(s.drop_last(), s.last(), item);
}

/// A sequence without repetition stays so when an item that it does not
/// hold is added.
pub proof fn lemma_push_no_duplicates<T>(s: Seq<T>, last: T)
    requires
        s.no_duplicates(),
        !s.contains(last),
    ensures
        s.push(last).no_duplicates(),
{
    assert forall|i: int, j: int|
        0 <= i < s.push(last).len() && 0 <= j < s.push(last).len() && i != j implies s.push(
        last,
    )[i] != s.push(last)[j] by {
        if i < s.len() && j < s.len() {
        } else if i < s.len() {
            assert(s[i] != last);
        } else if j < s.len() {
            assert(s[j] != last);
        }
    }
}

/// Picking items out of the first `n + 1` items of a sequence picks them
/// out of the first `n` and then looks at the next.
pub proof fn lemma_filter_step<T>(s: Seq<T>, pred: spec_fn(T) -> bool, n: int)
    requires
        0 <= n < s.len(),
    ensures
        s.subrange(0, 0).filter(pred) == Seq::<T>::empty(),
        s.subrange(0, s.len() as int) == s,
        s.subrange(0, n + 1).filter(pred) == (if pred(s[n]) {
            s.subrange(0, n).filter(pred).push(s[n])
        } else {
            s.subrange(0, n).filter(pred)
        }),
{
    reveal(Seq::filter);
    assert(s.subrange(0, n + 1).drop_last() =~= s.subrange(0, n));
    assert(s.subrange(0, n + 1).last() == s[n]);
    assert(s.subrange(0, s.len() as int) =~= s);
}

/// Picking items out of a sequence without repetition leaves a sequence
/// without repetition.
pub proof fn lemma_filter_no_duplicates<T>(s: Seq<T>, pred: spec_fn(T) -> bool)
    requires
        s.no_duplicates(),
    ensures
        s.filter(pred).no_duplicates(),
    decreases s.len(),
{
    reveal(Seq::filter);
    if s.len() > 0 {
        let rest = s.drop_last();
        lemma_filter_no_duplicates(rest, pred);
        if pred(s.last()) {
            assert(!rest.filter(pred).contains(s.last())) by {
                if rest.filter(pred).contains(s.last()) {
                    rest.lemma_filter_contains_rev(pred, s.last());
                    let j = choose|j: int| 0 <= j < rest.len() && rest[j] == s.last();
                    assert(s[j] == s[s.len() - 1]);
                }
            }
            lemma_push_no_duplicates(rest.filter(pred), s.last());
        }
    }
}

} // verus!
