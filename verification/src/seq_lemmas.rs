//! Small general lemmas about sequences that several modules share.

use vstd::prelude::*;

verus! {

/// Filtering one more element appends it exactly when it passes the
/// predicate. This is the shape every filtering loop steps through.
pub proof fn lemma_filter_take_step<A>(s: Seq<A>, pred: spec_fn(A) -> bool, i: int)
    requires
        0 <= i < s.len(),
    ensures
        s.take(i + 1).filter(pred) == if pred(s[i]) {
            s.take(i).filter(pred).push(s[i])
        } else {
            s.take(i).filter(pred)
        },
{
    reveal(Seq::filter);
    assert(s.take(i + 1).drop_last() == s.take(i));
    assert(s.take(i + 1).last() == s[i]);
}

/// An element is in the filtered sequence exactly when it is in the
/// source and passes the predicate.
pub proof fn lemma_filter_membership<A>(s: Seq<A>, pred: spec_fn(A) -> bool, x: A)
    ensures
        s.filter(pred).contains(x) <==> s.contains(x) && pred(x),
    decreases s.len(),
{
    reveal(Seq::filter);
    if s.len() > 0 {
        lemma_filter_membership(s.drop_last(), pred, x);
        assert(s.contains(x) <==> s.drop_last().contains(x) || s.last() == x) by {
            if s.contains(x) {
                let i = choose|i: int| 0 <= i < s.len() && s[i] == x;
                if i < s.len() - 1 {
                    assert(s.drop_last()[i] == x);
                }
            }
            if s.drop_last().contains(x) {
                let i = choose|i: int| 0 <= i < s.drop_last().len() && s.drop_last()[i] == x;
                assert(s[i] == x);
            }
        }
        let sub = s.drop_last().filter(pred);
        if pred(s.last()) {
            assert(s.filter(pred) == sub.push(s.last()));
            assert(sub.push(s.last()).contains(x) <==> sub.contains(x) || s.last() == x) by {
                if sub.push(s.last()).contains(x) {
                    let i = choose|i: int|
                        0 <= i < sub.push(s.last()).len() && sub.push(s.last())[i] == x;
                    if i < sub.len() {
                        assert(sub[i] == x);
                    }
                }
                if sub.contains(x) {
                    let i = choose|i: int| 0 <= i < sub.len() && sub[i] == x;
                    assert(sub.push(s.last())[i] == x);
                }
                if s.last() == x {
                    assert(sub.push(s.last())[sub.len() as int] == x);
                }
            }
        }
    }
}

/// The whole sequence is its own `take`.
pub proof fn lemma_take_all<A>(s: Seq<A>)
    ensures
        s.take(s.len() as int) == s,
{
    assert(s.take(s.len() as int) =~= s);
}

} // verus!
