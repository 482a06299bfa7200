//! Facts about filtered sequences.

use vstd::prelude::*;

verus! {

/// Whether `from` names, for each item of `kept`, the place in `s` it came
/// from, later items coming from later places.
pub open spec fn keeps_order<A>(s: Seq<A>, kept: Seq<A>, from: Seq<int>) -> bool {
    &&& from.len() == kept.len()
    &&& forall|i: int|
        0 <= i < from.len() ==> 0 <= #[trigger] from[i] < s.len() && s[from[i]] == kept[i]
    &&& forall|i: int, j: int| 0 <= i < j < from.len() ==> #[trigger] from[i] < #[trigger] from[j]
}

/// What a filter keeps, it keeps in order.
pub proof fn lemma_filter_keeps_order<A>(s: Seq<A>, keep: spec_fn(A) -> bool) -> (from: Seq<int>)
    ensures
        keeps_order(s, s.filter(keep), from),
    decreases s.len(),
{
    reveal(Seq::filter);
    if s.len() == 0 {
        Seq::<int>::empty()
    } else {
        let prev = lemma_filter_keeps_order(s.drop_last(), keep);
        let from = if keep(s.last()) {
            prev.push(s.len() - 1)
        } else {
            prev
        };
        assert forall|i: int| 0 <= i < from.len() implies 0 <= #[trigger] from[i] < s.len()
            && s[from[i]] == s.filter(keep)[i] by {
            if i < prev.len() {
                assert(s.drop_last()[prev[i]] == s[prev[i]]);
            }
        }
        from
    }
}

/// A filter keeps a sequence whole if it keeps each item.
pub proof fn lemma_filter_all<A>(s: Seq<A>, keep: spec_fn(A) -> bool)
    requires
        forall|i: int| 0 <= i < s.len() ==> keep(#[trigger] s[i]),
    ensures
        s.filter(keep) == s,
    decreases s.len(),
{
    reveal(Seq::filter);
    if s.len() > 0 {
        assert forall|i: int| 0 <= i < s.drop_last().len() implies keep(
            #[trigger] s.drop_last()[i],
        ) by {
            assert(s.drop_last()[i] == s[i]);
        }
        lemma_filter_all(s.drop_last(), keep);
        assert(s.drop_last().push(s.last()) =~= s);
    }
}

/// A filter that keeps the first `k` items and none of the others keeps the
/// prefix of length `k`.
pub proof fn lemma_filter_prefix<A>(s: Seq<A>, keep: spec_fn(A) -> bool, k: int)
    requires
        0 <= k <= s.len(),
        forall|i: int| 0 <= i < k ==> keep(#[trigger] s[i]),
        forall|i: int| k <= i < s.len() ==> !keep(#[trigger] s[i]),
    ensures
        s.filter(keep) == s.take(k),
    decreases s.len(),
{
    reveal(Seq::filter);
    if s.len() == 0 {
        assert(s.take(k) =~= s);
    } else if k == s.len() {
        lemma_filter_all(s, keep);
        assert(s.take(k) =~= s);
    } else {
        let front = s.drop_last();
        assert forall|i: int| 0 <= i < k implies keep(#[trigger] front[i]) by {
            assert(front[i] == s[i]);
        }
        assert forall|i: int| k <= i < front.len() implies !keep(#[trigger] front[i]) by {
            assert(front[i] == s[i]);
        }
        lemma_filter_prefix(front, keep, k);
        assert(front.take(k) =~= s.take(k));
    }
}

/// A filter that keeps none of the first `k` items and all of the others
/// keeps what follows the prefix of length `k`.
pub proof fn lemma_filter_suffix<A>(s: Seq<A>, keep: spec_fn(A) -> bool, k: int)
    requires
        0 <= k <= s.len(),
        forall|i: int| 0 <= i < k ==> !keep(#[trigger] s[i]),
        forall|i: int| k <= i < s.len() ==> keep(#[trigger] s[i]),
    ensures
        s.filter(keep) == s.skip(k),
    decreases s.len(),
{
    reveal(Seq::filter);
    if s.len() == 0 {
        assert(s.skip(k) =~= s);
    } else if k == s.len() {
        let front = s.drop_last();
        assert forall|i: int| 0 <= i < front.len() implies !keep(#[trigger] front[i]) by {
            assert(front[i] == s[i]);
        }
        lemma_filter_suffix(front, keep, k - 1);
        assert(front.skip(k - 1) =~= Seq::<A>::empty());
        assert(s.skip(k) =~= Seq::<A>::empty());
    } else {
        let front = s.drop_last();
        assert forall|i: int| 0 <= i < k implies !keep(#[trigger] front[i]) by {
            assert(front[i] == s[i]);
        }
        assert forall|i: int| k <= i < front.len() implies keep(#[trigger] front[i]) by {
            assert(front[i] == s[i]);
        }
        lemma_filter_suffix(front, keep, k);
        assert(front.skip(k).push(s.last()) =~= s.skip(k));
    }
}

/// Skipping twice is skipping once as far.
pub proof fn lemma_skip_skip<A>(s: Seq<A>, a: int, b: int)
    requires
        0 <= a,
        0 <= b,
        a + b <= s.len(),
    ensures
        s.skip(a).skip(b) == s.skip(a + b),
{
    assert(s.skip(a).skip(b) =~= s.skip(a + b));
}

} // verus!
