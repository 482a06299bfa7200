//! Items that wait for their round: votes and proofs for blocks above the
//! accepted interval, kept in the order of their blocks.

use crate::seqs::{lemma_filter_keeps_order, lemma_filter_prefix, lemma_filter_suffix};
use crate::types::BlockNumber;
use vstd::prelude::*;

verus! {

/// Whether the entries stand in the order of their blocks.
pub open spec fn sorted<A>(s: Seq<(BlockNumber, A)>) -> bool {
    forall|i: int, j: int| 0 <= i <= j < s.len() ==> (#[trigger] s[i]).0 <= (#[trigger] s[j]).0
}

/// The entries after an item for block `number` joined them: it stands behind
/// all entries for blocks up to `number`, and before those for later blocks.
pub open spec fn spec_enqueue<A>(s: Seq<(BlockNumber, A)>, number: BlockNumber, item: A) -> Seq<
    (BlockNumber, A),
> {
    s.filter(|e: (BlockNumber, A)| e.0 <= number).push((number, item)) + s.filter(
        |e: (BlockNumber, A)| e.0 > number,
    )
}

/// The entries for blocks from `lo` to `hi`, both included, in their order.
pub open spec fn spec_ready<A>(s: Seq<(BlockNumber, A)>, lo: BlockNumber, hi: BlockNumber) -> Seq<
    (BlockNumber, A),
> {
    s.filter(|e: (BlockNumber, A)| lo <= e.0 && e.0 <= hi)
}

/// The entries for blocks above `hi`, in their order.
pub open spec fn spec_later<A>(s: Seq<(BlockNumber, A)>, hi: BlockNumber) -> Seq<(BlockNumber, A)> {
    s.filter(|e: (BlockNumber, A)| e.0 > hi)
}

/// Value of a list of entries.
pub open spec fn entries_view<T: View>(s: Seq<(BlockNumber, T)>) -> Seq<(BlockNumber, T::V)> {
    Seq::new(s.len(), |i: int| (s[i].0, s[i].1@))
}

/// What a filter keeps of sorted entries is sorted.
pub proof fn lemma_filter_sorted<A>(s: Seq<(BlockNumber, A)>, keep: spec_fn((BlockNumber, A)) -> bool)
    requires
        sorted(s),
    ensures
        sorted(s.filter(keep)),
{
    let from = lemma_filter_keeps_order(s, keep);
    let kept = s.filter(keep);
    assert forall|i: int, j: int| 0 <= i <= j < kept.len() implies (#[trigger] kept[i]).0 <= (
    #[trigger] kept[j]).0 by {
        assert(kept[i] == s[from[i]]);
        assert(kept[j] == s[from[j]]);
        if i < j {
            assert(from[i] < from[j]);
        }
    }
}

/// Items kept for later, each with the block it is for, in the order of the
/// blocks; items for one block in the order they came.
pub struct PendingBuffer<T> {
    entries: Vec<(BlockNumber, T)>,
}

impl<T: View> View for PendingBuffer<T> {
    type V = Seq<(BlockNumber, T::V)>;

    closed spec fn view(&self) -> Seq<(BlockNumber, T::V)> {
        entries_view(self.entries@)
    }
}

impl<T: View> PendingBuffer<T> {
    /// An empty buffer.
    pub fn new() -> (r: Self)
        ensures
            r@ == Seq::<(BlockNumber, T::V)>::empty(),
    {
        let r = PendingBuffer { entries: Vec::new() };
        proof {
            assert(r@ =~= Seq::<(BlockNumber, T::V)>::empty());
        }
        r
    }

    pub fn len(&self) -> (r: usize)
        ensures
            r == self@.len(),
    {
        self.entries.len()
    }

    pub fn is_empty(&self) -> (r: bool)
        ensures
            r == (self@.len() == 0),
    {
        self.entries.len() == 0
    }

    /// The block of the entry at `index`.
    pub fn number_at(&self, index: usize) -> (r: BlockNumber)
        requires
            index < self@.len(),
        ensures
            r == self@[index as int].0,
    {
        self.entries[index].0
    }

    /// The item of the entry at `index`.
    pub fn item_at(&self, index: usize) -> (r: &T)
        requires
            index < self@.len(),
        ensures
            r@ == self@[index as int].1,
    {
        &self.entries[index].1
    }

    /// Keeps `item` for block `number`.
    pub fn enqueue(&mut self, number: BlockNumber, item: T)
        requires
            sorted(old(self)@),
        ensures
            final(self)@ == spec_enqueue(old(self)@, number, item@),
            sorted(final(self)@),
    {
        let ghost before = self@;
        let mut k: usize = 0;
        while k < self.entries.len() && self.entries[k].0 <= number
            invariant
                k <= self.entries@.len(),
                self@ == before,
                forall|i: int| 0 <= i < k ==> (#[trigger] before[i]).0 <= number,
            decreases self.entries@.len() - k,
        {
            k = k + 1;
        }
        let ghost raw = self.entries@;
        self.entries.insert(k, (number, item));
        proof {
            let low = |e: (BlockNumber, T::V)| e.0 <= number;
            let high = |e: (BlockNumber, T::V)| e.0 > number;
            assert forall|i: int| k <= i < before.len() implies (#[trigger] before[i]).0
                > number by {
                assert(before[k as int].0 > number);
            }
            lemma_filter_prefix(before, low, k as int);
            lemma_filter_suffix(before, high, k as int);
            let after = before.take(k as int).push((number, item@)) + before.skip(k as int);
            assert(self@ =~= after) by {
                assert(self@.len() == after.len());
                assert forall|i: int| 0 <= i < after.len() implies self@[i] == after[i] by {
                    if i < k {
                        assert(self.entries@[i] == raw[i]);
                    } else if i > k {
                        assert(self.entries@[i] == raw[i - 1]);
                    }
                }
            }
            assert forall|i: int, j: int| 0 <= i <= j < after.len() implies (#[trigger] after[i]).0
                <= (#[trigger] after[j]).0 by {
                if i < k {
                    assert(after[i] == before[i]);
                } else if i > k {
                    assert(after[i] == before[i - 1]);
                }
                if j < k {
                    assert(after[j] == before[j]);
                } else if j > k {
                    assert(after[j] == before[j - 1]);
                }
            }
        }
    }

    /// Takes out what has become due. The entries for blocks from `lo` to
    /// `hi`, both included, are handed back in their order; those for blocks
    /// above `hi` stay; those for blocks below `lo` are dropped.
    pub fn drain(&mut self, lo: BlockNumber, hi: BlockNumber) -> (ready: Vec<(BlockNumber, T)>)
        ensures
            entries_view(ready@) == spec_ready(old(self)@, lo, hi),
            final(self)@ == spec_later(old(self)@, hi),
            sorted(old(self)@) ==> sorted(final(self)@) && sorted(entries_view(ready@)),
    {
        let ghost orig = self@;
        let ghost due = |e: (BlockNumber, T::V)| lo <= e.0 && e.0 <= hi;
        let ghost later = |e: (BlockNumber, T::V)| e.0 > hi;
        let mut rest: Vec<(BlockNumber, T)> = Vec::new();
        std::mem::swap(&mut self.entries, &mut rest);
        let mut ready: Vec<(BlockNumber, T)> = Vec::new();
        proof {
            reveal(Seq::filter);
            assert(orig.take(0).filter(due) =~= Seq::empty());
            assert(orig.take(0).filter(later) =~= Seq::empty());
            assert(entries_view(self.entries@) =~= Seq::empty());
            assert(entries_view(ready@) =~= Seq::empty());
        }
        let ghost moved = rest@;
        for entry in it: rest
            invariant
                it.seq() == moved,
                entries_view(moved) == orig,
                entries_view(ready@) == orig.take(it.index() as int).filter(due),
                entries_view(self.entries@) == orig.take(it.index() as int).filter(later),
                due == |e: (BlockNumber, T::V)| lo <= e.0 && e.0 <= hi,
                later == |e: (BlockNumber, T::V)| e.0 > hi,
        {
            let ghost ready_before = ready@;
            let ghost kept_before = self.entries@;
            let ghost value = (entry.0, entry.1@);
            proof {
                let done = it.index() as int;
                assert(value == orig[done]);
                assert(orig.take(done + 1) =~= orig.take(done).push(orig[done]));
                orig.take(done).lemma_filter_push(orig[done], due);
                orig.take(done).lemma_filter_push(orig[done], later);
            }
            if entry.0 > hi {
                self.entries.push(entry);
                proof {
                    assert(entries_view(self.entries@) =~= entries_view(kept_before).push(value));
                }
            } else if lo <= entry.0 {
                ready.push(entry);
                proof {
                    assert(entries_view(ready@) =~= entries_view(ready_before).push(value));
                }
            }
        }
        proof {
            assert(orig.take(orig.len() as int) =~= orig);
            if sorted(orig) {
                lemma_filter_sorted(orig, due);
                lemma_filter_sorted(orig, later);
            }
        }
        ready
    }
}

/// An item that joins sorted entries leaves them sorted.
pub proof fn lemma_enqueue_sorted<A>(s: Seq<(BlockNumber, A)>, number: BlockNumber, item: A)
    requires
        sorted(s),
    ensures
        sorted(spec_enqueue(s, number, item)),
{
    let up_to = |e: (BlockNumber, A)| e.0 <= number;
    let above = |e: (BlockNumber, A)| e.0 > number;
    let low = s.filter(up_to);
    let high = s.filter(above);
    lemma_filter_sorted(s, up_to);
    lemma_filter_sorted(s, above);
    assert forall|i: int| 0 <= i < low.len() implies (#[trigger] low[i]).0 <= number by {
        s.lemma_filter_pred(up_to, i);
    }
    assert forall|i: int| 0 <= i < high.len() implies (#[trigger] high[i]).0 > number by {
        s.lemma_filter_pred(above, i);
    }
    let joined = spec_enqueue(s, number, item);
    assert forall|i: int, j: int| 0 <= i <= j < joined.len() implies (#[trigger] joined[i]).0 <= (
    #[trigger] joined[j]).0 by {
        if i < low.len() {
            assert(joined[i] == low[i]);
        } else if i > low.len() {
            assert(joined[i] == high[i - low.len() - 1]);
        }
        if j < low.len() {
            assert(joined[j] == low[j]);
        } else if j > low.len() {
            assert(joined[j] == high[j - low.len() - 1]);
        }
    }
}

} // verus!
