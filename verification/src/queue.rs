//! The bounded event queue: a FIFO capped both in items and in accounted
//! bytes. Producers that find no room get their item back and retry; the
//! single consumer drains batches from the front.

use vstd::prelude::*;
use crate::events::DtItem;

verus! {

/// The accounted size of one queued item.
pub open spec fn item_size(it: DtItem) -> nat {
    it.dt_data.spec_data_size()
}

/// The accounted size of a sequence of items.
pub open spec fn total_size(s: Seq<DtItem>) -> nat
    decreases s.len(),
{
    if s.len() == 0 {
        0
    } else {
        item_size(s[0]) + total_size(s.drop_first())
    }
}

pub proof fn lemma_total_size_push(s: Seq<DtItem>, x: DtItem)
    ensures
        total_size(s.push(x)) == total_size(s) + item_size(x),
    decreases s.len(),
{
    if s.len() == 0 {
        assert(s.push(x).drop_first() =~= Seq::<DtItem>::empty());
        assert(s.push(x)[0] == x);
        assert(total_size(s.push(x)) == item_size(x) + total_size(s.push(x).drop_first()));
        assert(total_size(s.push(x).drop_first()) == 0);
        assert(total_size(s) == 0);
    } else {
        assert(s.push(x).drop_first() =~= s.drop_first().push(x));
        lemma_total_size_push(s.drop_first(), x);
        assert(s.push(x)[0] == s[0]);
        assert(total_size(s.push(x)) == item_size(s[0]) + total_size(s.push(x).drop_first()));
        assert(total_size(s) == item_size(s[0]) + total_size(s.drop_first()));
    }
}

/// How many items one drain takes from the front: at least one when any is
/// there, then as many as both the item budget and the byte budget admit.
pub open spec fn batch_take(s: Seq<DtItem>, max_items: int, budget: int, first: bool) -> int
    decreases s.len(),
{
    if s.len() == 0 || max_items <= 0 {
        0
    } else if first || item_size(s[0]) <= budget {
        1 + batch_take(s.drop_first(), max_items - 1, budget - item_size(s[0]), false)
    } else {
        0
    }
}

pub proof fn lemma_batch_take_bounds(s: Seq<DtItem>, max_items: int, budget: int, first: bool)
    ensures
        0 <= batch_take(s, max_items, budget, first) <= s.len(),
    decreases s.len(),
{
    if s.len() != 0 && max_items > 0 && (first || item_size(s[0]) <= budget) {
        lemma_batch_take_bounds(s.drop_first(), max_items - 1, budget - item_size(s[0]), false);
    }
}

/// The bounded FIFO. `cur_bytes` carries the accounted size of what is
/// queued; well-formedness is the queue invariant: at most `max_count`
/// items and at most `max_bytes` accounted bytes at every suspension point.
pub struct DtQueue {
    pub items: Vec<DtItem>,
    pub max_count: usize,
    pub max_bytes: usize,
    pub cur_bytes: usize,
}

impl DtQueue {
    /// The queue invariant: the byte counter is exact, and both capacity
    /// dimensions hold.
    pub open spec fn wf(&self) -> bool {
        &&& self.cur_bytes as nat == total_size(self.items@)
        &&& self.items@.len() <= self.max_count
        &&& self.cur_bytes <= self.max_bytes
    }

    pub fn new(max_count: usize, max_bytes: usize) -> (r: DtQueue)
        ensures
            r.wf(),
            r.items@.len() == 0,
            r.max_count == max_count,
            r.max_bytes == max_bytes,
    {
        DtQueue { items: Vec::new(), max_count, max_bytes, cur_bytes: 0 }
    }

    pub fn is_empty(&self) -> (r: bool)
        ensures
            r == (self.items@.len() == 0),
    {
        self.items.len() == 0
    }

    pub fn len(&self) -> (r: usize)
        ensures
            r == self.items@.len(),
    {
        self.items.len()
    }

    /// Admits the item when both capacities allow it, else hands it back.
    pub fn try_push(&mut self, item: DtItem) -> (r: Result<(), DtItem>)
        requires
            old(self).wf(),
        ensures
            final(self).wf(),
            final(self).max_count == old(self).max_count,
            final(self).max_bytes == old(self).max_bytes,
            if old(self).items@.len() < old(self).max_count && total_size(old(self).items@)
                + item_size(item) <= old(self).max_bytes {
                r is Ok && final(self).items@ == old(self).items@.push(item)
            } else {
                r == Err::<(), DtItem>(item) && final(self).items@ == old(self).items@
            },
    {
        let size = item.dt_data.get_data_size();
        if self.items.len() < self.max_count && size <= self.max_bytes - self.cur_bytes {
            proof {
                lemma_total_size_push(self.items@, item);
            }
            self.cur_bytes = self.cur_bytes + size;
            self.items.push(item);
            Ok(())
        } else {
            Err(item)
        }
    }


    /// Whether one more item fits the running batch: room in the item
    /// budget, something queued, and (after the first item) room in the
    /// byte budget.
    fn take_more(&self, taken: usize, used: usize, max_items: usize, max_bytes: usize) -> (r:
        bool)
        ensures
            r == (taken < max_items && self.items@.len() > 0 && (taken == 0 || item_size(
                self.items@[0],
            ) + used <= max_bytes)),
    {
        if taken >= max_items || self.items.len() == 0 {
            return false;
        }
        if taken == 0 {
            return true;
        }
        if used > max_bytes {
            return false;
        }
        let sz = self.items[0].dt_data.get_data_size();
        sz <= max_bytes - used
    }

    /// Drains up to `max_items` items or `max_bytes` accounted bytes from
    /// the front, taking at least one item when the queue is not empty.
    pub fn pop_batch(&mut self, max_items: usize, max_bytes: usize) -> (r: Vec<DtItem>)
        requires
            old(self).wf(),
        ensures
            final(self).wf(),
            final(self).max_count == old(self).max_count,
            final(self).max_bytes == old(self).max_bytes,
            ({
                let k = batch_take(old(self).items@, max_items as int, max_bytes as int, true);
                r@ == old(self).items@.subrange(0, k) && final(self).items@ == old(
                    self,
                ).items@.subrange(k, old(self).items@.len() as int)
            }),
    {
        proof {
            lemma_batch_take_bounds(self.items@, max_items as int, max_bytes as int, true);
        }
        let ghost orig = self.items@;
        let ghost k = batch_take(orig, max_items as int, max_bytes as int, true);
        let mut out: Vec<DtItem> = Vec::new();
        let mut used: usize = 0;
        while self.take_more(out.len(), used, max_items, max_bytes)
            invariant
                self.wf(),
                self.max_count == old(self).max_count,
                self.max_bytes == old(self).max_bytes,
                out@.len() <= max_items,
                used as nat == total_size(out@),
                used + self.cur_bytes == old(self).cur_bytes,
                old(self).wf(),
                orig == old(self).items@,
                orig =~= out@ + self.items@,
                k == batch_take(orig, max_items as int, max_bytes as int, true),
                k == out@.len() + batch_take(
                    self.items@,
                    max_items - out@.len(),
                    max_bytes - used,
                    out@.len() == 0,
                ),
            decreases self.items@.len(),
        {
            let ghost prev = self.items@;
            let ghost out0 = out@;
            let ghost used0 = used as int;
            proof {
                assert(total_size(prev) == item_size(prev[0]) + total_size(prev.drop_first()));
                assert(batch_take(
                    prev,
                    max_items - out0.len(),
                    max_bytes - used0,
                    out0.len() == 0,
                ) == 1 + batch_take(
                    prev.drop_first(),
                    max_items - out0.len() - 1,
                    max_bytes - used0 - item_size(prev[0]),
                    false,
                ));
            }
            let it = self.items.remove(0);
            let sz = it.dt_data.get_data_size();
            self.cur_bytes = self.cur_bytes - sz;
            used = used + sz;
            proof {
                lemma_total_size_push(out0, it);
            }
            out.push(it);
            proof {
                assert(self.items@ =~= prev.drop_first());
                assert(out@ =~= out0.push(it));
                assert(orig =~= out@ + self.items@);
            }
        }
        proof {
            assert(batch_take(self.items@, max_items - out@.len(), max_bytes - used, out@.len()
                == 0) == 0);
            assert(out@ =~= orig.subrange(0, out@.len() as int));
            assert(self.items@ =~= orig.subrange(k, orig.len() as int));
        }
        out
    }
}

} // verus!
