//! The serial parallelizer: one sinker, input order preserved. It owns the
//! consumer side of the queue; handing batches to sinkers is the runtime's
//! edge.

use vstd::prelude::*;
use crate::events::DtItem;
use crate::queue::{batch_take, DtQueue};

verus! {

/// Drains batches in order and hands them to a single sinker.
pub struct SerialParallelizer {
    /// The largest batch one drain may take, in items.
    pub buffer_size: usize,
    /// The largest batch one drain may take, in accounted bytes.
    pub buffer_bytes: usize,
}

impl SerialParallelizer {
    /// The parallelizer's name, as reported to monitoring.
    pub fn get_name(&self) -> (r: &'static str)
        ensures
            r@ == "SerialParallelizer"@,
    {
        "SerialParallelizer"
    }

    /// Drains one batch from the front of the queue, within the configured
    /// budgets.
    pub fn drain(&self, buffer: &mut DtQueue) -> (r: Vec<DtItem>)
        requires
            old(buffer).wf(),
        ensures
            final(buffer).wf(),
            final(buffer).max_count == old(buffer).max_count,
            final(buffer).max_bytes == old(buffer).max_bytes,
            ({
                let k = batch_take(
                    old(buffer).items@,
                    self.buffer_size as int,
                    self.buffer_bytes as int,
                    true,
                );
                r@ == old(buffer).items@.subrange(0, k) && final(buffer).items@ == old(
                    buffer,
                ).items@.subrange(k, old(buffer).items@.len() as int)
            }),
    {
        buffer.pop_batch(self.buffer_size, self.buffer_bytes)
    }
}

} // verus!
