//! A heterogeneous data-replication engine core: typed change events, a
//! bounded event queue, binary codecs for MySQL binlog column values and
//! Redis RDB streams, filtering/routing/loop-marker policies, and the
//! relational merge algorithm that collapses DML streams.

pub mod bytes;
pub mod config;
pub mod codec;
pub mod events;
pub mod extractor;
pub mod filter;
pub mod marker;
pub mod merger;
pub mod pg_struct;
pub mod precheck;
pub mod queue;
pub mod parallel;
pub mod rdb;
pub mod router;
pub mod tokens;
pub mod timefmt;
pub mod sinker;
pub mod text;
pub mod util;
pub mod value;

use vstd::prelude::*;

verus! {

/// Row operation kinds carried by a change event.
#[derive(Clone, Copy, PartialEq, Eq, Structural, Debug)]
pub enum RowType {
    Insert,
    Update,
    Delete,
}

impl RowType {
    /// The configuration word for each row kind, as it appears in task files.
    pub fn as_str(&self) -> (r: &'static str)
        ensures
            *self is Insert ==> r@ == "insert"@,
            *self is Update ==> r@ == "update"@,
            *self is Delete ==> r@ == "delete"@,
    {
        match self {
            RowType::Insert => "insert",
            RowType::Update => "update",
            RowType::Delete => "delete",
        }
    }
}

} // verus!
