//! Configuration vocabulary: source/sink kinds and the task-level choices
//! parsed from the task file.

use vstd::prelude::*;
use crate::text::str_eq;

verus! {

/// The store kinds the engine connects.
#[derive(Clone, Copy, PartialEq, Eq, Structural, Debug)]
pub enum DbType {
    Mysql,
    Pg,
    Mongo,
    Redis,
    StarRocks,
    Foxlake,
}

impl DbType {
    /// The SQL identifier escape character of the dialect: a backtick for
    /// the MySQL family, a double quote for Postgres.
    pub fn escape_char(&self) -> (r: char)
        ensures
            r == self.spec_escape_char(),
    {
        match self {
            DbType::Pg => '"',
            _ => '`',
        }
    }

    pub open spec fn spec_escape_char(&self) -> char {
        match self {
            DbType::Pg => '"',
            _ => '`',
        }
    }
}

/// How the source is read.
#[derive(Clone, Copy, PartialEq, Eq, Structural, Debug)]
pub enum ExtractType {
    Snapshot,
    Cdc,
    CheckLog,
    Struct,
}

impl ExtractType {
    /// The configuration word of each variant.
    pub fn as_str(&self) -> (r: &'static str)
        ensures
            *self is Snapshot ==> r@ == "snapshot"@,
            *self is Cdc ==> r@ == "cdc"@,
            *self is CheckLog ==> r@ == "check_log"@,
            *self is Struct ==> r@ == "struct"@,
    {
        match self {
            ExtractType::Snapshot => "snapshot",
            ExtractType::Cdc => "cdc",
            ExtractType::CheckLog => "check_log",
            ExtractType::Struct => "struct",
        }
    }

    /// Parses a configuration word; an unknown word is rejected.
    pub fn from_str(s: &str) -> (r: Option<ExtractType>)
        ensures
            r == (if s@ == "snapshot"@ {
                Some(ExtractType::Snapshot)
            } else if s@ == "cdc"@ {
                Some(ExtractType::Cdc)
            } else if s@ == "check_log"@ {
                Some(ExtractType::CheckLog)
            } else if s@ == "struct"@ {
                Some(ExtractType::Struct)
            } else {
                None::<ExtractType>
            }),
    {
        if str_eq(s, "snapshot") {
            Some(ExtractType::Snapshot)
        } else if str_eq(s, "cdc") {
            Some(ExtractType::Cdc)
        } else if str_eq(s, "check_log") {
            Some(ExtractType::CheckLog)
        } else if str_eq(s, "struct") {
            Some(ExtractType::Struct)
        } else {
            None
        }
    }
}

/// What the sink does with events.
#[derive(Clone, Copy, PartialEq, Eq, Structural, Debug)]
pub enum SinkType {
    Write,
    Check,
    Struct,
}

impl SinkType {
    /// The configuration word of each variant.
    pub fn as_str(&self) -> (r: &'static str)
        ensures
            *self is Write ==> r@ == "write"@,
            *self is Check ==> r@ == "check"@,
            *self is Struct ==> r@ == "struct"@,
    {
        match self {
            SinkType::Write => "write",
            SinkType::Check => "check",
            SinkType::Struct => "struct",
        }
    }

    /// Parses a configuration word; an unknown word is rejected.
    pub fn from_str(s: &str) -> (r: Option<SinkType>)
        ensures
            r == (if s@ == "write"@ {
                Some(SinkType::Write)
            } else if s@ == "check"@ {
                Some(SinkType::Check)
            } else if s@ == "struct"@ {
                Some(SinkType::Struct)
            } else {
                None::<SinkType>
            }),
    {
        if str_eq(s, "write") {
            Some(SinkType::Write)
        } else if str_eq(s, "check") {
            Some(SinkType::Check)
        } else if str_eq(s, "struct") {
            Some(SinkType::Struct)
        } else {
            None
        }
    }
}

/// How drained batches are spread over the sinkers.
#[derive(Clone, Copy, PartialEq, Eq, Structural, Debug)]
pub enum ParallelType {
    Snapshot,
    RdbPartition,
    RdbMerge,
    RdbCheck,
}

impl ParallelType {
    /// The configuration word of each variant.
    pub fn as_str(&self) -> (r: &'static str)
        ensures
            *self is Snapshot ==> r@ == "snapshot"@,
            *self is RdbPartition ==> r@ == "rdb_partition"@,
            *self is RdbMerge ==> r@ == "rdb_merge"@,
            *self is RdbCheck ==> r@ == "rdb_check"@,
    {
        match self {
            ParallelType::Snapshot => "snapshot",
            ParallelType::RdbPartition => "rdb_partition",
            ParallelType::RdbMerge => "rdb_merge",
            ParallelType::RdbCheck => "rdb_check",
        }
    }

    /// Parses a configuration word; an unknown word is rejected.
    pub fn from_str(s: &str) -> (r: Option<ParallelType>)
        ensures
            r == (if s@ == "snapshot"@ {
                Some(ParallelType::Snapshot)
            } else if s@ == "rdb_partition"@ {
                Some(ParallelType::RdbPartition)
            } else if s@ == "rdb_merge"@ {
                Some(ParallelType::RdbMerge)
            } else if s@ == "rdb_check"@ {
                Some(ParallelType::RdbCheck)
            } else {
                None::<ParallelType>
            }),
    {
        if str_eq(s, "snapshot") {
            Some(ParallelType::Snapshot)
        } else if str_eq(s, "rdb_partition") {
            Some(ParallelType::RdbPartition)
        } else if str_eq(s, "rdb_merge") {
            Some(ParallelType::RdbMerge)
        } else if str_eq(s, "rdb_check") {
            Some(ParallelType::RdbCheck)
        } else {
            None
        }
    }
}

} // verus!
