//! The typed column value model and the MySQL column type descriptors.

use vstd::prelude::*;

verus! {

/// Errors surfaced by the replication core.
#[derive(Clone, PartialEq, Eq, Debug)]
pub enum DtError {
    /// Malformed configuration; fatal before start.
    Config(String),
    /// Malformed binlog or RDB data; fatal, corruption is never skipped.
    Decode(String),
    /// A statement the DDL collaborator could not recognize.
    Parse(String),
    /// Anything else that ends the pipeline.
    Unexpected(String),
}

/// A MySQL column's static type, with the attributes the decoder needs.
///
/// Member tables for `Set` and `Enum` are association lists: `Set` items are
/// keyed by the member's bit value, `Enum` items by the member's ordinal.
#[derive(Clone, PartialEq, Eq, Debug)]
pub enum MysqlColType {
    Tiny,
    UnsignedTiny,
    Short,
    UnsignedShort,
    Medium,
    UnsignedMedium,
    Long,
    UnsignedLong,
    LongLong,
    UnsignedLongLong,
    Float,
    Double,
    Decimal { precision: u32, scale: u32 },
    Time,
    Date,
    DateTime,
    Timestamp { timezone_offset: i64 },
    Year,
    String { length: u64, charset: String },
    Binary { length: u8 },
    VarBinary { length: u16 },
    Blob,
    Bit,
    MemberSet { items: Vec<(u64, String)> },
    Enum { items: Vec<(u32, String)> },
    Json,
    Unknown,
}

/// A decoded column value.
///
/// Floating-point columns are carried as their decimal text: the verified
/// core never computes with them, it only moves them between endpoints.
/// A Mongo document is carried as its raw encoded bytes together with the
/// key the engine reads from it.
#[derive(Clone, PartialEq, Eq, Debug)]
pub enum ColValue {
    Null,
    Tiny(i8),
    Short(i16),
    Long(i32),
    LongLong(i64),
    UnsignedTiny(u8),
    UnsignedShort(u16),
    UnsignedLong(u32),
    UnsignedLongLong(u64),
    Float(String),
    Double(String),
    Decimal(String),
    Time(String),
    Date(String),
    DateTime(String),
    Timestamp(String),
    Year(u16),
    String(String),
    RawString(Vec<u8>),
    Blob(Vec<u8>),
    Bit(u64),
    SetBits(u64),
    Set2(String),
    Enum(u32),
    Enum2(String),
    Json(Vec<u8>),
    Json2(String),
    MongoDoc { id: Option<String>, bytes: Vec<u8> },
}

/// Looks a member name up in a `Set` member table by its bit value.
pub fn lookup_u64(items: &Vec<(u64, String)>, key: u64) -> (r: Option<&String>)
    ensures
        match r {
            Some(v) => exists|i: int|
                0 <= i < items@.len() && items@[i].0 == key && items@[i].1 == *v,
            None => forall|i: int| 0 <= i < items@.len() ==> (#[trigger] items@[i]).0 != key,
        },
        match first_assoc_u64(items@, key) {
            Some(s) => r matches Some(v) && v@ == s,
            None => r is None,
        },
{
    proof {
        assert(items@.subrange(0, items@.len() as int) =~= items@);
    }
    let mut i: usize = 0;
    while i < items.len()
        invariant
            0 <= i <= items@.len(),
            forall|j: int| 0 <= j < i ==> (#[trigger] items@[j]).0 != key,
            first_assoc_u64(items@.subrange(i as int, items@.len() as int), key)
                == first_assoc_u64(items@, key),
        decreases items@.len() - i,
    {
        if items[i].0 == key {
            proof {
                assert(items@.subrange(i as int, items@.len() as int)[0] == items@[i as int]);
            }
            return Some(&items[i].1);
        }
        proof {
            assert(items@.subrange(i as int, items@.len() as int).drop_first()
                =~= items@.subrange(i + 1 as int, items@.len() as int));
            assert(items@.subrange(i as int, items@.len() as int)[0] == items@[i as int]);
        }
        i = i + 1;
    }
    proof {
        assert(items@.subrange(i as int, items@.len() as int).len() == 0);
    }
    None
}

/// The name bound to the first entry with the given key, if any.
pub open spec fn first_assoc_u64(items: Seq<(u64, String)>, key: u64) -> Option<Seq<char>>
    decreases items.len(),
{
    if items.len() == 0 {
        None
    } else if items[0].0 == key {
        Some(items[0].1@)
    } else {
        first_assoc_u64(items.drop_first(), key)
    }
}

/// The name bound to the first entry with the given key, if any.
pub open spec fn first_assoc_u32(items: Seq<(u32, String)>, key: u32) -> Option<Seq<char>>
    decreases items.len(),
{
    if items.len() == 0 {
        None
    } else if items[0].0 == key {
        Some(items[0].1@)
    } else {
        first_assoc_u32(items.drop_first(), key)
    }
}

/// Looks a member name up in an `Enum` member table by its ordinal.
pub fn lookup_u32(items: &Vec<(u32, String)>, key: u32) -> (r: Option<&String>)
    ensures
        match first_assoc_u32(items@, key) {
            Some(s) => r matches Some(v) && v@ == s,
            None => r is None,
        },
{
    proof {
        assert(items@.subrange(0, items@.len() as int) =~= items@);
    }
    let mut i: usize = 0;
    while i < items.len()
        invariant
            0 <= i <= items@.len(),
            first_assoc_u32(items@.subrange(i as int, items@.len() as int), key)
                == first_assoc_u32(items@, key),
        decreases items@.len() - i,
    {
        if items[i].0 == key {
            proof {
                assert(items@.subrange(i as int, items@.len() as int)[0] == items@[i as int]);
            }
            return Some(&items[i].1);
        }
        proof {
            assert(items@.subrange(i as int, items@.len() as int).drop_first()
                =~= items@.subrange(i + 1 as int, items@.len() as int));
            assert(items@.subrange(i as int, items@.len() as int)[0] == items@[i as int]);
        }
        i = i + 1;
    }
    proof {
        assert(items@.subrange(i as int, items@.len() as int).len() == 0);
    }
    None
}

} // verus!
