//! The MySQL binlog column decoder: temporal buffers, binlog column values,
//! and the text entry point.

use vstd::prelude::*;
use chrono::TimeZone;
use crate::bytes::{le_val, ByteReader};
use crate::config::DbType;
use crate::text::{
    float_text_accepted, is_float_text, parse_i64, parse_i64_spec, parse_u64, parse_u64_spec,
};
use crate::timefmt::{date_text, datetime_text, render_date, time_text, DtNaiveTime};
use crate::value::{
    first_assoc_u32, first_assoc_u64, lookup_u32, lookup_u64, ColValue, DtError, MysqlColType,
};

verus! {

/// What a binlog time buffer decodes to: sign, hours (with day overflow
/// folded in), minutes, seconds, microseconds. `None` is a malformed buffer:
/// too short for its declared length, a fraction wider than eight bytes, or
/// hours past `u32::MAX`. The microsecond counter keeps its low 32 bits, as
/// the engine stores it in 32 bits.
pub open spec fn mysql_time_decoded(b: Seq<u8>) -> Option<(bool, nat, nat, nat, nat)> {
    if b.len() < 1 {
        None
    } else {
        let len = b[0] as nat;
        if len == 0 {
            Some((false, 0, 0, 0, 0))
        } else if len < 5 || b.len() < 9 {
            None
        } else {
            let neg = b[1] != 0;
            let hour = le_val(b.subrange(2, 6)) * 24 + b[6] as nat;
            let tlen = (len - 5) as nat;
            if hour > u32::MAX {
                None
            } else if tlen >= 4 {
                let mlen = (tlen - 3) as nat;
                if mlen > 8 || b.len() < 9 + mlen {
                    None
                } else {
                    Some(
                        (
                            neg,
                            hour,
                            b[7] as nat,
                            b[8] as nat,
                            le_val(b.subrange(9, 9 + mlen as int)) % 0x1_0000_0000,
                        ),
                    )
                }
            } else {
                Some((neg, hour, b[7] as nat, b[8] as nat, 0))
            }
        }
    }
}

/// The year, month and day fields read at offset `at` for a declared
/// length `len`, or `None` when the buffer is too short.
pub open spec fn mysql_date_fields(b: Seq<u8>, at: int, len: nat) -> Option<(nat, nat, nat)> {
    let need: int = if len >= 4 {
        at + 4
    } else if len == 3 {
        at + 3
    } else if len == 2 {
        at + 2
    } else {
        at
    };
    if b.len() < need {
        None
    } else {
        Some(
            (
                if len >= 2 {
                    le_val(b.subrange(at, at + 2))
                } else {
                    0
                },
                if len >= 3 {
                    b[at + 2] as nat
                } else {
                    0
                },
                if len >= 4 {
                    b[at + 3] as nat
                } else {
                    0
                },
            ),
        )
    }
}

/// What a binlog date buffer decodes to.
pub open spec fn mysql_date_decoded(b: Seq<u8>) -> Option<(nat, nat, nat)> {
    if b.len() < 1 {
        None
    } else {
        mysql_date_fields(b, 1, b[0] as nat)
    }
}

/// What a binlog datetime buffer decodes to: year, month, day, hours,
/// minutes, seconds, microseconds (low 32 bits kept).
pub open spec fn mysql_datetime_decoded(b: Seq<u8>) -> Option<
    (nat, nat, nat, nat, nat, nat, nat),
> {
    if b.len() < 1 {
        None
    } else {
        let len = b[0] as nat;
        if len < 4 {
            None
        } else if b.len() < 8 {
            None
        } else {
            let y = le_val(b.subrange(1, 3));
            let mo = b[3] as nat;
            let d = b[4] as nat;
            let h = b[5] as nat;
            let mi = b[6] as nat;
            let s = b[7] as nat;
            let tlen = (len - 4) as nat;
            if tlen >= 4 {
                let mlen = (tlen - 3) as nat;
                if mlen > 8 || b.len() < 8 + mlen {
                    None
                } else {
                    Some((y, mo, d, h, mi, s, le_val(b.subrange(8, 8 + mlen as int)) % 0x1_0000_0000))
                }
            } else {
                Some((y, mo, d, h, mi, s, 0))
            }
        }
    }
}

/// Converts raw binlog column images and text into typed column values.
pub struct MysqlColValueConvertor {}

impl MysqlColValueConvertor {
    /// Decodes a binlog time buffer: a length byte, then sign, day counter,
    /// hours, minutes, seconds, and an optional fraction.
    pub fn parse_time(buf: Vec<u8>) -> (r: Result<ColValue, DtError>)
        ensures
            match mysql_time_decoded(buf@) {
                Some(f) => r matches Ok(cv) && cv matches ColValue::Time(t) && t@ == time_text(
                    f.0,
                    f.1,
                    f.2,
                    f.3,
                    f.4,
                ),
                None => r is Err,
            },
    {
        let mut rd = ByteReader::new(buf);
        let length = match rd.read_u8() {
            Ok(v) => v,
            Err(e) => {
                return Err(e);
            },
        };
        if length == 0 {
            let t = DtNaiveTime {
                is_negative: false,
                hour: 0,
                minute: 0,
                second: 0,
                microsecond: 0,
            };
            return Ok(ColValue::Time(t.to_text()));
        }
        if length < 5 {
            return Err(DtError::Decode("time buffer shorter than its header".to_owned()));
        }
        let neg = match rd.read_u8() {
            Ok(v) => v != 0,
            Err(e) => {
                return Err(e);
            },
        };
        let day = match rd.read_u32_le() {
            Ok(v) => v,
            Err(e) => {
                return Err(e);
            },
        };
        let hour8 = match rd.read_u8() {
            Ok(v) => v,
            Err(e) => {
                return Err(e);
            },
        };
        let minute = match rd.read_u8() {
            Ok(v) => v,
            Err(e) => {
                return Err(e);
            },
        };
        let second = match rd.read_u8() {
            Ok(v) => v,
            Err(e) => {
                return Err(e);
            },
        };
        let tlen: usize = (length - 5) as usize;
        let mut us: u32 = 0;
        if tlen >= 4 {
            let mlen = tlen - 3;
            if mlen > 8 {
                return Err(DtError::Decode("time fraction wider than eight bytes".to_owned()));
            }
            us = match rd.read_uint_le(mlen) {
                Ok(v) => (v % 0x1_0000_0000) as u32,
                Err(e) => {
                    return Err(e);
                },
            };
        }
        let total: u64 = day as u64 * 24 + hour8 as u64;
        if total > u32::MAX as u64 {
            return Err(DtError::Decode("time hours out of range".to_owned()));
        }
        let hour = total as u32;
        let t = DtNaiveTime {
            is_negative: neg,
            hour,
            minute: minute as u32,
            second: second as u32,
            microsecond: us,
        };
        Ok(ColValue::Time(t.to_text()))
    }

    /// Decodes a binlog date buffer: a length byte, then as many of year,
    /// month and day as the length admits.
    pub fn parse_date(buf: Vec<u8>) -> (r: Result<ColValue, DtError>)
        ensures
            match mysql_date_decoded(buf@) {
                Some(f) => r matches Ok(cv) && cv matches ColValue::Date(t) && t@ == date_text(
                    f.0,
                    f.1,
                    f.2,
                ),
                None => r is Err,
            },
    {
        let mut rd = ByteReader::new(buf);
        let length = match rd.read_u8() {
            Ok(v) => v,
            Err(e) => {
                return Err(e);
            },
        };
        let mut year: u16 = 0;
        let mut month: u8 = 0;
        let mut day: u8 = 0;
        if length >= 2 {
            year = match rd.read_u16_le() {
                Ok(v) => v,
                Err(e) => {
                    return Err(e);
                },
            };
        }
        if length >= 3 {
            month = match rd.read_u8() {
                Ok(v) => v,
                Err(e) => {
                    return Err(e);
                },
            };
        }
        if length >= 4 {
            day = match rd.read_u8() {
                Ok(v) => v,
                Err(e) => {
                    return Err(e);
                },
            };
        }
        Ok(ColValue::Date(render_date(year as u64, month as u64, day as u64)))
    }

    /// Reads a binlog datetime image at the cursor and renders its text.
    pub fn parse_date_time_fields(rd: &mut ByteReader) -> (r: Result<String, DtError>)
        requires
            old(rd).wf(),
        ensures
            final(rd).wf(),
            final(rd).buf@ == old(rd).buf@,
            match mysql_datetime_decoded(old(rd).remaining_bytes()) {
                Some(f) => r matches Ok(t) && t@ == datetime_text(f.0, f.1, f.2, f.3, f.4, f.5, f.6),
                None => r is Err,
            },
    {
        let ghost rem = old(rd).remaining_bytes();
        let ghost base = old(rd).pos as int;
        let length = match rd.read_u8() {
            Ok(v) => v,
            Err(e) => {
                return Err(e);
            },
        };
        proof {
            assert(rem[0] == old(rd).buf@[base]);
        }
        if length < 4 {
            return Err(DtError::Decode("datetime buffer shorter than its header".to_owned()));
        }
        let year = match rd.read_u16_le() {
            Ok(v) => v,
            Err(e) => {
                return Err(e);
            },
        };
        let month = match rd.read_u8() {
            Ok(v) => v,
            Err(e) => {
                return Err(e);
            },
        };
        let day = match rd.read_u8() {
            Ok(v) => v,
            Err(e) => {
                return Err(e);
            },
        };
        let hour = match rd.read_u8() {
            Ok(v) => v,
            Err(e) => {
                return Err(e);
            },
        };
        let minute = match rd.read_u8() {
            Ok(v) => v,
            Err(e) => {
                return Err(e);
            },
        };
        let second = match rd.read_u8() {
            Ok(v) => v,
            Err(e) => {
                return Err(e);
            },
        };
        proof {
            assert(rem.subrange(1, 3) =~= old(rd).buf@.subrange(base + 1, base + 3));
            assert(rem[3] == old(rd).buf@[base + 3]);
            assert(rem[4] == old(rd).buf@[base + 4]);
            assert(rem[5] == old(rd).buf@[base + 5]);
            assert(rem[6] == old(rd).buf@[base + 6]);
            assert(rem[7] == old(rd).buf@[base + 7]);
        }
        let tlen: usize = (length - 4) as usize;
        let mut us: u32 = 0;
        if tlen >= 4 {
            let mlen = tlen - 3;
            if mlen > 8 {
                return Err(
                    DtError::Decode("datetime fraction wider than eight bytes".to_owned()),
                );
            }
            let vraw = match rd.read_uint_le(mlen) {
                Ok(v) => v,
                Err(e) => {
                    return Err(e);
                },
            };
            us = (vraw % 0x1_0000_0000) as u32;
            proof {
                assert(rem.subrange(8, 8 + mlen as int) =~= old(rd).buf@.subrange(
                    base + 8,
                    base + 8 + mlen as int,
                ));
            }
        }
        let date = render_date(year as u64, month as u64, day as u64);
        let time = DtNaiveTime {
            is_negative: false,
            hour: hour as u32,
            minute: minute as u32,
            second: second as u32,
            microsecond: us,
        };
        let mut out = date;
        out.append(" ");
        let tt = time.to_text();
        out.append(tt.as_str());
        proof {
            reveal_strlit(" ");
            assert(mysql_datetime_decoded(rem) is Some);
            let f = mysql_datetime_decoded(rem).unwrap();
            assert(f.0 == year as nat);
            assert(f.1 == month as nat);
            assert(f.2 == day as nat);
            assert(f.3 == hour as nat);
            assert(f.4 == minute as nat);
            assert(f.5 == second as nat);
            assert(f.6 == us as nat);
            assert(out@ =~= datetime_text(f.0, f.1, f.2, f.3, f.4, f.5, f.6));
        }
        Ok(out)
    }

    /// Decodes a binlog datetime buffer.
    pub fn parse_datetime(buf: Vec<u8>) -> (r: Result<ColValue, DtError>)
        ensures
            match mysql_datetime_decoded(buf@) {
                Some(f) => r matches Ok(cv) && cv matches ColValue::DateTime(t) && t@
                    == datetime_text(f.0, f.1, f.2, f.3, f.4, f.5, f.6),
                None => r is Err,
            },
    {
        let mut rd = ByteReader::new(buf);
        proof {
            assert(rd.remaining_bytes() =~= buf@);
        }
        match Self::parse_date_time_fields(&mut rd) {
            Ok(t) => Ok(ColValue::DateTime(t)),
            Err(e) => Err(e),
        }
    }

    /// Decodes a binlog timestamp buffer that arrives in datetime shape.
    pub fn parse_timestamp(buf: Vec<u8>) -> (r: Result<ColValue, DtError>)
        ensures
            match mysql_datetime_decoded(buf@) {
                Some(f) => r matches Ok(cv) && cv matches ColValue::Timestamp(t) && t@
                    == datetime_text(f.0, f.1, f.2, f.3, f.4, f.5, f.6),
                None => r is Err,
            },
    {
        let mut rd = ByteReader::new(buf);
        proof {
            assert(rd.remaining_bytes() =~= buf@);
        }
        match Self::parse_date_time_fields(&mut rd) {
            Ok(t) => Ok(ColValue::Timestamp(t)),
            Err(e) => Err(e),
        }
    }
}

/// A binlog column image as the connector delivers it: the library's own
/// form of the connector crate's column value. Floating-point payloads are
/// already rendered to decimal text, since the verified core holds no float.
#[derive(Clone, PartialEq, Eq, Debug)]
pub enum BinlogColumnValue {
    Null,
    Tiny(i8),
    Short(i16),
    Long(i32),
    LongLong(i64),
    Float(String),
    Double(String),
    Decimal(String),
    Time(String),
    Date(String),
    DateTime(String),
    /// Microseconds since the Unix epoch.
    Timestamp(i64),
    Year(u16),
    String(Vec<u8>),
    Blob(Vec<u8>),
    Bit(u64),
    SetBits(u64),
    Enum(u32),
    /// A JSON column image already decoded to text. The connector's JSON
    /// reader is not total on malformed images, so the decode stays at the
    /// runtime edge and the core receives the text.
    Json(String),
}

/// The text chrono renders for a UTC instant given in nanoseconds since the
/// Unix epoch, without the trailing zone tag: a function of the nanosecond
/// value alone.
pub uninterp spec fn utc_text_of(nanos: i64) -> Seq<char>;

/// Relies on chrono's `Utc.timestamp_nanos`, which never fails, and on the
/// `Display` form of `DateTime<Utc>`: "YYYY-MM-DD HH:MM:SS[.frac] UTC",
/// whose trailing " UTC" is removed here. The text depends on the
/// nanosecond value alone.
#[verifier::external_body]
fn format_utc_nanos(nanos: i64) -> (r: String)
    ensures
        r@ == utc_text_of(nanos),
{
    chrono::Utc.timestamp_nanos(nanos).to_string().replace(" UTC", "")
}

/// Comma-joined parts, as `join(",")` renders.
pub open spec fn join_comma(parts: Seq<Seq<char>>) -> Seq<char>
    decreases parts.len(),
{
    if parts.len() == 0 {
        Seq::empty()
    } else if parts.len() == 1 {
        parts[0]
    } else {
        parts[0] + seq![','] + join_comma(parts.drop_first())
    }
}

proof fn lemma_join_comma_push(parts: Seq<Seq<char>>, x: Seq<char>)
    ensures
        join_comma(parts.push(x)) == if parts.len() == 0 {
            x
        } else {
            join_comma(parts) + seq![','] + x
        },
    decreases parts.len(),
{
    if parts.len() == 0 {
        assert(parts.push(x)[0] == x);
        assert(join_comma(parts.push(x)) == x);
    } else {
        assert(parts.push(x).drop_first() =~= parts.drop_first().push(x));
        lemma_join_comma_push(parts.drop_first(), x);
        if parts.len() == 1 {
            assert(parts.drop_first().len() == 0);
            assert(join_comma(parts.push(x)) == parts[0] + seq![','] + x);
            assert(join_comma(parts) == parts[0]);
        } else {
            assert(join_comma(parts) + seq![','] + x =~= parts[0] + seq![','] + (join_comma(
                parts.drop_first(),
            ) + seq![','] + x));
        }
    }
}

/// The member names selected by a bitmap, lowest bit first: `bit` is the
/// value of the lowest bit still to examine.
pub open spec fn set_member_names(v: nat, bit: nat, items: Seq<(u64, String)>) -> Seq<Seq<char>>
    decreases v,
{
    if v == 0 {
        Seq::empty()
    } else {
        let head: Seq<Seq<char>> = if v % 2 == 1 && bit <= u64::MAX {
            match first_assoc_u64(items, bit as u64) {
                Some(n) => seq![n],
                None => Seq::empty(),
            }
        } else {
            Seq::empty()
        };
        head + set_member_names(v / 2, bit * 2, items)
    }
}

/// The comma-joined text of a set value's member names.
pub open spec fn set_text(v: nat, items: Seq<(u64, String)>) -> Seq<char> {
    join_comma(set_member_names(v, 1, items))
}

fn join_with_comma(names: &Vec<String>) -> (r: String)
    ensures
        r@ == join_comma(names@.map_values(|s: String| s@)),
{
    let ghost parts = names@.map_values(|s: String| s@);
    let mut out = String::new();
    let mut i: usize = 0;
    while i < names.len()
        invariant
            0 <= i <= names@.len(),
            parts == names@.map_values(|s: String| s@),
            out@ == join_comma(parts.subrange(0, i as int)),
        decreases names@.len() - i,
    {
        if i > 0 {
            out.append(",");
        }
        out.append(names[i].as_str());
        proof {
            reveal_strlit(",");
            let pre = parts.subrange(0, i as int);
            let cur = parts.subrange(0, i + 1 as int);
            assert(cur =~= pre.push(parts[i as int]));
            lemma_join_comma_push(pre, parts[i as int]);
        }
        i = i + 1;
    }
    proof {
        assert(parts.subrange(0, names@.len() as int) =~= parts);
    }
    out
}

fn set_members_text(v: u64, items: &Vec<(u64, String)>) -> (r: String)
    ensures
        r@ == set_text(v as nat, items@),
{
    let ghost full = set_member_names(v as nat, 1, items@);
    let mut names: Vec<String> = Vec::new();
    let mut cur: u64 = v;
    let mut bit: u64 = 1;
    while cur > 0
        invariant
            full == set_member_names(v as nat, 1, items@),
            full =~= names@.map_values(|s: String| s@) + set_member_names(
                cur as nat,
                bit as nat,
                items@,
            ),
            bit as nat * cur as nat <= v as nat,
            bit >= 1,
        decreases cur,
    {
        let ghost names0 = names@.map_values(|s: String| s@);
        let ghost cur0 = cur as nat;
        let ghost bit0 = bit as nat;
        let ghost head: Seq<Seq<char>> = if cur0 % 2 == 1 && bit0 <= u64::MAX {
            match first_assoc_u64(items@, bit0 as u64) {
                Some(n) => seq![n],
                None => Seq::<Seq<char>>::empty(),
            }
        } else {
            Seq::<Seq<char>>::empty()
        };
        proof {
            assert(set_member_names(cur0, bit0, items@) == head + set_member_names(
                cur0 / 2,
                bit0 * 2,
                items@,
            ));
        }
        if cur % 2 == 1 {
            match lookup_u64(items, bit) {
                Some(n) => {
                    let cn = n.clone();
                    names.push(cn);
                },
                None => {},
            }
        }
        proof {
            assert(names@.map_values(|s: String| s@) =~= names0 + head);
        }
        let next = cur / 2;
        proof {
            assert(2 * (bit as nat * (cur as nat / 2)) <= bit as nat * cur as nat)
                by (nonlinear_arith);
            assert((bit as nat * 2) * (cur as nat / 2) == 2 * (bit as nat * (cur as nat / 2)))
                by (nonlinear_arith);
        }
        if next > 0 {
            proof {
                assert(bit as nat * 2 <= (bit as nat * 2) * (cur as nat / 2)) by (nonlinear_arith)
                    requires
                        cur as nat / 2 >= 1,
                        bit >= 1,
                ;
            }
            bit = bit * 2;
        }
        cur = next;
        proof {
            if cur == 0 {
                assert(set_member_names(cur0 / 2, bit0 * 2, items@) =~= Seq::<Seq<char>>::empty());
                assert(set_member_names(0, bit as nat, items@) =~= Seq::<Seq<char>>::empty());
            }
            assert(full =~= names@.map_values(|s: String| s@) + set_member_names(
                cur as nat,
                bit as nat,
                items@,
            ));
        }
    }
    join_with_comma(&names)
}

/// Bytes right-padded with zeros up to a declared binary column length.
pub open spec fn zero_pad(b: Seq<u8>, l: nat) -> Seq<u8> {
    if l > b.len() {
        b + Seq::new((l - b.len()) as nat, |i: int| 0u8)
    } else {
        b
    }
}

fn pad_zeros(v: Vec<u8>, l: usize) -> (r: Vec<u8>)
    ensures
        r@ == zero_pad(v@, l as nat),
{
    let ghost orig = v@;
    let mut v = v;
    while v.len() < l
        invariant
            orig.len() <= v@.len(),
            orig.len() >= l ==> v@.len() == orig.len(),
            orig.len() < l ==> v@.len() <= l,
            v@ =~= orig + Seq::new((v@.len() - orig.len()) as nat, |i: int| 0u8),
        decreases l - v@.len(),
    {
        v.push(0);
        proof {
            assert(v@ =~= orig + Seq::new((v@.len() - orig.len()) as nat, |i: int| 0u8));
        }
    }
    proof {
        if l as nat > orig.len() {
            assert(v@ =~= zero_pad(orig, l as nat));
        } else {
            assert(v@ =~= orig);
        }
    }
    v
}

/// The timezone offset in seconds a timestamp column carries, zero for any
/// other column type.
pub open spec fn timezone_offset_of(t: MysqlColType) -> int {
    match t {
        MysqlColType::Timestamp { timezone_offset } => timezone_offset as int,
        _ => 0,
    }
}

/// The decoding of the fixed-width column images: integers of width
/// 8/16/24/32/64, year and bit. Signedness follows the static column type;
/// an unsigned 24-bit value is the sign-extended image masked to 24 bits.
pub open spec fn decode_fixed(t: MysqlColType, v: BinlogColumnValue) -> Option<ColValue> {
    match v {
        BinlogColumnValue::Tiny(x) => Some(
            if t is UnsignedTiny {
                ColValue::UnsignedTiny(x as u8)
            } else {
                ColValue::Tiny(x)
            },
        ),
        BinlogColumnValue::Short(x) => Some(
            if t is UnsignedShort {
                ColValue::UnsignedShort(x as u16)
            } else {
                ColValue::Short(x)
            },
        ),
        BinlogColumnValue::Long(x) => Some(
            if t is UnsignedMedium {
                ColValue::UnsignedLong((x as u32) % 0x100_0000)
            } else if t is UnsignedLong {
                ColValue::UnsignedLong(x as u32)
            } else {
                ColValue::Long(x)
            },
        ),
        BinlogColumnValue::LongLong(x) => Some(
            if t is UnsignedLongLong {
                ColValue::UnsignedLongLong(x as u64)
            } else {
                ColValue::LongLong(x)
            },
        ),
        BinlogColumnValue::Year(x) => Some(ColValue::Year(x)),
        BinlogColumnValue::Bit(x) => Some(ColValue::Bit(x)),
        _ => None,
    }
}

/// The inverse mapping for the fixed-width values: the column image whose
/// decoding is the given value.
pub open spec fn encode_fixed(t: MysqlColType, cv: ColValue) -> Option<BinlogColumnValue> {
    match cv {
        ColValue::Tiny(x) => Some(BinlogColumnValue::Tiny(x)),
        ColValue::UnsignedTiny(x) => Some(BinlogColumnValue::Tiny(x as i8)),
        ColValue::Short(x) => Some(BinlogColumnValue::Short(x)),
        ColValue::UnsignedShort(x) => Some(BinlogColumnValue::Short(x as i16)),
        ColValue::Long(x) => Some(BinlogColumnValue::Long(x)),
        ColValue::UnsignedLong(x) => Some(
            BinlogColumnValue::Long(
                if t is UnsignedMedium && x >= 0x80_0000 {
                    (x as int - 0x100_0000) as i32
                } else {
                    x as i32
                },
            ),
        ),
        ColValue::LongLong(x) => Some(BinlogColumnValue::LongLong(x)),
        ColValue::UnsignedLongLong(x) => Some(BinlogColumnValue::LongLong(x as i64)),
        ColValue::Year(x) => Some(BinlogColumnValue::Year(x)),
        ColValue::Bit(x) => Some(BinlogColumnValue::Bit(x)),
        _ => None,
    }
}

/// Re-encoding a decoded fixed-width value yields the identical binlog
/// column image. A 24-bit image must lie in the range the log delivers,
/// `-0x80_0000` to `0x7f_ffff`.
pub proof fn lemma_binlog_fixed_width_round_trip(t: MysqlColType, v: BinlogColumnValue)
    requires
        decode_fixed(t, v) is Some,
        v matches BinlogColumnValue::Long(x) ==> (t is UnsignedMedium ==> -0x80_0000 <= x
            < 0x80_0000),
    ensures
        encode_fixed(t, decode_fixed(t, v)->Some_0) == Some(v),
{
    match v {
        BinlogColumnValue::Tiny(x) => {
            assert((x as u8) as i8 == x) by (bit_vector);
        },
        BinlogColumnValue::Short(x) => {
            assert((x as u16) as i16 == x) by (bit_vector);
        },
        BinlogColumnValue::Long(x) => {
            if t is UnsignedMedium {
                let u = (x as u32) % 0x100_0000;
                assert(-0x80_0000 <= x < 0x80_0000 ==> ((x as u32) % 0x100_0000 >= 0x80_0000
                    ==> ((x as u32) % 0x100_0000) as int - 0x100_0000 == x as int)
                    && ((x as u32) % 0x100_0000 < 0x80_0000 ==> ((x as u32) % 0x100_0000) as int
                    == x as int)) by (bit_vector);
            } else if t is UnsignedLong {
                assert((x as u32) as i32 == x) by (bit_vector);
            }
        },
        BinlogColumnValue::LongLong(x) => {
            assert((x as u64) as i64 == x) by (bit_vector);
        },
        _ => {},
    }
}

impl MysqlColValueConvertor {
    /// Decodes one binlog column image against its static column type.
    ///
    /// Fixed-width values decode per `decode_fixed`; strings and blobs move
    /// over, with fixed-length binary columns right-padded with zeros; a
    /// timestamp gains the column's timezone offset and is rendered as UTC
    /// text; set and enum values resolve their member names; a JSON image
    /// arrives already decoded to text and carries over. A timestamp whose
    /// nanosecond value leaves `i64` is a decode error.
    pub fn from_binlog(col_type: &MysqlColType, value: BinlogColumnValue) -> (r: Result<
        ColValue,
        DtError,
    >)
        ensures
            decode_fixed(*col_type, value) matches Some(cv) ==> r == Ok::<ColValue,
 DtError>(cv),

            value matches BinlogColumnValue::Float(s) ==> (r matches Ok(cv) && cv matches
                ColValue::Float(o) && o@ == s@),

            value matches BinlogColumnValue::Double(s) ==> (r matches Ok(cv) && cv matches
                ColValue::Double(o) && o@ == s@),

            value matches BinlogColumnValue::Decimal(s) ==> (r matches Ok(cv) && cv matches
                ColValue::Decimal(o) && o@ == s@),

            value matches BinlogColumnValue::Time(s) ==> (r matches Ok(cv) && cv matches
                ColValue::Time(o) && o@ == s@),

            value matches BinlogColumnValue::Date(s) ==> (r matches Ok(cv) && cv matches
                ColValue::Date(o) && o@ == s@),

            value matches BinlogColumnValue::DateTime(s) ==> (r matches Ok(cv) && cv matches
                ColValue::DateTime(o) && o@ == s@),

            value matches BinlogColumnValue::Timestamp(us) ==> (({
                let nanos = us * 1000 + timezone_offset_of(*col_type) * 1_000_000_000;
                if i64::MIN <= nanos <= i64::MAX {
                    r matches Ok(cv) && cv matches ColValue::Timestamp(o) && o@ == utc_text_of(
                        nanos as i64,
                    )
                } else {
                    r is Err
                }
            })),

            value matches BinlogColumnValue::String(b) ==> ((match *col_type {
                MysqlColType::Binary { length } => r matches Ok(cv) && cv matches ColValue::Blob(o)
                    && o@ == zero_pad(b@, length as nat),
                MysqlColType::VarBinary { .. } => r matches Ok(cv) && cv matches ColValue::Blob(o)
                    && o@ == b@,
                _ => r matches Ok(cv) && cv matches ColValue::RawString(o) && o@ == b@,
            })),

            value matches BinlogColumnValue::Blob(b) ==> ((match *col_type {
                MysqlColType::String { .. } => r matches Ok(cv) && cv matches ColValue::RawString(
                    o,
                ) && o@ == b@,
                _ => r matches Ok(cv) && cv matches ColValue::Blob(o) && o@ == b@,
            })),

            value matches BinlogColumnValue::SetBits(v) ==> ((match *col_type {
                MysqlColType::MemberSet { items } => r matches Ok(cv) && cv matches ColValue::Set2(
                    o,
                ) && o@ == set_text(v as nat, items@),
                _ => r matches Ok(cv) && cv matches ColValue::SetBits(w) && w == v,
            })),

            value matches BinlogColumnValue::Enum(v) ==> ((match *col_type {
                MysqlColType::Enum { items } => (match first_assoc_u32(items@, v) {
                    Some(n) => r matches Ok(cv) && cv matches ColValue::Enum2(o) && o@ == n,
                    None => r == Ok::<ColValue, DtError>(ColValue::Null),
                }),
                _ => r matches Ok(cv) && cv matches ColValue::Enum(w) && w == v,
            })),

            value matches BinlogColumnValue::Json(t) ==> (r matches Ok(cv) && cv matches
                ColValue::Json2(o) && o == t),


            value is Null ==> r == Ok::<ColValue,
 DtError>(ColValue::Null),
    {
        let cv = match value {
            BinlogColumnValue::Null => ColValue::Null,
            BinlogColumnValue::Tiny(x) => {
                if matches!(col_type, MysqlColType::UnsignedTiny) {
                    ColValue::UnsignedTiny(#[verifier::truncate] (x as u8))
                } else {
                    ColValue::Tiny(x)
                }
            },
            BinlogColumnValue::Short(x) => {
                if matches!(col_type, MysqlColType::UnsignedShort) {
                    ColValue::UnsignedShort(#[verifier::truncate] (x as u16))
                } else {
                    ColValue::Short(x)
                }
            },
            BinlogColumnValue::Long(x) => {
                if matches!(col_type, MysqlColType::UnsignedMedium) {
                    ColValue::UnsignedLong((#[verifier::truncate] (x as u32)) % 0x100_0000)
                } else if matches!(col_type, MysqlColType::UnsignedLong) {
                    ColValue::UnsignedLong(#[verifier::truncate] (x as u32))
                } else {
                    ColValue::Long(x)
                }
            },
            BinlogColumnValue::LongLong(x) => {
                if matches!(col_type, MysqlColType::UnsignedLongLong) {
                    ColValue::UnsignedLongLong(#[verifier::truncate] (x as u64))
                } else {
                    ColValue::LongLong(x)
                }
            },
            BinlogColumnValue::Float(s) => ColValue::Float(s),
            BinlogColumnValue::Double(s) => ColValue::Double(s),
            BinlogColumnValue::Decimal(s) => ColValue::Decimal(s),
            BinlogColumnValue::Time(s) => ColValue::Time(s),
            BinlogColumnValue::Date(s) => ColValue::Date(s),
            BinlogColumnValue::DateTime(s) => ColValue::DateTime(s),
            BinlogColumnValue::Year(x) => ColValue::Year(x),
            BinlogColumnValue::Timestamp(us) => {
                let off: i64 = match col_type {
                    MysqlColType::Timestamp { timezone_offset } => *timezone_offset,
                    _ => 0,
                };
                let nanos128: i128 = us as i128 * 1000 + off as i128 * 1_000_000_000;
                if nanos128 > i64::MAX as i128 || nanos128 < i64::MIN as i128 {
                    return Err(
                        DtError::Decode("timestamp out of the nanosecond range".to_owned()),
                    );
                }
                ColValue::Timestamp(format_utc_nanos(nanos128 as i64))
            },
            BinlogColumnValue::String(b) => {
                match col_type {
                    MysqlColType::Binary { length } => ColValue::Blob(
                        pad_zeros(b, *length as usize),
                    ),
                    MysqlColType::VarBinary { .. } => ColValue::Blob(b),
                    _ => ColValue::RawString(b),
                }
            },
            BinlogColumnValue::Blob(b) => {
                match col_type {
                    MysqlColType::String { .. } => ColValue::RawString(b),
                    _ => ColValue::Blob(b),
                }
            },
            BinlogColumnValue::Bit(x) => ColValue::Bit(x),
            BinlogColumnValue::SetBits(v) => {
                match col_type {
                    MysqlColType::MemberSet { items } => ColValue::Set2(set_members_text(v, items)),
                    _ => ColValue::SetBits(v),
                }
            },
            BinlogColumnValue::Enum(v) => {
                match col_type {
                    MysqlColType::Enum { items } => {
                        match lookup_u32(items, v) {
                            Some(n) => ColValue::Enum2(n.clone()),
                            None => ColValue::Null,
                        }
                    },
                    _ => ColValue::Enum(v),
                }
            },
            BinlogColumnValue::Json(t) => ColValue::Json2(t),
        };
        Ok(cv)
    }

    /// Re-encodes a fixed-width value into its binlog column image, the
    /// inverse of the fixed-width part of `from_binlog`. Values that are
    /// not fixed-width have no image here.
    pub fn to_binlog(col_type: &MysqlColType, value: &ColValue) -> (r: Option<BinlogColumnValue>)
        ensures
            r == encode_fixed(*col_type, *value),
    {
        match value {
            ColValue::Tiny(x) => Some(BinlogColumnValue::Tiny(*x)),
            ColValue::UnsignedTiny(x) => Some(
                BinlogColumnValue::Tiny(#[verifier::truncate] (*x as i8)),
            ),
            ColValue::Short(x) => Some(BinlogColumnValue::Short(*x)),
            ColValue::UnsignedShort(x) => Some(
                BinlogColumnValue::Short(#[verifier::truncate] (*x as i16)),
            ),
            ColValue::Long(x) => Some(BinlogColumnValue::Long(*x)),
            ColValue::UnsignedLong(x) => {
                if matches!(col_type, MysqlColType::UnsignedMedium) && *x >= 0x80_0000 {
                    Some(BinlogColumnValue::Long((*x as i64 - 0x100_0000) as i32))
                } else {
                    Some(BinlogColumnValue::Long(#[verifier::truncate] (*x as i32)))
                }
            },
            ColValue::LongLong(x) => Some(BinlogColumnValue::LongLong(*x)),
            ColValue::UnsignedLongLong(x) => Some(
                BinlogColumnValue::LongLong(#[verifier::truncate] (*x as i64)),
            ),
            ColValue::Year(x) => Some(BinlogColumnValue::Year(*x)),
            ColValue::Bit(x) => Some(BinlogColumnValue::Bit(*x)),
            _ => None,
        }
    }
}

impl MysqlColValueConvertor {
    /// Parses a decimal string into the typed variant a column calls for.
    ///
    /// Integer columns parse as `str::parse` does and give `Null` when the
    /// text does not parse or leaves the column's range; a floating-point
    /// column keeps its accepted text verbatim (the core holds no float)
    /// and gives `Null` when the text is not a floating-point number;
    /// other string-encoded columns carry the text over; binary columns and
    /// unknown types have no text form and are an error.
    pub fn from_str(col_type: &MysqlColType, value_str: &str) -> (r: Result<ColValue, DtError>)
        ensures
            col_type is Tiny ==> (r matches Ok(cv) && cv == (match parse_i64_spec(value_str@) {
                Some(n) => if -128 <= n <= 127 {
                    ColValue::Tiny(n as i8)
                } else {
                    ColValue::Null
                },
                None => ColValue::Null,
            })),

            col_type is UnsignedTiny ==> (r matches Ok(cv) && cv == (match parse_u64_spec(
                value_str@,
            ) {
                Some(n) => if n <= 255 {
                    ColValue::UnsignedTiny(n as u8)
                } else {
                    ColValue::Null
                },
                None => ColValue::Null,
            })),

            col_type is Short ==> (r matches Ok(cv) && cv == (match parse_i64_spec(value_str@) {
                Some(n) => if -0x8000 <= n <= 0x7fff {
                    ColValue::Short(n as i16)
                } else {
                    ColValue::Null
                },
                None => ColValue::Null,
            })),

            col_type is UnsignedShort ==> (r matches Ok(cv) && cv == (match parse_u64_spec(
                value_str@,
            ) {
                Some(n) => if n <= 0xffff {
                    ColValue::UnsignedShort(n as u16)
                } else {
                    ColValue::Null
                },
                None => ColValue::Null,
            })),

            col_type is Medium || col_type is Long ==> (r matches Ok(cv) && cv == (match
                parse_i64_spec(value_str@) {
                Some(n) => if -0x8000_0000 <= n <= 0x7fff_ffff {
                    ColValue::Long(n as i32)
                } else {
                    ColValue::Null
                },
                None => ColValue::Null,
            })),

            col_type is UnsignedMedium || col_type is UnsignedLong ==> (r matches Ok(cv) && cv == (
            match parse_u64_spec(value_str@) {
                Some(n) => if n <= 0xffff_ffff {
                    ColValue::UnsignedLong(n as u32)
                } else {
                    ColValue::Null
                },
                None => ColValue::Null,
            })),

            col_type is LongLong ==> (r matches Ok(cv) && cv == (match parse_i64_spec(value_str@) {
                Some(n) => ColValue::LongLong(n),
                None => ColValue::Null,
            })),

            col_type is UnsignedLongLong ==> (r matches Ok(cv) && cv == (match parse_u64_spec(
                value_str@,
            ) {
                Some(n) => ColValue::UnsignedLongLong(n),
                None => ColValue::Null,
            })),

            col_type is Year ==> (r matches Ok(cv) && cv == (match parse_u64_spec(value_str@) {
                Some(n) => if n <= 0xffff {
                    ColValue::Year(n as u16)
                } else {
                    ColValue::Null
                },
                None => ColValue::Null,
            })),

            col_type is Bit ==> (r matches Ok(cv) && cv == (match parse_u64_spec(value_str@) {
                Some(n) => ColValue::Bit(n),
                None => ColValue::Null,
            })),

            col_type is Float ==> (r matches Ok(cv) && (if float_text_accepted(value_str@) {
                cv matches ColValue::Float(o) && o@ == value_str@
            } else {
                cv is Null
            })),

            col_type is Double ==> (r matches Ok(cv) && (if float_text_accepted(value_str@) {
                cv matches ColValue::Double(o) && o@ == value_str@
            } else {
                cv is Null
            })),

            col_type matches MysqlColType::Decimal { .. } ==> (r matches Ok(cv) && cv matches
                ColValue::Decimal(o) && o@ == value_str@),

            col_type is Time ==> (r matches Ok(cv) && cv matches ColValue::Time(o) && o@
                == value_str@),

            col_type is Date ==> (r matches Ok(cv) && cv matches ColValue::Date(o) && o@
                == value_str@),

            col_type is DateTime ==> (r matches Ok(cv) && cv matches ColValue::DateTime(o) && o@
                == value_str@),

            col_type matches MysqlColType::Timestamp { .. } ==> (r matches Ok(cv) && cv matches
                ColValue::Timestamp(o) && o@ == value_str@),

            col_type matches MysqlColType::String { .. } ==> (r matches Ok(cv) && cv matches
                ColValue::String(o) && o@ == value_str@),

            col_type matches MysqlColType::MemberSet { .. } ==> (r matches Ok(cv) && cv matches
                ColValue::String(o) && o@ == value_str@),

            col_type matches MysqlColType::Enum { .. } ==> (r matches Ok(cv) && cv matches
                ColValue::String(o) && o@ == value_str@),

            col_type is Json ==> (r matches Ok(cv) && cv matches ColValue::Json2(o) && o@
                == value_str@),

            col_type matches MysqlColType::Binary { .. } || col_type matches
                MysqlColType::VarBinary { .. } || col_type is Blob || col_type is Unknown ==> r
                is Err,
    {
        let cv = match col_type {
            MysqlColType::Tiny => {
                match parse_i64(value_str) {
                    Some(n) => if -128 <= n && n <= 127 {
                        ColValue::Tiny(n as i8)
                    } else {
                        ColValue::Null
                    },
                    None => ColValue::Null,
                }
            },
            MysqlColType::UnsignedTiny => {
                match parse_u64(value_str) {
                    Some(n) => if n <= 255 {
                        ColValue::UnsignedTiny(n as u8)
                    } else {
                        ColValue::Null
                    },
                    None => ColValue::Null,
                }
            },
            MysqlColType::Short => {
                match parse_i64(value_str) {
                    Some(n) => if -0x8000 <= n && n <= 0x7fff {
                        ColValue::Short(n as i16)
                    } else {
                        ColValue::Null
                    },
                    None => ColValue::Null,
                }
            },
            MysqlColType::UnsignedShort => {
                match parse_u64(value_str) {
                    Some(n) => if n <= 0xffff {
                        ColValue::UnsignedShort(n as u16)
                    } else {
                        ColValue::Null
                    },
                    None => ColValue::Null,
                }
            },
            MysqlColType::Medium | MysqlColType::Long => {
                match parse_i64(value_str) {
                    Some(n) => if -0x8000_0000 <= n && n <= 0x7fff_ffff {
                        ColValue::Long(n as i32)
                    } else {
                        ColValue::Null
                    },
                    None => ColValue::Null,
                }
            },
            MysqlColType::UnsignedMedium | MysqlColType::UnsignedLong => {
                match parse_u64(value_str) {
                    Some(n) => if n <= 0xffff_ffff {
                        ColValue::UnsignedLong(n as u32)
                    } else {
                        ColValue::Null
                    },
                    None => ColValue::Null,
                }
            },
            MysqlColType::LongLong => {
                match parse_i64(value_str) {
                    Some(n) => ColValue::LongLong(n),
                    None => ColValue::Null,
                }
            },
            MysqlColType::UnsignedLongLong => {
                match parse_u64(value_str) {
                    Some(n) => ColValue::UnsignedLongLong(n),
                    None => ColValue::Null,
                }
            },
            MysqlColType::Float => {
                if is_float_text(value_str) {
                    ColValue::Float(value_str.to_owned())
                } else {
                    ColValue::Null
                }
            },
            MysqlColType::Double => {
                if is_float_text(value_str) {
                    ColValue::Double(value_str.to_owned())
                } else {
                    ColValue::Null
                }
            },
            MysqlColType::Decimal { .. } => ColValue::Decimal(value_str.to_owned()),
            MysqlColType::Time => ColValue::Time(value_str.to_owned()),
            MysqlColType::Date => ColValue::Date(value_str.to_owned()),
            MysqlColType::DateTime => ColValue::DateTime(value_str.to_owned()),
            MysqlColType::Timestamp { .. } => ColValue::Timestamp(value_str.to_owned()),
            MysqlColType::Year => {
                match parse_u64(value_str) {
                    Some(n) => if n <= 0xffff {
                        ColValue::Year(n as u16)
                    } else {
                        ColValue::Null
                    },
                    None => ColValue::Null,
                }
            },
            MysqlColType::String { .. } => ColValue::String(value_str.to_owned()),
            MysqlColType::Bit => {
                match parse_u64(value_str) {
                    Some(n) => ColValue::Bit(n),
                    None => ColValue::Null,
                }
            },
            MysqlColType::MemberSet { .. } => ColValue::String(value_str.to_owned()),
            MysqlColType::Enum { .. } => ColValue::String(value_str.to_owned()),
            MysqlColType::Json => ColValue::Json2(value_str.to_owned()),
            MysqlColType::Binary { .. } | MysqlColType::VarBinary { .. } | MysqlColType::Blob
                | MysqlColType::Unknown => {
                return Err(DtError::Unexpected("unsupported column type".to_owned()));
            },
        };
        Ok(cv)
    }
}

/// How a result-row column is fetched, per dialect: most types come through
/// their typed getter; compatible warehouses return temporal columns as
/// pre-formatted text.
#[derive(Clone, Copy, PartialEq, Eq, Structural, Debug)]
pub enum FetchKind {
    Typed,
    TemporalText,
    TimeBuffer,
}

/// The dialect decision of the result-row reader: StarRocks and Foxlake
/// return date and datetime columns as text, Foxlake times and timestamps
/// too; a MySQL time column arrives as its binary buffer, every other
/// column through its typed getter.
pub fn query_fetch_kind(col_type: &MysqlColType, db_type: &DbType) -> (r: FetchKind)
    ensures
        col_type is Time ==> r == (if db_type is Foxlake {
            FetchKind::TemporalText
        } else {
            FetchKind::TimeBuffer
        }),
        col_type is Date || col_type is DateTime ==> r == (
        if db_type is Foxlake || db_type is StarRocks {
            FetchKind::TemporalText
        } else {
            FetchKind::Typed
        }),
        col_type matches MysqlColType::Timestamp { .. } ==> r == (if db_type is Foxlake {
            FetchKind::TemporalText
        } else {
            FetchKind::Typed
        }),
        !(col_type is Time || col_type is Date || col_type is DateTime || col_type matches
            MysqlColType::Timestamp { .. }) ==> r is Typed,
{
    match col_type {
        MysqlColType::Time => {
            if matches!(db_type, DbType::Foxlake) {
                FetchKind::TemporalText
            } else {
                FetchKind::TimeBuffer
            }
        },
        MysqlColType::Date | MysqlColType::DateTime => {
            if matches!(db_type, DbType::Foxlake) || matches!(db_type, DbType::StarRocks) {
                FetchKind::TemporalText
            } else {
                FetchKind::Typed
            }
        },
        MysqlColType::Timestamp { .. } => {
            if matches!(db_type, DbType::Foxlake) {
                FetchKind::TemporalText
            } else {
                FetchKind::Typed
            }
        },
        _ => FetchKind::Typed,
    }
}

} // verus!
