//! The Redis RDB stream reader: the magic header and the control-flag
//! dispatch loop that precedes each stored object.

use vstd::prelude::*;
use crate::bytes::{le_val, pow256, ByteReader};
use crate::text::{dec_rep, parse_i64, parse_i64_spec};
use vstd::string::StringSliceAdditionalSpecFns;
use crate::value::DtError;

verus! {

/// The value of a byte sequence read as a big-endian unsigned integer.
pub open spec fn be_val(b: Seq<u8>) -> nat
    decreases b.len(),
{
    if b.len() == 0 {
        0
    } else {
        be_val(b.drop_last()) * 256 + b.last() as nat
    }
}

proof fn lemma_be_val_bound(b: Seq<u8>)
    ensures
        be_val(b) < pow256(b.len()),
    decreases b.len(),
{
    if b.len() == 0 {
    } else {
        lemma_be_val_bound(b.drop_last());
    }
}

/// A decoded RDB length header: the value, the bytes it consumed, and
/// whether it is a special string-encoding marker instead of a plain
/// length.
pub open spec fn rdb_len(b: Seq<u8>) -> Option<(nat, int, bool)> {
    if b.len() < 1 {
        None
    } else {
        let h = b[0] as nat;
        let kind = h / 64;
        if kind == 0 {
            Some((h % 64, 1, false))
        } else if kind == 1 {
            if b.len() < 2 {
                None
            } else {
                Some(((h % 64) * 256 + b[1] as nat, 2, false))
            }
        } else if kind == 3 {
            Some((h % 64, 1, true))
        } else if b[0] == 0x80 {
            if b.len() < 5 {
                None
            } else {
                Some((be_val(b.subrange(1, 5)), 5, false))
            }
        } else if b[0] == 0x81 {
            if b.len() < 9 {
                None
            } else {
                Some((be_val(b.subrange(1, 9)), 9, false))
            }
        } else {
            None
        }
    }
}

/// Decimal text of a natural number, as bytes.
pub open spec fn dec_bytes(n: nat) -> Seq<u8> {
    dec_rep(n).map_values(|c: char| c as u8)
}

/// Decimal text of an integer, as bytes.
pub open spec fn int_text_bytes(n: int) -> Seq<u8> {
    if n < 0 {
        seq![45u8] + dec_bytes((-n) as nat)
    } else {
        dec_bytes(n as nat)
    }
}

/// A signed little-endian integer of `w` bytes.
pub open spec fn le_signed(b: Seq<u8>, w: nat) -> int {
    let u = le_val(b);
    if u >= pow256(w) / 2 {
        u - pow256(w)
    } else {
        u as int
    }
}

/// A decoded RDB string: its content bytes and the bytes consumed. The
/// three integer encodings render as decimal text; the compressed encoding
/// is not read here.
pub open spec fn rdb_string(b: Seq<u8>) -> Option<(Seq<u8>, int)> {
    match rdb_len(b) {
        None => None,
        Some((v, c, special)) => {
            if !special {
                if b.len() < c + v {
                    None
                } else {
                    Some((b.subrange(c, c + v), c + v))
                }
            } else if v == 0 {
                if b.len() < c + 1 {
                    None
                } else {
                    Some((int_text_bytes(le_signed(b.subrange(c, c + 1), 1)), c + 1))
                }
            } else if v == 1 {
                if b.len() < c + 2 {
                    None
                } else {
                    Some((int_text_bytes(le_signed(b.subrange(c, c + 2), 2)), c + 2))
                }
            } else if v == 2 {
                if b.len() < c + 4 {
                    None
                } else {
                    Some((int_text_bytes(le_signed(b.subrange(c, c + 4), 4)), c + 4))
                }
            } else {
                None
            }
        },
    }
}

fn render_dec_bytes(n: u64) -> (r: Vec<u8>)
    ensures
        r@ == dec_bytes(n as nat),
    decreases n,
{
    if n < 10 {
        let mut v: Vec<u8> = Vec::new();
        v.push((48 + n) as u8);
        proof {
            assert(dec_rep(n as nat) =~= seq![crate::text::dec_digit_char(n as nat)]);
            assert(v@ =~= dec_bytes(n as nat));
        }
        v
    } else {
        let mut v = render_dec_bytes(n / 10);
        v.push((48 + (n % 10)) as u8);
        proof {
            assert(dec_rep(n as nat) == dec_rep(n as nat / 10).push(
                crate::text::dec_digit_char(n as nat % 10),
            ));
            assert(v@ =~= dec_bytes(n as nat));
        }
        v
    }
}

fn render_int_bytes(n: i64) -> (r: Vec<u8>)
    ensures
        r@ == int_text_bytes(n as int),
{
    if n < 0 {
        let mut v: Vec<u8> = Vec::new();
        v.push(45);
        let mag: u64 = if n == i64::MIN {
            0x8000_0000_0000_0000
        } else {
            (-n) as u64
        };
        let mut d = render_dec_bytes(mag);
        v.append(&mut d);
        proof {
            assert(v@ =~= int_text_bytes(n as int));
        }
        v
    } else {
        render_dec_bytes(n as u64)
    }
}

/// Reads an RDB length header; a special string-encoding marker or a
/// malformed header is an error here.
fn read_length(rd: &mut ByteReader) -> (r: Result<u64, DtError>)
    requires
        old(rd).wf(),
    ensures
        final(rd).wf(),
        final(rd).buf@ == old(rd).buf@,
        match rdb_len(old(rd).remaining_bytes()) {
            Some((v, c, special)) => if special {
                r is Err && final(rd).pos == old(rd).pos
            } else {
                r matches Ok(x) && x as nat == v && final(rd).pos == old(rd).pos + c
            },
            None => r is Err,
        },
{
    let ghost rem = old(rd).remaining_bytes();
    let ghost base = old(rd).pos as int;
    let h = match rd.read_u8() {
        Ok(v) => v,
        Err(e) => {
            return Err(e);
        },
    };
    proof {
        assert(rem[0] == old(rd).buf@[base]);
    }
    let kind = h / 64;
    if kind == 0 {
        Ok((h % 64) as u64)
    } else if kind == 1 {
        let lo = match rd.read_u8() {
            Ok(v) => v,
            Err(e) => {
                return Err(e);
            },
        };
        proof {
            assert(rem[1] == old(rd).buf@[base + 1]);
        }
        Ok((h % 64) as u64 * 256 + lo as u64)
    } else if kind == 3 {
        self_rewind(rd, 1);
        return Err(DtError::Decode("specially encoded value where a length is needed".to_owned()));
    } else if h == 0x80 {
        match read_uint_be(rd, 4) {
            Ok(v) => {
                proof {
                    assert(rem.subrange(1, 5) =~= old(rd).buf@.subrange(base + 1, base + 5));
                }
                Ok(v)
            },
            Err(e) => Err(e),
        }
    } else if h == 0x81 {
        match read_uint_be(rd, 8) {
            Ok(v) => {
                proof {
                    assert(rem.subrange(1, 9) =~= old(rd).buf@.subrange(base + 1, base + 9));
                }
                Ok(v)
            },
            Err(e) => Err(e),
        }
    } else {
        Err(DtError::Decode("malformed length header".to_owned()))
    }
}

/// Steps the cursor back over an already-read header byte.
fn self_rewind(rd: &mut ByteReader, n: usize)
    requires
        old(rd).wf(),
        n <= old(rd).pos,
    ensures
        final(rd).wf(),
        final(rd).buf@ == old(rd).buf@,
        final(rd).pos == old(rd).pos - n,
{
    rd.pos = rd.pos - n;
}

/// Reads an `n`-byte big-endian unsigned integer, `n` at most 8.
fn read_uint_be(rd: &mut ByteReader, n: usize) -> (r: Result<u64, DtError>)
    requires
        old(rd).wf(),
        n <= 8,
    ensures
        final(rd).wf(),
        final(rd).buf@ == old(rd).buf@,
        match r {
            Ok(v) => old(rd).pos + n <= old(rd).buf@.len() && v as nat == be_val(
                old(rd).buf@.subrange(old(rd).pos as int, old(rd).pos + n),
            ) && final(rd).pos == old(rd).pos + n,
            Err(_) => old(rd).pos + n > old(rd).buf@.len() && final(rd).pos == old(rd).pos,
        },
{
    let bytes = match rd.read_bytes(n) {
        Ok(v) => v,
        Err(e) => {
            return Err(e);
        },
    };
    let ghost whole = bytes@;
    let mut acc: u64 = 0;
    let mut i: usize = 0;
    while i < n
        invariant
            i <= n <= 8,
            bytes@ == whole,
            whole.len() == n,
            acc as nat == be_val(whole.subrange(0, i as int)),
        decreases n - i,
    {
        proof {
            let pre = whole.subrange(0, i as int);
            let cur = whole.subrange(0, i + 1 as int);
            assert(cur.drop_last() =~= pre);
            assert(cur.last() == whole[i as int]);
            lemma_be_val_bound(cur);
            lemma_pow256_step((i + 1) as nat);
        }
        acc = acc * 256 + bytes[i] as u64;
        i = i + 1;
    }
    proof {
        assert(whole.subrange(0, n as int) =~= whole);
    }
    Ok(acc)
}

proof fn lemma_pow256_step(n: nat)
    requires
        n <= 8,
    ensures
        pow256(n) <= pow256(8),
        pow256(8) == 0x1_0000_0000_0000_0000,
    decreases n,
{
    assert(pow256(8) == 0x1_0000_0000_0000_0000) by {
        reveal_with_fuel(pow256, 9);
    }
    if n > 0 {
        lemma_pow256_step((n - 1) as nat);
        assert(pow256(n) <= pow256(8)) by {
            reveal_with_fuel(pow256, 9);
        }
    }
}

/// Reads an RDB string: a plain length-prefixed byte run, or one of the
/// three integer encodings rendered as decimal text. The compressed
/// encoding is not read here and is an error.
fn read_rdb_string(rd: &mut ByteReader) -> (r: Result<Vec<u8>, DtError>)
    requires
        old(rd).wf(),
    ensures
        final(rd).wf(),
        final(rd).buf@ == old(rd).buf@,
        match rdb_string(old(rd).remaining_bytes()) {
            Some((content, c)) => r matches Ok(v) && v@ == content && final(rd).pos == old(
                rd,
            ).pos + c,
            None => r is Err,
        },
{
    let ghost rem = old(rd).remaining_bytes();
    let ghost base = old(rd).pos as int;
    let h = match rd.read_u8() {
        Ok(v) => v,
        Err(e) => {
            return Err(e);
        },
    };
    proof {
        assert(rem[0] == old(rd).buf@[base]);
    }
    let kind = h / 64;
    if kind == 3 {
        let enc = h % 64;
        if enc == 0 {
            let b = match rd.read_u8() {
                Ok(v) => v,
                Err(e) => {
                    return Err(e);
                },
            };
            let sb = #[verifier::truncate] (b as i8);
            proof {
                assert(rem.subrange(1, 2) =~= old(rd).buf@.subrange(base + 1, base + 2));
                assert(rem[1] == old(rd).buf@[base + 1]);
                assert(rem.subrange(1, 2)[0] == rem[1]);
                assert(rem.subrange(1, 2).drop_first() =~= Seq::<u8>::empty());
                assert(le_val(rem.subrange(1, 2).drop_first()) == 0);
                assert(le_val(rem.subrange(1, 2)) == rem.subrange(1, 2)[0] as nat + 256 * le_val(
                    rem.subrange(1, 2).drop_first(),
                ));
                assert(pow256(0) == 1);
                assert(pow256(1) == 256);
                assert(sb as int == if b >= 128 {
                    b as int - 256
                } else {
                    b as int
                }) by (bit_vector)
                    requires
                        sb == b as i8,
                ;
                assert(sb as int == le_signed(rem.subrange(1, 2), 1));
            }
            Ok(render_int_bytes(sb as i64))
        } else if enc == 1 {
            let v = match rd.read_u16_le() {
                Ok(v) => v,
                Err(e) => {
                    return Err(e);
                },
            };
            let sv = #[verifier::truncate] (v as i16);
            proof {
                assert(rem.subrange(1, 3) =~= old(rd).buf@.subrange(base + 1, base + 3));
                assert(pow256(2) == 0x1_0000) by {
                    reveal_with_fuel(pow256, 3);
                }
                assert(sv as int == if v >= 0x8000 {
                    v as int - 0x1_0000
                } else {
                    v as int
                }) by (bit_vector)
                    requires
                        sv == v as i16,
                ;
                assert(sv as int == le_signed(rem.subrange(1, 3), 2));
            }
            Ok(render_int_bytes(sv as i64))
        } else if enc == 2 {
            let v = match rd.read_u32_le() {
                Ok(v) => v,
                Err(e) => {
                    return Err(e);
                },
            };
            let sv = #[verifier::truncate] (v as i32);
            proof {
                assert(rem.subrange(1, 5) =~= old(rd).buf@.subrange(base + 1, base + 5));
                assert(pow256(4) == 0x1_0000_0000) by {
                    reveal_with_fuel(pow256, 5);
                }
                assert(sv as int == if v >= 0x8000_0000 {
                    v as int - 0x1_0000_0000
                } else {
                    v as int
                }) by (bit_vector)
                    requires
                        sv == v as i32,
                ;
                assert(sv as int == le_signed(rem.subrange(1, 5), 4));
            }
            Ok(render_int_bytes(sv as i64))
        } else {
            self_rewind(rd, 1);
            Err(DtError::Decode("compressed string encoding is not read here".to_owned()))
        }
    } else {
        self_rewind(rd, 1);
        let len = match read_length(rd) {
            Ok(v) => v,
            Err(e) => {
                return Err(e);
            },
        };
        let ghost c = rdb_len(rem)->Some_0.1;
        let remaining = rd.remaining();
        if len > remaining as u64 {
            return Err(DtError::Decode("string runs past the buffer".to_owned()));
        }
        match rd.read_bytes(len as usize) {
            Ok(v) => {
                proof {
                    assert(rem.subrange(c, c + len as int) =~= old(rd).buf@.subrange(
                        base + c,
                        base + c + len as int,
                    ));
                }
                Ok(v)
            },
            Err(e) => Err(e),
        }
    }
}

/// A Redis command as an argument vector.
#[derive(Clone, PartialEq, Eq, Debug)]
pub struct RedisCmd {
    pub args: Vec<Vec<u8>>,
}

/// The byte views of a command's arguments.
pub open spec fn cmd_args(c: RedisCmd) -> Seq<Seq<u8>> {
    c.args@.map_values(|v: Vec<u8>| v@)
}

impl RedisCmd {
    pub fn new() -> (r: RedisCmd)
        ensures
            cmd_args(r) == Seq::<Seq<u8>>::empty(),
    {
        let r = RedisCmd { args: Vec::new() };
        proof {
            assert(cmd_args(r) =~= Seq::<Seq<u8>>::empty());
        }
        r
    }

    /// Appends a textual argument.
    pub fn add_str_arg(&mut self, arg: &str)
        ensures
            cmd_args(*final(self)) == cmd_args(*old(self)).push(arg.spec_bytes()),
    {
        let v = arg.as_bytes_vec();
        self.args.push(v);
        proof {
            assert(cmd_args(*self) =~= cmd_args(*old(self)).push(arg.spec_bytes()));
        }
    }

    /// Appends a raw argument.
    pub fn add_redis_arg(&mut self, arg: Vec<u8>)
        ensures
            cmd_args(*final(self)) == cmd_args(*old(self)).push(arg@),
    {
        let ghost a = arg@;
        self.args.push(arg);
        proof {
            assert(cmd_args(*self) =~= cmd_args(*old(self)).push(a));
        }
    }
}

/// One entry of an RDB stream: a loaded command or a stored object's
/// header. The object payload itself belongs to the object-parsing
/// collaborator, which also captures its raw bytes.
#[derive(Clone, PartialEq, Eq, Debug)]
pub struct RedisEntry {
    pub is_base: bool,
    pub db_id: i64,
    pub cmd: RedisCmd,
    pub key: Vec<u8>,
    pub value_type_byte: u8,
    pub raw_bytes: Vec<u8>,
}

impl RedisEntry {
    pub fn new() -> (r: RedisEntry)
        ensures
            r.is_base == true,
            r.db_id == 0,
            cmd_args(r.cmd) == Seq::<Seq<u8>>::empty(),
            r.key@ == Seq::<u8>::empty(),
            r.value_type_byte == 0,
            r.raw_bytes@ == Seq::<u8>::empty(),
    {
        let r = RedisEntry {
            is_base: true,
            db_id: 0,
            cmd: RedisCmd::new(),
            key: Vec::new(),
            value_type_byte: 0,
            raw_bytes: Vec::new(),
        };
        r
    }
}

/// The relative expiry computed from an absolute epoch stamp and the
/// clock: the difference, clamped below at one millisecond and above at
/// the largest representable value.
fn relative_expiry(abs_ms: i64, now_ms: i64) -> (r: i64)
    ensures
        r as int == if abs_ms - now_ms < 1 {
            1int
        } else if abs_ms - now_ms > i64::MAX {
            i64::MAX as int
        } else {
            abs_ms - now_ms
        },
        r >= 1,
{
    let rel: i128 = abs_ms as i128 - now_ms as i128;
    if rel < 1 {
        1
    } else if rel > i64::MAX as i128 {
        i64::MAX
    } else {
        rel as i64
    }
}

/// Relies on chrono's `Utc::now`: the wall clock's milliseconds since the
/// Unix epoch. The value depends on the clock, so nothing is promised of
/// it.
#[verifier::external_body]
fn now_millis() -> i64 {
    chrono::Utc::now().timestamp_millis()
}

/// Compares a byte buffer with the bytes of an ASCII string.
fn bytes_eq_str(b: &Vec<u8>, s: &str) -> (r: bool)
    requires
        s.is_ascii(),
    ensures
        r == (b@ == s@.map_values(|c: char| c as u8)),
{
    let n = s.unicode_len();
    if b.len() != n {
        proof {
            assert(b@.len() != s@.map_values(|c: char| c as u8).len());
        }
        return false;
    }
    let mut i: usize = 0;
    while i < n
        invariant
            0 <= i <= n,
            n == s@.len(),
            b@.len() == n,
            s.is_ascii(),
            forall|j: int| 0 <= j < i ==> b@[j] == s@.map_values(|c: char| c as u8)[j],
        decreases n - i,
    {
        if b[i] != s.get_ascii(i) {
            proof {
                assert(b@[i as int] != s@.map_values(|c: char| c as u8)[i as int]);
            }
            return false;
        }
        i = i + 1;
    }
    proof {
        assert(b@ =~= s@.map_values(|c: char| c as u8));
    }
    true
}

/// The characters of a byte buffer read as single-byte codepoints.
pub open spec fn bytes_chars(b: Seq<u8>) -> Seq<char> {
    b.map_values(|x: u8| x as char)
}

/// The bytes of the RDB magic.
pub open spec fn rdb_magic() -> Seq<u8> {
    seq![82u8, 69u8, 68u8, 73u8, 83u8]
}

/// The RDB stream loader: the cursor and the state the control flags set.
pub struct RdbLoader {
    pub reader: ByteReader,
    pub repl_stream_db_id: i64,
    pub now_db_id: i64,
    pub expire_ms: i64,
    pub idle: i64,
    pub freq: i64,
    pub is_end: bool,
}

/// The loader fields after one step: the cursor moved, one field possibly
/// set, the buffer untouched.
pub open spec fn loader_fields(
    pre: RdbLoader,
    post: RdbLoader,
    pos: int,
    repl: i64,
    db: i64,
    expire: i64,
    idle: i64,
    freq: i64,
    end: bool,
) -> bool {
    &&& post.reader.buf@ == pre.reader.buf@
    &&& post.reader.pos == pos
    &&& post.repl_stream_db_id == repl
    &&& post.now_db_id == db
    &&& post.expire_ms == expire
    &&& post.idle == idle
    &&& post.freq == freq
    &&& post.is_end == end
}

impl RdbLoader {
    /// A loader at the start of a stream.
    pub fn new(buf: Vec<u8>) -> (r: RdbLoader)
        ensures
            r.reader.wf(),
            r.reader.buf@ == buf@,
            r.reader.pos == 0,
            r.repl_stream_db_id == 0 && r.now_db_id == 0 && r.expire_ms == 0 && r.idle == 0
                && r.freq == 0 && !r.is_end,
    {
        RdbLoader {
            reader: ByteReader::new(buf),
            repl_stream_db_id: 0,
            now_db_id: 0,
            expire_ms: 0,
            idle: 0,
            freq: 0,
            is_end: false,
        }
    }

    /// Reads the stream header: the five magic bytes `REDIS`, then the
    /// four ASCII version bytes, which are returned. A good header is
    /// always accepted, with exactly nine bytes consumed; a short buffer,
    /// a wrong magic or non-ASCII version bytes are rejected, with the
    /// cursor telling how far the header was read.
    pub fn load_meta(&mut self) -> (r: Result<String, DtError>)
        requires
            old(self).reader.wf(),
        ensures
            final(self).reader.wf(),
            final(self).reader.buf@ == old(self).reader.buf@,
            final(self).repl_stream_db_id == old(self).repl_stream_db_id,
            final(self).now_db_id == old(self).now_db_id,
            final(self).expire_ms == old(self).expire_ms,
            final(self).idle == old(self).idle,
            final(self).freq == old(self).freq,
            final(self).is_end == old(self).is_end,
            ({
                let rem = old(self).reader.remaining_bytes();
                let base = old(self).reader.pos as int;
                if rem.len() < 5 {
                    r is Err && final(self).reader.pos == base
                } else if rem.subrange(0, 5) != rdb_magic() {
                    r is Err && final(self).reader.pos == base + 5
                } else if rem.len() < 9 {
                    r is Err && final(self).reader.pos == base + 5
                } else if exists|i: int| 5 <= i < 9 && (#[trigger] rem[i]) >= 0x80 {
                    r is Err && final(self).reader.pos == base + 9
                } else {
                    r matches Ok(v) && v@ == bytes_chars(rem.subrange(5, 9))
                        && final(self).reader.pos == base + 9
                }
            }),
    {
        let ghost rem = old(self).reader.remaining_bytes();
        let ghost base = old(self).reader.pos as int;
        let magic = match self.reader.read_bytes(5) {
            Ok(v) => v,
            Err(e) => {
                return Err(e);
            },
        };
        proof {
            assert(rem.subrange(0, 5) =~= old(self).reader.buf@.subrange(base, base + 5));
        }
        if !(magic.len() == 5 && magic[0] == 82 && magic[1] == 69 && magic[2] == 68 && magic[3]
            == 73 && magic[4] == 83) {
            proof {
                assert(magic@ != rdb_magic());
            }
            return Err(DtError::Decode("invalid rdb format".to_owned()));
        }
        proof {
            assert(magic@ =~= rdb_magic());
        }
        let version = match self.reader.read_bytes(4) {
            Ok(v) => v,
            Err(e) => {
                return Err(e);
            },
        };
        proof {
            assert(version@ =~= rem.subrange(5, 9));
        }
        if !all_ascii(&version) {
            proof {
                let i = choose|i: int|
                    0 <= i < version@.len() && (#[trigger] version@[i]) >= 0x80;
                assert(rem[5 + i] == version@[i]);
                assert(rem[5 + i] >= 0x80);
            }
            return Err(DtError::Decode("invalid rdb version text".to_owned()));
        }
        let v = ascii_bytes_to_string(&version);
        proof {
            assert(v@ =~= bytes_chars(rem.subrange(5, 9)));
            if exists|i: int| 5 <= i < 9 && (#[trigger] rem[i]) >= 0x80 {
                let i = choose|i: int| 5 <= i < 9 && (#[trigger] rem[i]) >= 0x80;
                assert(version@[i - 5] == rem[i]);
            }
        }
        Ok(v)
    }
}

/// Parses a decimal byte run as a signed integer, as the auxiliary
/// database id arrives.
fn parse_ascii_i64(b: &Vec<u8>) -> (r: Option<i64>)
    ensures
        r == crate::text::parse_i64_spec(bytes_chars(b@)),
{
    if all_ascii(b) {
        let s = ascii_bytes_to_string(b);
        parse_i64(s.as_str())
    } else {
        proof {
            let ch = bytes_chars(b@);
            let i = choose|i: int| 0 <= i < b@.len() && (#[trigger] b@[i]) >= 0x80;
            assert(ch[i] == b@[i] as char);
            lemma_non_ascii_parse_fails(ch, i);
        }
        None
    }
}

/// Whether every byte is below 0x80.
fn all_ascii(b: &Vec<u8>) -> (r: bool)
    ensures
        r == forall|i: int| 0 <= i < b@.len() ==> (#[trigger] b@[i]) < 0x80,
{
    let mut i: usize = 0;
    while i < b.len()
        invariant
            0 <= i <= b@.len(),
            forall|j: int| 0 <= j < i ==> (#[trigger] b@[j]) < 0x80,
        decreases b@.len() - i,
    {
        if b[i] >= 0x80 {
            return false;
        }
        i = i + 1;
    }
    true
}

/// Relies on std's `String::from_utf8`: by its documentation, bytes below
/// 0x80 are valid UTF-8 and decode to exactly those characters, so on the
/// admitted inputs the conversion cannot fail.
#[verifier::external_body]
fn ascii_bytes_to_string(b: &Vec<u8>) -> (r: String)
    requires
        forall|i: int| 0 <= i < b@.len() ==> (#[trigger] b@[i]) < 0x80,
    ensures
        r@ == bytes_chars(b@),
{
    match std::string::String::from_utf8(b.clone()) {
        Ok(s) => s,
        Err(_) => String::new(),
    }
}

proof fn lemma_non_ascii_parse_fails(ch: Seq<char>, i: int)
    requires
        0 <= i < ch.len(),
        ch[i] as int >= 0x80,
    ensures
        crate::text::parse_i64_spec(ch) is None,
{
    assert(!crate::text::is_digit_char(ch[i]));
    if ch.len() > 0 && ch[0] == '-' {
        let bodyseq = ch.subrange(1, ch.len() as int);
        if i >= 1 {
            assert(bodyseq[i - 1] == ch[i]);
            assert(!crate::text::all_digits(bodyseq));
        }
    } else if ch.len() > 0 && ch[0] == '+' {
        let bodyseq = ch.subrange(1, ch.len() as int);
        if i >= 1 {
            assert(bodyseq[i - 1] == ch[i]);
            assert(!crate::text::all_digits(bodyseq));
        }
    } else {
        assert(!crate::text::all_digits(ch));
    }
}

/// What one dispatch step of the loader does, per control flag.
pub open spec fn rdb_entry_post(
    pre: RdbLoader,
    post: RdbLoader,
    r: Result<Option<RedisEntry>, DtError>,
) -> bool {
    let rem = pre.reader.remaining_bytes();
    let base = pre.reader.pos as int;
    if rem.len() == 0 {
        r is Err
    } else {
        let flag = rem[0];
        let body = rem.drop_first();
        if flag == 0xf8 {
            match rdb_len(body) {
                Some((v, c, special)) => if special {
                    r is Err
                } else {
                    r matches Ok(o) && o is None && loader_fields(
                        pre,
                        post,
                        base + 1 + c,
                        pre.repl_stream_db_id,
                        pre.now_db_id,
                        pre.expire_ms,
                        (v as u64) as i64,
                        pre.freq,
                        pre.is_end,
                    )
                },
                None => r is Err,
            }
        } else if flag == 0xf9 {
            if body.len() < 1 {
                r is Err
            } else {
                r matches Ok(o) && o is None && loader_fields(
                    pre,
                    post,
                    base + 2,
                    pre.repl_stream_db_id,
                    pre.now_db_id,
                    pre.expire_ms,
                    pre.idle,
                    body[0] as i64,
                    pre.is_end,
                )
            }
        } else if flag == 0xfa {
            match rdb_string(body) {
                None => r is Err,
                Some((key, c1)) => match rdb_string(body.subrange(c1, body.len() as int)) {
                    None => r is Err,
                    Some((val, c2)) => {
                        let endpos = base + 1 + c1 + c2;
                        if key == "repl-stream-db"@.map_values(|c: char| c as u8) {
                            match crate::text::parse_i64_spec(bytes_chars(val)) {
                                Some(n) => r matches Ok(o) && o is None && loader_fields(
                                    pre,
                                    post,
                                    endpos,
                                    n,
                                    pre.now_db_id,
                                    pre.expire_ms,
                                    pre.idle,
                                    pre.freq,
                                    pre.is_end,
                                ),
                                None => r is Err,
                            }
                        } else if key == "lua"@.map_values(|c: char| c as u8) {
                            r matches Ok(o) && o matches Some(e) && e.is_base && e.db_id
                                == pre.now_db_id && cmd_args(e.cmd) =~= seq![
                                "script"@.map_values(|c: char| c as u8),
                                "load"@.map_values(|c: char| c as u8),
                                val,
                            ] && loader_fields(
                                pre,
                                post,
                                endpos,
                                pre.repl_stream_db_id,
                                pre.now_db_id,
                                pre.expire_ms,
                                pre.idle,
                                pre.freq,
                                pre.is_end,
                            )
                        } else {
                            r matches Ok(o) && o is None && loader_fields(
                                pre,
                                post,
                                endpos,
                                pre.repl_stream_db_id,
                                pre.now_db_id,
                                pre.expire_ms,
                                pre.idle,
                                pre.freq,
                                pre.is_end,
                            )
                        }
                    },
                },
            }
        } else if flag == 0xfb {
            match rdb_len(body) {
                Some((v1, c1, special1)) => if special1 {
                    r is Err
                } else {
                    match rdb_len(body.subrange(c1, body.len() as int)) {
                        Some((v2, c2, special2)) => if special2 {
                            r is Err
                        } else {
                            r matches Ok(o) && o is None && loader_fields(
                                pre,
                                post,
                                base + 1 + c1 + c2,
                                pre.repl_stream_db_id,
                                pre.now_db_id,
                                pre.expire_ms,
                                pre.idle,
                                pre.freq,
                                pre.is_end,
                            )
                        },
                        None => r is Err,
                    }
                },
                None => r is Err,
            }
        } else if flag == 0xfc {
            if body.len() < 8 {
                r is Err
            } else {
                r matches Ok(o) && o is None && post.expire_ms >= 1 && loader_fields(
                    pre,
                    post,
                    base + 9,
                    pre.repl_stream_db_id,
                    pre.now_db_id,
                    post.expire_ms,
                    pre.idle,
                    pre.freq,
                    pre.is_end,
                )
            }
        } else if flag == 0xfd {
            if body.len() < 4 {
                r is Err
            } else {
                r matches Ok(o) && o is None && post.expire_ms >= 1 && loader_fields(
                    pre,
                    post,
                    base + 5,
                    pre.repl_stream_db_id,
                    pre.now_db_id,
                    post.expire_ms,
                    pre.idle,
                    pre.freq,
                    pre.is_end,
                )
            }
        } else if flag == 0xfe {
            match rdb_len(body) {
                Some((v, c, special)) => if special {
                    r is Err
                } else {
                    r matches Ok(o) && o is None && loader_fields(
                        pre,
                        post,
                        base + 1 + c,
                        pre.repl_stream_db_id,
                        (v as u64) as i64,
                        pre.expire_ms,
                        pre.idle,
                        pre.freq,
                        pre.is_end,
                    )
                },
                None => r is Err,
            }
        } else if flag == 0xff {
            r matches Ok(o) && o is None && loader_fields(
                pre,
                post,
                pre.reader.buf@.len() as int,
                pre.repl_stream_db_id,
                pre.now_db_id,
                pre.expire_ms,
                pre.idle,
                pre.freq,
                true,
            )
        } else {
            match rdb_string(body) {
                None => r is Err,
                Some((key, c1)) => r matches Ok(o) && o matches Some(e) && e.is_base && e.db_id
                    == pre.now_db_id && e.key@ == key && e.value_type_byte == flag && cmd_args(
                    e.cmd,
                ) == Seq::<Seq<u8>>::empty() && loader_fields(
                    pre,
                    post,
                    base + 1 + c1,
                    pre.repl_stream_db_id,
                    pre.now_db_id,
                    pre.expire_ms,
                    pre.idle,
                    pre.freq,
                    pre.is_end,
                ),
            }
        }
    }
}

impl RdbLoader {
    /// Reads one control flag and dispatches: auxiliary fields, expiry and
    /// database selection update the loader's state; the `lua` auxiliary
    /// key becomes a `script load` command entry; a data flag reads the key
    /// and returns the stored object's header, leaving the cursor at the
    /// object for the object-parsing collaborator. A relative expiry is
    /// computed against the wall clock and is at least one millisecond
    /// whatever the clock returned.
    #[verifier::rlimit(80)]
    pub fn load_entry(&mut self) -> (r: Result<Option<RedisEntry>, DtError>)
        requires
            old(self).reader.wf(),
        ensures
            final(self).reader.wf(),
            final(self).reader.buf@ == old(self).reader.buf@,
            rdb_entry_post(*old(self), *final(self), r),
    {
        let ghost rem = old(self).reader.remaining_bytes();
        let ghost base = old(self).reader.pos as int;
        let type_byte = match self.reader.read_u8() {
            Ok(v) => v,
            Err(e) => {
                return Err(e);
            },
        };
        proof {
            assert(rem[0] == old(self).reader.buf@[base]);
            assert(rem.drop_first() =~= old(self).reader.buf@.subrange(
                base + 1,
                old(self).reader.buf@.len() as int,
            ));
            assert(rem.drop_first() =~= self.reader.remaining_bytes());
        }
        let ghost body = rem.drop_first();
        if type_byte == 0xf8 {
            let v = match read_length(&mut self.reader) {
                Ok(v) => v,
                Err(e) => {
                    return Err(e);
                },
            };
            self.idle = #[verifier::truncate] (v as i64);
            Ok(None)
        } else if type_byte == 0xf9 {
            let v = match self.reader.read_u8() {
                Ok(v) => v,
                Err(e) => {
                    return Err(e);
                },
            };
            proof {
                assert(body[0] == old(self).reader.buf@[base + 1]);
            }
            self.freq = v as i64;
            Ok(None)
        } else if type_byte == 0xfa {
            let key = match read_rdb_string(&mut self.reader) {
                Ok(v) => v,
                Err(e) => {
                    return Err(e);
                },
            };
            let ghost c1 = rdb_string(body)->Some_0.1;
            proof {
                assert(self.reader.remaining_bytes() =~= body.subrange(c1, body.len() as int));
            }
            let value = match read_rdb_string(&mut self.reader) {
                Ok(v) => v,
                Err(e) => {
                    return Err(e);
                },
            };
            proof {
                reveal_strlit("repl-stream-db");
                reveal_strlit("lua");
                assert("repl-stream-db".is_ascii());
                assert("lua".is_ascii());
            }
            if bytes_eq_str(&key, "repl-stream-db") {
                match parse_ascii_i64(&value) {
                    Some(n) => {
                        self.repl_stream_db_id = n;
                        Ok(None)
                    },
                    None => Err(
                        DtError::Decode("repl-stream-db is not a decimal number".to_owned()),
                    ),
                }
            } else if bytes_eq_str(&key, "lua") {
                let ghost val = value@;
                let mut cmd = RedisCmd::new();
                cmd.add_str_arg("script");
                cmd.add_str_arg("load");
                cmd.add_redis_arg(value);
                let mut entry = RedisEntry::new();
                entry.db_id = self.now_db_id;
                entry.cmd = cmd;
                proof {
                    reveal_strlit("script");
                    reveal_strlit("load");
                    broadcast use vstd::string::is_ascii_spec_bytes;
                    assert("script".is_ascii());
                    assert("load".is_ascii());
                    assert("script".spec_bytes() =~= "script"@.map_values(|c: char| c as u8));
                    assert("load".spec_bytes() =~= "load"@.map_values(|c: char| c as u8));
                    assert(cmd_args(entry.cmd) =~= seq![
                        "script"@.map_values(|c: char| c as u8),
                        "load"@.map_values(|c: char| c as u8),
                        val,
                    ]);
                }
                Ok(Some(entry))
            } else {
                Ok(None)
            }
        } else if type_byte == 0xfb {
            match read_length(&mut self.reader) {
                Ok(_) => {},
                Err(e) => {
                    return Err(e);
                },
            }
            let ghost c1 = rdb_len(body)->Some_0.1;
            proof {
                assert(self.reader.remaining_bytes() =~= body.subrange(c1, body.len() as int));
            }
            match read_length(&mut self.reader) {
                Ok(_) => {},
                Err(e) => {
                    return Err(e);
                },
            }
            Ok(None)
        } else if type_byte == 0xfc {
            let v = match self.reader.read_uint_le(8) {
                Ok(v) => v,
                Err(e) => {
                    return Err(e);
                },
            };
            let now = now_millis();
            let abs = #[verifier::truncate] (v as i64);
            self.expire_ms = relative_expiry(abs, now);
            Ok(None)
        } else if type_byte == 0xfd {
            let v = match self.reader.read_u32_le() {
                Ok(v) => v,
                Err(e) => {
                    return Err(e);
                },
            };
            let now = now_millis();
            let abs = v as i64 * 1000;
            self.expire_ms = relative_expiry(abs, now);
            Ok(None)
        } else if type_byte == 0xfe {
            let v = match read_length(&mut self.reader) {
                Ok(v) => v,
                Err(e) => {
                    return Err(e);
                },
            };
            self.now_db_id = #[verifier::truncate] (v as i64);
            Ok(None)
        } else if type_byte == 0xff {
            self.is_end = true;
            let rest = self.reader.remaining();
            match self.reader.read_bytes(rest) {
                Ok(_) => {},
                Err(e) => {
                    return Err(e);
                },
            }
            Ok(None)
        } else {
            let key = match read_rdb_string(&mut self.reader) {
                Ok(v) => v,
                Err(e) => {
                    return Err(e);
                },
            };
            let mut entry = RedisEntry::new();
            entry.db_id = self.now_db_id;
            entry.key = key;
            entry.value_type_byte = type_byte;
            proof {
                assert(cmd_args(entry.cmd) =~= Seq::<Seq<u8>>::empty());
            }
            Ok(Some(entry))
        }
    }
}

} // verus!
