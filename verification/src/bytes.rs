//! A verified byte cursor with the little-endian reads the binlog column
//! decoder needs.

use vstd::prelude::*;
use crate::value::DtError;

verus! {

/// The value of a byte sequence read as a little-endian unsigned integer.
pub open spec fn le_val(b: Seq<u8>) -> nat
    decreases b.len(),
{
    if b.len() == 0 {
        0
    } else {
        b[0] as nat + 256 * le_val(b.drop_first())
    }
}

/// 256 to the power of `n`.
pub open spec fn pow256(n: nat) -> nat
    decreases n,
{
    if n == 0 {
        1
    } else {
        256 * pow256((n - 1) as nat)
    }
}

pub proof fn lemma_le_val_push(b: Seq<u8>, x: u8)
    ensures
        le_val(b.push(x)) == le_val(b) + x as nat * pow256(b.len()),
    decreases b.len(),
{
    if b.len() == 0 {
        assert(b.push(x).drop_first() =~= Seq::<u8>::empty());
        assert(pow256(0) == 1);
        assert(le_val(b) == 0);
        assert(x as nat * 1 == x as nat) by (nonlinear_arith);
        assert(b.push(x).len() == 1);
        assert(b.push(x)[0] == x);
        assert(le_val(b.push(x)) == x as nat + 256 * le_val(b.push(x).drop_first()));
        assert(le_val(b.push(x)) == le_val(b) + x as nat * pow256(b.len()));
    } else {
        assert(b.push(x).drop_first() =~= b.drop_first().push(x));
        lemma_le_val_push(b.drop_first(), x);
        let p = pow256((b.len() - 1) as nat);
        let d = le_val(b.drop_first());
        assert(pow256(b.len()) == 256 * p);
        assert(le_val(b.push(x)) == b[0] as nat + 256 * le_val(b.drop_first().push(x)));
        assert(le_val(b) == b[0] as nat + 256 * d);
        assert(256 * (d + x as nat * p) == 256 * d + x as nat * (256 * p)) by (nonlinear_arith);
        assert(le_val(b.drop_first().push(x)) == d + x as nat * p);
        assert(le_val(b.push(x)) == le_val(b) + x as nat * pow256(b.len()));
    }
}

pub proof fn lemma_le_val_bound(b: Seq<u8>)
    ensures
        le_val(b) < pow256(b.len()),
    decreases b.len(),
{
    if b.len() > 0 {
        lemma_le_val_bound(b.drop_first());
    }
}

/// A cursor over an owned byte buffer. Every read either returns the bytes
/// at the cursor and advances it, or fails without moving when the buffer
/// is exhausted.
pub struct ByteReader {
    pub buf: Vec<u8>,
    pub pos: usize,
}

impl ByteReader {
    /// The cursor never points past the end of the buffer.
    pub open spec fn wf(&self) -> bool {
        self.pos <= self.buf@.len()
    }

    /// The bytes not yet consumed.
    pub open spec fn remaining_bytes(&self) -> Seq<u8> {
        self.buf@.subrange(self.pos as int, self.buf@.len() as int)
    }

    pub fn new(buf: Vec<u8>) -> (r: ByteReader)
        ensures
            r.wf(),
            r.buf@ == buf@,
            r.pos == 0,
    {
        ByteReader { buf, pos: 0 }
    }

    pub fn remaining(&self) -> (r: usize)
        requires
            self.wf(),
        ensures
            r == self.buf@.len() - self.pos,
    {
        self.buf.len() - self.pos
    }

    pub fn read_u8(&mut self) -> (r: Result<u8, DtError>)
        requires
            old(self).wf(),
        ensures
            final(self).wf(),
            final(self).buf@ == old(self).buf@,
            match r {
                Ok(v) => old(self).pos < old(self).buf@.len() && v == old(self).buf@[old(
                    self,
                ).pos as int] && final(self).pos == old(self).pos + 1,
                Err(_) => old(self).pos == old(self).buf@.len() && final(self).pos == old(
                    self,
                ).pos,
            },
    {
        if self.pos < self.buf.len() {
            let v = self.buf[self.pos];
            self.pos = self.pos + 1;
            Ok(v)
        } else {
            Err(DtError::Decode("unexpected end of buffer".to_owned()))
        }
    }

    /// Reads `n` bytes.
    pub fn read_bytes(&mut self, n: usize) -> (r: Result<Vec<u8>, DtError>)
        requires
            old(self).wf(),
        ensures
            final(self).wf(),
            final(self).buf@ == old(self).buf@,
            match r {
                Ok(v) => old(self).pos + n <= old(self).buf@.len() && v@ == old(
                    self,
                ).buf@.subrange(old(self).pos as int, old(self).pos + n) && final(self).pos == old(
                    self,
                ).pos + n,
                Err(_) => old(self).pos + n > old(self).buf@.len() && final(self).pos == old(
                    self,
                ).pos,
            },
    {
        if n > self.buf.len() - self.pos {
            return Err(DtError::Decode("unexpected end of buffer".to_owned()));
        }
        let mut v: Vec<u8> = Vec::new();
        let mut i: usize = 0;
        while i < n
            invariant
                self.wf(),
                self.buf@ == old(self).buf@,
                self.pos == old(self).pos,
                i <= n,
                old(self).pos + n <= self.buf@.len(),
                self.buf@.len() <= usize::MAX,
                v@ =~= self.buf@.subrange(self.pos as int, self.pos + i),
            decreases n - i,
        {
            v.push(self.buf[self.pos + i]);
            proof {
                assert(v@ =~= self.buf@.subrange(self.pos as int, self.pos + i + 1));
            }
            i = i + 1;
        }
        self.pos = self.pos + n;
        Ok(v)
    }

    /// Reads an `n`-byte little-endian unsigned integer, `n` at most 8.
    pub fn read_uint_le(&mut self, n: usize) -> (r: Result<u64, DtError>)
        requires
            old(self).wf(),
            n <= 8,
        ensures
            final(self).wf(),
            final(self).buf@ == old(self).buf@,
            match r {
                Ok(v) => old(self).pos + n <= old(self).buf@.len() && v as nat == le_val(
                    old(self).buf@.subrange(old(self).pos as int, old(self).pos + n),
                ) && final(self).pos == old(self).pos + n,
                Err(_) => old(self).pos + n > old(self).buf@.len() && final(self).pos == old(
                    self,
                ).pos,
            },
    {
        if n > self.buf.len() - self.pos {
            return Err(DtError::Decode("unexpected end of buffer".to_owned()));
        }
        let mut acc: u64 = 0;
        let mut pow: u64 = 1;
        let mut i: usize = 0;
        while i < n
            invariant
                self.wf(),
                self.buf@ == old(self).buf@,
                self.pos == old(self).pos,
                i <= n <= 8,
                old(self).pos + n <= self.buf@.len(),
                self.buf@.len() <= usize::MAX,
                acc as nat == le_val(self.buf@.subrange(self.pos as int, self.pos + i)),
                i < n ==> pow as nat == pow256(i as nat),
            decreases n - i,
        {
            let b = self.buf[self.pos + i];
            proof {
                let pre = self.buf@.subrange(self.pos as int, self.pos + i);
                let cur = self.buf@.subrange(self.pos as int, self.pos + i + 1);
                assert(cur =~= pre.push(b));
                lemma_le_val_push(pre, b);
                lemma_le_val_bound(cur);
                lemma_pow256_le((i + 1) as nat, 8);
            }
            acc = acc + (b as u64) * pow;
            i = i + 1;
            if i < n {
                proof {
                    lemma_pow256_le(i as nat, 7);
                }
                pow = pow * 256;
            }
        }
        proof {
            assert(self.buf@.subrange(self.pos as int, self.pos + n) =~= self.buf@.subrange(
                self.pos as int,
                self.pos + i,
            ));
        }
        self.pos = self.pos + n;
        Ok(acc)
    }

    /// Reads a 2-byte little-endian unsigned integer.
    pub fn read_u16_le(&mut self) -> (r: Result<u16, DtError>)
        requires
            old(self).wf(),
        ensures
            final(self).wf(),
            final(self).buf@ == old(self).buf@,
            match r {
                Ok(v) => old(self).pos + 2 <= old(self).buf@.len() && v as nat == le_val(
                    old(self).buf@.subrange(old(self).pos as int, old(self).pos + 2),
                ) && final(self).pos == old(self).pos + 2,
                Err(_) => old(self).pos + 2 > old(self).buf@.len() && final(self).pos == old(
                    self,
                ).pos,
            },
    {
        match self.read_uint_le(2) {
            Ok(v) => {
                proof {
                    lemma_le_val_bound(
                        old(self).buf@.subrange(old(self).pos as int, old(self).pos + 2),
                    );
                    assert(pow256(2) == 0x10000) by {
                        reveal_with_fuel(pow256, 3);
                    }
                }
                Ok(v as u16)
            },
            Err(e) => Err(e),
        }
    }

    /// Reads a 4-byte little-endian unsigned integer.
    pub fn read_u32_le(&mut self) -> (r: Result<u32, DtError>)
        requires
            old(self).wf(),
        ensures
            final(self).wf(),
            final(self).buf@ == old(self).buf@,
            match r {
                Ok(v) => old(self).pos + 4 <= old(self).buf@.len() && v as nat == le_val(
                    old(self).buf@.subrange(old(self).pos as int, old(self).pos + 4),
                ) && final(self).pos == old(self).pos + 4,
                Err(_) => old(self).pos + 4 > old(self).buf@.len() && final(self).pos == old(
                    self,
                ).pos,
            },
    {
        match self.read_uint_le(4) {
            Ok(v) => {
                proof {
                    lemma_le_val_bound(
                        old(self).buf@.subrange(old(self).pos as int, old(self).pos + 4),
                    );
                    assert(pow256(4) == 0x1_0000_0000) by {
                        reveal_with_fuel(pow256, 5);
                    }
                }
                Ok(v as u32)
            },
            Err(e) => Err(e),
        }
    }
}

proof fn lemma_pow256_le(n: nat, m: nat)
    requires
        n <= m,
        m <= 8,
    ensures
        pow256(n) <= pow256(m),
        pow256(8) == 0x1_0000_0000_0000_0000,
    decreases m,
{
    assert(pow256(8) == 0x1_0000_0000_0000_0000) by {
        reveal_with_fuel(pow256, 9);
    }
    if n < m {
        lemma_pow256_le(n, (m - 1) as nat);
    }
}

} // verus!
