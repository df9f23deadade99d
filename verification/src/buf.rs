//! Reading bytes in order, from one buffer or from several that follow each
//! other.
use bytes::Bytes;
use vstd::prelude::*;

use crate::be::{be_int, be_uint, lemma_be_int_bound, lemma_be_uint_concat, lemma_pow256_values};
use crate::bytes_spec::{
    bytes_advance, bytes_content, bytes_get_i16, bytes_get_i32, bytes_get_i64, bytes_get_i8,
    bytes_get_u16, bytes_get_u32, bytes_get_u64, bytes_get_u8,
};

verus! {

/// A cursor over bytes, which need not lie in one piece of memory.
///
/// Multi-byte numbers are big-endian. The getters that come with the trait read
/// byte by byte, so a number may straddle two pieces.
pub trait Buf: Sized {
    /// What holds of a cursor that can be read.
    spec fn inv(&self) -> bool;

    /// The bytes that have not been read yet.
    spec fn rest(&self) -> Seq<u8>;

    /// Number of bytes that have not been read yet.
    fn remaining(&self) -> (n: usize)
        requires
            self.inv(),
        ensures
            n == self.rest().len(),
    ;

    /// The unread bytes of the current piece. Empty only at the end.
    fn chunk(&self) -> (c: &[u8])
        requires
            self.inv(),
        ensures
            c@.len() <= self.rest().len(),
            c@ == self.rest().take(c@.len() as int),
            c@.len() == 0 ==> self.rest().len() == 0,
    ;

    /// Skip `cnt` bytes.
    fn advance(&mut self, cnt: usize)
        requires
            old(self).inv(),
            cnt <= old(self).rest().len(),
        ensures
            final(self).inv(),
            final(self).rest() == old(self).rest().skip(cnt as int),
    ;

    /// Take `len` bytes off as a value of their own.
    fn copy_to_bytes(&mut self, len: usize) -> (b: Bytes)
        requires
            old(self).inv(),
            len <= old(self).rest().len(),
        ensures
            final(self).inv(),
            bytes_content(b) == old(self).rest().take(len as int),
            final(self).rest() == old(self).rest().skip(len as int),
    ;

    /// Whether there are bytes that have not been read yet.
    fn has_remaining(&self) -> (r: bool)
        requires
            self.inv(),
        ensures
            r == (self.rest().len() > 0),
    {
        self.remaining() > 0
    }

    /// Take one byte off.
    fn get_u8(&mut self) -> (v: u8)
        requires
            old(self).inv(),
            old(self).rest().len() >= 1,
        ensures
            final(self).inv(),
            v == old(self).rest()[0],
            final(self).rest() == old(self).rest().skip(1),
    {
        let v: u8 = self.chunk()[0];
        self.advance(1);
        v
    }

    /// Take one byte off, read in two's complement.
    fn get_i8(&mut self) -> (v: i8)
        requires
            old(self).inv(),
            old(self).rest().len() >= 1,
        ensures
            final(self).inv(),
            v == be_int(old(self).rest().take(1)),
            final(self).rest() == old(self).rest().skip(1),
    {
        let u: u8 = self.get_u8();
        assert((u as i8) as int == if u < 0x80 { u as int } else { u - 0x100 }) by (bit_vector);
        proof {
            lemma_pow256_values();
            reveal_with_fuel(be_uint, 2);
        }
        u as i8
    }

    /// Take two bytes off, read big-endian.
    fn get_u16(&mut self) -> (v: u16)
        requires
            old(self).inv(),
            old(self).rest().len() >= 2,
        ensures
            final(self).inv(),
            v == be_uint(old(self).rest().take(2)),
            final(self).rest() == old(self).rest().skip(2),
    {
        let ghost s = self.rest();
        let hi: u8 = self.get_u8();
        let lo: u8 = self.get_u8();
        proof {
            reveal_with_fuel(be_uint, 3);
            assert(s.skip(1).skip(1) =~= s.skip(2));
        }
        256 * (hi as u16) + lo as u16
    }

    /// Take two bytes off, read big-endian in two's complement.
    fn get_i16(&mut self) -> (v: i16)
        requires
            old(self).inv(),
            old(self).rest().len() >= 2,
        ensures
            final(self).inv(),
            v == be_int(old(self).rest().take(2)),
            final(self).rest() == old(self).rest().skip(2),
    {
        let u: u16 = self.get_u16();
        assert((u as i16) as int == if u < 0x8000 { u as int } else { u - 0x1_0000 })
            by (bit_vector);
        proof {
            lemma_pow256_values();
            lemma_be_int_bound(old(self).rest().take(2));
        }
        u as i16
    }

    /// Take four bytes off, read big-endian.
    fn get_u32(&mut self) -> (v: u32)
        requires
            old(self).inv(),
            old(self).rest().len() >= 4,
        ensures
            final(self).inv(),
            v == be_uint(old(self).rest().take(4)),
            final(self).rest() == old(self).rest().skip(4),
    {
        let ghost s = self.rest();
        let hi: u16 = self.get_u16();
        let lo: u16 = self.get_u16();
        proof {
            lemma_pow256_values();
            assert(s.skip(2).skip(2) =~= s.skip(4));
            assert(s.take(4) =~= s.take(2) + s.skip(2).take(2));
            lemma_be_uint_concat(s.take(2), s.skip(2).take(2));
        }
        0x1_0000 * (hi as u32) + lo as u32
    }

    /// Take four bytes off, read big-endian in two's complement.
    fn get_i32(&mut self) -> (v: i32)
        requires
            old(self).inv(),
            old(self).rest().len() >= 4,
        ensures
            final(self).inv(),
            v == be_int(old(self).rest().take(4)),
            final(self).rest() == old(self).rest().skip(4),
    {
        let u: u32 = self.get_u32();
        assert((u as i32) as int == if u < 0x8000_0000 { u as int } else { u - 0x1_0000_0000 })
            by (bit_vector);
        proof {
            lemma_pow256_values();
            lemma_be_int_bound(old(self).rest().take(4));
        }
        u as i32
    }

    /// Take eight bytes off, read big-endian.
    fn get_u64(&mut self) -> (v: u64)
        requires
            old(self).inv(),
            old(self).rest().len() >= 8,
        ensures
            final(self).inv(),
            v == be_uint(old(self).rest().take(8)),
            final(self).rest() == old(self).rest().skip(8),
    {
        let ghost s = self.rest();
        let hi: u32 = self.get_u32();
        let lo: u32 = self.get_u32();
        proof {
            lemma_pow256_values();
            assert(s.skip(4).skip(4) =~= s.skip(8));
            assert(s.take(8) =~= s.take(4) + s.skip(4).take(4));
            lemma_be_uint_concat(s.take(4), s.skip(4).take(4));
        }
        0x1_0000_0000 * (hi as u64) + lo as u64
    }

    /// Take eight bytes off, read big-endian in two's complement.
    fn get_i64(&mut self) -> (v: i64)
        requires
            old(self).inv(),
            old(self).rest().len() >= 8,
        ensures
            final(self).inv(),
            v == be_int(old(self).rest().take(8)),
            final(self).rest() == old(self).rest().skip(8),
    {
        let u: u64 = self.get_u64();
        assert((u as i64) as int == if u < 0x8000_0000_0000_0000 { u as int } else { u - 0x1_0000_0000_0000_0000 })
            by (bit_vector);
        proof {
            lemma_pow256_values();
            lemma_be_int_bound(old(self).rest().take(8));
        }
        u as i64
    }
}

/// All bytes in one piece.
impl Buf for Bytes {
    open spec fn inv(&self) -> bool {
        true
    }

    open spec fn rest(&self) -> Seq<u8> {
        bytes_content(*self)
    }

    fn remaining(&self) -> (n: usize) {
        self.len()
    }

    fn chunk(&self) -> (c: &[u8]) {
        &**self
    }

    fn advance(&mut self, cnt: usize) {
        bytes_advance(self, cnt)
    }

    fn copy_to_bytes(&mut self, len: usize) -> (b: Bytes) {
        self.split_to(len)
    }

    fn get_u8(&mut self) -> (v: u8) {
        bytes_get_u8(self)
    }

    fn get_i8(&mut self) -> (v: i8) {
        bytes_get_i8(self)
    }

    fn get_u16(&mut self) -> (v: u16) {
        bytes_get_u16(self)
    }

    fn get_i16(&mut self) -> (v: i16) {
        bytes_get_i16(self)
    }

    fn get_u32(&mut self) -> (v: u32) {
        bytes_get_u32(self)
    }

    fn get_i32(&mut self) -> (v: i32) {
        bytes_get_i32(self)
    }

    fn get_u64(&mut self) -> (v: u64) {
        bytes_get_u64(self)
    }

    fn get_i64(&mut self) -> (v: i64) {
        bytes_get_i64(self)
    }
}

/// A `Bytes` can always be read, and all of its bytes are there to be read.
pub proof fn law_bytes_rest(b: Bytes)
    ensures
        b.inv(),
        b.rest() == bytes_content(b),
{
}

} // verus!
