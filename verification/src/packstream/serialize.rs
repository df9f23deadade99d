//! Writing PackStream values.
use bytes::BytesMut;
use vstd::prelude::*;
use vstd::utf8::encode_utf8;

use crate::be::{be_bytes, lemma_pow256_values};
use crate::bytes_spec::{
    bytes_mut_content, put_i16, put_i32, put_i64, put_i8, put_u16, put_u32, put_u64, put_u8,
    MAX_BUFFER_LEN,
};
use crate::packstream::marker::Marker;
use crate::packstream::wire::{
    enc_bool, enc_bytes, enc_float, enc_int, enc_list_header, enc_map_header, enc_null, enc_string,
    enc_string_header, enc_struct_header, MAX_STRUCT_FIELDS,
};

verus! {

/// Writes PackStream-encoded data directly to a byte buffer.
/// Streaming API: call methods sequentially to build messages.
/// All writes go directly into the buffer, with no intermediate value types.
pub struct PackStreamWriter {
    buf: BytesMut,
}

/// The bytes written so far.
impl View for PackStreamWriter {
    type V = Seq<u8>;

    closed spec fn view(&self) -> Seq<u8> {
        bytes_mut_content(self.buf)
    }
}

impl PackStreamWriter {
    /// A writer that has written nothing.
    pub fn new() -> (w: Self)
        ensures
            w@ == Seq::<u8>::empty(),
    {
        Self { buf: BytesMut::new() }
    }

    /// Write a null.
    pub fn write_null(&mut self)
        requires
            old(self)@.len() + enc_null().len() <= MAX_BUFFER_LEN,
        ensures
            final(self)@ == old(self)@ + enc_null(),
    {
        put_u8(&mut self.buf, Marker::Null.byte());
    }

    /// Write a boolean.
    pub fn write_bool(&mut self, value: bool)
        requires
            old(self)@.len() + enc_bool(value).len() <= MAX_BUFFER_LEN,
        ensures
            final(self)@ == old(self)@ + enc_bool(value),
    {
        put_u8(
            &mut self.buf,
            if value {
                Marker::True.byte()
            } else {
                Marker::False.byte()
            },
        );
    }

    /// Auto-selects minimal encoding: TINY_INT (-16..=127, 1 byte),
    /// INT8 (-128..=-17), INT16, INT32, INT64.
    pub fn write_int(&mut self, value: i64)
        requires
            old(self)@.len() + enc_int(value).len() <= MAX_BUFFER_LEN,
        ensures
            final(self)@ == old(self)@ + enc_int(value),
    {
        if -16 <= value && value <= 127 {
            put_u8(&mut self.buf, Marker::TinyInt(value as i8).byte());
        } else if i8::MIN as i64 <= value && value <= i8::MAX as i64 {
            put_u8(&mut self.buf, Marker::Int8.byte());
            put_i8(&mut self.buf, value as i8);
        } else if i16::MIN as i64 <= value && value <= i16::MAX as i64 {
            put_u8(&mut self.buf, Marker::Int16.byte());
            put_i16(&mut self.buf, value as i16);
        } else if i32::MIN as i64 <= value && value <= i32::MAX as i64 {
            put_u8(&mut self.buf, Marker::Int32.byte());
            put_i32(&mut self.buf, value as i32);
        } else {
            put_u8(&mut self.buf, Marker::Int64.byte());
            put_i64(&mut self.buf, value);
        }
    }

    /// Write a 64-bit float, given by its IEEE 754 bits.
    pub fn write_float(&mut self, bits: u64)
        requires
            old(self)@.len() + enc_float(bits).len() <= MAX_BUFFER_LEN,
        ensures
            final(self)@ == old(self)@ + enc_float(bits),
    {
        put_u8(&mut self.buf, Marker::Float64.byte());
        put_u64(&mut self.buf, bits);
    }

    /// Write a string, which may have up to 4 GiB in UTF-8.
    pub fn write_string(&mut self, s: &str)
        requires
            encode_utf8(s@).len() <= u32::MAX,
            old(self)@.len() + enc_string(s@).len() <= MAX_BUFFER_LEN,
        ensures
            final(self)@ == old(self)@ + enc_string(s@),
    {
        let bytes = s.as_bytes();
        let len: usize = bytes.len();
        self.write_string_header(len);
        self.buf.extend_from_slice(bytes);
    }

    /// Write a byte array, which may have up to 4 GiB.
    pub fn write_bytes(&mut self, b: &[u8])
        requires
            b@.len() <= u32::MAX,
            old(self)@.len() + enc_bytes(b@).len() <= MAX_BUFFER_LEN,
        ensures
            final(self)@ == old(self)@ + enc_bytes(b@),
    {
        let len: usize = b.len();
        proof {
            lemma_one_byte(len as int);
        }
        if len <= u8::MAX as usize {
            put_u8(&mut self.buf, Marker::Bytes8.byte());
            put_u8(&mut self.buf, len as u8);
        } else if len <= u16::MAX as usize {
            put_u8(&mut self.buf, Marker::Bytes16.byte());
            put_u16(&mut self.buf, len as u16);
        } else {
            put_u8(&mut self.buf, Marker::Bytes32.byte());
            put_u32(&mut self.buf, len as u32);
        }
        self.buf.extend_from_slice(b);
    }

    /// Write the header of a list of `size` elements. The elements follow.
    pub fn write_list_header(&mut self, size: u32)
        requires
            old(self)@.len() + enc_list_header(size).len() <= MAX_BUFFER_LEN,
        ensures
            final(self)@ == old(self)@ + enc_list_header(size),
    {
        proof {
            lemma_one_byte(size as int);
        }
        if size < 16 {
            put_u8(&mut self.buf, Marker::TinyList(size as u8).byte());
        } else if size <= u8::MAX as u32 {
            put_u8(&mut self.buf, Marker::List8.byte());
            put_u8(&mut self.buf, size as u8);
        } else if size <= u16::MAX as u32 {
            put_u8(&mut self.buf, Marker::List16.byte());
            put_u16(&mut self.buf, size as u16);
        } else {
            put_u8(&mut self.buf, Marker::List32.byte());
            put_u32(&mut self.buf, size);
        }
    }

    /// Write the header of a map of `size` entries. Keys and values follow, each
    /// value after its key.
    pub fn write_map_header(&mut self, size: u32)
        requires
            old(self)@.len() + enc_map_header(size).len() <= MAX_BUFFER_LEN,
        ensures
            final(self)@ == old(self)@ + enc_map_header(size),
    {
        proof {
            lemma_one_byte(size as int);
        }
        if size < 16 {
            put_u8(&mut self.buf, Marker::TinyMap(size as u8).byte());
        } else if size <= u8::MAX as u32 {
            put_u8(&mut self.buf, Marker::Map8.byte());
            put_u8(&mut self.buf, size as u8);
        } else if size <= u16::MAX as u32 {
            put_u8(&mut self.buf, Marker::Map16.byte());
            put_u16(&mut self.buf, size as u16);
        } else {
            put_u8(&mut self.buf, Marker::Map32.byte());
            put_u32(&mut self.buf, size);
        }
    }

    /// Write the header of a structure of `num_fields` fields. The fields follow.
    pub fn write_struct_header(&mut self, tag: u8, num_fields: u32)
        requires
            num_fields <= MAX_STRUCT_FIELDS,
            old(self)@.len() + enc_struct_header(tag, num_fields).len() <= MAX_BUFFER_LEN,
        ensures
            final(self)@ == old(self)@ + enc_struct_header(tag, num_fields),
    {
        proof {
            lemma_one_byte(num_fields as int);
        }
        if num_fields < 16 {
            put_u8(&mut self.buf, Marker::TinyStruct(num_fields as u8).byte());
        } else if num_fields <= u8::MAX as u32 {
            put_u8(&mut self.buf, Marker::Struct8.byte());
            put_u8(&mut self.buf, num_fields as u8);
        } else {
            put_u8(&mut self.buf, Marker::Struct16.byte());
            put_u16(&mut self.buf, num_fields as u16);
        }
        put_u8(&mut self.buf, tag);
    }

    /// The buffer with everything written.
    pub fn into_bytes(self) -> (b: BytesMut)
        ensures
            bytes_mut_content(b) == self@,
    {
        self.buf
    }

    /// Everything written so far.
    pub fn as_bytes(&self) -> (b: &[u8])
        ensures
            b@ == self@,
    {
        &*self.buf
    }

    /// Forget everything written.
    pub fn clear(&mut self)
        ensures
            final(self)@ == Seq::<u8>::empty(),
    {
        self.buf.clear();
    }

    fn write_string_header(&mut self, len: usize)
        requires
            len <= u32::MAX,
            old(self)@.len() + enc_string_header(len as int).len() <= MAX_BUFFER_LEN,
        ensures
            final(self)@ == old(self)@ + enc_string_header(len as int),
    {
        proof {
            lemma_one_byte(len as int);
        }
        if len < 16 {
            put_u8(&mut self.buf, Marker::TinyString(len as u8).byte());
        } else if len <= u8::MAX as usize {
            put_u8(&mut self.buf, Marker::String8.byte());
            put_u8(&mut self.buf, len as u8);
        } else if len <= u16::MAX as usize {
            put_u8(&mut self.buf, Marker::String16.byte());
            put_u16(&mut self.buf, len as u16);
        } else {
            put_u8(&mut self.buf, Marker::String32.byte());
            put_u32(&mut self.buf, len as u32);
        }
    }
}

impl Default for PackStreamWriter {
    fn default() -> (w: Self)
        ensures
            w@ == Seq::<u8>::empty(),
    {
        Self::new()
    }
}

/// A number below 256 is its own single byte.
proof fn lemma_one_byte(n: int)
    ensures
        0 <= n < 256 ==> be_bytes(n, 1) == seq![n as u8],
{
    lemma_pow256_values();
}

} // verus!
