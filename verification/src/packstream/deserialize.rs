//! Reading PackStream values, from a buffer that may lie in several segments.
use bytes::Bytes;
use vstd::prelude::*;
use vstd::string::StringExecFns;
use vstd::utf8::{decode_utf8, encode_utf8, valid_utf8};

use crate::be::{be_int, be_uint, lemma_be_uint_bound, lemma_pow256_values, pow256};
use crate::buf::Buf;
use crate::bytes_spec::{bytes_content, str_from_utf8};
use crate::packstream::laws::law_skip_complete;
use crate::packstream::marker::{law_code_of_marker, Marker};
use crate::packstream::wire;
use crate::text::{hex, push_hex};

verus! {

/// Errors that can occur during PackStream deserialization.
#[derive(Debug, Clone, Copy, PartialEq, Eq, Structural)]
pub enum PackStreamError {
    /// Not enough bytes remaining in the buffer.
    UnexpectedEof,
    /// The marker byte does not match the expected type.
    InvalidMarker(u8),
    /// A string value contains invalid UTF-8.
    InvalidUtf8,
}

impl PackStreamError {
    /// The text that describes the error.
    pub open spec fn text(self) -> Seq<char> {
        match self {
            PackStreamError::UnexpectedEof => "unexpected end of input"@,
            PackStreamError::InvalidMarker(b) => "invalid marker: 0x"@ + hex(b),
            PackStreamError::InvalidUtf8 => "invalid UTF-8 in string"@,
        }
    }

    /// Describe the error to a person.
    pub fn message(&self) -> (s: String)
        ensures
            s@ == self.text(),
    {
        let mut s = String::new();
        match self {
            PackStreamError::UnexpectedEof => s.append("unexpected end of input"),
            PackStreamError::InvalidMarker(b) => {
                s.append("invalid marker: 0x");
                push_hex(&mut s, *b);
            },
            PackStreamError::InvalidUtf8 => s.append("invalid UTF-8 in string"),
        }
        s
    }
}

/// A UTF-8-valid string backed by a refcounted [`Bytes`].
///
/// Cheap to clone (a refcount bump). The UTF-8 invariant is enforced when
/// constructed by [`PackStreamReader::read_string`].
#[derive(Debug, PartialEq, Eq)]
pub struct PackStreamString(Bytes);

/// The characters of the string.
impl View for PackStreamString {
    type V = Seq<char>;

    closed spec fn view(&self) -> Seq<char> {
        decode_utf8(bytes_content(self.0))
    }
}

impl PackStreamString {
    #[verifier::type_invariant]
    spec fn is_utf8(self) -> bool {
        valid_utf8(bytes_content(self.0))
    }

    /// View as `&str`. No allocation, no copy.
    pub fn as_str(&self) -> (s: &str)
        ensures
            s@ == self@,
    {
        broadcast use vstd::utf8::encode_utf8_decode_utf8;

        proof {
            use_type_invariant(self);
        }
        str_from_utf8(&self.0).unwrap()
    }

    /// Consume into the underlying refcounted bytes.
    pub fn into_bytes(self) -> (b: Bytes)
        ensures
            bytes_content(b) == encode_utf8(self@),
    {
        broadcast use vstd::utf8::decode_utf8_encode_utf8;

        proof {
            use_type_invariant(&self);
        }
        self.0
    }
}

impl Clone for PackStreamString {
    fn clone(&self) -> (s: Self)
        ensures
            s@ == self@,
    {
        proof {
            use_type_invariant(self);
        }
        PackStreamString(self.0.clone())
    }
}

impl std::ops::Deref for PackStreamString {
    type Target = str;

    fn deref(&self) -> (s: &str)
        ensures
            s@ == self@,
    {
        self.as_str()
    }
}

impl AsRef<str> for PackStreamString {
    fn as_ref(&self) -> (s: &str)
        ensures
            s@ == self@,
    {
        self.as_str()
    }
}

/// Reads PackStream-encoded data from any [`Buf`] source.
///
/// Variable-length values (`read_string`, `read_bytes`) return refcounted
/// [`Bytes`] / [`PackStreamString`]. When the value fits within the
/// current segment of the underlying `Buf` (the typical case), the returned
/// bytes share the source allocation: zero copy. When a value straddles
/// segment boundaries, one allocation copies the value into a fresh buffer.
///
/// What is read, and how far the reader moves, depends on the bytes that have
/// not been read yet ([`rest`](Self::rest)) and on nothing else.
pub struct PackStreamReader<B: Buf> {
    buf: B,
}

impl<B: Buf> PackStreamReader<B> {
    /// The underlying buffer can be read.
    pub closed spec fn wf(&self) -> bool {
        self.buf.inv()
    }

    /// The bytes that have not been read yet.
    pub closed spec fn rest(&self) -> Seq<u8> {
        self.buf.rest()
    }

    /// Create a new reader over any `Buf` source.
    pub fn new(buf: B) -> (r: Self)
        requires
            buf.inv(),
        ensures
            r.wf(),
            r.rest() == buf.rest(),
    {
        Self { buf }
    }

    /// Peek at the next byte without consuming it.
    pub fn peek(&self) -> (b: Option<u8>)
        requires
            self.wf(),
        ensures
            b == (if self.rest().len() == 0 {
                None
            } else {
                Some(self.rest()[0])
            }),
    {
        if self.buf.remaining() == 0 {
            None
        } else {
            Some(self.buf.chunk()[0])
        }
    }

    /// Number of bytes remaining.
    pub fn remaining(&self) -> (n: usize)
        requires
            self.wf(),
        ensures
            n == self.rest().len(),
    {
        self.buf.remaining()
    }

    fn ensure(&self, n: usize) -> (r: Result<(), PackStreamError>)
        requires
            self.wf(),
        ensures
            r == (if self.rest().len() < n {
                Err::<(), PackStreamError>(PackStreamError::UnexpectedEof)
            } else {
                Ok(())
            }),
    {
        if self.buf.remaining() < n {
            Err(PackStreamError::UnexpectedEof)
        } else {
            Ok(())
        }
    }

    fn read_u8(&mut self) -> (r: Result<u8, PackStreamError>)
        requires
            old(self).wf(),
        ensures
            final(self).wf(),
            match r {
                Ok(v) => {
                    &&& old(self).rest().len() >= 1
                    &&& v == old(self).rest()[0]
                    &&& v == be_uint(old(self).rest().take(1))
                    &&& final(self).rest() == old(self).rest().skip(1)
                },
                Err(e) => {
                    &&& old(self).rest().len() < 1
                    &&& e == PackStreamError::UnexpectedEof
                    &&& final(self).rest() == old(self).rest()
                },
            },
    {
        self.ensure(1)?;
        proof {
            reveal_with_fuel(be_uint, 2);
        }
        Ok(self.buf.get_u8())
    }

    fn read_i8(&mut self) -> (r: Result<i8, PackStreamError>)
        requires
            old(self).wf(),
        ensures
            final(self).wf(),
            match r {
                Ok(v) => {
                    &&& old(self).rest().len() >= 1
                    &&& v == be_int(old(self).rest().take(1))
                    &&& final(self).rest() == old(self).rest().skip(1)
                },
                Err(e) => {
                    &&& old(self).rest().len() < 1
                    &&& e == PackStreamError::UnexpectedEof
                    &&& final(self).rest() == old(self).rest()
                },
            },
    {
        self.ensure(1)?;
        Ok(self.buf.get_i8())
    }

    fn read_i16(&mut self) -> (r: Result<i16, PackStreamError>)
        requires
            old(self).wf(),
        ensures
            final(self).wf(),
            match r {
                Ok(v) => {
                    &&& old(self).rest().len() >= 2
                    &&& v == be_int(old(self).rest().take(2))
                    &&& final(self).rest() == old(self).rest().skip(2)
                },
                Err(e) => {
                    &&& old(self).rest().len() < 2
                    &&& e == PackStreamError::UnexpectedEof
                    &&& final(self).rest() == old(self).rest()
                },
            },
    {
        self.ensure(2)?;
        Ok(self.buf.get_i16())
    }

    fn read_i32(&mut self) -> (r: Result<i32, PackStreamError>)
        requires
            old(self).wf(),
        ensures
            final(self).wf(),
            match r {
                Ok(v) => {
                    &&& old(self).rest().len() >= 4
                    &&& v == be_int(old(self).rest().take(4))
                    &&& final(self).rest() == old(self).rest().skip(4)
                },
                Err(e) => {
                    &&& old(self).rest().len() < 4
                    &&& e == PackStreamError::UnexpectedEof
                    &&& final(self).rest() == old(self).rest()
                },
            },
    {
        self.ensure(4)?;
        Ok(self.buf.get_i32())
    }

    fn read_i64(&mut self) -> (r: Result<i64, PackStreamError>)
        requires
            old(self).wf(),
        ensures
            final(self).wf(),
            match r {
                Ok(v) => {
                    &&& old(self).rest().len() >= 8
                    &&& v == be_int(old(self).rest().take(8))
                    &&& final(self).rest() == old(self).rest().skip(8)
                },
                Err(e) => {
                    &&& old(self).rest().len() < 8
                    &&& e == PackStreamError::UnexpectedEof
                    &&& final(self).rest() == old(self).rest()
                },
            },
    {
        self.ensure(8)?;
        Ok(self.buf.get_i64())
    }

    fn read_u16(&mut self) -> (r: Result<u16, PackStreamError>)
        requires
            old(self).wf(),
        ensures
            final(self).wf(),
            match r {
                Ok(v) => {
                    &&& old(self).rest().len() >= 2
                    &&& v == be_uint(old(self).rest().take(2))
                    &&& final(self).rest() == old(self).rest().skip(2)
                },
                Err(e) => {
                    &&& old(self).rest().len() < 2
                    &&& e == PackStreamError::UnexpectedEof
                    &&& final(self).rest() == old(self).rest()
                },
            },
    {
        self.ensure(2)?;
        Ok(self.buf.get_u16())
    }

    fn read_u32(&mut self) -> (r: Result<u32, PackStreamError>)
        requires
            old(self).wf(),
        ensures
            final(self).wf(),
            match r {
                Ok(v) => {
                    &&& old(self).rest().len() >= 4
                    &&& v == be_uint(old(self).rest().take(4))
                    &&& final(self).rest() == old(self).rest().skip(4)
                },
                Err(e) => {
                    &&& old(self).rest().len() < 4
                    &&& e == PackStreamError::UnexpectedEof
                    &&& final(self).rest() == old(self).rest()
                },
            },
    {
        self.ensure(4)?;
        Ok(self.buf.get_u32())
    }

    /// Read `n` bytes as a refcounted `Bytes`. Zero-copy when the data lies
    /// within a single underlying segment; allocates only when straddling.
    fn read_exact_bytes(&mut self, n: usize) -> (r: Result<Bytes, PackStreamError>)
        requires
            old(self).wf(),
        ensures
            final(self).wf(),
            match r {
                Ok(b) => {
                    &&& old(self).rest().len() >= n
                    &&& bytes_content(b) == old(self).rest().take(n as int)
                    &&& final(self).rest() == old(self).rest().skip(n as int)
                },
                Err(e) => {
                    &&& old(self).rest().len() < n
                    &&& e == PackStreamError::UnexpectedEof
                    &&& final(self).rest() == old(self).rest()
                },
            },
    {
        self.ensure(n)?;
        Ok(self.buf.copy_to_bytes(n))
    }

    /// Advance past `n` bytes without retaining them.
    fn skip_bytes(&mut self, n: usize) -> (r: Result<(), PackStreamError>)
        requires
            old(self).wf(),
        ensures
            final(self).wf(),
            match r {
                Ok(_) => {
                    &&& old(self).rest().len() >= n
                    &&& final(self).rest() == old(self).rest().skip(n as int)
                },
                Err(e) => {
                    &&& old(self).rest().len() < n
                    &&& e == PackStreamError::UnexpectedEof
                    &&& final(self).rest() == old(self).rest()
                },
            },
    {
        self.ensure(n)?;
        self.buf.advance(n);
        Ok(())
    }

    fn read_marker(&mut self) -> (r: Result<Marker, PackStreamError>)
        requires
            old(self).wf(),
        ensures
            final(self).wf(),
            r == wire::read_marker(old(self).rest()).result,
            final(self).rest() == old(self).rest().skip(
                wire::read_marker(old(self).rest()).used,
            ),
            r matches Ok(m) ==> m.valid() && m.code() == old(self).rest()[0] && old(self).rest()
                == seq![m.code()] + final(self).rest(),
    {
        let b: u8 = self.read_u8()?;
        proof {
            law_code_of_marker(b);
        }
        match Marker::from_byte(b) {
            Ok(m) => Ok(m),
            Err(_) => Err(PackStreamError::InvalidMarker(b)),
        }
    }

    /// The number of bytes of the string that `marker` starts.
    fn string_len(&mut self, marker: Marker) -> (r: Result<usize, PackStreamError>)
        requires
            old(self).wf(),
            marker.valid(),
        ensures
            final(self).wf(),
            size_was_read(
                marker,
                wire::string_form(marker),
                old(self).rest(),
                match r {
                    Ok(n) => Ok(n as int),
                    Err(e) => Err(e),
                },
                final(self).rest(),
            ),
    {
        proof {
            lemma_after_marker(marker, self.rest());
        }
        match marker {
            Marker::TinyString(size) => Ok(size as usize),
            Marker::String8 => Ok(self.read_u8()? as usize),
            Marker::String16 => Ok(self.read_u16()? as usize),
            Marker::String32 => Ok(self.read_u32()? as usize),
            _ => Err(PackStreamError::InvalidMarker(marker.byte())),
        }
    }

    /// The number of bytes of the byte array that `marker` starts.
    fn bytes_len(&mut self, marker: Marker) -> (r: Result<usize, PackStreamError>)
        requires
            old(self).wf(),
            marker.valid(),
        ensures
            final(self).wf(),
            size_was_read(
                marker,
                wire::bytes_form(marker),
                old(self).rest(),
                match r {
                    Ok(n) => Ok(n as int),
                    Err(e) => Err(e),
                },
                final(self).rest(),
            ),
    {
        proof {
            lemma_after_marker(marker, self.rest());
        }
        match marker {
            Marker::Bytes8 => Ok(self.read_u8()? as usize),
            Marker::Bytes16 => Ok(self.read_u16()? as usize),
            Marker::Bytes32 => Ok(self.read_u32()? as usize),
            _ => Err(PackStreamError::InvalidMarker(marker.byte())),
        }
    }

    /// The number of elements of the list that `marker` starts.
    fn list_len(&mut self, marker: Marker) -> (r: Result<u32, PackStreamError>)
        requires
            old(self).wf(),
            marker.valid(),
        ensures
            final(self).wf(),
            size_was_read(
                marker,
                wire::list_form(marker),
                old(self).rest(),
                match r {
                    Ok(n) => Ok(n as int),
                    Err(e) => Err(e),
                },
                final(self).rest(),
            ),
    {
        proof {
            lemma_after_marker(marker, self.rest());
        }
        match marker {
            Marker::TinyList(size) => Ok(size as u32),
            Marker::List8 => Ok(self.read_u8()? as u32),
            Marker::List16 => Ok(self.read_u16()? as u32),
            Marker::List32 => self.read_u32(),
            _ => Err(PackStreamError::InvalidMarker(marker.byte())),
        }
    }

    /// The number of entries of the map that `marker` starts.
    fn map_len(&mut self, marker: Marker) -> (r: Result<u32, PackStreamError>)
        requires
            old(self).wf(),
            marker.valid(),
        ensures
            final(self).wf(),
            size_was_read(
                marker,
                wire::map_form(marker),
                old(self).rest(),
                match r {
                    Ok(n) => Ok(n as int),
                    Err(e) => Err(e),
                },
                final(self).rest(),
            ),
    {
        proof {
            lemma_after_marker(marker, self.rest());
        }
        match marker {
            Marker::TinyMap(size) => Ok(size as u32),
            Marker::Map8 => Ok(self.read_u8()? as u32),
            Marker::Map16 => Ok(self.read_u16()? as u32),
            Marker::Map32 => self.read_u32(),
            _ => Err(PackStreamError::InvalidMarker(marker.byte())),
        }
    }

    /// The number of fields of the structure that `marker` starts.
    fn struct_len(&mut self, marker: Marker) -> (r: Result<u32, PackStreamError>)
        requires
            old(self).wf(),
            marker.valid(),
        ensures
            final(self).wf(),
            size_was_read(
                marker,
                wire::struct_form(marker),
                old(self).rest(),
                match r {
                    Ok(n) => Ok(n as int),
                    Err(e) => Err(e),
                },
                final(self).rest(),
            ),
    {
        proof {
            lemma_after_marker(marker, self.rest());
        }
        match marker {
            Marker::TinyStruct(size) => Ok(size as u32),
            Marker::Struct8 => Ok(self.read_u8()? as u32),
            Marker::Struct16 => Ok(self.read_u16()? as u32),
            _ => Err(PackStreamError::InvalidMarker(marker.byte())),
        }
    }


    /// Consume a NULL marker.
    pub fn read_null(&mut self) -> (r: Result<(), PackStreamError>)
        requires
            old(self).wf(),
        ensures
            final(self).wf(),
            r == wire::read_null(old(self).rest()).result,
            final(self).rest() == old(self).rest().skip(
                wire::read_null(old(self).rest()).used,
            ),
    {
        let marker = self.read_marker()?;
        if marker == Marker::Null {
            Ok(())
        } else {
            Err(PackStreamError::InvalidMarker(marker.byte()))
        }
    }

    /// Read a boolean value.
    pub fn read_bool(&mut self) -> (r: Result<bool, PackStreamError>)
        requires
            old(self).wf(),
        ensures
            final(self).wf(),
            r == wire::read_bool(old(self).rest()).result,
            final(self).rest() == old(self).rest().skip(
                wire::read_bool(old(self).rest()).used,
            ),
    {
        let marker = self.read_marker()?;
        match marker {
            Marker::True => Ok(true),
            Marker::False => Ok(false),
            _ => Err(PackStreamError::InvalidMarker(marker.byte())),
        }
    }

    /// Read an integer value from any int marker (TINY_INT, INT8, INT16, INT32, INT64).
    pub fn read_int(&mut self) -> (r: Result<i64, PackStreamError>)
        requires
            old(self).wf(),
        ensures
            final(self).wf(),
            r == wire::read_int(old(self).rest()).result,
            final(self).rest() == old(self).rest().skip(
                wire::read_int(old(self).rest()).used,
            ),
    {
        let marker = self.read_marker()?;
        proof {
            lemma_after_marker(marker, self.rest());
        }
        match marker {
            Marker::TinyInt(v) => Ok(v as i64),
            Marker::Int8 => Ok(self.read_i8()? as i64),
            Marker::Int16 => Ok(self.read_i16()? as i64),
            Marker::Int32 => Ok(self.read_i32()? as i64),
            Marker::Int64 => self.read_i64(),
            _ => Err(PackStreamError::InvalidMarker(marker.byte())),
        }
    }

    /// Read a 64-bit float value, given by its IEEE 754 bits.
    pub fn read_float(&mut self) -> (r: Result<u64, PackStreamError>)
        requires
            old(self).wf(),
        ensures
            final(self).wf(),
            r == wire::read_float(old(self).rest()).result,
            final(self).rest() == old(self).rest().skip(
                wire::read_float(old(self).rest()).used,
            ),
    {
        let marker = self.read_marker()?;
        if marker != Marker::Float64 {
            return Err(PackStreamError::InvalidMarker(marker.byte()));
        }
        self.ensure(8)?;
        proof {
            lemma_after_marker(marker, self.rest());
        }
        Ok(self.buf.get_u64())
    }

    /// Read a string value as a refcounted [`PackStreamString`].
    ///
    /// Zero-copy when the value fits within a single segment of the
    /// underlying `Buf`. Allocates once when the value straddles segments.
    /// UTF-8 is validated before return.
    pub fn read_string(&mut self) -> (r: Result<PackStreamString, PackStreamError>)
        requires
            old(self).wf(),
        ensures
            final(self).wf(),
            match wire::read_string(old(self).rest()).result {
                Ok(s) => r is Ok && r->Ok_0@ == s,
                Err(e) => r == Err::<PackStreamString, PackStreamError>(e),
            },
            final(self).rest() == old(self).rest().skip(
                wire::read_string(old(self).rest()).used,
            ),
    {
        let ghost s = self.rest();
        let marker = self.read_marker()?;
        let len: usize = self.string_len(marker)?;
        let ghost size = wire::size_payload(s, wire::string_form(marker));
        proof {
            lemma_payload_place(s, size.used, len as int);
        }
        let bytes = self.read_exact_bytes(len)?;
        match str_from_utf8(&bytes) {
            Some(_) => Ok(PackStreamString(bytes)),
            None => Err(PackStreamError::InvalidUtf8),
        }
    }

    /// Read a byte array as refcounted [`Bytes`].
    ///
    /// Zero-copy when the value fits within a single segment of the
    /// underlying `Buf`. Allocates once when the value straddles segments.
    pub fn read_bytes(&mut self) -> (r: Result<Bytes, PackStreamError>)
        requires
            old(self).wf(),
        ensures
            final(self).wf(),
            match wire::read_bytes(old(self).rest()).result {
                Ok(b) => r is Ok && bytes_content(r->Ok_0) == b,
                Err(e) => r == Err::<Bytes, PackStreamError>(e),
            },
            final(self).rest() == old(self).rest().skip(
                wire::read_bytes(old(self).rest()).used,
            ),
    {
        let ghost s = self.rest();
        let marker = self.read_marker()?;
        let len: usize = self.bytes_len(marker)?;
        let ghost size = wire::size_payload(s, wire::bytes_form(marker));
        proof {
            lemma_payload_place(s, size.used, len as int);
        }
        self.read_exact_bytes(len)
    }

    /// Read a list header and return the number of elements.
    pub fn read_list_header(&mut self) -> (r: Result<u32, PackStreamError>)
        requires
            old(self).wf(),
        ensures
            final(self).wf(),
            r == wire::read_list_header(old(self).rest()).result,
            final(self).rest() == old(self).rest().skip(
                wire::read_list_header(old(self).rest()).used,
            ),
    {
        let marker = self.read_marker()?;
        self.list_len(marker)
    }

    /// Read a map header and return the number of entries.
    pub fn read_map_header(&mut self) -> (r: Result<u32, PackStreamError>)
        requires
            old(self).wf(),
        ensures
            final(self).wf(),
            r == wire::read_map_header(old(self).rest()).result,
            final(self).rest() == old(self).rest().skip(
                wire::read_map_header(old(self).rest()).used,
            ),
    {
        let marker = self.read_marker()?;
        self.map_len(marker)
    }

    /// Read a struct header and return `(tag_byte, num_fields)`.
    pub fn read_struct_header(&mut self) -> (r: Result<(u8, u32), PackStreamError>)
        requires
            old(self).wf(),
        ensures
            final(self).wf(),
            r == wire::read_struct_header(old(self).rest()).result,
            final(self).rest() == old(self).rest().skip(
                wire::read_struct_header(old(self).rest()).used,
            ),
    {
        let ghost s = self.rest();
        let marker = self.read_marker()?;
        let num_fields: u32 = self.struct_len(marker)?;
        proof {
            lemma_payload_place(s, wire::size_payload(s, wire::struct_form(marker)).used, 1);
        }
        let tag: u8 = self.read_u8()?;
        Ok((tag, num_fields))
    }

    /// Skip a scalar, or the header of a container, and return the number of
    /// values that follow and belong to it.
    fn skip_head(&mut self) -> (r: Result<u64, PackStreamError>)
        requires
            old(self).wf(),
        ensures
            final(self).wf(),
            match wire::read_head(old(self).rest()).result {
                Ok(n) => r is Ok && r->Ok_0 == n,
                Err(e) => r == Err::<u64, PackStreamError>(e),
            },
            final(self).rest() == old(self).rest().skip(wire::read_head(old(self).rest()).used),
    {
        let ghost s = self.rest();
        proof {
            reveal(wire::read_head);
        }
        let marker = self.read_marker()?;
        proof {
            lemma_after_marker(marker, self.rest());
        }
        match marker {
            // Zero-byte scalars: the marker is the entire value.
            Marker::Null | Marker::True | Marker::False | Marker::TinyInt(_) => Ok(0),
            // Fixed-width scalars: skip the payload bytes.
            Marker::Int8 => {
                self.skip_bytes(1)?;
                Ok(0)
            },
            Marker::Int16 => {
                self.skip_bytes(2)?;
                Ok(0)
            },
            Marker::Int32 => {
                self.skip_bytes(4)?;
                Ok(0)
            },
            Marker::Int64 | Marker::Float64 => {
                self.skip_bytes(8)?;
                Ok(0)
            },
            // Variable-length byte sequences: read the length, skip that many bytes.
            Marker::TinyString(_) | Marker::String8 | Marker::String16 | Marker::String32 => {
                let len: usize = self.string_len(marker)?;
                proof {
                    let size = wire::size_payload(s, wire::string_form(marker));
                    lemma_payload_place(s, size.used, len as int);
                }
                self.skip_bytes(len)?;
                Ok(0)
            },
            Marker::Bytes8 | Marker::Bytes16 | Marker::Bytes32 => {
                let len: usize = self.bytes_len(marker)?;
                proof {
                    let size = wire::size_payload(s, wire::bytes_form(marker));
                    lemma_payload_place(s, size.used, len as int);
                }
                self.skip_bytes(len)?;
                Ok(0)
            },
            // Containers: the children are still to be skipped.
            Marker::TinyList(_) | Marker::List8 | Marker::List16 | Marker::List32 => {
                let len: u32 = self.list_len(marker)?;
                Ok(len as u64)
            },
            Marker::TinyMap(_) | Marker::Map8 | Marker::Map16 | Marker::Map32 => {
                // Each map entry is a key and a value.
                let entries: u32 = self.map_len(marker)?;
                Ok(2 * (entries as u64))
            },
            Marker::TinyStruct(_) | Marker::Struct8 | Marker::Struct16 => {
                let num_fields: u32 = self.struct_len(marker)?;
                proof {
                    let size = wire::size_payload(s, wire::struct_form(marker));
                    lemma_payload_place(s, size.used, 1);
                }
                self.skip_bytes(1)?; // tag byte
                Ok(num_fields as u64)
            },
        }
    }

    /// Skip any value without deserializing it. Uses a flat `u64` counter
    /// instead of recursion: safe against deeply nested untrusted input
    /// without risking stack overflow or heap allocation.
    pub fn skip_value(&mut self) -> (r: Result<(), PackStreamError>)
        requires
            old(self).wf(),
        ensures
            final(self).wf(),
            r == wire::skip_value(old(self).rest()).result,
            final(self).rest() == old(self).rest().skip(
                wire::skip_value(old(self).rest()).used,
            ),
            old(self).rest().len() <= u64::MAX ==> match wire::value_end(old(self).rest()) {
                Some(end) => r is Ok && final(self).rest() == old(self).rest().skip(end),
                None => r is Err,
            },
    {
        proof {
            if self.rest().len() <= u64::MAX {
                law_skip_complete(self.rest());
            }
        }
        let mut outstanding: u64 = 1;
        let ghost s = self.rest();
        let ghost mut used: int = 0;
        proof {
            assert(s.skip(0) =~= s);
        }
        while outstanding > 0
            invariant
                self.wf(),
                s == old(self).rest(),
                s.len() <= u64::MAX ==> match wire::value_end(s) {
                    Some(end) => wire::skip_value(s) == wire::got((), end),
                    None => wire::skip_value(s).result is Err,
                },
                0 <= used <= s.len(),
                self.rest() == s.skip(used),
                wire::skip_value(s).result == wire::skip_values(
                    self.rest(),
                    outstanding as int,
                ).result,
                wire::skip_value(s).used == used + wire::skip_values(
                    self.rest(),
                    outstanding as int,
                ).used,
            decreases self.rest().len(),
        {
            let ghost before = self.rest();
            outstanding -= 1;
            proof {
                wire::lemma_head_bounds(before);
                lemma_payload_place(s, used, wire::read_head(before).used);
            }
            let children: u64 = self.skip_head()?;
            proof {
                used = used + wire::read_head(before).used;
            }
            outstanding = match outstanding.checked_add(children) {
                Some(n) => n,
                None => return Err(PackStreamError::UnexpectedEof),
            };
        }
        Ok(())
    }
}

/// What reading a size after `marker` comes to, where `before` and `after` are
/// the unread bytes around it: what the wire format says of `marker` followed by
/// `before`.
spec fn size_was_read(
    marker: Marker,
    form: Option<wire::SizeForm>,
    before: Seq<u8>,
    result: Result<int, PackStreamError>,
    after: Seq<u8>,
) -> bool {
    let s = seq![marker.code()] + before;
    let size = wire::size_payload(s, form);
    &&& match size.result {
        Ok(n) => result == Ok::<int, PackStreamError>(n as int),
        Err(e) => result == Err::<int, PackStreamError>(e),
    }
    &&& after == s.skip(size.used)
}

/// The `n` bytes that follow the first `at`, by their place behind those and by
/// their place in the whole.
proof fn lemma_payload_place(s: Seq<u8>, at: int, n: int)
    requires
        0 <= at <= s.len(),
        0 <= n,
    ensures
        s.skip(at).len() == s.len() - at,
        at + n <= s.len() ==> {
            &&& s.skip(at).take(n) == s.subrange(at, at + n)
            &&& s.skip(at).skip(n) == s.skip(at + n)
        },
{
    if at + n <= s.len() {
        assert(s.skip(at).take(n) =~= s.subrange(at, at + n));
        assert(s.skip(at).skip(n) =~= s.skip(at + n));
    }
}

/// What follows a marker, by its place behind the marker and by its place in
/// the whole.
proof fn lemma_after_marker(marker: Marker, rest: Seq<u8>)
    ensures
        forall|n: int|
            0 <= n <= rest.len() ==> #[trigger] (seq![marker.code()] + rest).skip(1 + n)
                == rest.skip(n),
        (seq![marker.code()] + rest).skip(1) == rest,
        forall|n: int|
            0 <= n <= rest.len() ==> (seq![marker.code()] + rest).subrange(1, 1 + n)
                == #[trigger] rest.take(n),
        forall|n: int|
            0 <= n <= 4 && n <= rest.len() ==> 0 <= be_uint(#[trigger] rest.take(n)) <= u32::MAX,
{
    let s = seq![marker.code()] + rest;
    assert forall|n: int| 0 <= n <= rest.len() implies #[trigger] s.skip(1 + n) == rest.skip(n) by {
        assert(s.skip(1 + n) =~= rest.skip(n));
    }
    assert(s.skip(1) =~= rest);
    assert forall|n: int| 0 <= n <= rest.len() implies s.subrange(1, 1 + n)
        == #[trigger] rest.take(n) by {
        assert(s.subrange(1, 1 + n) =~= rest.take(n));
    }
    assert forall|n: int| 0 <= n <= 4 && n <= rest.len() implies 0 <= be_uint(
        #[trigger] rest.take(n),
    ) <= u32::MAX by {
        lemma_be_uint_bound(rest.take(n));
        lemma_pow256_values();
        assert(pow256(3) == 256 * pow256(2));
    }
}

/// What the errors say.
pub proof fn law_read_error_text(b: u8)
    ensures
        PackStreamError::UnexpectedEof.text() == "unexpected end of input"@,
        PackStreamError::InvalidMarker(b).text() == "invalid marker: 0x"@ + hex(b),
        PackStreamError::InvalidUtf8.text() == "invalid UTF-8 in string"@,
{
}

} // verus!
