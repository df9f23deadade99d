//! The PackStream format: which bytes stand for a value, and what a run of
//! bytes is read as.
use vstd::prelude::*;
use vstd::utf8::{decode_utf8, encode_utf8, valid_utf8};

use crate::be::{be_bytes, be_int, be_uint};
use crate::packstream::deserialize::PackStreamError;
use crate::packstream::marker::Marker;

verus! {

// ---------------------------------------------------------------------------
// Writing
// ---------------------------------------------------------------------------

/// A size that follows its marker, in as few bytes as hold it.
pub open spec fn wide_size(m8: Marker, m16: Marker, m32: Marker, n: int) -> Seq<u8> {
    if n <= 0xFF {
        seq![m8.code()] + be_bytes(n, 1)
    } else if n <= 0xFFFF {
        seq![m16.code()] + be_bytes(n, 2)
    } else {
        seq![m32.code()] + be_bytes(n, 4)
    }
}

/// A size that goes into its marker where it is below 16.
pub open spec fn tiny_or_wide_size(
    tiny: Marker,
    m8: Marker,
    m16: Marker,
    m32: Marker,
    n: int,
) -> Seq<u8> {
    if n < 16 {
        seq![tiny.code()]
    } else {
        wide_size(m8, m16, m32, n)
    }
}

/// A null.
pub open spec fn enc_null() -> Seq<u8> {
    seq![Marker::Null.code()]
}

/// A boolean.
pub open spec fn enc_bool(v: bool) -> Seq<u8> {
    seq![
        if v {
            Marker::True.code()
        } else {
            Marker::False.code()
        },
    ]
}

/// An integer, in the shortest of the five forms that hold it.
pub open spec fn enc_int(v: i64) -> Seq<u8> {
    if -16 <= v <= 127 {
        seq![Marker::TinyInt(v as i8).code()]
    } else if i8::MIN <= v <= i8::MAX {
        seq![Marker::Int8.code()] + be_bytes(v as int, 1)
    } else if i16::MIN <= v <= i16::MAX {
        seq![Marker::Int16.code()] + be_bytes(v as int, 2)
    } else if i32::MIN <= v <= i32::MAX {
        seq![Marker::Int32.code()] + be_bytes(v as int, 4)
    } else {
        seq![Marker::Int64.code()] + be_bytes(v as int, 8)
    }
}

/// A 64-bit float, given by its IEEE 754 bits.
pub open spec fn enc_float(bits: u64) -> Seq<u8> {
    seq![Marker::Float64.code()] + be_bytes(bits as int, 8)
}

/// The header of a string of `n` bytes.
pub open spec fn enc_string_header(n: int) -> Seq<u8> {
    tiny_or_wide_size(
        Marker::TinyString(n as u8),
        Marker::String8,
        Marker::String16,
        Marker::String32,
        n,
    )
}

/// A string: its header, then its characters in UTF-8.
pub open spec fn enc_string(s: Seq<char>) -> Seq<u8> {
    enc_string_header(encode_utf8(s).len() as int) + encode_utf8(s)
}

/// A byte array: its header, then its bytes.
pub open spec fn enc_bytes(b: Seq<u8>) -> Seq<u8> {
    wide_size(Marker::Bytes8, Marker::Bytes16, Marker::Bytes32, b.len() as int) + b
}

/// The header of a list of `n` elements.
pub open spec fn enc_list_header(n: u32) -> Seq<u8> {
    tiny_or_wide_size(
        Marker::TinyList(n as u8),
        Marker::List8,
        Marker::List16,
        Marker::List32,
        n as int,
    )
}

/// The header of a map of `n` entries.
pub open spec fn enc_map_header(n: u32) -> Seq<u8> {
    tiny_or_wide_size(
        Marker::TinyMap(n as u8),
        Marker::Map8,
        Marker::Map16,
        Marker::Map32,
        n as int,
    )
}

/// The largest number of fields that a structure can have.
pub const MAX_STRUCT_FIELDS: u32 = 0xFFFF;

/// The header of a structure of at most [`MAX_STRUCT_FIELDS`] fields.
pub open spec fn enc_struct_header(tag: u8, n: u32) -> Seq<u8> {
    (if n < 16 {
        seq![Marker::TinyStruct(n as u8).code()]
    } else if n <= 0xFF {
        seq![Marker::Struct8.code()] + be_bytes(n as int, 1)
    } else {
        seq![Marker::Struct16.code()] + be_bytes(n as int, 2)
    }).push(tag)
}

// ---------------------------------------------------------------------------
// Reading
// ---------------------------------------------------------------------------

/// What reading from the front of a run of bytes comes to: the value or the
/// error, and how many bytes were consumed in getting there.
#[verifier::ext_equal]
pub struct Reading<T> {
    pub result: Result<T, PackStreamError>,
    pub used: int,
}

/// A value, after `used` bytes.
pub open spec fn got<T>(v: T, used: int) -> Reading<T> {
    Reading { result: Ok(v), used }
}

/// An error, after `used` bytes.
pub open spec fn failed<T>(e: PackStreamError, used: int) -> Reading<T> {
    Reading { result: Err(e), used }
}

/// The `n` bytes of `s` from `at` on, or an early end of input.
pub open spec fn bytes_at(s: Seq<u8>, at: int, n: int) -> Reading<Seq<u8>> {
    if s.len() - at < n {
        failed(PackStreamError::UnexpectedEof, at)
    } else {
        got(s.subrange(at, at + n), at + n)
    }
}

/// The marker in front.
pub open spec fn read_marker(s: Seq<u8>) -> Reading<Marker> {
    if s.len() == 0 {
        failed(PackStreamError::UnexpectedEof, 0)
    } else {
        match Marker::of_code(s[0]) {
            Some(m) => got(m, 1),
            None => failed(PackStreamError::InvalidMarker(s[0]), 1),
        }
    }
}

/// A null.
pub open spec fn read_null(s: Seq<u8>) -> Reading<()> {
    match read_marker(s).result {
        Err(e) => failed(e, read_marker(s).used),
        Ok(Marker::Null) => got((), 1),
        Ok(_) => failed(PackStreamError::InvalidMarker(s[0]), 1),
    }
}

/// A boolean.
pub open spec fn read_bool(s: Seq<u8>) -> Reading<bool> {
    match read_marker(s).result {
        Err(e) => failed(e, read_marker(s).used),
        Ok(Marker::True) => got(true, 1),
        Ok(Marker::False) => got(false, 1),
        Ok(_) => failed(PackStreamError::InvalidMarker(s[0]), 1),
    }
}

/// The two's complement number in `n` bytes after the marker.
pub open spec fn int_payload(s: Seq<u8>, n: int) -> Reading<i64> {
    match bytes_at(s, 1, n).result {
        Err(e) => failed(e, 1),
        Ok(b) => got(be_int(b) as i64, 1 + n),
    }
}

/// An integer in any of its forms.
pub open spec fn read_int(s: Seq<u8>) -> Reading<i64> {
    match read_marker(s).result {
        Err(e) => failed(e, read_marker(s).used),
        Ok(Marker::TinyInt(v)) => got(v as i64, 1),
        Ok(Marker::Int8) => int_payload(s, 1),
        Ok(Marker::Int16) => int_payload(s, 2),
        Ok(Marker::Int32) => int_payload(s, 4),
        Ok(Marker::Int64) => int_payload(s, 8),
        Ok(_) => failed(PackStreamError::InvalidMarker(s[0]), 1),
    }
}

/// A 64-bit float, given by its IEEE 754 bits.
pub open spec fn read_float(s: Seq<u8>) -> Reading<u64> {
    match read_marker(s).result {
        Err(e) => failed(e, read_marker(s).used),
        Ok(Marker::Float64) => match bytes_at(s, 1, 8).result {
            Err(e) => failed(e, 1),
            Ok(b) => got(be_uint(b) as u64, 9),
        },
        Ok(_) => failed(PackStreamError::InvalidMarker(s[0]), 1),
    }
}

/// Where the size of a string, byte array, list, map or structure is found.
pub enum SizeForm {
    /// In the marker.
    Inline(u8),
    /// In this many bytes after the marker.
    Wide(int),
}

/// Where the size of a string is found, under a string marker.
pub open spec fn string_form(m: Marker) -> Option<SizeForm> {
    match m {
        Marker::TinyString(n) => Some(SizeForm::Inline(n)),
        Marker::String8 => Some(SizeForm::Wide(1)),
        Marker::String16 => Some(SizeForm::Wide(2)),
        Marker::String32 => Some(SizeForm::Wide(4)),
        _ => None,
    }
}

/// Where the size of a byte array is found, under a byte array marker.
pub open spec fn bytes_form(m: Marker) -> Option<SizeForm> {
    match m {
        Marker::Bytes8 => Some(SizeForm::Wide(1)),
        Marker::Bytes16 => Some(SizeForm::Wide(2)),
        Marker::Bytes32 => Some(SizeForm::Wide(4)),
        _ => None,
    }
}

/// Where the size of a list is found, under a list marker.
pub open spec fn list_form(m: Marker) -> Option<SizeForm> {
    match m {
        Marker::TinyList(n) => Some(SizeForm::Inline(n)),
        Marker::List8 => Some(SizeForm::Wide(1)),
        Marker::List16 => Some(SizeForm::Wide(2)),
        Marker::List32 => Some(SizeForm::Wide(4)),
        _ => None,
    }
}

/// Where the size of a map is found, under a map marker.
pub open spec fn map_form(m: Marker) -> Option<SizeForm> {
    match m {
        Marker::TinyMap(n) => Some(SizeForm::Inline(n)),
        Marker::Map8 => Some(SizeForm::Wide(1)),
        Marker::Map16 => Some(SizeForm::Wide(2)),
        Marker::Map32 => Some(SizeForm::Wide(4)),
        _ => None,
    }
}

/// Where the number of fields of a structure is found, under a structure marker.
pub open spec fn struct_form(m: Marker) -> Option<SizeForm> {
    match m {
        Marker::TinyStruct(n) => Some(SizeForm::Inline(n)),
        Marker::Struct8 => Some(SizeForm::Wide(1)),
        Marker::Struct16 => Some(SizeForm::Wide(2)),
        _ => None,
    }
}

/// The size after the marker `s[0]`, found as `form` says.
pub open spec fn size_payload(s: Seq<u8>, form: Option<SizeForm>) -> Reading<u32> {
    match form {
        None => failed(PackStreamError::InvalidMarker(s[0]), 1),
        Some(SizeForm::Inline(n)) => got(n as u32, 1),
        Some(SizeForm::Wide(w)) => match bytes_at(s, 1, w).result {
            Err(e) => failed(e, 1),
            Ok(b) => got(be_uint(b) as u32, 1 + w),
        },
    }
}

/// A marker and the size that it announces.
pub open spec fn read_size(s: Seq<u8>, form: spec_fn(Marker) -> Option<SizeForm>) -> Reading<u32> {
    match read_marker(s).result {
        Err(e) => failed(e, read_marker(s).used),
        Ok(m) => size_payload(s, form(m)),
    }
}

/// A size and as many bytes after it.
pub open spec fn sized_payload(s: Seq<u8>, size: Reading<u32>) -> Reading<Seq<u8>> {
    match size.result {
        Err(e) => failed(e, size.used),
        Ok(n) => bytes_at(s, size.used, n as int),
    }
}

/// A byte array.
pub open spec fn read_bytes(s: Seq<u8>) -> Reading<Seq<u8>> {
    sized_payload(s, read_size(s, |m: Marker| bytes_form(m)))
}

/// A string.
pub open spec fn read_string(s: Seq<u8>) -> Reading<Seq<char>> {
    let p = sized_payload(s, read_size(s, |m: Marker| string_form(m)));
    match p.result {
        Err(e) => failed(e, p.used),
        Ok(b) => if valid_utf8(b) {
            got(decode_utf8(b), p.used)
        } else {
            failed(PackStreamError::InvalidUtf8, p.used)
        },
    }
}

/// A list header: the number of elements.
pub open spec fn read_list_header(s: Seq<u8>) -> Reading<u32> {
    read_size(s, |m: Marker| list_form(m))
}

/// A map header: the number of entries.
pub open spec fn read_map_header(s: Seq<u8>) -> Reading<u32> {
    read_size(s, |m: Marker| map_form(m))
}

/// A structure header: the tag byte and the number of fields.
pub open spec fn read_struct_header(s: Seq<u8>) -> Reading<(u8, u32)> {
    let size = read_size(s, |m: Marker| struct_form(m));
    match size.result {
        Err(e) => failed(e, size.used),
        Ok(n) => if s.len() <= size.used {
            failed(PackStreamError::UnexpectedEof, size.used)
        } else {
            got((s[size.used], n), size.used + 1)
        },
    }
}

// ---------------------------------------------------------------------------
// Skipping
// ---------------------------------------------------------------------------

/// The part of a value that is not made of further values: a whole scalar, or
/// the header of a container. The result is the number of values that follow
/// and belong to it.
#[verifier::opaque]
pub open spec fn read_head(s: Seq<u8>) -> Reading<int> {
    match read_marker(s).result {
        Err(e) => failed(e, read_marker(s).used),
        Ok(m) => match m {
            Marker::Null | Marker::True | Marker::False | Marker::TinyInt(_) => got(0, 1),
            Marker::Int8 => childless(bytes_at(s, 1, 1)),
            Marker::Int16 => childless(bytes_at(s, 1, 2)),
            Marker::Int32 => childless(bytes_at(s, 1, 4)),
            Marker::Int64 | Marker::Float64 => childless(bytes_at(s, 1, 8)),
            Marker::TinyString(_)
            | Marker::String8
            | Marker::String16
            | Marker::String32 => childless(sized_payload(s, size_payload(s, string_form(m)))),
            Marker::Bytes8
            | Marker::Bytes16
            | Marker::Bytes32 => childless(sized_payload(s, size_payload(s, bytes_form(m)))),
            Marker::TinyList(_) | Marker::List8 | Marker::List16 | Marker::List32 => {
                let size = size_payload(s, list_form(m));
                match size.result {
                    Err(e) => failed(e, size.used),
                    Ok(n) => got(n as int, size.used),
                }
            },
            Marker::TinyMap(_) | Marker::Map8 | Marker::Map16 | Marker::Map32 => {
                let size = size_payload(s, map_form(m));
                match size.result {
                    Err(e) => failed(e, size.used),
                    Ok(n) => got(2 * n, size.used),
                }
            },
            Marker::TinyStruct(_) | Marker::Struct8 | Marker::Struct16 => {
                let header = read_struct_header(s);
                match header.result {
                    Err(e) => failed(e, header.used),
                    Ok(h) => got(h.1 as int, header.used),
                }
            },
        },
    }
}

/// A head that nothing belongs to.
pub open spec fn childless(p: Reading<Seq<u8>>) -> Reading<int> {
    match p.result {
        Err(e) => failed(e, p.used),
        Ok(_) => got(0, p.used),
    }
}

/// A head takes up at least its marker, and lies within the bytes that it is
/// read from.
pub proof fn lemma_head_bounds(s: Seq<u8>)
    ensures
        0 <= read_head(s).used <= s.len(),
        read_head(s).result is Ok ==> read_head(s).used >= 1 && read_head(s).result->Ok_0 >= 0,
{
    reveal(read_head);
}

/// Go past `n` values, one head after the other. More than `u64::MAX` values
/// outstanding count as an early end of input.
pub open spec fn skip_values(s: Seq<u8>, n: int) -> Reading<()>
    decreases s.len(),
{
    if n <= 0 {
        got((), 0)
    } else {
        let head = read_head(s);
        match head.result {
            Err(e) => failed(e, head.used),
            Ok(children) => if n - 1 + children > u64::MAX {
                failed(PackStreamError::UnexpectedEof, head.used)
            } else {
                proof {
                    lemma_head_bounds(s);
                }
                let tail = skip_values(s.skip(head.used), n - 1 + children);
                Reading { result: tail.result, used: head.used + tail.used }
            },
        }
    }
}

/// Go past one value, with everything in it.
pub open spec fn skip_value(s: Seq<u8>) -> Reading<()> {
    skip_values(s, 1)
}

// ---------------------------------------------------------------------------
// Complete values
// ---------------------------------------------------------------------------

/// Where the value in front of `s` ends, if all of it is there: its head, and
/// behind that as many complete values as belong to it. Any form of a size is as
/// good as any other, and text need not be UTF-8.
pub open spec fn value_end(s: Seq<u8>) -> Option<int>
    decreases s.len(), 0nat,
{
    let head = read_head(s);
    match head.result {
        Err(_) => None,
        Ok(children) => {
            proof {
                lemma_head_bounds(s);
            }
            match values_end(s.skip(head.used), children) {
                None => None,
                Some(end) => Some(head.used + end),
            }
        },
    }
}

/// Where `n` values in front of `s` end, if all of each is there. (A value that is
/// there takes up at least one byte of `s`.)
pub open spec fn values_end(s: Seq<u8>, n: int) -> Option<int>
    decreases s.len(), 1nat,
{
    if n <= 0 {
        Some(0)
    } else {
        match value_end(s) {
            Some(first) if 0 < first <= s.len() => match values_end(s.skip(first), n - 1) {
                None => None,
                Some(end) => Some(first + end),
            },
            _ => None,
        }
    }
}

} // verus!
