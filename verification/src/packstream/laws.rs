//! What holds of the format as a whole: what is written reads back, nothing
//! shorter does, and no reading goes beyond its input.
use vstd::prelude::*;
use vstd::utf8::{
    decode_utf8_encode_utf8, encode_utf8, encode_utf8_decode_utf8, encode_utf8_valid_utf8,
};

use crate::be::{
    be_bytes, be_uint, lemma_be_int_bound, lemma_be_int_of_be_bytes, lemma_be_uint_bound,
    lemma_be_uint_of_be_bytes, lemma_pow256_values, pow256,
};
use crate::packstream::deserialize::PackStreamError;
use crate::packstream::marker::{law_code_of_marker, law_marker_of_code, Marker};
use crate::packstream::wire;
use crate::packstream::wire::{got, Reading};

verus! {

// ---------------------------------------------------------------------------
// What is written reads back
// ---------------------------------------------------------------------------

/// A marker with `payload` behind it, and more behind that.
proof fn lemma_marked(m: Marker, payload: Seq<u8>, rest: Seq<u8>)
    requires
        m.valid(),
    ensures
        ({
            let s = seq![m.code()] + payload + rest;
            &&& wire::read_marker(s) == got(m, 1)
            &&& s.subrange(1, 1 + payload.len() as int) == payload
            &&& s.skip(1 + payload.len() as int) == rest
        }),
{
    law_marker_of_code(m);
    let s = seq![m.code()] + payload + rest;
    assert(s[0] == m.code());
    assert(s.subrange(1, 1 + payload.len() as int) =~= payload);
    assert(s.skip(1 + payload.len() as int) =~= rest);
}

/// A marker on its own, and more behind it.
proof fn lemma_marked_alone(m: Marker, rest: Seq<u8>)
    requires
        m.valid(),
    ensures
        wire::read_marker(seq![m.code()] + rest) == got(m, 1),
{
    law_marker_of_code(m);
    assert((seq![m.code()] + rest)[0] == m.code());
}

/// A null reads back.
pub proof fn law_null(rest: Seq<u8>)
    ensures
        wire::read_null(wire::enc_null() + rest) == got((), wire::enc_null().len() as int),
{
    lemma_marked_alone(Marker::Null, rest);
}

/// A boolean reads back.
pub proof fn law_bool(v: bool, rest: Seq<u8>)
    ensures
        wire::read_bool(wire::enc_bool(v) + rest) == got(v, wire::enc_bool(v).len() as int),
{
    lemma_marked_alone(Marker::True, rest);
    lemma_marked_alone(Marker::False, rest);
}

/// An integer in a fixed number of bytes reads back.
proof fn lemma_int_payload(m: Marker, v: i64, n: nat, rest: Seq<u8>)
    requires
        (n == 1 && m is Int8) || (n == 2 && m is Int16) || (n == 4 && m is Int32) || (n == 8
            && m is Int64),
        -pow256(n) <= 2 * v < pow256(n),
    ensures
        wire::read_int(seq![m.code()] + be_bytes(v as int, n) + rest) == got(v, 1 + n as int),
{
    lemma_marked(m, be_bytes(v as int, n), rest);
    lemma_be_int_of_be_bytes(v as int, n);
}

/// An integer reads back.
pub proof fn law_int(v: i64, rest: Seq<u8>)
    ensures
        wire::read_int(wire::enc_int(v) + rest) == got(v, wire::enc_int(v).len() as int),
{
    lemma_pow256_values();
    if -16 <= v <= 127 {
        lemma_marked_alone(Marker::TinyInt(v as i8), rest);
    } else if i8::MIN <= v <= i8::MAX {
        lemma_int_payload(Marker::Int8, v, 1, rest);
    } else if i16::MIN <= v <= i16::MAX {
        lemma_int_payload(Marker::Int16, v, 2, rest);
    } else if i32::MIN <= v <= i32::MAX {
        lemma_int_payload(Marker::Int32, v, 4, rest);
    } else {
        lemma_int_payload(Marker::Int64, v, 8, rest);
    }
}

/// A float reads back, bit by bit.
pub proof fn law_float(bits: u64, rest: Seq<u8>)
    ensures
        wire::read_float(wire::enc_float(bits) + rest) == got(
            bits,
            wire::enc_float(bits).len() as int,
        ),
{
    lemma_pow256_values();
    lemma_marked(Marker::Float64, be_bytes(bits as int, 8), rest);
    lemma_be_uint_of_be_bytes(bits as int, 8);
}

/// A size that follows its marker reads back.
proof fn lemma_wide_size(m: Marker, n: int, w: nat, form: Option<wire::SizeForm>, rest: Seq<u8>)
    requires
        m.valid(),
        form == Some(wire::SizeForm::Wide(w as int)),
        w == 1 || w == 2 || w == 4,
        0 <= n < pow256(w),
    ensures
        ({
            let s = seq![m.code()] + be_bytes(n, w) + rest;
            &&& wire::read_marker(s) == got(m, 1)
            &&& wire::size_payload(s, form) == got(n as u32, 1 + w as int)
            &&& s.skip(1 + w as int) == rest
        }),
{
    lemma_pow256_values();
    lemma_marked(m, be_bytes(n, w), rest);
    lemma_be_uint_of_be_bytes(n, w);
}

/// The header of a string reads back.
proof fn lemma_string_header(n: int, rest: Seq<u8>)
    requires
        0 <= n <= u32::MAX,
    ensures
        wire::read_size(wire::enc_string_header(n) + rest, |m: Marker| wire::string_form(m)) == got(
            n as u32,
            wire::enc_string_header(n).len() as int,
        ),
{
    lemma_pow256_values();
    if n < 16 {
        lemma_marked_alone(Marker::TinyString(n as u8), rest);
    } else if n <= 0xFF {
        lemma_wide_size(Marker::String8, n, 1, wire::string_form(Marker::String8), rest);
    } else if n <= 0xFFFF {
        lemma_wide_size(Marker::String16, n, 2, wire::string_form(Marker::String16), rest);
    } else {
        lemma_wide_size(Marker::String32, n, 4, wire::string_form(Marker::String32), rest);
    }
}

/// A string reads back.
pub proof fn law_string(chars: Seq<char>, rest: Seq<u8>)
    requires
        encode_utf8(chars).len() <= u32::MAX,
    ensures
        wire::read_string(wire::enc_string(chars) + rest) == got(
            chars,
            wire::enc_string(chars).len() as int,
        ),
{
    let b = encode_utf8(chars);
    let h = wire::enc_string_header(b.len() as int);
    let s = wire::enc_string(chars) + rest;
    assert(s =~= h + (b + rest));
    lemma_string_header(b.len() as int, b + rest);
    assert(s.subrange(h.len() as int, (h.len() + b.len()) as int) =~= b);
    encode_utf8_valid_utf8(chars);
    encode_utf8_decode_utf8(chars);
}

/// A byte array reads back.
pub proof fn law_bytes(b: Seq<u8>, rest: Seq<u8>)
    requires
        b.len() <= u32::MAX,
    ensures
        wire::read_bytes(wire::enc_bytes(b) + rest) == got(b, wire::enc_bytes(b).len() as int),
{
    lemma_pow256_values();
    let n = b.len() as int;
    let h = wire::wide_size(Marker::Bytes8, Marker::Bytes16, Marker::Bytes32, n);
    let s = wire::enc_bytes(b) + rest;
    assert(s =~= h + (b + rest));
    if n <= 0xFF {
        lemma_wide_size(Marker::Bytes8, n, 1, wire::bytes_form(Marker::Bytes8), b + rest);
    } else if n <= 0xFFFF {
        lemma_wide_size(Marker::Bytes16, n, 2, wire::bytes_form(Marker::Bytes16), b + rest);
    } else {
        lemma_wide_size(Marker::Bytes32, n, 4, wire::bytes_form(Marker::Bytes32), b + rest);
    }
    assert(s.subrange(h.len() as int, h.len() + n) =~= b);
}

/// The header of a list reads back.
pub proof fn law_list_header(n: u32, rest: Seq<u8>)
    ensures
        wire::read_list_header(wire::enc_list_header(n) + rest) == got(
            n,
            wire::enc_list_header(n).len() as int,
        ),
{
    lemma_pow256_values();
    if n < 16 {
        lemma_marked_alone(Marker::TinyList(n as u8), rest);
    } else if n <= 0xFF {
        lemma_wide_size(Marker::List8, n as int, 1, wire::list_form(Marker::List8), rest);
    } else if n <= 0xFFFF {
        lemma_wide_size(Marker::List16, n as int, 2, wire::list_form(Marker::List16), rest);
    } else {
        lemma_wide_size(Marker::List32, n as int, 4, wire::list_form(Marker::List32), rest);
    }
}

/// The header of a map reads back.
pub proof fn law_map_header(n: u32, rest: Seq<u8>)
    ensures
        wire::read_map_header(wire::enc_map_header(n) + rest) == got(
            n,
            wire::enc_map_header(n).len() as int,
        ),
{
    lemma_pow256_values();
    if n < 16 {
        lemma_marked_alone(Marker::TinyMap(n as u8), rest);
    } else if n <= 0xFF {
        lemma_wide_size(Marker::Map8, n as int, 1, wire::map_form(Marker::Map8), rest);
    } else if n <= 0xFFFF {
        lemma_wide_size(Marker::Map16, n as int, 2, wire::map_form(Marker::Map16), rest);
    } else {
        lemma_wide_size(Marker::Map32, n as int, 4, wire::map_form(Marker::Map32), rest);
    }
}

/// The header of a structure reads back.
pub proof fn law_struct_header(tag: u8, n: u32, rest: Seq<u8>)
    requires
        n <= wire::MAX_STRUCT_FIELDS,
    ensures
        wire::read_struct_header(wire::enc_struct_header(tag, n) + rest) == got(
            (tag, n),
            wire::enc_struct_header(tag, n).len() as int,
        ),
{
    lemma_pow256_values();
    let more = seq![tag] + rest;
    let s = wire::enc_struct_header(tag, n) + rest;
    if n < 16 {
        assert(s =~= seq![Marker::TinyStruct(n as u8).code()] + more);
        lemma_marked_alone(Marker::TinyStruct(n as u8), more);
    } else if n <= 0xFF {
        assert(s =~= seq![Marker::Struct8.code()] + be_bytes(n as int, 1) + more);
        lemma_wide_size(Marker::Struct8, n as int, 1, wire::struct_form(Marker::Struct8), more);
    } else {
        assert(s =~= seq![Marker::Struct16.code()] + be_bytes(n as int, 2) + more);
        lemma_wide_size(Marker::Struct16, n as int, 2, wire::struct_form(Marker::Struct16), more);
    }
}

// ---------------------------------------------------------------------------
// Nothing shorter reads the same
// ---------------------------------------------------------------------------

/// No bytes that read as `v` are fewer than those that are written for it.
pub proof fn law_int_shortest(s: Seq<u8>, v: i64)
    requires
        wire::read_int(s).result == Ok::<i64, PackStreamError>(v),
    ensures
        wire::enc_int(v).len() <= wire::read_int(s).used,
{
    lemma_pow256_values();
    if s.len() >= 2 {
        lemma_be_int_bound(s.subrange(1, 2));
    }
    if s.len() >= 3 {
        lemma_be_int_bound(s.subrange(1, 3));
    }
    if s.len() >= 5 {
        lemma_be_int_bound(s.subrange(1, 5));
    }
}

/// A size in as many bytes as it was read from.
proof fn lemma_size_range(s: Seq<u8>, w: int)
    requires
        w == 1 || w == 2 || w == 4,
        s.len() >= 1 + w,
    ensures
        0 <= be_uint(s.subrange(1, 1 + w)),
        w == 1 ==> be_uint(s.subrange(1, 1 + w)) <= 0xFF,
        w == 2 ==> be_uint(s.subrange(1, 1 + w)) <= 0xFFFF,
        w == 4 ==> be_uint(s.subrange(1, 1 + w)) <= u32::MAX,
{
    lemma_pow256_values();
    lemma_be_uint_bound(s.subrange(1, 1 + w));
}

/// Every size that can be read.
proof fn lemma_size_ranges(s: Seq<u8>)
    ensures
        s.len() >= 2 ==> 0 <= be_uint(s.subrange(1, 2)) <= 0xFF,
        s.len() >= 3 ==> 0 <= be_uint(s.subrange(1, 3)) <= 0xFFFF,
        s.len() >= 5 ==> 0 <= be_uint(s.subrange(1, 5)) <= u32::MAX,
{
    if s.len() >= 2 {
        lemma_size_range(s, 1);
    }
    if s.len() >= 3 {
        lemma_size_range(s, 2);
    }
    if s.len() >= 5 {
        lemma_size_range(s, 4);
    }
}

/// No bytes that read as the header of a list of `n` elements are fewer than
/// those that are written for it.
pub proof fn law_list_header_shortest(s: Seq<u8>, n: u32)
    requires
        wire::read_list_header(s).result == Ok::<u32, PackStreamError>(n),
    ensures
        wire::enc_list_header(n).len() <= wire::read_list_header(s).used,
{
    lemma_size_ranges(s);
}

/// No bytes that read as the header of a map of `n` entries are fewer than
/// those that are written for it.
pub proof fn law_map_header_shortest(s: Seq<u8>, n: u32)
    requires
        wire::read_map_header(s).result == Ok::<u32, PackStreamError>(n),
    ensures
        wire::enc_map_header(n).len() <= wire::read_map_header(s).used,
{
    lemma_size_ranges(s);
}

/// No bytes that read as the header of a structure are fewer than those that
/// are written for it, and no structure that can be read has more fields than
/// can be written.
pub proof fn law_struct_header_shortest(s: Seq<u8>, tag: u8, n: u32)
    requires
        wire::read_struct_header(s).result == Ok::<(u8, u32), PackStreamError>((tag, n)),
    ensures
        n <= wire::MAX_STRUCT_FIELDS,
        wire::enc_struct_header(tag, n).len() <= wire::read_struct_header(s).used,
{
    law_code_of_marker(s[0]);
    lemma_size_ranges(s);
}

/// No bytes that read as a byte array are fewer than those that are written for
/// it.
pub proof fn law_bytes_shortest(s: Seq<u8>, b: Seq<u8>)
    requires
        wire::read_bytes(s).result == Ok::<Seq<u8>, PackStreamError>(b),
    ensures
        wire::enc_bytes(b).len() <= wire::read_bytes(s).used,
{
    lemma_size_ranges(s);
}

/// No bytes that read as a string are fewer than those that are written for it.
pub proof fn law_string_shortest(s: Seq<u8>, chars: Seq<char>)
    requires
        wire::read_string(s).result == Ok::<Seq<char>, PackStreamError>(chars),
    ensures
        wire::enc_string(chars).len() <= wire::read_string(s).used,
{
    lemma_size_ranges(s);
    let p = wire::sized_payload(s, wire::read_size(s, |m: Marker| wire::string_form(m)));
    decode_utf8_encode_utf8(p.result->Ok_0);
}

// ---------------------------------------------------------------------------
// Readings stay within their input
// ---------------------------------------------------------------------------

/// No reading consumes more bytes than there are.
pub proof fn law_within_input(s: Seq<u8>)
    ensures
        0 <= wire::read_null(s).used <= s.len(),
        0 <= wire::read_bool(s).used <= s.len(),
        0 <= wire::read_int(s).used <= s.len(),
        0 <= wire::read_float(s).used <= s.len(),
        0 <= wire::read_string(s).used <= s.len(),
        0 <= wire::read_bytes(s).used <= s.len(),
        0 <= wire::read_list_header(s).used <= s.len(),
        0 <= wire::read_map_header(s).used <= s.len(),
        0 <= wire::read_struct_header(s).used <= s.len(),
        0 <= wire::skip_value(s).used <= s.len(),
{
    lemma_skip_within(s, 1);
}

/// Skipping consumes no more bytes than there are.
proof fn lemma_skip_within(s: Seq<u8>, n: int)
    ensures
        0 <= wire::skip_values(s, n).used <= s.len(),
    decreases s.len(),
{
    if n > 0 {
        wire::lemma_head_bounds(s);
        let head = wire::read_head(s);
        if let Ok(children) = head.result {
            if n - 1 + children <= u64::MAX {
                lemma_skip_within(s.skip(head.used), n - 1 + children);
            }
        }
    }
}

/// At the end of the input every reading fails with an early end, and consumes
/// nothing.
pub proof fn law_at_end(s: Seq<u8>)
    requires
        s.len() == 0,
    ensures
        wire::read_null(s) == wire::failed::<()>(PackStreamError::UnexpectedEof, 0),
        wire::read_bool(s) == wire::failed::<bool>(PackStreamError::UnexpectedEof, 0),
        wire::read_int(s) == wire::failed::<i64>(PackStreamError::UnexpectedEof, 0),
        wire::read_float(s) == wire::failed::<u64>(PackStreamError::UnexpectedEof, 0),
        wire::read_string(s) == wire::failed::<Seq<char>>(PackStreamError::UnexpectedEof, 0),
        wire::read_bytes(s) == wire::failed::<Seq<u8>>(PackStreamError::UnexpectedEof, 0),
        wire::read_list_header(s) == wire::failed::<u32>(PackStreamError::UnexpectedEof, 0),
        wire::read_map_header(s) == wire::failed::<u32>(PackStreamError::UnexpectedEof, 0),
        wire::read_struct_header(s) == wire::failed::<(u8, u32)>(PackStreamError::UnexpectedEof, 0),
        wire::skip_value(s) == wire::failed::<()>(PackStreamError::UnexpectedEof, 0),
{
    reveal(wire::read_head);
}

// ---------------------------------------------------------------------------
// Skipping goes as far as reading
// ---------------------------------------------------------------------------

/// A value that can be read as a scalar, string or byte array is skipped by
/// consuming the same bytes.
pub proof fn law_skip_as_read(s: Seq<u8>)
    ensures
        wire::read_null(s).result is Ok ==> wire::skip_value(s) == got((), wire::read_null(s).used),
        wire::read_bool(s).result is Ok ==> wire::skip_value(s) == got((), wire::read_bool(s).used),
        wire::read_int(s).result is Ok ==> wire::skip_value(s) == got((), wire::read_int(s).used),
        wire::read_float(s).result is Ok ==> wire::skip_value(s) == got(
            (),
            wire::read_float(s).used,
        ),
        wire::read_string(s).result is Ok ==> wire::skip_value(s) == got(
            (),
            wire::read_string(s).used,
        ),
        wire::read_bytes(s).result is Ok ==> wire::skip_value(s) == got(
            (),
            wire::read_bytes(s).used,
        ),
{
    reveal(wire::read_head);
    reveal_with_fuel(wire::skip_values, 2);
}

/// A container is skipped by reading its header and skipping what belongs to it.
pub proof fn law_skip_container(s: Seq<u8>)
    ensures
        wire::read_list_header(s).result matches Ok(n) ==> wire::skip_value(s) == skip_after(
            s,
            wire::read_list_header(s).used,
            n as int,
        ),
        wire::read_map_header(s).result matches Ok(n) ==> wire::skip_value(s) == skip_after(
            s,
            wire::read_map_header(s).used,
            2 * n,
        ),
        wire::read_struct_header(s).result matches Ok(h) ==> wire::skip_value(s) == skip_after(
            s,
            wire::read_struct_header(s).used,
            h.1 as int,
        ),
{
    reveal(wire::read_head);
}

/// Skipping `n` values behind the first `at` bytes.
pub open spec fn skip_after(s: Seq<u8>, at: int, n: int) -> Reading<()> {
    let tail = wire::skip_values(s.skip(at), n);
    Reading { result: tail.result, used: at + tail.used }
}

/// Values that are skipped take up at least a byte each.
proof fn lemma_skip_counts(s: Seq<u8>, n: int)
    requires
        wire::skip_values(s, n).result is Ok,
    ensures
        n <= wire::skip_values(s, n).used,
    decreases s.len(),
{
    if n > 0 {
        wire::lemma_head_bounds(s);
        let head = wire::read_head(s);
        lemma_skip_counts(s.skip(head.used), n - 1 + head.result->Ok_0);
    }
}

/// Skipping `m + n` values is skipping `m` values and then `n` more.
pub proof fn law_skip_in_turn(s: Seq<u8>, m: int, n: int)
    requires
        0 <= m,
        0 <= n,
        n + s.len() <= u64::MAX,
        wire::skip_values(s, m).result is Ok,
    ensures
        wire::skip_values(s, m + n) == skip_after(s, wire::skip_values(s, m).used, n),
    decreases s.len(),
{
    lemma_skip_within(s, m);
    if m == 0 {
        assert(s.skip(0) =~= s);
    } else {
        wire::lemma_head_bounds(s);
        let head = wire::read_head(s);
        let rest = s.skip(head.used);
        let k = m - 1 + head.result->Ok_0;
        lemma_skip_counts(rest, k);
        lemma_skip_within(rest, k);
        law_skip_in_turn(rest, k, n);
        assert(rest.skip(wire::skip_values(rest, k).used) =~= s.skip(
            head.used + wire::skip_values(rest, k).used,
        ));
    }
}

// ---------------------------------------------------------------------------
// Skipping goes past complete values only
// ---------------------------------------------------------------------------

/// A value takes up at least one byte, and lies within the bytes that it is in
/// front of.
proof fn lemma_value_end_bounds(s: Seq<u8>)
    ensures
        wire::value_end(s) matches Some(end) ==> 1 <= end <= s.len(),
    decreases s.len(), 0nat,
{
    wire::lemma_head_bounds(s);
    let head = wire::read_head(s);
    if let Ok(children) = head.result {
        lemma_values_end_bounds(s.skip(head.used), children);
    }
}

/// Values take up at least one byte each, and lie within the bytes that they are
/// in front of.
proof fn lemma_values_end_bounds(s: Seq<u8>, n: int)
    ensures
        wire::values_end(s, n) matches Some(end) ==> 0 <= end <= s.len() && n <= end,
    decreases s.len(), 1nat,
{
    if n > 0 {
        lemma_value_end_bounds(s);
        if let Some(first) = wire::value_end(s) {
            lemma_values_end_bounds(s.skip(first), n - 1);
        }
    }
}

/// Where `n` values end behind the first `at` bytes.
spec fn values_end_after(s: Seq<u8>, at: int, n: int) -> Option<int> {
    match wire::values_end(s.skip(at), n) {
        None => None,
        Some(end) => Some(at + end),
    }
}

/// `m + n` values are `m` values and then `n` more.
proof fn lemma_values_end_in_turn(s: Seq<u8>, m: int, n: int)
    requires
        0 <= m,
        0 <= n,
    ensures
        wire::values_end(s, m + n) == match wire::values_end(s, m) {
            None => None,
            Some(end) => values_end_after(s, end, n),
        },
    decreases s.len(),
{
    if m == 0 {
        assert(s.skip(0) =~= s);
    } else {
        lemma_value_end_bounds(s);
        if let Some(first) = wire::value_end(s) {
            let rest = s.skip(first);
            lemma_values_end_in_turn(rest, m - 1, n);
            lemma_values_end_bounds(rest, m - 1);
            if let Some(end) = wire::values_end(rest, m - 1) {
                assert(rest.skip(end) =~= s.skip(first + end));
            }
        }
    }
}

/// The flat counter goes as far as the values do, one inside the other.
proof fn lemma_skip_to_end(s: Seq<u8>, n: int)
    requires
        0 <= n,
        s.len() <= u64::MAX,
    ensures
        match wire::values_end(s, n) {
            Some(end) => wire::skip_values(s, n) == got((), end),
            None => wire::skip_values(s, n).result is Err,
        },
    decreases s.len(),
{
    if n > 0 {
        wire::lemma_head_bounds(s);
        lemma_value_end_bounds(s);
        let head = wire::read_head(s);
        if let Ok(children) = head.result {
            let rest = s.skip(head.used);
            lemma_values_end_in_turn(rest, children, n - 1);
            lemma_values_end_bounds(rest, children);
            lemma_values_end_bounds(rest, children + n - 1);
            lemma_skip_to_end(rest, children + n - 1);
            if let Some(end) = wire::values_end(rest, children) {
                assert(rest.skip(end) =~= s.skip(head.used + end));
            }
        }
    }
}

/// A head is refused for an early end or for a byte that no marker has.
proof fn lemma_head_errors(s: Seq<u8>)
    ensures
        wire::read_head(s).result matches Err(e) ==> {
            ||| e is UnexpectedEof
            ||| e == PackStreamError::InvalidMarker(s[0]) && wire::read_head(s).used == 1
                && s.len() >= 1 && Marker::of_code(s[0]) is None
        },
{
    reveal(wire::read_head);
}

/// The byte that skipping stopped at, where it met one that no marker has.
pub open spec fn stopped_at(s: Seq<u8>, r: Reading<()>, e: PackStreamError) -> bool {
    &&& 1 <= r.used <= s.len()
    &&& e == PackStreamError::InvalidMarker(s[r.used - 1])
    &&& Marker::of_code(s[r.used - 1]) is None
}

/// Skipping fails for an early end or at a byte that no marker has.
proof fn lemma_skip_errors(s: Seq<u8>, n: int)
    ensures
        wire::skip_values(s, n).result matches Err(e) ==> e is UnexpectedEof || stopped_at(
            s,
            wire::skip_values(s, n),
            e,
        ),
    decreases s.len(),
{
    if n > 0 {
        wire::lemma_head_bounds(s);
        lemma_head_errors(s);
        let head = wire::read_head(s);
        if let Ok(children) = head.result {
            if n - 1 + children <= u64::MAX {
                lemma_skip_errors(s.skip(head.used), n - 1 + children);
            }
        }
    }
}

/// Skipping succeeds if and only if a complete value is in front, in whatever form
/// it is written, and then goes to the end of that value. It fails for an early
/// end of the input or at a byte that no marker has, and for nothing else.
pub proof fn law_skip_complete(s: Seq<u8>)
    requires
        s.len() <= u64::MAX,
    ensures
        wire::skip_value(s).result is Ok <==> wire::value_end(s) is Some,
        wire::value_end(s) matches Some(end) ==> wire::skip_value(s) == got((), end) && 1 <= end
            <= s.len(),
        wire::skip_value(s).result matches Err(e) ==> e is UnexpectedEof || stopped_at(
            s,
            wire::skip_value(s),
            e,
        ),
{
    lemma_skip_to_end(s, 1);
    lemma_value_end_bounds(s);
    lemma_skip_errors(s, 1);
    assert(wire::values_end(s, 1) == wire::value_end(s)) by {
        reveal_with_fuel(wire::values_end, 2);
    }
}

} // verus!
