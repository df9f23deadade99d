//! The readings, byte by byte: which bytes are read as what, how many of them are
//! consumed, and which error comes where they cannot be read.
use vstd::prelude::*;
use vstd::utf8::{decode_utf8_encode_utf8, encode_utf8, valid_utf8};

use crate::be::{
    be_bytes, be_int, be_uint, law_be_bytes_digits, law_be_int_sign, law_be_uint_sum,
    lemma_be_uint_of_be_bytes, lemma_pow256_values,
};
use crate::packstream::deserialize::PackStreamError;
use crate::packstream::wire;

verus! {

/// The numbers that may stand behind the first byte of `s`.
pub(crate) proof fn lemma_numbers_behind(s: Seq<u8>)
    ensures
        s.len() >= 2 ==> be_uint(s.subrange(1, 2)) == s[1],
        s.len() >= 3 ==> be_uint(s.subrange(1, 3)) == 0x100 * s[1] + s[2],
        s.len() >= 5 ==> be_uint(s.subrange(1, 5)) == 0x100_0000 * s[1] + 0x1_0000 * s[2] + 0x100
            * s[3] + s[4],
        s.len() >= 9 ==> be_uint(s.subrange(1, 9)) == 0x100_0000_0000_0000 * s[1]
            + 0x1_0000_0000_0000 * s[2] + 0x100_0000_0000 * s[3] + 0x1_0000_0000 * s[4]
            + 0x100_0000 * s[5] + 0x1_0000 * s[6] + 0x100 * s[7] + s[8],
        s.len() >= 2 ==> be_int(s.subrange(1, 2)) == be_uint(s.subrange(1, 2)) - (if s[1] >= 0x80 {
            0x100int
        } else {
            0
        }),
        s.len() >= 3 ==> be_int(s.subrange(1, 3)) == be_uint(s.subrange(1, 3)) - (if s[1] >= 0x80 {
            0x1_0000int
        } else {
            0
        }),
        s.len() >= 5 ==> be_int(s.subrange(1, 5)) == be_uint(s.subrange(1, 5)) - (if s[1] >= 0x80 {
            0x1_0000_0000int
        } else {
            0
        }),
        s.len() >= 9 ==> be_int(s.subrange(1, 9)) == be_uint(s.subrange(1, 9)) - (if s[1] >= 0x80 {
            0x1_0000_0000_0000_0000int
        } else {
            0
        }),
{
    if s.len() >= 2 {
        law_be_uint_sum(s.subrange(1, 2));
        law_be_int_sign(s.subrange(1, 2));
    }
    if s.len() >= 3 {
        law_be_uint_sum(s.subrange(1, 3));
        law_be_int_sign(s.subrange(1, 3));
    }
    if s.len() >= 5 {
        law_be_uint_sum(s.subrange(1, 5));
        law_be_int_sign(s.subrange(1, 5));
    }
    if s.len() >= 9 {
        law_be_uint_sum(s.subrange(1, 9));
        law_be_int_sign(s.subrange(1, 9));
    }
}

/// A null is the byte 0xC0. On any other first byte, and on no byte, there is
/// none.
pub proof fn law_null_bytes(s: Seq<u8>)
    ensures
        s.len() == 0 ==> wire::read_null(s).result == Err::<(), PackStreamError>(
            PackStreamError::UnexpectedEof,
        ) && wire::read_null(s).used == 0,
        s.len() > 0 ==> wire::read_null(s).used == 1,
        s.len() > 0 && s[0] == 0xC0 ==> wire::read_null(s).result == Ok::<(), PackStreamError>(()),
        s.len() > 0 && s[0] != 0xC0 ==> wire::read_null(s).result == Err::<(), PackStreamError>(
            PackStreamError::InvalidMarker(s[0]),
        ),
{
}

/// A boolean is the byte 0xC3 where it is true and 0xC2 where it is false. On any
/// other first byte, and on no byte, there is none.
pub proof fn law_bool_bytes(s: Seq<u8>)
    ensures
        s.len() == 0 ==> wire::read_bool(s).result == Err::<bool, PackStreamError>(
            PackStreamError::UnexpectedEof,
        ) && wire::read_bool(s).used == 0,
        s.len() > 0 ==> wire::read_bool(s).used == 1,
        s.len() > 0 && s[0] == 0xC3 ==> wire::read_bool(s).result == Ok::<bool, PackStreamError>(
            true,
        ),
        s.len() > 0 && s[0] == 0xC2 ==> wire::read_bool(s).result == Ok::<bool, PackStreamError>(
            false,
        ),
        s.len() > 0 && s[0] != 0xC2 && s[0] != 0xC3 ==> wire::read_bool(s).result == Err::<
            bool,
            PackStreamError,
        >(PackStreamError::InvalidMarker(s[0])),
{
}

/// An integer is one byte from 0xF0 up or from 0x7F down, which is the number in
/// two's complement, or it is 1, 2, 4 or 8 bytes in two's complement behind 0xC8,
/// 0xC9, 0xCA or 0xCB.
pub proof fn law_int_bytes(s: Seq<u8>, v: i64)
    ensures
        wire::read_int(s).result == Ok::<i64, PackStreamError>(v) <==> {
            ||| s.len() >= 1 && s[0] <= 0x7F && v == s[0]
            ||| s.len() >= 1 && s[0] >= 0xF0 && v == s[0] - 0x100
            ||| s.len() >= 2 && s[0] == 0xC8 && v == s[1] - (if s[1] >= 0x80 {
                0x100int
            } else {
                0
            })
            ||| s.len() >= 3 && s[0] == 0xC9 && v == 0x100 * s[1] + s[2] - (if s[1] >= 0x80 {
                0x1_0000int
            } else {
                0
            })
            ||| s.len() >= 5 && s[0] == 0xCA && v == 0x100_0000 * s[1] + 0x1_0000 * s[2] + 0x100
                * s[3] + s[4] - (if s[1] >= 0x80 {
                0x1_0000_0000int
            } else {
                0
            })
            ||| s.len() >= 9 && s[0] == 0xCB && v == 0x100_0000_0000_0000 * s[1]
                + 0x1_0000_0000_0000 * s[2] + 0x100_0000_0000 * s[3] + 0x1_0000_0000 * s[4]
                + 0x100_0000 * s[5] + 0x1_0000 * s[6] + 0x100 * s[7] + s[8] - (if s[1] >= 0x80 {
                0x1_0000_0000_0000_0000int
            } else {
                0
            })
        },
{
    lemma_numbers_behind(s);
}

/// How far reading an integer goes, and why it fails where it does.
pub proof fn law_int_extent(s: Seq<u8>)
    ensures
        s.len() == 0 ==> wire::read_int(s).result == Err::<i64, PackStreamError>(
            PackStreamError::UnexpectedEof,
        ) && wire::read_int(s).used == 0,
        s.len() > 0 && (s[0] <= 0x7F || s[0] >= 0xF0) ==> wire::read_int(s).result is Ok
            && wire::read_int(s).used == 1,
        s.len() > 1 && s[0] == 0xC8 ==> wire::read_int(s).result is Ok && wire::read_int(s).used
            == 2,
        0 < s.len() <= 1 && s[0] == 0xC8
            ==> wire::read_int(s).result == Err::<i64, PackStreamError>(
            PackStreamError::UnexpectedEof,
        ) && wire::read_int(s).used == 1,
        s.len() > 2 && s[0] == 0xC9 ==> wire::read_int(s).result is Ok && wire::read_int(s).used
            == 3,
        0 < s.len() <= 2 && s[0] == 0xC9
            ==> wire::read_int(s).result == Err::<i64, PackStreamError>(
            PackStreamError::UnexpectedEof,
        ) && wire::read_int(s).used == 1,
        s.len() > 4 && s[0] == 0xCA ==> wire::read_int(s).result is Ok && wire::read_int(s).used
            == 5,
        0 < s.len() <= 4 && s[0] == 0xCA
            ==> wire::read_int(s).result == Err::<i64, PackStreamError>(
            PackStreamError::UnexpectedEof,
        ) && wire::read_int(s).used == 1,
        s.len() > 8 && s[0] == 0xCB ==> wire::read_int(s).result is Ok && wire::read_int(s).used
            == 9,
        0 < s.len() <= 8 && s[0] == 0xCB
            ==> wire::read_int(s).result == Err::<i64, PackStreamError>(
            PackStreamError::UnexpectedEof,
        ) && wire::read_int(s).used == 1,
        s.len() > 0 && s[0] > 0x7F && s[0] < 0xF0 && s[0] != 0xC8 && s[0] != 0xC9 && s[0] != 0xCA
            && s[0] != 0xCB ==> wire::read_int(s).result == Err::<i64, PackStreamError>(
            PackStreamError::InvalidMarker(s[0]),
        ) && wire::read_int(s).used == 1,
{
}

/// A float is eight bytes behind 0xC1, most significant first. On any other first
/// byte, and on fewer bytes, there is none.
pub proof fn law_float_bytes(s: Seq<u8>)
    ensures
        s.len() >= 9 && s[0] == 0xC1 ==> wire::read_float(s).used == 9 && (wire::read_float(
            s,
        ).result matches Ok(bits) && bits == 0x100_0000_0000_0000 * s[1] + 0x1_0000_0000_0000
            * s[2] + 0x100_0000_0000 * s[3] + 0x1_0000_0000 * s[4] + 0x100_0000 * s[5] + 0x1_0000
            * s[6] + 0x100 * s[7] + s[8]),
        s.len() == 0 ==> wire::read_float(s).result == Err::<u64, PackStreamError>(
            PackStreamError::UnexpectedEof,
        ) && wire::read_float(s).used == 0,
        0 < s.len() < 9 && s[0] == 0xC1 ==> wire::read_float(s).result == Err::<
            u64,
            PackStreamError,
        >(PackStreamError::UnexpectedEof) && wire::read_float(s).used == 1,
        s.len() > 0 && s[0] != 0xC1 ==> wire::read_float(s).result == Err::<u64, PackStreamError>(
            PackStreamError::InvalidMarker(s[0]),
        ) && wire::read_float(s).used == 1,
{
    lemma_numbers_behind(s);
}

/// A string announces its size `n` in the marker 0x80 + `n`, or in 1, 2 or 4 bytes
/// behind 0xD0, 0xD1 or 0xD2. It is read if and only if `n` bytes follow and are
/// UTF-8, and its UTF-8 is then those very bytes. Where fewer follow the input
/// ends early, and where they are not UTF-8 they are refused as such.
pub proof fn law_string_bytes(s: Seq<u8>, h: int, n: int)
    requires
        (h == 1 && s.len() >= 1 && 0 <= n < 16 && s[0] == 0x80 + n)
            || (h == 2 && s.len() >= 2 && s[0] == 0xD0 && n == s[1])
            || (h == 3 && s.len() >= 3 && s[0] == 0xD1 && n == 0x100 * s[1] + s[2])
            || (h == 5 && s.len() >= 5 && s[0] == 0xD2
                && n == 0x100_0000 * s[1] + 0x1_0000 * s[2] + 0x100 * s[3] + s[4]),
    ensures
        s.len() < h + n ==> wire::read_string(s).result == Err::<Seq<char>, PackStreamError>(
            PackStreamError::UnexpectedEof,
        ) && wire::read_string(s).used == h,
        s.len() >= h + n ==> wire::read_string(s).used == h + n,
        s.len() >= h + n ==> match wire::read_string(s).result {
            Ok(chars) => valid_utf8(s.subrange(h, h + n)) && encode_utf8(chars) == s.subrange(
                h,
                h + n,
            ),
            Err(e) => !valid_utf8(s.subrange(h, h + n)) && e == PackStreamError::InvalidUtf8,
        },
{
    lemma_numbers_behind(s);
    if s.len() >= h + n && valid_utf8(s.subrange(h, h + n)) {
        decode_utf8_encode_utf8(s.subrange(h, h + n));
    }
}

/// There is no string on another first byte, nor without the whole of its size.
pub proof fn law_string_refused(s: Seq<u8>)
    ensures
        s.len() == 0 ==> wire::read_string(s).result == Err::<Seq<char>, PackStreamError>(
            PackStreamError::UnexpectedEof,
        ) && wire::read_string(s).used == 0,
        s.len() > 0 && (s[0] < 0x80 || s[0] > 0x8F) && s[0] != 0xD0 && s[0] != 0xD1 && s[0] != 0xD2
            ==> wire::read_string(s).result == Err::<Seq<char>, PackStreamError>(
            PackStreamError::InvalidMarker(s[0]),
        ) && wire::read_string(s).used == 1,
        0 < s.len() < 2 && s[0] == 0xD0
            ==> wire::read_string(s).result == Err::<Seq<char>, PackStreamError>(
            PackStreamError::UnexpectedEof,
        ) && wire::read_string(s).used == 1,
        0 < s.len() < 3 && s[0] == 0xD1
            ==> wire::read_string(s).result == Err::<Seq<char>, PackStreamError>(
            PackStreamError::UnexpectedEof,
        ) && wire::read_string(s).used == 1,
        0 < s.len() < 5 && s[0] == 0xD2
            ==> wire::read_string(s).result == Err::<Seq<char>, PackStreamError>(
            PackStreamError::UnexpectedEof,
        ) && wire::read_string(s).used == 1,
{
}

/// A byte array announces its size `n` in 1, 2 or 4 bytes behind 0xCC, 0xCD or
/// 0xCE. It is read if and only if `n` bytes follow, and is then those `n` bytes.
pub proof fn law_blob_bytes(s: Seq<u8>, h: int, n: int)
    requires
        (h == 2 && s.len() >= 2 && s[0] == 0xCC && n == s[1])
            || (h == 3 && s.len() >= 3 && s[0] == 0xCD && n == 0x100 * s[1] + s[2])
            || (h == 5 && s.len() >= 5 && s[0] == 0xCE
                && n == 0x100_0000 * s[1] + 0x1_0000 * s[2] + 0x100 * s[3] + s[4]),
    ensures
        s.len() < h + n ==> wire::read_bytes(s).result == Err::<Seq<u8>, PackStreamError>(
            PackStreamError::UnexpectedEof,
        ) && wire::read_bytes(s).used == h,
        s.len() >= h + n ==> wire::read_bytes(s).used == h + n && (wire::read_bytes(
            s,
        ).result matches Ok(b) && b.len() == n && b == s.subrange(h, h + n)),
{
    lemma_numbers_behind(s);
}

/// There is no byte array on another first byte, nor without the whole of its size.
pub proof fn law_blob_refused(s: Seq<u8>)
    ensures
        s.len() == 0 ==> wire::read_bytes(s).result == Err::<Seq<u8>, PackStreamError>(
            PackStreamError::UnexpectedEof,
        ) && wire::read_bytes(s).used == 0,
        s.len() > 0 && s[0] != 0xCC && s[0] != 0xCD && s[0] != 0xCE
            ==> wire::read_bytes(s).result == Err::<Seq<u8>, PackStreamError>(
            PackStreamError::InvalidMarker(s[0]),
        ) && wire::read_bytes(s).used == 1,
        0 < s.len() < 2 && s[0] == 0xCC
            ==> wire::read_bytes(s).result == Err::<Seq<u8>, PackStreamError>(
            PackStreamError::UnexpectedEof,
        ) && wire::read_bytes(s).used == 1,
        0 < s.len() < 3 && s[0] == 0xCD
            ==> wire::read_bytes(s).result == Err::<Seq<u8>, PackStreamError>(
            PackStreamError::UnexpectedEof,
        ) && wire::read_bytes(s).used == 1,
        0 < s.len() < 5 && s[0] == 0xCE
            ==> wire::read_bytes(s).result == Err::<Seq<u8>, PackStreamError>(
            PackStreamError::UnexpectedEof,
        ) && wire::read_bytes(s).used == 1,
{
}

/// The header of a list has its size `n` in the marker 0x90 + `n`, or in 1, 2 or 4
/// bytes behind 0xD4, 0xD5 or 0xD6.
pub proof fn law_list_header_bytes(s: Seq<u8>, h: int, n: int)
    requires
        (h == 1 && s.len() >= 1 && 0 <= n < 16 && s[0] == 0x90 + n)
            || (h == 2 && s.len() >= 2 && s[0] == 0xD4 && n == s[1])
            || (h == 3 && s.len() >= 3 && s[0] == 0xD5 && n == 0x100 * s[1] + s[2])
            || (h == 5 && s.len() >= 5 && s[0] == 0xD6
                && n == 0x100_0000 * s[1] + 0x1_0000 * s[2] + 0x100 * s[3] + s[4]),
    ensures
        wire::read_list_header(s).used == h,
        wire::read_list_header(s).result matches Ok(size) && size == n,
{
    lemma_numbers_behind(s);
}

/// There is no header of a list on another first byte, nor without the whole of its
/// size.
pub proof fn law_list_header_refused(s: Seq<u8>)
    ensures
        s.len() == 0 ==> wire::read_list_header(s).result == Err::<u32, PackStreamError>(
            PackStreamError::UnexpectedEof,
        ) && wire::read_list_header(s).used == 0,
        s.len() > 0 && (s[0] < 0x90 || s[0] > 0x9F) && s[0] != 0xD4 && s[0] != 0xD5 && s[0] != 0xD6
            ==> wire::read_list_header(s).result == Err::<u32, PackStreamError>(
            PackStreamError::InvalidMarker(s[0]),
        ) && wire::read_list_header(s).used == 1,
        0 < s.len() < 2 && s[0] == 0xD4
            ==> wire::read_list_header(s).result == Err::<u32, PackStreamError>(
            PackStreamError::UnexpectedEof,
        ) && wire::read_list_header(s).used == 1,
        0 < s.len() < 3 && s[0] == 0xD5
            ==> wire::read_list_header(s).result == Err::<u32, PackStreamError>(
            PackStreamError::UnexpectedEof,
        ) && wire::read_list_header(s).used == 1,
        0 < s.len() < 5 && s[0] == 0xD6
            ==> wire::read_list_header(s).result == Err::<u32, PackStreamError>(
            PackStreamError::UnexpectedEof,
        ) && wire::read_list_header(s).used == 1,
{
}

/// The header of a map has its size `n` in the marker 0xA0 + `n`, or in 1, 2 or 4
/// bytes behind 0xD8, 0xD9 or 0xDA.
pub proof fn law_map_header_bytes(s: Seq<u8>, h: int, n: int)
    requires
        (h == 1 && s.len() >= 1 && 0 <= n < 16 && s[0] == 0xA0 + n)
            || (h == 2 && s.len() >= 2 && s[0] == 0xD8 && n == s[1])
            || (h == 3 && s.len() >= 3 && s[0] == 0xD9 && n == 0x100 * s[1] + s[2])
            || (h == 5 && s.len() >= 5 && s[0] == 0xDA
                && n == 0x100_0000 * s[1] + 0x1_0000 * s[2] + 0x100 * s[3] + s[4]),
    ensures
        wire::read_map_header(s).used == h,
        wire::read_map_header(s).result matches Ok(size) && size == n,
{
    lemma_numbers_behind(s);
}

/// There is no header of a map on another first byte, nor without the whole of its
/// size.
pub proof fn law_map_header_refused(s: Seq<u8>)
    ensures
        s.len() == 0 ==> wire::read_map_header(s).result == Err::<u32, PackStreamError>(
            PackStreamError::UnexpectedEof,
        ) && wire::read_map_header(s).used == 0,
        s.len() > 0 && (s[0] < 0xA0 || s[0] > 0xAF) && s[0] != 0xD8 && s[0] != 0xD9 && s[0] != 0xDA
            ==> wire::read_map_header(s).result == Err::<u32, PackStreamError>(
            PackStreamError::InvalidMarker(s[0]),
        ) && wire::read_map_header(s).used == 1,
        0 < s.len() < 2 && s[0] == 0xD8
            ==> wire::read_map_header(s).result == Err::<u32, PackStreamError>(
            PackStreamError::UnexpectedEof,
        ) && wire::read_map_header(s).used == 1,
        0 < s.len() < 3 && s[0] == 0xD9
            ==> wire::read_map_header(s).result == Err::<u32, PackStreamError>(
            PackStreamError::UnexpectedEof,
        ) && wire::read_map_header(s).used == 1,
        0 < s.len() < 5 && s[0] == 0xDA
            ==> wire::read_map_header(s).result == Err::<u32, PackStreamError>(
            PackStreamError::UnexpectedEof,
        ) && wire::read_map_header(s).used == 1,
{
}

/// The header of a structure has its number of fields `n` in the marker 0xB0 + `n`,
/// or in 1 or 2 bytes behind 0xDC or 0xDD. The byte behind that is the tag, as it
/// stands; without it the input ends early.
pub proof fn law_struct_header_bytes(s: Seq<u8>, h: int, n: int)
    requires
        (h == 1 && s.len() >= 1 && 0 <= n < 16 && s[0] == 0xB0 + n)
            || (h == 2 && s.len() >= 2 && s[0] == 0xDC && n == s[1])
            || (h == 3 && s.len() >= 3 && s[0] == 0xDD && n == 0x100 * s[1] + s[2]),
    ensures
        s.len() == h ==> wire::read_struct_header(s).result == Err::<(u8, u32), PackStreamError>(
            PackStreamError::UnexpectedEof,
        ) && wire::read_struct_header(s).used == h,
        s.len() > h ==> wire::read_struct_header(s).used == h + 1 && (wire::read_struct_header(
            s,
        ).result matches Ok(r) && r.0 == s[h] && r.1 == n),
{
    lemma_numbers_behind(s);
}

/// There is no header of a structure on another first byte, nor without the whole of
/// its size.
pub proof fn law_struct_header_refused(s: Seq<u8>)
    ensures
        s.len() == 0 ==> wire::read_struct_header(s).result == Err::<(u8, u32), PackStreamError>(
            PackStreamError::UnexpectedEof,
        ) && wire::read_struct_header(s).used == 0,
        s.len() > 0 && (s[0] < 0xB0 || s[0] > 0xBF) && s[0] != 0xDC && s[0] != 0xDD
            ==> wire::read_struct_header(s).result == Err::<(u8, u32), PackStreamError>(
            PackStreamError::InvalidMarker(s[0]),
        ) && wire::read_struct_header(s).used == 1,
        0 < s.len() < 2 && s[0] == 0xDC
            ==> wire::read_struct_header(s).result == Err::<(u8, u32), PackStreamError>(
            PackStreamError::UnexpectedEof,
        ) && wire::read_struct_header(s).used == 1,
        0 < s.len() < 3 && s[0] == 0xDD
            ==> wire::read_struct_header(s).result == Err::<(u8, u32), PackStreamError>(
            PackStreamError::UnexpectedEof,
        ) && wire::read_struct_header(s).used == 1,
{
}

// ---------------------------------------------------------------------------
// What is written
// ---------------------------------------------------------------------------

/// The bytes of a null, of the booleans and of a float.
pub proof fn law_written_scalars(bits: u64)
    ensures
        wire::enc_null() == seq![0xC0u8],
        wire::enc_bool(true) == seq![0xC3u8],
        wire::enc_bool(false) == seq![0xC2u8],
        wire::enc_float(bits).len() == 9,
        wire::enc_float(bits)[0] == 0xC1,
        ({
            let e = wire::enc_float(bits);
            bits == 0x100_0000_0000_0000 * e[1] + 0x1_0000_0000_0000 * e[2] + 0x100_0000_0000
                * e[3] + 0x1_0000_0000 * e[4] + 0x100_0000 * e[5] + 0x1_0000 * e[6] + 0x100 * e[7]
                + e[8]
        }),
{
    let e = wire::enc_float(bits);
    lemma_pow256_values();
    lemma_be_uint_of_be_bytes(bits as int, 8);
    assert(e.subrange(1, 9) =~= be_bytes(bits as int, 8));
    lemma_numbers_behind(e);
}

/// An integer is written in the shortest form that holds it: one byte from -16 to
/// 127, else a marker and 1, 2, 4 or 8 bytes, which are the number in two's
/// complement.
pub proof fn law_written_int(v: i64)
    ensures
        -16 <= v < 0 ==> wire::enc_int(v) == seq![(0x100 + v) as u8],
        0 <= v <= 127 ==> wire::enc_int(v) == seq![v as u8],
        -0x80 <= v < -16 ==> wire::enc_int(v) == seq![0xC8u8, (0x100 + v) as u8],
        (-0x8000 <= v < -0x80 || 127 < v < 0x8000) ==> wire::enc_int(v) == seq![
            0xC9u8,
            ((v as int / 0x100) % 0x100) as u8,
            (v as int % 0x100) as u8,
        ],
        (-0x8000_0000 <= v < -0x8000 || 0x8000 <= v < 0x8000_0000) ==> wire::enc_int(v) == seq![
            0xCAu8,
            ((v as int / 0x100_0000) % 0x100) as u8,
            ((v as int / 0x1_0000) % 0x100) as u8,
            ((v as int / 0x100) % 0x100) as u8,
            (v as int % 0x100) as u8,
        ],
        (v < -0x8000_0000 || v >= 0x8000_0000) ==> wire::enc_int(v) == seq![
            0xCBu8,
            ((v as int / 0x100_0000_0000_0000) % 0x100) as u8,
            ((v as int / 0x1_0000_0000_0000) % 0x100) as u8,
            ((v as int / 0x100_0000_0000) % 0x100) as u8,
            ((v as int / 0x1_0000_0000) % 0x100) as u8,
            ((v as int / 0x100_0000) % 0x100) as u8,
            ((v as int / 0x1_0000) % 0x100) as u8,
            ((v as int / 0x100) % 0x100) as u8,
            (v as int % 0x100) as u8,
        ],
{
    law_be_bytes_digits(v as int);
}

/// A string of `n` bytes is written as its size in the shortest form, then its UTF-8.
pub proof fn law_written_string(chars: Seq<char>, n: int)
    requires
        n == encode_utf8(chars).len(),
        n <= u32::MAX,
    ensures
        n < 16 ==> wire::enc_string(chars) == seq![(0x80 + n) as u8] + encode_utf8(chars),
        16 <= n <= 0xFF ==> wire::enc_string(chars) == seq![0xD0u8, n as u8] + encode_utf8(chars),
        0xFF < n <= 0xFFFF
            ==> wire::enc_string(chars) == seq![0xD1u8, (n / 0x100) as u8, (n % 0x100) as u8]
            + encode_utf8(chars),
        0xFFFF < n ==> wire::enc_string(chars) == seq![
            0xD2u8,
            (n / 0x100_0000) as u8,
            ((n / 0x1_0000) % 0x100) as u8,
            ((n / 0x100) % 0x100) as u8,
            (n % 0x100) as u8,
        ] + encode_utf8(chars),
{
    law_be_bytes_digits(n as int);
}

/// A byte array of `n` bytes is written as its size in the shortest form, then the bytes.
pub proof fn law_written_blob(b: Seq<u8>, n: int)
    requires
        n == b.len(),
        n <= u32::MAX,
    ensures
        n <= 0xFF ==> wire::enc_bytes(b) == seq![0xCCu8, n as u8] + b,
        0xFF < n <= 0xFFFF
            ==> wire::enc_bytes(b) == seq![0xCDu8, (n / 0x100) as u8, (n % 0x100) as u8] + b,
        0xFFFF < n ==> wire::enc_bytes(b) == seq![
            0xCEu8,
            (n / 0x100_0000) as u8,
            ((n / 0x1_0000) % 0x100) as u8,
            ((n / 0x100) % 0x100) as u8,
            (n % 0x100) as u8,
        ] + b,
{
    law_be_bytes_digits(n as int);
}

/// The header of a list is its size in the shortest form.
pub proof fn law_written_list_header(n: u32)
    ensures
        n < 16 ==> wire::enc_list_header(n) == seq![(0x90 + n) as u8],
        16 <= n <= 0xFF ==> wire::enc_list_header(n) == seq![0xD4u8, n as u8],
        0xFF < n <= 0xFFFF
            ==> wire::enc_list_header(n) == seq![0xD5u8, (n / 0x100) as u8, (n % 0x100) as u8],
        0xFFFF < n ==> wire::enc_list_header(n) == seq![
            0xD6u8,
            (n / 0x100_0000) as u8,
            ((n / 0x1_0000) % 0x100) as u8,
            ((n / 0x100) % 0x100) as u8,
            (n % 0x100) as u8,
        ],
{
    law_be_bytes_digits(n as int);
}

/// The header of a map is its size in the shortest form.
pub proof fn law_written_map_header(n: u32)
    ensures
        n < 16 ==> wire::enc_map_header(n) == seq![(0xA0 + n) as u8],
        16 <= n <= 0xFF ==> wire::enc_map_header(n) == seq![0xD8u8, n as u8],
        0xFF < n <= 0xFFFF
            ==> wire::enc_map_header(n) == seq![0xD9u8, (n / 0x100) as u8, (n % 0x100) as u8],
        0xFFFF < n ==> wire::enc_map_header(n) == seq![
            0xDAu8,
            (n / 0x100_0000) as u8,
            ((n / 0x1_0000) % 0x100) as u8,
            ((n / 0x100) % 0x100) as u8,
            (n % 0x100) as u8,
        ],
{
    law_be_bytes_digits(n as int);
}

/// The header of a structure is its number of fields in the shortest form, then the
/// tag as it was given.
pub proof fn law_written_struct_header(tag: u8, n: u32)
    requires
        n <= 0xFFFF,
    ensures
        n < 16 ==> wire::enc_struct_header(tag, n) == seq![(0xB0 + n) as u8] + seq![tag],
        16 <= n <= 0xFF ==> wire::enc_struct_header(tag, n) == seq![0xDCu8, n as u8] + seq![tag],
        0xFF < n <= 0xFFFF
            ==> wire::enc_struct_header(tag, n) == seq![0xDDu8, (n / 0x100) as u8, (n % 0x100) as u8]
            + seq![tag],
{
    law_be_bytes_digits(n as int);
}

} // verus!
