//! Skipping, byte by byte: how far it goes past each form, that a container is
//! the values behind its header, and that nothing cut short is ever skipped.
use vstd::prelude::*;

use crate::packstream::deserialize::PackStreamError;
use crate::packstream::laws::law_skip_in_turn;
use crate::packstream::layout::lemma_numbers_behind;
use crate::packstream::marker::Marker;
use crate::packstream::value::{encoded, law_skip_value, writable, Value};
use crate::packstream::wire;

verus! {

// ---------------------------------------------------------------------------
// Values without values in them
// ---------------------------------------------------------------------------

/// Skipping a value of a fixed size goes past its marker and its payload, all of
/// which has to be there.
pub proof fn law_skip_fixed_bytes(s: Seq<u8>)
    requires
        s.len() > 0,
    ensures
        (s[0] <= 0x7F || s[0] >= 0xF0 || s[0] == 0xC0 || s[0] == 0xC2 || s[0] == 0xC3)
            ==> wire::skip_value(s).result is Ok && wire::skip_value(s).used == 1,
        s[0] == 0xC8 && s.len() > 1 ==> wire::skip_value(s).result is Ok && wire::skip_value(s).used
            == 2,
        s[0] == 0xC8 && s.len() <= 1 ==> wire::skip_value(s).result == Err::<(), PackStreamError>(
            PackStreamError::UnexpectedEof,
        ) && wire::skip_value(s).used == 1,
        s[0] == 0xC9 && s.len() > 2 ==> wire::skip_value(s).result is Ok && wire::skip_value(s).used
            == 3,
        s[0] == 0xC9 && s.len() <= 2 ==> wire::skip_value(s).result == Err::<(), PackStreamError>(
            PackStreamError::UnexpectedEof,
        ) && wire::skip_value(s).used == 1,
        s[0] == 0xCA && s.len() > 4 ==> wire::skip_value(s).result is Ok && wire::skip_value(s).used
            == 5,
        s[0] == 0xCA && s.len() <= 4 ==> wire::skip_value(s).result == Err::<(), PackStreamError>(
            PackStreamError::UnexpectedEof,
        ) && wire::skip_value(s).used == 1,
        (s[0] == 0xCB || s[0] == 0xC1) && s.len() > 8
            ==> wire::skip_value(s).result is Ok && wire::skip_value(s).used
            == 9,
        (s[0] == 0xCB || s[0] == 0xC1) && s.len() <= 8
            ==> wire::skip_value(s).result == Err::<(), PackStreamError>(
            PackStreamError::UnexpectedEof,
        ) && wire::skip_value(s).used == 1,
{
    reveal(wire::read_head);
    reveal_with_fuel(wire::skip_values, 2);
}

/// Skipping a string or a byte array goes past its header and as many bytes as
/// that announces, all of which have to be there. They need not be UTF-8.
pub proof fn law_skip_sized_bytes(s: Seq<u8>, h: int, n: int)
    requires
        (h == 1 && s.len() >= 1 && 0 <= n < 16 && s[0] == 0x80 + n)
        || (h == 2 && s.len() >= 2 && s[0] == 0xD0 && n == s[1])
        || (h == 3 && s.len() >= 3 && s[0] == 0xD1 && n == 0x100 * s[1] + s[2])
        || (h == 5 && s.len() >= 5 && s[0] == 0xD2
            && n == 0x100_0000 * s[1] + 0x1_0000 * s[2] + 0x100 * s[3] + s[4])
        || (h == 2 && s.len() >= 2 && s[0] == 0xCC && n == s[1])
        || (h == 3 && s.len() >= 3 && s[0] == 0xCD && n == 0x100 * s[1] + s[2])
        || (h == 5 && s.len() >= 5 && s[0] == 0xCE
            && n == 0x100_0000 * s[1] + 0x1_0000 * s[2] + 0x100 * s[3] + s[4]),
    ensures
        s.len() >= h + n ==> wire::skip_value(s).result is Ok && wire::skip_value(s).used == h + n,
        s.len() < h + n ==> wire::skip_value(s).result == Err::<(), PackStreamError>(
            PackStreamError::UnexpectedEof,
        ) && wire::skip_value(s).used == h,
{
    reveal(wire::read_head);
    reveal_with_fuel(wire::skip_values, 2);
    lemma_numbers_behind(s);
}

/// Skipping fails at the end of the input, on a byte that starts no value, and on
/// a header that is not all there.
pub proof fn law_skip_refused(s: Seq<u8>)
    ensures
        s.len() == 0 ==> wire::skip_value(s).result == Err::<(), PackStreamError>(
            PackStreamError::UnexpectedEof,
        ) && wire::skip_value(s).used == 0,
        s.len() > 0 && (0xC4 <= s[0] <= 0xC7 || s[0] == 0xCF || s[0] == 0xD3 || s[0] == 0xD7 || s[0]
            == 0xDB || 0xDE <= s[0] <= 0xEF) ==> wire::skip_value(s).result == Err::<
            (),
            PackStreamError,
        >(PackStreamError::InvalidMarker(s[0])) && wire::skip_value(s).used == 1,
        s.len() == 1 && (s[0] == 0xD0 || s[0] == 0xCC || s[0] == 0xD4 || s[0] == 0xD8 || s[0]
            == 0xDC) ==> wire::skip_value(s).result == Err::<(), PackStreamError>(
            PackStreamError::UnexpectedEof,
        ) && wire::skip_value(s).used == 1,
        0 < s.len() < 3 && (s[0] == 0xD1 || s[0] == 0xCD || s[0] == 0xD5 || s[0] == 0xD9 || s[0]
            == 0xDD) ==> wire::skip_value(s).result == Err::<(), PackStreamError>(
            PackStreamError::UnexpectedEof,
        ) && wire::skip_value(s).used == 1,
        0 < s.len() < 5 && (s[0] == 0xD2 || s[0] == 0xCE || s[0] == 0xD6 || s[0] == 0xDA)
            ==> wire::skip_value(s).result == Err::<(), PackStreamError>(
            PackStreamError::UnexpectedEof,
        ) && wire::skip_value(s).used == 1,
        s.len() == 1 && 0xB0 <= s[0] <= 0xBF
            ==> wire::skip_value(s).result == Err::<(), PackStreamError>(
            PackStreamError::UnexpectedEof,
        ) && wire::skip_value(s).used == 1,
        s.len() == 2 && s[0] == 0xDC ==> wire::skip_value(s).result == Err::<(), PackStreamError>(
            PackStreamError::UnexpectedEof,
        ) && wire::skip_value(s).used == 2,
        s.len() == 3 && s[0] == 0xDD ==> wire::skip_value(s).result == Err::<(), PackStreamError>(
            PackStreamError::UnexpectedEof,
        ) && wire::skip_value(s).used == 3,
{
    reveal(wire::read_head);
    reveal_with_fuel(wire::skip_values, 2);
}

// ---------------------------------------------------------------------------
// Cutting short and going on
// ---------------------------------------------------------------------------

/// A head that is there is the same whatever follows it, and is not there once it
/// is cut short.
proof fn lemma_head_front(s: Seq<u8>, k: int)
    requires
        0 <= k <= s.len(),
        wire::read_head(s).result is Ok,
    ensures
        k >= wire::read_head(s).used ==> wire::read_head(s.take(k)) == wire::read_head(s),
        k < wire::read_head(s).used ==> wire::read_head(s.take(k)).result == Err::<
            int,
            PackStreamError,
        >(PackStreamError::UnexpectedEof),
{
    reveal(wire::read_head);
    if k > 0 {
        let m = wire::read_marker(s).result->Ok_0;
        assert(wire::read_marker(s.take(k)) == wire::read_marker(s));
        match m {
            Marker::TinyString(_) | Marker::String8 | Marker::String16 | Marker::String32 => {
                lemma_size_front(s, k, wire::string_form(m));
            },
            Marker::Bytes8 | Marker::Bytes16 | Marker::Bytes32 => {
                lemma_size_front(s, k, wire::bytes_form(m));
            },
            Marker::TinyList(_) | Marker::List8 | Marker::List16 | Marker::List32 => {
                lemma_size_front(s, k, wire::list_form(m));
            },
            Marker::TinyMap(_) | Marker::Map8 | Marker::Map16 | Marker::Map32 => {
                lemma_size_front(s, k, wire::map_form(m));
            },
            Marker::TinyStruct(_) | Marker::Struct8 | Marker::Struct16 => {
                lemma_size_front(s, k, wire::struct_form(m));
            },
            _ => {},
        }
    }
}

/// A size that is there is the same whatever follows it, and is not there once it
/// is cut short.
proof fn lemma_size_front(s: Seq<u8>, k: int, form: Option<wire::SizeForm>)
    requires
        0 < k <= s.len(),
        form is Some,
        form->0 matches wire::SizeForm::Wide(w) ==> w == 1 || w == 2 || w == 4,
        wire::size_payload(s, form).result is Ok,
    ensures
        1 <= wire::size_payload(s, form).used <= s.len(),
        k >= wire::size_payload(s, form).used ==> wire::size_payload(s.take(k), form)
            == wire::size_payload(s, form),
        k < wire::size_payload(s, form).used ==> wire::size_payload(s.take(k), form)
            == wire::failed::<u32>(PackStreamError::UnexpectedEof, 1),
{
    if let Some(wire::SizeForm::Wide(w)) = form {
        if k >= 1 + w {
            assert(s.take(k).subrange(1, 1 + w) =~= s.subrange(1, 1 + w));
        }
    }
}

/// Values that are skipped are skipped in the same way once what follows them is
/// cut off, and not at all once they are cut short themselves.
proof fn lemma_skip_front(s: Seq<u8>, n: int, k: int)
    requires
        0 <= k <= s.len(),
        wire::skip_values(s, n).result is Ok,
    ensures
        k >= wire::skip_values(s, n).used ==> wire::skip_values(s.take(k), n) == wire::skip_values(
            s,
            n,
        ),
        k < wire::skip_values(s, n).used ==> wire::skip_values(s.take(k), n).result == Err::<
            (),
            PackStreamError,
        >(PackStreamError::UnexpectedEof),
    decreases s.len(),
{
    if n > 0 {
        wire::lemma_head_bounds(s);
        lemma_head_front(s, k);
        let head = wire::read_head(s);
        let children = head.result->Ok_0;
        lemma_skip_used(s.skip(head.used), n - 1 + children);
        if k >= head.used {
            lemma_skip_front(s.skip(head.used), n - 1 + children, k - head.used);
            assert(s.take(k).skip(head.used) =~= s.skip(head.used).take(k - head.used));
        }
    }
}

/// What was skipped is skipped in the same way whatever follows it.
proof fn lemma_skip_before(s: Seq<u8>, n: int, more: Seq<u8>)
    requires
        wire::skip_values(s, n).result is Ok,
    ensures
        wire::skip_values(s + more, n) == wire::skip_values(s, n),
    decreases s.len(),
{
    if n > 0 {
        wire::lemma_head_bounds(s);
        let head = wire::read_head(s);
        let children = head.result->Ok_0;
        lemma_head_before(s, more);
        lemma_skip_before(s.skip(head.used), n - 1 + children, more);
        assert((s + more).skip(head.used) =~= s.skip(head.used) + more);
    }
}

/// A head that is there is the same whatever follows it.
proof fn lemma_head_before(s: Seq<u8>, more: Seq<u8>)
    requires
        wire::read_head(s).result is Ok,
    ensures
        wire::read_head(s + more) == wire::read_head(s),
{
    reveal(wire::read_head);
    lemma_numbers_behind(s);
    lemma_numbers_behind(s + more);
}

/// No value is skipped that is cut short: of the bytes that one skip goes past, no
/// shorter run can be skipped. The input then ends early.
pub proof fn law_skip_cut_short(s: Seq<u8>, k: int)
    requires
        wire::skip_value(s).result is Ok,
        0 <= k < wire::skip_value(s).used <= s.len(),
    ensures
        wire::skip_value(s.take(k)).result == Err::<(), PackStreamError>(
            PackStreamError::UnexpectedEof,
        ),
{
    lemma_skip_front(s, 1, k);
}

/// Skipping looks at nothing behind the value: with other bytes behind it, or with
/// none, it goes as far.
pub proof fn law_skip_looks_no_further(s: Seq<u8>, more: Seq<u8>)
    requires
        wire::skip_value(s).result is Ok,
        wire::skip_value(s).used <= s.len(),
    ensures
        wire::skip_value(s.take(wire::skip_value(s).used) + more) == wire::skip_value(s),
{
    let used = wire::skip_value(s).used;
    lemma_skip_used(s, 1);
    lemma_skip_front(s, 1, used);
    lemma_skip_before(s.take(used), 1, more);
}

/// Skipping does not go back.
proof fn lemma_skip_used(s: Seq<u8>, n: int)
    ensures
        0 <= wire::skip_values(s, n).used <= s.len(),
    decreases s.len(),
{
    if n > 0 {
        wire::lemma_head_bounds(s);
        let head = wire::read_head(s);
        if let Ok(children) = head.result {
            if n - 1 + children <= u64::MAX {
                lemma_skip_used(s.skip(head.used), n - 1 + children);
            }
        }
    }
}

/// A written value is skipped as a whole, and no proper part of it from the front
/// on is: the input then ends early.
pub proof fn law_skip_written(v: Value, rest: Seq<u8>, k: int)
    requires
        writable(v),
        encoded(v).len() <= u64::MAX,
        0 <= k < encoded(v).len(),
    ensures
        wire::skip_value(encoded(v) + rest).result is Ok,
        wire::skip_value(encoded(v) + rest).used == encoded(v).len(),
        wire::skip_value(encoded(v).take(k)).result == Err::<(), PackStreamError>(
            PackStreamError::UnexpectedEof,
        ),
{
    law_skip_value(v, rest);
    law_skip_cut_short(encoded(v) + rest, k);
    assert((encoded(v) + rest).take(k) =~= encoded(v).take(k));
}

// ---------------------------------------------------------------------------
// Containers
// ---------------------------------------------------------------------------

/// The head of a container is its header, and as many values belong to it as that
/// announces: each element of a list, each key and each value of a map, each field
/// of a structure.
proof fn lemma_container_head(s: Seq<u8>, h: int, n: int)
    requires
        (h == 1 && s.len() >= 1 && 0 <= n < 16 && s[0] == 0x90 + n)
        || (h == 2 && s.len() >= 2 && s[0] == 0xD4 && n == s[1])
        || (h == 3 && s.len() >= 3 && s[0] == 0xD5 && n == 0x100 * s[1] + s[2])
        || (h == 5 && s.len() >= 5 && s[0] == 0xD6
            && n == 0x100_0000 * s[1] + 0x1_0000 * s[2] + 0x100 * s[3] + s[4])
        || (h == 1 && s.len() >= 1 && 0xA0 <= s[0] <= 0xAF && n == 2 * (s[0] - 0xA0))
        || (h == 2 && s.len() >= 2 && s[0] == 0xD8 && n == 2 * s[1])
        || (h == 3 && s.len() >= 3 && s[0] == 0xD9 && n == 2 * (0x100 * s[1] + s[2]))
        || (h == 5 && s.len() >= 5 && s[0] == 0xDA
            && n == 2 * (0x100_0000 * s[1] + 0x1_0000 * s[2] + 0x100 * s[3] + s[4]))
        || (h == 2 && s.len() >= 2 && 0 <= n < 16 && s[0] == 0xB0 + n)
        || (h == 3 && s.len() >= 3 && s[0] == 0xDC && n == s[1])
        || (h == 4 && s.len() >= 4 && s[0] == 0xDD && n == 0x100 * s[1] + s[2]),
    ensures
        wire::read_head(s).result == Ok::<int, PackStreamError>(n),
        wire::read_head(s).used == h,
        0 <= n <= 0x1_FFFF_FFFF,
{
    reveal(wire::read_head);
    lemma_numbers_behind(s);
}

/// Complete values in front are skipped one by one.
proof fn lemma_skip_items(items: Seq<Seq<u8>>, rest: Seq<u8>, n: int)
    requires
        forall|i: int|
            0 <= i < items.len() ==> wire::skip_value(#[trigger] items[i]).result is Ok
                && wire::skip_value(items[i]).used == items[i].len(),
        items.len() <= n <= 0x1_FFFF_FFFF,
        items.flatten().len() + rest.len() <= 0x7FFF_FFFF_FFFF_FFFF,
    ensures
        wire::skip_values(items.flatten() + rest, n).result == wire::skip_values(
            rest,
            n - items.len(),
        ).result,
        wire::skip_values(items.flatten() + rest, n).used == items.flatten().len()
            + wire::skip_values(rest, n - items.len()).used,
    decreases items.len(),
{
    if items.len() == 0 {
        assert(items.flatten() + rest =~= rest);
    } else {
        let first = items[0];
        let others = items.drop_first();
        let behind = others.flatten() + rest;
        assert(items.flatten() + rest =~= first + behind);
        assert forall|i: int| 0 <= i < others.len() implies wire::skip_value(
            #[trigger] others[i],
        ).result is Ok && wire::skip_value(others[i]).used == others[i].len() by {
            assert(others[i] == items[i + 1]);
        }
        lemma_skip_items(others, rest, n - 1);
        lemma_skip_before(first, 1, behind);
        law_skip_in_turn(first + behind, 1, n - 1);
        assert((first + behind).skip(first.len() as int) =~= behind);
    }
}

/// A container is its header and as many values behind it as that announces.
/// Where the values `items` are complete and as many as belong to the container,
/// skipping it goes past its header and all of them, and no further.
pub proof fn law_skip_container_whole(
    s: Seq<u8>,
    h: int,
    n: int,
    items: Seq<Seq<u8>>,
    rest: Seq<u8>,
)
    requires
        (h == 1 && s.len() >= 1 && 0 <= n < 16 && s[0] == 0x90 + n)
        || (h == 2 && s.len() >= 2 && s[0] == 0xD4 && n == s[1])
        || (h == 3 && s.len() >= 3 && s[0] == 0xD5 && n == 0x100 * s[1] + s[2])
        || (h == 5 && s.len() >= 5 && s[0] == 0xD6
            && n == 0x100_0000 * s[1] + 0x1_0000 * s[2] + 0x100 * s[3] + s[4])
        || (h == 1 && s.len() >= 1 && 0xA0 <= s[0] <= 0xAF && n == 2 * (s[0] - 0xA0))
        || (h == 2 && s.len() >= 2 && s[0] == 0xD8 && n == 2 * s[1])
        || (h == 3 && s.len() >= 3 && s[0] == 0xD9 && n == 2 * (0x100 * s[1] + s[2]))
        || (h == 5 && s.len() >= 5 && s[0] == 0xDA
            && n == 2 * (0x100_0000 * s[1] + 0x1_0000 * s[2] + 0x100 * s[3] + s[4]))
        || (h == 2 && s.len() >= 2 && 0 <= n < 16 && s[0] == 0xB0 + n)
        || (h == 3 && s.len() >= 3 && s[0] == 0xDC && n == s[1])
        || (h == 4 && s.len() >= 4 && s[0] == 0xDD && n == 0x100 * s[1] + s[2]),
        s.skip(h) == items.flatten() + rest,
        items.len() == n,
        forall|i: int|
            0 <= i < items.len() ==> wire::skip_value(#[trigger] items[i]).result is Ok
                && wire::skip_value(items[i]).used == items[i].len(),
        s.len() <= 0x7FFF_FFFF_FFFF_FFFF,
    ensures
        wire::skip_value(s).result is Ok,
        wire::skip_value(s).used == h + items.flatten().len(),
{
    lemma_container_head(s, h, n);
    assert(s.skip(h).len() == items.flatten().len() + rest.len());
    lemma_skip_items(items, rest, n);
}

/// More values outstanding change nothing about how skipping fails, as long as
/// they can be counted.
proof fn lemma_skip_fails_alike(s: Seq<u8>, n: int, m: int)
    requires
        1 <= n,
        0 <= m,
        n + m + 0x2_0000_0000 * s.len() <= u64::MAX,
        wire::skip_values(s, n).result is Err,
    ensures
        wire::skip_values(s, n + m) == wire::skip_values(s, n),
    decreases s.len(),
{
    wire::lemma_head_bounds(s);
    lemma_children_bound(s);
    let head = wire::read_head(s);
    if let Ok(children) = head.result {
        lemma_skip_fails_alike(s.skip(head.used), n - 1 + children, m);
    }
}

/// How many values can belong to a head.
proof fn lemma_children_bound(s: Seq<u8>)
    ensures
        wire::read_head(s).result matches Ok(children) ==> 0 <= children <= 0x1_FFFF_FFFF,
{
    reveal(wire::read_head);
}

/// Where a value inside a container cannot be skipped, neither can the container,
/// for the same reason and at the same place. (Where two gibibytes or more follow,
/// the values outstanding in them may be more than can be counted.)
pub proof fn law_skip_container_broken(
    s: Seq<u8>,
    h: int,
    n: int,
    items: Seq<Seq<u8>>,
    rest: Seq<u8>,
)
    requires
        (h == 1 && s.len() >= 1 && 0 <= n < 16 && s[0] == 0x90 + n)
        || (h == 2 && s.len() >= 2 && s[0] == 0xD4 && n == s[1])
        || (h == 3 && s.len() >= 3 && s[0] == 0xD5 && n == 0x100 * s[1] + s[2])
        || (h == 5 && s.len() >= 5 && s[0] == 0xD6
            && n == 0x100_0000 * s[1] + 0x1_0000 * s[2] + 0x100 * s[3] + s[4])
        || (h == 1 && s.len() >= 1 && 0xA0 <= s[0] <= 0xAF && n == 2 * (s[0] - 0xA0))
        || (h == 2 && s.len() >= 2 && s[0] == 0xD8 && n == 2 * s[1])
        || (h == 3 && s.len() >= 3 && s[0] == 0xD9 && n == 2 * (0x100 * s[1] + s[2]))
        || (h == 5 && s.len() >= 5 && s[0] == 0xDA
            && n == 2 * (0x100_0000 * s[1] + 0x1_0000 * s[2] + 0x100 * s[3] + s[4]))
        || (h == 2 && s.len() >= 2 && 0 <= n < 16 && s[0] == 0xB0 + n)
        || (h == 3 && s.len() >= 3 && s[0] == 0xDC && n == s[1])
        || (h == 4 && s.len() >= 4 && s[0] == 0xDD && n == 0x100 * s[1] + s[2]),
        s.skip(h) == items.flatten() + rest,
        items.len() < n,
        forall|i: int|
            0 <= i < items.len() ==> wire::skip_value(#[trigger] items[i]).result is Ok
                && wire::skip_value(items[i]).used == items[i].len(),
        wire::skip_value(rest).result is Err,
        s.len() <= 0x7FFF_FFFF_FFFF_FFFF,
        rest.len() <= 0x7FFF_FFFE,
    ensures
        wire::skip_value(s).result == wire::skip_value(rest).result,
        wire::skip_value(s).used == h + items.flatten().len() + wire::skip_value(rest).used,
{
    lemma_container_head(s, h, n);
    assert(s.skip(h).len() == items.flatten().len() + rest.len());
    lemma_skip_items(items, rest, n);
    lemma_skip_fails_alike(rest, 1, n - items.len() - 1);
}

// ---------------------------------------------------------------------------
// Readings cut short
// ---------------------------------------------------------------------------

/// What `read_null` reads it reads whatever follows, and it reads nothing of what is
/// cut short: the input then ends early.
pub proof fn law_read_null_front(s: Seq<u8>, k: int)
    requires
        wire::read_null(s).result is Ok,
        0 <= k <= s.len(),
    ensures
        k >= wire::read_null(s).used ==> wire::read_null(s.take(k)) == wire::read_null(s),
        k < wire::read_null(s).used ==> wire::read_null(s.take(k)).result == Err::<
            (),
            PackStreamError,
        >(PackStreamError::UnexpectedEof),
{
    lemma_numbers_behind(s);
    lemma_numbers_behind(s.take(k));
}

/// What `read_bool` reads it reads whatever follows, and it reads nothing of what is
/// cut short: the input then ends early.
pub proof fn law_read_bool_front(s: Seq<u8>, k: int)
    requires
        wire::read_bool(s).result is Ok,
        0 <= k <= s.len(),
    ensures
        k >= wire::read_bool(s).used ==> wire::read_bool(s.take(k)) == wire::read_bool(s),
        k < wire::read_bool(s).used ==> wire::read_bool(s.take(k)).result == Err::<
            bool,
            PackStreamError,
        >(PackStreamError::UnexpectedEof),
{
    lemma_numbers_behind(s);
    lemma_numbers_behind(s.take(k));
}

/// What `read_int` reads it reads whatever follows, and it reads nothing of what is
/// cut short: the input then ends early.
pub proof fn law_read_int_front(s: Seq<u8>, k: int)
    requires
        wire::read_int(s).result is Ok,
        0 <= k <= s.len(),
    ensures
        k >= wire::read_int(s).used ==> wire::read_int(s.take(k)) == wire::read_int(s),
        k < wire::read_int(s).used ==> wire::read_int(s.take(k)).result == Err::<
            i64,
            PackStreamError,
        >(PackStreamError::UnexpectedEof),
{
    lemma_numbers_behind(s);
    lemma_numbers_behind(s.take(k));
    assert(k >= 2 ==> s.take(k).subrange(1, 2) =~= s.subrange(1, 2));
    assert(k >= 3 ==> s.take(k).subrange(1, 3) =~= s.subrange(1, 3));
    assert(k >= 5 ==> s.take(k).subrange(1, 5) =~= s.subrange(1, 5));
    assert(k >= 9 ==> s.take(k).subrange(1, 9) =~= s.subrange(1, 9));
}

/// What `read_float` reads it reads whatever follows, and it reads nothing of what is
/// cut short: the input then ends early.
pub proof fn law_read_float_front(s: Seq<u8>, k: int)
    requires
        wire::read_float(s).result is Ok,
        0 <= k <= s.len(),
    ensures
        k >= wire::read_float(s).used ==> wire::read_float(s.take(k)) == wire::read_float(s),
        k < wire::read_float(s).used ==> wire::read_float(s.take(k)).result == Err::<
            u64,
            PackStreamError,
        >(PackStreamError::UnexpectedEof),
{
    lemma_numbers_behind(s);
    lemma_numbers_behind(s.take(k));
}

/// What `read_string` reads it reads whatever follows, and it reads nothing of what is
/// cut short: the input then ends early.
pub proof fn law_read_string_front(s: Seq<u8>, k: int)
    requires
        wire::read_string(s).result is Ok,
        0 <= k <= s.len(),
    ensures
        k >= wire::read_string(s).used ==> wire::read_string(s.take(k)) == wire::read_string(s),
        k < wire::read_string(s).used ==> wire::read_string(s.take(k)).result == Err::<
            Seq<char>,
            PackStreamError,
        >(PackStreamError::UnexpectedEof),
{
    lemma_numbers_behind(s);
    lemma_numbers_behind(s.take(k));
    let p = wire::sized_payload(s, wire::read_size(s, |m: Marker| wire::string_form(m)));
    if k >= p.used {
        let b = p.result->Ok_0;
        let at = p.used - b.len();
        assert(s.take(k).subrange(at, p.used) =~= s.subrange(at, p.used));
    }
}

/// What `read_bytes` reads it reads whatever follows, and it reads nothing of what is
/// cut short: the input then ends early.
pub proof fn law_read_bytes_front(s: Seq<u8>, k: int)
    requires
        wire::read_bytes(s).result is Ok,
        0 <= k <= s.len(),
    ensures
        k >= wire::read_bytes(s).used ==> wire::read_bytes(s.take(k)) == wire::read_bytes(s),
        k < wire::read_bytes(s).used ==> wire::read_bytes(s.take(k)).result == Err::<
            Seq<u8>,
            PackStreamError,
        >(PackStreamError::UnexpectedEof),
{
    lemma_numbers_behind(s);
    lemma_numbers_behind(s.take(k));
    let p = wire::read_bytes(s);
    if k >= p.used {
        let at = p.used - p.result->Ok_0.len();
        assert(s.take(k).subrange(at, p.used) =~= s.subrange(at, p.used));
    }
}

/// What `read_list_header` reads it reads whatever follows, and it reads nothing of what is
/// cut short: the input then ends early.
pub proof fn law_read_list_header_front(s: Seq<u8>, k: int)
    requires
        wire::read_list_header(s).result is Ok,
        0 <= k <= s.len(),
    ensures
        k >= wire::read_list_header(s).used
            ==> wire::read_list_header(s.take(k)) == wire::read_list_header(s),
        k < wire::read_list_header(s).used ==> wire::read_list_header(s.take(k)).result == Err::<
            u32,
            PackStreamError,
        >(PackStreamError::UnexpectedEof),
{
    lemma_numbers_behind(s);
    lemma_numbers_behind(s.take(k));
}

/// What `read_map_header` reads it reads whatever follows, and it reads nothing of what is
/// cut short: the input then ends early.
pub proof fn law_read_map_header_front(s: Seq<u8>, k: int)
    requires
        wire::read_map_header(s).result is Ok,
        0 <= k <= s.len(),
    ensures
        k >= wire::read_map_header(s).used
            ==> wire::read_map_header(s.take(k)) == wire::read_map_header(s),
        k < wire::read_map_header(s).used ==> wire::read_map_header(s.take(k)).result == Err::<
            u32,
            PackStreamError,
        >(PackStreamError::UnexpectedEof),
{
    lemma_numbers_behind(s);
    lemma_numbers_behind(s.take(k));
}

/// What `read_struct_header` reads it reads whatever follows, and it reads nothing of what is
/// cut short: the input then ends early.
pub proof fn law_read_struct_header_front(s: Seq<u8>, k: int)
    requires
        wire::read_struct_header(s).result is Ok,
        0 <= k <= s.len(),
    ensures
        k >= wire::read_struct_header(s).used
            ==> wire::read_struct_header(s.take(k)) == wire::read_struct_header(s),
        k < wire::read_struct_header(s).used
            ==> wire::read_struct_header(s.take(k)).result == Err::<
            (u8, u32),
            PackStreamError,
        >(PackStreamError::UnexpectedEof),
{
    lemma_numbers_behind(s);
    lemma_numbers_behind(s.take(k));
}

} // verus!
