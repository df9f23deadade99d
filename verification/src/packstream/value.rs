//! Whole PackStream values, containers with everything in them: how they are
//! skipped, and that they read back.
use vstd::prelude::*;
use vstd::utf8::encode_utf8;

use crate::packstream::laws;
use crate::packstream::marker::Marker;
use crate::packstream::wire;
use crate::packstream::wire::{got, Reading};

verus! {

/// A PackStream value.
pub enum Value {
    Null,
    Boolean(bool),
    Integer(i64),
    /// A 64-bit float, by its IEEE 754 bits.
    Float(u64),
    Text(Seq<char>),
    Blob(Seq<u8>),
    List(Seq<Value>),
    /// A map, in the order of its entries.
    Entries(Seq<(Seq<char>, Value)>),
    /// A structure: its tag byte and its fields.
    Structure(u8, Seq<Value>),
}

/// Every size in the value can be written.
pub open spec fn writable(v: Value) -> bool
    decreases v,
{
    match v {
        Value::Text(s) => encode_utf8(s).len() <= u32::MAX,
        Value::Blob(b) => b.len() <= u32::MAX,
        Value::List(items) => items.len() <= u32::MAX && forall|i: int|
            0 <= i < items.len() ==> writable(#[trigger] items[i]),
        Value::Entries(entries) => entries.len() <= u32::MAX && forall|i: int|
            0 <= i < entries.len() ==> encode_utf8((#[trigger] entries[i]).0).len() <= u32::MAX
                && writable(entries[i].1),
        Value::Structure(_, fields) => fields.len() <= wire::MAX_STRUCT_FIELDS && forall|i: int|
            0 <= i < fields.len() ==> writable(#[trigger] fields[i]),
        _ => true,
    }
}

/// The bytes that a writer makes of a value: for a container its header, then
/// what belongs to it, in order.
pub open spec fn encoded(v: Value) -> Seq<u8>
    decreases v,
{
    match v {
        Value::Null => wire::enc_null(),
        Value::Boolean(b) => wire::enc_bool(b),
        Value::Integer(i) => wire::enc_int(i),
        Value::Float(bits) => wire::enc_float(bits),
        Value::Text(s) => wire::enc_string(s),
        Value::Blob(b) => wire::enc_bytes(b),
        Value::List(items) => wire::enc_list_header(items.len() as u32) + all_encoded(items),
        Value::Entries(entries) => wire::enc_map_header(entries.len() as u32) + entries_encoded(
            entries,
        ),
        Value::Structure(tag, fields) => wire::enc_struct_header(tag, fields.len() as u32)
            + all_encoded(fields),
    }
}

/// The bytes of values, one behind the other.
pub open spec fn all_encoded(items: Seq<Value>) -> Seq<u8>
    decreases items,
{
    if items.len() == 0 {
        Seq::empty()
    } else {
        encoded(items[0]) + all_encoded(items.drop_first())
    }
}

/// The bytes of map entries, one behind the other: each key before its value.
pub open spec fn entries_encoded(entries: Seq<(Seq<char>, Value)>) -> Seq<u8>
    decreases entries,
{
    if entries.len() == 0 {
        Seq::empty()
    } else {
        wire::enc_string(entries[0].0) + encoded(entries[0].1) + entries_encoded(
            entries.drop_first(),
        )
    }
}

/// Going past `used` bytes and then past `n` values behind them.
spec fn then_skip(used: int, rest: Seq<u8>, n: int) -> Reading<()> {
    let tail = wire::skip_values(rest, n);
    Reading { result: tail.result, used: used + tail.used }
}

/// A scalar, string or byte array is a head that nothing belongs to.
proof fn lemma_skip_scalar(v: Value, rest: Seq<u8>)
    requires
        writable(v),
        !(v is List || v is Entries || v is Structure),
    ensures
        wire::read_head(encoded(v) + rest) == got(0int, encoded(v).len() as int),
{
    reveal(wire::read_head);
    match v {
        Value::Null => laws::law_null(rest),
        Value::Boolean(b) => laws::law_bool(b, rest),
        Value::Integer(i) => laws::law_int(i, rest),
        Value::Float(bits) => laws::law_float(bits, rest),
        Value::Text(s) => laws::law_string(s, rest),
        Value::Blob(b) => laws::law_bytes(b, rest),
        _ => {},
    }
}

/// The header of a list is a head to which the elements belong.
proof fn lemma_head_list(n: u32, rest: Seq<u8>)
    ensures
        wire::read_head(wire::enc_list_header(n) + rest) == got(
            n as int,
            wire::enc_list_header(n).len() as int,
        ),
{
    reveal(wire::read_head);
    laws::law_list_header(n, rest);
}

/// The header of a map is a head to which the keys and values belong.
proof fn lemma_head_map(n: u32, rest: Seq<u8>)
    ensures
        wire::read_head(wire::enc_map_header(n) + rest) == got(
            2 * n,
            wire::enc_map_header(n).len() as int,
        ),
{
    reveal(wire::read_head);
    laws::law_map_header(n, rest);
}

/// The header of a structure is a head to which the fields belong.
proof fn lemma_head_struct(tag: u8, n: u32, rest: Seq<u8>)
    requires
        n <= wire::MAX_STRUCT_FIELDS,
    ensures
        wire::read_head(wire::enc_struct_header(tag, n) + rest) == got(
            n as int,
            wire::enc_struct_header(tag, n).len() as int,
        ),
{
    reveal(wire::read_head);
    laws::law_struct_header(tag, n, rest);
}

/// A head in front of `rest` is skipped, and what belongs to it is outstanding.
proof fn lemma_skip_step(head: Seq<u8>, rest: Seq<u8>, n: int, children: int)
    requires
        wire::read_head(head + rest) == got(children, head.len() as int),
        n >= 1,
        n - 1 + children <= u64::MAX,
    ensures
        wire::skip_values(head + rest, n) == then_skip(head.len() as int, rest, n - 1 + children),
{
    assert((head + rest).skip(head.len() as int) =~= rest);
}

/// One of `n` outstanding values is skipped by consuming its bytes.
proof fn lemma_skip_one(v: Value, rest: Seq<u8>, n: int)
    requires
        writable(v),
        n >= 1,
        n - 1 + encoded(v).len() <= u64::MAX,
    ensures
        encoded(v).len() >= 1,
        wire::skip_values(encoded(v) + rest, n) == then_skip(encoded(v).len() as int, rest, n - 1),
    decreases v,
{
    let s = encoded(v) + rest;
    match v {
        Value::List(items) => {
            let k = items.len() as u32;
            let h = wire::enc_list_header(k);
            let after = all_encoded(items) + rest;
            assert(s =~= h + after);
            lemma_skip_all(items, rest, n - 1 + k);
            lemma_head_list(k, after);
            lemma_skip_step(h, after, n, k as int);
        },
        Value::Entries(entries) => {
            let k = entries.len() as u32;
            let h = wire::enc_map_header(k);
            let after = entries_encoded(entries) + rest;
            assert(s =~= h + after);
            lemma_skip_entries(entries, rest, n - 1 + 2 * k);
            lemma_head_map(k, after);
            lemma_skip_step(h, after, n, 2 * k);
        },
        Value::Structure(tag, fields) => {
            let k = fields.len() as u32;
            let h = wire::enc_struct_header(tag, k);
            let after = all_encoded(fields) + rest;
            assert(s =~= h + after);
            lemma_skip_all(fields, rest, n - 1 + k);
            lemma_head_struct(tag, k, after);
            lemma_skip_step(h, after, n, k as int);
        },
        _ => {
            lemma_skip_scalar(v, rest);
            lemma_skip_step(encoded(v), rest, n, 0);
        },
    }
}

/// Of `n` outstanding values, those in front are skipped by consuming their
/// bytes.
proof fn lemma_skip_all(items: Seq<Value>, rest: Seq<u8>, n: int)
    requires
        forall|i: int| 0 <= i < items.len() ==> writable(#[trigger] items[i]),
        n >= items.len(),
        n - items.len() + all_encoded(items).len() <= u64::MAX,
    ensures
        all_encoded(items).len() >= items.len(),
        wire::skip_values(all_encoded(items) + rest, n) == then_skip(
            all_encoded(items).len() as int,
            rest,
            n - items.len(),
        ),
    decreases items,
{
    if items.len() == 0 {
        assert(all_encoded(items) + rest =~= rest);
    } else {
        let tail = items.drop_first();
        lemma_skip_all(tail, rest, n - 1);
        assert(all_encoded(items) + rest =~= encoded(items[0]) + (all_encoded(tail) + rest));
        lemma_skip_one(items[0], all_encoded(tail) + rest, n);
    }
}

/// Of `n` outstanding values, the keys and values of the entries in front are
/// skipped by consuming their bytes.
proof fn lemma_skip_entries(entries: Seq<(Seq<char>, Value)>, rest: Seq<u8>, n: int)
    requires
        forall|i: int|
            0 <= i < entries.len() ==> encode_utf8((#[trigger] entries[i]).0).len() <= u32::MAX
                && writable(entries[i].1),
        n >= 2 * entries.len(),
        n - 2 * entries.len() + entries_encoded(entries).len() <= u64::MAX,
    ensures
        entries_encoded(entries).len() >= 2 * entries.len(),
        wire::skip_values(entries_encoded(entries) + rest, n) == then_skip(
            entries_encoded(entries).len() as int,
            rest,
            n - 2 * entries.len(),
        ),
    decreases entries,
{
    if entries.len() == 0 {
        assert(entries_encoded(entries) + rest =~= rest);
    } else {
        let tail = entries.drop_first();
        let key = entries[0].0;
        let value = entries[0].1;
        lemma_skip_entries(tail, rest, n - 2);
        let after = entries_encoded(tail) + rest;
        assert(entries_encoded(entries) + rest =~= wire::enc_string(key) + (encoded(value)
            + after));
        lemma_skip_one(value, after, n - 1);
        lemma_skip_scalar(Value::Text(key), encoded(value) + after);
        lemma_skip_step(wire::enc_string(key), encoded(value) + after, n, 0);
    }
}

/// Skipping goes past exactly one value, with everything in it, however deeply
/// it is nested and whatever follows.
pub proof fn law_skip_value(v: Value, rest: Seq<u8>)
    requires
        writable(v),
        encoded(v).len() <= u64::MAX,
    ensures
        wire::skip_value(encoded(v) + rest) == got((), encoded(v).len() as int),
{
    lemma_skip_one(v, rest, 1);
}

/// A written value is a complete value, and ends where its bytes do.
pub proof fn law_written_is_complete(v: Value, rest: Seq<u8>)
    requires
        writable(v),
        encoded(v).len() + rest.len() <= u64::MAX,
    ensures
        wire::value_end(encoded(v) + rest) == Some(encoded(v).len() as int),
{
    law_skip_value(v, rest);
    laws::law_skip_complete(encoded(v) + rest);
}

// ---------------------------------------------------------------------------
// Reading values back
// ---------------------------------------------------------------------------

/// What the reader makes of the front of `s` is `v`, as far as a single reading
/// goes: all of a scalar, string or byte array, the header of a container.
#[verifier::opaque]
pub open spec fn reads_as(s: Seq<u8>, v: Value) -> bool {
    match v {
        Value::Null => wire::read_null(s) == got((), encoded(v).len() as int),
        Value::Boolean(b) => wire::read_bool(s) == got(b, encoded(v).len() as int),
        Value::Integer(i) => wire::read_int(s) == got(i, encoded(v).len() as int),
        Value::Float(bits) => wire::read_float(s) == got(bits, encoded(v).len() as int),
        Value::Text(t) => wire::read_string(s) == got(t, encoded(v).len() as int),
        Value::Blob(b) => wire::read_bytes(s) == got(b, encoded(v).len() as int),
        Value::List(items) => wire::read_list_header(s) == got(
            items.len() as u32,
            wire::enc_list_header(items.len() as u32).len() as int,
        ),
        Value::Entries(entries) => wire::read_map_header(s) == got(
            entries.len() as u32,
            wire::enc_map_header(entries.len() as u32).len() as int,
        ),
        Value::Structure(tag, fields) => wire::read_struct_header(s) == got(
            (tag, fields.len() as u32),
            wire::enc_struct_header(tag, fields.len() as u32).len() as int,
        ),
    }
}

/// A written value reads as itself, whatever follows.
pub proof fn law_reads_as(v: Value, rest: Seq<u8>)
    requires
        writable(v),
    ensures
        reads_as(encoded(v) + rest, v),
{
    reveal(reads_as);
    let s = encoded(v) + rest;
    match v {
        Value::Null => laws::law_null(rest),
        Value::Boolean(b) => laws::law_bool(b, rest),
        Value::Integer(i) => laws::law_int(i, rest),
        Value::Float(bits) => laws::law_float(bits, rest),
        Value::Text(t) => laws::law_string(t, rest),
        Value::Blob(b) => laws::law_bytes(b, rest),
        Value::List(items) => {
            let h = wire::enc_list_header(items.len() as u32);
            assert(s =~= h + (all_encoded(items) + rest));
            laws::law_list_header(items.len() as u32, all_encoded(items) + rest);
        },
        Value::Entries(entries) => {
            let h = wire::enc_map_header(entries.len() as u32);
            assert(s =~= h + (entries_encoded(entries) + rest));
            laws::law_map_header(entries.len() as u32, entries_encoded(entries) + rest);
        },
        Value::Structure(tag, fields) => {
            let h = wire::enc_struct_header(tag, fields.len() as u32);
            assert(s =~= h + (all_encoded(fields) + rest));
            laws::law_struct_header(tag, fields.len() as u32, all_encoded(fields) + rest);
        },
    }
}

/// The type of the values that a marker starts.
spec fn type_of_marker(m: Marker) -> int {
    match m {
        Marker::Null => 0,
        Marker::True | Marker::False => 1,
        Marker::TinyInt(_) | Marker::Int8 | Marker::Int16 | Marker::Int32 | Marker::Int64 => 2,
        Marker::Float64 => 3,
        Marker::TinyString(_) | Marker::String8 | Marker::String16 | Marker::String32 => 4,
        Marker::Bytes8 | Marker::Bytes16 | Marker::Bytes32 => 5,
        Marker::TinyList(_) | Marker::List8 | Marker::List16 | Marker::List32 => 6,
        Marker::TinyMap(_) | Marker::Map8 | Marker::Map16 | Marker::Map32 => 7,
        Marker::TinyStruct(_) | Marker::Struct8 | Marker::Struct16 => 8,
    }
}

/// The type of a value.
spec fn type_of(v: Value) -> int {
    match v {
        Value::Null => 0,
        Value::Boolean(_) => 1,
        Value::Integer(_) => 2,
        Value::Float(_) => 3,
        Value::Text(_) => 4,
        Value::Blob(_) => 5,
        Value::List(_) => 6,
        Value::Entries(_) => 7,
        Value::Structure(_, _) => 8,
    }
}

/// What reads as a value starts with a marker of its type.
proof fn lemma_type_by_marker(s: Seq<u8>, v: Value)
    requires
        reads_as(s, v),
    ensures
        wire::read_marker(s).result is Ok,
        type_of_marker(wire::read_marker(s).result->Ok_0) == type_of(v),
{
    reveal(reads_as);
}

/// Two values are equal, or are containers of one type, size and tag.
spec fn same_head(v: Value, w: Value) -> bool {
    match (v, w) {
        (Value::List(a), Value::List(b)) => a.len() == b.len(),
        (Value::Entries(a), Value::Entries(b)) => a.len() == b.len(),
        (Value::Structure(t, a), Value::Structure(u, b)) => t == u && a.len() == b.len(),
        _ => v == w,
    }
}

/// What one reading sees of a value is settled by the bytes.
proof fn lemma_same_head(s: Seq<u8>, v: Value, w: Value)
    requires
        writable(v),
        writable(w),
        reads_as(s, v),
        reads_as(s, w),
    ensures
        same_head(v, w),
{
    lemma_type_by_marker(s, v);
    lemma_type_by_marker(s, w);
    reveal(reads_as);
}

/// The first `n` bytes are the same in both, and so is what follows.
proof fn lemma_same_front(a: Seq<u8>, b: Seq<u8>, p: Seq<u8>, q: Seq<u8>)
    requires
        a + p == b + q,
        a.len() == b.len(),
    ensures
        a == b,
        p == q,
{
    assert(a =~= (a + p).take(a.len() as int));
    assert(b =~= (b + q).take(b.len() as int));
    assert(p =~= (a + p).skip(a.len() as int));
    assert(q =~= (b + q).skip(b.len() as int));
}

/// No two values are written alike: bytes that begin with a written value begin
/// with no other, and what follows it is settled. So reading each part in turn
/// gives back the whole, however deeply it is nested.
pub proof fn law_value_unique(v: Value, w: Value, rest: Seq<u8>, other: Seq<u8>)
    requires
        writable(v),
        writable(w),
        encoded(v) + rest == encoded(w) + other,
    ensures
        v == w,
        rest == other,
    decreases v,
{
    let s = encoded(v) + rest;
    law_reads_as(v, rest);
    law_reads_as(w, other);
    lemma_same_head(s, v, w);
    match (v, w) {
        (Value::List(a), Value::List(b)) => {
            let h = wire::enc_list_header(a.len() as u32);
            assert(s =~= h + (all_encoded(a) + rest));
            assert(encoded(w) + other =~= h + (all_encoded(b) + other));
            lemma_same_front(h, h, all_encoded(a) + rest, all_encoded(b) + other);
            lemma_all_unique(a, b, rest, other);
        },
        (Value::Entries(a), Value::Entries(b)) => {
            let h = wire::enc_map_header(a.len() as u32);
            assert(s =~= h + (entries_encoded(a) + rest));
            assert(encoded(w) + other =~= h + (entries_encoded(b) + other));
            lemma_same_front(h, h, entries_encoded(a) + rest, entries_encoded(b) + other);
            lemma_entries_unique(a, b, rest, other);
        },
        (Value::Structure(t, a), Value::Structure(u, b)) => {
            let h = wire::enc_struct_header(t, a.len() as u32);
            assert(s =~= h + (all_encoded(a) + rest));
            assert(encoded(w) + other =~= h + (all_encoded(b) + other));
            lemma_same_front(h, h, all_encoded(a) + rest, all_encoded(b) + other);
            lemma_all_unique(a, b, rest, other);
        },
        _ => {
            lemma_same_front(encoded(v), encoded(w), rest, other);
        },
    }
}

/// [`law_value_unique`] for values behind each other.
proof fn lemma_all_unique(a: Seq<Value>, b: Seq<Value>, rest: Seq<u8>, other: Seq<u8>)
    requires
        forall|i: int| 0 <= i < a.len() ==> writable(#[trigger] a[i]),
        forall|i: int| 0 <= i < b.len() ==> writable(#[trigger] b[i]),
        a.len() == b.len(),
        all_encoded(a) + rest == all_encoded(b) + other,
    ensures
        a == b,
        rest == other,
    decreases a,
{
    if a.len() == 0 {
        assert(a =~= b);
        assert(all_encoded(a) + rest =~= rest);
        assert(all_encoded(b) + other =~= other);
    } else {
        let c = a.drop_first();
        let d = b.drop_first();
        assert(all_encoded(a) + rest =~= encoded(a[0]) + (all_encoded(c) + rest));
        assert(all_encoded(b) + other =~= encoded(b[0]) + (all_encoded(d) + other));
        law_value_unique(a[0], b[0], all_encoded(c) + rest, all_encoded(d) + other);
        lemma_all_unique(c, d, rest, other);
        assert(a =~= seq![a[0]] + c);
        assert(b =~= seq![b[0]] + d);
    }
}

/// [`law_value_unique`] for map entries behind each other.
proof fn lemma_entries_unique(
    a: Seq<(Seq<char>, Value)>,
    b: Seq<(Seq<char>, Value)>,
    rest: Seq<u8>,
    other: Seq<u8>,
)
    requires
        forall|i: int|
            0 <= i < a.len() ==> encode_utf8((#[trigger] a[i]).0).len() <= u32::MAX && writable(
                a[i].1,
            ),
        forall|i: int|
            0 <= i < b.len() ==> encode_utf8((#[trigger] b[i]).0).len() <= u32::MAX && writable(
                b[i].1,
            ),
        a.len() == b.len(),
        entries_encoded(a) + rest == entries_encoded(b) + other,
    ensures
        a == b,
        rest == other,
    decreases a,
{
    if a.len() == 0 {
        assert(a =~= b);
        assert(entries_encoded(a) + rest =~= rest);
        assert(entries_encoded(b) + other =~= other);
    } else {
        let c = a.drop_first();
        let d = b.drop_first();
        let r = entries_encoded(c) + rest;
        let o = entries_encoded(d) + other;
        assert(entries_encoded(a) + rest =~= wire::enc_string(a[0].0) + (encoded(a[0].1) + r));
        assert(entries_encoded(b) + other =~= wire::enc_string(b[0].0) + (encoded(b[0].1) + o));
        laws::law_string(a[0].0, encoded(a[0].1) + r);
        laws::law_string(b[0].0, encoded(b[0].1) + o);
        lemma_same_front(
            wire::enc_string(a[0].0),
            wire::enc_string(b[0].0),
            encoded(a[0].1) + r,
            encoded(b[0].1) + o,
        );
        law_value_unique(a[0].1, b[0].1, r, o);
        lemma_entries_unique(c, d, rest, other);
        assert(a =~= seq![a[0]] + c);
        assert(b =~= seq![b[0]] + d);
    }
}

} // verus!
