//! Writing one value after the other.
use vstd::prelude::*;

use crate::packstream::serialize::PackStreamWriter;
use crate::packstream::wire;

verus! {

/// A call of one of the writer's `write_*` methods.
pub enum Write {
    Null,
    Boolean(bool),
    Integer(i64),
    /// A 64-bit float, by its IEEE 754 bits.
    Float(u64),
    Text(Seq<char>),
    Blob(Seq<u8>),
    ListHeader(u32),
    MapHeader(u32),
    /// The tag byte and the number of fields.
    StructHeader(u8, u32),
}

impl Write {
    /// What the call writes into a fresh writer.
    pub open spec fn encoding(self) -> Seq<u8> {
        match self {
            Write::Null => wire::enc_null(),
            Write::Boolean(b) => wire::enc_bool(b),
            Write::Integer(i) => wire::enc_int(i),
            Write::Float(bits) => wire::enc_float(bits),
            Write::Text(s) => wire::enc_string(s),
            Write::Blob(b) => wire::enc_bytes(b),
            Write::ListHeader(n) => wire::enc_list_header(n),
            Write::MapHeader(n) => wire::enc_map_header(n),
            Write::StructHeader(tag, n) => wire::enc_struct_header(tag, n),
        }
    }
}

/// What the calls write into fresh writers, one behind the other.
pub open spec fn encodings(writes: Seq<Write>) -> Seq<u8> {
    writes.map_values(|w: Write| w.encoding()).flatten()
}

/// A writer was in `states[i]` before the call `writes[i]` and in `states[i + 1]`
/// after it.
pub open spec fn is_run(states: Seq<PackStreamWriter>, writes: Seq<Write>) -> bool {
    &&& states.len() == writes.len() + 1
    &&& forall|i: int|
        0 <= i < writes.len() ==> states[i + 1]@ == states[i]@ + (#[trigger] writes[i]).encoding()
}

/// Writes append what each of them writes alone, in their order, and change no
/// byte that was there.
pub proof fn law_writes_append(states: Seq<PackStreamWriter>, writes: Seq<Write>)
    requires
        is_run(states, writes),
    ensures
        states.last()@ == states[0]@ + encodings(writes),
        states[0]@.len() == 0 ==> states.last()@ == encodings(writes),
        forall|i: int|
            0 <= i < states.len() ==> (#[trigger] states[i])@.is_prefix_of(states.last()@),
    decreases writes.len(),
{
    let f = |w: Write| w.encoding();
    if writes.len() == 0 {
        assert(writes.map_values(f) =~= Seq::<Seq<u8>>::empty());
        assert(states[0]@ + encodings(writes) =~= states[0]@);
    } else {
        let n = writes.len() - 1;
        let earlier = states.drop_last();
        let front = writes.drop_last();
        assert forall|i: int| 0 <= i < front.len() implies earlier[i + 1]@ == earlier[i]@ + (
        #[trigger] front[i]).encoding() by {
            assert(front[i] == writes[i]);
        }
        law_writes_append(earlier, front);
        assert(writes[n] == writes.last());
        let all = front.map_values(f);
        assert(writes.map_values(f) =~= all.push(writes.last().encoding()));
        all.lemma_flatten_push(writes.last().encoding());
        assert(states.last()@ =~= states[0]@ + encodings(writes));
        assert forall|i: int| 0 <= i < states.len() implies (
        #[trigger] states[i])@.is_prefix_of(states.last()@) by {
            if i <= n {
                assert(states[i] == earlier[i]);
                assert(earlier.last() == states[n]);
                assert(states.last()@ == states[n]@ + writes.last().encoding());
                assert(states[i]@ =~= states.last()@.take(states[i]@.len() as int));
            } else {
                assert(states.last()@ =~= states.last()@.take(states.last()@.len() as int));
            }
        }
    }
    assert(states[0]@.len() == 0 ==> states[0]@ + encodings(writes) =~= encodings(writes));
}

/// A writer that holds nothing goes on like a fresh one, whether it is new or has
/// been cleared: the same calls give the same bytes at every point.
pub proof fn law_writes_after_clear(
    cleared: Seq<PackStreamWriter>,
    fresh: Seq<PackStreamWriter>,
    writes: Seq<Write>,
)
    requires
        is_run(cleared, writes),
        is_run(fresh, writes),
        cleared[0]@.len() == 0,
        fresh[0]@.len() == 0,
    ensures
        forall|i: int|
            0 <= i < cleared.len() ==> (#[trigger] cleared[i])@ == fresh[i]@,
{
    assert(cleared[0]@ =~= fresh[0]@);
    assert forall|i: int| 0 <= i < cleared.len() implies (#[trigger] cleared[i])@
        == fresh[i]@ by {
        lemma_same_run(cleared, fresh, writes, i);
    }
}

/// Runs of the same calls from the same bytes hold the same bytes after `i` calls.
proof fn lemma_same_run(
    a: Seq<PackStreamWriter>,
    b: Seq<PackStreamWriter>,
    writes: Seq<Write>,
    i: int,
)
    requires
        is_run(a, writes),
        is_run(b, writes),
        a[0]@ == b[0]@,
        0 <= i < a.len(),
    ensures
        a[i]@ == b[i]@,
    decreases i,
{
    if i > 0 {
        lemma_same_run(a, b, writes, i - 1);
        assert(a[i - 1 + 1]@ == a[i - 1]@ + writes[i - 1].encoding());
    }
}

} // verus!
