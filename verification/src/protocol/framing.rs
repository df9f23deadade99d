//! The chunked framing, byte by byte: what a decoder has made of the bytes that
//! it has seen.
//!
//! Every Bolt message on the wire is wrapped in one or more chunks:
//!
//! ```text
//! Chunk     = [u16 BE size][size bytes of payload]
//! EndMarker = [0x00, 0x00]
//! Message   = Chunk+ EndMarker
//! ```
use vstd::prelude::*;

use crate::protocol::chunking::{ChunkError, DecoderState};
use crate::protocol::segments::all_nonempty;

verus! {

/// How far a decoder has come.
#[verifier::ext_equal]
pub struct Progress {
    /// What the next byte is.
    pub state: DecoderState,
    /// The payload of the message being assembled, in the pieces that it came in.
    pub segments: Seq<Seq<u8>>,
    /// Whether the next payload byte goes on in the last piece.
    pub open: bool,
    /// The payloads of the messages that are complete.
    pub messages: Seq<Seq<Seq<u8>>>,
    /// The error that ended the decoding, if one did.
    pub error: Option<ChunkError>,
}

/// The size that the two bytes of a chunk header announce.
pub open spec fn header_size(hi: u8, lo: u8) -> u16 {
    (256 * hi + lo) as u16
}

/// A complete chunk header. A size of zero ends the message. Any other size
/// starts a chunk, unless the message would grow beyond `max` bytes.
pub open spec fn after_header(p: Progress, size: u16, max: usize) -> Progress {
    let total = p.segments.flatten().len() + size;
    if size == 0 {
        Progress {
            state: DecoderState::ReadingHeader,
            segments: Seq::empty(),
            open: false,
            messages: p.messages.push(p.segments),
            error: p.error,
        }
    } else if total > max {
        Progress {
            state: DecoderState::Defunct,
            segments: Seq::empty(),
            open: false,
            messages: p.messages,
            error: Some(
                ChunkError::MessageTooLarge {
                    size: if total > usize::MAX {
                        usize::MAX
                    } else {
                        total as usize
                    },
                    max,
                },
            ),
        }
    } else {
        Progress {
            state: DecoderState::ReadingPayload { remaining: size },
            segments: p.segments,
            open: false,
            messages: p.messages,
            error: p.error,
        }
    }
}

/// The pieces with one more payload byte, in the last piece or in a new one.
pub open spec fn with_byte(segments: Seq<Seq<u8>>, open: bool, b: u8) -> Seq<Seq<u8>> {
    if open && segments.len() > 0 {
        segments.drop_last().push(segments.last().push(b))
    } else {
        segments.push(seq![b])
    }
}

/// One more byte. Nothing follows a fatal error.
pub open spec fn after_byte(p: Progress, b: u8, max: usize) -> Progress {
    match p.state {
        DecoderState::Defunct => p,
        DecoderState::ReadingHeader => Progress {
            state: DecoderState::ReadingHeaderByte2 { first_byte: b },
            segments: p.segments,
            open: p.open,
            messages: p.messages,
            error: p.error,
        },
        DecoderState::ReadingHeaderByte2 { first_byte } => after_header(
            p,
            header_size(first_byte, b),
            max,
        ),
        DecoderState::ReadingPayload { remaining } => Progress {
            state: if remaining <= 1 {
                DecoderState::ReadingHeader
            } else {
                DecoderState::ReadingPayload { remaining: (remaining - 1) as u16 }
            },
            segments: with_byte(p.segments, p.open, b),
            open: true,
            messages: p.messages,
            error: p.error,
        },
    }
}

/// More bytes, in order.
pub open spec fn after_bytes(p: Progress, data: Seq<u8>, max: usize) -> Progress
    decreases data.len(),
{
    if data.len() == 0 {
        p
    } else {
        after_byte(after_bytes(p, data.drop_last(), max), data.last(), max)
    }
}

/// Nothing has been seen yet.
pub open spec fn start() -> Progress {
    Progress {
        state: DecoderState::ReadingHeader,
        segments: Seq::empty(),
        open: false,
        messages: Seq::empty(),
        error: None,
    }
}

/// What remains from one delivery of bytes to the next: the complete messages
/// and the error have been handed out, and a piece does not reach from one
/// delivery into the next.
pub open spec fn between_feeds(p: Progress) -> Progress {
    Progress {
        state: p.state,
        segments: p.segments,
        open: false,
        messages: Seq::empty(),
        error: None,
    }
}

/// What holds of a decoder's progress at any time: no piece is empty, and what
/// has come of a message, with what is announced of its current chunk, is at
/// most `max` bytes.
pub open spec fn sound(p: Progress, max: usize) -> bool {
    &&& all_nonempty(p.segments)
    &&& p.segments.flatten().len() + announced(p.state) <= max
    &&& p.state is ReadingPayload ==> p.state->remaining > 0
    &&& p.state is Defunct ==> p.segments.len() == 0
    &&& p.open ==> p.segments.len() > 0
    &&& forall|i: int|
        0 <= i < p.messages.len() ==> all_nonempty(#[trigger] p.messages[i])
            && p.messages[i].flatten().len() <= max
}

/// The payload bytes of the current chunk that are still to come.
pub open spec fn announced(state: DecoderState) -> int {
    match state {
        DecoderState::ReadingPayload { remaining } => remaining as int,
        _ => 0,
    }
}

/// Bytes in two runs are the same as in one.
pub proof fn lemma_after_concat(p: Progress, a: Seq<u8>, b: Seq<u8>, max: usize)
    ensures
        after_bytes(p, a + b, max) == after_bytes(after_bytes(p, a, max), b, max),
    decreases b.len(),
{
    if b.len() == 0 {
        assert(a + b =~= a);
    } else {
        lemma_after_concat(p, a, b.drop_last(), max);
        assert((a + b).drop_last() =~= a + b.drop_last());
        assert((a + b).last() == b.last());
    }
}

/// The two bytes of a header.
pub proof fn lemma_after_two(p: Progress, hi: u8, lo: u8, max: usize)
    requires
        p.state is ReadingHeader,
    ensures
        after_bytes(p, seq![hi, lo], max) == after_header(p, header_size(hi, lo), max),
{
    reveal_with_fuel(after_bytes, 3);
    assert(seq![hi, lo].drop_last() =~= seq![hi]);
    assert(seq![hi].drop_last() =~= Seq::<u8>::empty());
}

/// A single byte.
pub proof fn lemma_after_one(p: Progress, b: u8, max: usize)
    ensures
        after_bytes(p, seq![b], max) == after_byte(p, b, max),
{
    reveal_with_fuel(after_bytes, 2);
    assert(seq![b].drop_last() =~= Seq::<u8>::empty());
}

/// Payload bytes that arrive together make up one piece.
pub proof fn lemma_after_payload(p: Progress, data: Seq<u8>, max: usize)
    requires
        p.state is ReadingPayload,
        !p.open,
        0 < data.len() <= p.state->remaining,
    ensures
        after_bytes(p, data, max) == (Progress {
            state: if data.len() == p.state->remaining {
                DecoderState::ReadingHeader
            } else {
                DecoderState::ReadingPayload { remaining: (p.state->remaining - data.len()) as u16 }
            },
            segments: p.segments.push(data),
            open: true,
            messages: p.messages,
            error: p.error,
        }),
    decreases data.len(),
{
    if data.len() == 1 {
        assert(data =~= seq![data[0]]);
        lemma_after_one(p, data[0], max);
    } else {
        lemma_after_payload(p, data.drop_last(), max);
        let q = after_bytes(p, data.drop_last(), max);
        assert(q.segments.drop_last() =~= p.segments);
        assert(data.drop_last().push(data.last()) =~= data);
    }
}

/// A decoder that is defunct stays as it is, whatever it is fed.
pub proof fn law_defunct(p: Progress, data: Seq<u8>, max: usize)
    requires
        p.state is Defunct,
    ensures
        after_bytes(p, data, max) == p,
    decreases data.len(),
{
    if data.len() > 0 {
        law_defunct(p, data.drop_last(), max);
    }
}

/// The next `n` bytes of `all`, after the first `seen`.
pub proof fn lemma_further(p: Progress, all: Seq<u8>, seen: int, n: int, max: usize)
    requires
        0 <= seen,
        0 <= n,
        seen + n <= all.len(),
    ensures
        after_bytes(p, all.take(seen + n), max) == after_bytes(
            after_bytes(p, all.take(seen), max),
            all.skip(seen).take(n),
            max,
        ),
        all.skip(seen).skip(n) == all.skip(seen + n),
{
    assert(all.take(seen + n) =~= all.take(seen) + all.skip(seen).take(n));
    lemma_after_concat(p, all.take(seen), all.skip(seen).take(n), max);
    assert(all.skip(seen).skip(n) =~= all.skip(seen + n));
}

/// Once a decoder is defunct, the bytes that are left change nothing.
pub proof fn lemma_defunct_rest(p: Progress, all: Seq<u8>, seen: int, max: usize)
    requires
        0 <= seen <= all.len(),
    ensures
        after_bytes(p, all.take(seen), max).state is Defunct ==> after_bytes(p, all, max)
            == after_bytes(p, all.take(seen), max),
{
    if after_bytes(p, all.take(seen), max).state is Defunct {
        lemma_further(p, all, seen, all.len() - seen, max);
        assert(all.take(all.len() as int) =~= all);
        law_defunct(after_bytes(p, all.take(seen), max), all.skip(seen).take(all.len() - seen), max);
    }
}

/// After the first `seen` bytes of `all`, one more.
pub proof fn lemma_byte_at(p: Progress, all: Seq<u8>, seen: int, max: usize)
    requires
        0 <= seen < all.len(),
    ensures
        after_bytes(p, all.take(seen + 1), max) == after_byte(
            after_bytes(p, all.take(seen), max),
            all[seen],
            max,
        ),
        all.skip(seen).skip(1) == all.skip(seen + 1),
        after_bytes(p, all.take(seen + 1), max).state is Defunct ==> after_bytes(p, all, max)
            == after_bytes(p, all.take(seen + 1), max),
{
    lemma_further(p, all, seen, 1, max);
    assert(all.skip(seen).take(1) =~= seq![all[seen]]);
    lemma_after_one(after_bytes(p, all.take(seen), max), all[seen], max);
    lemma_defunct_rest(p, all, seen + 1, max);
}

/// After the first `seen` bytes of `all`, a whole header.
pub proof fn lemma_header_at(p: Progress, all: Seq<u8>, seen: int, max: usize)
    requires
        0 <= seen,
        seen + 2 <= all.len(),
        after_bytes(p, all.take(seen), max).state is ReadingHeader,
    ensures
        after_bytes(p, all.take(seen + 2), max) == after_header(
            after_bytes(p, all.take(seen), max),
            header_size(all[seen], all[seen + 1]),
            max,
        ),
        all.skip(seen).skip(2) == all.skip(seen + 2),
        after_bytes(p, all.take(seen + 2), max).state is Defunct ==> after_bytes(p, all, max)
            == after_bytes(p, all.take(seen + 2), max),
{
    lemma_further(p, all, seen, 2, max);
    assert(all.skip(seen).take(2) =~= seq![all[seen], all[seen + 1]]);
    lemma_after_two(after_bytes(p, all.take(seen), max), all[seen], all[seen + 1], max);
    lemma_defunct_rest(p, all, seen + 2, max);
}

/// After the first `seen` bytes of `all`, `n` payload bytes.
pub proof fn lemma_payload_at(p: Progress, all: Seq<u8>, seen: int, n: int, max: usize)
    requires
        0 <= seen,
        seen + n <= all.len(),
        after_bytes(p, all.take(seen), max).state is ReadingPayload,
        !after_bytes(p, all.take(seen), max).open,
        0 < n <= after_bytes(p, all.take(seen), max).state->remaining,
    ensures
        ({
            let q = after_bytes(p, all.take(seen), max);
            after_bytes(p, all.take(seen + n), max) == Progress {
                state: if n == q.state->remaining {
                    DecoderState::ReadingHeader
                } else {
                    DecoderState::ReadingPayload { remaining: (q.state->remaining - n) as u16 }
                },
                segments: q.segments.push(all.skip(seen).take(n)),
                open: true,
                messages: q.messages,
                error: q.error,
            }
        }),
        all.skip(seen).skip(n) == all.skip(seen + n),
{
    lemma_further(p, all, seen, n, max);
    lemma_after_payload(after_bytes(p, all.take(seen), max), all.skip(seen).take(n), max);
}

} // verus!
