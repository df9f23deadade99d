//! What holds of the framing as a whole.
use vstd::prelude::*;

use crate::be::{be_bytes, pow256};
use crate::buf::Buf;
use crate::protocol::chunking::{delivered, ChunkError, DecoderState, MessageBuf};
use crate::protocol::framing::{
    after_byte, after_bytes, between_feeds, header_size, law_defunct,
    lemma_after_concat, lemma_after_one, lemma_after_payload, lemma_after_two, sound, start,
    with_byte, Progress,
};
use crate::protocol::segments::all_nonempty;

verus! {

// ---------------------------------------------------------------------------
// Limits
// ---------------------------------------------------------------------------

/// One more payload byte makes one more byte.
proof fn lemma_with_byte(segments: Seq<Seq<u8>>, open: bool, b: u8)
    ensures
        with_byte(segments, open, b).flatten() == segments.flatten().push(b),
        all_nonempty(segments) ==> all_nonempty(with_byte(segments, open, b)),
{
    if open && segments.len() > 0 {
        let front = segments.drop_last();
        front.lemma_flatten_push(segments.last().push(b));
        front.lemma_flatten_push(segments.last());
        assert(front.push(segments.last()) =~= segments);
        assert(with_byte(segments, open, b).flatten() =~= segments.flatten().push(b));
    } else {
        segments.lemma_flatten_push(seq![b]);
        assert(segments.flatten() + seq![b] =~= segments.flatten().push(b));
    }
}

/// Whatever a decoder is fed, it never holds more than `max` bytes of a message,
/// it never announces more than fits, and no message that it completes is longer.
pub proof fn law_limit(p: Progress, data: Seq<u8>, max: usize)
    requires
        sound(p, max),
    ensures
        sound(after_bytes(p, data, max), max),
    decreases data.len(),
{
    if data.len() > 0 {
        law_limit(p, data.drop_last(), max);
        let q = after_bytes(p, data.drop_last(), max);
        lemma_with_byte(q.segments, q.open, data.last());
        assert(Seq::<Seq<u8>>::empty().flatten() =~= Seq::<u8>::empty());
    }
}

// ---------------------------------------------------------------------------
// Cutting the input up
// ---------------------------------------------------------------------------

/// Progress without regard to the pieces that payloads came in.
#[verifier::ext_equal]
pub struct Content {
    pub state: DecoderState,
    pub pending: Seq<u8>,
    pub messages: Seq<Seq<u8>>,
    pub error: Option<ChunkError>,
}

/// The payload of each message in one piece.
pub open spec fn payloads(messages: Seq<Seq<Seq<u8>>>) -> Seq<Seq<u8>> {
    messages.map_values(|m: Seq<Seq<u8>>| m.flatten())
}

/// Progress without regard to the pieces that payloads came in.
pub open spec fn content(p: Progress) -> Content {
    Content {
        state: p.state,
        pending: p.segments.flatten(),
        messages: payloads(p.messages),
        error: p.error,
    }
}

/// What consecutive feeds of `parts` come to, from a decoder at `p` on: where
/// the decoder stands at the end, every message that was completed, and the
/// first error.
pub open spec fn after_feeds(p: Progress, parts: Seq<Seq<u8>>, max: usize) -> Progress
    decreases parts.len(),
{
    if parts.len() == 0 {
        p
    } else {
        let before = after_feeds(p, parts.drop_last(), max);
        let fed = after_bytes(between_feeds(before), parts.last(), max);
        Progress {
            state: fed.state,
            segments: fed.segments,
            open: false,
            messages: before.messages + fed.messages,
            error: if before.error is Some {
                before.error
            } else {
                fed.error
            },
        }
    }
}

/// A byte does the same to the content whatever the pieces are.
proof fn lemma_content_byte(p: Progress, q: Progress, b: u8, max: usize)
    requires
        content(p) == content(q),
    ensures
        content(after_byte(p, b, max)) == content(after_byte(q, b, max)),
{
    lemma_with_byte(p.segments, p.open, b);
    lemma_with_byte(q.segments, q.open, b);
    assert(payloads(p.messages.push(p.segments)) =~= payloads(p.messages).push(
        p.segments.flatten(),
    ));
    assert(payloads(q.messages.push(q.segments)) =~= payloads(q.messages).push(
        q.segments.flatten(),
    ));
}

/// Bytes do the same to the content whatever the pieces are.
proof fn lemma_content_bytes(p: Progress, q: Progress, data: Seq<u8>, max: usize)
    requires
        content(p) == content(q),
    ensures
        content(after_bytes(p, data, max)) == content(after_bytes(q, data, max)),
    decreases data.len(),
{
    if data.len() > 0 {
        lemma_content_bytes(p, q, data.drop_last(), max);
        lemma_content_byte(
            after_bytes(p, data.drop_last(), max),
            after_bytes(q, data.drop_last(), max),
            data.last(),
            max,
        );
    }
}

/// What was handed out before does not matter to what comes.
proof fn lemma_handed_out(q: Progress, data: Seq<u8>, max: usize)
    requires
        q.error is Some ==> q.state is Defunct,
    ensures
        ({
            let x = after_bytes(q, data, max);
            let y = after_bytes(between_feeds(q), data, max);
            &&& x.state == y.state
            &&& x.segments.flatten() == y.segments.flatten()
            &&& payloads(x.messages) == payloads(q.messages) + payloads(y.messages)
            &&& x.error == if q.error is Some {
                q.error
            } else {
                y.error
            }
            &&& x.error is Some ==> x.state is Defunct
        }),
    decreases data.len(),
{
    if data.len() == 0 {
        assert(payloads(q.messages) + payloads(Seq::empty()) =~= payloads(q.messages));
    } else {
        lemma_handed_out(q, data.drop_last(), max);
        let x = after_bytes(q, data.drop_last(), max);
        let y = after_bytes(between_feeds(q), data.drop_last(), max);
        lemma_with_byte(x.segments, x.open, data.last());
        lemma_with_byte(y.segments, y.open, data.last());
        assert(payloads(x.messages.push(x.segments)) =~= payloads(x.messages).push(
            x.segments.flatten(),
        ));
        assert(payloads(y.messages.push(y.segments)) =~= payloads(y.messages).push(
            y.segments.flatten(),
        ));
        assert((payloads(q.messages) + payloads(y.messages)).push(y.segments.flatten())
            =~= payloads(q.messages) + payloads(y.messages).push(y.segments.flatten()));
        if q.error is Some {
            law_defunct(q, data, max);
            law_defunct(q, data.drop_last(), max);
        }
    }
}

/// However a stream of bytes is cut up over feeds, the same messages are
/// completed, the same error comes, and the decoder ends up in the same place.
/// Only the pieces that a payload is held in depend on the cuts. An error leaves
/// the decoder defunct.
pub proof fn law_cuts(p: Progress, parts: Seq<Seq<u8>>, max: usize)
    requires
        p.error is None,
    ensures
        content(after_feeds(p, parts, max)) == content(after_bytes(p, parts.flatten(), max)),
        after_feeds(p, parts, max).error is Some ==> after_feeds(p, parts, max).state is Defunct,
    decreases parts.len(),
{
    if parts.len() > 0 {
        let front = parts.drop_last();
        law_cuts(p, front, max);
        let before = after_feeds(p, front, max);
        lemma_handed_out(before, parts.last(), max);
        assert(front.push(parts.last()) =~= parts);
        front.lemma_flatten_push(parts.last());
        lemma_after_concat(p, front.flatten(), parts.last(), max);
        lemma_content_bytes(
            before,
            after_bytes(p, front.flatten(), max),
            parts.last(),
            max,
        );
        let fed = after_bytes(between_feeds(before), parts.last(), max);
        assert(payloads(before.messages + fed.messages) =~= payloads(before.messages) + payloads(
            fed.messages,
        ));
    } else {
        assert(parts.flatten() =~= Seq::<u8>::empty());
    }
}

// ---------------------------------------------------------------------------
// Framed messages
// ---------------------------------------------------------------------------

/// A payload in chunks that the wire can carry.
pub open spec fn valid_chunks(chunks: Seq<Seq<u8>>) -> bool {
    forall|i: int| 0 <= i < chunks.len() ==> 0 < (#[trigger] chunks[i]).len() <= 0xFFFF
}

/// The chunks on the wire: each behind its size.
pub open spec fn chunks_on_wire(chunks: Seq<Seq<u8>>) -> Seq<u8>
    decreases chunks.len(),
{
    if chunks.len() == 0 {
        Seq::empty()
    } else {
        chunks_on_wire(chunks.drop_last()) + be_bytes(chunks.last().len() as int, 2)
            + chunks.last()
    }
}

/// A message on the wire: its chunks and the end marker.
pub open spec fn message_on_wire(chunks: Seq<Seq<u8>>) -> Seq<u8> {
    chunks_on_wire(chunks) + seq![0u8, 0u8]
}

/// Messages on the wire, one behind the other.
pub open spec fn messages_on_wire(messages: Seq<Seq<Seq<u8>>>) -> Seq<u8>
    decreases messages.len(),
{
    if messages.len() == 0 {
        Seq::empty()
    } else {
        messages_on_wire(messages.drop_last()) + message_on_wire(messages.last())
    }
}

/// The two bytes of a size announce it.
proof fn lemma_size_on_wire(n: int)
    requires
        0 <= n <= 0xFFFF,
    ensures
        be_bytes(n, 2) == seq![(n / 256) as u8, (n % 256) as u8],
        header_size((n / 256) as u8, (n % 256) as u8) == n,
{
    reveal_with_fuel(pow256, 3);
    assert(be_bytes(n, 2) =~= seq![(n / 256) as u8, (n % 256) as u8]);
}

/// Chunks behind each other become the pieces of the current message.
proof fn lemma_chunks(p: Progress, chunks: Seq<Seq<u8>>, max: usize)
    requires
        p.state is ReadingHeader,
        p.segments.len() == 0,
        valid_chunks(chunks),
        chunks.flatten().len() <= max,
    ensures
        ({
            let q = after_bytes(p, chunks_on_wire(chunks), max);
            &&& q.state is ReadingHeader
            &&& q.segments == chunks
            &&& q.messages == p.messages
            &&& q.error == p.error
        }),
    decreases chunks.len(),
{
    if chunks.len() > 0 {
        let front = chunks.drop_last();
        let last = chunks.last();
        assert(front.push(last) =~= chunks);
        front.lemma_flatten_push(last);
        lemma_chunks(p, front, max);
        let size = be_bytes(last.len() as int, 2);
        lemma_size_on_wire(last.len() as int);
        lemma_after_concat(p, chunks_on_wire(front) + size, last, max);
        lemma_after_concat(p, chunks_on_wire(front), size, max);
        let q = after_bytes(p, chunks_on_wire(front), max);
        lemma_after_two(q, size[0], size[1], max);
        lemma_after_payload(after_bytes(q, size, max), last, max);
    }
}

/// A message that is framed in chunks comes out of the decoder as it went in,
/// with one piece for each chunk where the whole of it is fed at once.
pub proof fn law_framed_message(p: Progress, chunks: Seq<Seq<u8>>, max: usize)
    requires
        p.state is ReadingHeader,
        p.segments.len() == 0,
        valid_chunks(chunks),
        chunks.flatten().len() <= max,
    ensures
        after_bytes(p, message_on_wire(chunks), max) == (Progress {
            state: DecoderState::ReadingHeader,
            segments: Seq::empty(),
            open: false,
            messages: p.messages.push(chunks),
            error: p.error,
        }),
{
    lemma_chunks(p, chunks, max);
    lemma_after_concat(p, chunks_on_wire(chunks), seq![0u8, 0u8], max);
    lemma_after_two(after_bytes(p, chunks_on_wire(chunks), max), 0, 0, max);
}

/// Messages that are framed one behind the other come out in their order.
pub proof fn law_framed_messages(messages: Seq<Seq<Seq<u8>>>, max: usize)
    requires
        forall|i: int|
            0 <= i < messages.len() ==> valid_chunks(#[trigger] messages[i])
                && messages[i].flatten().len() <= max,
    ensures
        after_bytes(start(), messages_on_wire(messages), max) == (Progress {
            state: DecoderState::ReadingHeader,
            segments: Seq::empty(),
            open: false,
            messages,
            error: None,
        }),
    decreases messages.len(),
{
    if messages.len() > 0 {
        let front = messages.drop_last();
        law_framed_messages(front, max);
        lemma_after_concat(
            start(),
            messages_on_wire(front),
            message_on_wire(messages.last()),
            max,
        );
        law_framed_message(
            after_bytes(start(), messages_on_wire(front), max),
            messages.last(),
            max,
        );
        assert(front.push(messages.last()) =~= messages);
    }
}

/// Framed messages come out whole and in their order, with no error, however
/// their bytes are cut up over feeds.
pub proof fn law_framed_messages_cut(
    messages: Seq<Seq<Seq<u8>>>,
    parts: Seq<Seq<u8>>,
    max: usize,
)
    requires
        forall|i: int|
            0 <= i < messages.len() ==> valid_chunks(#[trigger] messages[i])
                && messages[i].flatten().len() <= max,
        parts.flatten() == messages_on_wire(messages),
    ensures
        content(after_feeds(start(), parts, max)) == (Content {
            state: DecoderState::ReadingHeader,
            pending: Seq::empty(),
            messages: payloads(messages),
            error: None,
        }),
{
    law_framed_messages(messages, max);
    law_cuts(start(), parts, max);
    assert(Seq::<Seq<u8>>::empty().flatten() =~= Seq::<u8>::empty());
}

/// A message is refused at the header of the first chunk that it cannot take,
/// whatever follows.
pub proof fn law_message_too_large(
    p: Progress,
    chunks: Seq<Seq<u8>>,
    size: u16,
    rest: Seq<u8>,
    max: usize,
)
    requires
        p.state is ReadingHeader,
        p.segments.len() == 0,
        valid_chunks(chunks),
        chunks.flatten().len() <= max,
        size > 0,
        max < chunks.flatten().len() + size,
    ensures
        ({
            let q = after_bytes(
                p,
                chunks_on_wire(chunks) + be_bytes(size as int, 2) + rest,
                max,
            );
            &&& q.state is Defunct
            &&& q.segments.len() == 0
            &&& q.messages == p.messages
            &&& q.error == Some(
                ChunkError::MessageTooLarge {
                    size: if chunks.flatten().len() + size <= usize::MAX {
                        (chunks.flatten().len() + size) as usize
                    } else {
                        usize::MAX
                    },
                    max,
                },
            )
        }),
{
    let header = be_bytes(size as int, 2);
    lemma_chunks(p, chunks, max);
    lemma_size_on_wire(size as int);
    lemma_after_concat(p, chunks_on_wire(chunks) + header, rest, max);
    lemma_after_concat(p, chunks_on_wire(chunks), header, max);
    let q = after_bytes(p, chunks_on_wire(chunks), max);
    lemma_after_two(q, header[0], header[1], max);
    law_defunct(after_bytes(q, header, max), rest, max);
}

/// The messages that are delivered are those that are complete: as many, each with
/// its pieces as they came, unread, and none longer than the limit.
pub proof fn law_delivered(
    messages: Seq<MessageBuf>,
    payloads: Seq<Seq<Seq<u8>>>,
    max: usize,
    i: int,
)
    requires
        delivered(messages, payloads, max),
    ensures
        messages.len() == payloads.len(),
        0 <= i < messages.len() ==> {
            &&& messages[i].wf()
            &&& messages[i].pieces() == payloads[i]
            &&& messages[i].left() == payloads[i].flatten().len()
            &&& messages[i].left() <= max
        },
{
}

/// A message that was delivered can be read to its end, and what is read is its
/// payload. It is so for every limit that leaves room to copy a message.
pub proof fn law_delivered_readable(
    messages: Seq<MessageBuf>,
    payloads: Seq<Seq<Seq<u8>>>,
    max: usize,
    i: int,
)
    requires
        delivered(messages, payloads, max),
        max <= isize::MAX,
        0 <= i < messages.len(),
    ensures
        messages.len() == payloads.len(),
        messages[i].inv(),
        messages[i].pieces() == payloads[i],
        messages[i].left() == payloads[i].flatten().len(),
        messages[i].rest() == payloads[i].flatten(),
{
}

// ---------------------------------------------------------------------------
// The framing, byte by byte
// ---------------------------------------------------------------------------

/// Two bytes that are not both zero announce a chunk of as many bytes as they say,
/// the first being worth 256. As many of those as there are become a piece of the
/// current message, which neither ends nor fails by that. But where the message
/// would grow beyond `max`, it is refused, and what there was of it is dropped.
pub proof fn law_chunk_bytes(p: Progress, hi: u8, lo: u8, part: Seq<u8>, max: usize)
    requires
        p.state is ReadingHeader,
        0 < 256 * hi + lo,
        part.len() <= 256 * hi + lo,
    ensures
        ({
            let n = 256 * hi + lo;
            let held = p.segments.flatten().len();
            let q = after_bytes(p, seq![hi, lo] + part, max);
            &&& q.messages == p.messages
            &&& held + n > max ==> {
                &&& q.state is Defunct
                &&& q.segments.len() == 0
                &&& q.error matches Some(ChunkError::MessageTooLarge { size, max: limit })
                &&& limit == max
                &&& size == if held + n > usize::MAX {
                    usize::MAX as int
                } else {
                    held + n
                }
            }
            &&& held + n <= max ==> {
                &&& q.error == p.error
                &&& part.len() == 0 ==> q.segments == p.segments
                &&& part.len() > 0 ==> q.segments == p.segments.push(part)
                &&& part.len() == n ==> q.state is ReadingHeader
                &&& part.len() < n ==> q.state == DecoderState::ReadingPayload {
                    remaining: (n - part.len()) as u16,
                }
            }
        }),
{
    lemma_after_concat(p, seq![hi, lo], part, max);
    lemma_after_two(p, hi, lo, max);
    let q = after_bytes(p, seq![hi, lo], max);
    if p.segments.flatten().len() + 256 * hi + lo > max {
        law_defunct(q, part, max);
    } else if part.len() > 0 {
        lemma_after_payload(q, part, max);
    }
}

/// Two zero bytes in the place of a header end the message: it is complete, with
/// the pieces that came, and the next one starts with none.
pub proof fn law_end_bytes(p: Progress, max: usize)
    requires
        p.state is ReadingHeader,
    ensures
        ({
            let q = after_bytes(p, seq![0u8, 0u8], max);
            &&& q.state is ReadingHeader
            &&& q.segments.len() == 0
            &&& q.messages == p.messages.push(p.segments)
            &&& q.error == p.error
        }),
{
    lemma_after_two(p, 0, 0, max);
}

/// A header in two deliveries is the same as in one.
pub proof fn law_half_header(p: Progress, hi: u8, data: Seq<u8>, max: usize)
    requires
        p.state is ReadingHeader,
    ensures
        ({
            let q = after_bytes(p, seq![hi], max);
            &&& q.state == DecoderState::ReadingHeaderByte2 { first_byte: hi }
            &&& q.segments == p.segments
            &&& q.messages == p.messages
            &&& q.error == p.error
            &&& after_bytes(q, data, max) == after_bytes(p, seq![hi] + data, max)
        }),
{
    lemma_after_one(p, hi, max);
    lemma_after_concat(p, seq![hi], data, max);
}

/// The rest of a chunk, or a part of it, that comes in a delivery of its own is a
/// piece of its own.
pub proof fn law_rest_of_chunk(p: Progress, part: Seq<u8>, max: usize)
    requires
        p.state is ReadingPayload,
        !p.open,
        0 < part.len() <= p.state->remaining,
    ensures
        ({
            let q = after_bytes(p, part, max);
            &&& q.segments == p.segments.push(part)
            &&& q.messages == p.messages
            &&& q.error == p.error
            &&& part.len() == p.state->remaining ==> q.state is ReadingHeader
            &&& part.len() < p.state->remaining ==> q.state == DecoderState::ReadingPayload {
                remaining: (p.state->remaining - part.len()) as u16,
            }
        }),
{
    lemma_after_payload(p, part, max);
}

/// From one delivery to the next a decoder keeps its place and what it has of the
/// current message. The messages and the error of a delivery go with it.
pub proof fn law_between_feeds(p: Progress)
    ensures
        between_feeds(p).state == p.state,
        between_feeds(p).segments == p.segments,
        !between_feeds(p).open,
        between_feeds(p).messages.len() == 0,
        between_feeds(p).error is None,
{
}

/// A fresh decoder waits for a header and has nothing.
pub proof fn law_start()
    ensures
        start().state is ReadingHeader,
        start().segments.len() == 0,
        !start().open,
        start().messages.len() == 0,
        start().error is None,
{
}

/// Messages that are complete stay so, and so does an error.
proof fn lemma_messages_grow(p: Progress, data: Seq<u8>, max: usize)
    ensures
        p.messages.is_prefix_of(after_bytes(p, data, max).messages),
        p.error is Some ==> after_bytes(p, data, max).error is Some,
    decreases data.len(),
{
    if data.len() > 0 {
        lemma_messages_grow(p, data.drop_last(), max);
    }
}

/// A message comes out with the last byte of its end marker and not before: short
/// of that nothing is complete, and nothing has failed.
pub proof fn law_message_pending(p: Progress, chunks: Seq<Seq<u8>>, k: int, max: usize)
    requires
        p.state is ReadingHeader,
        p.segments.len() == 0,
        p.error is None,
        valid_chunks(chunks),
        chunks.flatten().len() <= max,
        0 <= k < message_on_wire(chunks).len(),
    ensures
        after_bytes(p, message_on_wire(chunks).take(k), max).messages == p.messages,
        after_bytes(p, message_on_wire(chunks).take(k), max).error is None,
{
    let w = message_on_wire(chunks);
    let most = chunks_on_wire(chunks) + seq![0u8];
    lemma_chunks(p, chunks, max);
    lemma_after_concat(p, chunks_on_wire(chunks), seq![0u8], max);
    let q = after_bytes(p, chunks_on_wire(chunks), max);
    lemma_after_one(q, 0, max);
    let x = after_bytes(p, w.take(k), max);
    lemma_messages_grow(p, w.take(k), max);
    assert(w.take(k) + most.skip(k) =~= most);
    lemma_after_concat(p, w.take(k), most.skip(k), max);
    lemma_messages_grow(x, most.skip(k), max);
    assert(x.messages =~= p.messages);
}

/// No byte changes nothing, and bytes in two runs come to the same as in one.
pub proof fn law_bytes_in_turn(p: Progress, a: Seq<u8>, b: Seq<u8>, max: usize)
    ensures
        after_bytes(p, Seq::empty(), max) == p,
        after_bytes(p, a + b, max) == after_bytes(after_bytes(p, a, max), b, max),
{
    lemma_after_concat(p, a, b, max);
}

} // verus!
