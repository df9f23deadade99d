//! Taking Bolt messages out of their chunks.
//!
//! The decoder accumulates *references* to incoming [`Bytes`], not their
//! contents. Each emitted message is a [`MessageBuf`], a multi-segment [`Buf`]
//! over the payload chunks that comprise the message. No payload byte is ever
//! copied between buffers; segments are reference-counted slices of the buffers
//! that were fed in.
//!
//! A reader walks the segments through [`Buf`]. Variable-length values that fit
//! within a single segment are zero-copy slices; values that straddle segment
//! boundaries trigger a single allocation for just that value.
use std::collections::VecDeque;

use bytes::{Bytes, BytesMut};
use vstd::prelude::*;
use vstd::slice::slice_subrange;
use vstd::string::StringExecFns;

use crate::buf::Buf;
use crate::bytes_spec::{bytes_advance, bytes_content, bytes_mut_content, bytes_mut_made_for};
use crate::protocol::framing;
use crate::protocol::framing::Progress;
use crate::protocol::segments;
use crate::text::{dec, push_dec};

verus! {

/// Default maximum message size the decoder will accept (16 MiB).
pub const DEFAULT_MAX_MESSAGE_SIZE: usize = 16 * 1024 * 1024;

/// Errors that can occur during chunk decoding.
#[derive(Debug, Clone, Copy, PartialEq, Eq, Structural)]
pub enum ChunkError {
    /// The accumulated message exceeded the configured maximum size.
    /// The decoder is now defunct and the connection must be closed.
    MessageTooLarge { size: usize, max: usize },
    /// The decoder is in a defunct state after a previous fatal error.
    /// The connection must be closed and a new decoder created.
    Defunct,
}

impl ChunkError {
    /// The text that describes the error.
    pub open spec fn text(self) -> Seq<char> {
        match self {
            ChunkError::MessageTooLarge { size, max } => "message size "@ + dec(size as nat)
                + " exceeds maximum allowed size "@ + dec(max as nat),
            ChunkError::Defunct => "decoder is defunct after a previous error"@,
        }
    }

    /// Describe the error to a person.
    pub fn message(&self) -> (s: String)
        ensures
            s@ == self.text(),
    {
        let mut s = String::new();
        match self {
            ChunkError::MessageTooLarge { size, max } => {
                s.append("message size ");
                push_dec(&mut s, *size);
                s.append(" exceeds maximum allowed size ");
                push_dec(&mut s, *max);
            },
            ChunkError::Defunct => s.append("decoder is defunct after a previous error"),
        }
        s
    }
}

/// A complete Bolt message's payload, represented as one or more
/// reference-counted [`Bytes`] segments.
///
/// Implements [`Buf`] so the segments can be walked by a reader without
/// materializing them into a contiguous allocation. Each segment is a zero-copy
/// slice of a buffer that was fed to the decoder.
pub struct MessageBuf {
    /// Payload chunks in order. The front element is the current segment.
    /// Empty when the buffer is fully consumed. `VecDeque` gives O(1)
    /// front-removal as segments are drained.
    chunks: VecDeque<Bytes>,
    /// Total bytes remaining across all chunks. Maintained explicitly so
    /// `remaining` is O(1).
    remaining: usize,
}

impl MessageBuf {
    /// The bytes of each segment that has not been read yet.
    pub closed spec fn pieces(&self) -> Seq<Seq<u8>> {
        segments::contents(self.chunks@)
    }

    /// The number of bytes that can still be read.
    pub closed spec fn left(&self) -> nat {
        self.remaining as nat
    }

    /// No segment is empty, and there are as many bytes as can be read.
    pub open spec fn wf(&self) -> bool {
        &&& segments::all_nonempty(self.pieces())
        &&& self.left() <= self.pieces().flatten().len()
        &&& self.left() <= usize::MAX
    }

    /// This is what is left of `before` without its first `n` bytes. Segments that
    /// are used up are gone, and the others are as they were.
    pub open spec fn is_advanced(&self, before: MessageBuf, n: int) -> bool {
        &&& self.wf()
        &&& self.left() == before.left() - n
        &&& self.pieces() == segments::drop_bytes(before.pieces(), n)
    }

    /// Construct from a list of payload segments.
    ///
    /// Empty segments in the input are filtered out: `chunks` never contains an
    /// empty `Bytes`. This keeps `chunk()` non-empty whenever `remaining() > 0`
    /// without needing to re-trim after every pop in `advance`/`copy_to_bytes`.
    pub fn from_chunks(chunks: Vec<Bytes>) -> (m: Self)
        ensures
            m.wf(),
            m.pieces() == segments::nonempty_only(segments::contents(chunks@)),
            m.left() == if m.pieces().flatten().len() <= usize::MAX {
                m.pieces().flatten().len()
            } else {
                usize::MAX as nat
            },
    {
        let ghost all = segments::contents(chunks@);
        let mut filtered: VecDeque<Bytes> = VecDeque::with_capacity(chunks.len());
        let mut remaining: usize = 0;
        proof {
            reveal(Seq::filter);
            assert(all.take(0) =~= Seq::<Seq<u8>>::empty());
            assert(segments::contents(filtered@) =~= segments::nonempty_only(all.take(0)));
        }
        for c in it: chunks
            invariant
                all == segments::contents(chunks@),
                it.seq() == chunks@,
                segments::contents(filtered@) == segments::nonempty_only(all.take(it.index())),
                remaining == if segments::contents(filtered@).flatten().len() <= usize::MAX {
                    segments::contents(filtered@).flatten().len() as int
                } else {
                    usize::MAX as int
                },
        {
            let ghost before = segments::contents(filtered@);
            let ghost i = it.index();
            proof {
                reveal(Seq::filter);
                assert(all.take(i + 1).drop_last() =~= all.take(i));
                assert(all.take(i + 1).last() == bytes_content(c));
                before.lemma_flatten_push(bytes_content(c));
            }
            if !c.is_empty() {
                remaining = remaining.saturating_add(c.len());
                filtered.push_back(c);
                assert(segments::contents(filtered@) =~= before.push(bytes_content(c)));
            }
        }
        proof {
            assert(all.take(all.len() as int) =~= all);
            segments::lemma_nonempty_flatten(all);
        }
        Self { chunks: filtered, remaining }
    }

    /// Number of underlying segments (not bytes).
    pub fn segment_count(&self) -> (n: usize)
        ensures
            n == self.pieces().len(),
    {
        self.chunks.len()
    }

    /// Borrow the underlying segments.
    pub fn segments(&self) -> (v: &VecDeque<Bytes>)
        ensures
            segments::contents(v@) == self.pieces(),
    {
        &self.chunks
    }

    /// Number of bytes that have not been read yet.
    pub fn remaining(&self) -> (n: usize)
        ensures
            n == self.left(),
    {
        self.remaining
    }

    /// The unread bytes of the current segment. Empty only where there is no
    /// segment left.
    pub fn chunk(&self) -> (c: &[u8])
        ensures
            c@ == (if self.pieces().len() == 0 {
                Seq::<u8>::empty()
            } else {
                self.pieces()[0]
            }),
    {
        if self.chunks.len() == 0 {
            &[]
        } else {
            &*self.chunks[0]
        }
    }

    /// Drop the first `cnt` bytes. Segments that are used up are let go.
    pub fn advance(&mut self, cnt: usize)
        requires
            old(self).wf(),
            cnt <= old(self).left(),
        ensures
            final(self).is_advanced(*old(self), cnt as int),
    {
        let ghost p = self.pieces();
        let mut left: usize = cnt;
        self.remaining = self.remaining - cnt;
        while left > 0
            invariant
                segments::all_nonempty(p),
                left <= cnt <= p.flatten().len(),
                self.pieces() == segments::drop_bytes(p, cnt - left),
                self.remaining == old(self).remaining - cnt,
            decreases left,
        {
            proof {
                segments::lemma_drop_bytes(p, cnt - left);
                segments::lemma_drop_bytes_twice(p, cnt - left, left as int);
            }
            let take: usize = self.drop_from_front(left);
            proof {
                segments::lemma_drop_bytes_twice(p, cnt - left, take as int);
            }
            left = left - take;
        }
        proof {
            segments::lemma_drop_bytes(p, cnt as int);
        }
    }

    /// Drop up to `most` bytes, from the first segment only, and tell how many
    /// were dropped.
    fn drop_from_front(&mut self, most: usize) -> (take: usize)
        requires
            segments::all_nonempty(old(self).pieces()),
            0 < most <= old(self).pieces().flatten().len(),
        ensures
            take == if old(self).pieces()[0].len() < most {
                old(self).pieces()[0].len() as int
            } else {
                most as int
            },
            0 < take,
            final(self).remaining == old(self).remaining,
            final(self).pieces() == segments::drop_bytes(old(self).pieces(), take as int),
    {
        let ghost p = self.pieces();
        assert(p.len() > 0);
        let mut first = self.chunks.pop_front().unwrap();
        assert(p.drop_first() =~= segments::contents(self.chunks@));
        let take: usize = if first.len() < most {
            first.len()
        } else {
            most
        };
        bytes_advance(&mut first, take);
        if !first.is_empty() {
            self.chunks.push_front(first);
        }
        assert(self.pieces() =~= segments::drop_bytes(p, take as int)) by {
            reveal_with_fuel(segments::drop_bytes, 2);
        }
        take
    }

    /// Take the first `len` bytes off as a value of their own.
    ///
    /// Zero-copy when they lie in the current segment; one allocation for just
    /// this value when they straddle segments. Either way the message is left as
    /// [`advance`](Self::advance) leaves it.
    pub fn copy_to_bytes(&mut self, len: usize) -> (b: Bytes)
        requires
            old(self).wf(),
            len <= old(self).left(),
            len <= isize::MAX || len <= old(self).pieces()[0].len(),
        ensures
            bytes_content(b) == old(self).pieces().flatten().take(len as int),
            final(self).is_advanced(*old(self), len as int),
    {
        let ghost p = self.pieces();
        proof {
            segments::lemma_drop_bytes(p, len as int);
        }
        if len == 0 {
            assert(p.flatten().take(0) =~= Seq::<u8>::empty());
            return Bytes::new();
        }
        assert(p.len() > 0);
        if self.chunks[0].len() >= len {
            // Zero-copy: split out from the current segment.
            let mut first = self.chunks.pop_front().unwrap();
            assert(p.drop_first() =~= segments::contents(self.chunks@));
            let out = first.split_to(len);
            self.remaining = self.remaining - len;
            if !first.is_empty() {
                self.chunks.push_front(first);
            }
            proof {
                assert(p.flatten().take(len as int) =~= p[0].take(len as int));
                assert(self.pieces() =~= segments::drop_bytes(p, len as int)) by {
                    reveal_with_fuel(segments::drop_bytes, 2);
                }
            }
            out
        } else {
            // The value straddles a segment boundary: one allocation for just
            // this value, not for the whole message.
            let mut acc = BytesMut::with_capacity(len);
            let mut taken: usize = 0;
            assert(p.flatten().take(0) =~= Seq::<u8>::empty());
            while taken < len
                invariant
                    segments::all_nonempty(p),
                    taken <= len <= p.flatten().len(),
                    len <= bytes_mut_made_for(acc),
                    bytes_mut_content(acc) == p.flatten().take(taken as int),
                    self.pieces() == segments::drop_bytes(p, taken as int),
                    self.remaining == old(self).remaining,
                decreases len - taken,
            {
                proof {
                    segments::lemma_drop_bytes(p, taken as int);
                }
                let ghost here = self.pieces();
                assert(here.flatten().len() > 0);
                let first = &self.chunks[0];
                let take: usize = if first.len() < len - taken {
                    first.len()
                } else {
                    len - taken
                };
                acc.extend_from_slice(slice_subrange(&**first, 0, take));
                proof {
                    assert(here[0].subrange(0, take as int) =~= p.flatten().subrange(
                        taken as int,
                        taken + take,
                    ));
                    assert(p.flatten().take(taken + take) =~= p.flatten().take(taken as int)
                        + p.flatten().subrange(taken as int, taken + take));
                    segments::lemma_drop_bytes_twice(p, taken as int, take as int);
                }
                self.drop_from_front(len - taken);
                taken = taken + take;
            }
            self.remaining = self.remaining - len;
            acc.freeze()
        }
    }
}

/// A message that is read to its end: every byte counts, and any part of it can
/// be copied into a buffer of its own.
impl Buf for MessageBuf {
    open spec fn inv(&self) -> bool {
        &&& self.wf()
        &&& self.left() == self.pieces().flatten().len()
        &&& self.left() <= isize::MAX
    }

    open spec fn rest(&self) -> Seq<u8> {
        self.pieces().flatten()
    }

    fn remaining(&self) -> (n: usize) {
        MessageBuf::remaining(self)
    }

    fn chunk(&self) -> (c: &[u8]) {
        proof {
            if self.pieces().len() > 0 {
                assert(self.pieces()[0] =~= self.rest().take(self.pieces()[0].len() as int));
            } else {
                assert(Seq::<u8>::empty() =~= self.rest().take(0));
            }
        }
        MessageBuf::chunk(self)
    }

    fn advance(&mut self, cnt: usize) {
        proof {
            segments::lemma_drop_bytes(self.pieces(), cnt as int);
        }
        MessageBuf::advance(self, cnt)
    }

    fn copy_to_bytes(&mut self, len: usize) -> (b: Bytes) {
        proof {
            segments::lemma_drop_bytes(self.pieces(), len as int);
        }
        MessageBuf::copy_to_bytes(self, len)
    }
}

/// Copying bytes out leaves a message as advancing past them does. What is copied
/// out and what is left make up what was there, and copying nothing changes
/// nothing.
pub proof fn law_copy_as_advance(
    before: MessageBuf,
    copied: MessageBuf,
    advanced: MessageBuf,
    n: int,
)
    requires
        before.wf(),
        0 <= n <= before.left(),
        copied.is_advanced(before, n),
        advanced.is_advanced(before, n),
    ensures
        copied.pieces() == advanced.pieces(),
        copied.left() == advanced.left(),
        copied.left() == before.left() - n,
        copied.pieces().flatten() == before.pieces().flatten().skip(n),
        before.pieces().flatten().take(n) + copied.pieces().flatten() == before.pieces().flatten(),
        n == 0 ==> {
            &&& before.pieces().flatten().take(n).len() == 0
            &&& copied.pieces() == before.pieces()
            &&& copied.left() == before.left()
        },
{
    segments::lemma_drop_bytes(before.pieces(), n);
    let whole = before.pieces().flatten();
    assert(whole.take(n) + whole.skip(n) =~= whole);
}

/// State of the chunk decoder.
#[derive(Debug, Clone, Copy, PartialEq, Eq, Structural)]
pub enum DecoderState {
    /// Waiting for the first byte of the 2-byte chunk size header.
    ReadingHeader,
    /// Have the high byte of the header, waiting for the low byte.
    ReadingHeaderByte2 { first_byte: u8 },
    /// Reading payload bytes; `remaining` bytes still expected.
    ReadingPayload { remaining: u16 },
    /// A fatal error occurred; the decoder is unusable and the connection
    /// must be closed.
    Defunct,
}

/// Accumulates Bolt chunks from the wire and emits complete messages as
/// multi-segment [`MessageBuf`]s.
///
/// TCP can deliver data at arbitrary byte boundaries; the decoder
/// maintains state across multiple [`feed`](Self::feed) calls. **No
/// payload bytes are ever copied**: each emitted segment is a refcounted
/// slice of an input `Bytes`.
pub struct ChunkDecoder {
    /// Payload segments accumulated for the message currently being assembled.
    pending: Vec<Bytes>,
    /// Running total of bytes in `pending`, used for `max_message_size` checks.
    pending_size: usize,
    /// Parser state machine.
    state: DecoderState,
    /// Maximum allowed message size in bytes.
    max_message_size: usize,
}

/// Messages with the payloads `payloads`, unread and none longer than `max`.
pub open spec fn delivered(
    messages: Seq<MessageBuf>,
    payloads: Seq<Seq<Seq<u8>>>,
    max: usize,
) -> bool {
    &&& messages.len() == payloads.len()
    &&& forall|i: int|
        #![trigger messages[i]]
        #![trigger payloads[i]]
        0 <= i < messages.len() ==> {
            &&& messages[i].wf()
            &&& messages[i].pieces() == payloads[i]
            &&& messages[i].left() == payloads[i].flatten().len()
            &&& messages[i].left() <= max
        }
}

impl ChunkDecoder {
    /// How far the decoder has come with the message being assembled. The next
    /// payload byte starts a new segment.
    pub closed spec fn progress(&self) -> Progress {
        Progress {
            state: self.state,
            segments: segments::contents(self.pending@),
            open: false,
            messages: Seq::empty(),
            error: None,
        }
    }

    /// The largest message that is accepted, in bytes.
    pub closed spec fn max(&self) -> usize {
        self.max_message_size
    }

    /// The decoder is in order: what is announced of the current message fits
    /// into [`max`](Self::max).
    pub closed spec fn wf(&self) -> bool {
        &&& framing::sound(self.progress(), self.max())
        &&& self.pending_size == segments::contents(self.pending@).flatten().len()
    }

    /// Create a new decoder with the default max message size (16 MiB).
    pub fn new() -> (d: Self)
        ensures
            d.wf(),
            d.progress() == framing::start(),
            d.max() == DEFAULT_MAX_MESSAGE_SIZE,
    {
        Self::with_max_message_size(DEFAULT_MAX_MESSAGE_SIZE)
    }

    /// Create a new decoder with a custom maximum message size.
    pub fn with_max_message_size(max: usize) -> (d: Self)
        ensures
            d.wf(),
            d.progress() == framing::start(),
            d.max() == max,
    {
        let d = Self {
            pending: Vec::new(),
            pending_size: 0,
            state: DecoderState::ReadingHeader,
            max_message_size: max,
        };
        assert(segments::contents(d.pending@) =~= Seq::<Seq<u8>>::empty());
        d
    }

    /// Feed raw bytes from the wire. Returns any complete de-chunked messages.
    ///
    /// A single `feed` call may return zero, one, or multiple messages
    /// depending on how much data is provided. Returned [`MessageBuf`]s
    /// hold references into `data` (and possibly into prior feed inputs);
    /// the underlying allocations stay alive via reference counting.
    ///
    /// # Errors
    ///
    /// Returns [`ChunkError::MessageTooLarge`] if the accumulated message
    /// exceeds the configured maximum size. The decoder becomes defunct
    /// after this error: the connection must be closed.
    ///
    /// Returns [`ChunkError::Defunct`] if the decoder was already in a
    /// defunct state from a previous error.
    #[verifier::rlimit(30)]
    pub fn feed(&mut self, data: Bytes) -> (r: Result<Vec<MessageBuf>, ChunkError>)
        requires
            old(self).wf(),
        ensures
            final(self).wf(),
            final(self).max() == old(self).max(),
            final(self).progress() == framing::between_feeds(
                framing::after_bytes(old(self).progress(), bytes_content(data), old(self).max()),
            ),
            if old(self).progress().state is Defunct {
                r == Err::<Vec<MessageBuf>, ChunkError>(ChunkError::Defunct)
            } else {
                let p = framing::after_bytes(
                    old(self).progress(),
                    bytes_content(data),
                    old(self).max(),
                );
                match p.error {
                    None => r is Ok && delivered(r->Ok_0@, p.messages, old(self).max()),
                    Some(e) => r == Err::<Vec<MessageBuf>, ChunkError>(e),
                }
            },
    {
        if matches!(self.state, DecoderState::Defunct) {
            proof {
                framing::law_defunct(self.progress(), bytes_content(data), self.max());
            }
            return Err(ChunkError::Defunct);
        }
        let ghost all = bytes_content(data);
        let ghost start = self.progress();
        let mut wire = data;
        let mut messages: Vec<MessageBuf> = Vec::new();
        let ghost mut p = start;
        assert(all.skip(0) =~= all);
        assert(all.take(0) =~= Seq::<u8>::empty());
        while !wire.is_empty()
            invariant
                all == bytes_content(data),
                self.wf(),
                self.max() == old(self).max(),
                start == old(self).progress(),
                start.state !is Defunct,
                self.state !is Defunct,
                bytes_content(wire).len() <= all.len(),
                bytes_content(wire) == all.skip(all.len() - bytes_content(wire).len()),
                p == framing::after_bytes(
                    start,
                    all.take(all.len() - bytes_content(wire).len()),
                    self.max(),
                ),
                p.state == self.state,
                p.segments == segments::contents(self.pending@),
                p.error is None,
                bytes_content(wire).len() > 0 && p.state is ReadingPayload ==> !p.open,
                delivered(messages@, p.messages, self.max()),
            decreases bytes_content(wire).len(),
        {
            let ghost rest = bytes_content(wire);
            let ghost seen = all.len() - rest.len();
            let ghost complete = messages@;
            let ghost q = p;
            match self.state {
                DecoderState::ReadingHeader => {
                    if wire.len() >= 2 {
                        let size: u16 = 256 * (wire[0] as u16) + wire[1] as u16;
                        bytes_advance(&mut wire, 2);
                        proof {
                            framing::lemma_header_at(start, all, seen, self.max());
                            p = framing::after_header(p, size, self.max());
                        }
                        self.handle_header(size, &mut messages)?;
                        proof {
                            if size == 0 {
                                lemma_delivered_push(
                                    complete,
                                    messages@,
                                    q.messages,
                                    q.segments,
                                    self.max(),
                                );
                            }
                        }
                    } else {
                        self.state = DecoderState::ReadingHeaderByte2 { first_byte: wire[0] };
                        bytes_advance(&mut wire, 1);
                        proof {
                            framing::lemma_byte_at(start, all, seen, self.max());
                            p = framing::after_byte(p, rest[0], self.max());
                        }
                    }
                },
                DecoderState::ReadingHeaderByte2 { first_byte } => {
                    let size: u16 = 256 * (first_byte as u16) + wire[0] as u16;
                    bytes_advance(&mut wire, 1);
                    proof {
                        framing::lemma_byte_at(start, all, seen, self.max());
                        p = framing::after_byte(p, rest[0], self.max());
                    }
                    self.handle_header(size, &mut messages)?;
                    proof {
                        if size == 0 {
                            lemma_delivered_push(
                                complete,
                                messages@,
                                q.messages,
                                q.segments,
                                self.max(),
                            );
                        }
                    }
                },
                DecoderState::ReadingPayload { remaining } => {
                    let to_take: usize = if (remaining as usize) < wire.len() {
                        remaining as usize
                    } else {
                        wire.len()
                    };
                    // Zero-copy: split a slice off the front of the input.
                    let segment = wire.split_to(to_take);
                    proof {
                        framing::lemma_payload_at(start, all, seen, to_take as int, self.max());
                        p.segments.lemma_flatten_push(rest.take(to_take as int));
                        p = framing::after_bytes(start, all.take(seen + to_take), self.max());
                    }
                    self.pending.push(segment);
                    assert(segments::contents(self.pending@) =~= p.segments);
                    // `handle_header` has verified that the whole chunk fits
                    // under `max_message_size`.
                    self.pending_size = self.pending_size + to_take;
                    let left: u16 = remaining - to_take as u16;
                    if left == 0 {
                        self.state = DecoderState::ReadingHeader;
                    } else {
                        self.state = DecoderState::ReadingPayload { remaining: left };
                    }
                },
                DecoderState::Defunct => return Err(ChunkError::Defunct),
            }
        }
        assert(all.take(all.len() as int) =~= all);
        Ok(messages)
    }

    /// Process a completed chunk header.
    fn handle_header(&mut self, size: u16, messages: &mut Vec<MessageBuf>) -> (r: Result<
        (),
        ChunkError,
    >)
        requires
            old(self).wf(),
            framing::announced(old(self).progress().state) == 0,
        ensures
            final(self).wf(),
            final(self).max() == old(self).max(),
            final(self).progress() == framing::between_feeds(
                framing::after_header(old(self).progress(), size, old(self).max()),
            ),
            r == (match framing::after_header(old(self).progress(), size, old(self).max()).error {
                None => Ok::<(), ChunkError>(()),
                Some(e) => Err(e),
            }),
            size == 0 ==> final(messages)@.len() == old(messages)@.len() + 1
                && final(messages)@.drop_last() == old(messages)@ && delivered(
                seq![final(messages)@.last()],
                seq![old(self).progress().segments],
                old(self).max(),
            ),
            size != 0 ==> final(messages)@ == old(messages)@,
    {
        if size == 0 {
            // Zero-chunk = end of message. Emit a MessageBuf over the
            // accumulated segments.
            let mut segments: Vec<Bytes> = Vec::new();
            std::mem::swap(&mut segments, &mut self.pending);
            self.pending_size = 0;
            proof {
                segments::lemma_nonempty_only(segments::contents(segments@));
            }
            messages.push(MessageBuf::from_chunks(segments));
            self.state = DecoderState::ReadingHeader;
        } else {
            // Overflow-safe size check on untrusted input. `checked_add`
            // catches the case where `max_message_size` is configured near
            // `usize::MAX` and `pending_size + size` would wrap.
            let fits: bool = match self.pending_size.checked_add(size as usize) {
                Some(new_size) => new_size <= self.max_message_size,
                None => false,
            };
            if !fits {
                // Defunct: the remaining payload bytes would be misinterpreted
                // as headers if we tried to continue. Connection must be closed.
                let reported_size: usize = self.pending_size.saturating_add(size as usize);
                self.pending.clear();
                self.pending_size = 0;
                self.state = DecoderState::Defunct;
                return Err(
                    ChunkError::MessageTooLarge {
                        size: reported_size,
                        max: self.max_message_size,
                    },
                );
            }
            self.state = DecoderState::ReadingPayload { remaining: size };
        }
        Ok(())
    }
}

/// Between feeds a decoder has handed out every complete message and every error,
/// and the next payload byte starts a new segment. It never holds more of a
/// message than it accepts, the announced rest of the current chunk included, and
/// holds nothing once it is defunct.
pub proof fn law_decoder_limit(d: ChunkDecoder)
    requires
        d.wf(),
    ensures
        d.progress() == framing::between_feeds(d.progress()),
        framing::sound(d.progress(), d.max()),
        d.progress().segments.flatten().len() + framing::announced(d.progress().state) <= d.max(),
        d.progress().state is Defunct ==> d.progress().segments.len() == 0,
{
}

/// One more message is delivered.
proof fn lemma_delivered_push(
    before: Seq<MessageBuf>,
    after: Seq<MessageBuf>,
    payloads: Seq<Seq<Seq<u8>>>,
    payload: Seq<Seq<u8>>,
    max: usize,
)
    requires
        delivered(before, payloads, max),
        after.len() == before.len() + 1,
        after.drop_last() == before,
        delivered(seq![after.last()], seq![payload], max),
    ensures
        delivered(after, payloads.push(payload), max),
{
    assert forall|i: int|
        #![trigger after[i]]
        #![trigger payloads.push(payload)[i]]
        0 <= i < after.len() implies {
        &&& after[i].wf()
        &&& after[i].pieces() == payloads.push(payload)[i]
        &&& after[i].left() == payloads.push(payload)[i].flatten().len()
        &&& after[i].left() <= max
    } by {
        if i < before.len() {
            assert(before[i] == after[i]);
        } else {
            assert(seq![after.last()][0] == after[i]);
        }
    }
}

impl Default for ChunkDecoder {
    fn default() -> (d: Self)
        ensures
            d.wf(),
            d.progress() == framing::start(),
            d.max() == DEFAULT_MAX_MESSAGE_SIZE,
    {
        Self::new()
    }
}

/// What the errors say.
pub proof fn law_chunk_error_text(size: usize, max: usize)
    ensures
        (ChunkError::MessageTooLarge { size, max }).text() == "message size "@ + dec(size as nat)
            + " exceeds maximum allowed size "@ + dec(max as nat),
        ChunkError::Defunct.text() == "decoder is defunct after a previous error"@,
{
}

/// A message can be read where its bytes are as many as it counts and no more than
/// an allocation can have, and then all of them are there to be read, each segment
/// behind the one before.
pub proof fn law_message_rest(m: MessageBuf)
    requires
        m.wf(),
    ensures
        m.rest() == m.pieces().flatten(),
        m.inv() <==> m.left() == m.pieces().flatten().len() && m.left() <= isize::MAX,
{
}

} // verus!
