use bolt::buf::Buf;
use bolt::protocol::chunking::{ChunkDecoder, ChunkError, MessageBuf};
use bytes::Bytes;

/// Drain a MessageBuf into a Vec<u8> for content assertions.
fn collect(mut buf: MessageBuf) -> Vec<u8> {
    let mut out = Vec::with_capacity(buf.remaining());
    while buf.has_remaining() {
        let c = buf.chunk();
        out.extend_from_slice(c);
        let n = c.len();
        buf.advance(n);
    }
    out
}

/// True iff the storage of `slice` lies within the `len` bytes at `base`.
fn ptr_within(slice: &Bytes, base: usize, len: usize) -> bool {
    let start = slice.as_ptr() as usize;
    start >= base && start < base + len
}

// ---- Basic decoder behavior ----

#[test]
fn decode_empty_message() {
    let mut dec = ChunkDecoder::new();
    let msgs = dec.feed(Bytes::from_static(&[0x00, 0x00])).unwrap();
    assert_eq!(msgs.len(), 1);
    assert_eq!(msgs[0].remaining(), 0);
}

#[test]
fn decode_single_chunk() {
    let mut dec = ChunkDecoder::new();
    let payload = [1, 2, 3, 4, 5];
    let mut data = vec![0x00, 0x05];
    data.extend_from_slice(&payload);
    data.extend_from_slice(&[0x00, 0x00]);
    let msgs = dec.feed(Bytes::from(data)).unwrap();
    assert_eq!(msgs.len(), 1);
    assert_eq!(collect(msgs.into_iter().next().unwrap()), payload.to_vec());
}

#[test]
fn decode_multi_chunk() {
    let mut dec = ChunkDecoder::new();
    let mut data = Vec::new();
    data.extend_from_slice(&[0x00, 0x03, 0xAA, 0xBB, 0xCC]);
    data.extend_from_slice(&[0x00, 0x02, 0xDD, 0xEE]);
    data.extend_from_slice(&[0x00, 0x00]);

    let msgs = dec.feed(Bytes::from(data)).unwrap();
    assert_eq!(msgs.len(), 1);
    assert_eq!(
        collect(msgs.into_iter().next().unwrap()),
        vec![0xAA, 0xBB, 0xCC, 0xDD, 0xEE]
    );
}

#[test]
fn decode_partial_header() {
    let mut dec = ChunkDecoder::new();
    let msgs = dec.feed(Bytes::from_static(&[0x00])).unwrap();
    assert!(msgs.is_empty());

    let mut rest = vec![0x03, 0x01, 0x02, 0x03];
    rest.extend_from_slice(&[0x00, 0x00]);
    let msgs = dec.feed(Bytes::from(rest)).unwrap();
    assert_eq!(msgs.len(), 1);
    assert_eq!(
        collect(msgs.into_iter().next().unwrap()),
        vec![0x01, 0x02, 0x03]
    );
}

#[test]
fn decode_partial_payload() {
    let mut dec = ChunkDecoder::new();
    let msgs = dec
        .feed(Bytes::from_static(&[0x00, 0x05, 0x01, 0x02]))
        .unwrap();
    assert!(msgs.is_empty());
    let msgs = dec
        .feed(Bytes::from_static(&[0x03, 0x04, 0x05, 0x00, 0x00]))
        .unwrap();
    assert_eq!(msgs.len(), 1);
    assert_eq!(
        collect(msgs.into_iter().next().unwrap()),
        vec![0x01, 0x02, 0x03, 0x04, 0x05]
    );
}

#[test]
fn decode_byte_at_a_time() {
    let payload = [0xDE, 0xAD, 0xBE, 0xEF];
    let mut wire = vec![0x00, 0x04];
    wire.extend_from_slice(&payload);
    wire.extend_from_slice(&[0x00, 0x00]);

    let mut dec = ChunkDecoder::new();
    let mut all_msgs = Vec::new();
    for &b in &wire {
        let msgs = dec.feed(Bytes::copy_from_slice(&[b])).unwrap();
        all_msgs.extend(msgs);
    }
    assert_eq!(all_msgs.len(), 1);
    assert_eq!(
        collect(all_msgs.into_iter().next().unwrap()),
        payload.to_vec()
    );
}

#[test]
fn decode_multiple_messages_one_feed() {
    let mut data = Vec::new();
    data.extend_from_slice(&[0x00, 0x02, 0x01, 0x02, 0x00, 0x00]);
    data.extend_from_slice(&[0x00, 0x01, 0x03, 0x00, 0x00]);

    let mut dec = ChunkDecoder::new();
    let msgs = dec.feed(Bytes::from(data)).unwrap();
    assert_eq!(msgs.len(), 2);
    let mut it = msgs.into_iter();
    assert_eq!(collect(it.next().unwrap()), vec![0x01, 0x02]);
    assert_eq!(collect(it.next().unwrap()), vec![0x03]);
}

#[test]
fn decode_no_complete_message() {
    let mut dec = ChunkDecoder::new();
    let msgs = dec
        .feed(Bytes::from_static(&[0x00, 0x05, 0x01, 0x02]))
        .unwrap();
    assert!(msgs.is_empty());
}

#[test]
fn decode_message_too_large() {
    let mut dec = ChunkDecoder::with_max_message_size(10);
    let mut data = vec![0x00, 0x14]; // header: 20
    data.extend_from_slice(&[0x42; 20]);
    data.extend_from_slice(&[0x00, 0x00]);
    let result = dec.feed(Bytes::from(data));
    match result {
        Err(ChunkError::MessageTooLarge { size, max }) => {
            assert_eq!(size, 20);
            assert_eq!(max, 10);
        }
        Err(e) => panic!("expected MessageTooLarge, got error: {e:?}"),
        Ok(_) => panic!("expected MessageTooLarge, got Ok"),
    }
}

#[test]
fn decode_defunct_after_too_large() {
    let mut dec = ChunkDecoder::with_max_message_size(10);
    let result = dec.feed(Bytes::from_static(&[0x00, 0x14]));
    assert!(matches!(result, Err(ChunkError::MessageTooLarge { .. })));
    let result = dec.feed(Bytes::from_static(&[0x00, 0x01, 0x42, 0x00, 0x00]));
    assert!(matches!(result, Err(ChunkError::Defunct)));
}

// ---- Zero-copy verification ----

#[test]
fn decode_single_chunk_is_zero_copy() {
    // Single-chunk message in one feed: the emitted MessageBuf has one
    // segment that is a slice of the input allocation.
    let payload = [0xAA, 0xBB, 0xCC, 0xDD, 0xEE];
    let mut wire = vec![0x00, 0x05];
    wire.extend_from_slice(&payload);
    wire.extend_from_slice(&[0x00, 0x00]);
    let input = Bytes::from(wire);
    let input_ptr = input.as_ptr() as usize;
    let input_len = input.len();

    let mut dec = ChunkDecoder::new();
    let msgs = dec.feed(input).unwrap();
    assert_eq!(msgs.len(), 1);
    assert_eq!(msgs[0].segment_count(), 1);
    assert!(
        ptr_within(&msgs[0].segments()[0], input_ptr, input_len),
        "single chunk must share allocation with input"
    );
}

#[test]
fn decode_multi_chunk_is_zero_copy() {
    // Multi-chunk message: the MessageBuf has N segments, EACH a slice of
    // the input. This is the headline assertion: even multi-chunk
    // messages no longer trigger a copy.
    let mut wire = Vec::new();
    wire.extend_from_slice(&[0x00, 0x03, 0xAA, 0xBB, 0xCC]); // chunk 1
    wire.extend_from_slice(&[0x00, 0x02, 0xDD, 0xEE]); // chunk 2
    wire.extend_from_slice(&[0x00, 0x00]); // terminator
    let input = Bytes::from(wire);
    let input_ptr = input.as_ptr() as usize;
    let input_len = input.len();

    let mut dec = ChunkDecoder::new();
    let msgs = dec.feed(input).unwrap();
    assert_eq!(msgs.len(), 1);
    assert_eq!(msgs[0].segment_count(), 2);
    for seg in msgs[0].segments() {
        assert!(
            ptr_within(seg, input_ptr, input_len),
            "every segment must be a slice of the input allocation"
        );
    }
}

#[test]
fn decode_fragmented_is_zero_copy() {
    // Payload split across two feeds. Each segment must point into
    // *its own* feed's allocation: no inter-buffer copying.
    let feed1 = Bytes::from(vec![0x00, 0x05, 0x01, 0x02]); // header + 2 payload bytes
    let feed1_ptr = feed1.as_ptr() as usize;
    let feed1_len = feed1.len();

    let feed2 = Bytes::from(vec![0x03, 0x04, 0x05, 0x00, 0x00]); // 3 payload + terminator
    let feed2_ptr = feed2.as_ptr() as usize;
    let feed2_len = feed2.len();

    let mut dec = ChunkDecoder::new();
    let msgs = dec.feed(feed1).unwrap();
    assert!(msgs.is_empty());
    let msgs = dec.feed(feed2).unwrap();
    assert_eq!(msgs.len(), 1);
    let segs = msgs[0].segments();
    assert_eq!(segs.len(), 2, "one segment per feed contribution");
    assert!(
        ptr_within(&segs[0], feed1_ptr, feed1_len),
        "first segment must be from feed 1"
    );
    assert!(
        ptr_within(&segs[1], feed2_ptr, feed2_len),
        "second segment must be from feed 2"
    );
}

#[test]
fn decode_multiple_messages_zero_copy() {
    // Two complete single-chunk messages in one feed: each msg
    // has one segment that's a slice of the input.
    let mut wire = Vec::new();
    wire.extend_from_slice(&[0x00, 0x02, 0x01, 0x02, 0x00, 0x00]);
    wire.extend_from_slice(&[0x00, 0x03, 0x0A, 0x0B, 0x0C, 0x00, 0x00]);
    let input = Bytes::from(wire);
    let input_ptr = input.as_ptr() as usize;
    let input_len = input.len();

    let mut dec = ChunkDecoder::new();
    let msgs = dec.feed(input).unwrap();
    assert_eq!(msgs.len(), 2);
    for msg in &msgs {
        assert_eq!(msg.segment_count(), 1);
        assert!(ptr_within(&msg.segments()[0], input_ptr, input_len));
    }
}

#[test]
fn decode_mixed_complete_and_partial() {
    // First message complete in this feed; second one's first chunk
    // begins but doesn't terminate.
    let mut wire = Vec::new();
    wire.extend_from_slice(&[0x00, 0x02, 0x01, 0x02, 0x00, 0x00]); // msg 1
    wire.extend_from_slice(&[0x00, 0x03, 0x0A, 0x0B, 0x0C]); // msg 2 first chunk, no terminator
    let input = Bytes::from(wire);
    let input_ptr = input.as_ptr() as usize;
    let input_len = input.len();

    let mut dec = ChunkDecoder::new();
    let msgs = dec.feed(input).unwrap();
    assert_eq!(msgs.len(), 1);
    assert!(ptr_within(&msgs[0].segments()[0], input_ptr, input_len));

    let msgs = dec
        .feed(Bytes::from_static(&[0x00, 0x02, 0x0D, 0x0E, 0x00, 0x00]))
        .unwrap();
    assert_eq!(msgs.len(), 1);
    assert_eq!(
        collect(msgs.into_iter().next().unwrap()),
        vec![0x0A, 0x0B, 0x0C, 0x0D, 0x0E]
    );
}

// ---- MessageBuf Buf-trait correctness ----

#[test]
fn messagebuf_buf_impl_single_segment() {
    let mut buf = MessageBuf::from_chunks(vec![Bytes::from_static(&[1, 2, 3, 4])]);
    assert_eq!(buf.remaining(), 4);
    assert_eq!(buf.chunk(), &[1, 2, 3, 4]);
    assert_eq!(buf.get_u8(), 1);
    assert_eq!(buf.remaining(), 3);
    assert_eq!(buf.get_u16(), 0x0203);
    assert_eq!(buf.remaining(), 1);
    buf.advance(1);
    assert_eq!(buf.remaining(), 0);
}

#[test]
fn messagebuf_buf_impl_multi_segment_advance() {
    let mut buf = MessageBuf::from_chunks(vec![
        Bytes::from_static(&[1, 2]),
        Bytes::from_static(&[3, 4]),
        Bytes::from_static(&[5, 6]),
    ]);
    assert_eq!(buf.remaining(), 6);
    buf.advance(3); // crosses from segment 1 into 2
    assert_eq!(buf.remaining(), 3);
    assert_eq!(buf.chunk(), &[4]); // mid-segment-2
    buf.advance(1);
    assert_eq!(buf.chunk(), &[5, 6]);
}

#[test]
fn messagebuf_copy_to_bytes_within_segment_is_zero_copy() {
    let original = Bytes::from(vec![10, 20, 30, 40, 50]);
    let ptr = original.as_ptr() as usize;
    let mut buf = MessageBuf::from_chunks(vec![original]);
    let got = buf.copy_to_bytes(3);
    assert_eq!(&got[..], &[10, 20, 30]);
    assert_eq!(got.as_ptr() as usize, ptr);
}

#[test]
fn messagebuf_copy_to_bytes_across_segments_allocates() {
    let mut buf = MessageBuf::from_chunks(vec![
        Bytes::from_static(&[1, 2]),
        Bytes::from_static(&[3, 4]),
    ]);
    let got = buf.copy_to_bytes(3);
    assert_eq!(&got[..], &[1, 2, 3]);
    assert_eq!(buf.remaining(), 1);
    assert_eq!(buf.chunk(), &[4]);
}

#[test]
fn messagebuf_empty_chunks_are_skipped() {
    // Empty segments anywhere in the input (front, middle, trailing) must
    // be filtered out so the invariant `chunk() non-empty iff remaining > 0`
    // holds throughout advance / copy_to_bytes.
    let mut buf = MessageBuf::from_chunks(vec![
        Bytes::new(),
        Bytes::from_static(&[1]),
        Bytes::new(),
        Bytes::from_static(&[2]),
        Bytes::new(),
    ]);
    assert_eq!(buf.remaining(), 2);
    assert_eq!(buf.segment_count(), 2);
    assert_eq!(buf.chunk(), &[1]);
    buf.advance(1);
    // After consuming the first segment, the next must still be non-empty
    // (middle Bytes::new() was filtered at construction).
    assert_eq!(buf.remaining(), 1);
    assert_eq!(buf.chunk(), &[2]);
    buf.advance(1);
    assert_eq!(buf.remaining(), 0);
    assert!(buf.chunk().is_empty());
}

#[test]
fn messagebuf_chunk_non_empty_invariant_during_drain() {
    // While remaining() > 0, chunk() must always return a non-empty slice
    // so loops like `while has_remaining { advance(chunk().len()) }` make
    // forward progress.
    let mut buf = MessageBuf::from_chunks(vec![
        Bytes::from_static(&[1, 2]),
        Bytes::from_static(&[3]),
        Bytes::from_static(&[4, 5, 6]),
    ]);
    let mut steps = 0;
    while buf.has_remaining() {
        let n = buf.chunk().len();
        assert!(n > 0, "chunk() must be non-empty while remaining > 0");
        buf.advance(n);
        steps += 1;
        assert!(steps < 10, "loop is not making progress");
    }
    assert_eq!(buf.remaining(), 0);
}

#[test]
fn messagebuf_copy_to_bytes_zero_on_empty_buf() {
    // copy_to_bytes(0) on a fully-consumed buf must not panic: required
    // for reading empty strings/bytes at end of message.
    let mut buf = MessageBuf::from_chunks(vec![]);
    assert_eq!(buf.remaining(), 0);
    let got = buf.copy_to_bytes(0);
    assert!(got.is_empty());
}

#[test]
fn messagebuf_copy_to_bytes_zero_on_drained_buf() {
    // After draining all bytes, copy_to_bytes(0) still works.
    let mut buf = MessageBuf::from_chunks(vec![Bytes::from_static(&[1, 2, 3])]);
    buf.advance(3);
    assert_eq!(buf.remaining(), 0);
    assert!(buf.copy_to_bytes(0).is_empty());
}

#[test]
fn decode_oversized_chunk_rejected_at_header() {
    // A chunk whose header announces a size > max_message_size is
    // rejected immediately on header parse, before any payload bytes
    // are accepted, and transitions the decoder to Defunct.
    let mut dec = ChunkDecoder::with_max_message_size(100);
    let mut data = vec![0xFF, 0xFF]; // header announces size 65535 > max 100
    data.extend_from_slice(&[0x42; 10]);
    let result = dec.feed(Bytes::from(data));
    assert!(matches!(result, Err(ChunkError::MessageTooLarge { .. })));
    // Subsequent feeds return Defunct.
    let result = dec.feed(Bytes::from_static(&[0x00, 0x01, 0x42, 0x00, 0x00]));
    assert!(matches!(result, Err(ChunkError::Defunct)));
}
