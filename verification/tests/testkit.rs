use rtp_mux::addr::SocketAddr;
use rtp_mux::error::ErrorKind;
use rtp_mux::lane::LaneClass;
use rtp_mux::testkit::fec::{RtpMuxFecCapture, RtpMuxMetricsObservers, SAMPLE_INTERVAL_US};
use rtp_mux::testkit::frames::{latency_us, FrameBuffer, FRAME_BUFFER};
use rtp_mux::testkit::payload::{
    CountedStream, PayloadPatternVerifier, SinkProgress, PAYLOAD_PATTERN_PERIOD,
};
use rtp_mux::testkit::servers::{
    classify_stream, eof_error_tolerated, hands_on, server_step, unspecified_bind, ServerEvent,
    ServerKind, ServerStep, StreamRole, ECHO_TAG, SYNC_BYTES,
};
use rtp_mux::testkit::sink::{SinkStep, TaggedSink};

fn payload(phase: usize, len: usize) -> Vec<u8> {
    (0..len)
        .map(|i| ((phase + i) % PAYLOAD_PATTERN_PERIOD) as u8)
        .collect()
}

#[test]
fn verifier_handles_boundaries_and_does_not_advance_on_corruption() {
    let mut verifier = PayloadPatternVerifier::default();
    assert!(verifier.verify(&[]));

    for len in [1, 249, 251, 252, 64 * 1024 + 257] {
        let expected = payload(verifier.phase(), len);
        assert!(verifier.verify(&expected));
    }

    let phase_before_corruption = verifier.phase();
    let mut corrupt = payload(phase_before_corruption, 64 * 1024 + 1);
    for index in [0, corrupt.len() / 2, corrupt.len() - 1] {
        corrupt[index] ^= 1;
        assert!(!verifier.verify(&corrupt));
        assert_eq!(verifier.phase(), phase_before_corruption);
        corrupt[index] ^= 1;
    }

    assert!(verifier.verify(&corrupt));
}

#[test]
fn a_payload_may_be_cut_into_chunks_anywhere() {
    let whole = payload(0, 1000);
    let mut once = PayloadPatternVerifier::new();
    assert!(once.verify(&whole));
    for cut in [0, 1, 250, 251, 252, 999, 1000] {
        let mut twice = PayloadPatternVerifier::new();
        assert!(twice.verify(&whole[..cut]));
        assert!(twice.verify(&whole[cut..]));
        assert_eq!(twice.phase(), once.phase());
    }
}

#[test]
fn a_corrupt_stream_stops_counting_and_no_other_does() {
    let mut progress = SinkProgress::new();
    let mut a = CountedStream::new();
    let mut b = CountedStream::new();
    a.received(&mut progress, &payload(0, 300));
    b.received(&mut progress, &payload(0, 10));
    assert_eq!(progress, SinkProgress { delivered: 310, corrupt: false });
    a.received(&mut progress, &[9, 9]);
    assert_eq!(progress, SinkProgress { delivered: 310, corrupt: true });
    a.received(&mut progress, &payload(300, 40));
    assert_eq!(progress.delivered, 310, "a stream that has stopped counts nothing");
    b.received(&mut progress, &payload(10, 5));
    let mut c = CountedStream::new();
    c.received(&mut progress, &payload(0, 1));
    assert_eq!(progress, SinkProgress { delivered: 316, corrupt: true });
}

fn frame(payload: &[u8], sent_us: u64) -> Vec<u8> {
    let mut bytes = ((payload.len() + 12) as u32).to_le_bytes().to_vec();
    bytes.extend_from_slice(payload);
    bytes.extend_from_slice(&sent_us.to_le_bytes());
    bytes
}

#[test]
fn frames_are_found_however_they_are_cut() {
    let mut bytes = frame(b"hello", 0x0102_0304_0506_0708);
    bytes.extend(frame(b"", 77));
    for cut in 0..=bytes.len() {
        let mut buffer = FrameBuffer::new();
        buffer.received(&bytes[..cut]);
        let mut found = buffer.take_frames(usize::MAX);
        buffer.received(&bytes[cut..]);
        found.extend(buffer.take_frames(usize::MAX));
        let seen: Vec<(usize, u64)> = found.iter().map(|f| (f.len, f.sent_us)).collect();
        assert_eq!(seen, vec![(17, 0x0102_0304_0506_0708), (12, 77)]);
        assert_eq!(buffer.room(), FRAME_BUFFER);
    }
}

#[test]
fn a_frame_that_is_too_short_blocks_its_stream() {
    let mut buffer = FrameBuffer::new();
    buffer.received(&11u32.to_le_bytes());
    buffer.received(&frame(b"behind", 5));
    assert!(buffer.next_frame().is_none());
    assert!(buffer.take_frames(9).is_empty());
    assert_eq!(buffer.room(), FRAME_BUFFER - 22);
}

#[test]
fn frames_beyond_the_limit_stay_and_can_be_sent_back() {
    let mut buffer = FrameBuffer::new();
    let first = frame(b"a", 1);
    let second = frame(b"b", 2);
    buffer.received(&first);
    buffer.received(&second);
    assert_eq!(buffer.take_frames(1).len(), 1);
    let next = buffer.next_frame().unwrap();
    assert_eq!(next.sent_us, 2);
    assert_eq!(buffer.frame_bytes(&next), second);
    assert_eq!(latency_us(&next, 1_002), 1_000);
    assert_eq!(latency_us(&next, 1), 0);
    buffer.consume(&next);
    assert!(buffer.next_frame().is_none());
}

#[test]
fn streams_are_told_apart_by_tag_server_and_lane() {
    let bulk = ServerKind::DualLane { interactive: false };
    let interactive = ServerKind::DualLane { interactive: true };
    assert_eq!(ECHO_TAG, b'E');
    assert_eq!(classify_stream(bulk, b'E'), StreamRole::Echo);
    assert_eq!(classify_stream(interactive, b'E'), StreamRole::Echo);
    for tag in [b'B', b'L', b'G', b'x'] {
        assert_eq!(classify_stream(bulk, tag), StreamRole::BulkVerified);
        assert_eq!(classify_stream(interactive, tag), StreamRole::Latency);
    }
    assert_eq!(classify_stream(ServerKind::LatencyBulk, b'L'), StreamRole::Latency);
    assert_eq!(classify_stream(ServerKind::LatencyBulk, b'B'), StreamRole::BulkVerified);
    assert_eq!(classify_stream(ServerKind::gaming(), b'G'), StreamRole::SyncThenLatency);
    assert_eq!(classify_stream(ServerKind::gaming(), b'L'), StreamRole::BulkVerified);
    assert_eq!(classify_stream(ServerKind::FrameDelivery, b'B'), StreamRole::BulkCounted);
    assert_eq!(classify_stream(ServerKind::FrameDelivery, b'x'), StreamRole::Latency);
}

#[test]
fn of_the_game_streams_of_a_server_the_first_is_the_game() {
    let mut kind = ServerKind::gaming();
    let roles: Vec<StreamRole> = b"BGLGB".iter().map(|tag| kind.accept(*tag)).collect();
    let bulk = StreamRole::BulkVerified;
    assert_eq!(roles, vec![bulk, StreamRole::SyncThenLatency, bulk, bulk, bulk]);
    let mut lane = ServerKind::DualLane { interactive: true };
    assert_eq!(lane.accept(b'G'), StreamRole::Latency);
    assert_eq!(lane, ServerKind::DualLane { interactive: true });
}

#[test]
fn no_frame_of_a_bulk_lane_stream_is_timed() {
    let mut sink = accept(ServerKind::DualLane { interactive: false }, b'L');
    sink.received(&frame(b"ping", 4));
    assert_eq!(want(&sink), FRAME_BUFFER, "the frame is bytes like any other");
    assert_eq!(sink.delivered(), 0, "and not those of the payload");
}

fn accept(kind: ServerKind, tag: u8) -> TaggedSink {
    let mut kind = kind;
    TaggedSink::accept(&mut kind, tag)
}

fn want(sink: &TaggedSink) -> usize {
    match sink.next() {
        SinkStep::Read { want } => want,
        other => panic!("nothing to read: {other:?}"),
    }
}

#[test]
fn the_sync_of_a_game_stream_is_skipped_to_the_byte() {
    let mut sink = accept(ServerKind::gaming(), b'G');
    assert_eq!(SYNC_BYTES, 3 * 1024 * 1024);
    let mut left = SYNC_BYTES;
    while left > 0 {
        assert_eq!(want(&sink), left.min(FRAME_BUFFER));
        let chunk = left.min(60_000);
        sink.received(&vec![1; chunk]);
        left -= chunk;
    }
    assert_eq!(want(&sink), FRAME_BUFFER);
    sink.received(&frame(b"delta", 6));
    assert!(matches!(sink.next(), SinkStep::Observe { frame } if frame.sent_us == 6));
    let mut short = accept(ServerKind::gaming(), b'G');
    short.ended();
    assert_eq!(want(&short), FRAME_BUFFER, "frames are looked for once more");
    short.ended();
    assert!(matches!(short.next(), SinkStep::Close));
}

#[test]
fn latency_streams_time_frames_and_keep_what_nobody_takes() {
    for mut sink in [
        accept(ServerKind::LatencyBulk, b'L'),
        accept(ServerKind::FrameDelivery, b'L'),
        TaggedSink::messages(),
    ] {
        let bytes = frame(b"ping", 4);
        sink.received(&bytes[..5]);
        assert_eq!(want(&sink), FRAME_BUFFER - 5);
        sink.received(&bytes[5..]);
        assert!(matches!(sink.next(), SinkStep::Observe { .. }));
        sink.observed(false);
        assert_eq!(want(&sink), FRAME_BUFFER - 16, "the frame stays");
        sink.received(&frame(b"", 5));
        assert!(matches!(sink.next(), SinkStep::Observe { frame } if frame.sent_us == 4));
        sink.observed(true);
        assert!(matches!(sink.next(), SinkStep::Observe { frame } if frame.sent_us == 5));
        sink.observed(true);
        sink.ended();
        assert!(matches!(sink.next(), SinkStep::Close));
    }
}

#[test]
fn a_stream_whose_buffer_is_full_without_a_frame_is_closed() {
    let mut sink = TaggedSink::messages();
    sink.received(&(FRAME_BUFFER as u32 + 1).to_le_bytes());
    sink.received(&vec![0; FRAME_BUFFER - 4]);
    assert!(matches!(sink.next(), SinkStep::Close));
}

#[test]
fn echo_streams_send_each_frame_back_once_it_was_timed() {
    let kind = ServerKind::DualLane { interactive: true };
    let mut sink = accept(kind, ECHO_TAG);
    assert_eq!(sink.tag(), b'E');
    let bytes = frame(b"request", 9);
    sink.received(&bytes);
    assert!(matches!(sink.next(), SinkStep::Observe { .. }));
    sink.observed(true);
    match sink.next() {
        SinkStep::Echo { bytes: back, .. } => assert_eq!(back, bytes),
        other => panic!("{other:?}"),
    }
    sink.echoed(true);
    assert_eq!(want(&sink), FRAME_BUFFER);
    sink.received(&bytes);
    sink.observed(false);
    assert!(matches!(sink.next(), SinkStep::Close));
    let mut broken = accept(kind, ECHO_TAG);
    broken.received(&bytes);
    broken.observed(true);
    broken.echoed(false);
    assert!(matches!(broken.next(), SinkStep::Close));
}

#[test]
fn bulk_streams_count_what_they_deliver() {
    let mut verified = accept(ServerKind::LatencyBulk, b'B');
    verified.received(&payload(0, 100));
    verified.received(&[255]);
    verified.received(&payload(100, 5));
    assert_eq!(verified.delivered(), 105);
    let mut counted = accept(ServerKind::FrameDelivery, b'B');
    counted.received(&[255; 7]);
    assert_eq!(counted.delivered(), 7);
    assert_eq!(want(&counted), FRAME_BUFFER);
}

#[test]
fn a_server_drains_when_its_session_ends_and_fails_when_its_drainer_does() {
    assert_eq!(server_step(ServerEvent::StreamAccepted), ServerStep::Serve);
    assert_eq!(server_step(ServerEvent::HandlerEnded), ServerStep::Continue);
    assert_eq!(server_step(ServerEvent::SessionEnded), ServerStep::Drain { record: true });
    assert_eq!(server_step(ServerEvent::AcceptFailed), ServerStep::Drain { record: false });
    assert_eq!(server_step(ServerEvent::SupervisorEnded), ServerStep::Drain { record: false });
    assert_eq!(server_step(ServerEvent::DrainerEnded), ServerStep::Fail);
    assert!(hands_on(true, 0) && hands_on(false, 1) && !hands_on(false, 0));
    assert!(eof_error_tolerated(ErrorKind::BrokenPipe));
    assert!(!eof_error_tolerated(ErrorKind::ConnectionReset));
}

#[test]
fn connections_are_bound_anywhere_in_their_family() {
    let v4 = unspecified_bind(SocketAddr::V4 { ip: 5, port: 6 });
    assert_eq!(v4, SocketAddr::V4 { ip: 0, port: 0 });
    let v6 = unspecified_bind(SocketAddr::V6 { ip: 5, port: 6, flowinfo: 7, scope_id: 8 });
    assert_eq!(v6, SocketAddr::V6 { ip: 0, port: 0, flowinfo: 0, scope_id: 0 });
}

#[test]
fn a_clone_of_a_capture_reports_the_same_evidence() {
    let mut capture: RtpMuxFecCapture<u32> = RtpMuxFecCapture::default();
    assert!(!capture.interactive().observed && !capture.bulk().observed);
    capture.observe(LaneClass::Bulk, Some(Some(9)));
    let clone = capture.clone();
    assert!(!clone.interactive().observed);
    assert!(clone.bulk().observed);
    assert_eq!(clone.bulk().counters, Some(9));
}

#[test]
fn evidence_is_sampled_at_most_every_interval() {
    let mut capture: RtpMuxFecCapture<u32> = RtpMuxFecCapture::new();
    let observers: RtpMuxMetricsObservers<_> = capture.observers();
    let mut interactive = observers.interactive.unwrap();
    assert_eq!(observers.bulk.unwrap().lane, LaneClass::Bulk);
    assert!(interactive.sample(1_000));
    assert!(!interactive.sample(1_000 + SAMPLE_INTERVAL_US - 1));
    assert!(interactive.sample(1_000 + SAMPLE_INTERVAL_US));
    capture.observe(interactive.lane, None);
    assert!(!capture.interactive().observed);
    capture.observe(interactive.lane, Some(Some(4)));
    assert!(capture.interactive().observed);
    assert_eq!(capture.interactive().counters, Some(4));
    assert!(!capture.bulk().observed);
    capture.observe(LaneClass::Bulk, Some(None));
    assert!(capture.bulk().observed);
    assert_eq!(capture.bulk().counters, None);
}
