use rtp_mux::byte_count::{HumanBytes, Rate, SessionByteCounters, SessionStats, Unit};
use rtp_mux::error::{ErrorKind, IoError};
use rtp_mux::poll::Poll;

const READ: Poll<Result<(), IoError>> = Poll::Ready(Ok(()));

fn wrote(n: usize) -> Poll<Result<usize, IoError>> {
    Poll::Ready(Ok(n))
}

struct LimitedWriter {
    budget: usize,
}

impl LimitedWriter {
    fn poll_write(&mut self, buf: &[u8]) -> Poll<Result<usize, IoError>> {
        let written = buf.len().min(self.budget);
        self.budget -= written;
        Poll::Ready(Ok(written))
    }

    fn poll_write_vectored(&mut self, bufs: &[&[u8]]) -> Poll<Result<usize, IoError>> {
        let mut written = 0;
        for buf in bufs {
            let n = buf.len().min(self.budget - written);
            written += n;
            if written == self.budget {
                break;
            }
        }
        self.budget -= written;
        Poll::Ready(Ok(written))
    }

    fn is_write_vectored(&self) -> bool {
        false
    }
}

struct VectoredOnly;

impl VectoredOnly {
    fn poll_write_vectored(&mut self, bufs: &[&[u8]]) -> Poll<Result<usize, IoError>> {
        Poll::Ready(Ok(bufs.iter().map(|buf| buf.len()).sum()))
    }

    fn is_write_vectored(&self) -> bool {
        true
    }
}

#[test]
fn a_partial_write_counts_only_the_bytes_the_writer_accepted() {
    let mut traffic = SessionByteCounters::default();
    let mut inner = LimitedWriter { budget: 3 };
    let writer = SessionByteCounters::count_write(inner.is_write_vectored());
    let payload = [0u8; 8];
    let polled = writer.write_polled(&mut traffic, inner.poll_write(&payload));
    assert!(matches!(polled, Poll::Ready(Ok(3))), "the writer accepted 3 of 8 bytes");
    assert_eq!(traffic.tx_bytes(), 3);
    assert_eq!(traffic.rx_bytes(), 0);
}

#[test]
fn a_partial_vectored_write_counts_only_the_bytes_the_writer_accepted() {
    let mut traffic = SessionByteCounters::default();
    let mut inner = LimitedWriter { budget: 5 };
    let writer = SessionByteCounters::count_write(inner.is_write_vectored());
    let bufs: [&[u8]; 3] = [b"aaa", b"bbb", b"ccc"];
    let polled = writer.write_polled(&mut traffic, inner.poll_write_vectored(&bufs));
    assert!(matches!(polled, Poll::Ready(Ok(5))), "the writer accepted 5 of 9 vectored bytes");
    assert_eq!(traffic.tx_bytes(), 5);
}

#[test]
fn a_non_vectored_writer_does_not_claim_the_capability_through_the_wrapper() {
    let inner = LimitedWriter { budget: 0 };
    let writer = SessionByteCounters::count_write(inner.is_write_vectored());
    assert!(!writer.is_write_vectored());
}

#[test]
fn counting_a_vectored_writer_keeps_it_vectored() {
    let mut traffic = SessionByteCounters::default();
    let mut inner = VectoredOnly;
    let writer = SessionByteCounters::count_write(inner.is_write_vectored());
    assert!(writer.is_write_vectored(), "the wrapper hid the capability");
    let bufs: [&[u8]; 2] = [b"header", b"payload"];
    let polled = writer.write_polled(&mut traffic, inner.poll_write_vectored(&bufs));
    assert!(matches!(polled, Poll::Ready(Ok(13))));
    assert_eq!(traffic.tx_bytes(), 13);
}

#[test]
fn a_read_counts_only_the_bytes_the_read_filled_not_the_whole_buffer() {
    let mut traffic = SessionByteCounters::default();
    let reader = SessionByteCounters::count_read();
    reader.read_polled(&mut traffic, READ, 3, 8);
    assert_eq!(traffic.rx_bytes(), 5);
    assert_eq!(traffic.tx_bytes(), 0);
}

#[test]
fn a_counted_half_tallies_only_the_bytes_it_moved() {
    let mut traffic = SessionByteCounters::default();
    let reader = SessionByteCounters::count_read();
    let writer = SessionByteCounters::count_write(false);
    writer.write_polled(&mut traffic, wrote(5));
    assert_eq!(traffic.tx_bytes(), 5);
    assert_eq!(traffic.rx_bytes(), 0, "a write must not count as received");
    reader.read_polled(&mut traffic, READ, 0, 2);
    assert_eq!(traffic.rx_bytes(), 2);
    assert_eq!(traffic.tx_bytes(), 5, "a read must not count as sent");
}

#[test]
fn what_is_pending_or_failed_counts_nothing_and_is_handed_on() {
    let mut traffic = SessionByteCounters::new();
    let reader = SessionByteCounters::count_read();
    let writer = SessionByteCounters::count_write(true);
    let pending: Poll<Result<usize, IoError>> = Poll::Pending;
    assert!(matches!(writer.write_polled(&mut traffic, pending), Poll::Pending));
    let gone = Poll::Ready(Err(IoError::new(ErrorKind::BrokenPipe, "gone")));
    match writer.write_polled(&mut traffic, gone) {
        Poll::Ready(Err(error)) => assert_eq!(error.message, "gone"),
        other => panic!("{other:?}"),
    }
    let pending: Poll<Result<(), IoError>> = Poll::Pending;
    assert!(matches!(reader.read_polled(&mut traffic, pending, 0, 9), Poll::Pending));
    assert!(matches!(reader.read_polled(&mut traffic, READ, 9, 3), Poll::Ready(Ok(()))));
    assert_eq!((traffic.tx_bytes(), traffic.rx_bytes()), (0, 0));
}

#[test]
fn each_counter_is_the_sum_of_its_own_direction_whatever_the_order() {
    let mut traffic = SessionByteCounters::new();
    let reader = SessionByteCounters::count_read();
    let writer = SessionByteCounters::count_write(false);
    for n in [7, 0, 5] {
        assert!(matches!(writer.write_polled(&mut traffic, wrote(n)), Poll::Ready(Ok(m)) if m == n));
        reader.read_polled(&mut traffic, READ, n, n + 2);
    }
    assert_eq!((traffic.tx_bytes(), traffic.rx_bytes()), (12, 6));
}

fn per_sec(rate: Rate) -> f64 {
    match rate {
        Rate::Zero => 0.0,
        Rate::Over { bytes, nanos } => bytes as f64 / (nanos as f64 / 1e9),
    }
}

fn human(bytes: f64) -> HumanBytes {
    let unit = Unit::of(bytes as u128);
    let scaled = bytes / unit.bytes() as f64;
    HumanBytes { numeral: format!("{:.*}", unit.decimals(), scaled), unit }
}

fn show(stats: &SessionStats) -> String {
    let up = format!("{:.1}", stats.uptime as f64 / 1e9);
    stats.render(
        &human(stats.tx_bytes as f64),
        &human(per_sec(stats.tx_rate())),
        &human(stats.rx_bytes as f64),
        &human(per_sec(stats.rx_rate())),
        &up,
    )
}

#[test]
fn a_rate_over_no_time_is_zero_rather_than_infinite() {
    let stats = SessionStats {
        live_streams: 1,
        opened_streams: 2,
        tx_bytes: 1024,
        rx_bytes: 512,
        uptime: 0,
    };
    assert_eq!(stats.tx_rate(), Rate::Zero);
    assert_eq!(per_sec(stats.tx_rate()), 0.0);
    assert_eq!(per_sec(stats.rx_rate()), 0.0);
    let running = SessionStats { uptime: 2_000_000_000, ..stats };
    assert_eq!(per_sec(running.tx_rate()), 512.0);
    assert_eq!(per_sec(running.rx_rate()), 256.0);
}

#[test]
fn stats_render_both_stream_counts_and_a_scaled_rate() {
    let stats = SessionStats {
        live_streams: 3,
        opened_streams: 9,
        tx_bytes: 2 * 1024 * 1024,
        rx_bytes: 512,
        uptime: 4_000_000_000,
    };
    assert_eq!(
        show(&stats),
        "streams=3 live/9 opened, tx=2.0MiB (512.0KiB/s), rx=512B (128B/s), up=4.0s"
    );
}

#[test]
fn units_change_at_their_boundaries_and_end_with_the_greatest() {
    assert_eq!(Unit::of(0), Unit::B);
    assert_eq!(Unit::of(1023), Unit::B);
    assert_eq!(Unit::of(1024), Unit::KiB);
    assert_eq!(Unit::of(1024 * 1024 - 1), Unit::KiB);
    assert_eq!(Unit::of(1024 * 1024), Unit::MiB);
    assert_eq!(Unit::of(1 << 30), Unit::GiB);
    assert_eq!(Unit::of(1 << 40), Unit::TiB);
    assert_eq!(Unit::of(1 << 60), Unit::TiB);
    assert_eq!(human((1u64 << 60) as f64).numeral, "1048576.0");
}
