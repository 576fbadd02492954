use rtp_mux::error::{ErrorKind, IoError};
use rtp_mux::migrating_write_half::{
    BackgroundWriteError, BackgroundWriter, ControlKind, FlushStart, MigratingWriteHalf,
    RebindSlot, Reply, ShutdownStep, Slot, Timed, WriteCommand, WriteStart, WriterStep,
    WRITE_MAX_CHUNK, WRITE_QUEUE_CAPACITY,
};
use rtp_mux::poll::Poll;
use tokio::sync::mpsc;

type Background = Option<BackgroundWriteError>;

fn no_reply() -> Poll<Reply> {
    Poll::Pending
}

fn answered(result: Result<(), &str>) -> Poll<Reply> {
    Poll::Ready(Reply::Answered(result.map_err(BackgroundWriteError::from_debug)))
}

/// A write half over a real bounded queue, without a background writer.
struct Half {
    half: MigratingWriteHalf,
    queue: mpsc::Sender<Vec<u8>>,
    background: Background,
}

impl Half {
    fn new() -> (Self, mpsc::Receiver<Vec<u8>>) {
        let (queue, receiver) = mpsc::channel(WRITE_QUEUE_CAPACITY);
        (Half { half: MigratingWriteHalf::new(), queue, background: None }, receiver)
    }

    fn poll_write_vectored(&mut self, bufs: &[&[u8]]) -> Poll<Result<usize, IoError>> {
        match self.half.start_write(no_reply(), &self.background) {
            WriteStart::Done(result) => result,
            WriteStart::Reserve => match self.queue.try_reserve() {
                Ok(permit) => {
                    let staged =
                        MigratingWriteHalf::stage_write(Poll::Ready(Slot::Reserved), bufs);
                    if let Some(data) = staged.data {
                        permit.send(data);
                    }
                    staged.result
                }
                Err(mpsc::error::TrySendError::Full(())) => {
                    MigratingWriteHalf::stage_write(Poll::Pending, bufs).result
                }
                Err(mpsc::error::TrySendError::Closed(())) => {
                    MigratingWriteHalf::stage_write(Poll::Ready(Slot::Closed), bufs).result
                }
            },
        }
    }

    fn poll_write(&mut self, buf: &[u8]) -> Poll<Result<usize, IoError>> {
        self.poll_write_vectored(&[buf])
    }
}

fn written(polled: Poll<Result<usize, IoError>>) -> usize {
    match polled {
        Poll::Ready(Ok(n)) => n,
        other => panic!("not written: {other:?}"),
    }
}

fn refused<T: std::fmt::Debug>(polled: Poll<Result<T, IoError>>) -> (ErrorKind, String) {
    match polled {
        Poll::Ready(Err(error)) => (error.kind(), error.message),
        other => panic!("not refused: {other:?}"),
    }
}

#[test]
fn a_single_poll_write_accepts_exactly_the_max_chunk() {
    let (mut half, _queue) = Half::new();
    assert_eq!(WRITE_MAX_CHUNK, 64 * 1024);
    let payload = vec![0x5Au8; 3 * WRITE_MAX_CHUNK];
    let mut accepted = 0;
    for staged in 0..3 {
        let n = written(half.poll_write(&payload[accepted..]));
        assert_eq!(n, 64 * 1024, "command {staged}");
        accepted += n;
    }
    assert_eq!(accepted, payload.len());
}

#[test]
fn a_write_larger_than_the_chunk_cap_reaches_the_peer_byte_for_byte() {
    let (mut half, mut queue) = Half::new();
    let payload: Vec<u8> = (0..(2 * WRITE_MAX_CHUNK + 7)).map(|index| (index % 251) as u8).collect();
    let mut accepted = 0;
    while accepted < payload.len() {
        accepted += written(half.poll_write(&payload[accepted..]));
    }
    let mut received = Vec::new();
    while let Ok(chunk) = queue.try_recv() {
        assert!(chunk.len() <= WRITE_MAX_CHUNK);
        received.extend(chunk);
    }
    assert_eq!(received, payload);
}

#[test]
fn the_write_queue_stages_exactly_its_depth_and_zero_byte_writes_are_free() {
    let (mut half, _queue) = Half::new();
    assert_eq!(WRITE_QUEUE_CAPACITY, 8);
    for _ in 0..(2 * WRITE_QUEUE_CAPACITY) {
        assert_eq!(written(half.poll_write(&[])), 0);
    }
    let chunk = vec![0x11u8; WRITE_MAX_CHUNK];
    for _ in 0..WRITE_QUEUE_CAPACITY {
        assert_eq!(written(half.poll_write(&chunk)), WRITE_MAX_CHUNK);
    }
    assert!(matches!(half.poll_write(&chunk), Poll::Pending));
}

#[test]
fn several_buffers_are_gathered_into_one_command() {
    let (mut half, mut queue) = Half::new();
    assert_eq!(written(half.poll_write_vectored(&[b"ab", b"", b"cde"])), 5);
    assert_eq!(queue.try_recv().unwrap(), b"abcde");
    let big = vec![1u8; WRITE_MAX_CHUNK - 1];
    assert_eq!(written(half.poll_write_vectored(&[&big, b"xyz"])), WRITE_MAX_CHUNK);
    let staged = queue.try_recv().unwrap();
    assert_eq!(staged.len(), WRITE_MAX_CHUNK);
    assert_eq!(staged[WRITE_MAX_CHUNK - 1], b'x');
    drop(queue);
    assert_eq!(
        refused(half.poll_write(b"late")),
        (ErrorKind::BrokenPipe, "write channel closed".to_string())
    );
}

fn shut_down(half: &mut MigratingWriteHalf, result: Result<(), &str>) -> Poll<Result<(), IoError>> {
    assert!(matches!(half.start_shutdown(&None), ShutdownStep::Reserve));
    assert!(matches!(half.shutdown_slot(Poll::Ready(Slot::Reserved)), ShutdownStep::Send));
    assert!(matches!(half.shutdown_sent(true), ShutdownStep::AwaitReply));
    assert!(matches!(
        half.shutdown_reply(no_reply(), &None),
        ShutdownStep::Done(Poll::Pending)
    ));
    assert!(matches!(half.start_shutdown(&None), ShutdownStep::AwaitReply));
    assert!(matches!(half.shutdown_reply(answered(result), &None), ShutdownStep::Join));
    assert!(half.channel_closed());
    assert!(matches!(half.shutdown_joined(Poll::Ready(true)), ShutdownStep::Join));
    assert!(matches!(
        half.shutdown_joined(Poll::Pending),
        ShutdownStep::Done(Poll::Pending)
    ));
    match half.shutdown_joined(Poll::Ready(false)) {
        ShutdownStep::Done(result) => result,
        other => panic!("not done: {other:?}"),
    }
}

#[test]
fn shutdown_drains_the_background_writer() {
    let mut half = MigratingWriteHalf::new();
    assert!(matches!(shut_down(&mut half, Ok(())), Poll::Ready(Ok(()))));
}

#[test]
fn shutdown_is_idempotent() {
    let mut half = MigratingWriteHalf::new();
    assert!(matches!(shut_down(&mut half, Ok(())), Poll::Ready(Ok(()))));
    for _ in 0..2 {
        assert!(matches!(
            half.start_shutdown(&None),
            ShutdownStep::Done(Poll::Ready(Ok(())))
        ));
    }
}

#[test]
fn a_flush_does_not_close_the_write_half() {
    let mut half = MigratingWriteHalf::new();
    assert!(matches!(half.start_flush(no_reply(), &None), FlushStart::Reserve));
    let staged = half.stage_flush(Poll::Ready(Slot::Reserved));
    assert!(staged.send && matches!(staged.result, Poll::Pending));
    assert_eq!(half.pending_control(), Some(ControlKind::Flush));
    assert!(matches!(
        half.start_flush(no_reply(), &None),
        FlushStart::Done(Poll::Pending)
    ));
    assert!(matches!(
        half.start_flush(answered(Ok(())), &None),
        FlushStart::Done(Poll::Ready(Ok(())))
    ));
    assert_eq!(half.pending_control(), None);
    assert!(matches!(half.start_write(no_reply(), &None), WriteStart::Reserve));
}

#[test]
fn a_failed_flush_reports_its_error_and_a_lost_reply_that_of_the_writer() {
    let mut half = MigratingWriteHalf::new();
    half.stage_flush(Poll::Ready(Slot::Reserved));
    match half.start_flush(answered(Err("LaneDead")), &None) {
        FlushStart::Done(result) => {
            assert_eq!(refused(result), (ErrorKind::BrokenPipe, "LaneDead".to_string()))
        }
        other => panic!("{other:?}"),
    }
    half.stage_flush(Poll::Ready(Slot::Reserved));
    match half.start_write(Poll::Ready(Reply::Lost), &None) {
        WriteStart::Done(result) => assert_eq!(
            refused(result),
            (ErrorKind::BrokenPipe, "RTP mux background writer stopped".to_string())
        ),
        other => panic!("{other:?}"),
    }
    let background = Some(BackgroundWriteError::from_debug("why"));
    half.stage_flush(Poll::Ready(Slot::Reserved));
    match half.start_write(Poll::Ready(Reply::Lost), &background) {
        WriteStart::Done(result) => {
            assert_eq!(refused(result), (ErrorKind::BrokenPipe, "why".to_string()))
        }
        other => panic!("{other:?}"),
    }
    assert!(half.stage_flush(Poll::Ready(Slot::Closed)).result.is_closed_flush());
}

trait ClosedFlush {
    fn is_closed_flush(self) -> bool;
}

impl ClosedFlush for Poll<Result<(), IoError>> {
    fn is_closed_flush(self) -> bool {
        refused(self) == (ErrorKind::BrokenPipe, "write channel closed".to_string())
    }
}

#[test]
fn nothing_is_written_after_a_shutdown_or_a_failure_of_the_writer() {
    let mut half = MigratingWriteHalf::new();
    let background = Some(BackgroundWriteError::from_debug("lane down"));
    match half.start_write(no_reply(), &background) {
        WriteStart::Done(result) => {
            assert_eq!(refused(result), (ErrorKind::BrokenPipe, "lane down".to_string()))
        }
        other => panic!("{other:?}"),
    }
    let _ = shut_down(&mut half, Ok(()));
    match half.start_write(no_reply(), &background) {
        WriteStart::Done(result) => {
            assert_eq!(refused(result), (ErrorKind::BrokenPipe, "stream shut down".to_string()))
        }
        other => panic!("{other:?}"),
    }
    match half.start_flush(no_reply(), &None) {
        FlushStart::Done(result) => {
            assert_eq!(refused(result), (ErrorKind::BrokenPipe, "stream shut down".to_string()))
        }
        other => panic!("{other:?}"),
    }
}

#[test]
fn a_shutdown_of_a_failed_or_closed_half_reports_why() {
    let mut failed = MigratingWriteHalf::new();
    let background = Some(BackgroundWriteError::from_debug("lane down"));
    assert!(matches!(failed.start_shutdown(&background), ShutdownStep::Join));
    match failed.shutdown_joined(Poll::Ready(false)) {
        ShutdownStep::Done(result) => {
            assert_eq!(refused(result), (ErrorKind::BrokenPipe, "lane down".to_string()))
        }
        other => panic!("{other:?}"),
    }
    for sent in [false, true] {
        let mut closed = MigratingWriteHalf::new();
        assert!(matches!(closed.start_shutdown(&None), ShutdownStep::Reserve));
        if sent {
            closed.shutdown_slot(Poll::Ready(Slot::Reserved));
            assert!(matches!(closed.shutdown_sent(false), ShutdownStep::Join));
        } else {
            assert!(matches!(
                closed.shutdown_slot(Poll::Ready(Slot::Closed)),
                ShutdownStep::Join
            ));
        }
        match closed.shutdown_joined(Poll::Ready(false)) {
            ShutdownStep::Done(result) => assert_eq!(
                refused(result),
                (ErrorKind::BrokenPipe, "write channel closed during shutdown".to_string())
            ),
            other => panic!("{other:?}"),
        }
    }
}

fn finalize(result: Timed) -> Result<(), String> {
    let writer = BackgroundWriter::new();
    let mut background = None;
    let step: WriterStep<u8, u32> = writer.finalized(7, result, &mut background);
    match step {
        WriterStep::Answer { reply, result, stop } => {
            assert_eq!(reply, 7);
            assert!(stop);
            assert_eq!(background.is_some(), result.is_err());
            let mut half = MigratingWriteHalf::new();
            let answer: Result<(), String> = result.map_err(|error| error.message);
            match shut_down(&mut half, answer.as_ref().map(|_| ()).map_err(|m| m.as_str())) {
                Poll::Ready(Ok(())) => Ok(()),
                Poll::Ready(Err(error)) => {
                    assert_eq!(error.kind(), ErrorKind::BrokenPipe);
                    Err(error.message)
                }
                Poll::Pending => panic!("the shutdown is over"),
            }
        }
        other => panic!("{other:?}"),
    }
}

#[test]
fn a_stalled_finalize_makes_shutdown_report_the_timeout_error() {
    let error = finalize(Timed::TimedOut).expect_err("the finalize did not end in time");
    assert!(error.contains("shutdown finalize timed out"), "{error}");
    assert_eq!(error, format!("{:?}", "shutdown finalize timed out"));
}

#[test]
fn a_finalize_that_returns_inside_the_budget_reports_success() {
    assert!(finalize(Timed::Finished(Ok(()))).is_ok());
}

#[test]
fn a_failed_finalize_makes_shutdown_report_the_finalize_error() {
    let failed = Timed::Finished(Err(BackgroundWriteError::from_debug("LaneDead")));
    let error = finalize(failed).expect_err("the finalize failed");
    assert!(error.contains("LaneDead") && !error.contains("timed out"), "{error}");
}

#[test]
fn the_background_writer_moves_flushes_and_ends_as_it_is_told() {
    let mut writer = BackgroundWriter::new();
    let mut background: Background = None;
    let mut slot = RebindSlot::detached();
    type Step = WriterStep<u8, u32>;
    let step: Step = writer.select();
    assert!(matches!(step, WriterStep::Select { wake: true }));
    let step: Step = writer.woken(true, &mut slot);
    assert!(matches!(step, WriterStep::Select { wake: true }), "there is nowhere to move");
    slot.rebind(3, true, false);
    let step: Step = writer.woken(true, &mut slot);
    assert!(matches!(step, WriterStep::Rebind(3)));
    let step: Step = writer.rebound(Ok(()), &mut background);
    assert!(matches!(step, WriterStep::Select { wake: true }));
    let step: Step = writer.woken(false, &mut slot);
    assert!(matches!(step, WriterStep::Select { wake: false }));
    let step: Step = writer.command(Some(WriteCommand::Data(vec![1, 2])));
    assert!(matches!(step, WriterStep::Write(bytes) if bytes == [1, 2]));
    let step: Step = writer.written(Ok(()), &mut background);
    assert!(matches!(step, WriterStep::Select { wake: false }));
    let step: Step = writer.command(Some(WriteCommand::Flush(8)));
    assert!(matches!(step, WriterStep::Flush(8)));
    let step: Step = writer.flushed(8, Ok(()), &mut background);
    assert!(matches!(step, WriterStep::Answer { reply: 8, result: Ok(()), stop: false }));
    let step: Step = writer.command(Some(WriteCommand::Shutdown(9)));
    assert!(matches!(step, WriterStep::Finalize(9)));
    let step: Step = writer.command(None);
    assert!(matches!(step, WriterStep::FinalizeAndStop));
    assert!(background.is_none());
    let failure = || Err(BackgroundWriteError::from_debug("down"));
    let step: Step = writer.flushed(8, failure(), &mut background);
    assert!(matches!(step, WriterStep::Answer { reply: 8, result: Err(_), stop: true }));
    assert_eq!(background.take().unwrap().message, "down");
    let step: Step = writer.written(failure(), &mut background);
    assert!(matches!(step, WriterStep::Stop));
    assert_eq!(background.take().unwrap().message, "down");
    let step: Step = writer.rebound(failure(), &mut background);
    assert!(matches!(step, WriterStep::FinalizeAndStop));
    assert_eq!(background.unwrap().message, "down");
}

#[test]
fn what_is_staged_is_what_was_accepted_however_often_writes_are_given_up() {
    let (mut half, mut queue) = Half::new();
    let mut accepted = Vec::new();
    let mut staged = Vec::new();
    let mut pending = 0;
    for round in 0..40u8 {
        let offered = vec![round; 1 + round as usize];
        match half.poll_write_vectored(&[&offered, &[0xEE]]) {
            Poll::Ready(Ok(n)) => {
                let mut all = offered.clone();
                all.push(0xEE);
                accepted.extend_from_slice(&all[..n]);
            }
            Poll::Ready(Err(error)) => panic!("{error:?}"),
            Poll::Pending => pending += 1,
        }
        if round % 3 == 0 {
            staged.extend(queue.try_recv().unwrap());
        }
    }
    while let Ok(bytes) = queue.try_recv() {
        staged.extend(bytes);
    }
    assert!(pending > 0, "the queue was never full");
    assert_eq!(staged, accepted);
}
