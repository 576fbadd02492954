//! The write half of a stream that can move between sessions.
//!
//! Bytes are staged as commands on a bounded queue; a background writer takes
//! them off and writes them to the stream, and moves the stream onto another
//! session when it is told to. Here stand the decisions of both: what was
//! polled goes in, what to do next comes out.

use vstd::prelude::*;

use crate::error::{broken_pipe, outcome, ErrorKind, ErrorView, IoError};
use crate::poll::Poll;
use crate::text::{copy_of, owned};

verus! {

/// How many commands are staged ahead of the background writer.
pub const WRITE_QUEUE_CAPACITY: usize = 8;

/// How many bytes one command carries at most.
pub const WRITE_MAX_CHUNK: usize = 65536;

/// How long finalizing the stream may take.
pub const FINALIZE_TIMEOUT: u64 = 5_000_000_000;

// ---------------------------------------------------------------------------
// Where a stream is to move
// ---------------------------------------------------------------------------
/// The session that a stream is to move onto next. Only the newest counts.
#[derive(Debug)]
pub struct RebindSlot<O> {
    latest: Option<O>,
}

impl<O> RebindSlot<O> {
    pub closed spec fn latest(&self) -> Option<O> {
        self.latest
    }

    pub fn detached() -> (r: Self)
        ensures
            r.latest() is None,
    {
        RebindSlot { latest: None }
    }

    /// Takes the target that was set last, if none has taken it yet.
    pub fn take(&mut self) -> (r: Option<O>)
        ensures
            r == old(self).latest(),
            final(self).latest() is None,
    {
        self.latest.take()
    }

    /// Sets the target. Nothing is set where the write half is gone; the
    /// result says whether anybody will act on it.
    pub fn rebind(&mut self, opener: O, half_alive: bool, wake_closed: bool) -> (r: bool)
        ensures
            r == (half_alive && !wake_closed),
            final(self).latest() == if half_alive {
                Some(opener)
            } else {
                old(self).latest()
            },
    {
        if !half_alive {
            return false;
        }
        self.latest = Some(opener);
        !wake_closed
    }
}

// ---------------------------------------------------------------------------
// The bytes of one command
// ---------------------------------------------------------------------------
/// The bytes of a list of buffers, one after the other.
pub open spec fn gathered(bufs: Seq<&[u8]>) -> Seq<u8>
    decreases bufs.len(),
{
    if bufs.len() == 0 {
        Seq::empty()
    } else {
        gathered(bufs.drop_last()) + bufs.last()@
    }
}

/// The bytes that one command takes of what is to be written.
pub open spec fn first_chunk(bytes: Seq<u8>) -> Seq<u8> {
    if bytes.len() <= WRITE_MAX_CHUNK {
        bytes
    } else {
        bytes.take(WRITE_MAX_CHUNK as int)
    }
}

/// The commands that writing `bytes` to the end takes.
pub open spec fn chunks(bytes: Seq<u8>) -> Seq<Seq<u8>>
    decreases bytes.len(),
{
    if bytes.len() == 0 {
        Seq::empty()
    } else {
        let head = first_chunk(bytes);
        seq![head] + chunks(bytes.skip(head.len() as int))
    }
}

/// Writing to the end carries the bytes over the chunk boundaries one for
/// one, and no command is empty or exceeds the cap.
pub proof fn lemma_chunks_reproduce_the_bytes(bytes: Seq<u8>)
    ensures
        chunks(bytes).flatten() == bytes,
        forall|i: int|
            0 <= i < chunks(bytes).len() ==> 1 <= (#[trigger] chunks(bytes)[i]).len()
                <= WRITE_MAX_CHUNK,
    decreases bytes.len(),
{
    if bytes.len() == 0 {
        assert(chunks(bytes).flatten() =~= bytes);
    } else {
        let head = first_chunk(bytes);
        let rest = bytes.skip(head.len() as int);
        lemma_chunks_reproduce_the_bytes(rest);
        let all = chunks(bytes);
        assert(all.drop_first() =~= chunks(rest));
        assert(all.first() == head);
        assert(all.flatten() =~= head + rest);
        assert(head + rest =~= bytes);
        assert forall|i: int| 0 <= i < all.len() implies 1 <= (#[trigger] all[i]).len()
            <= WRITE_MAX_CHUNK by {
            if i > 0 {
                assert(all[i] == chunks(rest)[i - 1]);
            }
        }
    }
}

/// How many bytes of the buffers one command takes.
fn chunk_len(bufs: &[&[u8]]) -> (r: usize)
    ensures
        r == first_chunk(gathered(bufs@)).len(),
{
    let mut total: usize = 0;
    let mut i: usize = 0;
    proof {
        assert(bufs@.take(0) =~= Seq::empty());
    }
    while i < bufs.len()
        invariant
            i <= bufs@.len(),
            total == if gathered(bufs@.take(i as int)).len() <= usize::MAX {
                gathered(bufs@.take(i as int)).len() as int
            } else {
                usize::MAX as int
            },
        decreases bufs@.len() - i,
    {
        proof {
            assert(bufs@.take(i as int + 1).drop_last() =~= bufs@.take(i as int));
        }
        total = total.saturating_add(bufs[i].len());
        i += 1;
    }
    proof {
        assert(bufs@.take(bufs@.len() as int) =~= bufs@);
    }
    if total < WRITE_MAX_CHUNK {
        total
    } else {
        WRITE_MAX_CHUNK
    }
}

/// The bytes that one command takes of the buffers.
fn gather(bufs: &[&[u8]], chunk: usize) -> (data: Vec<u8>)
    requires
        chunk == first_chunk(gathered(bufs@)).len(),
    ensures
        data@ == first_chunk(gathered(bufs@)),
{
    let mut data: Vec<u8> = Vec::with_capacity(chunk);
    let mut i: usize = 0;
    proof {
        assert(bufs@.take(0) =~= Seq::empty());
        assert(data@ =~= gathered(bufs@.take(0)).take(0));
    }
    while i < bufs.len() && data.len() < chunk
        invariant
            i <= bufs@.len(),
            data@.len() <= chunk,
            chunk <= gathered(bufs@).len(),
            data@ == gathered(bufs@.take(i as int)).take(data@.len() as int),
            data@.len() <= gathered(bufs@.take(i as int)).len(),
            data@.len() < chunk ==> data@.len() == gathered(bufs@.take(i as int)).len(),
        decreases bufs@.len() - i,
    {
        let remaining: usize = chunk - data.len();
        let buf: &[u8] = bufs[i];
        let take: usize = if buf.len() < remaining {
            buf.len()
        } else {
            remaining
        };
        let ghost before = data@;
        proof {
            assert(bufs@.take(i as int + 1).drop_last() =~= bufs@.take(i as int));
        }
        data.extend_from_slice(vstd::slice::slice_subrange(buf, 0, take));
        proof {
            assert(data@ =~= before + buf@.take(take as int));
            assert(data@ =~= gathered(bufs@.take(i as int + 1)).take(data@.len() as int));
        }
        i += 1;
    }
    proof {
        assert(bufs@.take(bufs@.len() as int) =~= bufs@);
        lemma_gathered_prefix(bufs@, i as int);
        assert(data@ =~= first_chunk(gathered(bufs@)));
    }
    data
}

/// What the first buffers hold stands at the front of what all of them hold.
proof fn lemma_gathered_prefix(bufs: Seq<&[u8]>, i: int)
    requires
        0 <= i <= bufs.len(),
    ensures
        gathered(bufs.take(i)).len() <= gathered(bufs).len(),
        gathered(bufs).take(gathered(bufs.take(i)).len() as int) == gathered(bufs.take(i)),
    decreases bufs.len(),
{
    if i == bufs.len() {
        assert(bufs.take(i) =~= bufs);
        assert(gathered(bufs).take(gathered(bufs).len() as int) =~= gathered(bufs));
    } else {
        let rest = bufs.drop_last();
        lemma_gathered_prefix(rest, i);
        assert(rest.take(i) =~= bufs.take(i));
        let n = gathered(bufs.take(i)).len() as int;
        assert(gathered(bufs).take(n) =~= gathered(rest).take(n));
    }
}

// ---------------------------------------------------------------------------
// The write half
// ---------------------------------------------------------------------------
/// What the write half asks the background writer for besides writing.
#[derive(Clone, Copy, Debug, PartialEq, Eq, Structural)]
pub enum ControlKind {
    Flush,
    Shutdown,
}

/// Why the background writer gave up.
#[derive(Debug)]
pub struct BackgroundWriteError {
    pub message: String,
}

impl View for BackgroundWriteError {
    type V = Seq<char>;

    open spec fn view(&self) -> Seq<char> {
        self.message@
    }
}

impl BackgroundWriteError {
    /// The error with that message, which is the debug text of its cause.
    pub fn from_debug(message: &str) -> (r: Self)
        ensures
            r@ == message@,
    {
        BackgroundWriteError { message: owned(message) }
    }

    pub fn duplicate(&self) -> (r: Self)
        ensures
            r@ == self@,
    {
        BackgroundWriteError { message: copy_of(&self.message) }
    }

    pub fn to_io(&self) -> (r: IoError)
        ensures
            r@ == broken_pipe(self@),
    {
        IoError { kind: ErrorKind::BrokenPipe, message: copy_of(&self.message) }
    }
}

/// The message of an error that may be there.
pub open spec fn said(error: Option<BackgroundWriteError>) -> Option<Seq<char>> {
    match error {
        Some(e) => Some(e@),
        None => None,
    }
}

/// A result, with what its error says.
pub open spec fn told(r: Result<(), BackgroundWriteError>) -> Result<(), Seq<char>> {
    match r {
        Ok(_) => Ok(()),
        Err(e) => Err(e@),
    }
}

/// The background writer's answer to a control command: its result, or the
/// news that there will be none.
#[derive(Debug)]
pub enum Reply {
    Answered(Result<(), BackgroundWriteError>),
    Lost,
}

/// What a reply says.
#[verifier::ext_equal]
pub enum ReplyView {
    Answered(Result<(), Seq<char>>),
    Lost,
}

pub open spec fn reply_view(reply: Poll<Reply>) -> Poll<ReplyView> {
    match reply {
        Poll::Pending => Poll::Pending,
        Poll::Ready(Reply::Lost) => Poll::Ready(ReplyView::Lost),
        Poll::Ready(Reply::Answered(r)) => Poll::Ready(ReplyView::Answered(told(r))),
    }
}

/// A slot on the queue of commands.
#[derive(Clone, Copy, Debug, PartialEq, Eq, Structural)]
pub enum Slot {
    Reserved,
    Closed,
}

/// What a write half knows.
#[verifier::ext_equal]
pub struct HalfView {
    pub pending: Option<ControlKind>,
    pub started: bool,
    pub complete: bool,
    /// Whether the half has closed its end of the queue.
    pub closed: bool,
    pub result: Option<Result<(), ErrorView>>,
}

/// What a polled operation came to, with what its error says.
pub open spec fn polled<T>(p: Poll<Result<T, IoError>>) -> Poll<Result<T, ErrorView>> {
    match p {
        Poll::Pending => Poll::Pending,
        Poll::Ready(r) => Poll::Ready(outcome(r)),
    }
}

/// The error to report where the background writer stopped: its own, or the
/// given one where it left none.
pub open spec fn background_error(background: Option<Seq<char>>, message: Seq<char>) -> ErrorView {
    match background {
        Some(m) => broken_pipe(m),
        None => broken_pipe(message),
    }
}

/// The result that a reply stands for.
pub open spec fn reply_result(reply: ReplyView, background: Option<Seq<char>>) -> Result<
    (),
    ErrorView,
> {
    match reply {
        ReplyView::Answered(Ok(_)) => Ok(()),
        ReplyView::Answered(Err(m)) => Err(broken_pipe(m)),
        ReplyView::Lost => Err(
            background_error(background, "RTP mux background writer stopped"@),
        ),
    }
}

impl HalfView {
    /// A control command is outstanding only while the half makes sense of
    /// the answer, and a shutdown whose answer is in has a result until it is
    /// complete.
    pub open spec fn wf(self) -> bool {
        &&& self.pending == Some(ControlKind::Shutdown) ==> self.started && !self.complete
        &&& self.started && self.pending != Some(ControlKind::Shutdown) && !self.complete
            ==> self.result is Some
        &&& self.started ==> self.pending != Some(ControlKind::Flush)
    }

    /// What the outstanding control command comes to.
    pub open spec fn control(self, reply: Poll<ReplyView>, background: Option<Seq<char>>) -> (
        HalfView,
        Poll<Result<Option<ControlKind>, ErrorView>>,
    ) {
        match (self.pending, reply) {
            (None, _) => (self, Poll::Ready(Ok(None))),
            (Some(_), Poll::Pending) => (self, Poll::Pending),
            (Some(ControlKind::Shutdown), Poll::Ready(answer)) => (
                HalfView {
                    pending: None,
                    closed: true,
                    result: Some(reply_result(answer, background)),
                    ..self
                },
                Poll::Ready(Ok(Some(ControlKind::Shutdown))),
            ),
            (Some(ControlKind::Flush), Poll::Ready(answer)) => (
                HalfView { pending: None, ..self },
                match reply_result(answer, background) {
                    Ok(_) => Poll::Ready(Ok(Some(ControlKind::Flush))),
                    Err(e) => Poll::Ready(Err(e)),
                },
            ),
        }
    }

    /// How a write starts: what the half then knows, and the write's answer
    /// unless a slot on the queue is asked for.
    pub open spec fn write_start(self, reply: Poll<ReplyView>, background: Option<Seq<char>>) -> (
        HalfView,
        Option<Poll<Result<usize, ErrorView>>>,
    ) {
        let (after, control) = self.control(reply, background);
        (
            after,
            match control {
                Poll::Pending => Some(Poll::Pending),
                Poll::Ready(Err(e)) => Some(Poll::Ready(Err(e))),
                Poll::Ready(Ok(Some(ControlKind::Shutdown))) => Some(
                    Poll::Ready(Err(broken_pipe("stream shut down"@))),
                ),
                Poll::Ready(Ok(_)) => match after.refusal(background) {
                    Some(e) => Some(Poll::Ready(Err(e))),
                    None => None,
                },
            },
        )
    }

    /// Why nothing more can be asked of the half: it is shut down, or its
    /// background writer has failed.
    pub open spec fn refusal(self, background: Option<Seq<char>>) -> Option<ErrorView> {
        if self.complete || self.started {
            Some(broken_pipe("stream shut down"@))
        } else {
            match background {
                Some(m) => Some(broken_pipe(m)),
                None => None,
            }
        }
    }
}

/// What a write comes to once the queue has been asked for a slot: its
/// answer, and the bytes that are put on the queue.
pub open spec fn staging(slot: Poll<Slot>, offered: Seq<u8>) -> (
    Poll<Result<usize, ErrorView>>,
    Option<Seq<u8>>,
) {
    match slot {
        Poll::Pending => (Poll::Pending, None),
        Poll::Ready(Slot::Closed) => (
            Poll::Ready(Err(broken_pipe("write channel closed"@))),
            None,
        ),
        Poll::Ready(Slot::Reserved) => {
            let chunk = first_chunk(offered);
            (
                Poll::Ready(Ok(chunk.len() as usize)),
                if chunk.len() > 0 {
                    Some(chunk)
                } else {
                    None
                },
            )
        },
    }
}

/// How a write goes on.
#[derive(Debug)]
pub enum WriteStart {
    /// The write is answered.
    Done(Poll<Result<usize, IoError>>),
    /// A slot on the queue is asked for.
    Reserve,
}

/// What a write comes to once the queue has been asked.
#[derive(Debug)]
pub struct Staged {
    pub result: Poll<Result<usize, IoError>>,
    /// The bytes to be put on the queue.
    pub data: Option<Vec<u8>>,
}

/// How a flush goes on.
#[derive(Debug)]
pub enum FlushStart {
    Done(Poll<Result<(), IoError>>),
    Reserve,
}

/// What a flush comes to once the queue has been asked.
#[derive(Debug)]
pub struct FlushStaged {
    pub result: Poll<Result<(), IoError>>,
    /// Whether a flush command is put on the queue, after which the half is
    /// polled again.
    pub send: bool,
}

/// How a shutdown goes on.
#[derive(Debug)]
pub enum ShutdownStep {
    /// The shutdown is answered.
    Done(Poll<Result<(), IoError>>),
    /// A slot on the queue is asked for.
    Reserve,
    /// A shutdown command is put on the queue.
    Send,
    /// The answer to the shutdown command is polled.
    AwaitReply,
    /// The background writer is joined.
    Join,
}

/// The state of a write half.
#[derive(Debug)]
pub struct MigratingWriteHalf {
    pending_control: Option<ControlKind>,
    shutdown_started: bool,
    shutdown_complete: bool,
    channel_closed: bool,
    shutdown_result: Option<Result<(), IoError>>,
}

impl View for MigratingWriteHalf {
    type V = HalfView;

    closed spec fn view(&self) -> HalfView {
        HalfView {
            pending: self.pending_control,
            started: self.shutdown_started,
            complete: self.shutdown_complete,
            closed: self.channel_closed,
            result: match self.shutdown_result {
                Some(r) => Some(outcome(r)),
                None => None,
            },
        }
    }
}

fn background_io_error(background: &Option<BackgroundWriteError>, message: &str) -> (r: IoError)
    ensures
        r@ == background_error(said(*background), message@),
{
    match background {
        Some(error) => error.to_io(),
        None => IoError::new(ErrorKind::BrokenPipe, message),
    }
}

fn shut_down() -> (r: IoError)
    ensures
        r@ == broken_pipe("stream shut down"@),
{
    IoError::new(ErrorKind::BrokenPipe, "stream shut down")
}

impl MigratingWriteHalf {
    pub fn new() -> (r: Self)
        ensures
            r@ == (HalfView {
                pending: None,
                started: false,
                complete: false,
                closed: false,
                result: None,
            }),
            r@.wf(),
    {
        MigratingWriteHalf {
            pending_control: None,
            shutdown_started: false,
            shutdown_complete: false,
            channel_closed: false,
            shutdown_result: None,
        }
    }

    /// The control command whose answer is outstanding.
    pub fn pending_control(&self) -> (r: Option<ControlKind>)
        ensures
            r == self@.pending,
    {
        self.pending_control
    }

    /// Whether the half has closed its end of the queue.
    pub fn channel_closed(&self) -> (r: bool)
        ensures
            r == self@.closed,
    {
        self.channel_closed
    }

    /// Takes in the answer to the outstanding control command. `reply` is
    /// what polling for it gave, and counts only where one is outstanding.
    pub fn poll_pending_control(
        &mut self,
        reply: Poll<Reply>,
        background: &Option<BackgroundWriteError>,
    ) -> (r: Poll<Result<Option<ControlKind>, IoError>>)
        ensures
            (final(self)@, polled(r)) == old(self)@.control(reply_view(reply), said(*background)),
            old(self)@.wf() ==> final(self)@.wf(),
    {
        let kind = match self.pending_control {
            None => {
                return Poll::Ready(Ok(None));
            },
            Some(kind) => kind,
        };
        let answer = match reply {
            Poll::Pending => {
                return Poll::Pending;
            },
            Poll::Ready(answer) => answer,
        };
        self.pending_control = None;
        let result: Result<(), IoError> = match answer {
            Reply::Answered(Ok(_)) => Ok(()),
            Reply::Answered(Err(error)) => Err(error.to_io()),
            Reply::Lost => Err(
                background_io_error(background, "RTP mux background writer stopped"),
            ),
        };
        match kind {
            ControlKind::Shutdown => {
                self.channel_closed = true;
                self.shutdown_result = Some(result);
                Poll::Ready(Ok(Some(kind)))
            },
            ControlKind::Flush => match result {
                Ok(_) => Poll::Ready(Ok(Some(kind))),
                Err(error) => Poll::Ready(Err(error)),
            },
        }
    }

    /// Starts a write: takes in the outstanding answer, and refuses where the
    /// half is shut down or the background writer failed.
    pub fn start_write(
        &mut self,
        reply: Poll<Reply>,
        background: &Option<BackgroundWriteError>,
    ) -> (r: WriteStart)
        ensures
            ({
                let (after, answer) = old(self)@.write_start(reply_view(reply), said(*background));
                final(self)@ == after && match answer {
                    Some(answer) => r is Done && polled(r->Done_0) == answer,
                    None => r is Reserve,
                }
            }),
            r is Reserve <==> !old(self)@.started && !old(self)@.complete && background is None && (
            old(self)@.pending is None || (old(self)@.pending == Some(ControlKind::Flush)
                && reply_view(reply) == Poll::Ready(ReplyView::Answered(Ok(()))))),
            r matches WriteStart::Done(answer) ==> !(answer is Ready && answer->Ready_0 is Ok),
            old(self)@.wf() ==> final(self)@.wf(),
    {
        match self.poll_pending_control(reply, background) {
            Poll::Ready(Ok(Some(ControlKind::Shutdown))) => {
                return WriteStart::Done(Poll::Ready(Err(shut_down())));
            },
            Poll::Ready(Ok(_)) => {},
            Poll::Ready(Err(error)) => {
                return WriteStart::Done(Poll::Ready(Err(error)));
            },
            Poll::Pending => {
                return WriteStart::Done(Poll::Pending);
            },
        }
        if self.shutdown_complete || self.shutdown_started {
            return WriteStart::Done(Poll::Ready(Err(shut_down())));
        }
        if let Some(error) = background {
            return WriteStart::Done(Poll::Ready(Err(error.to_io())));
        }
        WriteStart::Reserve
    }

    /// Stages one command of what is to be written. Writing nothing takes
    /// nothing off the queue's capacity.
    pub fn stage_write(slot: Poll<Slot>, bufs: &[&[u8]]) -> (r: Staged)
        ensures
            polled(r.result) == staging(slot, gathered(bufs@)).0,
            match r.data {
                Some(data) => staging(slot, gathered(bufs@)).1 == Some(data@),
                None => staging(slot, gathered(bufs@)).1 is None,
            },
            slot == Poll::Ready(Slot::Reserved) ==> {
                let offered = gathered(bufs@);
                &&& r.result is Ready && r.result->Ready_0 is Ok
                &&& (r.result->Ready_0)->Ok_0 == if offered.len() < WRITE_MAX_CHUNK {
                    offered.len() as int
                } else {
                    WRITE_MAX_CHUNK as int
                }
                &&& r.data is Some <==> offered.len() > 0
                &&& r.data matches Some(data) ==> data@ == offered.take(
                    (r.result->Ready_0)->Ok_0 as int,
                )
            },
            slot != Poll::Ready(Slot::Reserved) ==> r.data is None,
    {
        proof {
            lemma_one_command_takes_the_front(gathered(bufs@));
        }
        match slot {
            Poll::Pending => Staged { result: Poll::Pending, data: None },
            Poll::Ready(Slot::Closed) => Staged {
                result: Poll::Ready(
                    Err(IoError::new(ErrorKind::BrokenPipe, "write channel closed")),
                ),
                data: None,
            },
            Poll::Ready(Slot::Reserved) => {
                let chunk: usize = chunk_len(bufs);
                if chunk > 0 {
                    let data = gather(bufs, chunk);
                    Staged { result: Poll::Ready(Ok(chunk)), data: Some(data) }
                } else {
                    Staged { result: Poll::Ready(Ok(0)), data: None }
                }
            },
        }
    }

    /// Starts a flush: an answered flush command is the flush.
    pub fn start_flush(
        &mut self,
        reply: Poll<Reply>,
        background: &Option<BackgroundWriteError>,
    ) -> (r: FlushStart)
        ensures
            ({
                let (after, control) = old(self)@.control(reply_view(reply), said(*background));
                final(self)@ == after && match control {
                    Poll::Pending => r is Done && polled(r->Done_0) == Poll::<
                        Result<(), ErrorView>,
                    >::Pending,
                    Poll::Ready(Err(e)) => r is Done && polled(r->Done_0) == Poll::Ready(
                        Err::<(), ErrorView>(e),
                    ),
                    Poll::Ready(Ok(Some(ControlKind::Shutdown))) => r is Done && polled(r->Done_0)
                        == Poll::Ready(
                        Err::<(), ErrorView>(broken_pipe("stream shut down"@)),
                    ),
                    Poll::Ready(Ok(Some(ControlKind::Flush))) => r is Done && polled(r->Done_0)
                        == Poll::Ready(Ok::<(), ErrorView>(())),
                    Poll::Ready(Ok(None)) => match after.refusal(said(*background)) {
                        Some(e) => r is Done && polled(r->Done_0) == Poll::Ready(
                            Err::<(), ErrorView>(e),
                        ),
                        None => r is Reserve,
                    },
                }
            }),
            old(self)@.wf() ==> final(self)@.wf(),
    {
        match self.poll_pending_control(reply, background) {
            Poll::Ready(Ok(Some(ControlKind::Shutdown))) => {
                return FlushStart::Done(Poll::Ready(Err(shut_down())));
            },
            Poll::Ready(Ok(Some(ControlKind::Flush))) => {
                return FlushStart::Done(Poll::Ready(Ok(())));
            },
            Poll::Ready(Ok(None)) => {},
            Poll::Ready(Err(error)) => {
                return FlushStart::Done(Poll::Ready(Err(error)));
            },
            Poll::Pending => {
                return FlushStart::Done(Poll::Pending);
            },
        }
        if self.shutdown_complete || self.shutdown_started {
            return FlushStart::Done(Poll::Ready(Err(shut_down())));
        }
        if let Some(error) = background {
            return FlushStart::Done(Poll::Ready(Err(error.to_io())));
        }
        FlushStart::Reserve
    }

    /// Stages the flush command, if the queue has room.
    pub fn stage_flush(&mut self, slot: Poll<Slot>) -> (r: FlushStaged)
        requires
            !old(self)@.started,
        ensures
            match slot {
                Poll::Pending => polled(r.result) == Poll::<Result<(), ErrorView>>::Pending
                    && !r.send && final(self)@ == old(self)@,
                Poll::Ready(Slot::Closed) => polled(r.result) == Poll::Ready(
                    Err::<(), ErrorView>(broken_pipe("write channel closed"@)),
                ) && !r.send && final(self)@ == old(self)@,
                Poll::Ready(Slot::Reserved) => polled(r.result) == Poll::<
                    Result<(), ErrorView>,
                >::Pending && r.send && final(self)@ == (HalfView {
                    pending: Some(ControlKind::Flush),
                    ..old(self)@
                }),
            },
            old(self)@.wf() ==> final(self)@.wf(),
    {
        match slot {
            Poll::Pending => FlushStaged { result: Poll::Pending, send: false },
            Poll::Ready(Slot::Closed) => FlushStaged {
                result: Poll::Ready(
                    Err(IoError::new(ErrorKind::BrokenPipe, "write channel closed")),
                ),
                send: false,
            },
            Poll::Ready(Slot::Reserved) => {
                self.pending_control = Some(ControlKind::Flush);
                FlushStaged { result: Poll::Pending, send: true }
            },
        }
    }

    /// Starts a shutdown, or takes up one that was started. A shutdown that
    /// is complete succeeds again.
    pub fn start_shutdown(&mut self, background: &Option<BackgroundWriteError>) -> (r: ShutdownStep)
        ensures
            if old(self)@.complete {
                r == ShutdownStep::Done(Poll::Ready(Ok::<(), IoError>(()))) && final(self)@ == old(
                    self,
                )@
            } else if old(self)@.started {
                r is AwaitReply && final(self)@ == old(self)@
            } else {
                match said(*background) {
                    Some(m) => r is Join && final(self)@ == (HalfView {
                        closed: true,
                        result: Some(Err(broken_pipe(m))),
                        ..old(self)@
                    }),
                    None => r is Reserve && final(self)@ == old(self)@,
                }
            },
            old(self)@.wf() ==> final(self)@.wf(),
    {
        if self.shutdown_complete {
            return ShutdownStep::Done(Poll::Ready(Ok(())));
        }
        if self.shutdown_started {
            return ShutdownStep::AwaitReply;
        }
        if background.is_some() {
            self.channel_closed = true;
            self.shutdown_result = Some(
                Err(background_io_error(background, "background write error")),
            );
            return ShutdownStep::Join;
        }
        ShutdownStep::Reserve
    }

    /// Goes on with a shutdown once the queue has been asked.
    pub fn shutdown_slot(&mut self, slot: Poll<Slot>) -> (r: ShutdownStep)
        ensures
            match slot {
                Poll::Pending => r == ShutdownStep::Done(Poll::Pending) && final(self)@ == old(
                    self,
                )@,
                Poll::Ready(Slot::Reserved) => r is Send && final(self)@ == old(self)@,
                Poll::Ready(Slot::Closed) => r is Join && final(self)@ == (HalfView {
                    closed: true,
                    result: Some(Err(broken_pipe("write channel closed during shutdown"@))),
                    ..old(self)@
                }),
            },
            old(self)@.wf() ==> final(self)@.wf(),
    {
        match slot {
            Poll::Pending => ShutdownStep::Done(Poll::Pending),
            Poll::Ready(Slot::Reserved) => ShutdownStep::Send,
            Poll::Ready(Slot::Closed) => {
                self.channel_closed = true;
                self.shutdown_result = Some(
                    Err(
                        IoError::new(
                            ErrorKind::BrokenPipe,
                            "write channel closed during shutdown",
                        ),
                    ),
                );
                ShutdownStep::Join
            },
        }
    }

    /// Goes on with a shutdown once its command has been put on the queue, or
    /// could not be. The shutdown counts as started only where it was; an
    /// outstanding flush is given up.
    pub fn shutdown_sent(&mut self, sent: bool) -> (r: ShutdownStep)
        requires
            !old(self)@.complete,
        ensures
            if sent {
                r is AwaitReply && final(self)@ == (HalfView {
                    started: true,
                    pending: Some(ControlKind::Shutdown),
                    ..old(self)@
                })
            } else {
                r is Join && final(self)@ == (HalfView {
                    closed: true,
                    result: Some(Err(broken_pipe("write channel closed during shutdown"@))),
                    ..old(self)@
                })
            },
            old(self)@.wf() ==> final(self)@.wf(),
    {
        if sent {
            self.shutdown_started = true;
            self.pending_control = Some(ControlKind::Shutdown);
            ShutdownStep::AwaitReply
        } else {
            self.shutdown_slot(Poll::Ready(Slot::Closed))
        }
    }

    /// Goes on with a started shutdown once its answer has been polled. The
    /// result is kept until the background writer has been joined.
    pub fn shutdown_reply(
        &mut self,
        reply: Poll<Reply>,
        background: &Option<BackgroundWriteError>,
    ) -> (r: ShutdownStep)
        requires
            old(self)@.wf(),
            old(self)@.started,
            !old(self)@.complete,
        ensures
            final(self)@ == old(self)@.control(reply_view(reply), said(*background)).0,
            if old(self)@.pending is Some && reply is Pending {
                r == ShutdownStep::Done(Poll::Pending)
            } else {
                r is Join && final(self)@.result is Some
            },
            final(self)@.wf(),
    {
        match self.poll_pending_control(reply, background) {
            Poll::Ready(Ok(_)) => ShutdownStep::Join,
            Poll::Ready(Err(error)) => {
                proof {
                    assert(false);
                }
                self.shutdown_result = Some(Err(error));
                ShutdownStep::Join
            },
            Poll::Pending => ShutdownStep::Done(Poll::Pending),
        }
    }

    /// Goes on with a shutdown once the background writer's tasks have been
    /// polled: `Ready(true)` where one ended, `Ready(false)` where none is
    /// left. Only then is the shutdown complete, and its result given out.
    pub fn shutdown_joined(&mut self, joined: Poll<bool>) -> (r: ShutdownStep)
        requires
            old(self)@.result is Some,
        ensures
            match joined {
                Poll::Pending => r == ShutdownStep::Done(Poll::Pending) && final(self)@ == old(
                    self,
                )@,
                Poll::Ready(true) => r is Join && final(self)@ == old(self)@,
                Poll::Ready(false) => r is Done && polled(r->Done_0) == Poll::Ready(
                    old(self)@.result->0,
                ) && final(self)@ == (HalfView { complete: true, result: None, ..old(self)@ }),
            },
            old(self)@.wf() && old(self)@.pending != Some(ControlKind::Shutdown)
                ==> final(self)@.wf(),
    {
        match joined {
            Poll::Pending => ShutdownStep::Done(Poll::Pending),
            Poll::Ready(true) => ShutdownStep::Join,
            Poll::Ready(false) => {
                self.shutdown_complete = true;
                match self.shutdown_result.take() {
                    Some(result) => ShutdownStep::Done(Poll::Ready(result)),
                    None => {
                        proof {
                            assert(false);
                        }
                        ShutdownStep::Done(Poll::Pending)
                    },
                }
            },
        }
    }
}

/// Whether bytes are let through to the queue.
pub open spec fn accepts_write(
    half: HalfView,
    reply: Poll<ReplyView>,
    background: Option<Seq<char>>,
) -> bool {
    half.write_start(reply, background).1 is None
}

/// One poll of a write: what the half knew, what was polled, and the bytes
/// that the caller offered.
pub struct WriteCall {
    pub half: HalfView,
    pub reply: Poll<ReplyView>,
    pub background: Option<Seq<char>>,
    pub slot: Poll<Slot>,
    pub offered: Seq<u8>,
}

impl WriteCall {
    /// What the caller is answered.
    pub open spec fn answer(self) -> Poll<Result<usize, ErrorView>> {
        match self.half.write_start(self.reply, self.background).1 {
            Some(answer) => answer,
            None => staging(self.slot, self.offered).0,
        }
    }

    /// The command that is put on the queue.
    pub open spec fn staged(self) -> Option<Seq<u8>> {
        match self.half.write_start(self.reply, self.background).1 {
            Some(_) => None,
            None => staging(self.slot, self.offered).1,
        }
    }

    /// The bytes that the caller was told were taken: so many of the first
    /// that it offered, and none where the write is pending or failed.
    pub open spec fn accepted(self) -> Seq<u8> {
        match self.answer() {
            Poll::Ready(Ok(n)) => self.offered.take(n as int),
            _ => Seq::empty(),
        }
    }
}

/// The commands that writes put on the queue, in the order of the calls.
pub open spec fn queued(calls: Seq<WriteCall>) -> Seq<Seq<u8>>
    decreases calls.len(),
{
    if calls.len() == 0 {
        Seq::empty()
    } else {
        match calls.last().staged() {
            Some(bytes) => queued(calls.drop_last()).push(bytes),
            None => queued(calls.drop_last()),
        }
    }
}

/// The bytes that callers were told were taken, in the order of the calls.
pub open spec fn taken(calls: Seq<WriteCall>) -> Seq<u8>
    decreases calls.len(),
{
    if calls.len() == 0 {
        Seq::empty()
    } else {
        taken(calls.drop_last()) + calls.last().accepted()
    }
}

/// A write stages exactly what it accepts: a call that is pending or fails
/// stages no byte, and one that is answered with a number stages so many of
/// the first bytes that it was offered.
pub proof fn lemma_a_write_stages_what_it_accepts(call: WriteCall)
    ensures
        match call.staged() {
            Some(bytes) => bytes == call.accepted() && 1 <= bytes.len() <= WRITE_MAX_CHUNK,
            None => call.accepted() == Seq::<u8>::empty(),
        },
        call.answer() matches Poll::Ready(Ok(n)) ==> n <= call.offered.len(),
        !(call.answer() is Ready && call.answer()->Ready_0 is Ok) ==> call.staged() is None,
{
    let chunk = first_chunk(call.offered);
    assert(call.offered.take(chunk.len() as int) =~= chunk);
    assert(call.offered.take(0) =~= Seq::<u8>::empty());
}

/// Whatever writes are polled, and whichever of them are given up while they
/// are pending, what is staged is what was accepted, call by call and byte by
/// byte: nothing is lost and nothing is staged twice.
pub proof fn lemma_writes_are_cancellation_safe(calls: Seq<WriteCall>)
    ensures
        queued(calls).flatten() == taken(calls),
        forall|i: int|
            0 <= i < queued(calls).len() ==> 1 <= (#[trigger] queued(calls)[i]).len()
                <= WRITE_MAX_CHUNK,
    decreases calls.len(),
{
    if calls.len() > 0 {
        lemma_writes_are_cancellation_safe(calls.drop_last());
        lemma_a_write_stages_what_it_accepts(calls.last());
        let before = queued(calls.drop_last());
        match calls.last().staged() {
            Some(bytes) => {
                before.lemma_flatten_push(bytes);
            },
            None => {
                assert(taken(calls) =~= taken(calls.drop_last()));
            },
        }
    } else {
        assert(queued(calls).flatten() =~= taken(calls));
    }
}

/// Once a shutdown has been started or is complete, no byte is accepted any
/// more, whatever the background writer answers.
pub proof fn lemma_shut_down_half_refuses(
    half: HalfView,
    reply: Poll<ReplyView>,
    background: Option<Seq<char>>,
)
    requires
        half.started || half.complete,
    ensures
        !accepts_write(half, reply, background),
{
}

/// A shutdown comes to what finalizing the stream came to, and to nothing
/// before the answer is in.
pub proof fn lemma_shutdown_reports_the_finalize(
    half: HalfView,
    result: Result<(), Seq<char>>,
    background: Option<Seq<char>>,
)
    requires
        half.wf(),
        half.pending == Some(ControlKind::Shutdown),
    ensures
        half.control(Poll::Pending, background) == (
            half,
            Poll::<Result<Option<ControlKind>, ErrorView>>::Pending,
        ),
        half.control(Poll::Ready(ReplyView::Answered(result)), background).0.result == Some(
            match result {
                Ok(_) => Ok::<(), ErrorView>(()),
                Err(m) => Err(broken_pipe(m)),
            },
        ),
{
}

/// A flush leaves the half as it was: what is written after it is accepted.
pub proof fn lemma_flush_keeps_the_half_open(
    half: HalfView,
    background: Option<Seq<char>>,
)
    requires
        half.wf(),
        !half.started,
        !half.complete,
        half.pending is None,
    ensures
        ({
            let flushing = HalfView { pending: Some(ControlKind::Flush), ..half };
            let (after, control) = flushing.control(
                Poll::Ready(ReplyView::Answered(Ok(()))),
                background,
            );
            after == half && control == Poll::Ready(
                Ok::<Option<ControlKind>, ErrorView>(Some(ControlKind::Flush)),
            )
        }),
{
}

// ---------------------------------------------------------------------------
// The background writer
// ---------------------------------------------------------------------------
/// A command on the queue; `R` is where its answer goes.
#[derive(Debug)]
pub enum WriteCommand<R> {
    Data(Vec<u8>),
    Flush(R),
    Shutdown(R),
}

/// How an operation that was given a deadline ended.
#[derive(Debug)]
pub enum Timed {
    Finished(Result<(), BackgroundWriteError>),
    TimedOut,
}

/// What the background writer does next.
#[derive(Debug)]
pub enum WriterStep<O, R> {
    /// Wait for a wake-up, if `wake` is set, and for a command; a wake-up
    /// goes first.
    Select { wake: bool },
    /// Move the stream onto another session.
    Rebind(O),
    /// Write the bytes to the stream.
    Write(Vec<u8>),
    /// Flush the stream, then answer.
    Flush(R),
    /// Finalize the stream within its deadline, then answer.
    Finalize(R),
    /// Answer, and go on or stop.
    Answer { reply: R, result: Result<(), BackgroundWriteError>, stop: bool },
    /// Finalize the stream within its deadline and stop, whatever comes of it.
    FinalizeAndStop,
    Stop,
}

/// The message of a finalize that ran into its deadline.
pub open spec fn finalize_timed_out() -> Seq<char> {
    "\"shutdown finalize timed out\""@
}

#[derive(Debug)]
pub struct BackgroundWriter {
    rebind_open: bool,
}

impl BackgroundWriter {
    /// Whether anybody can still ask for a move.
    pub closed spec fn rebind_open(&self) -> bool {
        self.rebind_open
    }

    pub fn new() -> (r: Self)
        ensures
            r.rebind_open(),
    {
        BackgroundWriter { rebind_open: true }
    }

    /// What to wait for.
    pub fn select<O, R>(&self) -> (r: WriterStep<O, R>)
        ensures
            r == (WriterStep::<O, R>::Select { wake: self.rebind_open() }),
    {
        WriterStep::Select { wake: self.rebind_open }
    }

    /// A wake-up came, or the news that none will come any more. A target
    /// that is there is taken; without one the wake-up means nothing.
    pub fn woken<O, R>(&mut self, wake: bool, slot: &mut RebindSlot<O>) -> (r: WriterStep<O, R>)
        ensures
            final(self).rebind_open() == (old(self).rebind_open() && wake),
            final(slot).latest() == if wake {
                None
            } else {
                old(slot).latest()
            },
            r == match old(slot).latest() {
                Some(opener) if wake => WriterStep::<O, R>::Rebind(opener),
                _ => WriterStep::<O, R>::Select { wake: final(self).rebind_open() },
            },
    {
        if !wake {
            self.rebind_open = false;
            return self.select();
        }
        match slot.take() {
            Some(opener) => WriterStep::Rebind(opener),
            None => self.select(),
        }
    }

    /// The stream has been moved, or could not be; then the writer ends as
    /// when its queue does.
    pub fn rebound<O, R>(
        &self,
        result: Result<(), BackgroundWriteError>,
        background: &mut Option<BackgroundWriteError>,
    ) -> (r: WriterStep<O, R>)
        ensures
            match told(result) {
                Ok(_) => r == (WriterStep::<O, R>::Select { wake: self.rebind_open() })
                    && *final(background) == *old(background),
                Err(m) => r is FinalizeAndStop && said(*final(background)) == Some(m),
            },
    {
        match result {
            Ok(_) => self.select(),
            Err(error) => {
                *background = Some(error);
                WriterStep::FinalizeAndStop
            },
        }
    }

    /// A command was taken off the queue, or the queue has ended.
    pub fn command<O, R>(&self, command: Option<WriteCommand<R>>) -> (r: WriterStep<O, R>)
        ensures
            r == match command {
                None => WriterStep::<O, R>::FinalizeAndStop,
                Some(WriteCommand::Data(bytes)) => WriterStep::<O, R>::Write(bytes),
                Some(WriteCommand::Flush(reply)) => WriterStep::<O, R>::Flush(reply),
                Some(WriteCommand::Shutdown(reply)) => WriterStep::<O, R>::Finalize(reply),
            },
    {
        match command {
            None => WriterStep::FinalizeAndStop,
            Some(WriteCommand::Data(bytes)) => WriterStep::Write(bytes),
            Some(WriteCommand::Flush(reply)) => WriterStep::Flush(reply),
            Some(WriteCommand::Shutdown(reply)) => WriterStep::Finalize(reply),
        }
    }

    /// The bytes have been written, or could not be.
    pub fn written<O, R>(
        &self,
        result: Result<(), BackgroundWriteError>,
        background: &mut Option<BackgroundWriteError>,
    ) -> (r: WriterStep<O, R>)
        ensures
            match told(result) {
                Ok(_) => r == (WriterStep::<O, R>::Select { wake: self.rebind_open() })
                    && *final(background) == *old(background),
                Err(m) => r is Stop && said(*final(background)) == Some(m),
            },
    {
        match result {
            Ok(_) => self.select(),
            Err(error) => {
                *background = Some(error);
                WriterStep::Stop
            },
        }
    }

    /// The stream has been flushed, or could not be; the answer goes out
    /// either way, and a failure ends the writer.
    pub fn flushed<O, R>(
        &self,
        reply: R,
        result: Result<(), BackgroundWriteError>,
        background: &mut Option<BackgroundWriteError>,
    ) -> (r: WriterStep<O, R>)
        ensures
            r is Answer,
            r->reply == reply,
            told(r->result) == told(result),
            r->stop == (result is Err),
            match told(result) {
                Ok(_) => *final(background) == *old(background),
                Err(m) => said(*final(background)) == Some(m),
            },
    {
        match result {
            Ok(_) => WriterStep::Answer { reply, result: Ok(()), stop: false },
            Err(error) => {
                *background = Some(error.duplicate());
                WriterStep::Answer { reply, result: Err(error), stop: true }
            },
        }
    }

    /// The stream has been finalized for a shutdown, or could not be, or not
    /// in time; the answer goes out and the writer ends.
    pub fn finalized<O, R>(
        &self,
        reply: R,
        result: Timed,
        background: &mut Option<BackgroundWriteError>,
    ) -> (r: WriterStep<O, R>)
        ensures
            r is Answer,
            r->reply == reply,
            r->stop,
            told(r->result) == match result {
                Timed::Finished(done) => told(done),
                Timed::TimedOut => Err(finalize_timed_out()),
            },
            match told(r->result) {
                Ok(_) => *final(background) == *old(background),
                Err(m) => said(*final(background)) == Some(m),
            },
    {
        let result: Result<(), BackgroundWriteError> = match result {
            Timed::Finished(done) => done,
            Timed::TimedOut => Err(
                BackgroundWriteError::from_debug("\"shutdown finalize timed out\""),
            ),
        };
        match result {
            Ok(_) => WriterStep::Answer { reply, result: Ok(()), stop: true },
            Err(error) => {
                *background = Some(error.duplicate());
                WriterStep::Answer { reply, result: Err(error), stop: true }
            },
        }
    }
}

// ---------------------------------------------------------------------------
// What writing, flushing and shutting down come to
// ---------------------------------------------------------------------------
/// The bytes of several buffers are those of each of them, one after the
/// other: how the buffers are grouped does not matter.
pub proof fn lemma_buffers_are_gathered_in_order(a: Seq<&[u8]>, b: Seq<&[u8]>, buf: &[u8])
    ensures
        gathered(a + b) == gathered(a) + gathered(b),
        gathered(seq![buf]) == buf@,
    decreases b.len(),
{
    assert(seq![buf].drop_last() =~= Seq::<&[u8]>::empty());
    assert(gathered(seq![buf].drop_last()) =~= Seq::<u8>::empty());
    assert(gathered(seq![buf]) =~= buf@);
    if b.len() == 0 {
        assert(a + b =~= a);
    } else {
        lemma_buffers_are_gathered_in_order(a, b.drop_last(), buf);
        assert((a + b).drop_last() =~= a + b.drop_last());
    }
    assert(gathered(a + b) =~= gathered(a) + gathered(b));
}

/// One command takes the first bytes of what is to be written: all of them up
/// to the cap, and the cap beyond it. It is empty only where there is nothing
/// to write.
pub proof fn lemma_one_command_takes_the_front(bytes: Seq<u8>)
    ensures
        first_chunk(bytes).len() == if bytes.len() < 65536 {
            bytes.len() as int
        } else {
            65536
        },
        first_chunk(bytes) == bytes.take(first_chunk(bytes).len() as int),
        first_chunk(bytes) + bytes.skip(first_chunk(bytes).len() as int) == bytes,
        first_chunk(bytes).len() == 0 <==> bytes.len() == 0,
{
    let chunk = first_chunk(bytes);
    assert(chunk =~= bytes.take(chunk.len() as int));
    assert(chunk + bytes.skip(chunk.len() as int) =~= bytes);
}

/// A half lets a write through exactly where it is neither shut down nor
/// failed and has no control command outstanding, or a flush whose success is
/// just being learned of: an answered flush does not cost the write its turn.
pub proof fn lemma_an_open_half_lets_writes_through(
    half: HalfView,
    reply: Poll<ReplyView>,
    background: Option<Seq<char>>,
)
    ensures
        accepts_write(half, reply, background) <==> !half.started && !half.complete && background
            is None && (half.pending is None || (half.pending == Some(ControlKind::Flush) && reply
            is Ready && reply->Ready_0 is Answered && (reply->Ready_0)->Answered_0 is Ok)),
{
}

/// A write that is let through and finds room takes as many bytes as one
/// command carries, and says so: all that were offered, up to the cap. Where
/// bytes are offered, that is at least one.
pub proof fn lemma_a_write_takes_as_much_as_fits(call: WriteCall)
    requires
        !call.half.started,
        !call.half.complete,
        call.background is None,
        call.half.pending is None || (call.half.pending == Some(ControlKind::Flush) && call.reply
            == Poll::Ready(ReplyView::Answered(Ok(())))),
        call.slot == Poll::Ready(Slot::Reserved),
    ensures
        call.answer() is Ready && call.answer()->Ready_0 is Ok,
        (call.answer()->Ready_0)->Ok_0 == if call.offered.len() < 65536 {
            call.offered.len() as int
        } else {
            65536
        },
        call.offered.len() > 0 ==> (call.answer()->Ready_0)->Ok_0 > 0 && call.staged() == Some(
            call.offered.take((call.answer()->Ready_0)->Ok_0 as int),
        ),
{
    lemma_one_command_takes_the_front(call.offered);
}

/// A write that offers bytes is never told that none were taken: it is
/// pending, fails, or takes at least one.
pub proof fn lemma_no_write_of_bytes_takes_none(call: WriteCall)
    requires
        call.offered.len() > 0,
    ensures
        call.answer() matches Poll::Ready(Ok(n)) ==> n > 0,
        call.answer() is Ready && call.answer()->Ready_0 is Ok <==> call.staged() is Some,
{
    lemma_one_command_takes_the_front(call.offered);
}

/// What a write is told where it is not let through: to wait while the answer
/// to a control command is outstanding, that the stream is shut down where it
/// is, and else what the flush or the background writer failed with. It is a
/// broken pipe each time.
pub proof fn lemma_a_write_is_told_what_failed(
    half: HalfView,
    reply: Poll<ReplyView>,
    background: Option<Seq<char>>,
    m: Seq<char>,
)
    requires
        half.wf(),
    ensures
        half.pending is Some && reply is Pending ==> half.write_start(reply, background) == (
            half,
            Some(Poll::<Result<usize, ErrorView>>::Pending),
        ),
        (half.started || half.complete) && (half.pending is None || reply is Ready)
            && half.pending != Some(ControlKind::Flush) ==> half.write_start(reply, background).1
            == Some(
            Poll::Ready(
                Err::<usize, ErrorView>(
                    ErrorView { kind: ErrorKind::BrokenPipe, message: "stream shut down"@ },
                ),
            ),
        ),
        half.pending == Some(ControlKind::Flush) && reply == Poll::Ready(
            ReplyView::Answered(Err(m)),
        ) ==> half.write_start(reply, background).1 == Some(
            Poll::Ready(
                Err::<usize, ErrorView>(ErrorView { kind: ErrorKind::BrokenPipe, message: m }),
            ),
        ),
        !half.started && !half.complete && half.pending == Some(ControlKind::Flush) && reply is Ready
            && reply->Ready_0 is Answered && (reply->Ready_0)->Answered_0 is Ok && background
            == Some(m) ==> half.write_start(reply, background).1 == Some(
            Poll::Ready(
                Err::<usize, ErrorView>(ErrorView { kind: ErrorKind::BrokenPipe, message: m }),
            ),
        ),
        half.pending == Some(ControlKind::Flush) && reply == Poll::Ready(ReplyView::Lost)
            && background == Some(m) ==> half.write_start(reply, background).1 == Some(
            Poll::Ready(
                Err::<usize, ErrorView>(ErrorView { kind: ErrorKind::BrokenPipe, message: m }),
            ),
        ),
        half.write_start(reply, background).0 == half.control(reply, background).0,
        !half.started && !half.complete && half.pending is None && background == Some(m)
            ==> half.write_start(reply, background) == (
            half,
            Some(
                Poll::Ready(
                    Err::<usize, ErrorView>(ErrorView { kind: ErrorKind::BrokenPipe, message: m }),
                ),
            ),
        ),
{
}

/// The answer to a control command is taken in once, and touches nothing but
/// what waits for it: without an outstanding command, or without an answer,
/// nothing changes. A flush's failure is told at once; a shutdown's result is
/// kept, and the queue is closed.
pub proof fn lemma_an_answer_is_taken_in_once(
    half: HalfView,
    reply: Poll<ReplyView>,
    background: Option<Seq<char>>,
    m: Seq<char>,
)
    ensures
        ({
            let (after, told) = half.control(reply, background);
            let lost = match background {
                Some(said) => said,
                None => "RTP mux background writer stopped"@,
            };
            &&& half.pending is None ==> after == half && told == Poll::Ready(
                Ok::<Option<ControlKind>, ErrorView>(None),
            )
            &&& half.pending is Some && reply is Pending ==> after == half && told is Pending
            &&& half.pending is Some && reply is Ready ==> after.pending is None && told is Ready
            &&& after.started == half.started && after.complete == half.complete
            &&& half.pending == Some(ControlKind::Flush) ==> after.closed == half.closed
                && after.result == half.result
            &&& half.pending == Some(ControlKind::Flush) && reply == Poll::Ready(
                ReplyView::Answered(Err(m)),
            ) ==> told == Poll::Ready(
                Err::<Option<ControlKind>, ErrorView>(
                    ErrorView { kind: ErrorKind::BrokenPipe, message: m },
                ),
            )
            &&& half.pending == Some(ControlKind::Flush) && reply == Poll::Ready(ReplyView::Lost)
                ==> told == Poll::Ready(
                Err::<Option<ControlKind>, ErrorView>(
                    ErrorView { kind: ErrorKind::BrokenPipe, message: lost },
                ),
            )
            &&& half.pending == Some(ControlKind::Flush) && reply == Poll::Ready(
                ReplyView::Answered(Ok(())),
            ) ==> told == Poll::Ready(
                Ok::<Option<ControlKind>, ErrorView>(Some(ControlKind::Flush)),
            )
            &&& half.pending == Some(ControlKind::Shutdown) && reply is Ready ==> after.closed
                && told == Poll::Ready(
                Ok::<Option<ControlKind>, ErrorView>(Some(ControlKind::Shutdown)),
            )
            &&& half.pending == Some(ControlKind::Shutdown) && reply == Poll::Ready(
                ReplyView::Lost,
            ) ==> after.result == Some(
                Err::<(), ErrorView>(ErrorView { kind: ErrorKind::BrokenPipe, message: lost }),
            )
            &&& half.pending == Some(ControlKind::Shutdown) && reply == Poll::Ready(
                ReplyView::Answered(Err(m)),
            ) ==> after.result == Some(
                Err::<(), ErrorView>(ErrorView { kind: ErrorKind::BrokenPipe, message: m }),
            )
        }),
{
}

/// Nothing more is asked of a half exactly where it is shut down or has
/// failed; a shutdown is what is told first.
pub proof fn lemma_a_half_refuses_once_it_is_done(half: HalfView, background: Option<Seq<char>>)
    ensures
        half.refusal(background) is None <==> !half.started && !half.complete && background is None,
        half.started || half.complete ==> half.refusal(background) == Some(
            ErrorView { kind: ErrorKind::BrokenPipe, message: "stream shut down"@ },
        ),
        !half.started && !half.complete && background is Some ==> half.refusal(background) == Some(
            ErrorView { kind: ErrorKind::BrokenPipe, message: background->0 },
        ),
{
}

/// A queue that is closed fails a write and takes nothing; one that is full
/// takes nothing yet.
pub proof fn lemma_nothing_is_staged_without_a_slot(slot: Poll<Slot>, offered: Seq<u8>)
    requires
        slot != Poll::Ready(Slot::Reserved),
    ensures
        staging(slot, offered).1 is None,
        slot is Pending ==> staging(slot, offered).0 is Pending,
        slot == Poll::Ready(Slot::Closed) ==> staging(slot, offered).0 == Poll::Ready(
            Err::<usize, ErrorView>(
                ErrorView { kind: ErrorKind::BrokenPipe, message: "write channel closed"@ },
            ),
        ),
{
}

/// What is told of an error is its message, and what is told of a result or of
/// a reply is all that it says: whether it is there, whether it is good, and
/// the message where it is not.
pub proof fn lemma_nothing_is_lost_in_the_telling(
    error: BackgroundWriteError,
    failed: IoError,
    value: usize,
)
    ensures
        said(Some(error)) == Some(error.message@),
        said(None) is None,
        told(Err(error)) matches Err(m) && m == error.message@,
        told(Ok(())) is Ok,
        reply_view(Poll::Pending) is Pending,
        reply_view(Poll::Ready(Reply::Lost)) == Poll::Ready(ReplyView::Lost),
        reply_view(Poll::Ready(Reply::Answered(Err(error)))) == Poll::Ready(
            ReplyView::Answered(Err(error.message@)),
        ),
        reply_view(Poll::Ready(Reply::Answered(Ok(())))) matches Poll::Ready(ReplyView::Answered(r))
            && r is Ok,
        polled(Poll::<Result<usize, IoError>>::Pending) is Pending,
        polled(Poll::Ready(Ok::<usize, IoError>(value))) == Poll::Ready(
            Ok::<usize, ErrorView>(value),
        ),
        polled(Poll::Ready(Err::<usize, IoError>(failed))) == Poll::Ready(
            Err::<usize, ErrorView>(
                ErrorView { kind: failed.kind, message: failed.message@ },
            ),
        ),
{
}

} // verus!
