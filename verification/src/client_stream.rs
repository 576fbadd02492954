//! The reading side of a stream that the dialing end has opened.
//!
//! The reader arrives over a channel once the stream has been opened; until
//! then reading waits for it, and a channel that closes without one fails
//! every read.

use vstd::prelude::*;

use crate::addr::SocketAddrPair;
use crate::error::{broken_pipe, ErrorKind, ErrorView, IoError};
use crate::poll::Poll;

verus! {

/// How far the reader has come.
#[derive(Clone, Copy, Debug, PartialEq, Eq, Structural)]
pub enum ReaderState {
    /// The reader of the first session is awaited.
    Pending,
    /// The reader that follows the stream across sessions is awaited.
    PendingSpliced,
    Ready,
    ReadySpliced,
    Failed,
}

/// How a read goes on.
#[derive(Debug)]
pub enum ReadStep {
    /// The channel that brings the reader is polled.
    PollChannel,
    /// The reader is there and is read from.
    Read,
    /// The reader is not there yet.
    Pending,
    Fail(IoError),
}

/// What a read step says.
#[verifier::ext_equal]
pub enum ReadStepView {
    PollChannel,
    Read,
    Pending,
    Fail(ErrorView),
}

impl View for ReadStep {
    type V = ReadStepView;

    open spec fn view(&self) -> ReadStepView {
        match *self {
            ReadStep::PollChannel => ReadStepView::PollChannel,
            ReadStep::Read => ReadStepView::Read,
            ReadStep::Pending => ReadStepView::Pending,
            ReadStep::Fail(e) => ReadStepView::Fail(e@),
        }
    }
}

impl ReaderState {
    /// How a read starts in this state.
    pub open spec fn started(self) -> ReadStepView {
        match self {
            ReaderState::Pending | ReaderState::PendingSpliced => ReadStepView::PollChannel,
            ReaderState::Ready | ReaderState::ReadySpliced => ReadStepView::Read,
            ReaderState::Failed => ReadStepView::Fail(
                broken_pipe("gen-0 reader channel closed before write"@),
            ),
        }
    }

    /// The state once the channel has brought its reader, or has closed.
    pub open spec fn received(self, reader: bool) -> ReaderState {
        match self {
            ReaderState::Pending => if reader {
                ReaderState::Ready
            } else {
                ReaderState::Failed
            },
            ReaderState::PendingSpliced => if reader {
                ReaderState::ReadySpliced
            } else {
                ReaderState::Failed
            },
            other => other,
        }
    }
}

/// A stream that the dialing end has opened.
#[derive(Debug)]
pub struct ClientStream {
    reader_state: ReaderState,
    addr: SocketAddrPair,
}

impl ClientStream {
    pub closed spec fn state(&self) -> ReaderState {
        self.reader_state
    }

    pub closed spec fn spec_addr(&self) -> SocketAddrPair {
        self.addr
    }

    pub fn new(addr: SocketAddrPair) -> (r: Self)
        ensures
            r.state() == ReaderState::Pending,
            r.spec_addr() == addr,
    {
        ClientStream { reader_state: ReaderState::Pending, addr }
    }

    pub fn new_duplex(addr: SocketAddrPair) -> (r: Self)
        ensures
            r.state() == ReaderState::PendingSpliced,
            r.spec_addr() == addr,
    {
        ClientStream { reader_state: ReaderState::PendingSpliced, addr }
    }

    pub fn addr(&self) -> (r: SocketAddrPair)
        ensures
            r == self.spec_addr(),
    {
        self.addr
    }

    /// Starts a read.
    pub fn poll_read(&self) -> (r: ReadStep)
        ensures
            r@ == self.state().started(),
    {
        match self.reader_state {
            ReaderState::Pending => ReadStep::PollChannel,
            ReaderState::PendingSpliced => ReadStep::PollChannel,
            ReaderState::Ready => ReadStep::Read,
            ReaderState::ReadySpliced => ReadStep::Read,
            ReaderState::Failed => ReadStep::Fail(
                IoError::new(ErrorKind::BrokenPipe, "gen-0 reader channel closed before write"),
            ),
        }
    }

    /// Goes on with a read once the channel has been polled: `Ready(true)`
    /// where it brought the reader, `Ready(false)` where it has closed.
    pub fn channel_polled(&mut self, polled: Poll<bool>) -> (r: ReadStep)
        requires
            old(self).state() == ReaderState::Pending || old(self).state()
                == ReaderState::PendingSpliced,
        ensures
            final(self).spec_addr() == old(self).spec_addr(),
            match polled {
                Poll::Pending => r is Pending && final(self).state() == old(self).state(),
                Poll::Ready(reader) => final(self).state() == old(self).state().received(reader)
                    && r@ == if reader {
                    ReadStepView::Read
                } else if old(self).state() == ReaderState::Pending {
                    ReadStepView::Fail(broken_pipe("gen-0 reader channel closed before write"@))
                } else {
                    ReadStepView::Fail(broken_pipe("response splice channel closed before write"@))
                },
            },
    {
        let reader = match polled {
            Poll::Pending => {
                return ReadStep::Pending;
            },
            Poll::Ready(reader) => reader,
        };
        let spliced = match self.reader_state {
            ReaderState::PendingSpliced => true,
            _ => false,
        };
        if reader {
            self.reader_state = if spliced {
                ReaderState::ReadySpliced
            } else {
                ReaderState::Ready
            };
            return ReadStep::Read;
        }
        self.reader_state = ReaderState::Failed;
        if spliced {
            ReadStep::Fail(
                IoError::new(ErrorKind::BrokenPipe, "response splice channel closed before write"),
            )
        } else {
            ReadStep::Fail(
                IoError::new(ErrorKind::BrokenPipe, "gen-0 reader channel closed before write"),
            )
        }
    }
}

/// A reader that has arrived stays, and so does a failure: no later news from
/// a channel changes either.
pub proof fn lemma_reader_state_settles(state: ReaderState, first: bool, second: bool)
    ensures
        state.received(first).received(second) == state.received(first),
        state.received(first).started() != ReadStepView::PollChannel,
{
}

/// A read waits for its channel exactly as long as the channel has brought
/// nothing: once it has brought the reader every read goes to it, and once it
/// has closed without one every read fails with a broken pipe.
pub proof fn lemma_reads_follow_what_the_channel_brought(state: ReaderState)
    requires
        state.started() == ReadStepView::PollChannel,
    ensures
        state == ReaderState::Pending || state == ReaderState::PendingSpliced,
        state.received(true).started() == ReadStepView::Read,
        state.received(false).started() matches ReadStepView::Fail(error) && error.kind
            == ErrorKind::BrokenPipe && error.message == "gen-0 reader channel closed before write"@,
        state.received(true) == ReaderState::ReadySpliced <==> state
            == ReaderState::PendingSpliced,
        state.received(true) == ReaderState::Ready <==> state == ReaderState::Pending,
        state.received(false) == ReaderState::Failed,
{
}

/// A stream whose reader has not come waits for it, and one whose reader has
/// come, or will not, does not.
pub proof fn lemma_only_pending_readers_are_awaited(state: ReaderState)
    ensures
        state == ReaderState::Pending || state == ReaderState::PendingSpliced ==> state.started()
            == ReadStepView::PollChannel,
        state == ReaderState::Ready || state == ReaderState::ReadySpliced ==> state.started()
            == ReadStepView::Read && state.received(false) == state && state.received(true)
            == state,
        state == ReaderState::Failed ==> state.started() is Fail && state.received(true) == state,
{
}

/// What a read step says is all that there is of it: a failure says its kind
/// and its message.
pub proof fn lemma_a_read_step_says_what_it_is(error: IoError)
    ensures
        ReadStep::PollChannel@ == ReadStepView::PollChannel,
        ReadStep::Read@ == ReadStepView::Read,
        ReadStep::Pending@ == ReadStepView::Pending,
        ReadStep::Fail(error)@ == ReadStepView::Fail(
            ErrorView { kind: error.kind, message: error.message@ },
        ),
{
}

} // verus!
