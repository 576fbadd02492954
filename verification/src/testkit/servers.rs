//! What the kit's servers decide about the streams they accept.

use vstd::prelude::*;

use crate::addr::SocketAddr;
use crate::error::ErrorKind;

verus! {

/// The tag of a stream whose frames are sent back.
pub const ECHO_TAG: u8 = 69;

/// The tag of a stream of timestamped frames.
pub const LATENCY_TAG: u8 = 76;

/// The tag of a stream of game frames.
pub const GAME_TAG: u8 = 71;

/// The tag of a bulk stream.
pub const BULK_TAG: u8 = 66;

/// The bytes that a game stream starts with: its state, three mebibytes.
pub const SYNC_BYTES: usize = 3_145_728;

/// The number of runs of a probe.
pub const PROBE_ITERS: usize = 5;

/// The bytes of a bulk probe.
pub const BULK: usize = 4_194_304;

/// The segment size of probes over the loopback.
pub const LOOPBACK_MSS: usize = 8192;

/// Into how many parts the hostile probe's window is split.
pub const HOSTILE_GUARD_SUBWINDOWS: usize = 3;

/// The servers of the kit, by how they tell streams apart.
#[derive(Clone, Copy, Debug, PartialEq, Eq, Structural)]
pub enum ServerKind {
    /// Sessions of two lanes; the lane of the stream tells them apart.
    DualLane { interactive: bool },
    /// One mux over one connection.
    LatencyBulk,
    /// One mux with a game stream, which may have come already.
    GamingLatencyBulk { game_came: bool },
    /// One mux with frame delivery.
    FrameDelivery,
}

/// What is done with a stream.
#[derive(Clone, Copy, Debug, PartialEq, Eq, Structural)]
pub enum StreamRole {
    /// Frames are timed and sent back.
    Echo,
    /// Frames are timed.
    Latency,
    /// A number of bytes is skipped, then frames are timed.
    SyncThenLatency,
    /// Bytes are verified and counted.
    BulkVerified,
    /// Bytes are counted.
    BulkCounted,
}

/// What a server does with a stream that starts with that tag: in a session
/// of two lanes, the interactive lane's streams are timed and the bulk lane's
/// are verified, unless a stream asks for its frames back; of the streams
/// that are tagged as a game's, the first is the game.
pub open spec fn role(kind: ServerKind, tag: u8) -> StreamRole {
    match kind {
        ServerKind::DualLane { .. } if tag == ECHO_TAG => StreamRole::Echo,
        ServerKind::DualLane { interactive: true } => StreamRole::Latency,
        ServerKind::DualLane { interactive: false } => StreamRole::BulkVerified,
        ServerKind::LatencyBulk if tag == LATENCY_TAG => StreamRole::Latency,
        ServerKind::LatencyBulk => StreamRole::BulkVerified,
        ServerKind::GamingLatencyBulk { game_came: false } if tag == GAME_TAG => {
            StreamRole::SyncThenLatency
        },
        ServerKind::GamingLatencyBulk { .. } => StreamRole::BulkVerified,
        ServerKind::FrameDelivery if tag == BULK_TAG => StreamRole::BulkCounted,
        ServerKind::FrameDelivery => StreamRole::Latency,
    }
}

/// The server once a stream with that tag has come.
pub open spec fn after_stream(kind: ServerKind, tag: u8) -> ServerKind {
    match kind {
        ServerKind::GamingLatencyBulk { game_came } => ServerKind::GamingLatencyBulk {
            game_came: game_came || tag == GAME_TAG,
        },
        _ => kind,
    }
}

/// The server once streams with those tags have come.
pub open spec fn after_streams(kind: ServerKind, tags: Seq<u8>) -> ServerKind
    decreases tags.len(),
{
    if tags.len() == 0 {
        kind
    } else {
        after_stream(after_streams(kind, tags.drop_last()), tags.last())
    }
}

/// What a server does with a stream that starts with that tag.
pub fn classify_stream(kind: ServerKind, tag: u8) -> (r: StreamRole)
    ensures
        r == role(kind, tag),
{
    match kind {
        ServerKind::DualLane { interactive } => if tag == ECHO_TAG {
            StreamRole::Echo
        } else if interactive {
            StreamRole::Latency
        } else {
            StreamRole::BulkVerified
        },
        ServerKind::LatencyBulk => if tag == LATENCY_TAG {
            StreamRole::Latency
        } else {
            StreamRole::BulkVerified
        },
        ServerKind::GamingLatencyBulk { game_came } => if !game_came && tag == GAME_TAG {
            StreamRole::SyncThenLatency
        } else {
            StreamRole::BulkVerified
        },
        ServerKind::FrameDelivery => if tag != BULK_TAG {
            StreamRole::Latency
        } else {
            StreamRole::BulkCounted
        },
    }
}

impl ServerKind {
    /// A server that starts now and tells a game stream from bulk streams.
    pub fn gaming() -> (r: Self)
        ensures
            r == (ServerKind::GamingLatencyBulk { game_came: false }),
    {
        ServerKind::GamingLatencyBulk { game_came: false }
    }

    /// A stream with that tag has come.
    pub fn accept(&mut self, tag: u8) -> (r: StreamRole)
        ensures
            r == role(*old(self), tag),
            *final(self) == after_stream(*old(self), tag),
    {
        let r = classify_stream(*self, tag);
        if let ServerKind::GamingLatencyBulk { game_came } = *self {
            *self = ServerKind::GamingLatencyBulk { game_came: game_came || tag == GAME_TAG };
        }
        r
    }
}

proof fn lemma_game_came(tags: Seq<u8>)
    ensures
        after_streams(ServerKind::GamingLatencyBulk { game_came: false }, tags) == (
        ServerKind::GamingLatencyBulk {
            game_came: exists|j: int| 0 <= j < tags.len() && #[trigger] tags[j] == GAME_TAG,
        }),
    decreases tags.len(),
{
    if tags.len() > 0 {
        let before = tags.drop_last();
        lemma_game_came(before);
        if exists|j: int| 0 <= j < before.len() && #[trigger] before[j] == GAME_TAG {
            let j = choose|j: int| 0 <= j < before.len() && #[trigger] before[j] == GAME_TAG;
            assert(tags[j] == GAME_TAG);
        }
        if exists|j: int| 0 <= j < tags.len() && #[trigger] tags[j] == GAME_TAG {
            let j = choose|j: int| 0 <= j < tags.len() && #[trigger] tags[j] == GAME_TAG;
            if j < before.len() {
                assert(before[j] == GAME_TAG);
            }
        }
        if tags.last() == GAME_TAG {
            assert(tags[tags.len() - 1] == GAME_TAG);
        }
    }
}

/// Of all the streams that come, the first one tagged as a game's is the game
/// stream, and every other is a bulk stream.
pub proof fn lemma_one_game_stream(tags: Seq<u8>, tag: u8)
    ensures
        role(after_streams(ServerKind::GamingLatencyBulk { game_came: false }, tags), tag) == if tag
            == GAME_TAG && forall|j: int| 0 <= j < tags.len() ==> #[trigger] tags[j] != GAME_TAG {
            StreamRole::SyncThenLatency
        } else {
            StreamRole::BulkVerified
        },
{
    lemma_game_came(tags);
}

/// No stream of a bulk lane is timed unless it asks for its frames back, and
/// no stream of an interactive lane is taken for bulk.
pub proof fn lemma_the_lane_decides(interactive: bool, tag: u8)
    requires
        tag != ECHO_TAG,
    ensures
        role(ServerKind::DualLane { interactive }, tag) == if interactive {
            StreamRole::Latency
        } else {
            StreamRole::BulkVerified
        },
{
}

/// What happened to a server that serves one connection.
#[derive(Clone, Copy, Debug, PartialEq, Eq, Structural)]
pub enum ServerEvent {
    /// The connection's drivers ended.
    SupervisorEnded,
    /// What drains further connections ended.
    DrainerEnded,
    StreamAccepted,
    AcceptFailed,
    HandlerEnded,
    /// The mux session ended.
    SessionEnded,
}

/// What the server does.
#[derive(Clone, Copy, Debug, PartialEq, Eq, Structural)]
pub enum ServerStep {
    /// The stream is handed to a handler.
    Serve,
    Continue,
    /// It accepts no further stream and waits for what runs; the session's
    /// end is noted where `record` is set.
    Drain { record: bool },
    /// It fails: the drainer lives as long as the server.
    Fail,
}

pub fn server_step(event: ServerEvent) -> (r: ServerStep)
    ensures
        r == match event {
            ServerEvent::StreamAccepted => ServerStep::Serve,
            ServerEvent::HandlerEnded => ServerStep::Continue,
            ServerEvent::SupervisorEnded => ServerStep::Drain { record: false },
            ServerEvent::AcceptFailed => ServerStep::Drain { record: false },
            ServerEvent::SessionEnded => ServerStep::Drain { record: true },
            ServerEvent::DrainerEnded => ServerStep::Fail,
        },
{
    match event {
        ServerEvent::StreamAccepted => ServerStep::Serve,
        ServerEvent::HandlerEnded => ServerStep::Continue,
        ServerEvent::SupervisorEnded => ServerStep::Drain { record: false },
        ServerEvent::AcceptFailed => ServerStep::Drain { record: false },
        ServerEvent::SessionEnded => ServerStep::Drain { record: true },
        ServerEvent::DrainerEnded => ServerStep::Fail,
    }
}

/// Whether a stream that was read to its end is handed on: it is unless it
/// failed before its first byte.
pub fn hands_on(read_ok: bool, bytes: usize) -> (r: bool)
    ensures
        r == (read_ok || bytes > 0),
{
    read_ok || bytes > 0
}

/// Whether an error after the last byte was sent is of no account: the
/// transport may give up once there is nothing to send.
pub fn eof_error_tolerated(kind: ErrorKind) -> (r: bool)
    ensures
        r == (kind == ErrorKind::BrokenPipe),
{
    kind == ErrorKind::BrokenPipe
}

/// Where a connection to that address is bound: anywhere, in its family.
pub fn unspecified_bind(addr: SocketAddr) -> (r: SocketAddr)
    ensures
        r.ip().unspecified(),
        r.port() == 0,
        (r is V4) == (addr is V4),
        r is V6 ==> r == (SocketAddr::V6 { ip: 0, port: 0, flowinfo: 0, scope_id: 0 }),
{
    match addr {
        SocketAddr::V4 { .. } => SocketAddr::V4 { ip: 0, port: 0 },
        SocketAddr::V6 { .. } => SocketAddr::V6 { ip: 0, port: 0, flowinfo: 0, scope_id: 0 },
    }
}

/// Frames are sent back in a session of two lanes exactly where the stream asks
/// for it, on either lane.
pub proof fn lemma_frames_are_sent_back_on_request(kind: ServerKind, tag: u8)
    ensures
        role(kind, tag) == StreamRole::Echo <==> kind is DualLane && tag == 69,
{
}

/// On one mux the tag decides: without frame delivery a stream is timed where
/// it is tagged so and else is bulk that is verified; with it a stream is bulk
/// that is counted where it is tagged so and else is timed.
pub proof fn lemma_the_tag_decides_on_one_mux(tag: u8)
    ensures
        role(ServerKind::LatencyBulk, tag) == if tag == 76 {
            StreamRole::Latency
        } else {
            StreamRole::BulkVerified
        },
        role(ServerKind::FrameDelivery, tag) == if tag == 66 {
            StreamRole::BulkCounted
        } else {
            StreamRole::Latency
        },
{
}

/// A stream changes what its server is only where the server waits for a game
/// and the stream is one; a game that has come has come for good.
pub proof fn lemma_only_a_game_changes_its_server(kind: ServerKind, tag: u8)
    ensures
        kind !is GamingLatencyBulk ==> after_stream(kind, tag) == kind,
        tag != 71 ==> after_stream(kind, tag) == kind,
        kind is GamingLatencyBulk && tag == 71 ==> after_stream(kind, tag) == (
        ServerKind::GamingLatencyBulk { game_came: true }),
        after_stream(after_stream(kind, tag), tag) == after_stream(kind, tag),
{
}

} // verus!
