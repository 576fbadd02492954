//! Limits, deadlines and configuration that the two ends agree on.
//!
//! Times are nanoseconds: a duration is a count of them, an instant is the
//! count since an epoch that the caller fixes once.

use vstd::prelude::*;

use crate::addr::SocketAddr;
use crate::error::{ErrorKind, IoError};

verus! {

pub const NANOS_PER_MILLI: u64 = 1_000_000;

pub const NANOS_PER_SEC: u64 = 1_000_000_000;

pub const PAIRING_DEADLINE: u64 = 10_000_000_000;

pub const HELLO_DEADLINE: u64 = 5_000_000_000;

/// The dual-lane hello handshake and the first receive complete within this.
pub const BIRTH_LIVENESS_DEADLINE: u64 = 2_500_000_000;

pub const BIRTH_LIVENESS_GRACE: u64 = 250_000_000;

pub const MAX_DUAL_CONNECT_ATTEMPTS: usize = 3;

pub const MAX_PENDING_LANES: usize = 1024;

pub const MAX_PENDING_LANES_PER_PEER: usize = 32;

pub const ADMISSION_REJECTION_LOG_INTERVAL: u64 = 5_000_000_000;

pub const MAX_CONCURRENT_DUAL_DIALS: usize = 32;

pub const MAX_DIAL_WAITERS_PER_ADDR: usize = 256;

/// Which end of a mux starts it.
#[derive(Clone, Copy, Debug, PartialEq, Eq, Structural)]
pub enum Initiation {
    Client,
    Server,
}

/// How one lane's mux is run.
#[derive(Clone, Copy, Debug, PartialEq, Eq, Structural)]
pub struct MuxConfig {
    pub initiation: Initiation,
    pub heartbeat_interval: u64,
    pub frame_reassembly: bool,
}

/// The presets of forward error correction that are told apart here.
#[derive(Clone, Copy, Debug, PartialEq, Eq, Structural)]
pub enum FecPreset {
    /// Parity is sent promptly, one copy of it.
    InteractivePrompt,
    /// Parity is sent in as many copies as there can be.
    MaxDiversity,
}

/// The interactive lane's error correction: the prompt preset, and group
/// correction in the stream as the transport has it by default.
pub fn interactive_lane_fec_policy(transport_instream_group_fec: bool) -> (r: (FecPreset, bool))
    ensures
        r == (FecPreset::InteractivePrompt, transport_instream_group_fec),
{
    (FecPreset::InteractivePrompt, transport_instream_group_fec)
}

/// The bulk lane's address: the interactive lane's, one port up.
pub fn bulk_lane_addr(interactive: SocketAddr) -> (r: Result<SocketAddr, IoError>)
    ensures
        match r {
            Ok(bulk) => interactive.port() < u16::MAX && bulk == interactive.with_port(
                (interactive.port() + 1) as u16,
            ),
            Err(e) => interactive.port() == u16::MAX && e.is(
                ErrorKind::InvalidInput,
                "RTP mux bulk lane port overflows u16"@,
            ),
        },
{
    let port: u16 = interactive.port();
    if port == u16::MAX {
        return Err(IoError::new(ErrorKind::InvalidInput, "RTP mux bulk lane port overflows u16"));
    }
    Ok(interactive.with_port(port + 1))
}

/// The two lanes of a pair never share an address, and differ in the port
/// alone.
pub proof fn lemma_bulk_lane_is_distinct(interactive: SocketAddr)
    requires
        interactive.port() < u16::MAX,
    ensures
        ({
            let bulk = interactive.with_port((interactive.port() + 1) as u16);
            bulk != interactive && bulk.ip() == interactive.ip() && bulk.port()
                == interactive.port() + 1
        }),
{
}

pub open spec fn lane_config(initiation: Initiation) -> MuxConfig {
    MuxConfig { initiation, heartbeat_interval: 5_000_000_000, frame_reassembly: true }
}

pub fn lane_mux_config(initiation: Initiation) -> (r: MuxConfig)
    ensures
        r == lane_config(initiation),
{
    MuxConfig { initiation, heartbeat_interval: 5_000_000_000, frame_reassembly: true }
}

pub fn server_mux_config() -> (r: MuxConfig)
    ensures
        r == lane_config(Initiation::Server),
{
    lane_mux_config(Initiation::Server)
}

pub fn client_mux_config() -> (r: MuxConfig)
    ensures
        r == lane_config(Initiation::Client),
{
    lane_mux_config(Initiation::Client)
}

/// The two ends of a lane run their mux alike, but for who starts it: both
/// send a heartbeat twice within the pairing deadline, and both put frames
/// together.
pub proof fn lemma_both_ends_run_alike(initiation: Initiation)
    ensures
        lane_config(initiation).initiation == initiation,
        lane_config(initiation).heartbeat_interval * 2 == PAIRING_DEADLINE,
        lane_config(initiation).frame_reassembly,
{
}

} // verus!
