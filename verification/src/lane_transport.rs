//! What each lane asks of its transport.
//!
//! The interactive lane always has forward error correction, hands complete
//! frames up out of order and shares its bottleneck; the bulk lane never has
//! any, stays strictly ordered and has its pipe to itself. `T` tunes the
//! error correction, `O` observes metrics.

use vstd::prelude::*;

use crate::key::ObfuscationKey;
use crate::lane::LaneClass;

verus! {

/// How complete frames are handed up.
#[derive(Clone, Copy, Debug, PartialEq, Eq, Structural)]
pub enum FrameMode {
    /// As the transport does by itself: strictly in order.
    Ordered,
    /// A complete frame behind a hole is handed up at once.
    Reordering,
}

/// What a lane's congestion controller reckons with.
#[derive(Clone, Copy, Debug, PartialEq, Eq, Structural)]
pub enum CongestionLane {
    /// Other traffic in the same queue.
    Shared,
    /// No other traffic in its queue.
    Dedicated,
}

/// What the caller asks of lanes that are dialed.
#[derive(Debug)]
pub struct ConnectSettings<T, O> {
    pub interactive_fec_tuning: T,
    pub interactive_instream_group_fec: bool,
    pub handshake: bool,
    pub metrics_observer: Option<O>,
    pub obfuscation_key: Option<ObfuscationKey>,
}

/// What the caller asks of lanes that are accepted.
#[derive(Debug)]
pub struct AcceptSettings<T, O> {
    pub interactive_fec_tuning: T,
    pub interactive_instream_group_fec: bool,
    pub metrics_observer: Option<O>,
}

/// How a lane is dialed.
#[derive(Debug)]
pub struct ConnectConfig<T, O> {
    pub handshake: bool,
    pub fec: bool,
    pub fec_tuning: T,
    pub instream_group_fec: bool,
    pub metrics_observer: Option<O>,
    pub obfuscation_key: Option<[u8; 32]>,
    pub frame_delivery: FrameMode,
    pub congestion_lane: CongestionLane,
}

/// How a lane is accepted.
#[derive(Debug)]
pub struct AcceptConfig<T, O> {
    pub fec: bool,
    pub fec_tuning: T,
    pub instream_group_fec: bool,
    pub metrics_observer: Option<O>,
    pub frame_delivery: FrameMode,
    pub congestion_lane: CongestionLane,
}

/// Whether a lane has forward error correction.
pub open spec fn has_fec(lane: LaneClass) -> bool {
    lane == LaneClass::Interactive
}

pub open spec fn frame_mode(lane: LaneClass) -> FrameMode {
    match lane {
        LaneClass::Interactive => FrameMode::Reordering,
        LaneClass::Bulk => FrameMode::Ordered,
    }
}

pub open spec fn congestion(lane: LaneClass) -> CongestionLane {
    match lane {
        LaneClass::Interactive => CongestionLane::Shared,
        LaneClass::Bulk => CongestionLane::Dedicated,
    }
}

pub fn fec_enabled(lane: LaneClass) -> (r: bool)
    ensures
        r == has_fec(lane),
{
    matches!(lane, LaneClass::Interactive)
}

pub fn frame_delivery(lane: LaneClass) -> (r: FrameMode)
    ensures
        r == frame_mode(lane),
{
    if fec_enabled(lane) {
        FrameMode::Reordering
    } else {
        FrameMode::Ordered
    }
}

pub fn congestion_lane(lane: LaneClass) -> (r: CongestionLane)
    ensures
        r == congestion(lane),
{
    match lane {
        LaneClass::Bulk => CongestionLane::Dedicated,
        LaneClass::Interactive => CongestionLane::Shared,
    }
}

/// How a lane is dialed; `default_tuning` is the transport's own.
pub fn connect_config<T, O>(
    lane: LaneClass,
    settings: ConnectSettings<T, O>,
    default_tuning: T,
) -> (r: ConnectConfig<T, O>)
    ensures
        r.handshake == settings.handshake,
        r.fec == has_fec(lane),
        r.fec_tuning == if has_fec(lane) {
            settings.interactive_fec_tuning
        } else {
            default_tuning
        },
        r.instream_group_fec == (has_fec(lane) && settings.interactive_instream_group_fec),
        r.metrics_observer == settings.metrics_observer,
        r.obfuscation_key == match settings.obfuscation_key {
            Some(key) => Some(key.key()),
            None => None,
        },
        r.frame_delivery == frame_mode(lane),
        r.congestion_lane == congestion(lane),
{
    let fec = fec_enabled(lane);
    ConnectConfig {
        handshake: settings.handshake,
        fec,
        fec_tuning: if fec {
            settings.interactive_fec_tuning
        } else {
            default_tuning
        },
        instream_group_fec: fec && settings.interactive_instream_group_fec,
        metrics_observer: settings.metrics_observer,
        obfuscation_key: match settings.obfuscation_key {
            Some(key) => Some(key.into_bytes()),
            None => None,
        },
        frame_delivery: frame_delivery(lane),
        congestion_lane: congestion_lane(lane),
    }
}

/// How a lane is accepted; `default_tuning` is the transport's own.
pub fn accept_config<T, O>(
    lane: LaneClass,
    settings: AcceptSettings<T, O>,
    default_tuning: T,
) -> (r: AcceptConfig<T, O>)
    ensures
        r.fec == has_fec(lane),
        r.fec_tuning == if has_fec(lane) {
            settings.interactive_fec_tuning
        } else {
            default_tuning
        },
        r.instream_group_fec == (has_fec(lane) && settings.interactive_instream_group_fec),
        r.metrics_observer == settings.metrics_observer,
        r.frame_delivery == frame_mode(lane),
        r.congestion_lane == congestion(lane),
{
    let fec = fec_enabled(lane);
    AcceptConfig {
        fec,
        fec_tuning: if fec {
            settings.interactive_fec_tuning
        } else {
            default_tuning
        },
        instream_group_fec: fec && settings.interactive_instream_group_fec,
        metrics_observer: settings.metrics_observer,
        frame_delivery: frame_delivery(lane),
        congestion_lane: congestion_lane(lane),
    }
}

/// The interactive lane has error correction, hands complete frames up out of
/// order and shares its bottleneck; the bulk lane has no error correction, is
/// strictly ordered and has its pipe to itself. No two lanes agree in any of
/// these.
pub proof fn lemma_the_lanes_differ_in_everything(lane: LaneClass)
    ensures
        has_fec(LaneClass::Interactive) && !has_fec(LaneClass::Bulk),
        frame_mode(LaneClass::Interactive) == FrameMode::Reordering,
        frame_mode(LaneClass::Bulk) == FrameMode::Ordered,
        congestion(LaneClass::Interactive) == CongestionLane::Shared,
        congestion(LaneClass::Bulk) == CongestionLane::Dedicated,
        has_fec(lane) <==> !has_fec(lane.opposite()),
        has_fec(lane) <==> frame_mode(lane) == FrameMode::Reordering,
        has_fec(lane) <==> congestion(lane) == CongestionLane::Shared,
{
}

} // verus!
