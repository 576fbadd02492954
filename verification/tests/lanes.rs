use rtp_mux::addr::{SocketAddr, SocketAddrPair};
use rtp_mux::error::ErrorKind;
use rtp_mux::key::ObfuscationKey;
use rtp_mux::lane::LaneClass;
use rtp_mux::lane_rejection::{LaneRejectionClass, LaneRejectionLog, RejectedLaneContext};
use rtp_mux::lane_transport::{
    accept_config, connect_config, AcceptSettings, ConnectSettings, CongestionLane, FrameMode,
};
use rtp_mux::session::SessionSpawner;
use rtp_mux::shared::{
    bulk_lane_addr, client_mux_config, interactive_lane_fec_policy, server_mux_config, FecPreset,
    Initiation,
};
use rtp_mux::stream::ServerStream;
use rtp_mux::testkit::fec::probe_interactive_fec_tuning;

const LOCALHOST: u32 = 0x7f00_0001;

fn addr(port: u16) -> SocketAddr {
    SocketAddr::V4 { ip: LOCALHOST, port }
}

const ALL: [LaneRejectionClass; 9] = [
    LaneRejectionClass::Capacity,
    LaneRejectionClass::HelloTimeout,
    LaneRejectionClass::HelloParse,
    LaneRejectionClass::ClassMismatch,
    LaneRejectionClass::Admission,
    LaneRejectionClass::GroupFull,
    LaneRejectionClass::PairingTimeout,
    LaneRejectionClass::BirthHeartbeat,
    LaneRejectionClass::ReservationLost,
];

fn rejection(class: LaneRejectionClass, lane: LaneClass, reason: &str) -> RejectedLaneContext {
    RejectedLaneContext {
        class,
        peer: addr(1000),
        local_addr: addr(2000),
        expected_class: Some(lane),
        reason: reason.to_string(),
    }
}

#[test]
fn every_lane_rejection_class_has_its_own_metric() {
    let mut seen = std::collections::HashMap::new();
    for class in ALL {
        if let Some(other) = seen.insert(class.metric_name(), class) {
            panic!("{class:?} and {other:?} both count into {:?}", class.metric_name());
        }
    }
    assert_eq!(
        LaneRejectionClass::HelloParse.metric_name(),
        "stream.rtp_mux.hello_parse_error"
    );
}

#[test]
fn lane_rejection_log_aggregates_across_classes_peers_and_lanes() {
    let mut log = LaneRejectionLog::new();
    log.record(rejection(LaneRejectionClass::HelloTimeout, LaneClass::Interactive, "test"));
    log.record(rejection(LaneRejectionClass::HelloTimeout, LaneClass::Interactive, "test"));
    log.record(rejection(LaneRejectionClass::HelloParse, LaneClass::Bulk, "test"));
    assert_eq!(log.total, 3);
    assert_eq!(log.recorded(LaneRejectionClass::HelloTimeout), 2);
    assert_eq!(log.recorded(LaneRejectionClass::HelloParse), 1);
    assert_eq!(log.recorded(LaneRejectionClass::Capacity), 0);
}

#[test]
fn flushing_hands_out_the_first_and_the_last_rejection_and_starts_over() {
    let mut log = LaneRejectionLog::new();
    assert!(log.flush().is_none());
    log.record(rejection(LaneRejectionClass::Capacity, LaneClass::Bulk, "first"));
    log.record(rejection(LaneRejectionClass::GroupFull, LaneClass::Bulk, "second"));
    log.record(rejection(LaneRejectionClass::Admission, LaneClass::Bulk, "third"));
    let summary = log.flush().expect("three lanes were rejected");
    assert_eq!(summary.total, 3);
    assert_eq!(summary.first.unwrap().reason, "first");
    assert_eq!(summary.last.unwrap().reason, "third");
    assert_eq!(log.total, 0);
    assert!(log.first.is_none());
    assert!(log.flush().is_none());
}

#[test]
fn the_bulk_lane_address_is_the_interactive_port_plus_one() {
    assert_eq!(bulk_lane_addr(addr(1234)).unwrap(), addr(1235));
    assert_eq!(bulk_lane_addr(addr(65534)).unwrap(), addr(65535));
    let overflow = bulk_lane_addr(addr(u16::MAX)).expect_err("there is no port above 65535");
    assert_eq!(overflow.kind(), ErrorKind::InvalidInput);
    assert_eq!(overflow.message, "RTP mux bulk lane port overflows u16");
}

#[test]
fn bulk_lane_port_rejects_overflow() {
    assert!(bulk_lane_addr(addr(u16::MAX)).is_err());
    let v6 = SocketAddr::V6 { ip: 1, port: 9, flowinfo: 3, scope_id: 4 };
    assert_eq!(
        bulk_lane_addr(v6).unwrap(),
        SocketAddr::V6 { ip: 1, port: 10, flowinfo: 3, scope_id: 4 }
    );
}

#[test]
fn the_interactive_lane_fec_policy_is_the_prompt_preset_over_the_transport_default() {
    for transport_default in [false, true] {
        let (tuning, instream_group_fec) = interactive_lane_fec_policy(transport_default);
        assert_eq!(tuning, FecPreset::InteractivePrompt);
        assert_eq!(instream_group_fec, transport_default);
    }
}

#[test]
fn the_fec_probe_preset_is_stronger_than_the_shipped_default() {
    let probe = probe_interactive_fec_tuning();
    assert_eq!(probe, (FecPreset::MaxDiversity, true));
    for transport_default in [false, true] {
        let shipped = interactive_lane_fec_policy(transport_default);
        assert_eq!(shipped.0, FecPreset::InteractivePrompt);
        assert_ne!(probe, shipped);
    }
}

#[test]
fn the_two_lane_configs_declare_complementary_mux_roles() {
    let client = client_mux_config();
    let server = server_mux_config();
    assert_eq!(client.initiation, Initiation::Client);
    assert_eq!(server.initiation, Initiation::Server);
    assert!(client.frame_reassembly && server.frame_reassembly);
    assert_eq!(client.heartbeat_interval, 5_000_000_000);
    assert_eq!(server.heartbeat_interval, 5_000_000_000);
}

const DEFAULT: &str = "default";

fn connect_settings(
    tuning: &'static str,
    instream_group_fec: bool,
    handshake: bool,
    observer: Option<u32>,
) -> ConnectSettings<&'static str, u32> {
    ConnectSettings {
        interactive_fec_tuning: tuning,
        interactive_instream_group_fec: instream_group_fec,
        handshake,
        metrics_observer: observer,
        obfuscation_key: None,
    }
}

fn accept_settings(
    tuning: &'static str,
    instream_group_fec: bool,
    observer: Option<u32>,
) -> AcceptSettings<&'static str, u32> {
    AcceptSettings {
        interactive_fec_tuning: tuning,
        interactive_instream_group_fec: instream_group_fec,
        metrics_observer: observer,
    }
}

#[test]
fn interactive_lane_always_enables_fec() {
    let connect = connect_config(
        LaneClass::Interactive,
        connect_settings("max_diversity", true, true, Some(1)),
        DEFAULT,
    );
    assert!(connect.fec);
    assert_eq!(connect.fec_tuning, "max_diversity");
    assert!(connect.instream_group_fec);
    let accept = accept_config(
        LaneClass::Interactive,
        accept_settings("max_diversity", true, Some(1)),
        DEFAULT,
    );
    assert!(accept.fec);
    assert_eq!(accept.fec_tuning, "max_diversity");
    assert!(accept.instream_group_fec);
}

#[test]
fn bulk_lane_disables_every_fec_mode() {
    let connect = connect_config(
        LaneClass::Bulk,
        connect_settings("max_diversity", true, true, None),
        DEFAULT,
    );
    assert!(!connect.fec);
    assert_eq!(connect.fec_tuning, DEFAULT);
    assert!(!connect.instream_group_fec);
    let accept =
        accept_config(LaneClass::Bulk, accept_settings("max_diversity", true, None), DEFAULT);
    assert!(!accept.fec);
    assert_eq!(accept.fec_tuning, DEFAULT);
    assert!(!accept.instream_group_fec);
}

#[test]
fn interactive_lane_enables_frame_delivery_fast_forward() {
    let connect = connect_config(
        LaneClass::Interactive,
        connect_settings(DEFAULT, false, true, None),
        DEFAULT,
    );
    assert_eq!(connect.frame_delivery, FrameMode::Reordering);
    let accept =
        accept_config(LaneClass::Interactive, accept_settings(DEFAULT, false, None), DEFAULT);
    assert_eq!(accept.frame_delivery, FrameMode::Reordering);
}

#[test]
fn bulk_lane_stays_strictly_ordered() {
    let connect =
        connect_config(LaneClass::Bulk, connect_settings(DEFAULT, false, true, None), DEFAULT);
    assert_eq!(connect.frame_delivery, FrameMode::Ordered);
    let accept = accept_config(LaneClass::Bulk, accept_settings(DEFAULT, false, None), DEFAULT);
    assert_eq!(accept.frame_delivery, FrameMode::Ordered);
}

#[test]
fn bulk_lane_declares_a_dedicated_congestion_lane() {
    let connect =
        connect_config(LaneClass::Bulk, connect_settings(DEFAULT, false, true, None), DEFAULT);
    assert_eq!(connect.congestion_lane, CongestionLane::Dedicated);
    assert_eq!(connect.frame_delivery, FrameMode::Ordered);
    let accept = accept_config(LaneClass::Bulk, accept_settings(DEFAULT, false, None), DEFAULT);
    assert_eq!(accept.congestion_lane, CongestionLane::Dedicated);
}

#[test]
fn interactive_lane_declares_a_shared_congestion_lane() {
    let connect = connect_config(
        LaneClass::Interactive,
        connect_settings(DEFAULT, false, true, None),
        DEFAULT,
    );
    assert_eq!(connect.congestion_lane, CongestionLane::Shared);
    let accept =
        accept_config(LaneClass::Interactive, accept_settings(DEFAULT, false, None), DEFAULT);
    assert_eq!(accept.congestion_lane, CongestionLane::Shared);
}

#[test]
fn connect_config_preserves_requested_handshake_mode() {
    for handshake in [true, false] {
        let config = connect_config(
            LaneClass::Interactive,
            connect_settings(DEFAULT, false, handshake, None),
            DEFAULT,
        );
        assert_eq!(config.handshake, handshake);
    }
}

#[test]
fn per_lane_observers_survive_transport_configuration() {
    for (lane, observer) in [(LaneClass::Interactive, 1), (LaneClass::Bulk, 2)] {
        let connect =
            connect_config(lane, connect_settings(DEFAULT, false, true, Some(observer)), DEFAULT);
        assert_eq!(connect.metrics_observer, Some(observer));
        let accept = accept_config(lane, accept_settings(DEFAULT, false, Some(observer)), DEFAULT);
        assert_eq!(accept.metrics_observer, Some(observer));
    }
}

#[test]
fn obfuscation_key_is_passed_through_to_the_rtp_connect_config() {
    let key = ObfuscationKey::from_bytes([7; 32]);
    let connect = connect_config(
        LaneClass::Interactive,
        ConnectSettings {
            obfuscation_key: Some(key),
            ..connect_settings(DEFAULT, false, true, None)
        },
        DEFAULT,
    );
    assert_eq!(connect.obfuscation_key, Some([7; 32]));
    let plain = connect_config(
        LaneClass::Interactive,
        connect_settings(DEFAULT, false, true, None),
        DEFAULT,
    );
    assert_eq!(plain.obfuscation_key, None);
}

#[test]
fn a_key_gives_back_the_bytes_it_was_made_of() {
    let mut bytes = [0u8; 32];
    for (i, byte) in bytes.iter_mut().enumerate() {
        *byte = i as u8;
    }
    let key = ObfuscationKey::from_bytes(bytes);
    assert_eq!(key.as_bytes(), &bytes);
    assert_eq!(key.into_bytes(), bytes);
}

#[test]
fn two_keys_are_equal_where_all_their_bytes_are() {
    let key = ObfuscationKey::from_bytes([7; 32]);
    assert_eq!(key, ObfuscationKey::from_bytes([7; 32]));
    for i in [0, 15, 31] {
        let mut bytes = [7; 32];
        bytes[i] = 8;
        assert_ne!(key, ObfuscationKey::from_bytes(bytes));
    }
}

#[test]
fn a_session_is_handed_to_its_scope_as_it_is() {
    let submitted = std::sync::Mutex::new(Vec::new());
    let spawner = SessionSpawner::new(|session: u32| submitted.lock().unwrap().push(session));
    spawner.spawn(3);
    spawner.spawn(5);
    assert_eq!(*submitted.lock().unwrap(), vec![3, 5]);
}

#[test]
fn a_clone_hands_sessions_to_the_same_scope() {
    let submitted = std::sync::Mutex::new(Vec::new());
    let spawner = SessionSpawner::new(|session: u32| submitted.lock().unwrap().push(session));
    let clone = spawner.clone();
    assert!(submitted.lock().unwrap().is_empty(), "cloning submits nothing");
    clone.spawn(7);
    spawner.spawn(8);
    assert_eq!(*submitted.lock().unwrap(), vec![7, 8]);
}

#[test]
fn an_accepted_stream_knows_its_session_and_its_lane() {
    let pair = SocketAddrPair { local_addr: addr(1), peer_addr: addr(2) };
    let stream = ServerStream::MigratingDuplex {
        reader: (),
        writer: (),
        addr: pair,
        source_lane: LaneClass::Bulk,
    };
    assert_eq!(stream.addr(), pair);
    assert_eq!(stream.source_lane(), LaneClass::Bulk);
}
