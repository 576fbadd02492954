use rtp_mux::addr::{SocketAddr, SocketAddrPair};
use rtp_mux::assoc::AssocMap;
use rtp_mux::bidirectional::BidirectionalSession;
use rtp_mux::client_stream::{ClientStream, ReadStep};
use rtp_mux::error::ErrorKind;
use rtp_mux::poll::Poll;
use rtp_mux::task_scope::{finish_with_first, join_sibling, Joined};
use rtp_mux::text::push_decimal;

fn pair() -> SocketAddrPair {
    SocketAddrPair {
        local_addr: SocketAddr::V4 { ip: 1, port: 2 },
        peer_addr: SocketAddr::V4 { ip: 3, port: 4 },
    }
}

fn failed(step: ReadStep) -> String {
    match step {
        ReadStep::Fail(error) => {
            assert_eq!(error.kind(), ErrorKind::BrokenPipe);
            error.message
        }
        other => panic!("not failed: {other:?}"),
    }
}

#[test]
fn a_stream_reads_once_its_reader_has_arrived() {
    for mut stream in [ClientStream::new(pair()), ClientStream::new_duplex(pair())] {
        assert_eq!(stream.addr(), pair());
        assert!(matches!(stream.poll_read(), ReadStep::PollChannel));
        assert!(matches!(stream.channel_polled(Poll::Pending), ReadStep::Pending));
        assert!(matches!(stream.poll_read(), ReadStep::PollChannel));
        assert!(matches!(stream.channel_polled(Poll::Ready(true)), ReadStep::Read));
        assert!(matches!(stream.poll_read(), ReadStep::Read));
    }
}

#[test]
fn a_stream_without_a_reader_fails_every_read() {
    let mut plain = ClientStream::new(pair());
    assert_eq!(
        failed(plain.channel_polled(Poll::Ready(false))),
        "gen-0 reader channel closed before write"
    );
    let mut duplex = ClientStream::new_duplex(pair());
    assert_eq!(
        failed(duplex.channel_polled(Poll::Ready(false))),
        "response splice channel closed before write"
    );
    for stream in [plain, duplex] {
        assert_eq!(failed(stream.poll_read()), "gen-0 reader channel closed before write");
    }
}

#[test]
fn selected_result_survives_sibling_cancellation() {
    let siblings = vec![Joined::Cancelled, Joined::Cancelled];
    assert_eq!(finish_with_first(Some(7), siblings), Some(7));
}

#[test]
fn completed_sibling_supplies_a_result_when_no_owner_won() {
    let siblings = vec![Joined::Cancelled, Joined::Completed(3), Joined::Completed(4)];
    assert_eq!(finish_with_first(None, siblings), Some(3));
    assert_eq!(finish_with_first::<u32>(None, vec![Joined::Cancelled]), None);
    assert_eq!(join_sibling(Some(1), Joined::Completed(2)), Some(1));
}

#[test]
fn a_bidirectional_session_is_made_of_its_parts() {
    let SocketAddrPair { local_addr, peer_addr } = pair();
    let session = BidirectionalSession::new("opener", "accepter", local_addr, peer_addr, "driver");
    assert_eq!(session.addr(), pair());
    assert_eq!(session.into_parts(), ("opener", "accepter", pair(), "driver"));
}

#[test]
fn numerals_have_no_leading_zeros() {
    for n in [0u128, 7, 10, 1_234_567_890, u128::MAX] {
        let mut text = String::from("n=");
        push_decimal(&mut text, n);
        assert_eq!(text, format!("n={n}"));
    }
}

#[test]
fn a_map_keeps_the_order_in_which_keys_came() {
    let mut map: AssocMap<u64, &str> = AssocMap::new();
    assert_eq!(map.insert(3, "c"), None);
    assert_eq!(map.insert(1, "a"), None);
    assert_eq!(map.insert(2, "b"), None);
    assert_eq!(map.insert(1, "A"), Some("a"));
    assert_eq!(map.len(), 3);
    assert_eq!(map.get(&1), Some(&"A"));
    assert_eq!(map.remove(&3), Some("c"));
    assert_eq!(map.remove(&3), None);
    assert!(!map.contains_key(&3));
    assert_eq!((map.key_at(0), *map.value_at(0)), (1, "A"));
    assert_eq!((map.key_at(1), *map.value_at(1)), (2, "b"));
}
