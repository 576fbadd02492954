use rtp_mux::group::{
    try_submit, GroupJoinError, NewDriver, PairMember, SessionPairRegistry, Submission, MIN_PURGE,
};
use rtp_mux::lane::GroupToken;
use rtp_mux::migrating_write_half::RebindSlot;

type Groups = SessionPairRegistry<u32, u32, &'static str>;

const TOKEN: GroupToken = GroupToken { bits: 5 };

fn alive(groups: &Groups, dead: &[u32]) -> Vec<bool> {
    match groups.group(&TOKEN) {
        Some(group) => group.writers.iter().map(|w| !dead.contains(w)).collect(),
        None => Vec::new(),
    }
}

fn submit(submission: Submission) -> Option<NewDriver<&'static str>> {
    Some(NewDriver { submission, feed: "feed" })
}

fn join(groups: &mut Groups, opener: u32, opener_alive: bool, dead: &[u32]) -> (PairMember, bool) {
    let alive = alive(groups, dead);
    let joined = groups
        .join(TOKEN, opener, opener_alive, &alive, submit(Submission::Accepted))
        .unwrap();
    (joined.member, joined.rebind)
}

#[test]
fn third_concurrent_member_is_rejected() {
    let mut groups = Groups::new();
    let (first, _) = join(&mut groups, 1, true, &[]);
    let (second, _) = join(&mut groups, 2, true, &[]);
    assert!(groups.is_full(&TOKEN));
    let refused = groups.join(TOKEN, 3, true, &Vec::new(), None);
    assert_eq!(refused.unwrap_err(), GroupJoinError::GroupFull);
    groups.leave(first);
    assert!(!groups.is_full(&TOKEN));
    let (third, _) = join(&mut groups, 3, true, &[]);
    groups.leave(second);
    groups.leave(third);
    assert!(groups.is_empty());
}

#[test]
fn a_group_has_room_for_two_live_members_however_many_have_come_and_gone() {
    let mut groups = Groups::new();
    let (mut last, _) = join(&mut groups, 0, true, &[]);
    for opener in 1..6 {
        assert!(!groups.is_full(&TOKEN));
        let (next, _) = join(&mut groups, opener, true, &[]);
        assert!(groups.is_full(&TOKEN));
        let refused = groups.join(TOKEN, 99, true, &Vec::new(), None);
        assert_eq!(refused.unwrap_err(), GroupJoinError::GroupFull);
        assert_eq!(groups.group(&TOKEN).unwrap().members, 2);
        groups.leave(last);
        last = next;
    }
    groups.leave(last);
    assert!(groups.is_empty());
}

#[test]
fn group_is_dropped_with_its_last_member() {
    let mut groups = Groups::new();
    let (member, _) = join(&mut groups, 1, true, &[]);
    assert!(groups.group(&TOKEN).is_some());
    groups.leave(member);
    assert!(groups.group(&TOKEN).is_none(), "group must die with last member");
}

#[test]
fn a_dead_newest_member_never_takes_over_live_streams() {
    let mut groups = Groups::new();
    let (old, _) = join(&mut groups, 1, true, &[]);
    assert!(!groups.register_writer(&old, 10, true, &Vec::new()), "no rebind before a newer member");
    let (_dead, rebind) = join(&mut groups, 2, false, &[]);
    assert!(!rebind, "join rebound a live stream onto a session that was already dead");
    let alive = alive(&groups, &[]);
    assert!(
        !groups.register_writer(&old, 11, false, &alive),
        "a newly accepted stream was rebound onto a dead session"
    );
}

#[test]
fn late_registered_writer_is_rebound_to_newest_member() {
    let mut groups = Groups::new();
    let (old, _) = join(&mut groups, 1, true, &[]);
    let (new, rebind) = join(&mut groups, 2, true, &[]);
    assert!(!rebind, "there was no writer to move yet");
    assert!(groups.register_writer(&old, 10, true, &Vec::new()), "stale writer was not rebound");
    assert_eq!(groups.group(&TOKEN).unwrap().newest_opener, Some(2));
    let alive = alive(&groups, &[]);
    assert!(!groups.register_writer(&new, 11, true, &alive));
}

#[test]
fn join_rebinds_existing_writers() {
    let mut groups = Groups::new();
    let (old, _) = join(&mut groups, 1, true, &[]);
    groups.register_writer(&old, 10, true, &Vec::new());
    let alive_writers = alive(&groups, &[]);
    groups.register_writer(&old, 11, true, &alive_writers);
    let (_new, rebind) = join(&mut groups, 2, true, &[10]);
    assert!(rebind, "join must rebind existing writers");
    assert_eq!(groups.group(&TOKEN).unwrap().writers, vec![11], "dead writers are dropped");
}

#[test]
fn rebinds_collapse_instead_of_queueing() {
    let mut slot = RebindSlot::detached();
    assert!(slot.rebind("first", true, false));
    assert!(slot.rebind("second", true, false));
    assert_eq!(slot.take(), Some("second"), "the newest counts");
    assert!(slot.take().is_none(), "rebinds queued up");
}

#[test]
fn a_rebind_of_a_writer_that_is_gone_is_refused() {
    let mut slot = RebindSlot::detached();
    assert!(!slot.rebind(1, false, false));
    assert!(slot.take().is_none());
    assert!(!slot.rebind(2, true, true));
    assert_eq!(slot.take(), Some(2));
}

#[test]
fn queue_full_and_scope_closed_are_reported_separately() {
    assert_eq!(try_submit(Submission::Accepted), Ok(()));
    assert_eq!(try_submit(Submission::Full), Err(GroupJoinError::DriverQueueFull));
    assert_eq!(try_submit(Submission::Closed), Err(GroupJoinError::DriverScopeClosed));
    assert_eq!(GroupJoinError::GroupFull.message(), "session group is full");
    assert_eq!(
        GroupJoinError::DriverQueueFull.message(),
        "group-driver submission queue is full"
    );
    assert_eq!(GroupJoinError::DriverScopeClosed.message(), "group-driver scope is closed");
}

#[test]
fn failed_driver_submission_does_not_create_a_group() {
    let mut groups = Groups::new();
    for (submission, error) in [
        (Submission::Full, GroupJoinError::DriverQueueFull),
        (Submission::Closed, GroupJoinError::DriverScopeClosed),
    ] {
        let refused = groups.join(TOKEN, 1, true, &Vec::new(), submit(submission));
        assert_eq!(refused.unwrap_err(), error);
        assert!(groups.is_empty(), "a rejected group must not have been inserted");
    }
}

#[test]
fn dead_writers_are_purged_when_the_list_has_grown() {
    let mut groups = Groups::new();
    let (member, _) = join(&mut groups, 1, true, &[]);
    for writer in 0..MIN_PURGE as u32 {
        let alive = alive(&groups, &[]);
        groups.register_writer(&member, writer, true, &alive);
    }
    assert_eq!(groups.group(&TOKEN).unwrap().writers.len(), MIN_PURGE);
    let dead: Vec<u32> = (0..20).collect();
    let alive_writers = alive(&groups, &dead);
    groups.register_writer(&member, 1_000, true, &alive_writers);
    let group = groups.group(&TOKEN).unwrap();
    assert_eq!(group.writers.len(), MIN_PURGE - 20 + 1);
    assert_eq!(group.next_purge, (MIN_PURGE - 20) * 2);
    assert_eq!(group.feed, "feed");
}
