use rtp_mux::accept_error::{
    is_fatal, AcceptErrorBackoff, RETRY_BACKOFF_MAX, WARN_AFTER_CONSECUTIVE,
};
use rtp_mux::error::{ErrorKind, IoError};

const MILLI: u64 = 1_000_000;

fn transient(backoff: &mut AcceptErrorBackoff) {
    backoff
        .failed_dispatching(IoError::new(ErrorKind::ConnectionAborted, "connection aborted"), 7)
        .result
        .expect("a non-fatal accept error is not returned to the caller");
}

#[test]
fn the_retry_backoff_doubles_from_the_warn_threshold_to_the_cap() {
    let mut backoff = AcceptErrorBackoff::default();
    let expected = [
        0,
        0,
        MILLI,
        2 * MILLI,
        4 * MILLI,
        8 * MILLI,
        16 * MILLI,
        32 * MILLI,
        64 * MILLI,
        100 * MILLI,
        100 * MILLI,
        100 * MILLI,
    ];
    for (index, want) in expected.into_iter().enumerate() {
        transient(&mut backoff);
        let errors = index + 1;
        let got = backoff.retry_delay();
        assert_eq!(got, want, "after {errors} consecutive accept errors");
    }
}

#[test]
fn a_warned_error_streak_logs_its_recovery() {
    let mut backoff = AcceptErrorBackoff::default();
    for _ in 0..WARN_AFTER_CONSECUTIVE {
        transient(&mut backoff);
    }
    assert!(backoff.accepted());
}

#[test]
fn an_unwarned_error_streak_recovers_quietly() {
    let mut backoff = AcceptErrorBackoff::default();
    transient(&mut backoff);
    assert!(!backoff.accepted());
}

#[test]
fn a_clean_listener_never_warns_on_accept() {
    let mut backoff = AcceptErrorBackoff::default();
    assert!(!backoff.accepted());
}

#[test]
fn a_fatal_accept_error_is_returned_to_the_caller() {
    let mut backoff = AcceptErrorBackoff::default();
    let outcome =
        backoff.failed_dispatching(IoError::new(ErrorKind::InvalidInput, "invalid input"), 0);
    let error = outcome
        .result
        .expect_err("a permanently fatal accept error was swallowed");
    assert_eq!(error.kind(), ErrorKind::InvalidInput);
    assert_eq!(error.message, "invalid input");
}

#[test]
fn every_fatal_kind_is_returned_and_a_retryable_kind_is_not() {
    let fatal_kinds = [
        ErrorKind::InvalidInput,
        ErrorKind::InvalidData,
        ErrorKind::PermissionDenied,
        ErrorKind::AddrNotAvailable,
        ErrorKind::NotConnected,
        ErrorKind::Unsupported,
    ];
    for kind in fatal_kinds {
        assert!(is_fatal(kind));
        let mut backoff = AcceptErrorBackoff::default();
        let error = backoff
            .failed_dispatching(IoError::new(kind, "fatal"), 0)
            .result
            .expect_err("a fatal accept-error kind was treated as retryable");
        assert_eq!(error.kind(), kind);
    }
    let mut backoff = AcceptErrorBackoff::default();
    assert!(backoff
        .failed_dispatching(IoError::new(ErrorKind::ConnectionAborted, "aborted"), 0)
        .result
        .is_ok());
}

#[test]
fn a_persistent_error_streak_stops_spinning() {
    let mut backoff = AcceptErrorBackoff::default();
    transient(&mut backoff);
    assert_eq!(backoff.retry_delay(), 0, "one bad peer delayed the next good one");
    transient(&mut backoff);
    assert_eq!(backoff.retry_delay(), 0, "backoff began before the warn threshold");
    transient(&mut backoff);
    let first = backoff.retry_delay();
    assert!(first > 0, "a listener that keeps failing is retried with no delay at all");
    for _ in 0..32 {
        transient(&mut backoff);
    }
    assert_eq!(backoff.retry_delay(), RETRY_BACKOFF_MAX);
}

#[test]
fn recovery_clears_the_backoff() {
    let mut backoff = AcceptErrorBackoff::default();
    for _ in 0..WARN_AFTER_CONSECUTIVE + 4 {
        transient(&mut backoff);
    }
    assert!(backoff.retry_delay() > 0);
    backoff.accepted();
    assert_eq!(backoff.retry_delay(), 0);
}

#[test]
fn a_streak_is_warned_of_once_and_remembers_its_first_and_last_error() {
    let mut backoff = AcceptErrorBackoff::new();
    let mut warned = 0;
    for n in 0..5u64 {
        let message = format!("error {n}");
        let dispatched = backoff
            .failed_dispatching(IoError::new(ErrorKind::ConnectionReset, &message), 100 + n);
        if dispatched.warn {
            warned += 1;
            assert_eq!(backoff.error_count, 3);
        }
    }
    assert_eq!(warned, 1);
    assert_eq!(backoff.first_error.as_deref(), Some("error 0"));
    assert_eq!(backoff.last_error.as_deref(), Some("error 4"));
    assert_eq!(backoff.started_at, Some(100));
}

#[test]
fn a_fatal_error_is_warned_of_at_once() {
    let mut backoff = AcceptErrorBackoff::new();
    let dispatched =
        backoff.failed_dispatching(IoError::new(ErrorKind::Unsupported, "unsupported"), 0);
    assert!(dispatched.warn);
    assert!(backoff.logged);
}

#[test]
fn a_streak_is_warned_of_once_at_its_first_fatal_error_or_at_the_threshold() {
    for (kinds, warned_at) in [
        (vec![ErrorKind::ConnectionAborted; 2], None),
        (vec![ErrorKind::ConnectionAborted; 5], Some(2)),
        (
            vec![ErrorKind::TimedOut, ErrorKind::InvalidInput, ErrorKind::TimedOut],
            Some(1),
        ),
        (vec![ErrorKind::Unsupported; 4], Some(0)),
    ] {
        let mut backoff = AcceptErrorBackoff::new();
        let warnings: Vec<bool> = kinds
            .iter()
            .map(|kind| backoff.failed_dispatching(IoError::new(*kind, "failed"), 7).warn)
            .collect();
        for (i, warned) in warnings.iter().enumerate() {
            assert_eq!(*warned, Some(i) == warned_at, "{kinds:?} at {i}");
        }
        assert_eq!(backoff.accepted(), warned_at.is_some());
    }
}
