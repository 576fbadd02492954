use rtp_mux::explorer::path_score::{beats_by_margin, MigrationRule, MigrationVerdict, PathScore};

#[test]
fn every_migration_rule_reports_its_documented_label() {
    let documented = [(MigrationRule::Rtt, "rtt_margin"), (MigrationRule::Loss, "loss_margin")];
    for (rule, label) in documented {
        assert_eq!(rule.as_str(), label);
    }
}

#[test]
fn every_migration_verdict_reports_its_documented_label_and_accessors() {
    let active = PathScore { rtt: 100_000_000, loss: 0.01f64.to_bits() };
    let best = PathScore { rtt: 50_000_000, loss: 0.0f64.to_bits() };
    let cases = [
        (
            MigrationVerdict::Migrate { rule: MigrationRule::Rtt, active, best },
            "margin_win",
            true,
            Some(active),
            Some(best),
            Some(MigrationRule::Rtt),
        ),
        (
            MigrationVerdict::Migrate { rule: MigrationRule::Loss, active, best },
            "margin_win",
            true,
            Some(active),
            Some(best),
            Some(MigrationRule::Loss),
        ),
        (MigrationVerdict::ActiveUnmeasured, "active_unmeasured", false, None, None, None),
        (
            MigrationVerdict::NoLiveCandidate { active },
            "no_live_candidate",
            false,
            Some(active),
            None,
            None,
        ),
        (
            MigrationVerdict::WithinMargin { active, best },
            "within_margin",
            false,
            Some(active),
            Some(best),
            None,
        ),
    ];
    for (verdict, label, wants_migration, active, best, rule) in cases {
        assert_eq!(verdict.as_str(), label);
        assert_eq!(verdict.wants_migration(), wants_migration);
        assert_eq!(verdict.active(), active);
        assert_eq!(verdict.best(), best);
        assert_eq!(verdict.rule(), rule);
    }
}

#[test]
fn the_round_trip_rule_counts_before_the_loss_rule() {
    assert_eq!(beats_by_margin(true, true), Some(MigrationRule::Rtt));
    assert_eq!(beats_by_margin(true, false), Some(MigrationRule::Rtt));
    assert_eq!(beats_by_margin(false, true), Some(MigrationRule::Loss));
    assert_eq!(beats_by_margin(false, false), None);
}

#[test]
fn a_verdict_follows_from_what_is_measured() {
    let slow = PathScore { rtt: 9, loss: 0 };
    let fast = PathScore { rtt: 3, loss: 0 };
    assert_eq!(
        MigrationVerdict::decide(None, Some(fast), true, true),
        MigrationVerdict::ActiveUnmeasured
    );
    assert_eq!(
        MigrationVerdict::decide(Some(slow), None, true, true),
        MigrationVerdict::NoLiveCandidate { active: slow }
    );
    assert_eq!(
        MigrationVerdict::decide(Some(slow), Some(fast), false, false),
        MigrationVerdict::WithinMargin { active: slow, best: fast }
    );
    assert_eq!(
        MigrationVerdict::decide(Some(slow), Some(fast), false, true),
        MigrationVerdict::Migrate { rule: MigrationRule::Loss, active: slow, best: fast }
    );
}
