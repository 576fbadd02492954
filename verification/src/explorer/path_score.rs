//! How good a path is, and whether another one is worth moving to.

use vstd::prelude::*;

verus! {

/// A path's measured round trip in nanoseconds, and its loss ratio as the bit
/// pattern of an IEEE 754 double.
#[derive(Clone, Copy, Debug, PartialEq, Eq, Structural)]
pub struct PathScore {
    pub rtt: u64,
    pub loss: u64,
}

/// The margin by which a path wins over the one in use.
#[derive(Clone, Copy, Debug, PartialEq, Eq, Structural)]
pub enum MigrationRule {
    Rtt,
    Loss,
}

impl MigrationRule {
    pub open spec fn label(self) -> &'static str {
        match self {
            MigrationRule::Rtt => "rtt_margin",
            MigrationRule::Loss => "loss_margin",
        }
    }

    pub fn as_str(self) -> (r: &'static str)
        ensures
            r == self.label(),
    {
        match self {
            MigrationRule::Rtt => "rtt_margin",
            MigrationRule::Loss => "loss_margin",
        }
    }
}

/// The rule that a path wins by, given which margins it clears: the round
/// trip counts first.
pub open spec fn winning_rule(rtt_wins: bool, loss_wins: bool) -> Option<MigrationRule> {
    if rtt_wins {
        Some(MigrationRule::Rtt)
    } else if loss_wins {
        Some(MigrationRule::Loss)
    } else {
        None
    }
}

pub fn beats_by_margin(rtt_wins: bool, loss_wins: bool) -> (r: Option<MigrationRule>)
    ensures
        r == winning_rule(rtt_wins, loss_wins),
{
    match (rtt_wins, loss_wins) {
        (true, _) => Some(MigrationRule::Rtt),
        (false, true) => Some(MigrationRule::Loss),
        (false, false) => None,
    }
}

/// Whether to move to the best candidate, and why or why not.
#[derive(Clone, Copy, Debug, PartialEq, Eq, Structural)]
pub enum MigrationVerdict {
    Migrate { rule: MigrationRule, active: PathScore, best: PathScore },
    ActiveUnmeasured,
    NoLiveCandidate { active: PathScore },
    WithinMargin { active: PathScore, best: PathScore },
}

/// The verdict on a path in use and a best candidate.
pub open spec fn verdict_on(
    active: Option<PathScore>,
    best: Option<PathScore>,
    rule: Option<MigrationRule>,
) -> MigrationVerdict {
    match (active, best, rule) {
        (None, _, _) => MigrationVerdict::ActiveUnmeasured,
        (Some(active), None, _) => MigrationVerdict::NoLiveCandidate { active },
        (Some(active), Some(best), Some(rule)) => MigrationVerdict::Migrate { rule, active, best },
        (Some(active), Some(best), None) => MigrationVerdict::WithinMargin { active, best },
    }
}

impl MigrationVerdict {
    pub open spec fn label(self) -> &'static str {
        match self {
            MigrationVerdict::Migrate { .. } => "margin_win",
            MigrationVerdict::ActiveUnmeasured => "active_unmeasured",
            MigrationVerdict::NoLiveCandidate { .. } => "no_live_candidate",
            MigrationVerdict::WithinMargin { .. } => "within_margin",
        }
    }

    /// Decides on a path in use and a best candidate; `rtt_wins` and
    /// `loss_wins` say which margins the candidate clears.
    pub fn decide(
        active: Option<PathScore>,
        best: Option<PathScore>,
        rtt_wins: bool,
        loss_wins: bool,
    ) -> (r: MigrationVerdict)
        ensures
            r == verdict_on(active, best, winning_rule(rtt_wins, loss_wins)),
    {
        let active = match active {
            Some(active) => active,
            None => {
                return MigrationVerdict::ActiveUnmeasured;
            },
        };
        let best = match best {
            Some(best) => best,
            None => {
                return MigrationVerdict::NoLiveCandidate { active };
            },
        };
        match beats_by_margin(rtt_wins, loss_wins) {
            Some(rule) => MigrationVerdict::Migrate { rule, active, best },
            None => MigrationVerdict::WithinMargin { active, best },
        }
    }

    pub fn as_str(&self) -> (r: &'static str)
        ensures
            r == self.label(),
    {
        match self {
            MigrationVerdict::Migrate { .. } => "margin_win",
            MigrationVerdict::ActiveUnmeasured => "active_unmeasured",
            MigrationVerdict::NoLiveCandidate { .. } => "no_live_candidate",
            MigrationVerdict::WithinMargin { .. } => "within_margin",
        }
    }

    pub fn wants_migration(&self) -> (r: bool)
        ensures
            r == (*self is Migrate),
    {
        matches!(self, MigrationVerdict::Migrate { .. })
    }

    pub fn active(&self) -> (r: Option<PathScore>)
        ensures
            r == match *self {
                MigrationVerdict::Migrate { active, .. } => Some(active),
                MigrationVerdict::NoLiveCandidate { active } => Some(active),
                MigrationVerdict::WithinMargin { active, .. } => Some(active),
                MigrationVerdict::ActiveUnmeasured => None,
            },
    {
        match self {
            MigrationVerdict::Migrate { active, .. } => Some(*active),
            MigrationVerdict::NoLiveCandidate { active } => Some(*active),
            MigrationVerdict::WithinMargin { active, .. } => Some(*active),
            MigrationVerdict::ActiveUnmeasured => None,
        }
    }

    pub fn best(&self) -> (r: Option<PathScore>)
        ensures
            r == match *self {
                MigrationVerdict::Migrate { best, .. } => Some(best),
                MigrationVerdict::WithinMargin { best, .. } => Some(best),
                _ => None,
            },
    {
        match self {
            MigrationVerdict::Migrate { best, .. } => Some(*best),
            MigrationVerdict::WithinMargin { best, .. } => Some(*best),
            _ => None,
        }
    }

    pub fn rule(&self) -> (r: Option<MigrationRule>)
        ensures
            r == match *self {
                MigrationVerdict::Migrate { rule, .. } => Some(rule),
                _ => None,
            },
    {
        match self {
            MigrationVerdict::Migrate { rule, .. } => Some(*rule),
            _ => None,
        }
    }
}

/// A migration is wanted exactly where both paths are measured and the
/// candidate clears a margin; an unmeasured path in use is never left.
pub proof fn lemma_migration_needs_a_margin_win(
    active: Option<PathScore>,
    best: Option<PathScore>,
    rtt_wins: bool,
    loss_wins: bool,
)
    ensures
        verdict_on(active, best, winning_rule(rtt_wins, loss_wins)) is Migrate <==> active is Some
            && best is Some && (rtt_wins || loss_wins),
{
}

/// A verdict tells of the very scores that it was reached on, and of the
/// margin that decided: the round trip's where it is cleared, the loss ratio's
/// only where the round trip's is not.
pub proof fn lemma_a_verdict_tells_what_decided(
    active: Option<PathScore>,
    best: Option<PathScore>,
    rtt_wins: bool,
    loss_wins: bool,
)
    ensures
        match verdict_on(active, best, winning_rule(rtt_wins, loss_wins)) {
            MigrationVerdict::Migrate { rule, active: a, best: b } => active == Some(a) && best
                == Some(b) && (rule == MigrationRule::Rtt <==> rtt_wins) && (rule
                == MigrationRule::Loss <==> !rtt_wins && loss_wins),
            MigrationVerdict::ActiveUnmeasured => active is None,
            MigrationVerdict::NoLiveCandidate { active: a } => active == Some(a) && best is None,
            MigrationVerdict::WithinMargin { active: a, best: b } => active == Some(a) && best
                == Some(b) && !rtt_wins && !loss_wins,
        },
        active is None ==> verdict_on(active, best, winning_rule(rtt_wins, loss_wins))
            is ActiveUnmeasured,
        active is Some && best is None ==> verdict_on(
            active,
            best,
            winning_rule(rtt_wins, loss_wins),
        ) is NoLiveCandidate,
{
}

} // verus!
