//! The two lanes of a session and the tokens exchanged in their hello.

use vstd::prelude::*;

use crate::assoc::Key;

verus! {

/// Which of a session's two lanes a flow carries.
#[derive(Clone, Copy, Debug, PartialEq, Eq, Hash, Structural)]
pub enum LaneClass {
    Interactive,
    Bulk,
}

/// Names one pair of lanes while the two are being brought together.
#[derive(Clone, Copy, Debug, PartialEq, Eq, Hash, Structural)]
pub struct PairingNonce {
    pub bits: u128,
}

/// Names the group of sessions that succeed one another for one peer.
#[derive(Clone, Copy, Debug, PartialEq, Eq, Hash, Structural)]
pub struct GroupToken {
    pub bits: u128,
}

impl LaneClass {
    pub open spec fn opposite(self) -> LaneClass {
        match self {
            LaneClass::Interactive => LaneClass::Bulk,
            LaneClass::Bulk => LaneClass::Interactive,
        }
    }

    pub open spec fn spec_label(self) -> &'static str {
        match self {
            LaneClass::Interactive => "Interactive",
            LaneClass::Bulk => "Bulk",
        }
    }

    /// The lane's name as it stands in diagnostics.
    pub fn label(self) -> (r: &'static str)
        ensures
            r == self.spec_label(),
    {
        match self {
            LaneClass::Interactive => "Interactive",
            LaneClass::Bulk => "Bulk",
        }
    }
}

impl Key for PairingNonce {
    fn same(&self, other: &Self) -> (r: bool) {
        *self == *other
    }
}

impl Key for GroupToken {
    fn same(&self, other: &Self) -> (r: bool) {
        *self == *other
    }
}

/// Every lane has one other, whose other it is; the two have different names.
pub proof fn lemma_lanes_come_in_pairs(lane: LaneClass, other: LaneClass)
    ensures
        lane.opposite() != lane,
        lane.opposite().opposite() == lane,
        other != lane ==> other == lane.opposite(),
        lane.spec_label()@ == other.spec_label()@ ==> lane == other,
{
    reveal_strlit("Interactive");
    reveal_strlit("Bulk");
    if lane != other {
        assert(lane.spec_label()@.len() != other.spec_label()@.len());
    }
}

} // verus!
