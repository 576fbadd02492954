//! Which result a group of tasks comes to once one of them has decided it.

use vstd::prelude::*;

verus! {

/// How a task ended.
#[derive(Debug)]
pub enum Joined<T> {
    Completed(T),
    Cancelled,
}

/// The first value that was completed.
pub open spec fn first_completed<T>(joined: Seq<Joined<T>>) -> Option<T>
    decreases joined.len(),
{
    if joined.len() == 0 {
        None
    } else {
        match joined[0] {
            Joined::Completed(v) => Some(v),
            Joined::Cancelled => first_completed(joined.drop_first()),
        }
    }
}

/// Takes in one sibling that ended after the group was aborted: it supplies
/// the outcome only where nothing has.
pub fn join_sibling<T>(outcome: Option<T>, joined: Joined<T>) -> (r: Option<T>)
    ensures
        r == match outcome {
            Some(v) => Some(v),
            None => first_completed(seq![joined]),
        },
{
    if outcome.is_some() {
        return outcome;
    }
    proof {
        let one = seq![joined];
        assert(one.len() == 1 && one[0] == joined);
        reveal_with_fuel(first_completed, 2);
    }
    match joined {
        Joined::Completed(v) => Some(v),
        Joined::Cancelled => {
            proof {
                assert(seq![joined].drop_first() =~= Seq::<Joined<T>>::empty());
            }
            None
        },
    }
}

/// The outcome of a race: the selected result where there is one, else the
/// first sibling that completed.
pub fn finish_with_first<T>(first: Option<T>, siblings: Vec<Joined<T>>) -> (r: Option<T>)
    ensures
        r == match first {
            Some(v) => Some(v),
            None => first_completed(siblings@),
        },
{
    let mut rest = siblings;
    let mut outcome = first;
    let ghost all = rest@;
    while rest.len() > 0
        invariant
            match first {
                Some(v) => outcome == Some(v),
                None => match outcome {
                    Some(v) => first_completed(all) == Some(v),
                    None => first_completed(all) == first_completed(rest@),
                },
            },
        decreases rest@.len(),
    {
        let ghost before = rest@;
        let joined = rest.remove(0);
        proof {
            assert(rest@ =~= before.drop_first());
            let one = seq![joined];
            assert(one.len() == 1 && one[0] == joined && joined == before[0]);
            assert(one.drop_first() =~= Seq::<Joined<T>>::empty());
            reveal_with_fuel(first_completed, 2);
        }
        outcome = join_sibling(outcome, joined);
    }
    outcome
}

/// The first value that was completed is that of the first task that was not
/// cancelled; there is none exactly where all of them were.
pub proof fn lemma_the_first_to_complete_decides<T>(joined: Seq<Joined<T>>, i: int)
    requires
        0 <= i <= joined.len(),
        forall|j: int| 0 <= j < i ==> #[trigger] joined[j] == Joined::<T>::Cancelled,
        i < joined.len() ==> joined[i] is Completed,
    ensures
        i < joined.len() ==> first_completed(joined) == Some(joined[i]->Completed_0),
        i == joined.len() ==> first_completed(joined) is None,
    decreases joined.len(),
{
    if i > 0 {
        let rest = joined.drop_first();
        assert forall|j: int| 0 <= j < i - 1 implies #[trigger] rest[j]
            == Joined::<T>::Cancelled by {
            assert(rest[j] == joined[j + 1]);
        }
        assert(joined[0] == Joined::<T>::Cancelled);
        lemma_the_first_to_complete_decides(rest, i - 1);
    }
}

} // verus!
