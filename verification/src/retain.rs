//! Dropping the items of a list that are marked dead.

use vstd::prelude::*;

verus! {

/// The items whose flag is set, in their order.
pub open spec fn retained<T>(items: Seq<T>, alive: Seq<bool>) -> Seq<T>
    decreases items.len(),
{
    if items.len() == 0 {
        Seq::empty()
    } else {
        let rest = retained(items.drop_last(), alive.drop_last());
        if alive.last() {
            rest.push(items.last())
        } else {
            rest
        }
    }
}

/// Keeps the items whose flag is set.
pub fn retain_alive<T>(items: &mut Vec<T>, alive: &Vec<bool>)
    requires
        old(items)@.len() == alive@.len(),
    ensures
        final(items)@ == retained(old(items)@, alive@),
        final(items)@.len() <= old(items)@.len(),
{
    let ghost all = items@;
    let length: usize = items.len();
    let mut kept: usize = 0;
    let mut seen: usize = 0;
    proof {
        assert(all.take(0) =~= Seq::<T>::empty());
        assert(alive@.take(0) =~= Seq::<bool>::empty());
        assert(items@ =~= Seq::<T>::empty() + all.skip(0));
    }
    while seen < length
        invariant
            kept <= seen <= length,
            length == all.len() == alive@.len(),
            kept == retained(all.take(seen as int), alive@.take(seen as int)).len(),
            items@ == retained(all.take(seen as int), alive@.take(seen as int)) + all.skip(
                seen as int,
            ),
        decreases length - seen,
    {
        let ghost head = retained(all.take(seen as int), alive@.take(seen as int));
        let ghost s = seen as int;
        proof {
            assert(all.take(s + 1).drop_last() =~= all.take(s));
            assert(alive@.take(s + 1).drop_last() =~= alive@.take(s));
            assert(all.take(s + 1).last() == all[s]);
            assert(alive@.take(s + 1).last() == alive@[s]);
            assert(items@[kept as int] == all[s]);
        }
        if alive[seen] {
            proof {
                assert(items@ =~= head.push(all[s]) + all.skip(s + 1));
            }
            kept += 1;
        } else {
            items.remove(kept);
            proof {
                assert(items@ =~= head + all.skip(s + 1));
            }
        }
        seen += 1;
    }
    proof {
        assert(all.take(length as int) =~= all);
        assert(alive@.take(length as int) =~= alive@);
        assert(items@ =~= retained(all, alive@));
    }
}

/// What stays was there before and was alive.
pub proof fn lemma_retained_are_alive<T>(items: Seq<T>, alive: Seq<bool>, x: T)
    requires
        items.len() == alive.len(),
    ensures
        retained(items, alive).contains(x) <==> exists|i: int|
            0 <= i < items.len() && items[i] == x && #[trigger] alive[i],
    decreases items.len(),
{
    let kept = retained(items, alive);
    if items.len() > 0 {
        let n = items.len() - 1;
        let rest = retained(items.drop_last(), alive.drop_last());
        lemma_retained_are_alive(items.drop_last(), alive.drop_last(), x);
        if kept.contains(x) {
            if alive.last() && x == items.last() {
                assert(items[n] == x && alive[n]);
            } else {
                let j = kept.index_of(x);
                assert(rest[j] == x);
                assert(rest.contains(x));
                let i = choose|i: int|
                    0 <= i < n && items.drop_last()[i] == x && #[trigger] alive.drop_last()[i];
                assert(items[i] == x && alive[i]);
            }
        }
        if exists|i: int| 0 <= i < items.len() && items[i] == x && #[trigger] alive[i] {
            let i = choose|i: int| 0 <= i < items.len() && items[i] == x && #[trigger] alive[i];
            if i == n {
                assert(kept[rest.len() as int] == x);
            } else {
                assert(items.drop_last()[i] == x && alive.drop_last()[i]);
                assert(rest.contains(x));
                let j = rest.index_of(x);
                assert(kept[j] == x);
            }
        }
    }
}

/// What stays keeps its order, and each item stays or goes on its own account:
/// how a list is cut does not matter.
pub proof fn lemma_retained_keep_their_order<T>(
    a: Seq<T>,
    b: Seq<T>,
    a_alive: Seq<bool>,
    b_alive: Seq<bool>,
    x: T,
    x_alive: bool,
)
    requires
        a.len() == a_alive.len(),
        b.len() == b_alive.len(),
    ensures
        retained(a + b, a_alive + b_alive) == retained(a, a_alive) + retained(b, b_alive),
        retained(seq![x], seq![x_alive]) == if x_alive {
            seq![x]
        } else {
            Seq::empty()
        },
    decreases b.len(),
{
    assert(seq![x].drop_last() =~= Seq::<T>::empty());
    assert(retained(seq![x].drop_last(), seq![x_alive].drop_last()) =~= Seq::<T>::empty());
    assert(retained(seq![x], seq![x_alive]) =~= if x_alive {
        seq![x]
    } else {
        Seq::empty()
    });
    if b.len() == 0 {
        assert(a + b =~= a);
        assert(a_alive + b_alive =~= a_alive);
    } else {
        lemma_retained_keep_their_order(
            a,
            b.drop_last(),
            a_alive,
            b_alive.drop_last(),
            x,
            x_alive,
        );
        assert((a + b).drop_last() =~= a + b.drop_last());
        assert((a_alive + b_alive).drop_last() =~= a_alive + b_alive.drop_last());
    }
    assert(retained(a + b, a_alive + b_alive) =~= retained(a, a_alive) + retained(b, b_alive));
}

} // verus!
