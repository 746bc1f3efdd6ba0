//! A model of walking a sequence from both ends, and what holds of every
//! such walk.
//!
//! [`ByteStringIter::next`](crate::shared::ByteStringIter::next) makes one
//! step from the front of what remains and
//! [`ByteStringIter::next_back`](crate::shared::ByteStringIter::next_back)
//! one from the back. A walk is a list of such steps; the functions here
//! say what it yields and what it leaves.

use vstd::prelude::*;

verus! {

/// The item that one step takes from `items`: the last one when the step
/// is made from the back, the first one otherwise, none when nothing is
/// left.
pub open spec fn taken<T>(items: Seq<T>, from_back: bool) -> Option<T> {
    if items.len() == 0 {
        None
    } else if from_back {
        Some(items.last())
    } else {
        Some(items.first())
    }
}

/// What one step leaves of `items`.
pub open spec fn rest<T>(items: Seq<T>, from_back: bool) -> Seq<T> {
    if items.len() == 0 {
        items
    } else if from_back {
        items.drop_last()
    } else {
        items.drop_first()
    }
}

/// What a walk over `items` yields, in the order it is yielded. Step `k`
/// is made from the back when `from_back[k]` holds and from the front
/// otherwise. The walk ends with its last step, or as soon as nothing is
/// left.
pub open spec fn yielded<T>(items: Seq<T>, from_back: Seq<bool>) -> Seq<T>
    decreases from_back.len(),
{
    if from_back.len() == 0 {
        Seq::empty()
    } else {
        match taken(items, from_back.first()) {
            Some(item) => seq![item] + yielded(
                rest(items, from_back.first()),
                from_back.drop_first(),
            ),
            None => Seq::empty(),
        }
    }
}

/// What the same walk leaves unvisited, front to back.
pub open spec fn left<T>(items: Seq<T>, from_back: Seq<bool>) -> Seq<T>
    decreases from_back.len(),
{
    if from_back.len() == 0 {
        items
    } else {
        left(rest(items, from_back.first()), from_back.drop_first())
    }
}

/// `count` steps, all from the front or all from the back.
pub open spec fn steps(count: nat, from_back: bool) -> Seq<bool> {
    Seq::new(count, |k: int| from_back)
}

/// A walk from the front that takes as many steps as there are items
/// yields the items in their order.
pub proof fn lemma_forward_walk<T>(items: Seq<T>)
    ensures
        yielded(items, steps(items.len(), false)) == items,
    decreases items.len(),
{
    let walk = steps(items.len(), false);
    if items.len() > 0 {
        assert(walk.drop_first() == steps(items.drop_first().len(), false));
        lemma_forward_walk(items.drop_first());
        assert(seq![items.first()] + items.drop_first() == items);
    }
}

/// A walk from the back that takes as many steps as there are items
/// yields the items in reverse order.
pub proof fn lemma_backward_walk<T>(items: Seq<T>)
    ensures
        yielded(items, steps(items.len(), true)) == items.reverse(),
        yielded(items, steps(items.len(), true)).reverse() == items,
    decreases items.len(),
{
    let walk = steps(items.len(), true);
    if items.len() > 0 {
        assert(walk.drop_first() == steps(items.drop_last().len(), true));
        lemma_backward_walk(items.drop_last());
        assert(seq![items.last()] + items.drop_last().reverse() == items.reverse());
    }
    assert(items.reverse().reverse() == items);
}

/// Whatever the ends chosen, each step yields exactly one item as long as
/// any is left: the items yielded and the items left together are the
/// items, none twice and none lost, and the number left is the number of
/// items less the number yielded.
pub proof fn lemma_walk_partitions<T>(items: Seq<T>, from_back: Seq<bool>)
    ensures
        yielded(items, from_back).to_multiset().add(left(items, from_back).to_multiset())
            == items.to_multiset(),
        left(items, from_back).len() == items.len() - yielded(items, from_back).len(),
        yielded(items, from_back).len() == if from_back.len() <= items.len() {
            from_back.len()
        } else {
            items.len()
        },
    decreases from_back.len(),
{
    broadcast use vstd::seq_lib::group_to_multiset_ensures;

    if from_back.len() == 0 {
        assert(yielded(items, from_back).to_multiset().add(items.to_multiset())
            == items.to_multiset());
    } else if items.len() == 0 {
        lemma_walk_partitions(items, from_back.drop_first());
        assert(yielded(items, from_back).to_multiset().add(left(items, from_back).to_multiset())
            == items.to_multiset());
    } else if from_back.first() {
        let rest = items.drop_last();
        lemma_walk_partitions(rest, from_back.drop_first());
        assert(rest.push(items.last()) == items);
        assert(seq![items.last()].to_multiset() == Seq::<T>::empty().to_multiset().insert(
            items.last(),
        )) by {
            assert(Seq::<T>::empty().push(items.last()) == seq![items.last()]);
        }
        vstd::seq_lib::lemma_multiset_commutative(
            seq![items.last()],
            yielded(rest, from_back.drop_first()),
        );
        assert(yielded(items, from_back).to_multiset().add(left(items, from_back).to_multiset())
            == items.to_multiset());
    } else {
        let rest = items.drop_first();
        lemma_walk_partitions(rest, from_back.drop_first());
        assert(seq![items.first()] + rest == items);
        vstd::seq_lib::lemma_multiset_commutative(seq![items.first()], rest);
        vstd::seq_lib::lemma_multiset_commutative(
            seq![items.first()],
            yielded(rest, from_back.drop_first()),
        );
        assert(yielded(items, from_back).to_multiset().add(left(items, from_back).to_multiset())
            == items.to_multiset());
    }
}

/// A walk that has at least as many steps as there are items visits every
/// item exactly once, whatever the ends chosen: it yields the same
/// multiset as the walk from the front, and leaves nothing.
pub proof fn lemma_full_walk<T>(items: Seq<T>, from_back: Seq<bool>)
    requires
        from_back.len() >= items.len(),
    ensures
        yielded(items, from_back).to_multiset() == items.to_multiset(),
        yielded(items, from_back).to_multiset() == yielded(
            items,
            steps(items.len(), false),
        ).to_multiset(),
        yielded(items, from_back).len() == items.len(),
        left(items, from_back).len() == 0,
{
    broadcast use vstd::seq_lib::group_to_multiset_ensures;

    lemma_walk_partitions(items, from_back);
    lemma_forward_walk(items);
    assert(left(items, from_back) == Seq::<T>::empty());
    assert(yielded(items, from_back).to_multiset().add(Seq::<T>::empty().to_multiset())
        == yielded(items, from_back).to_multiset());
}

} // verus!
