//! Histories of a stack: the steps taken on it, one after another, and what
//! holds of every such sequence.
//!
//! A step is a `push` or a `pop_all`. Each works on the stack through an
//! exclusive borrow, so however many callers there are and however they take
//! turns, what happens to one stack is one sequence of steps.

use vstd::prelude::*;
use vstd::multiset::{lemma_multiset_empty_len, Multiset};
use vstd::seq_lib::*;

verus! {

/// One step on a stack.
pub enum Op<T> {
    /// `push` of the value.
    Push(T),
    /// `pop_all`.
    PopAll,
}

impl<T> Op<T> {
    /// The view of the stack after the step, taken on a stack with view
    /// `stack`.
    pub open spec fn after(self, stack: Seq<T>) -> Seq<T> {
        match self {
            Op::Push(val) => seq![val] + stack,
            Op::PopAll => Seq::empty(),
        }
    }
}

/// The view of a stack that started with view `start`, after the steps `ops`.
pub open spec fn pending<T>(start: Seq<T>, ops: Seq<Op<T>>) -> Seq<T>
    decreases ops.len(),
{
    if ops.len() == 0 {
        start
    } else {
        ops.last().after(pending(start, ops.drop_last()))
    }
}

/// What the consumers were handed: one batch for each `pop_all` among `ops`,
/// in the order of the steps, each batch in the order in which its values were
/// handed over.
pub open spec fn batches<T>(start: Seq<T>, ops: Seq<Op<T>>) -> Seq<Seq<T>>
    decreases ops.len(),
{
    if ops.len() == 0 {
        Seq::empty()
    } else {
        let earlier = batches(start, ops.drop_last());
        match ops.last() {
            Op::Push(_) => earlier,
            Op::PopAll => earlier.push(pending(start, ops.drop_last())),
        }
    }
}

/// The values that `ops` pushed, in the order of the steps.
pub open spec fn pushed<T>(ops: Seq<Op<T>>) -> Seq<T>
    decreases ops.len(),
{
    if ops.len() == 0 {
        Seq::empty()
    } else {
        let earlier = pushed(ops.drop_last());
        match ops.last() {
            Op::Push(val) => earlier.push(val),
            Op::PopAll => earlier,
        }
    }
}

/// The steps that push `values`, one after another.
pub open spec fn pushes<T>(values: Seq<T>) -> Seq<Op<T>> {
    Seq::new(values.len(), |i: int| Op::Push(values[i]))
}

/// The empty sequence holds nothing.
proof fn lemma_empty_holds_nothing<T>()
    ensures
        Seq::<T>::empty().to_multiset() == Multiset::<T>::empty(),
{
    Seq::<T>::empty().to_multiset_ensures();
    lemma_multiset_empty_len(Seq::<T>::empty().to_multiset());
}

/// Nothing is lost and nothing is handed over twice: whatever the steps, the
/// values handed to the consumers together with those still on the stack are
/// the values the stack started with together with those pushed, each as often
/// as it was there or was pushed.
pub proof fn lemma_no_loss_no_duplication<T>(start: Seq<T>, ops: Seq<Op<T>>)
    ensures
        batches(start, ops).flatten().to_multiset().add(pending(start, ops).to_multiset())
            == start.to_multiset().add(pushed(ops).to_multiset()),
    decreases ops.len(),
{
    broadcast use vstd::multiset::group_multiset_axioms;

    lemma_empty_holds_nothing::<T>();
    let left = batches(start, ops).flatten().to_multiset().add(pending(start, ops).to_multiset());
    let right = start.to_multiset().add(pushed(ops).to_multiset());
    if ops.len() == 0 {
        assert(batches(start, ops).flatten() =~= Seq::<T>::empty());
        assert(left =~= right);
    } else {
        let before = ops.drop_last();
        let stack = pending(start, before);
        let handed = batches(start, before).flatten();
        let left_before = handed.to_multiset().add(stack.to_multiset());
        let right_before = start.to_multiset().add(pushed(before).to_multiset());
        assert(left_before == right_before) by {
            lemma_no_loss_no_duplication(start, before);
        }
        match ops.last() {
            Op::Push(val) => {
                assert(seq![val] =~= Seq::<T>::empty().push(val));
                to_multiset_build(Seq::<T>::empty(), val);
                lemma_multiset_commutative(seq![val], stack);
                to_multiset_build(pushed(before), val);
                assert forall|v: T| left.count(v) == right.count(v) by {
                    assert(left_before.count(v) == right_before.count(v));
                }
            },
            Op::PopAll => {
                batches(start, before).lemma_flatten_push(stack);
                lemma_multiset_commutative(handed, stack);
                assert forall|v: T| left.count(v) == right.count(v) by {
                    assert(left_before.count(v) == right_before.count(v));
                }
            },
        }
        assert(left =~= right);
    }
}

/// Where a history ends in `pop_all` on a stack that started empty, every value
/// that was pushed has been handed to a consumer, as often as it was pushed.
pub proof fn lemma_drained_hands_over_all<T>(ops: Seq<Op<T>>)
    requires
        ops.len() > 0,
        ops.last() is PopAll,
    ensures
        pending(Seq::<T>::empty(), ops) == Seq::<T>::empty(),
        batches(Seq::<T>::empty(), ops).flatten().to_multiset() == pushed(ops).to_multiset(),
{
    broadcast use vstd::multiset::group_multiset_axioms;

    let none = Seq::<T>::empty();
    let handed = batches(none, ops).flatten().to_multiset();
    lemma_empty_holds_nothing::<T>();
    lemma_no_loss_no_duplication(none, ops);
    assert(pending(none, ops) == none);
    assert forall|v: T| handed.count(v) == pushed(ops).to_multiset().count(v) by {
        assert(handed.add(none.to_multiset()).count(v) == none.to_multiset().add(
            pushed(ops).to_multiset(),
        ).count(v));
    }
    assert(handed =~= pushed(ops).to_multiset());
}

/// A history can be cut in two: the second part goes on from the stack that
/// the first part left, and adds its batches to those of the first.
pub proof fn lemma_history_split<T>(start: Seq<T>, first: Seq<Op<T>>, second: Seq<Op<T>>)
    ensures
        pending(start, first + second) == pending(pending(start, first), second),
        batches(start, first + second) == batches(start, first) + batches(
            pending(start, first),
            second,
        ),
        pushed(first + second) == pushed(first) + pushed(second),
    decreases second.len(),
{
    if second.len() == 0 {
        assert(first + second =~= first);
    } else {
        lemma_history_split(start, first, second.drop_last());
        assert((first + second).drop_last() =~= first + second.drop_last());
        assert((first + second).last() == second.last());
    }
}

/// Last in, first out: on a stack with view `start`, after `values` were
/// pushed one after another, the view is `values` from the last pushed to the
/// first, then `start`; and that, in this order, is what a `pop_all` then
/// hands to its consumer.
pub proof fn lemma_last_in_first_out<T>(start: Seq<T>, values: Seq<T>)
    ensures
        pending(start, pushes(values)) == values.reverse() + start,
        batches(start, pushes(values).push(Op::PopAll)) == seq![values.reverse() + start],
    decreases values.len(),
{
    let ops = pushes(values);
    if values.len() > 0 {
        let earlier = values.drop_last();
        lemma_last_in_first_out(start, earlier);
        assert(ops.drop_last() =~= pushes(earlier));
        assert(ops.last() == Op::Push(values.last()));
        assert(values.reverse() =~= seq![values.last()] + earlier.reverse());
        assert(seq![values.last()] + (earlier.reverse() + start) =~= values.reverse() + start);
    } else {
        assert(values.reverse() + start =~= start);
    }
    assert(ops.push(Op::PopAll).drop_last() =~= ops);
    lemma_pushes_hand_over_nothing(start, values);
}

/// Pushing hands nothing to any consumer.
pub proof fn lemma_pushes_hand_over_nothing<T>(start: Seq<T>, values: Seq<T>)
    ensures
        batches(start, pushes(values)) == Seq::<Seq<T>>::empty(),
        pushed(pushes(values)) == values,
    decreases values.len(),
{
    if values.len() > 0 {
        lemma_pushes_hand_over_nothing(start, values.drop_last());
        assert(pushes(values).drop_last() =~= pushes(values.drop_last()));
        assert(pushes(values).last() == Op::Push(values.last()));
        assert(values.drop_last().push(values.last()) =~= values);
    } else {
        assert(values =~= Seq::<T>::empty());
    }
}

/// A `pop_all` on an empty stack hands over nothing and leaves the stack
/// empty, however often it is repeated.
pub proof fn lemma_empty_drain<T>(start: Seq<T>, ops: Seq<Op<T>>)
    requires
        pending(start, ops).len() == 0,
    ensures
        pending(start, ops.push(Op::PopAll)) == pending(start, ops),
        batches(start, ops.push(Op::PopAll)) == batches(start, ops).push(Seq::<T>::empty()),
{
    assert(ops.push(Op::PopAll).drop_last() =~= ops);
    assert(pending(start, ops) =~= Seq::<T>::empty());
}

} // verus!
