//! Histories of mailbox operations, and what holds of the mailbox after
//! every one of them.
//!
//! Each operation on the mailbox is atomic, so whatever the producer and the
//! workers do concurrently reaches the mailbox as one sequence of
//! operations. The statements here quantify over all such sequences.

use vstd::prelude::*;
use vstd::multiset::Multiset;
use vstd::seq_lib::{to_multiset_insert, to_multiset_remove};
use crate::mailbox::{
    lemma_enqueue_keeps_order, lemma_slot_bounds, lemma_take_keeps_order, MailboxState,
    TakeOutcome,
};
use crate::work_item::WorkItem;

verus! {

/// One operation on the mailbox.
pub enum MailboxOp {
    Enqueue(WorkItem),
    TryTake,
    Close,
}

impl MailboxState {
    /// The state after one operation.
    pub open spec fn apply(self, op: MailboxOp) -> MailboxState {
        match op {
            MailboxOp::Enqueue(item) => self.enqueue(item),
            MailboxOp::TryTake => self.take(),
            MailboxOp::Close => self.close(),
        }
    }

    /// The state after a sequence of operations.
    pub open spec fn replay(self, ops: Seq<MailboxOp>) -> MailboxState
        decreases ops.len(),
    {
        if ops.len() == 0 {
            self
        } else {
            self.replay(ops.drop_last()).apply(ops.last())
        }
    }

    /// The items that the operations put into the mailbox: those whose
    /// enqueue found the mailbox open.
    pub open spec fn accepted(self, ops: Seq<MailboxOp>) -> Multiset<WorkItem>
        decreases ops.len(),
    {
        if ops.len() == 0 {
            Multiset::empty()
        } else {
            let before = self.replay(ops.drop_last());
            let earlier = self.accepted(ops.drop_last());
            match ops.last() {
                MailboxOp::Enqueue(item) => if before.closed {
                    earlier
                } else {
                    earlier.insert(item)
                },
                _ => earlier,
            }
        }
    }

    /// The items that the operations handed out.
    pub open spec fn delivered(self, ops: Seq<MailboxOp>) -> Multiset<WorkItem>
        decreases ops.len(),
    {
        if ops.len() == 0 {
            Multiset::empty()
        } else {
            let before = self.replay(ops.drop_last());
            let earlier = self.delivered(ops.drop_last());
            match (ops.last(), before.outcome()) {
                (MailboxOp::TryTake, TakeOutcome::Item(item)) => earlier.insert(item),
                _ => earlier,
            }
        }
    }
}

/// After any history the mailbox holds exactly what was there at the start
/// and what was put in, less what was handed out: nothing is lost and
/// nothing is handed out twice.
pub proof fn lemma_nothing_lost_nothing_duplicated(start: MailboxState, ops: Seq<MailboxOp>)
    ensures
        start.replay(ops).queue.to_multiset().add(start.delivered(ops))
            == start.queue.to_multiset().add(start.accepted(ops)),
    decreases ops.len(),
{
    broadcast use vstd::multiset::group_multiset_axioms;

    if ops.len() == 0 {
        assert(start.replay(ops).queue.to_multiset().add(start.delivered(ops))
            =~= start.queue.to_multiset().add(start.accepted(ops)));
    } else {
        let earlier = ops.drop_last();
        let before = start.replay(earlier);
        lemma_nothing_lost_nothing_duplicated(start, earlier);
        let held = before.queue.to_multiset();
        match ops.last() {
            MailboxOp::Enqueue(item) => {
                if !before.closed {
                    lemma_slot_bounds(before.queue, item.priority);
                    to_multiset_insert(before.queue, before.slot(item.priority), item);
                    assert(start.replay(ops).queue.to_multiset() == held.insert(item));
                    assert(start.accepted(ops) == start.accepted(earlier).insert(item));
                    assert(start.delivered(ops) == start.delivered(earlier));
                    assert(held.insert(item).add(start.delivered(earlier)) =~= held.add(
                        start.delivered(earlier),
                    ).insert(item));
                    assert(start.queue.to_multiset().add(start.accepted(earlier).insert(item))
                        =~= start.queue.to_multiset().add(start.accepted(earlier)).insert(item));
                } else {
                    assert(start.replay(ops) == before);
                }
            },
            MailboxOp::TryTake => {
                if before.queue.len() > 0 {
                    let first = before.queue[0];
                    assert(before.queue.skip(1) =~= before.queue.remove(0));
                    to_multiset_remove(before.queue, 0);
                    before.queue.to_multiset_ensures();
                    assert(held.count(first) > 0) by {
                        assert(before.queue.contains(first));
                    }
                    assert(start.replay(ops).queue.to_multiset() == held.remove(first));
                    assert(before.outcome() == TakeOutcome::Item(first));
                    assert(start.delivered(ops) == start.delivered(earlier).insert(first));
                    assert(start.accepted(ops) == start.accepted(earlier));
                    assert(held.remove(first).add(start.delivered(earlier).insert(first)) =~= held.add(
                        start.delivered(earlier),
                    ));
                } else {
                    assert(start.replay(ops) == before);
                    assert(start.delivered(ops) == start.delivered(earlier));
                }
            },
            MailboxOp::Close => {
                assert(start.replay(ops).queue == before.queue);
            },
        }
    }
}

/// A mailbox that starts in serving order is in serving order after any
/// history.
pub proof fn lemma_always_in_serving_order(start: MailboxState, ops: Seq<MailboxOp>)
    requires
        start.ordered(),
    ensures
        start.replay(ops).ordered(),
    decreases ops.len(),
{
    if ops.len() > 0 {
        let before = start.replay(ops.drop_last());
        lemma_always_in_serving_order(start, ops.drop_last());
        match ops.last() {
            MailboxOp::Enqueue(item) => lemma_enqueue_keeps_order(before, item),
            MailboxOp::TryTake => lemma_take_keeps_order(before),
            MailboxOp::Close => {},
        }
    }
}

/// No operation of the history is an enqueue.
pub open spec fn no_enqueue(ops: Seq<MailboxOp>) -> bool {
    forall|i: int| 0 <= i < ops.len() ==> !(#[trigger] ops[i] is Enqueue)
}

/// A history without an enqueue only removes items from the front of the
/// queue.
pub proof fn lemma_without_enqueue(state: MailboxState, ops: Seq<MailboxOp>)
    requires
        no_enqueue(ops),
    ensures
        exists|k: int|
            0 <= k <= state.queue.len() && state.replay(ops).queue == #[trigger] state.queue.skip(
                k,
            ),
    decreases ops.len(),
{
    if ops.len() == 0 {
        assert(state.queue =~= state.queue.skip(0));
    } else {
        let earlier = ops.drop_last();
        assert forall|i: int| 0 <= i < earlier.len() implies !(#[trigger] earlier[i] is Enqueue) by {
            assert(earlier[i] == ops[i]);
        }
        lemma_without_enqueue(state, earlier);
        let before = state.replay(earlier);
        let k = choose|k: int|
            0 <= k <= state.queue.len() && before.queue == #[trigger] state.queue.skip(k);
        assert(!(ops[ops.len() - 1] is Enqueue));
        if ops.last() is TryTake && before.queue.len() > 0 {
            assert(before.queue.skip(1) =~= state.queue.skip(k + 1));
        } else {
            assert(state.replay(ops).queue == state.queue.skip(k));
        }
    }
}

/// Priority ordering. An attempt to withdraw observes the most urgent of
/// the items that are queued at that moment. Of two attempts with no
/// enqueue between them, the second observes no item that is more urgent
/// than the one the first observed.
pub proof fn lemma_takes_follow_priority(state: MailboxState, between: Seq<MailboxOp>)
    requires
        state.ordered(),
        no_enqueue(between),
    ensures
        forall|i: int|
            0 <= i < state.queue.len() ==> state.outcome()->Item_0.priority <= (
            #[trigger] state.queue[i]).priority,
        state.take().replay(between).outcome() matches TakeOutcome::Item(second)
            ==> state.outcome() matches TakeOutcome::Item(first) && first.priority
            <= second.priority,
{
    assert forall|i: int| 0 <= i < state.queue.len() implies state.outcome()->Item_0.priority <= (
    #[trigger] state.queue[i]).priority by {
        if i > 0 {
            assert(state.queue[0].priority <= state.queue[i].priority);
        }
    }
    if let TakeOutcome::Item(second) = state.take().replay(between).outcome() {
        let rest = state.take().queue;
        lemma_without_enqueue(state.take(), between);
        let k = choose|k: int|
            0 <= k <= rest.len() && state.take().replay(between).queue == #[trigger] rest.skip(k);
        assert(second == rest.skip(k)[0]);
        assert(second == state.queue[k + 1]);
    }
}

/// Once closed, always closed: no history reopens the mailbox, and from
/// the close on no attempt to withdraw observes "empty but open".
pub proof fn lemma_close_is_permanent(state: MailboxState, ops: Seq<MailboxOp>)
    ensures
        state.close().replay(ops).closed,
        !(state.close().replay(ops).outcome() is EmptyButOpen),
        state.close().replay(ops).queue.len() == 0 ==> state.close().replay(ops).outcome()
            == TakeOutcome::Done,
        state.close().close() == state.close(),
    decreases ops.len(),
{
    if ops.len() > 0 {
        lemma_close_is_permanent(state, ops.drop_last());
    }
}

/// Once closed and empty, the mailbox stays as it is: every later attempt
/// to withdraw observes `Done`, and nothing is accepted any more.
pub proof fn lemma_done_is_final(state: MailboxState, ops: Seq<MailboxOp>)
    requires
        state.outcome() == TakeOutcome::Done,
    ensures
        state.replay(ops) == state,
        state.replay(ops).outcome() == TakeOutcome::Done,
        state.accepted(ops) == Multiset::<WorkItem>::empty(),
        state.delivered(ops) == Multiset::<WorkItem>::empty(),
    decreases ops.len(),
{
    if ops.len() > 0 {
        lemma_done_is_final(state, ops.drop_last());
    }
}

/// `Done` is observed only when the mailbox has been closed, and `close`
/// is the one operation that closes it.
pub proof fn lemma_done_only_after_close(start: MailboxState, ops: Seq<MailboxOp>)
    requires
        !start.closed,
        start.replay(ops).outcome() == TakeOutcome::Done,
    ensures
        exists|i: int| 0 <= i < ops.len() && ops[i] == MailboxOp::Close,
    decreases ops.len(),
{
    if ops.len() > 0 {
        let earlier = ops.drop_last();
        if ops.last() == MailboxOp::Close {
            assert(ops[ops.len() - 1] == MailboxOp::Close);
        } else {
            let before = start.replay(earlier);
            assert(before.closed);
            lemma_closed_only_by_close(start, earlier);
            let i = choose|i: int| 0 <= i < earlier.len() && earlier[i] == MailboxOp::Close;
            assert(ops[i] == MailboxOp::Close);
        }
    }
}

/// A mailbox that was open and is closed has seen a `close`.
pub proof fn lemma_closed_only_by_close(start: MailboxState, ops: Seq<MailboxOp>)
    requires
        !start.closed,
        start.replay(ops).closed,
    ensures
        exists|i: int| 0 <= i < ops.len() && ops[i] == MailboxOp::Close,
    decreases ops.len(),
{
    if ops.len() > 0 {
        let earlier = ops.drop_last();
        if ops.last() == MailboxOp::Close {
            assert(ops[ops.len() - 1] == MailboxOp::Close);
        } else {
            lemma_closed_only_by_close(start, earlier);
            let i = choose|i: int| 0 <= i < earlier.len() && earlier[i] == MailboxOp::Close;
            assert(ops[i] == MailboxOp::Close);
        }
    }
}

/// An item enqueued into an open mailbox is queued at its slot, and is what
/// the attempt to withdraw observes once the items ahead of it are gone. In
/// an empty mailbox that is the very next attempt.
pub proof fn lemma_enqueued_item_is_served(state: MailboxState, item: WorkItem)
    requires
        !state.closed,
    ensures
        state.enqueue(item).queue.len() == state.queue.len() + 1,
        state.enqueue(item).queue[state.slot(item.priority)] == item,
        state.enqueue(item).outcome() is Item,
        state.queue.len() == 0 ==> state.enqueue(item).outcome() == TakeOutcome::Item(item),
        state.enqueue(item).replay(
            Seq::new(state.slot(item.priority) as nat, |i: int| MailboxOp::TryTake),
        ).outcome() == TakeOutcome::Item(item),
{
    lemma_slot_bounds(state.queue, item.priority);
    let after = state.enqueue(item);
    let k = state.slot(item.priority);
    lemma_takes_skip(after, k as nat);
    assert(after.queue.skip(k)[0] == after.queue[k]);
}

/// That many attempts to withdraw remove that many items from the front.
pub proof fn lemma_takes_skip(state: MailboxState, n: nat)
    requires
        n <= state.queue.len(),
    ensures
        state.replay(Seq::new(n, |i: int| MailboxOp::TryTake)) == (MailboxState {
            queue: state.queue.skip(n as int),
            closed: state.closed,
        }),
    decreases n,
{
    let ops = Seq::new(n, |i: int| MailboxOp::TryTake);
    if n == 0 {
        assert(state.queue.skip(0) =~= state.queue);
    } else {
        let shorter = Seq::new((n - 1) as nat, |i: int| MailboxOp::TryTake);
        assert(ops.drop_last() =~= shorter);
        lemma_takes_skip(state, (n - 1) as nat);
        assert(state.queue.skip(n - 1).skip(1) =~= state.queue.skip(n as int));
    }
}

} // verus!
