//! The prioritized mailbox: a queue of work items ordered by priority, and
//! the flag by which the producer announces that nothing more will arrive.
//!
//! Among items of equal priority the one that was enqueued first is served
//! first.

use vstd::prelude::*;
use crate::work_item::WorkItem;

verus! {

/// What one attempt to withdraw an item observes.
#[derive(Clone, Copy, Debug, PartialEq, Eq, Structural)]
pub enum TakeOutcome {
    /// An item was available and has been removed.
    Item(WorkItem),
    /// Nothing is queued right now, but more may still arrive.
    EmptyButOpen,
    /// Nothing is queued and nothing will ever arrive.
    Done,
}

/// Why an item was not accepted.
#[derive(Clone, Copy, Debug, PartialEq, Eq, Structural)]
pub enum MailboxError {
    /// The mailbox had already been closed.
    Closed,
}

/// The mathematical content of a mailbox: the queued items in the order in
/// which they will be served, and the closed flag.
pub struct MailboxState {
    pub queue: Seq<WorkItem>,
    pub closed: bool,
}

/// Priorities never decrease along `queue`.
pub open spec fn in_serving_order(queue: Seq<WorkItem>) -> bool {
    forall|i: int, j: int|
        0 <= i < j < queue.len() ==> (#[trigger] queue[i]).priority <= (#[trigger] queue[j]).priority
}

/// The number of leading items of `queue` whose priority number does not
/// exceed `priority`.
pub open spec fn leading_at_most(queue: Seq<WorkItem>, priority: u32) -> int
    decreases queue.len(),
{
    if queue.len() > 0 && queue[0].priority <= priority {
        1 + leading_at_most(queue.skip(1), priority)
    } else {
        0
    }
}

impl MailboxState {
    /// The mailbox at the start of a run: nothing queued, not closed.
    pub open spec fn initial() -> MailboxState {
        MailboxState { queue: Seq::empty(), closed: false }
    }

    /// The queue is in serving order: priorities never decrease along it.
    pub open spec fn ordered(self) -> bool {
        in_serving_order(self.queue)
    }

    /// Where a new item of the given priority goes: behind every queued item
    /// that is at least as urgent, ahead of all the others.
    pub open spec fn slot(self, priority: u32) -> int {
        leading_at_most(self.queue, priority)
    }

    /// The state after an attempt to enqueue `item`.
    pub open spec fn enqueue(self, item: WorkItem) -> MailboxState {
        if self.closed {
            self
        } else {
            MailboxState { queue: self.queue.insert(self.slot(item.priority), item), closed: false }
        }
    }

    /// What an attempt to withdraw an item observes in this state.
    pub open spec fn outcome(self) -> TakeOutcome {
        if self.queue.len() > 0 {
            TakeOutcome::Item(self.queue[0])
        } else if self.closed {
            TakeOutcome::Done
        } else {
            TakeOutcome::EmptyButOpen
        }
    }

    /// The state after an attempt to withdraw an item.
    pub open spec fn take(self) -> MailboxState {
        if self.queue.len() > 0 {
            MailboxState { queue: self.queue.skip(1), closed: self.closed }
        } else {
            self
        }
    }

    /// The state after the producer's announcement that it is finished.
    pub open spec fn close(self) -> MailboxState {
        MailboxState { queue: self.queue, closed: true }
    }
}

/// The slot for a priority is a position of the queue, or its end.
pub proof fn lemma_slot_bounds(queue: Seq<WorkItem>, priority: u32)
    ensures
        0 <= leading_at_most(queue, priority) <= queue.len(),
    decreases queue.len(),
{
    if queue.len() > 0 && queue[0].priority <= priority {
        lemma_slot_bounds(queue.skip(1), priority);
    }
}

/// In an ordered queue the slot for a priority splits the queue in two: the
/// items ahead of it are at least as urgent, the items behind it are less
/// urgent.
pub proof fn lemma_slot_splits(queue: Seq<WorkItem>, priority: u32)
    requires
        in_serving_order(queue),
    ensures
        0 <= leading_at_most(queue, priority) <= queue.len(),
        forall|i: int|
            0 <= i < leading_at_most(queue, priority) ==> (#[trigger] queue[i]).priority
                <= priority,
        forall|i: int|
            leading_at_most(queue, priority) <= i < queue.len() ==> (#[trigger] queue[i]).priority
                > priority,
    decreases queue.len(),
{
    if queue.len() > 0 && queue[0].priority <= priority {
        let rest = queue.skip(1);
        assert forall|i: int, j: int| 0 <= i < j < rest.len() implies (#[trigger] rest[i]).priority
            <= (#[trigger] rest[j]).priority by {
            assert(rest[i] == queue[i + 1]);
            assert(rest[j] == queue[j + 1]);
        }
        lemma_slot_splits(rest, priority);
        let k = leading_at_most(queue, priority);
        assert forall|i: int| 0 <= i < k implies (#[trigger] queue[i]).priority <= priority by {
            if i > 0 {
                assert(queue[i] == rest[i - 1]);
            }
        }
        assert forall|i: int| k <= i < queue.len() implies (#[trigger] queue[i]).priority
            > priority by {
            assert(queue[i] == rest[i - 1]);
        }
    } else {
        assert forall|i: int| 0 <= i < queue.len() implies (#[trigger] queue[i]).priority
            > priority by {
            if i > 0 {
                assert(queue[0].priority <= queue[i].priority);
            }
        }
    }
}

/// A position that splits an ordered queue as the slot does is the slot.
pub proof fn lemma_slot_unique(queue: Seq<WorkItem>, priority: u32, k: int)
    requires
        0 <= k <= queue.len(),
        forall|i: int| 0 <= i < k ==> (#[trigger] queue[i]).priority <= priority,
        forall|i: int| k <= i < queue.len() ==> (#[trigger] queue[i]).priority > priority,
    ensures
        leading_at_most(queue, priority) == k,
    decreases queue.len(),
{
    if queue.len() > 0 && queue[0].priority <= priority {
        let rest = queue.skip(1);
        assert(k > 0) by {
            if k == 0 {
                assert(queue[0].priority > priority);
            }
        }
        assert forall|i: int| 0 <= i < k - 1 implies (#[trigger] rest[i]).priority <= priority by {
            assert(rest[i] == queue[i + 1]);
        }
        assert forall|i: int| k - 1 <= i < rest.len() implies (#[trigger] rest[i]).priority
            > priority by {
            assert(rest[i] == queue[i + 1]);
        }
        lemma_slot_unique(rest, priority, k - 1);
    } else {
        if k > 0 {
            assert(queue[0].priority <= priority);
        }
    }
}

/// The mailbox shared by the producer and the workers.
///
/// Each operation is meant to run inside the one exclusive region that
/// guards the mailbox, so that whoever withdraws reads "empty" and "closed"
/// together.
pub struct PriorityMailbox {
    /// The queued items, the next one to serve last.
    items: Vec<WorkItem>,
    closed: bool,
}

impl View for PriorityMailbox {
    type V = MailboxState;

    closed spec fn view(&self) -> MailboxState {
        MailboxState {
            queue: Seq::new(self.items@.len(), |i: int| self.items@[self.items@.len() - 1 - i]),
            closed: self.closed,
        }
    }
}

impl PriorityMailbox {
    /// The queued items are held in serving order.
    pub open spec fn wf(&self) -> bool {
        self@.ordered()
    }

    /// An open mailbox with nothing queued.
    pub fn new() -> (mailbox: PriorityMailbox)
        ensures
            mailbox.wf(),
            mailbox@ == MailboxState::initial(),
    {
        let mailbox = PriorityMailbox { items: Vec::new(), closed: false };
        assert(mailbox@.queue =~= Seq::empty());
        mailbox
    }

    /// The number of queued items.
    pub fn len(&self) -> (n: usize)
        ensures
            n == self@.queue.len(),
    {
        self.items.len()
    }

    /// Whether nothing is queued.
    pub fn is_empty(&self) -> (empty: bool)
        ensures
            empty == (self@.queue.len() == 0),
    {
        self.items.len() == 0
    }

    /// Whether the producer has announced that it is finished.
    pub fn is_closed(&self) -> (closed: bool)
        ensures
            closed == self@.closed,
    {
        self.closed
    }

    /// The index in `items` at which an item of the given priority is
    /// stored: behind the less urgent items, ahead of the others.
    fn storage_index(&self, item: &WorkItem) -> (index: usize)
        requires
            self.wf(),
        ensures
            index <= self.items@.len(),
            index + self@.slot(item.priority) == self.items@.len(),
    {
        let ghost priority = item.priority;
        let mut low: usize = 0;
        let mut high: usize = self.items.len();
        proof {
            assert forall|i: int, j: int| 0 <= i < j < self.items@.len() implies self.items@[i].priority
                >= self.items@[j].priority by {
                let n = self.items@.len() as int;
                assert(self@.queue[n - 1 - j] == self.items@[j]);
                assert(self@.queue[n - 1 - i] == self.items@[i]);
            }
        }
        while low < high
            invariant
                priority == item.priority,
                0 <= low <= high <= self.items@.len(),
                forall|i: int, j: int|
                    0 <= i < j < self.items@.len() ==> self.items@[i].priority
                        >= self.items@[j].priority,
                forall|i: int| 0 <= i < low ==> (#[trigger] self.items@[i]).priority > priority,
                forall|i: int|
                    high <= i < self.items@.len() ==> (#[trigger] self.items@[i]).priority
                        <= priority,
            decreases high - low,
        {
            let middle: usize = low + (high - low) / 2;
            if item.precedes(&self.items[middle]) {
                low = middle + 1;
            } else {
                high = middle;
            }
        }
        proof {
            let n = self.items@.len() as int;
            let queue = self@.queue;
            assert forall|i: int| 0 <= i < n - low implies (#[trigger] queue[i]).priority
                <= priority by {
                assert(queue[i] == self.items@[n - 1 - i]);
            }
            assert forall|i: int| n - low <= i < queue.len() implies (#[trigger] queue[i]).priority
                > priority by {
                assert(queue[i] == self.items@[n - 1 - i]);
            }
            lemma_slot_unique(queue, priority, n - low);
        }
        low
    }

    /// Inserts `item` behind every queued item that is at least as urgent.
    /// Fails, and changes nothing, once the mailbox has been closed.
    pub fn enqueue(&mut self, item: WorkItem) -> (result: Result<(), MailboxError>)
        requires
            old(self).wf(),
        ensures
            final(self).wf(),
            final(self)@ == old(self)@.enqueue(item),
            result == if old(self)@.closed {
                Err::<(), MailboxError>(MailboxError::Closed)
            } else {
                Ok::<(), MailboxError>(())
            },
    {
        if self.closed {
            return Err(MailboxError::Closed);
        }
        let index = self.storage_index(&item);
        self.items.insert(index, item);
        proof {
            assert(self@.queue =~= old(self)@.enqueue(item).queue);
            lemma_enqueue_keeps_order(old(self)@, item);
        }
        Ok(())
    }

    /// Withdraws the most urgent item, if there is one, and otherwise tells
    /// "nothing yet" from "nothing ever".
    pub fn try_take(&mut self) -> (outcome: TakeOutcome)
        requires
            old(self).wf(),
        ensures
            final(self).wf(),
            outcome == old(self)@.outcome(),
            final(self)@ == old(self)@.take(),
    {
        let taken = self.items.pop();
        let outcome = match taken {
            Some(item) => TakeOutcome::Item(item),
            None => if self.closed {
                TakeOutcome::Done
            } else {
                TakeOutcome::EmptyButOpen
            },
        };
        proof {
            assert(self@.queue =~= old(self)@.take().queue);
            lemma_take_keeps_order(old(self)@);
        }
        outcome
    }

    /// Announces that no further item will be enqueued. Closing a closed
    /// mailbox changes nothing.
    pub fn close(&mut self)
        requires
            old(self).wf(),
        ensures
            final(self).wf(),
            final(self)@ == old(self)@.close(),
    {
        self.closed = true;
    }
}

/// Enqueueing keeps the queue in serving order.
pub proof fn lemma_enqueue_keeps_order(state: MailboxState, item: WorkItem)
    requires
        state.ordered(),
    ensures
        state.enqueue(item).ordered(),
{
    if !state.closed {
        let k = state.slot(item.priority);
        lemma_slot_splits(state.queue, item.priority);
        let after = state.enqueue(item).queue;
        assert forall|i: int, j: int| 0 <= i < j < after.len() implies (#[trigger] after[i]).priority
            <= (#[trigger] after[j]).priority by {
            if i < k {
                assert(after[i] == state.queue[i]);
            } else if i > k {
                assert(after[i] == state.queue[i - 1]);
            }
            if j < k {
                assert(after[j] == state.queue[j]);
            } else if j > k {
                assert(after[j] == state.queue[j - 1]);
            }
        }
    }
}

/// Withdrawing keeps the queue in serving order.
pub proof fn lemma_take_keeps_order(state: MailboxState)
    requires
        state.ordered(),
    ensures
        state.take().ordered(),
{
    let after = state.take().queue;
    assert forall|i: int, j: int| 0 <= i < j < after.len() implies (#[trigger] after[i]).priority
        <= (#[trigger] after[j]).priority by {
        assert(after[i] == state.queue[i + 1]);
        assert(after[j] == state.queue[j + 1]);
    }
}

} // verus!
