//! A worker: withdraw the most urgent item, execute it, report, repeat; stop
//! only when the mailbox is empty and closed.
//!
//! The worker is a state machine. Polling the mailbox yields the one action
//! that its driver has to perform next on the worker's behalf.

use vstd::prelude::*;
use crate::mailbox::{MailboxState, PriorityMailbox, TakeOutcome};
use crate::work_item::WorkItem;

verus! {

/// Where a worker stands.
#[derive(Clone, Copy, Debug, PartialEq, Eq, Structural)]
pub enum WorkerStage {
    /// Ready to withdraw an item.
    Polling,
    /// Holding an item that it has withdrawn and not yet reported.
    Executing(WorkItem),
    /// Terminated, having observed `Done`.
    Stopped,
}

/// What the driver has to do for the worker next.
#[derive(Clone, Copy, Debug, PartialEq, Eq, Structural)]
pub enum WorkerAction {
    /// Block for the item's duration, and have the worker report it.
    Execute(WorkItem),
    /// Nothing is queued yet: wait, and poll again.
    Wait,
    /// Nothing will ever be queued again: end the worker.
    Stop,
}

/// The report of one executed item.
#[derive(Clone, Copy, Debug, PartialEq, Eq, Structural)]
pub struct ExecutionEvent {
    /// The identity of the worker that executed the item.
    pub worker: usize,
    /// The item, with its identity, priority and duration.
    pub item: WorkItem,
}

/// The mathematical content of a worker: its identity, where it stands, and
/// every item it has executed so far, in order.
pub struct WorkerState {
    pub id: usize,
    pub stage: WorkerStage,
    pub executed: Seq<WorkItem>,
}

impl WorkerAction {
    /// What a polling worker does about an outcome. `EmptyButOpen` never
    /// ends a worker; only `Done` does.
    pub open spec fn on(outcome: TakeOutcome) -> WorkerAction {
        match outcome {
            TakeOutcome::Item(item) => WorkerAction::Execute(item),
            TakeOutcome::EmptyButOpen => WorkerAction::Wait,
            TakeOutcome::Done => WorkerAction::Stop,
        }
    }

    /// What a polling worker does about an outcome.
    pub fn for_outcome(outcome: TakeOutcome) -> (action: WorkerAction)
        ensures
            action == WorkerAction::on(outcome),
    {
        match outcome {
            TakeOutcome::Item(item) => WorkerAction::Execute(item),
            TakeOutcome::EmptyButOpen => WorkerAction::Wait,
            TakeOutcome::Done => WorkerAction::Stop,
        }
    }
}

impl WorkerState {
    /// A worker before its first poll.
    pub open spec fn initial(id: usize) -> WorkerState {
        WorkerState { id, stage: WorkerStage::Polling, executed: Seq::empty() }
    }

    /// Whether the worker touches the mailbox when it polls.
    pub open spec fn is_polling(self) -> bool {
        self.stage is Polling
    }

    /// The action that a poll yields, given the mailbox it finds.
    pub open spec fn action(self, mailbox: MailboxState) -> WorkerAction {
        match self.stage {
            WorkerStage::Polling => WorkerAction::on(mailbox.outcome()),
            WorkerStage::Executing(item) => WorkerAction::Execute(item),
            WorkerStage::Stopped => WorkerAction::Stop,
        }
    }

    /// The worker after a poll of the given mailbox.
    pub open spec fn poll(self, mailbox: MailboxState) -> WorkerState {
        match (self.stage, mailbox.outcome()) {
            (WorkerStage::Polling, TakeOutcome::Item(item)) => WorkerState {
                id: self.id,
                stage: WorkerStage::Executing(item),
                executed: self.executed,
            },
            (WorkerStage::Polling, TakeOutcome::Done) => WorkerState {
                id: self.id,
                stage: WorkerStage::Stopped,
                executed: self.executed,
            },
            _ => self,
        }
    }

    /// The mailbox after a poll by this worker.
    pub open spec fn polled(self, mailbox: MailboxState) -> MailboxState {
        if self.is_polling() {
            mailbox.take()
        } else {
            mailbox
        }
    }

    /// The worker after it has reported the item it holds, if it holds one.
    pub open spec fn finish(self) -> WorkerState {
        match self.stage {
            WorkerStage::Executing(item) => WorkerState {
                id: self.id,
                stage: WorkerStage::Polling,
                executed: self.executed.push(item),
            },
            _ => self,
        }
    }

    /// The report that finishing yields, if the worker holds an item.
    pub open spec fn report(self) -> Option<ExecutionEvent> {
        match self.stage {
            WorkerStage::Executing(item) => Some(ExecutionEvent { worker: self.id, item }),
            _ => None,
        }
    }
}

/// One worker of the pool.
#[derive(Clone, Copy)]
pub struct Worker {
    id: usize,
    stage: WorkerStage,
    /// The number of items executed so far.
    count: u64,
    executed: Ghost<Seq<WorkItem>>,
}

impl View for Worker {
    type V = WorkerState;

    closed spec fn view(&self) -> WorkerState {
        WorkerState { id: self.id, stage: self.stage, executed: self.executed@ }
    }
}

impl Worker {
    /// The counter agrees with the history.
    pub closed spec fn wf(&self) -> bool {
        self.count == self.executed@.len()
    }

    /// A worker that has not polled yet.
    pub fn new(id: usize) -> (worker: Worker)
        ensures
            worker.wf(),
            worker@ == WorkerState::initial(id),
    {
        Worker { id, stage: WorkerStage::Polling, count: 0, executed: Ghost(Seq::empty()) }
    }

    /// The worker's identity.
    pub fn id(&self) -> (id: usize)
        ensures
            id == self@.id,
    {
        self.id
    }

    /// Where the worker stands.
    pub fn stage(&self) -> (stage: WorkerStage)
        ensures
            stage == self@.stage,
    {
        self.stage
    }

    /// Whether the worker has terminated.
    pub fn is_stopped(&self) -> (stopped: bool)
        ensures
            stopped == (self@.stage is Stopped),
    {
        match self.stage {
            WorkerStage::Stopped => true,
            _ => false,
        }
    }

    /// The number of items executed so far.
    pub fn executed_count(&self) -> (count: u64)
        requires
            self.wf(),
        ensures
            count == self@.executed.len(),
    {
        self.count
    }

    /// Polls the mailbox. A worker that is ready withdraws: it takes charge
    /// of the item it gets, waits on `EmptyButOpen`, and stops on `Done`. A
    /// worker that holds an item, or has stopped, leaves the mailbox alone.
    pub fn poll(&mut self, mailbox: &mut PriorityMailbox) -> (action: WorkerAction)
        requires
            old(self).wf(),
            old(mailbox).wf(),
        ensures
            final(self).wf(),
            final(mailbox).wf(),
            action == old(self)@.action(old(mailbox)@),
            final(self)@ == old(self)@.poll(old(mailbox)@),
            final(mailbox)@ == old(self)@.polled(old(mailbox)@),
    {
        match self.stage {
            WorkerStage::Polling => {
                let outcome = mailbox.try_take();
                match outcome {
                    TakeOutcome::Item(item) => {
                        self.stage = WorkerStage::Executing(item);
                    },
                    TakeOutcome::EmptyButOpen => {},
                    TakeOutcome::Done => {
                        self.stage = WorkerStage::Stopped;
                    },
                }
                WorkerAction::for_outcome(outcome)
            },
            WorkerStage::Executing(item) => WorkerAction::Execute(item),
            WorkerStage::Stopped => WorkerAction::Stop,
        }
    }

    /// Reports the item that the worker holds, counts it, and makes the
    /// worker ready again. Without an item in hand nothing happens.
    pub fn finish(&mut self) -> (event: Option<ExecutionEvent>)
        requires
            old(self).wf(),
            old(self)@.stage is Executing ==> old(self)@.executed.len() < u64::MAX,
        ensures
            final(self).wf(),
            event == old(self)@.report(),
            final(self)@ == old(self)@.finish(),
    {
        match self.stage {
            WorkerStage::Executing(item) => {
                self.stage = WorkerStage::Polling;
                self.count = self.count + 1;
                self.executed = Ghost(self.executed@.push(item));
                Some(ExecutionEvent { worker: self.id, item })
            },
            _ => None,
        }
    }
}

} // verus!
