//! The whole pipeline as one state machine: a producer, the mailbox, and a
//! pool of workers, taking turns.
//!
//! Every operation on the mailbox is atomic, so each concurrent run is one
//! sequence of turns. What is proved here of every sequence of turns holds
//! of every run.

use vstd::prelude::*;
use vstd::multiset::Multiset;
use vstd::seq_lib::{to_multiset_build, to_multiset_insert, to_multiset_len, to_multiset_remove};
use crate::config::SimulationConfig;
use crate::mailbox::{
    lemma_enqueue_keeps_order, lemma_slot_bounds, lemma_take_keeps_order, MailboxState,
    TakeOutcome,
};
use crate::producer::{lemma_step, ProducerAction, ProducerState};
use crate::random::Draw;
use crate::work_item::WorkItem;
use crate::worker::{ExecutionEvent, WorkerAction, WorkerStage, WorkerState};

verus! {

/// Whose turn it is.
#[derive(Clone, Copy, Debug, PartialEq, Eq, Structural)]
pub enum Turn {
    /// The producer takes its next step.
    Producer,
    /// The worker of this index reports the item it holds, or else polls.
    Worker(usize),
}

/// What a turn did.
#[derive(Clone, Copy, Debug, PartialEq, Eq, Structural)]
pub enum Progress {
    /// The producer's step yielded this action, which has been performed.
    Producer(ProducerAction),
    /// The worker polled, with this result.
    Worker(WorkerAction),
    /// The worker reported this execution.
    Executed(ExecutionEvent),
}

/// The pipeline at one moment.
pub struct SystemState {
    pub producer: ProducerState,
    pub mailbox: MailboxState,
    pub workers: Seq<WorkerState>,
}

/// The items a worker is answerable for: those it has executed, and the one
/// it holds.
pub open spec fn holdings(worker: WorkerState) -> Multiset<WorkItem> {
    match worker.stage {
        WorkerStage::Executing(item) => worker.executed.to_multiset().insert(item),
        _ => worker.executed.to_multiset(),
    }
}

/// The items the workers are answerable for, all together.
pub open spec fn claimed(workers: Seq<WorkerState>) -> Multiset<WorkItem>
    decreases workers.len(),
{
    if workers.len() == 0 {
        Multiset::empty()
    } else {
        claimed(workers.drop_last()).add(holdings(workers.last()))
    }
}

/// The number of items the workers have executed, all together.
pub open spec fn executed_total(workers: Seq<WorkerState>) -> nat
    decreases workers.len(),
{
    if workers.len() == 0 {
        0
    } else {
        executed_total(workers.drop_last()) + workers.last().executed.len()
    }
}

/// The number of workers that hold an item.
pub open spec fn in_flight(workers: Seq<WorkerState>) -> nat
    decreases workers.len(),
{
    if workers.len() == 0 {
        0
    } else {
        in_flight(workers.drop_last()) + if workers.last().stage is Executing {
            1nat
        } else {
            0nat
        }
    }
}

/// The number of workers that have not stopped.
pub open spec fn active(workers: Seq<WorkerState>) -> nat
    decreases workers.len(),
{
    if workers.len() == 0 {
        0
    } else {
        active(workers.drop_last()) + if workers.last().stage is Stopped {
            0nat
        } else {
            1nat
        }
    }
}

impl SystemState {
    /// The pipeline before the first turn.
    pub open spec fn initial(config: SimulationConfig, worker_count: nat) -> SystemState {
        SystemState {
            producer: ProducerState::initial(config),
            mailbox: MailboxState::initial(),
            workers: Seq::new(worker_count, |i: int| WorkerState::initial(i as usize)),
        }
    }

    /// The mailbox after the producer's action has been performed on it.
    pub open spec fn deliver(self, action: ProducerAction) -> MailboxState {
        match action {
            ProducerAction::Enqueue(item) => self.mailbox.enqueue(item),
            ProducerAction::Close => self.mailbox.close(),
            _ => self.mailbox,
        }
    }

    /// The pipeline after a turn of the producer.
    pub open spec fn producer_turn(self, drawn: Draw) -> SystemState {
        SystemState {
            producer: self.producer.step(drawn).0,
            mailbox: self.deliver(self.producer.step(drawn).1),
            workers: self.workers,
        }
    }

    /// The pipeline after a turn of the worker of the given index.
    pub open spec fn worker_turn(self, index: int) -> SystemState {
        let worker = self.workers[index];
        if worker.stage is Executing {
            SystemState {
                producer: self.producer,
                mailbox: self.mailbox,
                workers: self.workers.update(index, worker.finish()),
            }
        } else {
            SystemState {
                producer: self.producer,
                mailbox: worker.polled(self.mailbox),
                workers: self.workers.update(index, worker.poll(self.mailbox)),
            }
        }
    }

    /// What a turn of the worker of the given index does.
    pub open spec fn worker_progress(self, index: int) -> Progress {
        let worker = self.workers[index];
        match worker.report() {
            Some(event) => Progress::Executed(event),
            None => Progress::Worker(worker.action(self.mailbox)),
        }
    }

    /// The pipeline after a turn. A turn of a worker that does not exist
    /// changes nothing.
    pub open spec fn step(self, turn: Turn, drawn: Draw) -> SystemState {
        match turn {
            Turn::Producer => self.producer_turn(drawn),
            Turn::Worker(index) => if index < self.workers.len() {
                self.worker_turn(index as int)
            } else {
                self
            },
        }
    }

    /// What a turn does; nothing for a worker that does not exist.
    pub open spec fn progress(self, turn: Turn, drawn: Draw) -> Option<Progress> {
        match turn {
            Turn::Producer => Some(Progress::Producer(self.producer.step(drawn).1)),
            Turn::Worker(index) => if index < self.workers.len() {
                Some(self.worker_progress(index as int))
            } else {
                None
            },
        }
    }

    /// The pipeline after a sequence of turns.
    pub open spec fn after(self, schedule: Seq<(Turn, Draw)>) -> SystemState
        decreases schedule.len(),
    {
        if schedule.len() == 0 {
            self
        } else {
            self.after(schedule.drop_last()).step(schedule.last().0, schedule.last().1)
        }
    }

    /// The pipeline after the first `count` workers have taken one turn
    /// each, in the order of their indices.
    pub open spec fn pool_turns(self, count: nat) -> SystemState
        decreases count,
    {
        if count == 0 {
            self
        } else {
            self.pool_turns((count - 1) as nat).worker_turn(count - 1)
        }
    }

    /// The pipeline after one round: a turn of the producer, and one turn
    /// of each worker.
    pub open spec fn round(self, drawn: Draw) -> SystemState {
        self.producer_turn(drawn).pool_turns(self.workers.len())
    }

    /// The pipeline after one round for each draw.
    pub open spec fn rounds(self, draws: Seq<Draw>) -> SystemState
        decreases draws.len(),
    {
        if draws.len() == 0 {
            self
        } else {
            self.rounds(draws.drop_last()).round(draws.last())
        }
    }

    /// The producer has made its announcement and every worker has stopped.
    pub open spec fn finished(self) -> bool {
        &&& self.producer.stage is Closed
        &&& forall|i: int| 0 <= i < self.workers.len() ==> (#[trigger] self.workers[i]).stage is Stopped
    }

    /// What holds of the pipeline at every moment of every run.
    pub open spec fn inv(self) -> bool {
        &&& self.workers.len() >= 1
        &&& self.producer.wf()
        &&& self.mailbox.ordered()
        &&& forall|i: int| 0 <= i < self.workers.len() ==> (#[trigger] self.workers[i]).id == i
        // The mailbox is closed exactly when the producer has finished.
        &&& self.mailbox.closed <==> self.producer.stage is Closed
        // Every generated item is in exactly one place.
        &&& self.producer.produced.to_multiset() == self.mailbox.queue.to_multiset().add(
            claimed(self.workers),
        )
        // A worker has stopped only on a mailbox that is closed and empty.
        &&& forall|i: int|
            0 <= i < self.workers.len() && (#[trigger] self.workers[i]).stage is Stopped
                ==> self.mailbox.closed && self.mailbox.queue.len() == 0
    }

    /// A bound on the number of turns that can still do something: it
    /// falls with every turn of a producer that has not finished, and with
    /// every turn of a worker that withdraws, reports or stops.
    pub open spec fn work_left(self) -> nat {
        3 * self.producer.steps_left() + 2 * self.mailbox.queue.len() + in_flight(self.workers)
            + active(self.workers)
    }
}

/// Replacing one worker replaces its holdings in what the pool is
/// answerable for, and its part in each of the pool's counts.
pub proof fn lemma_replace_worker(workers: Seq<WorkerState>, index: int, worker: WorkerState)
    requires
        0 <= index < workers.len(),
    ensures
        forall|item: WorkItem| #[trigger]
            claimed(workers.update(index, worker)).count(item) + holdings(workers[index]).count(
                item,
            ) == claimed(workers).count(item) + holdings(worker).count(item),
        executed_total(workers.update(index, worker)) + workers[index].executed.len()
            == executed_total(workers) + worker.executed.len(),
        in_flight(workers.update(index, worker)) + (if workers[index].stage is Executing {
            1nat
        } else {
            0nat
        }) == in_flight(workers) + (if worker.stage is Executing {
            1nat
        } else {
            0nat
        }),
        active(workers.update(index, worker)) + (if workers[index].stage is Stopped {
            0nat
        } else {
            1nat
        }) == active(workers) + (if worker.stage is Stopped {
            0nat
        } else {
            1nat
        }),
    decreases workers.len(),
{
    broadcast use vstd::multiset::group_multiset_axioms;

    let replaced = workers.update(index, worker);
    let rest = workers.drop_last();
    if index == workers.len() - 1 {
        assert(replaced.drop_last() =~= rest);
        assert(replaced.last() == worker);
        assert(workers.last() == workers[index]);
    } else {
        assert(replaced.drop_last() =~= rest.update(index, worker));
        assert(rest[index] == workers[index]);
        assert(replaced.last() == workers.last());
        lemma_replace_worker(rest, index, worker);
    }
    assert forall|item: WorkItem| #[trigger]
        claimed(replaced).count(item) + holdings(workers[index]).count(item) == claimed(
            workers,
        ).count(item) + holdings(worker).count(item) by {
        assert(claimed(replaced).count(item) == claimed(replaced.drop_last()).count(item)
            + holdings(replaced.last()).count(item));
        assert(claimed(workers).count(item) == claimed(rest).count(item) + holdings(
            workers.last(),
        ).count(item));
        if index < workers.len() - 1 {
            assert(claimed(rest.update(index, worker)).count(item) + holdings(rest[index]).count(
                item,
            ) == claimed(rest).count(item) + holdings(worker).count(item));
        }
    }
}

/// An empty history holds no item.
pub proof fn lemma_empty_history()
    ensures
        Seq::<WorkItem>::empty().to_multiset() == Multiset::<WorkItem>::empty(),
{
    to_multiset_len(Seq::<WorkItem>::empty());
    vstd::multiset::lemma_multiset_empty_len(Seq::<WorkItem>::empty().to_multiset());
}

/// The pool is answerable for as many items as its workers have executed
/// and hold.
pub proof fn lemma_claimed_len(workers: Seq<WorkerState>)
    ensures
        claimed(workers).len() == executed_total(workers) + in_flight(workers),
    decreases workers.len(),
{
    broadcast use vstd::multiset::group_multiset_axioms;

    if workers.len() > 0 {
        lemma_claimed_len(workers.drop_last());
        let last = workers.last();
        to_multiset_len(last.executed);
        if let WorkerStage::Executing(item) = last.stage {
            vstd::multiset::lemma_insert_len(last.executed.to_multiset(), item);
        }
    }
}

/// Each worker's count, and the item it may hold, is part of the pool's.
pub proof fn lemma_worker_within_pool(workers: Seq<WorkerState>, index: int)
    requires
        0 <= index < workers.len(),
    ensures
        workers[index].executed.len() + (if workers[index].stage is Executing {
            1nat
        } else {
            0nat
        }) <= executed_total(workers) + in_flight(workers),
        !(workers[index].stage is Stopped) ==> active(workers) >= 1,
    decreases workers.len(),
{
    if index < workers.len() - 1 {
        assert(workers.drop_last()[index] == workers[index]);
        lemma_worker_within_pool(workers.drop_last(), index);
    }
}

/// A pool in which every worker has stopped holds nothing and has no
/// active worker.
pub proof fn lemma_all_stopped(workers: Seq<WorkerState>)
    requires
        forall|i: int| 0 <= i < workers.len() ==> (#[trigger] workers[i]).stage is Stopped,
    ensures
        in_flight(workers) == 0,
        active(workers) == 0,
    decreases workers.len(),
{
    if workers.len() > 0 {
        assert(workers.last() == workers[workers.len() - 1]);
        assert forall|i: int| 0 <= i < workers.drop_last().len() implies (
        #[trigger] workers.drop_last()[i]).stage is Stopped by {
            assert(workers.drop_last()[i] == workers[i]);
        }
        lemma_all_stopped(workers.drop_last());
    }
}

/// A fresh pool is answerable for nothing.
pub proof fn lemma_fresh_pool(worker_count: nat)
    ensures
        claimed(Seq::new(worker_count, |i: int| WorkerState::initial(i as usize)))
            == Multiset::<WorkItem>::empty(),
    decreases worker_count,
{
    broadcast use vstd::multiset::group_multiset_axioms;

    let pool = Seq::new(worker_count, |i: int| WorkerState::initial(i as usize));
    if worker_count > 0 {
        let smaller = Seq::new((worker_count - 1) as nat, |i: int| WorkerState::initial(i as usize));
        assert(pool.drop_last() =~= smaller);
        lemma_fresh_pool((worker_count - 1) as nat);
        lemma_empty_history();
        assert(pool.last().executed =~= Seq::<WorkItem>::empty());
        assert(holdings(pool.last()) =~= Multiset::<WorkItem>::empty());
        assert(claimed(pool) =~= Multiset::<WorkItem>::empty());
    }
}

/// The pipeline starts in a state of which the invariant holds.
pub proof fn lemma_initial_inv(config: SimulationConfig, worker_count: nat)
    requires
        1 <= worker_count <= usize::MAX,
    ensures
        SystemState::initial(config, worker_count).inv(),
{
    broadcast use vstd::multiset::group_multiset_axioms;

    let start = SystemState::initial(config, worker_count);
    lemma_fresh_pool(worker_count);
    lemma_empty_history();
    assert(start.producer.produced.to_multiset() =~= Multiset::<WorkItem>::empty());
    assert(start.mailbox.queue.to_multiset() =~= Multiset::<WorkItem>::empty());
    assert(start.producer.produced.to_multiset() =~= start.mailbox.queue.to_multiset().add(
        claimed(start.workers),
    ));
}

/// A turn of the producer keeps the invariant, and uses up one of the
/// producer's steps unless the producer has finished.
pub proof fn lemma_producer_turn(state: SystemState, drawn: Draw)
    requires
        state.inv(),
    ensures
        state.producer_turn(drawn).inv(),
        !(state.producer.stage is Closed) ==> state.producer_turn(drawn).work_left()
            < state.work_left(),
        state.producer.stage is Closed ==> state.producer_turn(drawn) == state,
{
    broadcast use vstd::multiset::group_multiset_axioms;

    let after = state.producer_turn(drawn);
    lemma_step(state.producer, drawn);
    match state.producer.step(drawn).1 {
        ProducerAction::Enqueue(item) => {
            assert(!state.mailbox.closed);
            lemma_enqueue_keeps_order(state.mailbox, item);
            lemma_slot_bounds(state.mailbox.queue, item.priority);
            to_multiset_insert(state.mailbox.queue, state.mailbox.slot(item.priority), item);
            to_multiset_build(state.producer.produced, item);
            assert(after.producer.produced.to_multiset() =~= after.mailbox.queue.to_multiset().add(
                claimed(after.workers),
            ));
        },
        ProducerAction::Close => {},
        ProducerAction::Sleep(_) => {},
        ProducerAction::Finished => {},
    }
}

/// A turn of a worker keeps the invariant and never adds to the work that
/// is left; it takes from it when the worker withdraws an item, reports
/// one, or stops.
pub proof fn lemma_worker_turn(state: SystemState, index: int)
    requires
        state.inv(),
        0 <= index < state.workers.len(),
    ensures
        state.worker_turn(index).inv(),
        state.worker_turn(index).producer == state.producer,
        state.worker_turn(index).workers.len() == state.workers.len(),
        forall|i: int|
            0 <= i < state.workers.len() && i != index ==> #[trigger] state.worker_turn(
                index,
            ).workers[i] == state.workers[i],
        state.worker_turn(index).work_left() <= state.work_left(),
        state.mailbox.closed && !(state.workers[index].stage is Stopped) ==> state.worker_turn(
            index,
        ).work_left() < state.work_left(),
{
    broadcast use vstd::multiset::group_multiset_axioms;

    let worker = state.workers[index];
    let after = state.worker_turn(index);
    lemma_replace_worker(state.workers, index, after.workers[index]);
    lemma_take_keeps_order(state.mailbox);
    match worker.stage {
        WorkerStage::Executing(item) => {
            to_multiset_build(worker.executed, item);
            assert(holdings(after.workers[index]) =~= holdings(worker));
        },
        WorkerStage::Polling => {
            match state.mailbox.outcome() {
                TakeOutcome::Item(item) => {
                    let queue = state.mailbox.queue;
                    assert(queue.skip(1) =~= queue.remove(0));
                    to_multiset_remove(queue, 0);
                    queue.to_multiset_ensures();
                    assert(queue.to_multiset().count(item) > 0) by {
                        assert(queue.contains(item));
                    }
                    assert(holdings(after.workers[index]) =~= holdings(worker).insert(item));
                },
                _ => {
                    assert(holdings(after.workers[index]) =~= holdings(worker));
                },
            }
        },
        WorkerStage::Stopped => {
            assert(after.workers =~= state.workers);
        },
    }
    assert(after.producer.produced.to_multiset() =~= after.mailbox.queue.to_multiset().add(
        claimed(after.workers),
    ));
}

/// Every turn keeps the invariant.
pub proof fn lemma_step_keeps_inv(state: SystemState, turn: Turn, drawn: Draw)
    requires
        state.inv(),
    ensures
        state.step(turn, drawn).inv(),
        state.step(turn, drawn).work_left() <= state.work_left(),
{
    match turn {
        Turn::Producer => lemma_producer_turn(state, drawn),
        Turn::Worker(index) => {
            if index < state.workers.len() {
                lemma_worker_turn(state, index as int);
            }
        },
    }
}

/// The invariant holds at every moment of every run: whatever the inputs,
/// the size of the pool, the order of the turns and the numbers drawn.
pub proof fn lemma_every_run_keeps_inv(
    config: SimulationConfig,
    worker_count: nat,
    schedule: Seq<(Turn, Draw)>,
)
    requires
        1 <= worker_count <= usize::MAX,
    ensures
        SystemState::initial(config, worker_count).after(schedule).inv(),
    decreases schedule.len(),
{
    let start = SystemState::initial(config, worker_count);
    if schedule.len() == 0 {
        lemma_initial_inv(config, worker_count);
    } else {
        lemma_every_run_keeps_inv(config, worker_count, schedule.drop_last());
        lemma_step_keeps_inv(
            start.after(schedule.drop_last()),
            schedule.last().0,
            schedule.last().1,
        );
    }
}

/// One turn of each of the first `count` workers keeps the invariant and
/// leaves the producer and the other workers as they are. It never adds to
/// the work that is left, and on a closed mailbox every worker among them
/// that had not stopped takes from it.
pub proof fn lemma_pool_turns(state: SystemState, count: nat)
    requires
        state.inv(),
        count <= state.workers.len(),
    ensures
        state.pool_turns(count).inv(),
        state.pool_turns(count).producer == state.producer,
        state.pool_turns(count).workers.len() == state.workers.len(),
        forall|i: int|
            count <= i < state.workers.len() ==> #[trigger] state.pool_turns(count).workers[i]
                == state.workers[i],
        state.pool_turns(count).work_left() <= state.work_left(),
        forall|i: int|
            0 <= i < count && state.mailbox.closed && !((#[trigger] state.workers[i]).stage
                is Stopped) ==> state.pool_turns(count).work_left() < state.work_left(),
    decreases count,
{
    if count > 0 {
        let earlier = state.pool_turns((count - 1) as nat);
        lemma_pool_turns(state, (count - 1) as nat);
        lemma_worker_turn(earlier, count - 1);
        assert(earlier.workers[count - 1] == state.workers[count - 1]);
        assert(earlier.mailbox.closed == state.mailbox.closed);
    }
}

} // verus!
