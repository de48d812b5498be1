//! What the pipeline guarantees: conservation of items, no premature
//! termination, no lost item, and an end to every run that proceeds by
//! rounds.

use vstd::prelude::*;
use vstd::multiset::Multiset;
use vstd::seq_lib::to_multiset_len;
use crate::config::SimulationConfig;
use crate::mailbox::{lemma_slot_bounds, TakeOutcome};
use crate::producer::lemma_step;
use crate::random::Draw;
use crate::system::{
    claimed, executed_total, in_flight, lemma_all_stopped, lemma_claimed_len,
    lemma_every_run_keeps_inv, lemma_pool_turns, lemma_producer_turn, lemma_worker_turn,
    lemma_worker_within_pool, Progress, SystemState, Turn,
};
use crate::work_item::WorkItem;
use crate::worker::{WorkerAction, WorkerStage, WorkerState};

verus! {

/// The items the workers have executed, all together.
pub open spec fn executed_items(workers: Seq<WorkerState>) -> Multiset<WorkItem>
    decreases workers.len(),
{
    if workers.len() == 0 {
        Multiset::empty()
    } else {
        executed_items(workers.drop_last()).add(workers.last().executed.to_multiset())
    }
}

/// While no worker holds an item, the pool is answerable for exactly the
/// items it has executed.
pub proof fn lemma_nothing_in_flight(workers: Seq<WorkerState>)
    requires
        forall|i: int| 0 <= i < workers.len() ==> !((#[trigger] workers[i]).stage is Executing),
    ensures
        claimed(workers) == executed_items(workers),
    decreases workers.len(),
{
    if workers.len() > 0 {
        assert(workers.last() == workers[workers.len() - 1]);
        assert forall|i: int| 0 <= i < workers.drop_last().len() implies !((
        #[trigger] workers.drop_last()[i]).stage is Executing) by {
            assert(workers.drop_last()[i] == workers[i]);
        }
        lemma_nothing_in_flight(workers.drop_last());
    }
}

/// Conservation. At every moment each generated item is in exactly one
/// place: queued in the mailbox, held by a worker, or executed. Once the
/// producer has made its announcement and every worker has stopped, the
/// items executed are the items generated, each one once, and there are as
/// many of them as the inputs ask for.
pub proof fn lemma_conservation(state: SystemState)
    requires
        state.inv(),
    ensures
        state.producer.produced.to_multiset() == state.mailbox.queue.to_multiset().add(
            claimed(state.workers),
        ),
        state.producer.produced.len() == state.mailbox.queue.len() + in_flight(state.workers)
            + executed_total(state.workers),
        state.producer.produced.len() <= state.producer.config.total(),
        state.finished() ==> {
            &&& state.mailbox.queue.len() == 0
            &&& in_flight(state.workers) == 0
            &&& state.producer.produced.to_multiset() == executed_items(state.workers)
            &&& state.producer.produced.len() == executed_total(state.workers)
            &&& state.producer.produced.len() == state.producer.config.total()
        },
{
    broadcast use vstd::multiset::group_multiset_axioms;

    lemma_claimed_len(state.workers);
    to_multiset_len(state.producer.produced);
    to_multiset_len(state.mailbox.queue);
    lemma_step(state.producer, Draw { priority: 0, duration: 0 });
    if state.finished() {
        assert(state.workers[0].stage is Stopped);
        lemma_all_stopped(state.workers);
        lemma_nothing_in_flight(state.workers);
        vstd::multiset::lemma_multiset_empty_len(state.mailbox.queue.to_multiset());
        assert(state.producer.produced.to_multiset() =~= executed_items(state.workers));
    }
}

/// No premature termination. A worker that has stopped did so on a mailbox
/// that was closed and empty, and the mailbox is closed only when the
/// producer has generated and enqueued every item of every phase.
pub proof fn lemma_no_premature_stop(state: SystemState, index: int)
    requires
        state.inv(),
        0 <= index < state.workers.len(),
    ensures
        state.mailbox.closed ==> state.producer.stage is Closed && state.producer.produced.len()
            == state.producer.config.total(),
        state.workers[index].stage is Stopped ==> state.mailbox.outcome() == TakeOutcome::Done
            && state.producer.stage is Closed && state.producer.produced.len()
            == state.producer.config.total(),
        state.worker_progress(index) == Progress::Worker(WorkerAction::Stop)
            ==> state.producer.stage is Closed && state.producer.produced.len()
            == state.producer.config.total() && state.mailbox.queue.len() == 0,
{
}

/// No lost item. An item that the producer enqueues while the mailbox is
/// empty is what the next worker to poll takes charge of; no worker is
/// told to stop or to wait in its place.
pub proof fn lemma_enqueued_item_reaches_worker(state: SystemState, drawn: Draw, index: int)
    requires
        state.inv(),
        0 <= index < state.workers.len(),
        state.mailbox.queue.len() == 0,
        state.producer.step(drawn).1 is Enqueue,
        state.workers[index].stage is Polling,
    ensures
        state.producer_turn(drawn).worker_progress(index) == Progress::Worker(
            WorkerAction::Execute(state.producer.next_item(drawn)),
        ),
        state.producer_turn(drawn).worker_turn(index).workers[index].stage
            == WorkerStage::Executing(state.producer.next_item(drawn)),
{
    lemma_step(state.producer, drawn);
    lemma_slot_bounds(state.mailbox.queue, drawn.priority);
}

/// Conservation and termination, of every run: whatever the inputs, the
/// size of the pool, the order of the turns and the numbers drawn, a run
/// that has ended has executed each generated item once, and no worker has
/// stopped before the producer was through.
pub proof fn lemma_every_run(
    config: SimulationConfig,
    worker_count: nat,
    schedule: Seq<(Turn, Draw)>,
)
    requires
        1 <= worker_count <= usize::MAX,
    ensures
        ({
            let end = SystemState::initial(config, worker_count).after(schedule);
            &&& end.inv()
            &&& end.producer.config == config
            &&& end.workers.len() == worker_count
            &&& end.producer.produced.len() == end.mailbox.queue.len() + in_flight(end.workers)
                + executed_total(end.workers)
            &&& end.finished() ==> end.producer.produced.to_multiset() == executed_items(
                end.workers,
            ) && executed_total(end.workers) == config.total()
            &&& forall|i: int|
                0 <= i < end.workers.len() && (#[trigger] end.workers[i]).stage is Stopped
                    ==> end.producer.produced.len() == config.total()
        }),
    decreases schedule.len(),
{
    let start = SystemState::initial(config, worker_count);
    let end = start.after(schedule);
    lemma_every_run_keeps_inv(config, worker_count, schedule);
    lemma_conservation(end);
    if schedule.len() > 0 {
        let before = start.after(schedule.drop_last());
        lemma_every_run(config, worker_count, schedule.drop_last());
        lemma_step(before.producer, schedule.last().1);
        if let Turn::Worker(index) = schedule.last().0 {
            if index < before.workers.len() {
                lemma_worker_turn(before, index as int);
            }
        }
    }
}

/// Progress. As long as the run has not ended, a round takes from the work
/// that is left: the producer moves on, or, once it has finished, a worker
/// withdraws an item, reports one, or stops.
pub proof fn lemma_round_makes_progress(state: SystemState, drawn: Draw)
    requires
        state.inv(),
    ensures
        state.round(drawn).inv(),
        state.round(drawn).producer.config == state.producer.config,
        state.round(drawn).workers.len() == state.workers.len(),
        !state.finished() ==> state.round(drawn).work_left() < state.work_left(),
        state.finished() ==> state.round(drawn).finished(),
{
    let middle = state.producer_turn(drawn);
    lemma_producer_turn(state, drawn);
    lemma_step(state.producer, drawn);
    lemma_pool_turns(middle, state.workers.len());
    let after = state.round(drawn);
    if state.producer.stage is Closed {
        if !state.finished() {
            let busy = choose|i: int|
                0 <= i < state.workers.len() && !((#[trigger] state.workers[i]).stage is Stopped);
            assert(!(middle.workers[busy].stage is Stopped));
        } else {
            lemma_all_stopped(state.workers);
            lemma_conservation(state);
            assert(state.work_left() == 0);
            assert(after.work_left() == 0);
            lemma_nothing_left(after);
        }
    }
}

/// With no work left, the run has ended.
pub proof fn lemma_nothing_left(state: SystemState)
    requires
        state.inv(),
        state.work_left() == 0,
    ensures
        state.finished(),
{
    assert forall|i: int| 0 <= i < state.workers.len() implies (#[trigger] state.workers[i]).stage
        is Stopped by {
        lemma_worker_within_pool(state.workers, i);
    }
}

/// No deadlock. However the numbers are drawn, a pipeline that runs by
/// rounds ends after at most as many rounds as there is work left. At that
/// point each item that was enqueued has been withdrawn and executed, and
/// every worker has observed `Done`.
pub proof fn lemma_enough_rounds_finish(state: SystemState, draws: Seq<Draw>)
    requires
        state.inv(),
    ensures
        state.rounds(draws).inv(),
        state.rounds(draws).finished() || state.rounds(draws).work_left() + draws.len()
            <= state.work_left(),
        draws.len() >= state.work_left() ==> state.rounds(draws).finished(),
    decreases draws.len(),
{
    if draws.len() > 0 {
        lemma_enough_rounds_finish(state, draws.drop_last());
        lemma_round_makes_progress(state.rounds(draws.drop_last()), draws.last());
    }
    if !state.rounds(draws).finished() && draws.len() >= state.work_left() {
        lemma_nothing_left(state.rounds(draws));
    }
}

} // verus!
