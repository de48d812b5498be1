//! The coordinator: one producer, one mailbox and a pool of workers, driven
//! turn by turn, and the summary of the run.
//!
//! A driver with threads gives each turn to whichever thread holds the
//! mailbox's lock; `Simulation::run` gives the turns out in rounds.

use vstd::prelude::*;
use crate::config::{lemma_product_fits, SimulationConfig};
use crate::mailbox::PriorityMailbox;
use crate::producer::{Producer, ProducerAction};
use crate::random::{draw, Draw};
use crate::summary::{total, RunSummary};
use crate::guarantees::{lemma_conservation, lemma_round_makes_progress};
use crate::system::{
    executed_total, lemma_initial_inv, lemma_pool_turns, lemma_producer_turn, lemma_worker_turn,
    lemma_worker_within_pool, Progress, SystemState, Turn,
};
use crate::work_item::MIN_DURATION;
use crate::worker::{Worker, WorkerState};

verus! {

/// The size of the pool unless another is asked for.
pub const DEFAULT_WORKERS: usize = 2;

/// The views of the workers, in order.
pub open spec fn pool_view(workers: Seq<Worker>) -> Seq<WorkerState> {
    Seq::new(workers.len(), |i: int| workers[i]@)
}

/// Counts that agree with the workers' histories add up to the number of
/// items the pool has executed.
pub proof fn lemma_counts_add_up(counts: Seq<u64>, workers: Seq<WorkerState>)
    requires
        counts.len() == workers.len(),
        forall|i: int| 0 <= i < counts.len() ==> counts[i] == (#[trigger] workers[i]).executed.len(),
    ensures
        total(counts) == executed_total(workers),
    decreases counts.len(),
{
    if counts.len() > 0 {
        assert(counts.last() == workers[workers.len() - 1].executed.len());
        assert forall|i: int| 0 <= i < counts.drop_last().len() implies counts.drop_last()[i] == (
        #[trigger] workers.drop_last()[i]).executed.len() by {
            assert(workers.drop_last()[i] == workers[i]);
        }
        lemma_counts_add_up(counts.drop_last(), workers.drop_last());
    }
}

/// The summary gives the counts of the pipeline in this state: the items
/// generated, the items each worker has executed, and their sum.
pub open spec fn summarizes(summary: RunSummary, state: SystemState) -> bool {
    &&& summary.wf()
    &&& summary.generated == state.producer.produced.len()
    &&& summary.executed@.len() == state.workers.len()
    &&& forall|i: int|
        0 <= i < state.workers.len() ==> summary.executed@[i] == (
        #[trigger] state.workers[i]).executed.len()
}

/// The summary is that of a run by rounds with these draws, one draw for
/// each round, which ended with its last round and not before.
pub open spec fn summary_of_rounds(
    config: SimulationConfig,
    worker_count: nat,
    draws: Seq<Draw>,
    summary: RunSummary,
) -> bool {
    let start = SystemState::initial(config, worker_count);
    &&& forall|i: int| 0 <= i < draws.len() ==> (#[trigger] draws[i]).in_range()
    &&& forall|k: int| 0 <= k < draws.len() ==> !(#[trigger] start.rounds(draws.take(k))).finished()
    &&& start.rounds(draws).finished()
    &&& summarizes(summary, start.rounds(draws))
}

/// A run in progress.
pub struct Simulation {
    producer: Producer,
    mailbox: PriorityMailbox,
    workers: Vec<Worker>,
}

impl View for Simulation {
    type V = SystemState;

    closed spec fn view(&self) -> SystemState {
        SystemState {
            producer: self.producer@,
            mailbox: self.mailbox@,
            workers: pool_view(self.workers@),
        }
    }
}

impl Simulation {
    /// Every part is well formed, and the invariant of the pipeline holds.
    pub closed spec fn wf(&self) -> bool {
        &&& self.producer.wf()
        &&& self.mailbox.wf()
        &&& forall|i: int| 0 <= i < self.workers@.len() ==> (#[trigger] self.workers@[i]).wf()
        &&& self@.inv()
    }

    /// A run with the given inputs and a pool of `DEFAULT_WORKERS`, before
    /// the first turn.
    pub fn new(config: SimulationConfig) -> (simulation: Simulation)
        ensures
            simulation.wf(),
            simulation@.inv(),
            simulation@ == SystemState::initial(config, DEFAULT_WORKERS as nat),
    {
        Simulation::with_workers(config, DEFAULT_WORKERS)
    }

    /// A run with the given inputs and a pool of the given size, before the
    /// first turn.
    pub fn with_workers(config: SimulationConfig, worker_count: usize) -> (simulation: Simulation)
        requires
            worker_count >= 1,
        ensures
            simulation.wf(),
            simulation@.inv(),
            simulation@ == SystemState::initial(config, worker_count as nat),
    {
        let mut workers: Vec<Worker> = Vec::new();
        let mut index: usize = 0;
        while index < worker_count
            invariant
                index <= worker_count,
                workers@.len() == index,
                forall|i: int|
                    0 <= i < index ==> (#[trigger] workers@[i]).wf() && workers@[i]@
                        == WorkerState::initial(i as usize),
            decreases worker_count - index,
        {
            workers.push(Worker::new(index));
            index = index + 1;
        }
        let simulation = Simulation {
            producer: Producer::new(config),
            mailbox: PriorityMailbox::new(),
            workers,
        };
        proof {
            assert(simulation@.workers =~= SystemState::initial(
                config,
                worker_count as nat,
            ).workers);
            lemma_initial_inv(config, worker_count as nat);
        }
        simulation
    }

    /// The size of the pool.
    pub fn worker_count(&self) -> (count: usize)
        ensures
            count == self@.workers.len(),
    {
        self.workers.len()
    }

    /// The number of items queued in the mailbox.
    pub fn queued(&self) -> (count: usize)
        ensures
            count == self@.mailbox.queue.len(),
    {
        self.mailbox.len()
    }

    /// Whether the producer has made its announcement and every worker has
    /// stopped.
    pub fn is_finished(&self) -> (finished: bool)
        ensures
            finished == self@.finished(),
    {
        if !self.producer.is_closed() {
            return false;
        }
        let mut index: usize = 0;
        while index < self.workers.len()
            invariant
                index <= self.workers@.len(),
                forall|i: int|
                    0 <= i < index ==> (#[trigger] pool_view(self.workers@)[i]).stage is Stopped,
            decreases self.workers@.len() - index,
        {
            if !self.workers[index].is_stopped() {
                assert(!(pool_view(self.workers@)[index as int].stage is Stopped));
                return false;
            }
            index = index + 1;
        }
        true
    }

    /// One turn, with the random part of the item in case the turn
    /// generates one. The producer's action is performed on the mailbox. A
    /// worker that holds an item reports it; any other worker polls. A turn
    /// of a worker that does not exist does nothing.
    pub fn step_with(&mut self, turn: Turn, drawn: Draw) -> (progress: Option<Progress>)
        requires
            old(self).wf(),
        ensures
            final(self).wf(),
            final(self)@.inv(),
            final(self)@ == old(self)@.step(turn, drawn),
            progress == old(self)@.progress(turn, drawn),
    {
        match turn {
            Turn::Producer => {
                proof {
                    lemma_producer_turn(self@, drawn);
                }
                let action = self.producer.advance(drawn);
                match action {
                    ProducerAction::Enqueue(item) => {
                        let _ = self.mailbox.enqueue(item);
                    },
                    ProducerAction::Close => {
                        self.mailbox.close();
                    },
                    _ => {},
                }
                Some(Progress::Producer(action))
            },
            Turn::Worker(index) => {
                if index >= self.workers.len() {
                    return None;
                }
                proof {
                    lemma_worker_turn(self@, index as int);
                    lemma_worker_within_pool(self@.workers, index as int);
                    lemma_conservation(self@);
                    lemma_product_fits(self@.producer.config.phases, self@.producer.config.batch_size);
                    assert(pool_view(self.workers@)[index as int] == self.workers@[index as int]@);
                }
                let mut worker = self.workers[index];
                let progress = match worker.finish() {
                    Some(event) => Progress::Executed(event),
                    None => Progress::Worker(worker.poll(&mut self.mailbox)),
                };
                self.workers.set(index, worker);
                proof {
                    assert(self@.workers =~= old(self)@.step(turn, drawn).workers);
                }
                Some(progress)
            },
        }
    }

    /// One turn, drawing the random part of the item if the turn generates
    /// one.
    pub fn step(&mut self, turn: Turn) -> (progress: Option<Progress>)
        requires
            old(self).wf(),
        ensures
            final(self).wf(),
            final(self)@.inv(),
            exists|drawn: Draw|
                drawn.in_range() && final(self)@ == #[trigger] old(self)@.step(turn, drawn)
                    && progress == old(self)@.progress(turn, drawn),
    {
        let needed = match turn {
            Turn::Producer => self.producer.generates_next(),
            Turn::Worker(_) => false,
        };
        let drawn = if needed {
            draw()
        } else {
            Draw { priority: 0, duration: MIN_DURATION }
        };
        self.step_with(turn, drawn)
    }

    /// The counts of the run so far. Once the run has finished they
    /// balance: as many items executed as generated, and as many generated
    /// as the inputs ask for.
    pub fn summary(&self) -> (summary: RunSummary)
        requires
            self.wf(),
        ensures
            summarizes(summary, self@),
            summary.executed_total == executed_total(self@.workers),
            self@.finished() ==> summary.balanced() && summary.generated
                == self@.producer.config.total(),
    {
        let mut counts: Vec<u64> = Vec::new();
        let mut index: usize = 0;
        while index < self.workers.len()
            invariant
                self.wf(),
                index <= self.workers@.len(),
                counts@.len() == index,
                forall|i: int|
                    0 <= i < index ==> counts@[i] == (#[trigger] pool_view(
                        self.workers@,
                    )[i]).executed.len(),
            decreases self.workers@.len() - index,
        {
            counts.push(self.workers[index].executed_count());
            index = index + 1;
        }
        proof {
            lemma_counts_add_up(counts@, self@.workers);
            lemma_conservation(self@);
            lemma_product_fits(self@.producer.config.phases, self@.producer.config.batch_size);
        }
        let summary = RunSummary::collect(self.producer.generated(), counts);
        summary.unwrap()
    }

    /// Runs the pipeline to its end with a pool of `DEFAULT_WORKERS`.
    pub fn run(config: SimulationConfig) -> (summary: RunSummary)
        ensures
            summary.balanced(),
            summary.generated == config.total(),
            summary.executed@.len() == DEFAULT_WORKERS,
            exists|draws: Seq<Draw>| #[trigger]
                summary_of_rounds(config, DEFAULT_WORKERS as nat, draws, summary),
    {
        Simulation::run_with_workers(config, DEFAULT_WORKERS)
    }

    /// Runs the pipeline to its end by rounds: in each round the producer
    /// takes a turn and each worker takes a turn, in the order of their
    /// indices. The run ends with the first round after which the producer
    /// has made its announcement and every worker has stopped. The summary
    /// balances: every item that the inputs ask for has been generated, and
    /// every generated item has been executed.
    ///
    /// Such a run takes no time: the producer's pauses and the items'
    /// durations are not waited for.
    pub fn run_with_workers(config: SimulationConfig, worker_count: usize) -> (summary: RunSummary)
        requires
            worker_count >= 1,
        ensures
            summary.balanced(),
            summary.generated == config.total(),
            summary.executed@.len() == worker_count,
            exists|draws: Seq<Draw>| #[trigger]
                summary_of_rounds(config, worker_count as nat, draws, summary),
    {
        let mut simulation = Simulation::with_workers(config, worker_count);
        let ghost start = simulation@;
        let ghost mut draws: Seq<Draw> = Seq::empty();
        while !simulation.is_finished()
            invariant
                simulation.wf(),
                simulation@.inv(),
                start == SystemState::initial(config, worker_count as nat),
                simulation@ == start.rounds(draws),
                simulation@.producer.config == config,
                simulation@.workers.len() == worker_count,
                forall|i: int| 0 <= i < draws.len() ==> (#[trigger] draws[i]).in_range(),
                forall|k: int|
                    0 <= k < draws.len() ==> !(#[trigger] start.rounds(draws.take(k))).finished(),
            decreases simulation@.work_left(),
        {
            let ghost before = simulation@;
            simulation.step(Turn::Producer);
            let ghost drawn = choose|drawn: Draw|
                drawn.in_range() && simulation@ == #[trigger] before.step(Turn::Producer, drawn);
            let ghost middle = simulation@;
            let mut index: usize = 0;
            while index < worker_count
                invariant
                    simulation.wf(),
                    index <= worker_count,
                    middle.inv(),
                    middle.workers.len() == worker_count,
                    simulation@ == middle.pool_turns(index as nat),
                decreases worker_count - index,
            {
                proof {
                    lemma_pool_turns(middle, index as nat);
                }
                simulation.step(Turn::Worker(index));
                index = index + 1;
            }
            proof {
                lemma_round_makes_progress(before, drawn);
                let longer = draws.push(drawn);
                assert(longer.drop_last() =~= draws);
                assert forall|k: int| 0 <= k < longer.len() implies !(#[trigger] start.rounds(
                    longer.take(k),
                )).finished() by {
                    if k < draws.len() {
                        assert(longer.take(k) =~= draws.take(k));
                    } else {
                        assert(longer.take(k) =~= draws);
                    }
                }
                draws = longer;
            }
        }
        let summary = simulation.summary();
        proof {
            assert(summary_of_rounds(config, worker_count as nat, draws, summary));
        }
        summary
    }
}

} // verus!
