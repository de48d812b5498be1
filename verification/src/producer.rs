//! The producer: batches of items over a fixed number of phases, a pause
//! after each batch, and one announcement at the end.
//!
//! The producer is a state machine. Each step yields the one action that
//! its driver has to perform next on the producer's behalf.

use vstd::prelude::*;
use crate::config::{lemma_product_fits, SimulationConfig};
use crate::random::{draw, Draw};
use crate::work_item::{WorkItem, MIN_DURATION};

verus! {

/// Where the producer stands.
#[derive(Clone, Copy, Debug, PartialEq, Eq, Structural)]
pub enum ProducerStage {
    /// Nothing has happened yet.
    Idle,
    /// In the given phase, with `made` items of its batch generated.
    Generating { phase: u32, made: u32 },
    /// Pausing after the batch of the given phase.
    Sleeping { phase: u32 },
    /// The announcement has been made; nothing follows.
    Closed,
}

/// What the driver has to do for the producer next.
#[derive(Clone, Copy, Debug, PartialEq, Eq, Structural)]
pub enum ProducerAction {
    /// Put this freshly generated item into the mailbox.
    Enqueue(WorkItem),
    /// Pause for this many time units.
    Sleep(u64),
    /// Close the mailbox.
    Close,
    /// Nothing: the producer has finished.
    Finished,
}

/// The mathematical content of a producer: its inputs, where it stands, and
/// every item it has generated so far, in order.
pub struct ProducerState {
    pub config: SimulationConfig,
    pub stage: ProducerStage,
    pub produced: Seq<WorkItem>,
}

impl ProducerState {
    /// The producer before its first step.
    pub open spec fn initial(config: SimulationConfig) -> ProducerState {
        ProducerState { config, stage: ProducerStage::Idle, produced: Seq::empty() }
    }

    /// Items are numbered 1, 2, 3, ... in the order of their generation, and
    /// the stage agrees with the number of items generated.
    pub open spec fn wf(self) -> bool {
        &&& forall|i: int| 0 <= i < self.produced.len() ==> (#[trigger] self.produced[i]).id == i + 1
        &&& match self.stage {
            ProducerStage::Idle => self.produced.len() == 0,
            ProducerStage::Generating { phase, made } => {
                &&& phase < self.config.phases
                &&& made <= self.config.batch_size
                &&& self.produced.len() == phase * self.config.batch_size + made
            },
            ProducerStage::Sleeping { phase } => {
                &&& phase < self.config.phases
                &&& self.produced.len() == (phase + 1) * self.config.batch_size
            },
            ProducerStage::Closed => self.produced.len() == self.config.total(),
        }
    }

    /// The item that is generated next, given its random part.
    pub open spec fn next_item(self, drawn: Draw) -> WorkItem {
        WorkItem {
            id: (self.produced.len() + 1) as u64,
            priority: drawn.priority,
            duration: drawn.duration,
        }
    }

    /// Continues the batch of `phase`, of which `made` items exist: one more
    /// item while the batch is short, the pause once it is complete.
    pub open spec fn generate(self, phase: u32, made: u32, drawn: Draw) -> (
        ProducerState,
        ProducerAction,
    ) {
        if made < self.config.batch_size {
            let item = self.next_item(drawn);
            (
                ProducerState {
                    config: self.config,
                    stage: ProducerStage::Generating { phase, made: (made + 1) as u32 },
                    produced: self.produced.push(item),
                },
                ProducerAction::Enqueue(item),
            )
        } else {
            (
                ProducerState {
                    config: self.config,
                    stage: ProducerStage::Sleeping { phase },
                    produced: self.produced,
                },
                ProducerAction::Sleep(self.config.delay),
            )
        }
    }

    /// Moves on to `phase`: the announcement if all phases are over, the
    /// start of that phase's batch otherwise.
    pub open spec fn enter(self, phase: int, drawn: Draw) -> (ProducerState, ProducerAction) {
        if phase >= self.config.phases {
            (
                ProducerState {
                    config: self.config,
                    stage: ProducerStage::Closed,
                    produced: self.produced,
                },
                ProducerAction::Close,
            )
        } else {
            self.generate(phase as u32, 0, drawn)
        }
    }

    /// One step: the state after it and the action it yields. `drawn` is
    /// used only where the step generates an item.
    pub open spec fn step(self, drawn: Draw) -> (ProducerState, ProducerAction) {
        match self.stage {
            ProducerStage::Idle => self.enter(0, drawn),
            ProducerStage::Generating { phase, made } => self.generate(phase, made, drawn),
            ProducerStage::Sleeping { phase } => self.enter(phase + 1, drawn),
            ProducerStage::Closed => (self, ProducerAction::Finished),
        }
    }

    /// Whether the next step generates an item.
    pub open spec fn generates_next(self) -> bool {
        self.step(Draw { priority: 0, duration: 0 }).1 is Enqueue
    }

    /// The number of steps that the producer has yet to take, up to and
    /// with its announcement.
    pub open spec fn steps_left(self) -> nat {
        let per_phase = self.config.batch_size + 1;
        (match self.stage {
            ProducerStage::Idle => self.config.phases * per_phase + 1,
            ProducerStage::Generating { phase, made } => (self.config.phases - phase) * per_phase
                - made + 1,
            ProducerStage::Sleeping { phase } => (self.config.phases - phase - 1) * per_phase + 1,
            ProducerStage::Closed => 0,
        }) as nat
    }
}

/// A step keeps the producer well formed, adds at most the one item it
/// yields, and makes the announcement only when every item of every phase
/// has been generated.
pub proof fn lemma_step(state: ProducerState, drawn: Draw)
    requires
        state.wf(),
    ensures
        state.step(drawn).0.wf(),
        state.step(drawn).0.config == state.config,
        state.step(drawn).1 matches ProducerAction::Enqueue(item) ==> state.step(drawn).0.produced
            == state.produced.push(item) && item == state.next_item(drawn),
        !(state.step(drawn).1 is Enqueue) ==> state.step(drawn).0.produced == state.produced,
        state.step(drawn).1 is Close ==> state.produced.len() == state.config.total(),
        state.step(drawn).1 is Close <==> !(state.stage is Closed) && state.step(drawn).0.stage
            is Closed,
        state.step(drawn).1 is Finished <==> state.stage is Closed,
        state.step(drawn).1 is Sleep ==> state.step(drawn).1 == ProducerAction::Sleep(
            state.config.delay,
        ),
        state.produced.len() <= state.config.total(),
        !(state.stage is Closed) ==> state.step(drawn).0.steps_left() + 1 == state.steps_left(),
{
    let phases = state.config.phases as int;
    let batch = state.config.batch_size as int;
    let after = state.step(drawn).0;
    lemma_product_fits(state.config.phases, state.config.batch_size);
    match state.stage {
        ProducerStage::Idle => {
            assert(0 * batch == 0) by (nonlinear_arith);
            assert(phases == 0 ==> phases * batch == 0) by (nonlinear_arith);
            assert((0 + 1) * batch == batch) by (nonlinear_arith);
            assert(phases >= 1 ==> phases * batch >= batch) by (nonlinear_arith)
                requires
                    batch >= 0,
            ;
            assert((phases - 0) * (batch + 1) == phases * (batch + 1)) by (nonlinear_arith);
            assert((phases - 0 - 1) * (batch + 1) == phases * (batch + 1) - batch - 1)
                by (nonlinear_arith);
            assert(phases == 0 ==> phases * (batch + 1) == 0) by (nonlinear_arith);
        },
        ProducerStage::Generating { phase, made } => {
            assert((phase + 1) * batch == phase * batch + batch) by (nonlinear_arith);
            assert((phase + 1) * batch <= phases * batch) by (nonlinear_arith)
                requires
                    phase + 1 <= phases,
                    batch >= 0,
            ;
            assert((phases - phase - 1) * (batch + 1) == (phases - phase) * (batch + 1) - batch
                - 1) by (nonlinear_arith);
        },
        ProducerStage::Sleeping { phase } => {
            assert((phase + 1) * batch <= phases * batch) by (nonlinear_arith)
                requires
                    phase + 1 <= phases,
                    batch >= 0,
            ;
            assert((phases - (phase + 1)) * (batch + 1) == (phases - phase - 1) * (batch + 1))
                by (nonlinear_arith);
            assert((phases - (phase + 1) - 1) * (batch + 1) == (phases - phase - 1) * (batch + 1)
                - batch - 1) by (nonlinear_arith);
            assert(phase + 1 == phases ==> (phases - phase - 1) * (batch + 1) == 0)
                by (nonlinear_arith);
            assert((phase + 1 + 1) * batch == (phase + 1) * batch + batch) by (nonlinear_arith);
        },
        ProducerStage::Closed => {},
    }
    if state.step(drawn).1 is Enqueue {
        let item = state.next_item(drawn);
        assert forall|i: int| 0 <= i < after.produced.len() implies (#[trigger] after.produced[i]).id
            == i + 1 by {
            if i < state.produced.len() {
                assert(after.produced[i] == state.produced[i]);
            }
        }
    }
}

/// No two generated items share an identity, and identities grow in the
/// order of generation.
pub proof fn lemma_ids_are_unique(state: ProducerState, first: int, second: int)
    requires
        state.wf(),
        0 <= first < second < state.produced.len(),
    ensures
        state.produced[first].id < state.produced[second].id,
{
    lemma_step(state, Draw { priority: 0, duration: 0 });
    lemma_product_fits(state.config.phases, state.config.batch_size);
}

/// The producer of one run.
pub struct Producer {
    config: SimulationConfig,
    stage: ProducerStage,
    /// The number of items generated so far.
    generated: u64,
    produced: Ghost<Seq<WorkItem>>,
}

impl View for Producer {
    type V = ProducerState;

    closed spec fn view(&self) -> ProducerState {
        ProducerState { config: self.config, stage: self.stage, produced: self.produced@ }
    }
}

impl Producer {
    /// The state is well formed and the counter agrees with the history.
    pub closed spec fn wf(&self) -> bool {
        &&& self@.wf()
        &&& self.generated == self.produced@.len()
    }

    /// A producer that has done nothing yet.
    pub fn new(config: SimulationConfig) -> (producer: Producer)
        ensures
            producer.wf(),
            producer@.wf(),
            producer@ == ProducerState::initial(config),
    {
        Producer { config, stage: ProducerStage::Idle, generated: 0, produced: Ghost(Seq::empty()) }
    }

    /// The inputs of the run.
    pub fn config(&self) -> (config: SimulationConfig)
        ensures
            config == self@.config,
    {
        self.config
    }

    /// Where the producer stands.
    pub fn stage(&self) -> (stage: ProducerStage)
        ensures
            stage == self@.stage,
    {
        self.stage
    }

    /// Whether the producer has made its announcement.
    pub fn is_closed(&self) -> (closed: bool)
        ensures
            closed == (self@.stage is Closed),
    {
        match self.stage {
            ProducerStage::Closed => true,
            _ => false,
        }
    }

    /// The number of items generated so far.
    pub fn generated(&self) -> (count: u64)
        requires
            self.wf(),
        ensures
            count == self@.produced.len(),
    {
        self.generated
    }

    /// Whether the next step generates an item, and so needs a draw.
    pub fn generates_next(&self) -> (needed: bool)
        requires
            self.wf(),
        ensures
            needed == self@.generates_next(),
    {
        match self.stage {
            ProducerStage::Idle => self.config.phases > 0 && self.config.batch_size > 0,
            ProducerStage::Generating { phase, made } => made < self.config.batch_size,
            ProducerStage::Sleeping { phase } => phase + 1 < self.config.phases
                && self.config.batch_size > 0,
            ProducerStage::Closed => false,
        }
    }

    /// Takes one step with the given draw and yields the action that the
    /// driver has to perform.
    pub fn advance(&mut self, drawn: Draw) -> (action: ProducerAction)
        requires
            old(self).wf(),
        ensures
            final(self).wf(),
            final(self)@.wf(),
            (final(self)@, action) == old(self)@.step(drawn),
    {
        proof {
            lemma_step(self@, drawn);
        }
        let (phase, made): (u32, u32) = match self.stage {
            ProducerStage::Idle => (0, 0),
            ProducerStage::Generating { phase, made } => (phase, made),
            ProducerStage::Sleeping { phase } => (phase + 1, 0),
            ProducerStage::Closed => {
                return ProducerAction::Finished;
            },
        };
        if phase >= self.config.phases {
            self.stage = ProducerStage::Closed;
            ProducerAction::Close
        } else if made < self.config.batch_size {
            proof {
                lemma_product_fits(self.config.phases, self.config.batch_size);
            }
            let item = WorkItem {
                id: self.generated + 1,
                priority: drawn.priority,
                duration: drawn.duration,
            };
            self.stage = ProducerStage::Generating { phase, made: made + 1 };
            self.generated = self.generated + 1;
            self.produced = Ghost(self.produced@.push(item));
            ProducerAction::Enqueue(item)
        } else {
            self.stage = ProducerStage::Sleeping { phase };
            ProducerAction::Sleep(self.config.delay)
        }
    }

    /// Takes one step, drawing the random part of the item if the step
    /// generates one.
    pub fn next_action(&mut self) -> (action: ProducerAction)
        requires
            old(self).wf(),
        ensures
            final(self).wf(),
            final(self)@.wf(),
            exists|drawn: Draw|
                drawn.in_range() && (final(self)@, action) == #[trigger] old(self)@.step(drawn),
            action matches ProducerAction::Enqueue(item) ==> (Draw {
                priority: item.priority,
                duration: item.duration,
            }).in_range(),
    {
        let drawn = if self.generates_next() {
            draw()
        } else {
            Draw { priority: 0, duration: MIN_DURATION }
        };
        self.advance(drawn)
    }
}

} // verus!
