use workqueue::config::SimulationConfig;
use workqueue::producer::ProducerAction;
use workqueue::random::Draw;
use workqueue::simulation::{Simulation, DEFAULT_WORKERS};
use workqueue::system::{Progress, Turn};
use workqueue::work_item::WorkItem;
use workqueue::worker::{ExecutionEvent, WorkerAction};

fn config(phases: u32, delay: u64, batch_size: u32) -> SimulationConfig {
    SimulationConfig { phases, delay, batch_size }
}

fn drawn(priority: u32, duration: u64) -> Draw {
    Draw { priority, duration }
}

fn sum(counts: &Vec<u64>) -> u64 {
    let mut total: u64 = 0;
    for count in counts {
        total += *count;
    }
    total
}

#[test]
fn two_phases_of_three_items_are_all_executed_by_two_workers() {
    let summary = Simulation::run(config(2, 0, 3));
    assert_eq!(summary.generated, 6);
    assert_eq!(summary.executed_total, 6);
    assert_eq!(summary.executed.len(), 2);
    assert_eq!(summary.executed[0] + summary.executed[1], 6);
    assert!(summary.is_balanced());
}

#[test]
fn no_phases_close_at_once_and_both_workers_stop_on_their_first_poll() {
    let mut simulation = Simulation::new(config(0, 0, 3));
    assert_eq!(simulation.worker_count(), 2);
    assert!(!simulation.is_finished());
    assert_eq!(
        simulation.step(Turn::Producer),
        Some(Progress::Producer(ProducerAction::Close))
    );
    assert_eq!(simulation.step(Turn::Worker(0)), Some(Progress::Worker(WorkerAction::Stop)));
    assert!(!simulation.is_finished());
    assert_eq!(simulation.step(Turn::Worker(1)), Some(Progress::Worker(WorkerAction::Stop)));
    assert!(simulation.is_finished());
    let summary = simulation.summary();
    assert_eq!(summary.generated, 0);
    assert_eq!(summary.executed_total, 0);
    assert_eq!(summary.executed, vec![0, 0]);
    assert!(summary.is_balanced());
}

#[test]
fn a_run_without_phases_reports_zero() {
    let summary = Simulation::run(config(0, 100, 5));
    assert_eq!(summary.generated, 0);
    assert_eq!(summary.executed_total, 0);
    assert_eq!(summary.executed, vec![0, 0]);
}

#[test]
fn the_default_pool_has_two_workers() {
    assert_eq!(DEFAULT_WORKERS, 2);
    assert_eq!(Simulation::new(config(1, 1, 1)).worker_count(), 2);
}

#[test]
fn many_workers_and_tiny_batches_lose_nothing() {
    let summary = Simulation::run_with_workers(config(40, 1, 1), 16);
    assert_eq!(summary.generated, 40);
    assert_eq!(summary.executed_total, 40);
    assert_eq!(summary.executed.len(), 16);
    assert_eq!(sum(&summary.executed), 40);
}

#[test]
fn one_worker_executes_everything() {
    let summary = Simulation::run_with_workers(config(3, 0, 7), 1);
    assert_eq!(summary.generated, 21);
    assert_eq!(summary.executed, vec![21]);
    assert_eq!(summary.executed_total, 21);
}

#[test]
fn empty_batches_generate_nothing() {
    let summary = Simulation::run_with_workers(config(5, 3, 0), 3);
    assert_eq!(summary.generated, 0);
    assert_eq!(summary.executed, vec![0, 0, 0]);
}

#[test]
fn a_worker_that_finds_the_mailbox_empty_before_the_close_waits() {
    let mut simulation = Simulation::new(config(2, 0, 1));
    assert_eq!(simulation.step(Turn::Worker(0)), Some(Progress::Worker(WorkerAction::Wait)));
    assert_eq!(simulation.step(Turn::Worker(1)), Some(Progress::Worker(WorkerAction::Wait)));
    let first = WorkItem { id: 1, priority: 30, duration: 200 };
    assert_eq!(
        simulation.step_with(Turn::Producer, drawn(30, 200)),
        Some(Progress::Producer(ProducerAction::Enqueue(first)))
    );
    assert_eq!(simulation.queued(), 1);
    assert_eq!(
        simulation.step(Turn::Worker(1)),
        Some(Progress::Worker(WorkerAction::Execute(first)))
    );
    assert_eq!(simulation.queued(), 0);
    // Between the phases the mailbox is empty and open: nobody may stop.
    assert_eq!(
        simulation.step(Turn::Producer),
        Some(Progress::Producer(ProducerAction::Sleep(0)))
    );
    assert_eq!(simulation.step(Turn::Worker(0)), Some(Progress::Worker(WorkerAction::Wait)));
    assert_eq!(
        simulation.step(Turn::Worker(1)),
        Some(Progress::Executed(ExecutionEvent { worker: 1, item: first }))
    );
    assert_eq!(simulation.step(Turn::Worker(1)), Some(Progress::Worker(WorkerAction::Wait)));
    let second = WorkItem { id: 2, priority: 10, duration: 300 };
    assert_eq!(
        simulation.step_with(Turn::Producer, drawn(10, 300)),
        Some(Progress::Producer(ProducerAction::Enqueue(second)))
    );
    assert_eq!(
        simulation.step(Turn::Producer),
        Some(Progress::Producer(ProducerAction::Sleep(0)))
    );
    assert_eq!(
        simulation.step(Turn::Producer),
        Some(Progress::Producer(ProducerAction::Close))
    );
    assert_eq!(
        simulation.step(Turn::Producer),
        Some(Progress::Producer(ProducerAction::Finished))
    );
    // Closed, but an item is left: still nobody may stop.
    assert_eq!(
        simulation.step(Turn::Worker(0)),
        Some(Progress::Worker(WorkerAction::Execute(second)))
    );
    assert_eq!(simulation.step(Turn::Worker(1)), Some(Progress::Worker(WorkerAction::Stop)));
    assert!(!simulation.is_finished());
    assert_eq!(
        simulation.step(Turn::Worker(0)),
        Some(Progress::Executed(ExecutionEvent { worker: 0, item: second }))
    );
    assert_eq!(simulation.step(Turn::Worker(0)), Some(Progress::Worker(WorkerAction::Stop)));
    assert!(simulation.is_finished());
    let summary = simulation.summary();
    assert_eq!(summary.generated, 2);
    assert_eq!(summary.executed, vec![1, 1]);
    assert_eq!(summary.executed_total, 2);
}

#[test]
fn workers_are_served_by_priority_whoever_polls() {
    let mut simulation = Simulation::new(config(1, 0, 3));
    let _ = simulation.step_with(Turn::Producer, drawn(5, 200));
    let _ = simulation.step_with(Turn::Producer, drawn(1, 300));
    let _ = simulation.step_with(Turn::Producer, drawn(9, 400));
    assert_eq!(
        simulation.step(Turn::Worker(1)),
        Some(Progress::Worker(WorkerAction::Execute(WorkItem { id: 2, priority: 1, duration: 300 })))
    );
    assert_eq!(
        simulation.step(Turn::Worker(0)),
        Some(Progress::Worker(WorkerAction::Execute(WorkItem { id: 1, priority: 5, duration: 200 })))
    );
    assert_eq!(
        simulation.step(Turn::Worker(1)),
        Some(Progress::Executed(ExecutionEvent {
            worker: 1,
            item: WorkItem { id: 2, priority: 1, duration: 300 },
        }))
    );
    assert_eq!(
        simulation.step(Turn::Worker(1)),
        Some(Progress::Worker(WorkerAction::Execute(WorkItem { id: 3, priority: 9, duration: 400 })))
    );
}

#[test]
fn a_turn_of_a_worker_that_does_not_exist_does_nothing() {
    let mut simulation = Simulation::new(config(1, 0, 1));
    let _ = simulation.step_with(Turn::Producer, drawn(5, 200));
    assert_eq!(simulation.step(Turn::Worker(2)), None);
    assert_eq!(simulation.step_with(Turn::Worker(usize::MAX), drawn(1, 1)), None);
    assert_eq!(simulation.queued(), 1);
    assert!(!simulation.is_finished());
}

#[test]
fn the_summary_counts_a_run_in_progress() {
    let mut simulation = Simulation::with_workers(config(1, 0, 4), 3);
    let mut made: u32 = 0;
    while made < 4 {
        let _ = simulation.step(Turn::Producer);
        made += 1;
    }
    let _ = simulation.step(Turn::Worker(2));
    let _ = simulation.step(Turn::Worker(2));
    let _ = simulation.step(Turn::Worker(0));
    let summary = simulation.summary();
    assert_eq!(summary.generated, 4);
    assert_eq!(summary.executed, vec![0, 0, 1]);
    assert_eq!(summary.executed_total, 1);
    assert!(!summary.is_balanced());
    assert_eq!(simulation.queued(), 2);
}

#[test]
fn every_generated_item_is_executed_once_under_a_lopsided_schedule() {
    let mut simulation = Simulation::with_workers(config(3, 0, 5), 4);
    let mut generated: Vec<u64> = Vec::new();
    let mut executed: Vec<u64> = Vec::new();
    let mut round: usize = 0;
    while !simulation.is_finished() {
        let turns = [
            Turn::Worker(round % 4),
            Turn::Producer,
            Turn::Worker((round * 7 + 1) % 4),
            Turn::Producer,
            Turn::Worker(3),
        ];
        for turn in turns {
            match simulation.step(turn) {
                Some(Progress::Producer(ProducerAction::Enqueue(item))) => generated.push(item.id),
                Some(Progress::Executed(event)) => executed.push(event.item.id),
                Some(_) => {}
                None => panic!("all four workers exist"),
            }
        }
        round += 1;
        assert!(round < 10_000);
    }
    assert_eq!(generated, (1..=15).collect::<Vec<u64>>());
    executed.sort();
    assert_eq!(executed, generated);
    let summary = simulation.summary();
    assert_eq!(summary.generated, 15);
    assert_eq!(summary.executed_total, 15);
    assert_eq!(sum(&summary.executed), 15);
}

#[test]
fn a_larger_run_balances() {
    let summary = Simulation::run_with_workers(config(20, 5, 25), 5);
    assert_eq!(summary.generated, 500);
    assert_eq!(summary.executed_total, 500);
    assert_eq!(sum(&summary.executed), 500);
    assert!(summary.is_balanced());
}
