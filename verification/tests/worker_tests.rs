use workqueue::mailbox::{PriorityMailbox, TakeOutcome};
use workqueue::work_item::WorkItem;
use workqueue::worker::{ExecutionEvent, Worker, WorkerAction, WorkerStage};

fn item(id: u64, priority: u32) -> WorkItem {
    WorkItem::new(id, priority, 200 + id)
}

#[test]
fn a_new_worker_is_ready_and_has_executed_nothing() {
    let worker = Worker::new(3);
    assert_eq!(worker.id(), 3);
    assert_eq!(worker.stage(), WorkerStage::Polling);
    assert_eq!(worker.executed_count(), 0);
    assert!(!worker.is_stopped());
}

#[test]
fn each_outcome_has_its_action() {
    assert_eq!(
        WorkerAction::for_outcome(TakeOutcome::Item(item(1, 2))),
        WorkerAction::Execute(item(1, 2))
    );
    assert_eq!(WorkerAction::for_outcome(TakeOutcome::EmptyButOpen), WorkerAction::Wait);
    assert_eq!(WorkerAction::for_outcome(TakeOutcome::Done), WorkerAction::Stop);
}

#[test]
fn a_worker_takes_executes_and_reports() {
    let mut mailbox = PriorityMailbox::new();
    assert_eq!(mailbox.enqueue(item(1, 5)), Ok(()));
    assert_eq!(mailbox.enqueue(item(2, 1)), Ok(()));
    let mut worker = Worker::new(1);
    assert_eq!(worker.poll(&mut mailbox), WorkerAction::Execute(item(2, 1)));
    assert_eq!(worker.stage(), WorkerStage::Executing(item(2, 1)));
    assert_eq!(mailbox.len(), 1);
    assert_eq!(worker.executed_count(), 0);
    assert_eq!(worker.finish(), Some(ExecutionEvent { worker: 1, item: item(2, 1) }));
    assert_eq!(worker.stage(), WorkerStage::Polling);
    assert_eq!(worker.executed_count(), 1);
    assert_eq!(worker.poll(&mut mailbox), WorkerAction::Execute(item(1, 5)));
    assert_eq!(worker.finish(), Some(ExecutionEvent { worker: 1, item: item(1, 5) }));
    assert_eq!(worker.executed_count(), 2);
    assert_eq!(mailbox.len(), 0);
}

#[test]
fn the_report_carries_identity_priority_and_duration() {
    let mut mailbox = PriorityMailbox::new();
    assert_eq!(mailbox.enqueue(WorkItem::new(17, 42, 1500)), Ok(()));
    let mut worker = Worker::new(2);
    let _ = worker.poll(&mut mailbox);
    match worker.finish() {
        Some(event) => {
            assert_eq!(event.worker, 2);
            assert_eq!(event.item.id, 17);
            assert_eq!(event.item.priority, 42);
            assert_eq!(event.item.duration, 1500);
        }
        None => panic!("the worker held an item"),
    }
}

#[test]
fn an_empty_open_mailbox_makes_a_worker_wait_not_stop() {
    let mut mailbox = PriorityMailbox::new();
    let mut worker = Worker::new(0);
    assert_eq!(worker.poll(&mut mailbox), WorkerAction::Wait);
    assert_eq!(worker.poll(&mut mailbox), WorkerAction::Wait);
    assert_eq!(worker.stage(), WorkerStage::Polling);
    assert!(!worker.is_stopped());
    assert_eq!(mailbox.enqueue(item(1, 5)), Ok(()));
    assert_eq!(worker.poll(&mut mailbox), WorkerAction::Execute(item(1, 5)));
}

#[test]
fn a_closed_empty_mailbox_stops_a_worker_for_good() {
    let mut mailbox = PriorityMailbox::new();
    mailbox.close();
    let mut worker = Worker::new(0);
    assert_eq!(worker.poll(&mut mailbox), WorkerAction::Stop);
    assert!(worker.is_stopped());
    assert_eq!(worker.stage(), WorkerStage::Stopped);
    assert_eq!(worker.poll(&mut mailbox), WorkerAction::Stop);
    assert_eq!(worker.finish(), None);
    assert_eq!(worker.executed_count(), 0);
}

#[test]
fn a_closed_mailbox_with_items_does_not_stop_a_worker() {
    let mut mailbox = PriorityMailbox::new();
    assert_eq!(mailbox.enqueue(item(1, 5)), Ok(()));
    mailbox.close();
    let mut worker = Worker::new(0);
    assert_eq!(worker.poll(&mut mailbox), WorkerAction::Execute(item(1, 5)));
    assert!(!worker.is_stopped());
    assert_eq!(worker.finish(), Some(ExecutionEvent { worker: 0, item: item(1, 5) }));
    assert_eq!(worker.poll(&mut mailbox), WorkerAction::Stop);
    assert!(worker.is_stopped());
}

#[test]
fn a_worker_that_holds_an_item_takes_no_second_one() {
    let mut mailbox = PriorityMailbox::new();
    assert_eq!(mailbox.enqueue(item(1, 5)), Ok(()));
    assert_eq!(mailbox.enqueue(item(2, 6)), Ok(()));
    let mut worker = Worker::new(0);
    assert_eq!(worker.poll(&mut mailbox), WorkerAction::Execute(item(1, 5)));
    assert_eq!(worker.poll(&mut mailbox), WorkerAction::Execute(item(1, 5)));
    assert_eq!(mailbox.len(), 1);
    assert_eq!(worker.stage(), WorkerStage::Executing(item(1, 5)));
}

#[test]
fn finishing_without_an_item_does_nothing() {
    let mut worker = Worker::new(0);
    assert_eq!(worker.finish(), None);
    assert_eq!(worker.stage(), WorkerStage::Polling);
    assert_eq!(worker.executed_count(), 0);
}

#[test]
fn two_workers_share_one_mailbox_without_losing_or_doubling() {
    let mut mailbox = PriorityMailbox::new();
    let mut id: u64 = 1;
    while id <= 9 {
        assert_eq!(mailbox.enqueue(item(id, (10 - id) as u32)), Ok(()));
        id += 1;
    }
    mailbox.close();
    let mut first = Worker::new(1);
    let mut second = Worker::new(2);
    let mut seen: Vec<u64> = Vec::new();
    while !(first.is_stopped() && second.is_stopped()) {
        let _ = first.poll(&mut mailbox);
        let _ = second.poll(&mut mailbox);
        if let Some(event) = first.finish() {
            seen.push(event.item.id);
        }
        if let Some(event) = second.finish() {
            seen.push(event.item.id);
        }
    }
    assert_eq!(first.executed_count() + second.executed_count(), 9);
    assert_eq!(first.executed_count(), 5);
    assert_eq!(second.executed_count(), 4);
    assert_eq!(seen, vec![9, 8, 7, 6, 5, 4, 3, 2, 1]);
}
