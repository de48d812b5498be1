use workqueue::mailbox::{MailboxError, PriorityMailbox, TakeOutcome};
use workqueue::work_item::WorkItem;

fn item(id: u64, priority: u32) -> WorkItem {
    WorkItem::new(id, priority, 200 + id)
}

fn priority_of(outcome: TakeOutcome) -> u32 {
    match outcome {
        TakeOutcome::Item(taken) => taken.priority,
        other => panic!("expected an item, found {:?}", other),
    }
}

#[test]
fn new_mailbox_is_open_and_empty() {
    let mailbox = PriorityMailbox::new();
    assert_eq!(mailbox.len(), 0);
    assert!(mailbox.is_empty());
    assert!(!mailbox.is_closed());
}

#[test]
fn priorities_five_one_nine_come_out_as_one_five_nine() {
    let mut mailbox = PriorityMailbox::new();
    assert_eq!(mailbox.enqueue(item(1, 5)), Ok(()));
    assert_eq!(mailbox.enqueue(item(2, 1)), Ok(()));
    assert_eq!(mailbox.enqueue(item(3, 9)), Ok(()));
    assert_eq!(mailbox.len(), 3);
    assert_eq!(mailbox.try_take(), TakeOutcome::Item(item(2, 1)));
    assert_eq!(mailbox.try_take(), TakeOutcome::Item(item(1, 5)));
    assert_eq!(mailbox.try_take(), TakeOutcome::Item(item(3, 9)));
    assert_eq!(mailbox.len(), 0);
}

#[test]
fn empty_open_mailbox_says_empty_but_open() {
    let mut mailbox = PriorityMailbox::new();
    assert_eq!(mailbox.try_take(), TakeOutcome::EmptyButOpen);
    assert_eq!(mailbox.try_take(), TakeOutcome::EmptyButOpen);
    assert!(!mailbox.is_closed());
}

#[test]
fn drained_open_mailbox_says_empty_but_open() {
    let mut mailbox = PriorityMailbox::new();
    assert_eq!(mailbox.enqueue(item(1, 3)), Ok(()));
    assert_eq!(mailbox.try_take(), TakeOutcome::Item(item(1, 3)));
    assert_eq!(mailbox.try_take(), TakeOutcome::EmptyButOpen);
}

#[test]
fn closed_empty_mailbox_says_done_every_time() {
    let mut mailbox = PriorityMailbox::new();
    mailbox.close();
    assert!(mailbox.is_closed());
    let mut attempt: u32 = 0;
    while attempt < 10 {
        assert_eq!(mailbox.try_take(), TakeOutcome::Done);
        attempt += 1;
    }
    assert!(mailbox.is_closed());
    assert!(mailbox.is_empty());
}

#[test]
fn closing_twice_changes_nothing() {
    let mut mailbox = PriorityMailbox::new();
    assert_eq!(mailbox.enqueue(item(1, 4)), Ok(()));
    mailbox.close();
    mailbox.close();
    assert!(mailbox.is_closed());
    assert_eq!(mailbox.len(), 1);
    assert_eq!(mailbox.try_take(), TakeOutcome::Item(item(1, 4)));
    assert_eq!(mailbox.try_take(), TakeOutcome::Done);
}

#[test]
fn items_queued_before_the_close_are_still_served() {
    let mut mailbox = PriorityMailbox::new();
    assert_eq!(mailbox.enqueue(item(1, 8)), Ok(()));
    assert_eq!(mailbox.enqueue(item(2, 2)), Ok(()));
    mailbox.close();
    assert_eq!(mailbox.try_take(), TakeOutcome::Item(item(2, 2)));
    assert_eq!(mailbox.try_take(), TakeOutcome::Item(item(1, 8)));
    assert_eq!(mailbox.try_take(), TakeOutcome::Done);
    assert_eq!(mailbox.try_take(), TakeOutcome::Done);
}

#[test]
fn enqueue_after_close_is_refused_and_changes_nothing() {
    let mut mailbox = PriorityMailbox::new();
    assert_eq!(mailbox.enqueue(item(1, 8)), Ok(()));
    mailbox.close();
    assert_eq!(mailbox.enqueue(item(2, 0)), Err(MailboxError::Closed));
    assert_eq!(mailbox.len(), 1);
    assert_eq!(mailbox.try_take(), TakeOutcome::Item(item(1, 8)));
    assert_eq!(mailbox.enqueue(item(3, 0)), Err(MailboxError::Closed));
    assert_eq!(mailbox.try_take(), TakeOutcome::Done);
}

#[test]
fn equal_priorities_are_served_in_order_of_arrival() {
    let mut mailbox = PriorityMailbox::new();
    assert_eq!(mailbox.enqueue(item(1, 7)), Ok(()));
    assert_eq!(mailbox.enqueue(item(2, 3)), Ok(()));
    assert_eq!(mailbox.enqueue(item(3, 7)), Ok(()));
    assert_eq!(mailbox.enqueue(item(4, 3)), Ok(()));
    assert_eq!(mailbox.enqueue(item(5, 7)), Ok(()));
    assert_eq!(mailbox.try_take(), TakeOutcome::Item(item(2, 3)));
    assert_eq!(mailbox.try_take(), TakeOutcome::Item(item(4, 3)));
    assert_eq!(mailbox.try_take(), TakeOutcome::Item(item(1, 7)));
    assert_eq!(mailbox.try_take(), TakeOutcome::Item(item(3, 7)));
    assert_eq!(mailbox.try_take(), TakeOutcome::Item(item(5, 7)));
}

#[test]
fn extreme_priorities_are_ordered_too() {
    let mut mailbox = PriorityMailbox::new();
    assert_eq!(mailbox.enqueue(item(1, u32::MAX)), Ok(()));
    assert_eq!(mailbox.enqueue(item(2, 0)), Ok(()));
    assert_eq!(mailbox.enqueue(item(3, u32::MAX)), Ok(()));
    assert_eq!(mailbox.enqueue(item(4, 0)), Ok(()));
    assert_eq!(mailbox.try_take(), TakeOutcome::Item(item(2, 0)));
    assert_eq!(mailbox.try_take(), TakeOutcome::Item(item(4, 0)));
    assert_eq!(mailbox.try_take(), TakeOutcome::Item(item(1, u32::MAX)));
    assert_eq!(mailbox.try_take(), TakeOutcome::Item(item(3, u32::MAX)));
}

#[test]
fn consecutive_takes_never_go_back_in_priority() {
    let mut mailbox = PriorityMailbox::new();
    let mut id: u64 = 1;
    let mut seed: u32 = 12345;
    while id <= 200 {
        seed = seed.wrapping_mul(1103515245).wrapping_add(12345);
        assert_eq!(mailbox.enqueue(item(id, (seed >> 16) % 100)), Ok(()));
        id += 1;
    }
    let mut last: u32 = priority_of(mailbox.try_take());
    let mut taken: usize = 1;
    while !mailbox.is_empty() {
        let next: u32 = priority_of(mailbox.try_take());
        assert!(last <= next);
        last = next;
        taken += 1;
    }
    assert_eq!(taken, 200);
}

#[test]
fn a_take_returns_the_most_urgent_item_present_at_that_moment() {
    let mut mailbox = PriorityMailbox::new();
    assert_eq!(mailbox.enqueue(item(1, 50)), Ok(()));
    assert_eq!(mailbox.enqueue(item(2, 60)), Ok(()));
    assert_eq!(mailbox.try_take(), TakeOutcome::Item(item(1, 50)));
    assert_eq!(mailbox.enqueue(item(3, 10)), Ok(()));
    assert_eq!(mailbox.try_take(), TakeOutcome::Item(item(3, 10)));
    assert_eq!(mailbox.try_take(), TakeOutcome::Item(item(2, 60)));
}

#[test]
fn nothing_is_lost_and_nothing_is_served_twice() {
    let mut mailbox = PriorityMailbox::new();
    let mut served: Vec<u64> = Vec::new();
    let mut id: u64 = 1;
    while id <= 60 {
        assert_eq!(mailbox.enqueue(item(id, ((id * 37) % 11) as u32)), Ok(()));
        if id % 3 == 0 {
            match mailbox.try_take() {
                TakeOutcome::Item(taken) => served.push(taken.id),
                other => panic!("expected an item, found {:?}", other),
            }
        }
        assert_eq!(mailbox.len() + served.len(), id as usize);
        id += 1;
    }
    mailbox.close();
    loop {
        match mailbox.try_take() {
            TakeOutcome::Item(taken) => served.push(taken.id),
            TakeOutcome::Done => break,
            TakeOutcome::EmptyButOpen => panic!("a closed mailbox cannot be open"),
        }
    }
    served.sort();
    let expected: Vec<u64> = (1..=60).collect();
    assert_eq!(served, expected);
}

#[test]
fn an_item_enqueued_into_an_empty_mailbox_is_the_next_one_taken() {
    let mut mailbox = PriorityMailbox::new();
    assert_eq!(mailbox.try_take(), TakeOutcome::EmptyButOpen);
    assert_eq!(mailbox.enqueue(item(1, 99)), Ok(()));
    assert_eq!(mailbox.try_take(), TakeOutcome::Item(item(1, 99)));
    assert_eq!(mailbox.try_take(), TakeOutcome::EmptyButOpen);
    assert_eq!(mailbox.enqueue(item(2, 0)), Ok(()));
    assert_eq!(mailbox.try_take(), TakeOutcome::Item(item(2, 0)));
}

#[test]
fn length_follows_enqueues_and_takes() {
    let mut mailbox = PriorityMailbox::new();
    assert_eq!(mailbox.enqueue(item(1, 1)), Ok(()));
    assert_eq!(mailbox.enqueue(item(2, 1)), Ok(()));
    assert_eq!(mailbox.len(), 2);
    assert!(!mailbox.is_empty());
    let _ = mailbox.try_take();
    assert_eq!(mailbox.len(), 1);
    let _ = mailbox.try_take();
    assert_eq!(mailbox.len(), 0);
    let _ = mailbox.try_take();
    assert_eq!(mailbox.len(), 0);
}

#[test]
fn precedes_compares_priorities_only() {
    let urgent = WorkItem::new(9, 1, 2000);
    let relaxed = WorkItem::new(1, 2, 200);
    assert!(urgent.precedes(&relaxed));
    assert!(!relaxed.precedes(&urgent));
    assert!(!urgent.precedes(&urgent));
    assert!(!WorkItem::new(1, 5, 1).precedes(&WorkItem::new(2, 5, 9)));
}

#[test]
fn new_item_keeps_its_three_fields() {
    let made = WorkItem::new(7, 42, 1999);
    assert_eq!(made.id, 7);
    assert_eq!(made.priority, 42);
    assert_eq!(made.duration, 1999);
    assert_eq!(made, WorkItem { id: 7, priority: 42, duration: 1999 });
}
