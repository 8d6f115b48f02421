use std::cmp::Ordering;
use dirgather::priority_queue::{Notify, PriorityQueue, QueueEntry, QueueHeap, Stash, WorkCount};

#[test]
fn priority_queue_smoke() {
    let mut queue: PriorityQueue<String, u64> = PriorityQueue::new();
    let mut stash = Stash::<String, u64>::new();
    queue.send("test 1".to_string(), 1, &mut stash, true);
    queue.send("test 3".to_string(), 3, &mut stash, true);
    queue.send("test 2".to_string(), 2, &mut stash, true);
    let guard = queue.recv();
    assert_eq!(guard.entry(), &QueueEntry::Entry("test 1".to_string(), 1));
    queue.release(guard);
    let guard = queue.recv();
    assert_eq!(guard.entry(), &QueueEntry::Entry("test 2".to_string(), 2));
    queue.release(guard);
    let guard = queue.recv();
    assert_eq!(guard.entry(), &QueueEntry::Entry("test 3".to_string(), 3));
    queue.release(guard);
    let guard = queue.recv();
    assert_eq!(guard.entry(), &QueueEntry::Drained);
    queue.release(guard);
    assert!(queue.try_recv().is_none());
}

#[test]
fn try_recv() {
    let mut queue: PriorityQueue<String, u64> = PriorityQueue::new();
    let mut stash = Stash::<String, u64>::new();
    queue.send("test 1".to_string(), 1, &mut stash, true);
    queue.send("test 3".to_string(), 3, &mut stash, true);
    queue.send("test 2".to_string(), 2, &mut stash, true);
    for _ in 0..4 {
        let guard = queue.try_recv();
        assert!(guard.is_some());
        queue.release(guard.unwrap());
    }
    assert!(queue.try_recv().is_none());
    assert!(queue.try_recv().is_none());
}

#[test]
fn drained_comes_once_and_again_after_new_work() {
    let mut queue: PriorityQueue<&str, u64> = PriorityQueue::new();
    let mut stash = Stash::new();
    assert_eq!(queue.send("a", 7, &mut stash, true), Notify::One);
    let guard = queue.try_recv().unwrap();
    assert_eq!(guard.entry().entry(), Some(&"a"));
    assert_eq!(guard.entry().priority(), Some(&7));
    // this was the last piece of work: Drained gets queued
    assert_eq!(queue.release(guard), Notify::One);
    let drained = queue.try_recv().unwrap();
    assert!(drained.entry().is_drained());
    // releasing the Drained guard does not queue another one
    assert_eq!(queue.release(drained), Notify::Nobody);
    assert!(queue.try_recv().is_none());
    // new work, new Drained at its end
    queue.send("b", 1, &mut stash, true);
    let guard = queue.try_recv().unwrap();
    let (entry, notify) = guard.into_entry(&mut queue);
    assert_eq!(entry.entry(), Some(&"b"));
    assert_eq!(notify, Notify::One);
    assert!(queue.try_recv().unwrap().entry().is_drained());
}

#[test]
fn drained_waits_for_outstanding_guards() {
    let mut queue: PriorityQueue<u32, u64> = PriorityQueue::new();
    let mut stash = Stash::new();
    queue.send(1, 1, &mut stash, true);
    queue.send(2, 2, &mut stash, true);
    let first = queue.try_recv().unwrap();
    let second = queue.try_recv().unwrap();
    assert_eq!(queue.release(first), Notify::Nobody);
    assert!(queue.try_recv().is_none());
    assert_eq!(queue.release(second), Notify::One);
    assert!(queue.try_recv().unwrap().entry().is_drained());
}

#[test]
fn drained_leaves_before_entries() {
    let mut queue: PriorityQueue<u32, u64> = PriorityQueue::new();
    let mut stash = Stash::new();
    queue.send(1, 5, &mut stash, true);
    let guard = queue.try_recv().unwrap();
    queue.release(guard);
    // Drained is queued now; a new entry with the smallest priority still comes after it
    queue.send(2, 0, &mut stash, true);
    assert!(queue.try_recv().unwrap().entry().is_drained());
    assert_eq!(queue.try_recv().unwrap().entry(), &QueueEntry::Entry(2, 0));
}

#[test]
fn equal_priorities_in_any_order() {
    let mut queue: PriorityQueue<u32, u64> = PriorityQueue::new();
    let mut stash = Stash::new();
    queue.send(10, 3, &mut stash, true);
    queue.send(11, 3, &mut stash, true);
    queue.send(12, 2, &mut stash, true);
    assert_eq!(queue.try_recv().unwrap().entry().entry(), Some(&12));
    let a = *queue.try_recv().unwrap().entry().entry().unwrap();
    let b = *queue.try_recv().unwrap().entry().entry().unwrap();
    assert!((a, b) == (10, 11) || (a, b) == (11, 10));
}

#[test]
fn sync_of_empty_stash_notifies_nobody() {
    let mut queue: PriorityQueue<u32, u64> = PriorityQueue::new();
    let mut stash = Stash::new();
    assert_eq!(queue.sync(&mut stash), Notify::Nobody);
    assert!(queue.try_recv().is_none());
}

#[test]
fn queue_entry_accessors_and_equality() {
    let e: QueueEntry<&str, u64> = QueueEntry::Entry("x", 4);
    assert_eq!(e.entry(), Some(&"x"));
    assert_eq!(e.priority(), Some(&4));
    assert!(!e.is_drained());
    let d: QueueEntry<&str, u64> = QueueEntry::Drained;
    assert_eq!(d.entry(), None);
    assert_eq!(d.priority(), None);
    assert!(d.is_drained());
    // entries compare by priority only
    assert_eq!(QueueEntry::Entry("x", 4), QueueEntry::Entry("y", 4));
    assert_ne!(QueueEntry::Entry("x", 4), QueueEntry::Entry("x", 5));
    assert_ne!(QueueEntry::<&str, u64>::Drained, QueueEntry::Taken);
    let t: QueueEntry<&str, u64> = QueueEntry::default();
    assert_eq!(t, QueueEntry::Taken);
}

#[test]
fn queue_entry_cmp() {
    let a: QueueEntry<(), u64> = QueueEntry::Entry((), 1);
    let b: QueueEntry<(), u64> = QueueEntry::Entry((), 2);
    let d: QueueEntry<(), u64> = QueueEntry::Drained;
    assert_eq!(a.cmp(&b), Ordering::Greater);
    assert_eq!(b.cmp(&a), Ordering::Less);
    assert_eq!(a.cmp(&a), Ordering::Equal);
    assert_eq!(d.cmp(&a), Ordering::Greater);
    assert_eq!(a.cmp(&d), Ordering::Less);
    assert_eq!(d.cmp(&d), Ordering::Equal);
}

#[test]
fn send_while_locked_elsewhere_stashes() {
    let mut queue: PriorityQueue<u32, u64> = PriorityQueue::new();
    let mut stash = Stash::new();
    // the lock was not obtained: the entries wait in the stash, nobody is woken
    assert_eq!(queue.send(1, 2, &mut stash, false), Notify::Nobody);
    assert_eq!(queue.send(2, 1, &mut stash, false), Notify::Nobody);
    assert!(queue.try_recv().is_none());
    // the next send that gets the lock moves the stash first and wakes everybody
    assert_eq!(queue.send(3, 3, &mut stash, true), Notify::All);
    let guard = queue.try_recv().unwrap();
    assert_eq!(guard.entry(), &QueueEntry::Entry(2, 1));
    queue.release(guard);
    let guard = queue.try_recv().unwrap();
    assert_eq!(guard.entry(), &QueueEntry::Entry(1, 2));
    queue.release(guard);
    let guard = queue.try_recv().unwrap();
    assert_eq!(guard.entry(), &QueueEntry::Entry(3, 3));
    // stashed entries counted as work: Drained only after the last one
    assert_eq!(queue.release(guard), Notify::One);
    assert!(queue.try_recv().unwrap().entry().is_drained());
}

#[test]
fn stashed_entries_arrive_on_sync() {
    let mut queue: PriorityQueue<u32, u64> = PriorityQueue::new();
    let mut stash = Stash::new();
    queue.send(9, 9, &mut stash, false);
    assert_eq!(queue.sync(&mut stash), Notify::One);
    assert_eq!(queue.try_recv().unwrap().entry(), &QueueEntry::Entry(9, 9));
}

#[test]
fn work_count_claims_drained_once() {
    let mut work = WorkCount::new();
    assert!(!work.claim_drained());
    work.begin();
    assert!(work.release());
    assert!(!work.claim_drained());
    assert!(!work.release());
    // new work, a new Drained at its end
    work.begin();
    assert!(work.release());
}

#[test]
fn queue_heap_parts() {
    let mut heap: QueueHeap<&str, u64> = QueueHeap::new();
    let mut stash = Stash::new();
    stash.push(QueueEntry::Entry("later", 5));
    assert_eq!(heap.send_msg(QueueEntry::Entry("now", 1), &mut stash), Notify::All);
    assert_eq!(heap.push_drained(), Notify::One);
    let mut work = WorkCount::new();
    let first = heap.try_recv().unwrap();
    assert!(first.entry().is_drained());
    let (entry, queue_drained) = first.finish(&mut work);
    assert!(entry.is_drained());
    assert!(!queue_drained);
    assert_eq!(heap.try_recv().unwrap().entry().entry(), Some(&"now"));
    assert_eq!(heap.try_recv().unwrap().entry().entry(), Some(&"later"));
    assert!(heap.try_recv().is_none());
}
