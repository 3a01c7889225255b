use std::sync::atomic::{AtomicUsize, Ordering};
use std::sync::Arc;
use std::task::{Wake, Waker};

use cynosure::site_d::notify::{AtomicWaker, WaiterSlot};
use cynosure::waiters::{Registration, WaitList};

struct CountWaker(AtomicUsize);

impl Wake for CountWaker {
    fn wake(self: Arc<Self>) {
        self.0.fetch_add(1, Ordering::SeqCst);
    }
}

fn counting() -> (Waker, Arc<CountWaker>) {
    let count = Arc::new(CountWaker(AtomicUsize::new(0)));
    (count.clone().into(), count)
}

fn wakes(count: &Arc<CountWaker>) -> usize {
    count.0.load(Ordering::SeqCst)
}

#[test]
fn notify_wake_takes_the_registered_waker() {
    let (w, count) = counting();
    let mut cell = AtomicWaker::new();
    assert!(cell.wake().is_none());
    assert!(cell.register(&w).is_none());
    cell.wake().unwrap().wake();
    assert_eq!(wakes(&count), 1);
    assert!(cell.wake().is_none());
}

#[test]
fn notify_a_later_registration_replaces_an_earlier_one() {
    let (w1, c1) = counting();
    let (w2, c2) = counting();
    let mut cell = AtomicWaker::new();
    assert!(cell.register(&w1).is_none());
    assert!(cell.register(&w2).is_none());
    cell.take().unwrap().wake();
    assert_eq!(wakes(&c1), 0);
    assert_eq!(wakes(&c2), 1);
}

#[test]
fn notify_a_wake_during_a_registration_fires() {
    let (w, count) = counting();
    let mut cell = AtomicWaker::new();
    assert!(cell.begin_register());
    // Another party wakes before the registration is over.
    assert!(cell.wake().is_none());
    cell.store(&w);
    cell.finish_register().unwrap().wake();
    assert_eq!(wakes(&count), 1);
    assert!(cell.wake().is_none());
}

#[test]
fn notify_a_registration_during_a_wake_is_called_at_once() {
    let (w1, c1) = counting();
    let (w2, c2) = counting();
    let mut cell = AtomicWaker::new();
    assert!(cell.register(&w1).is_none());
    assert!(cell.begin_take());
    cell.register(&w2).unwrap().wake();
    assert_eq!(wakes(&c2), 1);
    cell.finish_take().unwrap().wake();
    assert_eq!(wakes(&c1), 1);
}

#[test]
fn notify_only_one_takes() {
    let (w, _) = counting();
    let mut cell = AtomicWaker::new();
    assert!(cell.register(&w).is_none());
    assert!(cell.begin_take());
    assert!(!cell.begin_take());
    assert!(cell.finish_take().is_some());
}

#[test]
fn notify_an_armed_slot_wakes_once() {
    let (w, count) = counting();
    let mut slot = WaiterSlot::new();
    assert!(slot.signal().is_none());
    assert!(slot.arm(&w).is_none());
    slot.signal().unwrap().wake();
    assert_eq!(wakes(&count), 1);
    assert!(slot.signal().is_none());
}

#[test]
fn notify_a_disarmed_slot_wakes_nobody() {
    let (w, _) = counting();
    let mut slot = WaiterSlot::new();
    assert!(slot.arm(&w).is_none());
    slot.disarm();
    assert!(slot.signal().is_none());
}

#[test]
fn wait_list_keeps_one_entry_per_future() {
    let (w1, _) = counting();
    let (w2, count) = counting();
    let mut list: WaitList<u8> = WaitList::new();
    let mut next_id: u64 = 0;
    let mut a: Option<Registration> = None;
    let mut b: Option<Registration> = None;
    list.register(&mut next_id, &mut a, 1, &w1);
    list.register(&mut next_id, &mut b, 2, &w1);
    assert_eq!(next_id, 2);
    assert_eq!(a.as_ref().unwrap().id, 0);
    assert_eq!(b.as_ref().unwrap().id, 1);

    // Entered again with an equivalent waker, it keeps its place.
    list.register(&mut next_id, &mut a, 1, &w1);
    assert_eq!(list.len(), 2);
    assert_eq!(list.front().unwrap().id, 0);

    // So it does with another waker, which is the one to call.
    list.register(&mut next_id, &mut a, 1, &w2);
    assert_eq!(list.len(), 2);
    assert_eq!(list.front().unwrap().id, 0);
    assert_eq!(next_id, 2);
    list.front().unwrap().waker.wake_by_ref();
    assert_eq!(wakes(&count), 1);

    list.deregister(&mut b);
    assert!(b.is_none());
    assert_eq!(list.len(), 1);
    assert_eq!(list.pop_front().unwrap().request, 1);
    assert!(list.is_empty());

    // Taken from the list, it comes in again at the back, with its token.
    list.register(&mut next_id, &mut b, 2, &w1);
    list.register(&mut next_id, &mut a, 1, &w1);
    assert_eq!(list.len(), 2);
    assert_eq!(list.pop_front().unwrap().id, 2);
    assert_eq!(list.pop_front().unwrap().id, 0);
}

#[test]
fn wait_list_tokens_wrap() {
    let (w, _) = counting();
    let mut list: WaitList<()> = WaitList::new();
    let mut next_id: u64 = u64::MAX;
    let mut a: Option<Registration> = None;
    list.register(&mut next_id, &mut a, (), &w);
    assert_eq!(next_id, 0);
    assert_eq!(list.front().unwrap().id, u64::MAX);
    list.remove(u64::MAX);
    assert!(list.is_empty());
}
