use std::rc::Rc;
use std::sync::atomic::{AtomicBool, Ordering};
use std::sync::Arc;
use std::task::{Wake, Waker};

use cynosure::poll::Poll;
use cynosure::site_d::oneshot::{oneshot, Oneshot, Receiver, RecvError};

struct FlagWaker(Arc<AtomicBool>);

impl Wake for FlagWaker {
    fn wake(self: Arc<Self>) {
        self.0.store(true, Ordering::SeqCst);
    }
}

fn flag_waker() -> (Waker, Arc<AtomicBool>) {
    let flag = Arc::new(AtomicBool::new(false));
    (Arc::new(FlagWaker(flag.clone())).into(), flag)
}

/// Polls for a result that is there.
fn block_on<T>(channel: &mut Oneshot<T>, mut rx: Receiver) -> Result<T, RecvError> {
    let (waker, _) = flag_waker();
    match rx.poll(channel, &waker) {
        Poll::Ready(r) => r,
        Poll::Pending => panic!("nothing left that could wake the receiver"),
    }
}

#[test]
fn send_then_recv() {
    let (mut ch, tx, rx) = oneshot::<u32>();
    tx.send(&mut ch, 7).0.unwrap();
    assert_eq!(block_on(&mut ch, rx), Ok(7));
}

#[test]
fn sender_dropped_is_err() {
    let (mut ch, tx, rx) = oneshot::<u32>();
    assert!(tx.close(&mut ch).is_none());
    assert_eq!(block_on(&mut ch, rx), Err(RecvError));
}

#[test]
fn receiver_dropped_send_fails() {
    let (mut ch, tx, rx) = oneshot::<u32>();
    rx.close(&mut ch);
    assert_eq!(tx.send(&mut ch, 9).0, Err(9));
}

#[test]
fn try_recv_states() {
    let (mut ch, tx, mut rx) = oneshot::<u32>();
    assert_eq!(rx.try_recv(&mut ch), Ok(None));
    tx.send(&mut ch, 3).0.unwrap();
    assert_eq!(rx.try_recv(&mut ch), Ok(Some(3)));
}

#[test]
fn pending_then_ready_via_poll() {
    let (mut ch, tx, mut rx) = oneshot::<u32>();
    let (waker, flag) = flag_waker();
    assert!(rx.poll(&mut ch, &waker).is_pending());
    let (sent, to_wake) = tx.send(&mut ch, 5);
    sent.unwrap();
    to_wake.unwrap().wake();
    assert!(flag.load(Ordering::SeqCst));
    assert_eq!(rx.poll(&mut ch, &waker).ready(), Some(Ok(5)));
}

#[test]
fn value_dropped_if_receiver_vanishes() {
    let (mut ch, tx, rx) = oneshot::<Rc<()>>();
    let marker = Rc::new(());
    tx.send(&mut ch, marker.clone()).0.unwrap();
    assert_eq!(Rc::strong_count(&marker), 2);
    rx.close(&mut ch);
    drop(ch); // set but not taken: the value goes with the channel
    assert_eq!(Rc::strong_count(&marker), 1);
}

#[test]
fn oneshot_sender_sees_the_receiver_go() {
    let (mut ch, tx, rx) = oneshot::<u32>();
    assert!(!tx.is_closed(&ch));
    rx.close(&mut ch);
    assert!(tx.is_closed(&ch));
}

#[test]
fn oneshot_value_is_received_once() {
    let (mut ch, tx, mut rx) = oneshot::<u32>();
    tx.send(&mut ch, 1).0.unwrap();
    assert_eq!(rx.try_recv(&mut ch), Ok(Some(1)));
    assert_eq!(rx.try_recv(&mut ch), Ok(None));
    let (waker, _) = flag_waker();
    assert_eq!(rx.poll(&mut ch, &waker).ready(), Some(Err(RecvError)));
}

#[test]
fn oneshot_dropped_sender_wakes_the_receiver() {
    let (mut ch, tx, mut rx) = oneshot::<u32>();
    let (waker, flag) = flag_waker();
    assert!(rx.poll(&mut ch, &waker).is_pending());
    tx.close(&mut ch).unwrap().wake();
    assert!(flag.load(Ordering::SeqCst));
    assert_eq!(rx.try_recv(&mut ch), Err(RecvError));
}

#[test]
fn oneshot_publish_over_a_receiver_that_left_keeps_the_value() {
    // The sender read the state before the receiver left: its value stays in
    // the channel and goes with it, once.
    let (mut ch, _tx, rx) = oneshot::<Rc<()>>();
    let marker = Rc::new(());
    let seen = ch.load();
    rx.close(&mut ch);
    ch.publish(seen, marker.clone());
    assert_eq!(Rc::strong_count(&marker), 2);
    drop(ch);
    assert_eq!(Rc::strong_count(&marker), 1);
}
