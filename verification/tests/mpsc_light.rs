use std::sync::atomic::{AtomicBool, Ordering};
use std::sync::Arc;
use std::task::{Wake, Waker};

use cynosure::site_d::mpsc_light::{
    bounded, jitter, next_seed, spins_again, SendError, TryRecvError, TrySendError, LOCK_SPIN,
    RECV_SPIN,
};

struct FlagWaker(Arc<AtomicBool>);

impl Wake for FlagWaker {
    fn wake(self: Arc<Self>) {
        self.0.store(true, Ordering::SeqCst);
    }
}

fn flag_waker() -> (Waker, Arc<AtomicBool>) {
    let flag = Arc::new(AtomicBool::new(false));
    (Arc::new(FlagWaker(flag.clone())).into(), flag)
}

fn wake(waker: Option<Waker>) {
    if let Some(waker) = waker {
        waker.wake();
    }
}

#[test]
fn basic_send_recv() {
    let (mut ch, tx, mut rx) = bounded::<u32>(4);
    tx.try_send(&mut ch, 1).0.unwrap();
    tx.try_send(&mut ch, 2).0.unwrap();
    assert_eq!(rx.try_recv(&mut ch).0, Ok(1));
    assert_eq!(rx.try_recv(&mut ch).0, Ok(2));
    assert_eq!(rx.try_recv(&mut ch).0, Err(TryRecvError::Empty));
}

#[test]
fn batch_send_recv_fifo_and_partial() {
    let (mut ch, tx, mut rx) = bounded::<u32>(4);

    // Partial fill: cap 4, offer 6 -> 4 sent, 2 left (the last two).
    let mut items = vec![1, 2, 3, 4, 5, 6];
    assert_eq!(tx.try_send_many(&mut ch, &mut items).0, 4);
    assert_eq!(items, vec![5, 6], "unsent remainder retained, in order");

    // Batch drain preserves FIFO; `max` caps the take.
    let mut out = Vec::new();
    assert_eq!(rx.recv_many(&mut ch, &mut out, 2).0, 2);
    assert_eq!(out, vec![1, 2]);
    assert_eq!(rx.recv_many(&mut ch, &mut out, 99).0, 2, "drains what's left");
    assert_eq!(out, vec![1, 2, 3, 4]);
    assert_eq!(rx.recv_many(&mut ch, &mut out, 99).0, 0, "empty now");

    // The retained remainder now fits.
    assert_eq!(tx.try_send_many(&mut ch, &mut items).0, 2);
    assert!(items.is_empty());
    out.clear();
    assert_eq!(rx.recv_many(&mut ch, &mut out, 10).0, 2);
    assert_eq!(out, vec![5, 6]);
}

#[test]
fn batch_send_after_receiver_dropped_is_noop() {
    let (mut ch, tx, rx) = bounded::<u32>(4);
    assert!(rx.close(&mut ch).is_empty());
    let mut items = vec![1, 2, 3];
    assert_eq!(tx.try_send_many(&mut ch, &mut items).0, 0);
    assert_eq!(items, vec![1, 2, 3], "items untouched when closed");
}

#[test]
fn batch_empty_input() {
    let (mut ch, tx, mut rx) = bounded::<u32>(4);
    let mut empty: Vec<u32> = Vec::new();
    assert_eq!(tx.try_send_many(&mut ch, &mut empty).0, 0);
    let mut out = Vec::new();
    assert_eq!(rx.recv_many(&mut ch, &mut out, 0).0, 0);
    assert_eq!(rx.recv_many(&mut ch, &mut out, 10).0, 0);
}

#[test]
fn full_then_drain() {
    let (mut ch, tx, mut rx) = bounded::<u32>(2);
    tx.try_send(&mut ch, 1).0.unwrap();
    tx.try_send(&mut ch, 2).0.unwrap();
    assert_eq!(tx.try_send(&mut ch, 3).0, Err(TrySendError::Full(3)));
    assert_eq!(rx.try_recv(&mut ch).0, Ok(1));
    tx.try_send(&mut ch, 3).0.unwrap();
    assert_eq!(rx.try_recv(&mut ch).0, Ok(2));
    assert_eq!(rx.try_recv(&mut ch).0, Ok(3));
}

#[test]
fn fifo_per_producer_and_close() {
    let (mut ch, tx, mut rx) = bounded::<u32>(8);
    let tx2 = tx.clone(&mut ch);
    tx.try_send(&mut ch, 10).0.unwrap();
    tx2.try_send(&mut ch, 20).0.unwrap();
    wake(tx.close(&mut ch));
    wake(tx2.close(&mut ch));
    let mut got = Vec::new();
    loop {
        match rx.try_recv(&mut ch).0 {
            Ok(v) => got.push(v),
            Err(TryRecvError::Closed) => break,
            Err(TryRecvError::Empty) => unreachable!(),
        }
    }
    got.sort();
    assert_eq!(got, vec![10, 20]);
}

#[test]
fn mpsc_receiver_parks_then_wakes() {
    let (mut ch, tx, mut rx) = bounded::<u32>(4);
    let (w, flag) = flag_waker();
    let mut recv = rx.recv();
    assert!(recv.poll(&mut rx, &mut ch, &w).0.is_pending());
    wake(tx.try_send(&mut ch, 99).1);
    assert!(flag.load(Ordering::SeqCst));
    let got = recv.poll(&mut rx, &mut ch, &w).0;
    assert_eq!(got.ready(), Some(Some(99)));
}

#[test]
fn mpsc_hot_receiver_gives_the_same() {
    let (mut ch, tx, mut rx) = bounded::<u32>(4);
    let (w, flag) = flag_waker();
    let mut recv = rx.recv_hot();
    assert!(recv.poll(&mut rx, &mut ch, &w).0.is_pending());
    wake(tx.try_send(&mut ch, 1).1);
    assert!(flag.load(Ordering::SeqCst));
    assert_eq!(recv.poll(&mut rx, &mut ch, &w).0.ready(), Some(Some(1)));
    wake(tx.close(&mut ch));
    assert_eq!(recv.poll(&mut rx, &mut ch, &w).0.ready(), Some(None));
}

#[test]
fn mpsc_last_sender_out_wakes_the_receiver() {
    let (mut ch, tx, mut rx) = bounded::<u32>(4);
    let tx2 = tx.clone(&mut ch);
    let (w, flag) = flag_waker();
    let mut recv = rx.recv();
    assert!(recv.poll(&mut rx, &mut ch, &w).0.is_pending());
    wake(tx.close(&mut ch));
    assert!(!flag.load(Ordering::SeqCst));
    assert!(!rx.is_closed(&ch));
    wake(tx2.close(&mut ch));
    assert!(flag.load(Ordering::SeqCst));
    assert!(rx.is_closed(&ch));
    assert_eq!(recv.poll(&mut rx, &mut ch, &w).0.ready(), Some(None));
}

#[test]
fn mpsc_parked_senders_are_served_in_order() {
    let (mut ch, tx, mut rx) = bounded::<u32>(1);
    tx.try_send(&mut ch, 1).0.unwrap();
    let (w2, f2) = flag_waker();
    let (w3, f3) = flag_waker();
    let mut send2 = tx.send(2);
    let mut send3 = tx.send(3);
    assert!(send2.poll(&mut ch, &w2).0.is_pending());
    assert!(send3.poll(&mut ch, &w3).0.is_pending());

    let (got, next) = rx.try_recv(&mut ch);
    assert_eq!(got, Ok(1));
    wake(next);
    assert!(f2.load(Ordering::SeqCst));
    assert!(!f3.load(Ordering::SeqCst));
    assert_eq!(send2.poll(&mut ch, &w2).0.ready(), Some(Ok(())));

    let (got, next) = rx.try_recv(&mut ch);
    assert_eq!(got, Ok(2));
    wake(next);
    assert!(f3.load(Ordering::SeqCst));
    assert_eq!(send3.poll(&mut ch, &w3).0.ready(), Some(Ok(())));
    assert_eq!(rx.try_recv(&mut ch).0, Ok(3));
}

#[test]
fn mpsc_closed_receiver_hands_values_back() {
    let (mut ch, tx, rx) = bounded::<u32>(1);
    tx.try_send(&mut ch, 1).0.unwrap();
    let (w, flag) = flag_waker();
    let mut send = tx.send(2);
    assert!(send.poll(&mut ch, &w).0.is_pending());
    assert!(!tx.is_closed(&ch));
    for waker in rx.close(&mut ch) {
        waker.wake();
    }
    assert!(flag.load(Ordering::SeqCst));
    assert!(tx.is_closed(&ch));
    assert_eq!(send.poll(&mut ch, &w).0.ready(), Some(Err(SendError(2))));
    assert_eq!(tx.try_send(&mut ch, 3).0, Err(TrySendError::Closed(3)));
}

#[test]
fn mpsc_cancelled_sender_keeps_its_value() {
    let (mut ch, tx, mut rx) = bounded::<u32>(1);
    tx.try_send(&mut ch, 1).0.unwrap();
    let (w, _) = flag_waker();
    let mut send = tx.send(2);
    assert!(send.poll(&mut ch, &w).0.is_pending());
    assert_eq!(send.cancel(&mut ch), Some(2));
    let (got, next) = rx.try_recv(&mut ch);
    assert_eq!(got, Ok(1));
    assert!(next.is_none());
    assert_eq!(rx.try_recv(&mut ch).0, Err(TryRecvError::Empty));
}

#[test]
fn mpsc_cancelled_receiver_is_not_woken() {
    let (mut ch, tx, mut rx) = bounded::<u32>(1);
    let (w, _) = flag_waker();
    let mut recv = rx.recv();
    assert!(recv.poll(&mut rx, &mut ch, &w).0.is_pending());
    recv.cancel(&mut ch);
    assert!(tx.try_send(&mut ch, 1).1.is_none());
    assert_eq!(rx.try_recv(&mut ch).0, Ok(1));
}

#[test]
fn mpsc_room_for_none_is_room_for_one() {
    let (mut ch, tx, _rx) = bounded::<u32>(0);
    tx.try_send(&mut ch, 1).0.unwrap();
    assert_eq!(tx.try_send(&mut ch, 2).0, Err(TrySendError::Full(2)));
}

#[test]
fn mpsc_fetching_makes_room_at_once() {
    // The receiver takes the whole queue over when it reads its first item.
    let (mut ch, tx, mut rx) = bounded::<u32>(2);
    let mut items = vec![1, 2];
    tx.try_send_many(&mut ch, &mut items);
    assert_eq!(rx.try_recv(&mut ch).0, Ok(1));
    let mut items = vec![3, 4, 5];
    assert_eq!(tx.try_send_many(&mut ch, &mut items).0, 2);
    let mut out = Vec::new();
    assert_eq!(rx.recv_many(&mut ch, &mut out, 2).0, 2);
    assert_eq!(out, vec![2, 3]);
}

#[test]
fn mpsc_spin_counts() {
    assert_eq!(RECV_SPIN, 192);
    assert_eq!(LOCK_SPIN, 8);
    assert_eq!(jitter(0), 0);
    // 2654435761 = 0x9E3779B1, its upper six bits 100111.
    assert_eq!(jitter(1), 0b100111);
    // Twice that, without the carry: 0x3C6EF362.
    assert_eq!(jitter(2), 0b001111);
    assert_eq!(next_seed(1), 0x6d2b79f6);
    assert_eq!(next_seed(u32::MAX), 0x6d2b79f4);
    let mut spins: u32 = 0;
    for _ in 0..8 {
        assert!(spins_again(&mut spins));
    }
    assert!(!spins_again(&mut spins));
    assert_eq!(spins, 8);
}

#[test]
fn mpsc_parking_looks_once_more() {
    let (mut ch, tx, mut rx) = bounded::<u32>(4);
    let (w, flag) = flag_waker();
    let mut recv = rx.recv();
    // An item came before the receiver parked: it is handed out, and the receiver
    // is not parked.
    tx.try_send(&mut ch, 7).0.unwrap();
    assert_eq!(recv.park(&mut rx, &mut ch, &w).0.ready(), Some(Some(7)));
    wake(tx.try_send(&mut ch, 8).1);
    assert!(!flag.load(Ordering::SeqCst));
    assert_eq!(recv.park(&mut rx, &mut ch, &w).0.ready(), Some(Some(8)));

    assert!(recv.park(&mut rx, &mut ch, &w).0.is_pending());
    wake(tx.close(&mut ch));
    assert!(flag.load(Ordering::SeqCst));
    assert_eq!(recv.park(&mut rx, &mut ch, &w).0.ready(), Some(None));
}
