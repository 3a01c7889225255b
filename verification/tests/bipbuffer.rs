use std::sync::atomic::{AtomicBool, Ordering};
use std::sync::{Arc, Mutex};
use std::task::{Wake, Waker};

use cynosure::site_d::bipbuffer::{
    bip_buffer, bip_buffer_aligned, plan_reserve, BipBuffer, Consumer, Producer, WriteGrant,
};

struct FlagWaker(Arc<AtomicBool>);

impl Wake for FlagWaker {
    fn wake(self: Arc<Self>) {
        self.0.store(true, Ordering::SeqCst);
    }
}

fn flag_waker() -> (Waker, Arc<AtomicBool>) {
    let flag = Arc::new(AtomicBool::new(false));
    (Arc::new(FlagWaker(flag.clone())).into(), flag)
}

fn wake(waker: Option<Waker>) {
    if let Some(waker) = waker {
        waker.wake();
    }
}

fn drain(bip: &mut BipBuffer, c: &mut Consumer) -> Vec<u8> {
    match c.try_read(bip).0 {
        Some(g) => {
            let v = g.as_slice(bip).to_vec();
            let n = v.len();
            wake(g.release(bip, n));
            v
        }
        None => vec![],
    }
}

#[test]
fn basic_reserve_commit_read_release() {
    let (mut b, mut p, mut c) = bip_buffer(16);
    let mut g = p.try_reserve(&mut b, 4).unwrap();
    g.as_mut_slice(&mut b).copy_from_slice(&[1, 2, 3, 4]);
    wake(g.commit(&mut b, 4));
    assert_eq!(drain(&mut b, &mut c), vec![1, 2, 3, 4]);
    assert_eq!(drain(&mut b, &mut c), Vec::<u8>::new()); // empty now
}

#[test]
fn contiguous_wrap_uses_watermark() {
    // cap 8: fill 6, read 6, then a 4-byte reserve must wrap to the head and
    // stay contiguous (only 2 bytes free in the tail).
    let (mut b, mut p, mut c) = bip_buffer(8);
    let mut g = p.try_reserve(&mut b, 6).unwrap();
    g.as_mut_slice(&mut b).copy_from_slice(&[10, 11, 12, 13, 14, 15]);
    wake(g.commit(&mut b, 6));
    assert_eq!(drain(&mut b, &mut c), vec![10, 11, 12, 13, 14, 15]);

    // The tail has only 2 bytes (write=6, cap=8); a 4-byte reserve wraps to 0.
    let mut g = p.try_reserve(&mut b, 4).unwrap();
    assert_eq!(g.as_mut_slice(&mut b).len(), 4, "wrapped grant is contiguous");
    g.as_mut_slice(&mut b).copy_from_slice(&[20, 21, 22, 23]);
    wake(g.commit(&mut b, 4));
    assert_eq!(drain(&mut b, &mut c), vec![20, 21, 22, 23]);
}

#[test]
fn reserve_fails_when_full() {
    let (mut b, mut p, _c) = bip_buffer(4);
    // The tail can fill all the way to the capacity; after that the buffer is
    // full.
    let g = p.try_reserve(&mut b, 4).unwrap();
    wake(g.commit(&mut b, 4));
    assert!(p.try_reserve(&mut b, 1).is_none(), "buffer is full");
}

#[test]
fn uncommitted_grant_is_rolled_back() {
    let (mut b, mut p, mut c) = bip_buffer(8);
    {
        let mut g = p.try_reserve(&mut b, 4).unwrap();
        g.as_mut_slice(&mut b)[0] = 9;
        g.abandon(&mut b);
    }
    assert_eq!(drain(&mut b, &mut c), Vec::<u8>::new(), "nothing published");
    // and we can reserve again (the reservation was abandoned)
    let g = p.try_reserve(&mut b, 8).unwrap();
    assert_eq!(g.len(), 8);
}

#[test]
fn single_outstanding_write_grant() {
    let (mut b, mut p, _c) = bip_buffer(16);
    let _g = p.try_reserve(&mut b, 2).unwrap();
    assert!(
        p.try_reserve(&mut b, 2).is_none(),
        "only one write grant at a time"
    );
}

/// A waker that takes a fresh write grant when it is called.
struct Reenter {
    bip: Arc<Mutex<BipBuffer>>,
    producer: Mutex<Option<Producer>>,
    grant: Mutex<Option<WriteGrant>>,
}

impl Wake for Reenter {
    fn wake(self: Arc<Self>) {
        self.wake_by_ref();
    }

    fn wake_by_ref(self: &Arc<Self>) {
        let mut bip = self.bip.lock().unwrap();
        if let Some(p) = self.producer.lock().unwrap().as_mut() {
            *self.grant.lock().unwrap() = p.try_reserve(&mut bip, 8);
        }
    }
}

/// A grant that is taken while the commit of an earlier one wakes the
/// consumer stays the only one.
#[test]
fn commit_drop_cannot_release_a_later_grant() {
    let (b, mut p, c) = bip_buffer(64);
    let bip = Arc::new(Mutex::new(b));
    let first = p.try_reserve(&mut bip.lock().unwrap(), 8).expect("first grant");

    let re = Arc::new(Reenter {
        bip: bip.clone(),
        producer: Mutex::new(Some(p)),
        grant: Mutex::new(None),
    });
    // The consumer waits, so that the commit wakes it.
    let waker: Waker = re.clone().into();
    let mut read_fut = c.read();
    assert!(read_fut.poll(&mut bip.lock().unwrap(), &waker).0.is_pending());

    let to_wake = first.commit(&mut bip.lock().unwrap(), 8);
    wake(to_wake);

    let second = re
        .grant
        .lock()
        .unwrap()
        .take()
        .expect("grant taken in wake");
    // The second grant is still alive, so the buffer must refuse a third.
    let mut prod = re.producer.lock().unwrap();
    let p = prod.as_mut().unwrap();
    assert!(
        p.try_reserve(&mut bip.lock().unwrap(), 8).is_none(),
        "a live write grant must block another"
    );
    second.abandon(&mut bip.lock().unwrap());
    assert!(
        p.try_reserve(&mut bip.lock().unwrap(), 8).is_some(),
        "flag released once the second is gone"
    );
}

#[test]
fn oversized_reserve_rejected_no_overflow() {
    // A reserve near `usize::MAX` must not wrap past the capacity checks.
    let (mut b, mut p, _c) = bip_buffer(16);
    let g = p.try_reserve(&mut b, 1).unwrap();
    wake(g.commit(&mut b, 1)); // write = 1
    assert!(
        p.try_reserve(&mut b, usize::MAX).is_none(),
        "wrapping reserve must be rejected"
    );
    assert!(p.try_reserve(&mut b, 17).is_none(), "n > cap must be rejected");
    assert!(p.try_reserve(&mut b, usize::MAX - 1).is_none());
    // A legitimate reserve still works.
    assert!(p.try_reserve(&mut b, 4).is_some());
}

#[test]
fn partial_commit_and_release() {
    let (mut b, mut p, mut c) = bip_buffer(16);
    let mut g = p.try_reserve(&mut b, 8).unwrap();
    g.as_mut_slice(&mut b)[..3].copy_from_slice(&[1, 2, 3]);
    wake(g.commit(&mut b, 3)); // only 3 of 8

    let rg = c.try_read(&mut b).0.unwrap();
    assert_eq!(rg.as_slice(&b), &[1, 2, 3]);
    wake(rg.release(&mut b, 2)); // consume only 2
    let rg = c.try_read(&mut b).0.unwrap();
    assert_eq!(rg.as_slice(&b), &[3], "the un-released byte remains");
    wake(rg.release(&mut b, 1));
    assert!(c.try_read(&mut b).0.is_none());
}

#[test]
fn bip_plan_of_a_reservation() {
    // Room in the tail.
    assert_eq!(plan_reserve(8, 0, 0, 8), Some(0));
    assert_eq!(plan_reserve(8, 2, 6, 2), Some(6));
    // None in the tail, but before the reader.
    assert_eq!(plan_reserve(8, 5, 6, 4), Some(0));
    // One byte stays free before the reader.
    assert_eq!(plan_reserve(8, 4, 6, 4), None);
    // The writer has wrapped already.
    assert_eq!(plan_reserve(8, 6, 2, 3), Some(2));
    assert_eq!(plan_reserve(8, 6, 2, 4), None);
    assert_eq!(plan_reserve(8, 0, 0, 9), None);
}

#[test]
fn bip_reading_stops_at_the_watermark_and_goes_on_at_the_head() {
    let (mut b, mut p, mut c) = bip_buffer(8);
    let mut g = p.try_reserve(&mut b, 6).unwrap();
    g.as_mut_slice(&mut b).copy_from_slice(&[1, 2, 3, 4, 5, 6]);
    wake(g.commit(&mut b, 6));
    let rg = c.try_read(&mut b).0.unwrap();
    wake(rg.release(&mut b, 5));
    // Wraps: the byte at 5 is unread, the tail is too short.
    let mut g = p.try_reserve(&mut b, 3).unwrap();
    g.as_mut_slice(&mut b).copy_from_slice(&[7, 8, 9]);
    wake(g.commit(&mut b, 3));
    assert_eq!(drain(&mut b, &mut c), vec![6]);
    assert_eq!(drain(&mut b, &mut c), vec![7, 8, 9]);
    assert_eq!(drain(&mut b, &mut c), Vec::<u8>::new());
}

#[test]
fn bip_producer_waits_for_room() {
    let (mut b, mut p, mut c) = bip_buffer(4);
    let g = p.try_reserve(&mut b, 4).unwrap();
    wake(g.commit(&mut b, 4));
    let (w, flag) = flag_waker();
    let mut fut = p.reserve(2);
    assert!(fut.poll(&mut b, &w).is_pending());
    let rg = c.try_read(&mut b).0.unwrap();
    assert_eq!(rg.len(), 4);
    wake(rg.release(&mut b, 4));
    assert!(flag.load(Ordering::SeqCst));
    let g = fut.poll(&mut b, &w).ready().unwrap();
    assert_eq!(g.len(), 2);
}

#[test]
fn bip_consumer_waits_for_bytes() {
    let (mut b, mut p, c) = bip_buffer(4);
    let (w, flag) = flag_waker();
    let mut fut = c.read();
    assert!(fut.poll(&mut b, &w).0.is_pending());
    let mut g = p.try_reserve(&mut b, 1).unwrap();
    g.as_mut_slice(&mut b)[0] = 42;
    wake(g.commit(&mut b, 1));
    assert!(flag.load(Ordering::SeqCst));
    let rg = fut.poll(&mut b, &w).0.ready().unwrap();
    assert_eq!(rg.as_slice(&b), &[42]);
    assert!(!rg.is_empty());
}

#[test]
fn bip_single_outstanding_read_grant() {
    let (mut b, mut p, mut c) = bip_buffer(4);
    let g = p.try_reserve(&mut b, 2).unwrap();
    assert!(!g.is_empty());
    wake(g.commit(&mut b, 2));
    let rg = c.try_read(&mut b).0.unwrap();
    assert!(c.try_read(&mut b).0.is_none());
    rg.put_back(&mut b);
    assert_eq!(c.try_read(&mut b).0.unwrap().len(), 2);
}

#[test]
fn bip_capacity_is_seen_from_both_ends() {
    let (b, p, c) = bip_buffer_aligned(32, 64);
    assert_eq!(b.capacity(), 32);
    assert_eq!(p.capacity(&b), 32);
    assert_eq!(c.capacity(&b), 32);
}

#[test]
fn bip_bytes_lie_at_a_multiple_of_the_alignment() {
    for align in [1, 64, 4096] {
        let (mut b, mut p, mut c) = bip_buffer_aligned(16, align);
        let mut g = p.try_reserve(&mut b, 10).unwrap();
        assert_eq!(g.offset(), 0);
        assert_eq!(g.as_mut_slice(&mut b).as_ptr() as usize % align, 0);
        wake(g.commit(&mut b, 10));
        let (r, _) = c.try_read(&mut b);
        let r = r.unwrap();
        assert_eq!(r.offset(), 0);
        assert_eq!(r.as_slice(&b).as_ptr() as usize % align, 0);
        wake(r.release(&mut b, 4));
        let (r, _) = c.try_read(&mut b);
        assert_eq!(r.unwrap().offset(), 4);
    }
}
