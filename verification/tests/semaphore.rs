use std::sync::atomic::{AtomicBool, Ordering};
use std::sync::Arc;
use std::task::{Wake, Waker};

use cynosure::poll::Poll;
use cynosure::site_c::semaphore::LocalSemaphore;

struct FlagWaker(Arc<AtomicBool>);

impl Wake for FlagWaker {
    fn wake(self: Arc<Self>) {
        self.0.store(true, Ordering::SeqCst);
    }

    fn wake_by_ref(self: &Arc<Self>) {
        self.0.store(true, Ordering::SeqCst);
    }
}

fn flag_waker() -> (Waker, Arc<AtomicBool>) {
    let flag = Arc::new(AtomicBool::new(false));
    (Arc::new(FlagWaker(flag.clone())).into(), flag)
}

fn wake(waker: Option<Waker>) {
    if let Some(waker) = waker {
        waker.wake();
    }
}

#[test]
fn try_acquire_counts() {
    let mut s = LocalSemaphore::new(2);
    let a = s.try_acquire().unwrap();
    let b = s.try_acquire().unwrap();
    assert!(s.try_acquire().is_none());
    wake(s.release(a));
    assert_eq!(s.available(), 1);
    let _c = s.try_acquire().unwrap();
    wake(s.release(b));
    assert_eq!(s.available(), 1);
}

#[test]
fn acquire_many_and_release() {
    let mut s = LocalSemaphore::new(3);
    let p = s.try_acquire_many(3).unwrap();
    assert_eq!(s.available(), 0);
    assert!(s.try_acquire().is_none());
    wake(s.release(p));
    assert_eq!(s.available(), 3);
}

#[test]
fn acquire_waits_then_wakes_front() {
    let mut s = LocalSemaphore::new(0);
    let (w, flag) = flag_waker();
    let mut f = s.acquire();
    assert!(f.poll(&mut s, &w).0.is_pending());
    wake(s.add_permits(1)); // wakes front
    assert!(flag.load(Ordering::SeqCst));
    match f.poll(&mut s, &w).0 {
        Poll::Ready(p) => assert_eq!(p.count(), 1),
        Poll::Pending => panic!("should acquire after add_permits"),
    }
}

/// First come, first served: a large request at the front is not passed by a
/// smaller one behind it, though the small one could be satisfied.
#[test]
fn fifo_large_request_not_skipped() {
    let mut s = LocalSemaphore::new(0);
    let (w1, f1) = flag_waker();
    let (w2, f2) = flag_waker();
    let mut big = s.acquire_many(2); // front, needs 2
    let mut small = s.acquire_many(1); // behind, needs 1
    assert!(big.poll(&mut s, &w1).0.is_pending());
    assert!(small.poll(&mut s, &w2).0.is_pending());

    wake(s.add_permits(1)); // enough for `small` but not for the front `big`
    assert!(!f1.load(Ordering::SeqCst), "front not yet satisfiable");
    assert!(!f2.load(Ordering::SeqCst), "FIFO: small must not jump the front");

    wake(s.add_permits(1)); // now front `big` is satisfiable
    assert!(f1.load(Ordering::SeqCst), "front woken once satisfiable");
}

/// Cancelling a queued acquirer passes the turn on.
#[test]
fn cancellation_recovers() {
    let mut s = LocalSemaphore::new(0);
    let (w1, _f1) = flag_waker();
    {
        let mut f1 = s.acquire();
        assert!(f1.poll(&mut s, &w1).0.is_pending());
        wake(f1.cancel(&mut s));
    }
    let (w2, f2) = flag_waker();
    let mut f2fut = s.acquire();
    assert!(f2fut.poll(&mut s, &w2).0.is_pending());
    wake(s.add_permits(1));
    assert!(
        f2.load(Ordering::SeqCst),
        "live waiter woken despite cancelled one"
    );
}

/// Added permits reach, one after the other, every waiter that they satisfy.
#[test]
fn cascade_wake() {
    let mut s = LocalSemaphore::new(0);
    let (w1, f1) = flag_waker();
    let (w2, f2) = flag_waker();
    let mut a = s.acquire();
    let mut b = s.acquire();
    assert!(a.poll(&mut s, &w1).0.is_pending());
    assert!(b.poll(&mut s, &w2).0.is_pending());
    wake(s.add_permits(2));
    // The front acquires and wakes the next.
    let (pa, next) = a.poll(&mut s, &w1);
    let _pa = match pa {
        Poll::Ready(p) => p,
        Poll::Pending => panic!("a should acquire"),
    };
    wake(next);
    assert!(f1.load(Ordering::SeqCst));
    assert!(f2.load(Ordering::SeqCst), "second waiter cascaded");
}

#[test]
fn semaphore_only_the_opportunistic_passes_the_queue() {
    // A permit is free, but the front of the queue asks for two.
    let mut s = LocalSemaphore::new(1);
    let (w1, _) = flag_waker();
    let (w2, _) = flag_waker();
    let mut big = s.acquire_many(2);
    let mut small = s.acquire();
    assert!(big.poll(&mut s, &w1).0.is_pending());
    assert!(small.poll(&mut s, &w2).0.is_pending());
    let taken = s.try_acquire().unwrap();
    assert_eq!(s.available(), 0);
    assert!(s.release(taken).is_none());
    assert!(s.add_permits(1).is_some());
    let (p, next) = big.poll(&mut s, &w1);
    assert_eq!(p.ready().unwrap().count(), 2);
    assert!(next.is_none());
    assert_eq!(s.available(), 0);
}

#[test]
fn semaphore_permits_are_conserved() {
    let mut s = LocalSemaphore::new(5);
    let a = s.try_acquire_many(2).unwrap();
    let b = s.try_acquire_many(3).unwrap();
    assert_eq!(s.available() + a.count() + b.count(), 5);
    assert!(s.release(b).is_none());
    assert_eq!(s.available() + a.count(), 5);
    assert!(s.release(a).is_none());
    assert_eq!(s.available(), 5);
}

#[test]
fn semaphore_forgotten_permits_do_not_come_back() {
    let mut s = LocalSemaphore::new(2);
    let p = s.try_acquire().unwrap();
    p.forget();
    assert_eq!(s.available(), 1);
}

#[test]
fn semaphore_acquiring_none_leaves_the_count() {
    let mut s = LocalSemaphore::new(0);
    let p = s.try_acquire_many(0).unwrap();
    assert_eq!(p.count(), 0);
    assert!(s.release(p).is_none());
    assert_eq!(s.available(), 0);
}

#[test]
fn semaphore_cancelled_front_wakes_the_next() {
    // The front asks for more than there is; once it goes, the next fits.
    let mut s = LocalSemaphore::new(1);
    let (w1, _) = flag_waker();
    let (w2, f2) = flag_waker();
    let mut big = s.acquire_many(3);
    let mut small = s.acquire();
    assert!(big.poll(&mut s, &w1).0.is_pending());
    assert!(small.poll(&mut s, &w2).0.is_pending());
    wake(big.cancel(&mut s));
    assert!(f2.load(Ordering::SeqCst));
    assert!(small.poll(&mut s, &w2).0.is_ready());
}

#[test]
fn semaphore_another_waker_keeps_the_place() {
    let mut s = LocalSemaphore::new(0);
    let (w1, f1) = flag_waker();
    let (w2, f2) = flag_waker();
    let (w3, f3) = flag_waker();
    let mut first = s.acquire();
    let mut second = s.acquire();
    assert!(first.poll(&mut s, &w1).0.is_pending());
    assert!(second.poll(&mut s, &w2).0.is_pending());
    // The first comes with another waker and is the first still.
    assert!(first.poll(&mut s, &w3).0.is_pending());
    wake(s.add_permits(1));
    assert!(!f1.load(Ordering::SeqCst));
    assert!(!f2.load(Ordering::SeqCst));
    assert!(f3.load(Ordering::SeqCst));
    assert!(second.poll(&mut s, &w2).0.is_pending());
    assert!(first.poll(&mut s, &w3).0.is_ready());
}
