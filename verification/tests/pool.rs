use std::sync::atomic::{AtomicBool, Ordering};
use std::sync::Arc;
use std::task::{Wake, Waker};

use cynosure::poll::Poll;
use cynosure::site_c::pool::LocalBufferPool;
use cynosure::site_d::buffer::Zeroable;

struct FlagWaker(Arc<AtomicBool>);

impl Wake for FlagWaker {
    fn wake(self: Arc<Self>) {
        self.0.store(true, Ordering::SeqCst);
    }
}

fn flag_waker() -> (Waker, Arc<AtomicBool>) {
    let flag = Arc::new(AtomicBool::new(false));
    (Arc::new(FlagWaker(flag.clone())).into(), flag)
}

fn wake(waker: Option<Waker>) {
    if let Some(waker) = waker {
        waker.wake();
    }
}

/// A sample of a signal.
#[derive(Clone, Copy, Debug, PartialEq)]
struct Sample(f32);

impl Zeroable for Sample {
    fn zero_value() -> Sample {
        Sample(0.0)
    }

    fn zero() -> Sample {
        Sample(0.0)
    }
}

#[test]
fn acquire_return_cycle() {
    let mut pool = LocalBufferPool::<u8>::new(2, 64);
    assert_eq!(pool.available(), 2);
    let a = pool.try_acquire().unwrap();
    let b = pool.try_acquire().unwrap();
    assert_eq!(a.deref().capacity(), 64);
    assert!(pool.try_acquire().is_none());
    wake(pool.give_back(a));
    assert_eq!(pool.available(), 1);
    wake(pool.give_back(b));
    assert_eq!(pool.available(), 2);
}

#[test]
fn writes_visible_through_pooled_buffer() {
    let mut pool = LocalBufferPool::<u8>::new(1, 16);
    let mut buf = pool.try_acquire().unwrap();
    buf.deref_mut().capacity_mut()[0] = 0xAB;
    buf.deref_mut().set_len(1);
    assert_eq!(buf.deref().deref(), &[0xAB]);
}

#[test]
fn generic_over_element_type() {
    // A pool of aligned sample buffers, on 16 bytes.
    let mut pool = LocalBufferPool::<Sample>::with_alignment(2, 256, 16);
    let mut a = pool.try_acquire().unwrap();
    assert_eq!(a.deref().capacity(), 256);
    assert_eq!(a.deref().deref().as_ptr() as usize % 16, 0);
    a.deref_mut().capacity_mut()[0] = Sample(1.5);
    a.deref_mut().set_len(1);
    assert_eq!(a.deref().deref(), &[Sample(1.5)]);
    wake(pool.give_back(a));
    assert_eq!(pool.available(), 2);
}

#[test]
fn exhaustion_waits_then_return_wakes() {
    let mut pool = LocalBufferPool::<u8>::new(1, 8);
    let held = pool.try_acquire().unwrap();

    let (w, flag) = flag_waker();
    let mut fut = pool.acquire();
    assert!(fut.poll(&mut pool, &w).0.is_pending());

    wake(pool.give_back(held)); // returns the buffer and wakes the waiter
    assert!(flag.load(Ordering::SeqCst));
    match fut.poll(&mut pool, &w).0 {
        Poll::Ready(b) => assert_eq!(b.deref().capacity(), 8),
        Poll::Pending => panic!("should acquire after return"),
    }
}

#[test]
fn buffers_are_recycled_not_reallocated() {
    let mut pool = LocalBufferPool::<u8>::new(1, 32);
    let a = pool.try_acquire().unwrap();
    let ptr_a = a.deref().deref().as_ptr();
    wake(pool.give_back(a));
    let b = pool.try_acquire().unwrap();
    assert_eq!(
        b.deref().deref().as_ptr(),
        ptr_a,
        "the same buffer should be handed back out"
    );
}

#[test]
fn pool_last_returned_is_first_out() {
    let mut pool = LocalBufferPool::<u8>::new(2, 4);
    let mut a = pool.try_acquire().unwrap();
    let b = pool.try_acquire().unwrap();
    a.deref_mut().capacity_mut()[0] = 7;
    wake(pool.give_back(b));
    wake(pool.give_back(a));
    let mut c = pool.try_acquire().unwrap();
    assert_eq!(c.deref_mut().capacity_mut()[0], 7);
}

#[test]
fn pool_hands_out_an_empty_length() {
    // A buffer comes out with no length, its memory as it was handed in.
    let mut pool = LocalBufferPool::<u8>::new(1, 4);
    let mut a = pool.try_acquire().unwrap();
    a.deref_mut().capacity_mut()[0] = 1;
    a.deref_mut().set_len(1);
    wake(pool.give_back(a));
    let mut b = pool.try_acquire().unwrap();
    assert!(b.deref().is_empty());
    assert_eq!(b.deref_mut().capacity_mut(), &[1, 0, 0, 0]);
}

#[test]
fn pool_cancelled_waiter_is_passed_over() {
    let mut pool = LocalBufferPool::<u8>::new(1, 4);
    let held = pool.try_acquire().unwrap();
    let (w1, _) = flag_waker();
    let (w2, f2) = flag_waker();
    let mut first = pool.acquire();
    let mut second = pool.acquire();
    assert!(first.poll(&mut pool, &w1).0.is_pending());
    assert!(second.poll(&mut pool, &w2).0.is_pending());
    wake(first.cancel(&mut pool));
    wake(pool.give_back(held));
    assert!(f2.load(Ordering::SeqCst));
    assert!(second.poll(&mut pool, &w2).0.is_ready());
}
