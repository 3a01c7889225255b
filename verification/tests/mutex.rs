use std::cell::RefCell;
use std::rc::Rc;
use std::sync::atomic::{AtomicBool, Ordering};
use std::sync::{Arc, Mutex};
use std::task::{Wake, Waker};

use cynosure::poll::Poll;
use cynosure::site_c::mutex::{LocalMutex, LocalMutexGuard, LocalMutexLockFuture};

struct NoopWaker;

impl Wake for NoopWaker {
    fn wake(self: Arc<Self>) {}
}

fn noop_waker() -> Waker {
    Arc::new(NoopWaker).into()
}

struct FlagWaker(Arc<AtomicBool>);

impl Wake for FlagWaker {
    fn wake(self: Arc<Self>) {
        self.0.store(true, Ordering::SeqCst);
    }
}

fn flag_waker() -> (Waker, Arc<AtomicBool>) {
    let flag = Arc::new(AtomicBool::new(false));
    (Arc::new(FlagWaker(flag.clone())).into(), flag)
}

fn wake(waker: Option<Waker>) {
    if let Some(waker) = waker {
        waker.wake();
    }
}

fn release<T>(mutex: &mut LocalMutex<T>, guard: LocalMutexGuard) {
    let waker = mutex.unlock(guard);
    wake(waker);
}

fn poll_once<T>(
    future: &mut LocalMutexLockFuture,
    mutex: &mut LocalMutex<T>,
) -> Poll<LocalMutexGuard> {
    future.poll(mutex, &noop_waker())
}

#[test]
fn test_new_and_try_lock() {
    let mut mutex = LocalMutex::new(42);
    assert!(!mutex.is_locked());

    let guard = mutex.try_lock().unwrap();
    assert!(mutex.is_locked());
    assert_eq!(*guard.deref(&mutex), 42);

    release(&mut mutex, guard);
    assert!(!mutex.is_locked());
}

#[test]
fn test_try_lock_fails_when_locked() {
    let mut mutex = LocalMutex::new(42);
    let _guard = mutex.try_lock().unwrap();
    assert!(mutex.try_lock().is_none());
}

#[test]
fn test_lock_future_ready_when_unlocked() {
    let mut mutex = LocalMutex::new(42);
    let mut future = mutex.lock();

    match poll_once(&mut future, &mut mutex) {
        Poll::Ready(guard) => assert_eq!(*guard.deref(&mutex), 42),
        Poll::Pending => panic!("should be ready"),
    }
}

#[test]
fn test_lock_future_pending_when_locked() {
    let mut mutex = LocalMutex::new(42);
    let _guard = mutex.try_lock().unwrap();

    let mut future = mutex.lock();
    match poll_once(&mut future, &mut mutex) {
        Poll::Pending => {}
        Poll::Ready(_) => panic!("should be pending"),
    }
}

#[test]
fn mutex_test_repeated_polling_doesnt_panic() {
    let mut mutex = LocalMutex::new(42);
    let guard = mutex.try_lock().unwrap();

    let waker = noop_waker();
    let mut future = mutex.lock();
    for _ in 0..100 {
        let _ = future.poll(&mut mutex, &waker);
    }

    // The future waits once, however often it is polled.
    assert!(mutex.unlock(guard).is_some());
    let guard = mutex.try_lock();
    assert!(guard.is_some());
    assert!(mutex.unlock(guard.unwrap()).is_none());
}

#[test]
fn test_unlock_wakes_waiters() {
    let mut mutex = LocalMutex::new(42);
    let guard = mutex.try_lock().unwrap();

    let (waker, woken) = flag_waker();
    let mut future = mutex.lock();
    let _ = future.poll(&mut mutex, &waker);

    assert!(!woken.load(Ordering::SeqCst));
    release(&mut mutex, guard);
    assert!(woken.load(Ordering::SeqCst));
}

#[test]
fn test_mutex_with_mutation() {
    let mut mutex = LocalMutex::new(vec![1, 2, 3]);

    {
        let mut guard = mutex.try_lock().unwrap();
        guard.deref_mut(&mut mutex).push(4);
        release(&mut mutex, guard);
    }

    let guard = mutex.try_lock().unwrap();
    assert_eq!(*guard.deref(&mutex), vec![1, 2, 3, 4]);
}

#[test]
fn mutex_test_rc_sharing() {
    let mutex = Rc::new(RefCell::new(LocalMutex::new(42)));
    let mutex2 = mutex.clone();

    {
        let mut guard = mutex.borrow_mut().try_lock().unwrap();
        *guard.deref_mut(&mut mutex.borrow_mut()) = 100;
        release(&mut mutex.borrow_mut(), guard);
    }

    let guard = mutex2.borrow_mut().try_lock().unwrap();
    assert_eq!(*guard.deref(&mutex2.borrow()), 100);
}

#[test]
fn mutex_test_debug_impl() {
    let mut mutex = LocalMutex::new(42);
    let debug_str = format!("{:?}", mutex.debug());
    assert!(debug_str.contains("LocalMutex"));
    assert!(debug_str.contains("42"));

    let _guard = mutex.try_lock().unwrap();
    let debug_str_locked = format!("{:?}", mutex.debug());
    assert!(debug_str_locked.contains("locked"));
    assert!(!debug_str_locked.contains("42"));
}

#[test]
fn mutex_test_default() {
    let mut mutex: LocalMutex<i32> = LocalMutex::default();
    let guard = mutex.try_lock().unwrap();
    assert_eq!(*guard.deref(&mutex), 0);
}

#[test]
fn mutex_test_into_inner() {
    let mutex = LocalMutex::new(vec![1, 2, 3]);
    let value = mutex.into_inner();
    assert_eq!(value, vec![1, 2, 3]);
}

#[test]
fn mutex_test_get_mut() {
    let mut mutex = LocalMutex::new(42);
    *mutex.get_mut() = 100;
    let guard = mutex.try_lock().unwrap();
    assert_eq!(*guard.deref(&mutex), 100);
}

#[test]
fn test_lock_after_waker_registered() {
    let mut mutex = LocalMutex::new(42);
    let guard = mutex.try_lock().unwrap();

    let mut future = mutex.lock();

    match poll_once(&mut future, &mut mutex) {
        Poll::Pending => {}
        Poll::Ready(_) => panic!("should be pending"),
    }

    release(&mut mutex, guard);

    match poll_once(&mut future, &mut mutex) {
        Poll::Ready(guard) => assert_eq!(*guard.deref(&mutex), 42),
        Poll::Pending => panic!("should be ready after unlock"),
    }
}

/// A waker that takes the mutex and releases it again when it is called.
struct ReentrantWaker {
    mutex: Arc<Mutex<LocalMutex<i32>>>,
    reentered: AtomicBool,
}

impl Wake for ReentrantWaker {
    fn wake(self: Arc<Self>) {
        self.reentered.store(true, Ordering::SeqCst);
        let mut mutex = self.mutex.lock().unwrap();
        if let Some(guard) = mutex.try_lock() {
            let waker = mutex.unlock(guard);
            drop(mutex);
            wake(waker);
        }
    }
}

#[test]
fn test_reentrant_waker_during_unlock_no_alias() {
    let mutex = Arc::new(Mutex::new(LocalMutex::new(0)));
    let reentrant = Arc::new(ReentrantWaker {
        mutex: mutex.clone(),
        reentered: AtomicBool::new(false),
    });
    let reentrant_waker: Waker = reentrant.clone().into();
    let (second, woken) = flag_waker();

    let guard = mutex.lock().unwrap().try_lock().unwrap();

    // Register the reentrant waker first, then a plain one.
    let mut f1 = mutex.lock().unwrap().lock();
    assert!(f1.poll(&mut mutex.lock().unwrap(), &reentrant_waker).is_pending());

    let mut f2 = mutex.lock().unwrap().lock();
    assert!(f2.poll(&mut mutex.lock().unwrap(), &second).is_pending());

    // Releasing hands out the reentrant waker; calling it releases once more,
    // which hands out the second one.
    let waker = mutex.lock().unwrap().unlock(guard);
    wake(waker);

    assert!(reentrant.reentered.load(Ordering::SeqCst));
    assert!(woken.load(Ordering::SeqCst));
    assert!(mutex.lock().unwrap().try_lock().is_some());
}

#[test]
fn test_multiple_sequential_locks() {
    let mut mutex = LocalMutex::new(0);

    for i in 0..100 {
        let mut guard = mutex.try_lock().unwrap();
        assert_eq!(*guard.deref(&mutex), i);
        *guard.deref_mut(&mut mutex) += 1;
        release(&mut mutex, guard);
    }

    let guard = mutex.try_lock().unwrap();
    assert_eq!(*guard.deref(&mutex), 100);
}

#[test]
fn mutex_unlock_wakes_one_not_all() {
    let mut m = LocalMutex::new(0i32);
    let g = m.try_lock().unwrap();

    let (w1, f1) = flag_waker();
    let (w2, f2) = flag_waker();
    let (w3, f3) = flag_waker();
    let mut futs = [m.lock(), m.lock(), m.lock()];
    assert!(futs[0].poll(&mut m, &w1).is_pending());
    assert!(futs[1].poll(&mut m, &w2).is_pending());
    assert!(futs[2].poll(&mut m, &w3).is_pending());

    release(&mut m, g);
    let woken = [&f1, &f2, &f3]
        .iter()
        .filter(|f| f.load(Ordering::SeqCst))
        .count();
    assert_eq!(woken, 1, "exactly one waiter should be woken, not all");
    assert!(
        f1.load(Ordering::SeqCst),
        "the FIFO-front waiter is the one woken"
    );
}

#[test]
fn mutex_cancellation_recovers() {
    let mut m = LocalMutex::new(0i32);
    let g = m.try_lock().unwrap();

    let (w1, _f1) = flag_waker();
    {
        let mut f1 = m.lock();
        assert!(f1.poll(&mut m, &w1).is_pending());
        wake(f1.cancel(&mut m));
    }
    let (w2, f2) = flag_waker();
    let mut f2fut = m.lock();
    assert!(f2fut.poll(&mut m, &w2).is_pending());

    release(&mut m, g);
    assert!(
        f2.load(Ordering::SeqCst),
        "live waiter must be woken despite the cancelled one"
    );
}

#[test]
fn mutex_two_futures_one_task_both_progress() {
    let mut m = LocalMutex::new(0i32);
    let g = m.try_lock().unwrap();
    let (w, flag) = flag_waker();

    let mut f1 = m.lock();
    let mut f2 = m.lock();
    assert!(f1.poll(&mut m, &w).is_pending());
    assert!(f2.poll(&mut m, &w).is_pending());

    release(&mut m, g);
    let g1 = match f1.poll(&mut m, &w) {
        Poll::Ready(g) => g,
        Poll::Pending => panic!("f1 should acquire after unlock"),
    };
    assert!(f2.poll(&mut m, &w).is_pending());

    flag.store(false, Ordering::SeqCst);
    release(&mut m, g1);
    assert!(
        flag.load(Ordering::SeqCst),
        "f2 must be woken on release (shared-waker stranding)"
    );
}

#[test]
fn mutex_woken_then_barged_is_requeued() {
    let mut m = LocalMutex::new(0i32);
    let g = m.try_lock().unwrap();
    let (w, flag) = flag_waker();

    let mut f = m.lock();
    assert!(f.poll(&mut m, &w).is_pending());

    release(&mut m, g);
    let g2 = m.try_lock().unwrap();
    assert!(f.poll(&mut m, &w).is_pending());

    flag.store(false, Ordering::SeqCst);
    release(&mut m, g2);
    assert!(
        flag.load(Ordering::SeqCst),
        "woken-then-barged waiter must be re-queued and re-woken"
    );
}

#[test]
fn mutex_woken_then_cancelled_passes_the_turn() {
    let mut m = LocalMutex::new(0i32);
    let g = m.try_lock().unwrap();
    let (w1, f1) = flag_waker();
    let (w2, f2) = flag_waker();
    let mut first = m.lock();
    let mut second = m.lock();
    assert!(first.poll(&mut m, &w1).is_pending());
    assert!(second.poll(&mut m, &w2).is_pending());

    release(&mut m, g);
    assert!(f1.load(Ordering::SeqCst));
    assert!(!f2.load(Ordering::SeqCst));
    wake(first.cancel(&mut m));
    assert!(f2.load(Ordering::SeqCst));
}

#[test]
fn mutex_refreshed_waker_is_the_one_called() {
    // Polled again with another waker, the future is woken through that one.
    let mut m = LocalMutex::new(0i32);
    let g = m.try_lock().unwrap();
    let (w1, f1) = flag_waker();
    let (w2, f2) = flag_waker();
    let mut f = m.lock();
    assert!(f.poll(&mut m, &w1).is_pending());
    assert!(f.poll(&mut m, &w2).is_pending());
    release(&mut m, g);
    assert!(!f1.load(Ordering::SeqCst));
    assert!(f2.load(Ordering::SeqCst));
    assert!(f.poll(&mut m, &w2).is_ready());
}

#[test]
fn mutex_unpolled_future_cancels_without_effect() {
    let mut m = LocalMutex::new(0i32);
    let f = m.lock();
    assert!(f.cancel(&mut m).is_none());
    assert!(m.lock().poll(&mut m, &noop_waker()).ready().is_some());
}
