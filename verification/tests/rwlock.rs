use std::cell::RefCell;
use std::rc::Rc;
use std::sync::atomic::{AtomicBool, AtomicUsize, Ordering};
use std::sync::Arc;
use std::task::{Wake, Waker};

use cynosure::poll::Poll;
use cynosure::site_c::rwlock::{LocalRwLock, LocalRwLockReadGuard, LocalRwLockWriteGuard};

struct NoopWaker;

impl Wake for NoopWaker {
    fn wake(self: Arc<Self>) {}
}

fn noop_waker() -> Waker {
    Arc::new(NoopWaker).into()
}

struct FlagWaker(Arc<AtomicBool>);

impl Wake for FlagWaker {
    fn wake(self: Arc<Self>) {
        self.0.store(true, Ordering::SeqCst);
    }
}

fn flag_waker() -> (Waker, Arc<AtomicBool>) {
    let flag = Arc::new(AtomicBool::new(false));
    (Arc::new(FlagWaker(flag.clone())).into(), flag)
}

struct CountWaker(Arc<AtomicUsize>);

impl Wake for CountWaker {
    fn wake(self: Arc<Self>) {
        self.0.fetch_add(1, Ordering::SeqCst);
    }
}

fn wake_all(wakers: Vec<Waker>) {
    for waker in wakers {
        waker.wake();
    }
}

fn drop_read<T>(lock: &mut LocalRwLock<T>, guard: LocalRwLockReadGuard) {
    let wakers = lock.release_read(guard);
    wake_all(wakers);
}

fn drop_write<T>(lock: &mut LocalRwLock<T>, guard: LocalRwLockWriteGuard) {
    let wakers = lock.release_write(guard);
    wake_all(wakers);
}

#[test]
fn test_new_and_try_read() {
    let mut lock = LocalRwLock::new(42);
    assert!(!lock.is_locked());

    let guard = lock.try_read().unwrap();
    assert_eq!(*guard.deref(&lock), 42);
    assert_eq!(lock.reader_count(), 1);
    assert!(!lock.is_write_locked());

    drop_read(&mut lock, guard);
    assert!(!lock.is_locked());
}

#[test]
fn rwlock_test_multiple_readers() {
    let mut lock = LocalRwLock::new(42);

    let r1 = lock.try_read().unwrap();
    let r2 = lock.try_read().unwrap();
    let r3 = lock.try_read().unwrap();

    assert_eq!(lock.reader_count(), 3);
    assert_eq!(*r1.deref(&lock), 42);
    assert_eq!(*r2.deref(&lock), 42);
    assert_eq!(*r3.deref(&lock), 42);

    drop_read(&mut lock, r1);
    assert_eq!(lock.reader_count(), 2);

    drop_read(&mut lock, r2);
    drop_read(&mut lock, r3);
    assert_eq!(lock.reader_count(), 0);
}

#[test]
fn test_writer_excludes_readers() {
    let mut lock = LocalRwLock::new(42);

    let w = lock.try_write().unwrap();
    assert!(lock.is_write_locked());
    assert!(lock.try_read().is_none());
    assert!(lock.try_write().is_none());

    drop_write(&mut lock, w);
    assert!(!lock.is_write_locked());
    assert!(lock.try_read().is_some());
}

#[test]
fn test_readers_exclude_writer() {
    let mut lock = LocalRwLock::new(42);

    let r = lock.try_read().unwrap();
    assert!(lock.try_write().is_none());

    drop_read(&mut lock, r);
    assert!(lock.try_write().is_some());
}

#[test]
fn test_write_mutation() {
    let mut lock = LocalRwLock::new(vec![1, 2, 3]);

    {
        let mut w = lock.try_write().unwrap();
        w.deref_mut(&mut lock).push(4);
        assert_eq!(w.deref(&lock).len(), 4);
        drop_write(&mut lock, w);
    }

    let r = lock.try_read().unwrap();
    assert_eq!(*r.deref(&lock), vec![1, 2, 3, 4]);
}

#[test]
fn test_read_future_ready_when_unlocked() {
    let mut lock = LocalRwLock::new(42);
    let mut future = lock.read();

    match future.poll(&mut lock, &noop_waker()) {
        Poll::Ready(guard) => assert_eq!(*guard.deref(&lock), 42),
        Poll::Pending => panic!("should be ready"),
    }
}

#[test]
fn test_read_future_pending_when_write_locked() {
    let mut lock = LocalRwLock::new(42);
    let _w = lock.try_write().unwrap();

    let mut future = lock.read();
    match future.poll(&mut lock, &noop_waker()) {
        Poll::Pending => {}
        Poll::Ready(_) => panic!("should be pending"),
    }
}

#[test]
fn test_write_future_pending_when_read_locked() {
    let mut lock = LocalRwLock::new(42);
    let _r = lock.try_read().unwrap();

    let mut future = lock.write();
    match future.poll(&mut lock, &noop_waker()) {
        Poll::Pending => {}
        Poll::Ready(_) => panic!("should be pending"),
    }
}

#[test]
fn rwlock_test_repeated_polling_doesnt_panic() {
    let mut lock = LocalRwLock::new(42);
    let w = lock.try_write().unwrap();

    let waker = noop_waker();
    let mut future = lock.read();
    for _ in 0..100 {
        let _ = future.poll(&mut lock, &waker);
    }

    // The future waits once, however often it is polled.
    assert_eq!(lock.release_write(w).len(), 1);
    assert!(lock.try_read().is_some());
}

#[test]
fn test_write_release_wakes_readers() {
    let mut lock = LocalRwLock::new(42);
    let w = lock.try_write().unwrap();

    let woken = Arc::new(AtomicUsize::new(0));
    let waker1: Waker = Arc::new(CountWaker(woken.clone())).into();
    let waker2: Waker = Arc::new(CountWaker(woken.clone())).into();

    let mut f1 = lock.read();
    let mut f2 = lock.read();
    let _ = f1.poll(&mut lock, &waker1);
    let _ = f2.poll(&mut lock, &waker2);

    assert_eq!(woken.load(Ordering::SeqCst), 0);
    drop_write(&mut lock, w);
    assert_eq!(woken.load(Ordering::SeqCst), 2);
}

#[test]
fn test_read_release_wakes_writer() {
    let mut lock = LocalRwLock::new(42);
    let r = lock.try_read().unwrap();

    let (waker, woken) = flag_waker();
    let mut future = lock.write();
    let _ = future.poll(&mut lock, &waker);

    assert!(!woken.load(Ordering::SeqCst));
    drop_read(&mut lock, r);
    assert!(woken.load(Ordering::SeqCst));
}

#[test]
fn rwlock_test_rc_sharing() {
    let lock = Rc::new(RefCell::new(LocalRwLock::new(42)));
    let lock2 = lock.clone();

    {
        let mut w = lock.borrow_mut().try_write().unwrap();
        *w.deref_mut(&mut lock.borrow_mut()) = 100;
        drop_write(&mut lock.borrow_mut(), w);
    }

    let r = lock2.borrow_mut().try_read().unwrap();
    assert_eq!(*r.deref(&lock2.borrow()), 100);
}

#[test]
fn rwlock_test_debug_impl() {
    let mut lock = LocalRwLock::new(42);
    let debug_str = format!("{:?}", lock.debug());
    assert!(debug_str.contains("LocalRwLock"));
    assert!(debug_str.contains("42"));

    let _guard = lock.try_write().unwrap();
    let debug_str_locked = format!("{:?}", lock.debug());
    assert!(debug_str_locked.contains("locked"));
    assert!(!debug_str_locked.contains("42"));
}

#[test]
fn rwlock_test_default() {
    let mut lock: LocalRwLock<i32> = LocalRwLock::default();
    let guard = lock.try_read().unwrap();
    assert_eq!(*guard.deref(&lock), 0);
}

#[test]
fn rwlock_test_into_inner() {
    let lock = LocalRwLock::new(vec![1, 2, 3]);
    let value = lock.into_inner();
    assert_eq!(value, vec![1, 2, 3]);
}

#[test]
fn rwlock_test_get_mut() {
    let mut lock = LocalRwLock::new(42);
    *lock.get_mut() = 100;
    let guard = lock.try_read().unwrap();
    assert_eq!(*guard.deref(&lock), 100);
}

#[test]
fn test_read_after_waker_registered() {
    let mut lock = LocalRwLock::new(42);
    let guard = lock.try_write().unwrap();

    let mut future = lock.read();

    match future.poll(&mut lock, &noop_waker()) {
        Poll::Pending => {}
        Poll::Ready(_) => panic!("should be pending"),
    }

    drop_write(&mut lock, guard);

    match future.poll(&mut lock, &noop_waker()) {
        Poll::Ready(guard) => assert_eq!(*guard.deref(&lock), 42),
        Poll::Pending => panic!("should be ready after unlock"),
    }
}

#[test]
fn test_write_after_waker_registered() {
    let mut lock = LocalRwLock::new(42);
    let guard = lock.try_read().unwrap();

    let mut future = lock.write();

    match future.poll(&mut lock, &noop_waker()) {
        Poll::Pending => {}
        Poll::Ready(_) => panic!("should be pending"),
    }

    drop_read(&mut lock, guard);

    match future.poll(&mut lock, &noop_waker()) {
        Poll::Ready(mut guard) => {
            assert_eq!(*guard.deref(&lock), 42);
            *guard.deref_mut(&mut lock) = 100;
            drop_write(&mut lock, guard);
        }
        Poll::Pending => panic!("should be ready after unlock"),
    }

    let guard = lock.try_read().unwrap();
    assert_eq!(*guard.deref(&lock), 100);
}

#[test]
fn rwlock_writer_cancellation_recovers() {
    let mut lock = LocalRwLock::new(0i32);
    let r = lock.try_read().unwrap();

    // W1 registers, then is cancelled.
    let (w1_waker, _w1) = flag_waker();
    {
        let mut w1 = lock.write();
        assert!(w1.poll(&mut lock, &w1_waker).is_pending());
        wake_all(w1.cancel(&mut lock));
    }

    // W2 registers and stays live.
    let (w2_waker, w2_flag) = flag_waker();
    let mut w2 = lock.write();
    assert!(w2.poll(&mut lock, &w2_waker).is_pending());

    drop_read(&mut lock, r);
    assert!(
        w2_flag.load(Ordering::SeqCst),
        "live writer W2 must be woken after the read lock is released"
    );
    // And W2 can now acquire.
    match w2.poll(&mut lock, &w2_waker) {
        Poll::Ready(_) => {}
        Poll::Pending => panic!("W2 should acquire the now-free lock"),
    }
}

#[test]
fn rwlock_cancelled_writer_passes_turn_to_readers() {
    let mut lock = LocalRwLock::new(0i32);
    let r = lock.try_read().unwrap();

    // One queued writer and one queued reader, which defers to it.
    let (ww, _wf) = flag_waker();
    let mut w = lock.write();
    assert!(w.poll(&mut lock, &ww).is_pending());

    let (rw, r_flag) = flag_waker();
    let mut rd = lock.read();
    assert!(rd.poll(&mut lock, &rw).is_pending());

    drop_read(&mut lock, r);
    // The writer gives up before it acquires, which passes the turn on.
    wake_all(w.cancel(&mut lock));
    assert!(
        r_flag.load(Ordering::SeqCst),
        "reader must be woken once the only writer is cancelled"
    );
}

#[test]
fn rwlock_read_defers_to_queued_writer() {
    let mut lock = LocalRwLock::new(0i32);
    let _r = lock.try_read().unwrap();

    let (ww, _wf) = flag_waker();
    let mut w = lock.write();
    assert!(w.poll(&mut lock, &ww).is_pending());

    // A new reader must not jump ahead of the queued writer.
    let (rw, _rf) = flag_waker();
    let mut rd = lock.read();
    assert!(
        rd.poll(&mut lock, &rw).is_pending(),
        "read must defer to a queued writer (write-preferring)"
    );
    // ...though the opportunistic try_read still succeeds.
    assert!(lock.try_read().is_some());
}

#[test]
fn rwlock_two_writers_one_task_both_progress() {
    let mut lock = LocalRwLock::new(0i32);
    let g = lock.try_write().unwrap();
    let (w, flag) = flag_waker();

    let mut f1 = lock.write();
    let mut f2 = lock.write();
    assert!(f1.poll(&mut lock, &w).is_pending());
    assert!(f2.poll(&mut lock, &w).is_pending());

    drop_write(&mut lock, g);
    let g1 = match f1.poll(&mut lock, &w) {
        Poll::Ready(g) => g,
        Poll::Pending => panic!("f1 should acquire after unlock"),
    };
    assert!(f2.poll(&mut lock, &w).is_pending());

    flag.store(false, Ordering::SeqCst);
    drop_write(&mut lock, g1);
    assert!(
        flag.load(Ordering::SeqCst),
        "f2 writer must be woken on release (shared-waker stranding)"
    );
}

#[test]
fn rwlock_woken_then_barged_writer_requeued() {
    let mut lock = LocalRwLock::new(0i32);
    let g = lock.try_write().unwrap();
    let (w, flag) = flag_waker();

    let mut f = lock.write();
    assert!(f.poll(&mut lock, &w).is_pending());

    drop_write(&mut lock, g);
    let g2 = lock.try_write().unwrap();
    assert!(f.poll(&mut lock, &w).is_pending());

    flag.store(false, Ordering::SeqCst);
    drop_write(&mut lock, g2);
    assert!(
        flag.load(Ordering::SeqCst),
        "woken-then-barged writer must be re-queued and re-woken"
    );
}

#[test]
fn rwlock_release_wakes_one_writer_before_readers() {
    let mut lock = LocalRwLock::new(0i32);
    let g = lock.try_write().unwrap();
    let (rw, rf) = flag_waker();
    let (w1, f1) = flag_waker();
    let (w2, f2) = flag_waker();
    let mut reader = lock.read();
    let mut first = lock.write();
    let mut second = lock.write();
    assert!(reader.poll(&mut lock, &rw).is_pending());
    assert!(first.poll(&mut lock, &w1).is_pending());
    assert!(second.poll(&mut lock, &w2).is_pending());

    drop_write(&mut lock, g);
    assert!(f1.load(Ordering::SeqCst));
    assert!(!f2.load(Ordering::SeqCst));
    assert!(!rf.load(Ordering::SeqCst));

    // Even a free lock is kept for the writers that wait.
    assert!(reader.poll(&mut lock, &rw).is_pending());
    let g1 = first.poll(&mut lock, &w1).ready().unwrap();
    drop_write(&mut lock, g1);
    assert!(f2.load(Ordering::SeqCst));
    let g2 = second.poll(&mut lock, &w2).ready().unwrap();
    drop_write(&mut lock, g2);
    assert!(rf.load(Ordering::SeqCst));
    assert!(reader.poll(&mut lock, &rw).is_ready());
}

#[test]
fn rwlock_last_reader_out_wakes_the_writer() {
    let mut lock = LocalRwLock::new(0i32);
    let r1 = lock.try_read().unwrap();
    let r2 = lock.try_read().unwrap();
    let (w, flag) = flag_waker();
    let mut f = lock.write();
    assert!(f.poll(&mut lock, &w).is_pending());
    drop_read(&mut lock, r1);
    assert!(!flag.load(Ordering::SeqCst));
    drop_read(&mut lock, r2);
    assert!(flag.load(Ordering::SeqCst));
}

#[test]
fn rwlock_cancelled_reader_passes_turn() {
    let mut lock = LocalRwLock::new(0i32);
    let g = lock.try_write().unwrap();
    let (rw, _) = flag_waker();
    let mut reader = lock.read();
    assert!(reader.poll(&mut lock, &rw).is_pending());
    assert!(reader.cancel(&mut lock).is_empty());
    assert!(lock.release_write(g).is_empty());
}

#[test]
fn rwlock_another_waker_goes_to_the_back() {
    let mut lock = LocalRwLock::new(0);
    let guard = lock.try_write().unwrap();
    let (w1, f1) = flag_waker();
    let (w2, f2) = flag_waker();
    let (w3, f3) = flag_waker();
    let mut first = lock.write();
    let mut second = lock.write();
    assert!(first.poll(&mut lock, &w1).is_pending());
    assert!(second.poll(&mut lock, &w2).is_pending());
    // With another waker the first waits behind the second.
    assert!(first.poll(&mut lock, &w3).is_pending());
    drop_write(&mut lock, guard);
    assert!(!f1.load(Ordering::SeqCst));
    assert!(f2.load(Ordering::SeqCst));
    assert!(!f3.load(Ordering::SeqCst));
}

#[test]
fn rwlock_place_rests_on_the_answer() {
    let mut lock = LocalRwLock::new(0);
    let guard = lock.try_write().unwrap();
    let (w1, f1) = flag_waker();
    let (w2, f2) = flag_waker();
    let mut first = lock.write();
    let mut second = lock.write();
    assert!(first.poll_if(&mut lock, &w1, false).is_pending());
    assert!(second.poll_if(&mut lock, &w2, false).is_pending());
    // The same waker: it keeps its place.
    assert!(first.poll_if(&mut lock, &w1, true).is_pending());
    drop_write(&mut lock, guard);
    assert!(f1.load(Ordering::SeqCst));
    assert!(!f2.load(Ordering::SeqCst));

    let reading = lock.try_read().unwrap();
    let mut reader = lock.read();
    assert!(reader.poll_if(&mut lock, &w2, false).is_pending());
    drop_read(&mut lock, reading);
    assert!(f2.load(Ordering::SeqCst));
    wake_all(reader.cancel(&mut lock));
}
