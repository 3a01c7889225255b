use vstd::prelude::*;

use std::task::Waker;

use crate::poll::Poll;
use crate::waiters;
use crate::waiters::{Registration, WaitList, Waiter};

verus! {

/// The state of a mutex, as contracts see it.
pub struct MutexState<T> {
    /// Whether a guard is out.
    pub locked: bool,
    pub value: T,
    /// The futures that wait, first come first.
    pub queue: Seq<Waiter<()>>,
    /// The token for the next future that comes to wait.
    pub next_id: u64,
    /// The futures that have been taken out of the queue to be woken, and have
    /// neither been polled nor cancelled since.
    pub woken: Set<u64>,
    /// How many guards have been handed out and not been given back.
    pub guards: nat,
    /// Which mutex this is. Its guards and futures carry the same tag.
    pub tag: int,
}

impl<T> MutexState<T> {
    /// One guard is out where the mutex is locked, and none otherwise. Where it
    /// is free and futures wait, one of them has been woken.
    pub open spec fn inv(self) -> bool {
        &&& self.guards == if self.locked {
            1nat
        } else {
            0nat
        }
        &&& !self.locked && self.queue.len() > 0 ==> self.woken != Set::<u64>::empty()
    }

    /// The state after the next waiter has been woken, where the mutex is free.
    pub open spec fn next_woken(self) -> Self {
        if self.locked || self.queue.len() == 0 {
            self
        } else {
            MutexState {
                queue: self.queue.skip(1),
                woken: self.woken.insert(self.queue[0].id),
                ..self
            }
        }
    }

    /// The waker that waking the next waiter calls, if any.
    pub open spec fn next_waker(self) -> Option<Waker> {
        if self.locked || self.queue.len() == 0 {
            None
        } else {
            Some(self.queue[0].waker)
        }
    }

    /// The state after the future with registration `slot` has left the queue.
    pub open spec fn deregistered(self, slot: Option<Registration>) -> Self {
        MutexState {
            queue: waiters::left(self.queue, slot),
            woken: match slot {
                Some(reg) => self.woken.remove(reg.id),
                None => self.woken,
            },
            ..self
        }
    }

    /// The state after the future with registration `slot` has been polled with
    /// waker `waker`, and its registration. A future that waits already keeps its
    /// place.
    pub open spec fn polled(self, slot: Option<Registration>, waker: Waker) -> (
        Self,
        Option<Registration>,
    ) {
        let woken = match slot {
            Some(reg) => self.woken.remove(reg.id),
            None => self.woken,
        };
        if !self.locked {
            (
                MutexState { locked: true, guards: self.guards + 1, ..self.deregistered(slot) },
                None,
            )
        } else {
            (
                MutexState {
                    queue: waiters::entered(self.queue, slot, self.next_id, (), waker),
                    next_id: waiters::id_after(slot, self.next_id),
                    woken,
                    ..self
                },
                Some(Registration { id: waiters::token(slot, self.next_id) }),
            )
        }
    }

    /// Where the mutex is free, the future that came first is taken out of the
    /// queue and its waker is called, and no other. Nobody is woken, and nobody
    /// counts as woken, where the mutex is locked or nobody waits.
    pub proof fn law_the_first_in_line_is_woken(self)
        ensures
            self.locked || self.queue.len() == 0 ==> self.next_waker() is None && self.next_woken()
                == self,
            !self.locked && self.queue.len() > 0 ==> {
                &&& self.next_waker() == Some(self.queue[0].waker)
                &&& self.queue == seq![self.queue[0]] + self.next_woken().queue
                &&& forall|id: u64| #[trigger]
                    self.next_woken().woken.contains(id) <==> self.woken.contains(id) || id
                        == self.queue[0].id
            },
            self.next_woken().locked == self.locked,
            self.next_woken().value == self.value,
            self.next_woken().next_id == self.next_id,
            self.next_woken().guards == self.guards,
            self.next_woken().tag == self.tag,
    {
        if !self.locked && self.queue.len() > 0 {
            assert(self.queue =~= seq![self.queue[0]] + self.next_woken().queue);
        }
    }

    /// A future that has been cancelled, or has got the guard, is nowhere in the
    /// queue and does not count as woken. All others are where they were.
    pub proof fn law_a_future_that_leaves_is_gone(self, reg: Registration, i: int)
        requires
            waiters::distinct(self.queue),
        ensures
            forall|k: int|
                0 <= k < self.deregistered(Some(reg)).queue.len() ==> (
                #[trigger] self.deregistered(Some(reg)).queue[k]).id != reg.id,
            0 <= i < self.queue.len() && self.queue[i].id == reg.id ==> self.deregistered(
                Some(reg),
            ).queue == self.queue.take(i) + self.queue.skip(i + 1),
            (forall|k: int| 0 <= k < self.queue.len() ==> (#[trigger] self.queue[k]).id != reg.id)
                ==> self.deregistered(Some(reg)).queue == self.queue,
            forall|id: u64| #[trigger]
                self.deregistered(Some(reg)).woken.contains(id) <==> self.woken.contains(id) && id
                    != reg.id,
            self.deregistered(None) == self,
            self.deregistered(Some(reg)).locked == self.locked,
            self.deregistered(Some(reg)).value == self.value,
            self.deregistered(Some(reg)).next_id == self.next_id,
            self.deregistered(Some(reg)).guards == self.guards,
            self.deregistered(Some(reg)).tag == self.tag,
    {
        waiters::law_leaving_takes_one_entry(self.queue, reg);
    }

    /// A cancelled future that was not the next to be woken changes nothing for
    /// the others: the same waker is called next, with or without it.
    pub proof fn law_a_cancelled_future_is_never_woken(self, reg: Registration)
        requires
            waiters::distinct(self.queue),
            !self.locked,
        ensures
            self.queue.len() > 0 && self.queue[0].id != reg.id ==> self.deregistered(
                Some(reg),
            ).next_waker() == Some(self.queue[0].waker),
            self.queue.len() > 1 && self.queue[0].id == reg.id ==> self.deregistered(
                Some(reg),
            ).next_waker() == Some(self.queue[1].waker),
            self.queue.len() == 1 && self.queue[0].id == reg.id ==> self.deregistered(
                Some(reg),
            ).next_waker() is None,
    {
        waiters::lemma_without(self.queue, reg.id);
    }

    /// A future that is polled gets the guard exactly where the mutex is free, and
    /// no longer waits then. Otherwise it waits: behind all others where it is
    /// new, in its place where it waits already, to be woken by its last waker.
    /// The value stays as it is.
    pub proof fn law_a_poll_locks_or_waits(
        self,
        slot: Option<Registration>,
        waker: Waker,
        i: int,
    )
        requires
            waiters::distinct(self.queue),
            slot is None ==> forall|k: int|
                0 <= k < self.queue.len() ==> (#[trigger] self.queue[k]).id != self.next_id,
        ensures
            ({
                let (after, held) = self.polled(slot, waker);
                &&& after.value == self.value
                &&& after.tag == self.tag
                &&& after.locked
                &&& !self.locked ==> {
                    &&& held is None
                    &&& after.guards == self.guards + 1
                    &&& after.next_id == self.next_id
                    &&& slot is None ==> after.queue == self.queue && after.woken == self.woken
                    &&& slot is Some ==> {
                        &&& forall|k: int|
                            0 <= k < after.queue.len() ==> (#[trigger] after.queue[k]).id
                                != slot->0.id
                        &&& 0 <= i < self.queue.len() && self.queue[i].id == slot->0.id
                            ==> after.queue == self.queue.take(i) + self.queue.skip(i + 1)
                        &&& (forall|k: int|
                            0 <= k < self.queue.len() ==> (#[trigger] self.queue[k]).id
                                != slot->0.id) ==> after.queue == self.queue
                    }
                }
                &&& self.locked ==> {
                    &&& after.guards == self.guards
                    &&& slot is None ==> {
                        &&& held == Some(Registration { id: self.next_id })
                        &&& after.queue == self.queue.push(
                            Waiter { id: self.next_id, request: (), waker },
                        )
                        &&& after.next_id as int == (self.next_id + 1) % 0x1_0000_0000_0000_0000
                        &&& after.woken == self.woken
                    }
                    &&& slot is Some ==> {
                        &&& held == slot
                        &&& after.next_id == self.next_id
                        &&& 0 <= i < self.queue.len() && self.queue[i].id == slot->0.id
                            ==> after.queue == self.queue.update(
                            i,
                            Waiter { id: slot->0.id, request: (), waker },
                        )
                        &&& (forall|k: int|
                            0 <= k < self.queue.len() ==> (#[trigger] self.queue[k]).id
                                != slot->0.id) ==> after.queue == self.queue.push(
                            Waiter { id: slot->0.id, request: (), waker },
                        )
                    }
                }
                &&& slot is Some ==> forall|id: u64| #[trigger]
                    after.woken.contains(id) <==> self.woken.contains(id) && id != slot->0.id
            }),
    {
        waiters::law_coming_to_wait(self.queue, slot, self.next_id, (), waker);
        if slot is Some {
            waiters::law_leaving_takes_one_entry(self.queue, slot->0);
            waiters::law_tokens_go_round(self.next_id, slot->0);
        }
    }
}

/// A mutex for tasks of one thread that hold it across await points.
///
/// A guard or a future of the mutex does not borrow it: each operation is handed
/// the mutex. Wakers are handed back to the caller, who calls them when it no
/// longer uses the mutex.
pub struct LocalMutex<T> {
    locked: bool,
    waiters: WaitList<()>,
    next_id: u64,
    value: T,
    woken: Ghost<Set<u64>>,
    guards: Ghost<nat>,
    tag: Ghost<int>,
}

impl<T> View for LocalMutex<T> {
    type V = MutexState<T>;

    closed spec fn view(&self) -> MutexState<T> {
        MutexState {
            locked: self.locked,
            value: self.value,
            queue: self.waiters@,
            next_id: self.next_id,
            woken: self.woken@,
            guards: self.guards@,
            tag: self.tag@,
        }
    }
}

/// What a mutex shows of itself: the value only while it is free.
#[derive(Debug)]
pub struct LocalMutexDebug<'a, T> {
    pub locked: bool,
    pub value: Option<&'a T>,
}

impl<T> LocalMutex<T> {
    pub closed spec fn wf(self) -> bool {
        &&& self.waiters.wf()
        &&& self@.inv()
    }

    /// What holds of every mutex: no token waits twice, at most one guard is
    /// out, and a free mutex for which futures wait has woken one that has not
    /// answered yet, so that none is forgotten.
    pub proof fn law_exclusion_and_no_lost_wake(self)
        requires
            self.wf(),
        ensures
            waiters::distinct(self@.queue),
            self@.guards <= 1,
            self@.guards == 1 <==> self@.locked,
            !self@.locked && self@.queue.len() > 0 ==> self@.woken != Set::<u64>::empty(),
    {
        self.waiters.lemma_wf();
    }

    /// A free mutex.
    pub fn new(value: T) -> (r: Self)
        ensures
            r.wf(),
            r@ == (MutexState {
                locked: false,
                value,
                queue: Seq::empty(),
                next_id: 0,
                woken: Set::empty(),
                guards: 0,
                tag: r@.tag,
            }),
    {
        LocalMutex {
            locked: false,
            waiters: WaitList::new(),
            next_id: 0,
            value,
            woken: Ghost(Set::empty()),
            guards: Ghost(0),
            tag: Ghost(arbitrary()),
        }
    }

    /// A future for the guard. It waits its turn once it is polled.
    pub fn lock(&self) -> (r: LocalMutexLockFuture)
        ensures
            r.tag() == self@.tag,
            r.slot() is None,
    {
        LocalMutexLockFuture { registered: None, tag: Ghost(self.tag@) }
    }

    /// The guard, where the mutex is free.
    pub fn try_lock(&mut self) -> (r: Option<LocalMutexGuard>)
        requires
            old(self).wf(),
        ensures
            final(self).wf(),
            r is Some <==> !old(self)@.locked,
            r is Some ==> r->0.tag() == old(self)@.tag,
            final(self)@ == if old(self)@.locked {
                old(self)@
            } else {
                MutexState { locked: true, guards: old(self)@.guards + 1, ..old(self)@ }
            },
    {
        if !self.locked {
            self.locked = true;
            self.guards = Ghost((self.guards@ + 1) as nat);
            Some(LocalMutexGuard { tag: Ghost(self.tag@) })
        } else {
            None
        }
    }

    /// Whether the mutex is locked.
    pub fn is_locked(&self) -> (r: bool)
        ensures
            r == self@.locked,
    {
        self.locked
    }

    /// The value, once the mutex is no longer needed.
    pub fn into_inner(self) -> (r: T)
        ensures
            r == self@.value,
    {
        self.value
    }

    /// The value, for change in place.
    pub fn get_mut(&mut self) -> (r: &mut T)
        requires
            old(self).wf(),
        ensures
            *r == old(self)@.value,
            final(self).wf(),
            final(self)@ == (MutexState { value: *final(r), ..old(self)@ }),
    {
        &mut self.value
    }

    /// What can be shown of the mutex: whether it is locked, and the value if it
    /// is not.
    pub fn debug(&self) -> (r: LocalMutexDebug<'_, T>)
        ensures
            r.locked == self@.locked,
            r.value is Some <==> !self@.locked,
            r.value is Some ==> *r.value->0 == self@.value,
    {
        LocalMutexDebug {
            locked: self.locked,
            value: if self.locked {
                None
            } else {
                Some(&self.value)
            },
        }
    }

    /// Gives the guard back. Returns the waker to call, which is that of the
    /// future at the front.
    pub fn unlock(&mut self, guard: LocalMutexGuard) -> (r: Option<Waker>)
        requires
            old(self).wf(),
            old(self)@.locked,
            guard.tag() == old(self)@.tag,
        ensures
            final(self).wf(),
            final(self)@ == (MutexState { locked: false, guards: 0, ..old(self)@ }).next_woken(),
            r == (MutexState { locked: false, guards: 0, ..old(self)@ }).next_waker(),
    {
        self.locked = false;
        self.guards = Ghost(0);
        self.wake_next()
    }

    /// Takes the future at the front out of the queue to be woken, where the
    /// mutex is free. Returns its waker.
    fn wake_next(&mut self) -> (r: Option<Waker>)
        requires
            old(self).waiters.wf(),
            old(self)@.guards == if old(self)@.locked {
                1nat
            } else {
                0nat
            },
        ensures
            final(self).wf(),
            final(self)@ == old(self)@.next_woken(),
            r == old(self)@.next_waker(),
    {
        if self.locked {
            return None;
        }
        match self.waiters.pop_front() {
            Some(next) => {
                self.woken = Ghost(self.woken@.insert(next.id));
                assert(self.woken@.contains(next.id));
                Some(next.waker)
            },
            None => None,
        }
    }
}

impl<T: Default> Default for LocalMutex<T> {
    fn default() -> (r: Self)
        ensures
            r.wf(),
            call_ensures(T::default, (), r@.value),
            !r@.locked,
            r@.queue.len() == 0,
    {
        Self::new(T::default())
    }
}

/// A future for the guard of a mutex.
pub struct LocalMutexLockFuture {
    registered: Option<Registration>,
    tag: Ghost<int>,
}

impl LocalMutexLockFuture {
    /// Which mutex the future waits for.
    pub closed spec fn tag(self) -> int {
        self.tag@
    }

    /// The future's place in the queue, if it has one.
    pub closed spec fn slot(self) -> Option<Registration> {
        self.registered
    }

    /// Polls the future. It is ready where the mutex is free, and waits in the
    /// queue otherwise.
    pub fn poll<T>(&mut self, mutex: &mut LocalMutex<T>, waker: &Waker) -> (r: Poll<
        LocalMutexGuard,
    >)
        requires
            old(mutex).wf(),
            old(self).tag() == old(mutex)@.tag,
        ensures
            final(mutex).wf(),
            final(self).tag() == old(self).tag(),
            r is Ready <==> !old(mutex)@.locked,
            r is Ready ==> r->Ready_0.tag() == old(mutex)@.tag,
            (final(mutex)@, final(self).slot()) == old(mutex)@.polled(old(self).slot(), *waker),
    {
        if let Some(guard) = mutex.try_lock() {
            if let Some(reg) = &self.registered {
                mutex.woken = Ghost(mutex.woken@.remove(reg.id));
            }
            mutex.waiters.deregister(&mut self.registered);
            return Poll::Ready(guard);
        }
        if let Some(reg) = &self.registered {
            mutex.woken = Ghost(mutex.woken@.remove(reg.id));
        }
        mutex.waiters.register(&mut mutex.next_id, &mut self.registered, (), waker);
        Poll::Pending
    }

    /// Gives up waiting. A future that had been woken passes its turn on:
    /// returns the waker to call.
    pub fn cancel<T>(self, mutex: &mut LocalMutex<T>) -> (r: Option<Waker>)
        requires
            old(mutex).wf(),
            self.tag() == old(mutex)@.tag,
        ensures
            final(mutex).wf(),
            self.slot() is None ==> r is None && final(mutex)@ == old(mutex)@,
            self.slot() is Some ==> {
                &&& final(mutex)@ == old(mutex)@.deregistered(self.slot()).next_woken()
                &&& r == old(mutex)@.deregistered(self.slot()).next_waker()
            },
    {
        let mut registered = self.registered;
        if let Some(reg) = &registered {
            mutex.woken = Ghost(mutex.woken@.remove(reg.id));
            mutex.waiters.deregister(&mut registered);
            mutex.wake_next()
        } else {
            None
        }
    }
}

/// The right to use the value of a mutex.
pub struct LocalMutexGuard {
    tag: Ghost<int>,
}

impl LocalMutexGuard {
    /// Which mutex the guard is of.
    pub closed spec fn tag(self) -> int {
        self.tag@
    }

    /// The value.
    pub fn deref<'a, T>(&self, mutex: &'a LocalMutex<T>) -> (r: &'a T)
        requires
            self.tag() == mutex@.tag,
        ensures
            *r == mutex@.value,
    {
        &mutex.value
    }

    /// The value, for change in place.
    pub fn deref_mut<'a, T>(&mut self, mutex: &'a mut LocalMutex<T>) -> (r: &'a mut T)
        requires
            old(mutex).wf(),
            old(self).tag() == old(mutex)@.tag,
        ensures
            *r == old(mutex)@.value,
            *final(self) == *old(self),
            final(mutex).wf(),
            final(mutex)@ == (MutexState { value: *final(r), ..old(mutex)@ }),
    {
        &mut mutex.value
    }
}

/// Trying to lock a mutex succeeds exactly where it is free. The mutex is locked
/// afterwards in any case, and neither its value nor its queue has changed.
pub proof fn law_what_trying_to_lock_does<T>(mutex: &mut LocalMutex<T>, r: Option<LocalMutexGuard>)
    requires
        call_ensures(LocalMutex::<T>::try_lock, (mutex,), r),
    ensures
        r is Some <==> !old(mutex)@.locked,
        final(mutex)@.locked,
        final(mutex)@.value == old(mutex)@.value,
        final(mutex)@.queue == old(mutex)@.queue,
        final(mutex)@.next_id == old(mutex)@.next_id,
        final(mutex)@.woken == old(mutex)@.woken,
{
}

/// Two attempts in a row never both succeed.
pub proof fn law_the_second_attempt_fails<T>(
    first: &mut LocalMutex<T>,
    a: Option<LocalMutexGuard>,
    second: &mut LocalMutex<T>,
    b: Option<LocalMutexGuard>,
)
    requires
        call_ensures(LocalMutex::<T>::try_lock, (first,), a),
        *old(second) == *final(first),
        call_ensures(LocalMutex::<T>::try_lock, (second,), b),
    ensures
        b is None,
{
}

/// Unlocking frees the mutex and wakes the future that came first, and no other.
/// Whoever tries to lock next succeeds.
pub proof fn law_what_unlocking_does<T>(
    mutex: &mut LocalMutex<T>,
    guard: LocalMutexGuard,
    r: Option<Waker>,
    next: &mut LocalMutex<T>,
    b: Option<LocalMutexGuard>,
)
    requires
        call_ensures(LocalMutex::<T>::unlock, (mutex, guard), r),
        *old(next) == *final(mutex),
        call_ensures(LocalMutex::<T>::try_lock, (next,), b),
    ensures
        b is Some,
        !final(mutex)@.locked,
        final(mutex)@.value == old(mutex)@.value,
        final(mutex)@.next_id == old(mutex)@.next_id,
        old(mutex)@.queue.len() == 0 ==> r is None && final(mutex)@.queue.len() == 0,
        old(mutex)@.queue.len() > 0 ==> {
            &&& r == Some(old(mutex)@.queue[0].waker)
            &&& final(mutex)@.queue == old(mutex)@.queue.drop_first()
        },
{
    if old(mutex)@.queue.len() > 0 {
        assert(final(mutex)@.queue =~= old(mutex)@.queue.drop_first());
    }
}

/// A future that is polled is ready exactly where the mutex is free, whoever
/// waits. A new future that is not ready waits behind all others; one that waits
/// already keeps its place, and is woken by the waker that it was last polled
/// with.
pub proof fn law_what_polling_does<T>(
    future: &mut LocalMutexLockFuture,
    mutex: &mut LocalMutex<T>,
    waker: &Waker,
    r: Poll<LocalMutexGuard>,
    i: int,
)
    requires
        waiters::distinct(old(mutex)@.queue),
        old(future).slot() is None ==> forall|k: int|
            0 <= k < old(mutex)@.queue.len() ==> (#[trigger] old(mutex)@.queue[k]).id != old(mutex)@.next_id,
        call_ensures(LocalMutexLockFuture::poll::<T>, (future, mutex, waker), r),
    ensures
        r is Ready <==> !old(mutex)@.locked,
        final(mutex)@.locked,
        final(mutex)@.value == old(mutex)@.value,
        r is Ready ==> {
            &&& final(future).slot() is None
            &&& old(future).slot() is None ==> final(mutex)@.queue == old(mutex)@.queue
            &&& old(future).slot() is Some && 0 <= i < old(mutex)@.queue.len() && old(mutex)@.queue[i].id == old(future).slot()->0.id ==> final(mutex)@.queue == old(mutex)@.queue.take(i) + old(mutex)@.queue.skip(i + 1)
        },
        r is Pending && old(future).slot() is None ==> {
            &&& final(mutex)@.queue.drop_last() == old(mutex)@.queue
            &&& final(mutex)@.queue.last().waker == *waker
            &&& final(future).slot() == Some(
                Registration { id: final(mutex)@.queue.last().id },
            )
        },
        r is Pending && old(future).slot() is Some ==> {
            &&& final(future).slot() == old(future).slot()
            &&& 0 <= i < old(mutex)@.queue.len() && old(mutex)@.queue[i].id == old(future).slot()->0.id ==> final(mutex)@.queue == old(mutex)@.queue.update(
                i,
                Waiter { waker: *waker, ..old(mutex)@.queue[i] },
            )
        },
{
    old(mutex)@.law_a_poll_locks_or_waits(old(future).slot(), *waker, i);
    if r is Pending && old(future).slot() is None {
        assert(final(mutex)@.queue.drop_last() =~= old(mutex)@.queue);
    }
}

/// A future that is given up is nowhere in the queue, wherever it stood, and all
/// others stay in their order. Where the mutex is free, its turn goes to the
/// first of those that are left; where it is locked, nobody is woken.
pub proof fn law_what_cancelling_does<T>(
    future: LocalMutexLockFuture,
    mutex: &mut LocalMutex<T>,
    r: Option<Waker>,
    i: int,
)
    requires
        waiters::distinct(old(mutex)@.queue),
        call_ensures(LocalMutexLockFuture::cancel::<T>, (future, mutex), r),
    ensures
        final(mutex)@.locked == old(mutex)@.locked,
        final(mutex)@.value == old(mutex)@.value,
        final(mutex)@.next_id == old(mutex)@.next_id,
        future.slot() is None ==> r is None && final(mutex)@.queue == old(mutex)@.queue,
        future.slot() is Some ==> forall|k: int|
            0 <= k < final(mutex)@.queue.len() ==> (#[trigger] final(mutex)@.queue[k]).id
                != future.slot()->0.id,
        future.slot() is Some && 0 <= i < old(mutex)@.queue.len() && old(mutex)@.queue[i].id
            == future.slot()->0.id ==> {
            let left = old(mutex)@.queue.take(i) + old(mutex)@.queue.skip(i + 1);
            &&& old(mutex)@.locked || left.len() == 0 ==> r is None && final(mutex)@.queue == left
            &&& !old(mutex)@.locked && left.len() > 0 ==> {
                &&& r == Some(left[0].waker)
                &&& final(mutex)@.queue == left.drop_first()
            }
        },
        future.slot() is Some && (forall|k: int|
            0 <= k < old(mutex)@.queue.len() ==> (#[trigger] old(mutex)@.queue[k]).id
                != future.slot()->0.id) ==> {
            &&& old(mutex)@.locked || old(mutex)@.queue.len() == 0 ==> r is None && final(mutex)@.queue == old(mutex)@.queue
            &&& !old(mutex)@.locked && old(mutex)@.queue.len() > 0 ==> {
                &&& r == Some(old(mutex)@.queue[0].waker)
                &&& final(mutex)@.queue == old(mutex)@.queue.drop_first()
            }
        },
{
    if future.slot() is Some {
        old(mutex)@.law_a_future_that_leaves_is_gone(future.slot()->0, i);
        let left = old(mutex)@.deregistered(future.slot());
        left.law_the_first_in_line_is_woken();
        assert(left.queue.len() > 0 ==> left.queue.skip(1) =~= left.queue.drop_first());
    }
}

/// A mutex is made free, with nobody in its queue, around the value it is given.
/// It hands the value back as it is, and shows it while it is free. It says whether it
/// is locked, and a guard sees its value.
pub proof fn law_what_is_put_in_comes_out<'a, T>(
    value: T,
    made: LocalMutex<T>,
    out: T,
    mutex: &'a LocalMutex<T>,
    locked: bool,
    shown: LocalMutexDebug<'a, T>,
    guard: LocalMutexGuard,
    seen: &'a T,
)
    requires
        call_ensures(LocalMutex::<T>::new, (value,), made),
        call_ensures(LocalMutex::<T>::into_inner, (made,), out),
        call_ensures(LocalMutex::<T>::is_locked, (mutex,), locked),
        call_ensures(LocalMutex::<T>::debug, (mutex,), shown),
        call_ensures(LocalMutexGuard::deref::<T>, (&guard, mutex), seen),
    ensures
        out == value,
        !made@.locked,
        made@.queue.len() == 0,
        made@.next_id == 0,
        locked == mutex@.locked,
        shown.locked == locked,
        locked ==> shown.value is None,
        !locked ==> shown.value is Some && *shown.value->0 == mutex@.value,
        *seen == mutex@.value,
{
}

} // verus!
