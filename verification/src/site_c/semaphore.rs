use vstd::prelude::*;

use std::task::Waker;

use crate::poll::Poll;
use crate::waiters;
use crate::waiters::{Registration, WaitList, Waiter};

verus! {

/// The state of a semaphore, as contracts see it.
pub struct SemaphoreState {
    /// The permits that can be taken.
    pub permits: usize,
    /// The futures that wait, first come first, each with the number of permits
    /// it asks for.
    pub queue: Seq<Waiter<usize>>,
    /// The token for the next future that comes to wait.
    pub next_id: u64,
    /// The futures that have been woken, and have neither been polled nor
    /// cancelled since.
    pub notified: Set<u64>,
    /// The permits that have been handed out and not been given back.
    pub held: int,
    /// The permits that there were at first and that have been added since.
    pub issued: int,
    /// Which semaphore this is. Its permits and futures carry the same tag.
    pub tag: int,
}

impl SemaphoreState {
    /// A semaphore with `permits` permits that has not been used.
    pub open spec fn fresh(permits: usize, tag: int) -> Self {
        SemaphoreState {
            permits,
            queue: Seq::empty(),
            next_id: 0,
            notified: Set::empty(),
            held: 0,
            issued: permits as int,
            tag,
        }
    }

    /// Each permit ever issued can be taken or is held.
    pub open spec fn inv(self) -> bool {
        self.permits + self.held == self.issued
    }

    /// Whether the front waiter can go on.
    pub open spec fn front_ready(self) -> bool {
        self.queue.len() > 0 && self.permits >= self.queue[0].request
    }

    /// A front waiter that can go on has been woken.
    pub open spec fn front_notified(self) -> bool {
        self.front_ready() ==> self.notified.contains(self.queue[0].id)
    }

    /// The state after the front waiter has been woken, where it can go on.
    pub open spec fn next_notified(self) -> Self {
        if self.front_ready() {
            SemaphoreState { notified: self.notified.insert(self.queue[0].id), ..self }
        } else {
            self
        }
    }

    /// The waker that waking the front waiter calls, if any.
    pub open spec fn next_waker(self) -> Option<Waker> {
        if self.front_ready() {
            Some(self.queue[0].waker)
        } else {
            None
        }
    }

    /// The state after `n` permits have been taken.
    pub open spec fn taken(self, n: usize) -> Self {
        SemaphoreState { permits: (self.permits - n) as usize, held: self.held + n, ..self }
    }

    /// The state after `n` permits have been given back, before anyone is woken.
    pub open spec fn given_back(self, n: usize) -> Self {
        SemaphoreState { permits: (self.permits + n) as usize, held: self.held - n, ..self }
    }

    /// The state after `n` permits have been added, before anyone is woken.
    pub open spec fn grown(self, n: usize) -> Self {
        SemaphoreState { permits: (self.permits + n) as usize, issued: self.issued + n, ..self }
    }

    /// The state after the future with registration `slot` has left the queue.
    pub open spec fn deregistered(self, slot: Option<Registration>) -> Self {
        SemaphoreState {
            queue: waiters::left(self.queue, slot),
            notified: match slot {
                Some(reg) => self.notified.remove(reg.id),
                None => self.notified,
            },
            ..self
        }
    }

    /// Whether a future with registration `slot` that asks for `n` permits is
    /// ready: they are there, and nobody is before it in the queue.
    pub open spec fn may_acquire(self, n: usize, slot: Option<Registration>) -> bool {
        &&& self.permits >= n
        &&& self.queue.len() == 0 || (slot is Some && slot->0.id == self.queue[0].id)
    }

    /// The state after a future with registration `slot` that asks for `n`
    /// permits has been polled with waker `waker`, and its registration. A future
    /// that waits already keeps its place.
    pub open spec fn polled(self, slot: Option<Registration>, n: usize, waker: Waker) -> (
        Self,
        Option<Registration>,
    ) {
        let notified = match slot {
            Some(reg) => self.notified.remove(reg.id),
            None => self.notified,
        };
        if self.may_acquire(n, slot) {
            (self.taken(n).deregistered(slot).next_notified(), None)
        } else {
            (
                SemaphoreState {
                    queue: waiters::entered(self.queue, slot, self.next_id, n, waker),
                    next_id: waiters::id_after(slot, self.next_id),
                    notified,
                    ..self
                },
                Some(Registration { id: waiters::token(slot, self.next_id) }),
            )
        }
    }

    /// Every change to the number of permits wakes the front waiter if it can
    /// then go on, and so does leaving the queue.
    pub proof fn law_changes_notify_the_front(self, n: usize, slot: Option<Registration>)
        ensures
            self.given_back(n).next_notified().front_notified(),
            self.grown(n).next_notified().front_notified(),
            self.deregistered(slot).next_notified().front_notified(),
            self.front_notified() && self.permits >= n ==> self.taken(n).front_notified(),
    {
    }

    /// Polling a future leaves no front waiter that can go on asleep, whatever
    /// waker it is polled with.
    pub proof fn law_polling_keeps_the_front_notified(
        self,
        slot: Option<Registration>,
        n: usize,
        waker: Waker,
    )
        requires
            waiters::distinct(self.queue),
            self.front_notified(),
            slot is Some ==> forall|i: int|
                0 <= i < self.queue.len() && (#[trigger] self.queue[i]).id == slot->0.id
                    ==> self.queue[i].request == n,
            slot is None ==> !waiters::has_id(self.queue, self.next_id),
        ensures
            self.polled(slot, n, waker).0.front_notified(),
    {
        let id = waiters::token(slot, self.next_id);
        waiters::lemma_without(self.queue, id);
        waiters::lemma_refreshed(self.queue, id, waker);
    }

    /// First come, first served: where a future that was polled is ready, nobody
    /// was before it in the queue, and those behind it keep their order. Where it
    /// is not, all that wait already keep their places, itself too, so that nobody
    /// who comes later gets before them.
    pub proof fn law_first_come_first_served(
        self,
        slot: Option<Registration>,
        n: usize,
        waker: Waker,
    )
        requires
            waiters::distinct(self.queue),
            slot is None ==> !waiters::has_id(self.queue, self.next_id),
        ensures
            self.may_acquire(n, slot) ==> self.polled(slot, n, waker).0.queue
                == if self.queue.len() == 0 {
                self.queue
            } else {
                self.queue.skip(1)
            },
            !self.may_acquire(n, slot) ==> {
                let after = self.polled(slot, n, waker).0.queue;
                &&& after.len() >= self.queue.len()
                &&& forall|i: int|
                    0 <= i < self.queue.len() ==> (#[trigger] after[i]).id == self.queue[i].id
                        && after[i].request == self.queue[i].request
            },
    {
        let id = waiters::token(slot, self.next_id);
        waiters::lemma_without(self.queue, id);
        waiters::lemma_refreshed(self.queue, id, waker);
    }

    /// A new semaphore has the permits that it was made with, all of them free, and
    /// nobody waits for it.
    pub proof fn law_a_new_semaphore_is_idle(permits: usize, tag: int)
        ensures
            SemaphoreState::fresh(permits, tag).permits == permits,
            SemaphoreState::fresh(permits, tag).held == 0,
            SemaphoreState::fresh(permits, tag).issued == permits,
            SemaphoreState::fresh(permits, tag).queue == Seq::<Waiter<usize>>::empty(),
            SemaphoreState::fresh(permits, tag).next_id == 0,
            SemaphoreState::fresh(permits, tag).notified == Set::<u64>::empty(),
            SemaphoreState::fresh(permits, tag).tag == tag,
    {
    }

    /// A future is ready exactly where its permits are there and nobody waits before
    /// it: at its first poll where the queue is empty, and later where it has come to
    /// the front.
    pub proof fn law_who_may_acquire(self, n: usize, slot: Option<Registration>)
        ensures
            self.permits >= n && self.queue.len() == 0 ==> self.may_acquire(n, slot),
            self.permits >= n && self.queue.len() > 0 && slot is Some && slot->0.id
                == self.queue[0].id ==> self.may_acquire(n, slot),
            self.permits < n ==> !self.may_acquire(n, slot),
            self.queue.len() > 0 && slot is None ==> !self.may_acquire(n, slot),
            self.queue.len() > 0 && slot is Some && slot->0.id != self.queue[0].id
                ==> !self.may_acquire(n, slot),
    {
    }

    /// Permits that are taken, given back or added are counted one by one, and nothing
    /// else changes. Giving back undoes taking.
    pub proof fn law_permits_are_counted(self, n: usize)
        ensures
            self.permits >= n ==> {
                &&& self.taken(n).permits == self.permits - n
                &&& self.taken(n).held == self.held + n
                &&& self.taken(n).given_back(n) == self
            },
            self.permits + n <= usize::MAX ==> {
                &&& self.given_back(n).permits == self.permits + n
                &&& self.given_back(n).held == self.held - n
                &&& self.grown(n).permits == self.permits + n
                &&& self.grown(n).issued == self.issued + n
                &&& self.given_back(n).taken(n) == self
            },
            self.taken(n) == (SemaphoreState {
                permits: self.taken(n).permits,
                held: self.taken(n).held,
                ..self
            }),
            self.given_back(n) == (SemaphoreState {
                permits: self.given_back(n).permits,
                held: self.given_back(n).held,
                ..self
            }),
            self.grown(n) == (SemaphoreState {
                permits: self.grown(n).permits,
                issued: self.grown(n).issued,
                ..self
            }),
    {
    }

    /// The waiter at the front is woken exactly where there are the permits that it
    /// asks for. It stays in the queue, and only then counts as notified.
    pub proof fn law_who_is_notified(self)
        ensures
            self.queue.len() > 0 && self.permits >= self.queue[0].request ==> {
                &&& self.next_waker() == Some(self.queue[0].waker)
                &&& forall|id: u64| #[trigger]
                    self.next_notified().notified.contains(id) <==> self.notified.contains(id)
                        || id == self.queue[0].id
            },
            self.queue.len() == 0 || self.permits < self.queue[0].request ==> {
                &&& self.next_waker() is None
                &&& self.next_notified() == self
            },
            self.next_notified() == (SemaphoreState {
                notified: self.next_notified().notified,
                ..self
            }),
    {
    }

    /// A future that has been cancelled, or has got its permits, is nowhere in the
    /// queue and does not count as notified. All others are where they were.
    pub proof fn law_a_future_that_leaves_is_gone(self, reg: Registration, i: int)
        requires
            waiters::distinct(self.queue),
        ensures
            ({
                let after = self.deregistered(Some(reg));
                &&& forall|k: int|
                    0 <= k < after.queue.len() ==> (#[trigger] after.queue[k]).id != reg.id
                &&& 0 <= i < self.queue.len() && self.queue[i].id == reg.id ==> after.queue
                    == self.queue.take(i) + self.queue.skip(i + 1)
                &&& (forall|k: int|
                    0 <= k < self.queue.len() ==> (#[trigger] self.queue[k]).id != reg.id)
                    ==> after.queue == self.queue
                &&& forall|id: u64| #[trigger]
                    after.notified.contains(id) <==> self.notified.contains(id) && id != reg.id
                &&& after == (SemaphoreState {
                    queue: after.queue,
                    notified: after.notified,
                    ..self
                })
            }),
            self.deregistered(None) == self,
    {
        waiters::law_leaving_takes_one_entry(self.queue, reg);
    }

    /// A future that is polled takes its permits exactly where they are there and
    /// nobody waits before it. It no longer waits then, and the next waiter is
    /// notified where the permits that are left are enough for it. Otherwise it
    /// waits: behind all others where it is new, in its place where it waits already;
    /// no permit moves, and nobody is notified.
    pub proof fn law_a_poll_acquires_or_waits(
        self,
        slot: Option<Registration>,
        n: usize,
        waker: Waker,
        i: int,
    )
        requires
            waiters::distinct(self.queue),
            slot is None ==> forall|k: int|
                0 <= k < self.queue.len() ==> (#[trigger] self.queue[k]).id != self.next_id,
        ensures
            ({
                let (after, held) = self.polled(slot, n, waker);
                let first = self.queue.len() == 0 || slot is Some && slot->0.id == self.queue[0].id;
                let rest = if self.queue.len() == 0 {
                    self.queue
                } else {
                    self.queue.skip(1)
                };
                &&& after.issued == self.issued
                &&& after.tag == self.tag
                &&& held is None <==> self.permits >= n && first
                &&& self.permits >= n && first ==> {
                    &&& after.permits == self.permits - n
                    &&& after.held == self.held + n
                    &&& after.queue == rest
                    &&& after.next_id == self.next_id
                    &&& forall|id: u64| #[trigger]
                        after.notified.contains(id) <==> {
                            ||| rest.len() > 0 && rest[0].id == id && self.permits - n
                                >= rest[0].request
                            ||| self.notified.contains(id) && !(slot is Some && slot->0.id == id)
                        }
                }
                &&& !(self.permits >= n && first) ==> {
                    &&& after.permits == self.permits
                    &&& after.held == self.held
                    &&& forall|id: u64| #[trigger]
                        after.notified.contains(id) <==> self.notified.contains(id) && !(slot is Some
                            && slot->0.id == id)
                    &&& slot is None ==> {
                        &&& held == Some(Registration { id: self.next_id })
                        &&& after.queue == self.queue.push(
                            Waiter { id: self.next_id, request: n, waker },
                        )
                        &&& after.next_id as int == (self.next_id + 1) % 0x1_0000_0000_0000_0000
                    }
                    &&& slot is Some ==> {
                        &&& held == slot
                        &&& after.next_id == self.next_id
                        &&& 0 <= i < self.queue.len() && self.queue[i].id == slot->0.id
                            ==> after.queue == self.queue.update(
                            i,
                            Waiter { id: slot->0.id, request: self.queue[i].request, waker },
                        )
                        &&& (forall|k: int|
                            0 <= k < self.queue.len() ==> (#[trigger] self.queue[k]).id
                                != slot->0.id) ==> after.queue == self.queue.push(
                            Waiter { id: slot->0.id, request: n, waker },
                        )
                    }
                }
            }),
    {
        waiters::law_coming_to_wait(self.queue, slot, self.next_id, n, waker);
        if slot is Some {
            waiters::law_leaving_takes_one_entry(self.queue, slot->0);
            waiters::law_tokens_go_round(self.next_id, slot->0);
            waiters::lemma_without(self.queue, slot->0.id);
        }
    }
}

/// A counting semaphore for tasks of one thread.
///
/// A permit or a future of the semaphore does not borrow it: each operation is
/// handed the semaphore. Wakers are handed back to the caller, who calls them
/// when it no longer uses the semaphore.
pub struct LocalSemaphore {
    permits: usize,
    waiters: WaitList<usize>,
    next_id: u64,
    notified: Ghost<Set<u64>>,
    held: Ghost<int>,
    issued: Ghost<int>,
    tag: Ghost<int>,
}

impl View for LocalSemaphore {
    type V = SemaphoreState;

    closed spec fn view(&self) -> SemaphoreState {
        SemaphoreState {
            permits: self.permits,
            queue: self.waiters@,
            next_id: self.next_id,
            notified: self.notified@,
            held: self.held@,
            issued: self.issued@,
            tag: self.tag@,
        }
    }
}

impl LocalSemaphore {
    pub closed spec fn wf(self) -> bool {
        &&& self.waiters.wf()
        &&& self@.inv()
    }

    /// No permit is lost or made up: those that can be taken and those that are
    /// held are all that were issued. No token waits twice.
    pub proof fn law_permits_are_conserved(self)
        requires
            self.wf(),
        ensures
            self@.permits + self@.held == self@.issued,
            waiters::distinct(self@.queue),
    {
        self.waiters.lemma_wf();
    }

    /// A semaphore with `permits` permits.
    pub fn new(permits: usize) -> (r: Self)
        ensures
            r.wf(),
            r@ == SemaphoreState::fresh(permits, r@.tag),
    {
        LocalSemaphore {
            permits,
            waiters: WaitList::new(),
            next_id: 0,
            notified: Ghost(Set::empty()),
            held: Ghost(0),
            issued: Ghost(permits as int),
            tag: Ghost(arbitrary()),
        }
    }

    /// The number of permits that can be taken.
    pub fn available(&self) -> (r: usize)
        ensures
            r == self@.permits,
    {
        self.permits
    }

    /// One permit, if there is one. Futures that wait are passed over.
    pub fn try_acquire(&mut self) -> (r: Option<Permit>)
        requires
            old(self).wf(),
        ensures
            final(self).wf(),
            r is Some <==> old(self)@.permits >= 1,
            r is Some ==> r->0.n() == 1 && r->0.tag() == old(self)@.tag,
            final(self)@ == if old(self)@.permits >= 1 {
                old(self)@.taken(1)
            } else {
                old(self)@
            },
    {
        self.try_acquire_many(1)
    }

    /// `n` permits, if there are as many. Futures that wait are passed over.
    pub fn try_acquire_many(&mut self, n: usize) -> (r: Option<Permit>)
        requires
            old(self).wf(),
        ensures
            final(self).wf(),
            r is Some <==> old(self)@.permits >= n,
            r is Some ==> r->0.n() == n && r->0.tag() == old(self)@.tag,
            final(self)@ == if old(self)@.permits >= n {
                old(self)@.taken(n)
            } else {
                old(self)@
            },
    {
        if self.permits >= n {
            Some(self.take(n))
        } else {
            None
        }
    }

    fn take(&mut self, n: usize) -> (r: Permit)
        requires
            old(self).wf(),
            old(self)@.permits >= n,
        ensures
            final(self).wf(),
            final(self)@ == old(self)@.taken(n),
            r.n() == n,
            r.tag() == old(self)@.tag,
    {
        self.permits = self.permits - n;
        self.held = Ghost(self.held@ + n);
        Permit { n, tag: Ghost(self.tag@) }
    }

    /// A future for one permit. It waits its turn once it is polled.
    pub fn acquire(&self) -> (r: Acquire)
        ensures
            r.tag() == self@.tag,
            r.n() == 1,
            r.slot() is None,
    {
        self.acquire_many(1)
    }

    /// A future for `n` permits. It waits its turn once it is polled.
    pub fn acquire_many(&self, n: usize) -> (r: Acquire)
        ensures
            r.tag() == self@.tag,
            r.n() == n,
            r.slot() is None,
    {
        Acquire { n, registered: None, tag: Ghost(self.tag@) }
    }

    /// Adds `n` permits. Returns the waker to call.
    pub fn add_permits(&mut self, n: usize) -> (r: Option<Waker>)
        requires
            old(self).wf(),
            old(self)@.permits + n <= usize::MAX,
        ensures
            final(self).wf(),
            final(self)@ == old(self)@.grown(n).next_notified(),
            r == old(self)@.grown(n).next_waker(),
    {
        self.permits = self.permits + n;
        self.issued = Ghost(self.issued@ + n);
        self.wake_next()
    }

    /// Gives permits back. Returns the waker to call.
    pub fn release(&mut self, permit: Permit) -> (r: Option<Waker>)
        requires
            old(self).wf(),
            old(self)@.permits + permit.n() <= usize::MAX,
            permit.tag() == old(self)@.tag,
        ensures
            final(self).wf(),
            final(self)@ == old(self)@.given_back(permit.n()).next_notified(),
            r == old(self)@.given_back(permit.n()).next_waker(),
    {
        self.permits = self.permits + permit.n;
        self.held = Ghost(self.held@ - permit.n);
        self.wake_next()
    }

    /// Whether a request for `n` permits by the future with token `id` can be
    /// met: the permits are there and nobody is before it in the queue.
    fn can_acquire_fair(&self, n: usize, slot: &Option<Registration>) -> (r: bool)
        requires
            self.wf(),
        ensures
            r == self@.may_acquire(n, *slot),
    {
        if self.permits < n {
            return false;
        }
        match self.waiters.front() {
            None => true,
            Some(front) => match slot {
                Some(reg) => reg.id == front.id,
                None => false,
            },
        }
    }

    /// Wakes the front waiter, where it can go on. It stays in the queue until
    /// it does. Returns its waker.
    fn wake_next(&mut self) -> (r: Option<Waker>)
        requires
            old(self).wf(),
        ensures
            final(self).wf(),
            final(self)@ == old(self)@.next_notified(),
            r == old(self)@.next_waker(),
    {
        match self.waiters.front() {
            Some(front) => if self.permits >= front.request {
                let waker = front.waker.clone();
                self.notified = Ghost(self.notified@.insert(self.waiters@[0].id));
                Some(waker)
            } else {
                None
            },
            None => None,
        }
    }
}

/// A future for permits of a semaphore.
pub struct Acquire {
    n: usize,
    registered: Option<Registration>,
    tag: Ghost<int>,
}

impl Acquire {
    /// Which semaphore the future waits for.
    pub closed spec fn tag(self) -> int {
        self.tag@
    }

    /// How many permits the future asks for.
    pub closed spec fn n(self) -> usize {
        self.n
    }

    /// The future's place in the queue, if it has one.
    pub closed spec fn slot(self) -> Option<Registration> {
        self.registered
    }

    /// Polls the future. It is ready where the permits are there and nobody is
    /// before it in the queue, and waits otherwise. Returns also the waker to
    /// call, where the permits that are left are enough for the next waiter.
    pub fn poll(&mut self, sem: &mut LocalSemaphore, waker: &Waker) -> (r: (
        Poll<Permit>,
        Option<Waker>,
    ))
        requires
            old(sem).wf(),
            old(self).tag() == old(sem)@.tag,
        ensures
            final(sem).wf(),
            final(self).tag() == old(self).tag(),
            final(self).n() == old(self).n(),
            r.0 is Ready <==> old(sem)@.may_acquire(old(self).n(), old(self).slot()),
            r.0 is Ready ==> {
                &&& r.0->Ready_0.n() == old(self).n()
                &&& r.0->Ready_0.tag() == old(sem)@.tag
                &&& r.1 == old(sem)@.taken(old(self).n()).deregistered(
                    old(self).slot(),
                ).next_waker()
            },
            r.0 is Pending ==> r.1 is None,
            (final(sem)@, final(self).slot()) == old(sem)@.polled(
                old(self).slot(),
                old(self).n(),
                *waker,
            ),
    {
        if sem.can_acquire_fair(self.n, &self.registered) {
            let permit = sem.take(self.n);
            if let Some(reg) = &self.registered {
                sem.notified = Ghost(sem.notified@.remove(reg.id));
            }
            sem.waiters.deregister(&mut self.registered);
            let next = sem.wake_next();
            return (Poll::Ready(permit), next);
        }
        if let Some(reg) = &self.registered {
            sem.notified = Ghost(sem.notified@.remove(reg.id));
        }
        sem.waiters.register(&mut sem.next_id, &mut self.registered, self.n, waker);
        (Poll::Pending, None)
    }

    /// Gives up waiting. Others that the future kept waiting may go on: returns
    /// the waker to call.
    pub fn cancel(self, sem: &mut LocalSemaphore) -> (r: Option<Waker>)
        requires
            old(sem).wf(),
            self.tag() == old(sem)@.tag,
        ensures
            final(sem).wf(),
            self.slot() is None ==> r is None && final(sem)@ == old(sem)@,
            self.slot() is Some ==> {
                &&& final(sem)@ == old(sem)@.deregistered(self.slot()).next_notified()
                &&& r == old(sem)@.deregistered(self.slot()).next_waker()
            },
    {
        let mut registered = self.registered;
        if let Some(reg) = &registered {
            sem.notified = Ghost(sem.notified@.remove(reg.id));
            sem.waiters.deregister(&mut registered);
            sem.wake_next()
        } else {
            None
        }
    }
}

/// Permits that are held.
pub struct Permit {
    n: usize,
    tag: Ghost<int>,
}

impl Permit {
    /// Which semaphore the permits are of.
    pub closed spec fn tag(self) -> int {
        self.tag@
    }

    /// How many permits these are.
    pub closed spec fn n(self) -> usize {
        self.n
    }

    /// How many permits these are.
    pub fn count(&self) -> (r: usize)
        ensures
            r == self.n(),
    {
        self.n
    }

    /// Keeps the permits from ever being given back.
    pub fn forget(self) {
    }
}

/// Trying to take permits succeeds exactly where there are as many, whoever waits,
/// and takes as many. Nothing changes otherwise, and the queue in no case.
pub proof fn law_what_trying_to_acquire_does(
    sem: &mut LocalSemaphore,
    n: usize,
    r: Option<Permit>,
    one: &mut LocalSemaphore,
    s: Option<Permit>,
)
    requires
        call_ensures(LocalSemaphore::try_acquire_many, (sem, n), r),
        call_ensures(LocalSemaphore::try_acquire, (one,), s),
    ensures
        r is Some <==> old(sem)@.permits >= n,
        r is Some ==> r->0.n() == n && final(sem)@.permits == old(sem)@.permits - n,
        r is None ==> final(sem)@.permits == old(sem)@.permits,
        final(sem)@.queue == old(sem)@.queue,
        final(sem)@.next_id == old(sem)@.next_id,
        final(sem)@.notified == old(sem)@.notified,
        final(sem)@.issued == old(sem)@.issued,
        s is Some <==> old(one)@.permits > 0,
        s is Some ==> s->0.n() == 1 && final(one)@.permits == old(one)@.permits - 1,
        s is None ==> final(one)@ == old(one)@,
        final(one)@.queue == old(one)@.queue,
{
}

/// Giving permits back, or adding some, makes as many more of them free, and wakes
/// the waiter at the front exactly where they are then enough for it. It keeps its
/// place in the queue.
pub proof fn law_what_more_permits_do(
    sem: &mut LocalSemaphore,
    permit: Permit,
    r: Option<Waker>,
    grown: &mut LocalSemaphore,
    n: usize,
    s: Option<Waker>,
)
    requires
        old(sem)@.permits + permit.n() <= usize::MAX,
        call_ensures(LocalSemaphore::release, (sem, permit), r),
        old(grown)@.permits + n <= usize::MAX,
        call_ensures(LocalSemaphore::add_permits, (grown, n), s),
    ensures
        final(sem)@.permits == old(sem)@.permits + permit.n(),
        final(sem)@.held == old(sem)@.held - permit.n(),
        final(sem)@.issued == old(sem)@.issued,
        final(sem)@.queue == old(sem)@.queue,
        r == if old(sem)@.queue.len() > 0 && old(sem)@.queue[0].request <= old(sem)@.permits
            + permit.n() {
            Some(old(sem)@.queue[0].waker)
        } else {
            None
        },
        final(grown)@.permits == old(grown)@.permits + n,
        final(grown)@.held == old(grown)@.held,
        final(grown)@.issued == old(grown)@.issued + n,
        final(grown)@.queue == old(grown)@.queue,
        s == if old(grown)@.queue.len() > 0 && old(grown)@.queue[0].request <= old(grown)@.permits
            + n {
            Some(old(grown)@.queue[0].waker)
        } else {
            None
        },
{
}

/// A future that is polled is ready exactly where its permits are there and nobody
/// waits before it; it is then out of the queue, and the next waiter is woken where
/// the permits that are left are enough for it. Otherwise no permit moves: a new
/// future waits behind all others, one that waits already keeps its place.
pub proof fn law_what_polling_does(
    future: &mut Acquire,
    sem: &mut LocalSemaphore,
    waker: &Waker,
    r: (Poll<Permit>, Option<Waker>),
    i: int,
)
    requires
        waiters::distinct(old(sem)@.queue),
        old(future).slot() is None ==> forall|k: int|
            0 <= k < old(sem)@.queue.len() ==> (#[trigger] old(sem)@.queue[k]).id != old(sem)@.next_id,
        call_ensures(Acquire::poll, (future, sem, waker), r),
    ensures
        ({
            let queue = old(sem)@.queue;
            let slot = old(future).slot();
            let n = old(future).n();
            let rest = if queue.len() == 0 {
                queue
            } else {
                queue.drop_first()
            };
            &&& r.0 is Ready <==> old(sem)@.permits >= n && (queue.len() == 0 || slot is Some
                && slot->0.id == queue[0].id)
            &&& r.0 is Ready ==> {
                &&& r.0->Ready_0.n() == n
                &&& final(future).slot() is None
                &&& final(sem)@.permits == old(sem)@.permits - n
                &&& final(sem)@.held == old(sem)@.held + n
                &&& final(sem)@.queue == rest
                &&& r.1 == if rest.len() > 0 && rest[0].request <= old(sem)@.permits - n {
                    Some(rest[0].waker)
                } else {
                    None
                }
            }
            &&& r.0 is Pending ==> {
                &&& r.1 is None
                &&& final(sem)@.permits == old(sem)@.permits
                &&& final(sem)@.held == old(sem)@.held
                &&& final(sem)@.notified.subset_of(old(sem)@.notified)
            }
            &&& r.0 is Pending && slot is None ==> {
                &&& final(sem)@.queue.drop_last() == queue
                &&& final(sem)@.queue.last().request == n
                &&& final(sem)@.queue.last().waker == *waker
                &&& final(future).slot() == Some(Registration { id: final(sem)@.queue.last().id })
            }
            &&& r.0 is Pending && slot is Some ==> {
                &&& final(future).slot() == slot
                &&& 0 <= i < queue.len() && queue[i].id == slot->0.id ==> final(sem)@.queue
                    == queue.update(i, Waiter { waker: *waker, ..queue[i] })
            }
            &&& final(sem)@.issued == old(sem)@.issued
            &&& final(future).n() == n
        }),
{
    let before = old(sem)@;
    before.law_a_poll_acquires_or_waits(old(future).slot(), old(future).n(), *waker, i);
    before.taken(old(future).n()).deregistered(old(future).slot()).law_who_is_notified();
    before.law_who_may_acquire(old(future).n(), old(future).slot());
    if old(future).slot() is Some && before.queue.len() > 0 {
        before.taken(old(future).n()).law_a_future_that_leaves_is_gone(old(future).slot()->0, 0);
        assert(before.queue.take(0) + before.queue.skip(1) =~= before.queue.drop_first());
    }
    if before.queue.len() > 0 {
        assert(before.queue.skip(1) =~= before.queue.drop_first());
    }
    if r.0 is Pending && old(future).slot() is None {
        assert(final(sem)@.queue.drop_last() =~= before.queue);
    }
}

/// A future that is given up is nowhere in the queue, wherever it stood, and all
/// others stay in their order. No permit moves. The one that is then at the front
/// is woken exactly where there are permits enough for it.
pub proof fn law_what_cancelling_does(
    future: Acquire,
    sem: &mut LocalSemaphore,
    r: Option<Waker>,
    i: int,
)
    requires
        waiters::distinct(old(sem)@.queue),
        call_ensures(Acquire::cancel, (future, sem), r),
    ensures
        final(sem)@.permits == old(sem)@.permits,
        final(sem)@.held == old(sem)@.held,
        final(sem)@.issued == old(sem)@.issued,
        final(sem)@.next_id == old(sem)@.next_id,
        future.slot() is None ==> r is None && final(sem)@.queue == old(sem)@.queue,
        future.slot() is Some ==> {
            let queue = final(sem)@.queue;
            &&& forall|k: int|
                0 <= k < queue.len() ==> (#[trigger] queue[k]).id != future.slot()->0.id
            &&& 0 <= i < old(sem)@.queue.len() && old(sem)@.queue[i].id == future.slot()->0.id
                ==> queue == old(sem)@.queue.take(i) + old(sem)@.queue.skip(i + 1)
            &&& (forall|k: int|
                0 <= k < old(sem)@.queue.len() ==> (#[trigger] old(sem)@.queue[k]).id
                    != future.slot()->0.id) ==> queue == old(sem)@.queue
            &&& r == if queue.len() > 0 && queue[0].request <= old(sem)@.permits {
                Some(queue[0].waker)
            } else {
                None
            }
        },
{
    if future.slot() is Some {
        old(sem)@.law_a_future_that_leaves_is_gone(future.slot()->0, i);
        old(sem)@.deregistered(future.slot()).law_who_is_notified();
    }
}

/// A semaphore is made with the permits that it is given, all of them free, and
/// says so. A new future asks for what it was made for, and does not wait yet.
pub proof fn law_what_a_semaphore_is_made_with(
    permits: usize,
    sem: LocalSemaphore,
    free: usize,
    n: usize,
    many: Acquire,
    one: Acquire,
    permit: Permit,
    count: usize,
)
    requires
        call_ensures(LocalSemaphore::new, (permits,), sem),
        call_ensures(LocalSemaphore::available, (&sem,), free),
        call_ensures(LocalSemaphore::acquire_many, (&sem, n), many),
        call_ensures(LocalSemaphore::acquire, (&sem,), one),
        call_ensures(Permit::count, (&permit,), count),
    ensures
        free == permits,
        sem@.queue.len() == 0,
        many.n() == n && many.slot() is None,
        one.n() == 1 && one.slot() is None,
        count == permit.n(),
{
}

} // verus!
