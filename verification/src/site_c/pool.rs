use vstd::layout;
use vstd::prelude::*;

use std::task::Waker;

use crate::poll::Poll;
use crate::site_c::semaphore::{Acquire, LocalSemaphore, SemaphoreState};
use crate::site_d::buffer::{AlignedBuffer, Zeroable};
use crate::waiters;
use crate::waiters::Registration;

verus! {

/// The state of a buffer pool, as contracts see it.
pub struct PoolState<T: Zeroable + Copy> {
    /// The buffers that can be taken. The last one is taken first.
    pub free: Seq<AlignedBuffer<T>>,
    /// The semaphore whose permits stand for the free buffers.
    pub sem: SemaphoreState,
    /// How many buffers are out.
    pub out: int,
    /// How many buffers the pool was made with.
    pub count: int,
}

impl<T: Zeroable + Copy> PoolState<T> {
    /// There is a permit for each free buffer, and each buffer is free or out.
    pub open spec fn inv(self) -> bool {
        &&& self.free.len() == self.sem.permits
        &&& self.free.len() + self.out == self.count
        &&& forall|i: int| 0 <= i < self.free.len() ==> (#[trigger] self.free[i]).wf()
    }

    /// Whether `buf` is what the pool hands out next: the last free buffer, with
    /// its items as they were and none of them meaningful.
    pub open spec fn hands_out(self, buf: AlignedBuffer<T>) -> bool {
        &&& buf.wf()
        &&& buf.mem() == self.free.last().mem()
        &&& buf.align() == self.free.last().align()
        &&& buf.address() == self.free.last().address()
        &&& buf@ == Seq::<T>::empty()
    }

    /// The state after a buffer has been handed out, where the semaphore has
    /// come to `sem`.
    pub open spec fn checked_out(self, sem: SemaphoreState) -> Self {
        PoolState { free: self.free.drop_last(), sem, out: self.out + 1, ..self }
    }

    /// The state after `buf` has been given back, before anyone is woken.
    pub open spec fn given_back(self, buf: AlignedBuffer<T>) -> Self {
        PoolState {
            free: self.free.push(buf),
            sem: self.sem.grown(1),
            out: self.out - 1,
            ..self
        }
    }

    /// A buffer that has been given back is the next to be handed out, with its
    /// items as they were left.
    pub proof fn law_a_returned_buffer_is_used_again(
        self,
        buf: AlignedBuffer<T>,
        next: AlignedBuffer<T>,
    )
        requires
            self.given_back(buf).hands_out(next),
        ensures
            next.mem() == buf.mem(),
            next.align() == buf.align(),
            next.address() == buf.address(),
            next@ == Seq::<T>::empty(),
    {
    }

    /// The buffer that is handed out is the one that came back last, with its items
    /// and its memory, and with none of them meaningful. It is no longer free.
    pub proof fn law_the_last_free_buffer_is_handed_out(
        self,
        buf: AlignedBuffer<T>,
        sem: SemaphoreState,
    )
        requires
            self.free.len() > 0,
        ensures
            self.hands_out(buf) ==> {
                &&& buf.wf()
                &&& buf.mem() == self.free[self.free.len() - 1].mem()
                &&& buf.address() == self.free[self.free.len() - 1].address()
                &&& buf.align() == self.free[self.free.len() - 1].align()
                &&& buf@.len() == 0
            },
            self.free == self.checked_out(sem).free.push(self.free[self.free.len() - 1]),
            self.checked_out(sem).out == self.out + 1,
            self.checked_out(sem).count == self.count,
            self.checked_out(sem).sem == sem,
    {
        assert(self.free =~= self.checked_out(sem).free.push(self.free[self.free.len() - 1]));
    }

    /// A buffer that is given back is free behind all others, as it was left, and one
    /// permit more can be taken. Nobody who waits loses their place.
    pub proof fn law_a_buffer_given_back_is_free(self, buf: AlignedBuffer<T>)
        requires
            self.sem.permits < usize::MAX,
        ensures
            self.given_back(buf).free == self.free.push(buf),
            self.given_back(buf).out == self.out - 1,
            self.given_back(buf).count == self.count,
            self.given_back(buf).sem.permits == self.sem.permits + 1,
            self.given_back(buf).sem.queue == self.sem.queue,
            self.given_back(buf).sem.notified == self.sem.notified,
            self.given_back(buf).sem.next_id == self.sem.next_id,
            self.given_back(buf).sem.tag == self.sem.tag,
            self.sem.queue.len() > 0 && self.sem.permits + 1 >= self.sem.queue[0].request
                ==> self.given_back(buf).sem.next_waker() == Some(self.sem.queue[0].waker),
    {
    }
}

/// A pool of buffers that are handed out and come back to be used again.
pub struct LocalBufferPool<T: Zeroable + Copy> {
    free: Vec<AlignedBuffer<T>>,
    sem: LocalSemaphore,
    out: Ghost<int>,
    count: Ghost<int>,
}

impl<T: Zeroable + Copy> View for LocalBufferPool<T> {
    type V = PoolState<T>;

    closed spec fn view(&self) -> PoolState<T> {
        PoolState { free: self.free@, sem: self.sem@, out: self.out@, count: self.count@ }
    }
}

impl<T: Zeroable + Copy> LocalBufferPool<T> {
    pub closed spec fn wf(self) -> bool {
        &&& self.sem.wf()
        &&& self@.inv()
    }

    /// A permit implies a free buffer, and no buffer is lost or made up.
    pub proof fn law_permits_are_free_buffers(self)
        requires
            self.wf(),
        ensures
            self@.free.len() == self@.sem.permits,
            self@.free.len() + self@.out == self@.count,
            waiters::distinct(self@.sem.queue),
            forall|i: int| 0 <= i < self@.free.len() ==> (#[trigger] self@.free[i]).wf(),
    {
        self.sem.law_permits_are_conserved();
    }

    /// A pool of `count` buffers of `buf_size` items each, with the alignment of
    /// the items.
    pub fn new(count: usize, buf_size: usize) -> (r: Self)
        requires
            count > 0 ==> AlignedBuffer::<T>::fits_items(buf_size as int),
        ensures
            r.wf(),
            r@.free.len() == count,
            forall|i: int|
                0 <= i < count ==> {
                    &&& (#[trigger] r@.free[i]).mem() == Seq::new(
                        buf_size as nat,
                        |j: int| T::zero_value(),
                    )
                    &&& r@.free[i].align() == layout::align_of::<T>()
                    &&& r@.free[i].address() as nat % layout::align_of::<T>() == 0
                },
            r@ == (PoolState {
                free: r@.free,
                sem: SemaphoreState::fresh(count, r@.sem.tag),
                out: 0,
                count: count as int,
            }),
    {
        proof {
            AlignedBuffer::<T>::law_own_alignment_fits(buf_size as int);
            if count > 0 {
                AlignedBuffer::<T>::law_where_items_can_be_placed(
                    buf_size as int,
                    layout::align_of::<T>() as int,
                );
            }
        }
        Self::with_alignment(count, buf_size, core::mem::align_of::<T>())
    }

    /// A pool of `count` buffers of `buf_size` items each, with alignment
    /// `align`. The items of each lie at a multiple of it where one is sure to be
    /// reached.
    pub fn with_alignment(count: usize, buf_size: usize, align: usize) -> (r: Self)
        requires
            count > 0 ==> AlignedBuffer::<T>::fits(buf_size as int, align as int),
        ensures
            r.wf(),
            r@.free.len() == count,
            forall|i: int|
                0 <= i < count ==> {
                    &&& (#[trigger] r@.free[i]).mem() == Seq::new(
                        buf_size as nat,
                        |j: int| T::zero_value(),
                    )
                    &&& r@.free[i].align() == align
                    &&& AlignedBuffer::<T>::placeable(buf_size as int, align as int)
                        ==> r@.free[i].address() as int % align as int == 0
                },
            r@ == (PoolState {
                free: r@.free,
                sem: SemaphoreState::fresh(count, r@.sem.tag),
                out: 0,
                count: count as int,
            }),
    {
        let mut free: Vec<AlignedBuffer<T>> = Vec::with_capacity(count);
        while free.len() < count
            invariant
                free@.len() <= count,
                count > 0 ==> AlignedBuffer::<T>::fits(buf_size as int, align as int),
                forall|i: int|
                    0 <= i < free@.len() ==> {
                        &&& (#[trigger] free@[i]).wf()
                        &&& free@[i].mem() == Seq::new(buf_size as nat, |j: int| T::zero_value())
                        &&& free@[i].align() == align
                        &&& AlignedBuffer::<T>::placeable(buf_size as int, align as int)
                            ==> free@[i].address() as int % align as int == 0
                    },
            decreases count - free@.len(),
        {
            free.push(AlignedBuffer::with_alignment(buf_size, align));
        }
        LocalBufferPool {
            free,
            sem: LocalSemaphore::new(count),
            out: Ghost(0),
            count: Ghost(count as int),
        }
    }

    /// How many buffers can be taken.
    pub fn available(&self) -> (r: usize)
        requires
            self.wf(),
        ensures
            r == self@.free.len(),
    {
        self.sem.available()
    }

    /// A buffer, if one can be taken. Futures that wait are passed over.
    pub fn try_acquire(&mut self) -> (r: Option<PooledBuffer<T>>)
        requires
            old(self).wf(),
        ensures
            final(self).wf(),
            r is Some <==> old(self)@.free.len() > 0,
            r is Some ==> old(self)@.hands_out(r->0.buf()) && r->0.tag() == old(self)@.sem.tag,
            final(self)@ == if old(self)@.free.len() > 0 {
                old(self)@.checked_out(old(self)@.sem.taken(1))
            } else {
                old(self)@
            },
    {
        match self.sem.try_acquire() {
            Some(permit) => {
                permit.forget();
                Some(self.check_out())
            },
            None => None,
        }
    }

    /// A future for a buffer. It waits its turn once it is polled.
    pub fn acquire(&self) -> (r: AcquireBuffer)
        ensures
            r.tag() == self@.sem.tag,
            r.n() == 1,
            r.slot() is None,
    {
        AcquireBuffer { permit: self.sem.acquire() }
    }

    /// Takes the buffer for a permit that has been acquired.
    fn check_out(&mut self) -> (r: PooledBuffer<T>)
        requires
            old(self).sem.wf(),
            old(self)@.free.len() == old(self)@.sem.permits + 1,
            old(self)@.free.len() + old(self)@.out == old(self)@.count,
            forall|i: int|
                0 <= i < old(self)@.free.len() ==> (#[trigger] old(self)@.free[i]).wf(),
        ensures
            final(self).wf(),
            old(self)@.hands_out(r.buf()),
            r.tag() == old(self)@.sem.tag,
            final(self)@ == old(self)@.checked_out(old(self)@.sem),
    {
        let ghost last = self.free@.last();
        match self.free.pop() {
            Some(buf) => {
                let mut buf = buf;
                buf.set_len(0);
                proof {
                    assert(buf@ =~= Seq::<T>::empty());
                    assert(self.free@ =~= old(self).free@.drop_last());
                }
                self.out = Ghost(self.out@ + 1);
                PooledBuffer { buf, tag: Ghost(self.sem@.tag) }
            },
            None => {
                assert(false);
                vstd::pervasive::unreached()
            },
        }
    }

    /// Gives a buffer back. Returns the waker to call.
    pub fn give_back(&mut self, buffer: PooledBuffer<T>) -> (r: Option<Waker>)
        requires
            old(self).wf(),
            old(self)@.free.len() < usize::MAX,
            buffer.buf().wf(),
            buffer.tag() == old(self)@.sem.tag,
        ensures
            final(self).wf(),
            final(self)@ == (PoolState {
                sem: old(self)@.given_back(buffer.buf()).sem.next_notified(),
                ..old(self)@.given_back(buffer.buf())
            }),
            r == old(self)@.given_back(buffer.buf()).sem.next_waker(),
    {
        self.free.push(buffer.buf);
        self.out = Ghost(self.out@ - 1);
        self.sem.add_permits(1)
    }
}

/// A future for a buffer of a pool.
pub struct AcquireBuffer {
    permit: Acquire,
}

impl AcquireBuffer {
    /// Which pool the future waits for.
    pub closed spec fn tag(self) -> int {
        self.permit.tag()
    }

    /// The future's place in the queue, if it has one.
    pub closed spec fn slot(self) -> Option<Registration> {
        self.permit.slot()
    }

    /// How many buffers the future asks for.
    pub closed spec fn n(self) -> usize {
        self.permit.n()
    }

    /// Polls the future. It is ready where a buffer is free and nobody is before
    /// it in the queue, and waits otherwise. Returns also the waker to call,
    /// where the next waiter can go on too.
    pub fn poll<T: Zeroable + Copy>(&mut self, pool: &mut LocalBufferPool<T>, waker: &Waker) -> (r: (
        Poll<PooledBuffer<T>>,
        Option<Waker>,
    ))
        requires
            old(pool).wf(),
            old(self).n() == 1,
            old(self).tag() == old(pool)@.sem.tag,
        ensures
            final(pool).wf(),
            final(self).tag() == old(self).tag(),
            final(self).n() == 1,
            (final(pool)@.sem, final(self).slot()) == old(pool)@.sem.polled(
                old(self).slot(),
                1,
                *waker,
            ),
            r.0 is Ready <==> old(pool)@.sem.may_acquire(1, old(self).slot()),
            r.0 is Ready ==> {
                &&& old(pool)@.hands_out(r.0->Ready_0.buf())
                &&& r.0->Ready_0.tag() == old(pool)@.sem.tag
                &&& r.1 == old(pool)@.sem.taken(1).deregistered(old(self).slot()).next_waker()
                &&& final(pool)@ == old(pool)@.checked_out(final(pool)@.sem)
            },
            r.0 is Pending ==> {
                &&& r.1 is None
                &&& final(pool)@ == (PoolState { sem: final(pool)@.sem, ..old(pool)@ })
            },
    {
        let (polled, next) = self.permit.poll(&mut pool.sem, waker);
        match polled {
            Poll::Ready(permit) => {
                permit.forget();
                (Poll::Ready(pool.check_out()), next)
            },
            Poll::Pending => (Poll::Pending, None),
        }
    }

    /// Gives up waiting. Others that the future kept waiting may go on: returns
    /// the waker to call.
    pub fn cancel<T: Zeroable + Copy>(self, pool: &mut LocalBufferPool<T>) -> (r: Option<Waker>)
        requires
            old(pool).wf(),
            self.tag() == old(pool)@.sem.tag,
        ensures
            final(pool).wf(),
            final(pool)@ == (PoolState { sem: final(pool)@.sem, ..old(pool)@ }),
            self.slot() is None ==> r is None && final(pool)@ == old(pool)@,
            self.slot() is Some ==> {
                &&& final(pool)@.sem == old(pool)@.sem.deregistered(self.slot()).next_notified()
                &&& r == old(pool)@.sem.deregistered(self.slot()).next_waker()
            },
    {
        self.permit.cancel(&mut pool.sem)
    }
}

/// A buffer that is out of its pool.
pub struct PooledBuffer<T: Zeroable + Copy> {
    buf: AlignedBuffer<T>,
    tag: Ghost<int>,
}

impl<T: Zeroable + Copy> PooledBuffer<T> {
    /// Which pool the buffer is of.
    pub closed spec fn tag(self) -> int {
        self.tag@
    }

    /// The buffer itself.
    pub closed spec fn buf(self) -> AlignedBuffer<T> {
        self.buf
    }

    /// The buffer itself.
    pub fn deref(&self) -> (r: &AlignedBuffer<T>)
        ensures
            *r == self.buf(),
    {
        &self.buf
    }

    /// The buffer itself, for change in place.
    pub fn deref_mut(&mut self) -> (r: &mut AlignedBuffer<T>)
        ensures
            *r == old(self).buf(),
            final(self).buf() == *final(r),
            final(self).tag() == old(self).tag(),
    {
        &mut self.buf
    }
}

/// Trying to take a buffer succeeds exactly where one is free, whoever waits. It is the
/// one that came back last, with its memory as it was left and no item meaningful.
pub proof fn law_what_trying_to_acquire_does<T: Zeroable + Copy>(
    pool: &mut LocalBufferPool<T>,
    r: Option<PooledBuffer<T>>,
)
    requires
        old(pool).wf(),
        call_ensures(LocalBufferPool::<T>::try_acquire, (pool,), r),
    ensures
        r is Some <==> old(pool)@.free.len() > 0,
        r is Some ==> {
            let last = old(pool)@.free[old(pool)@.free.len() - 1];
            &&& r->0.buf().mem() == last.mem()
            &&& r->0.buf().address() == last.address()
            &&& r->0.buf().align() == last.align()
            &&& r->0.buf()@.len() == 0
            &&& old(pool)@.free == final(pool)@.free.push(last)
            &&& final(pool)@.out == old(pool)@.out + 1
            &&& final(pool)@.sem.permits == old(pool)@.sem.permits - 1
        },
        r is None ==> final(pool)@ == old(pool)@,
        final(pool)@.sem.queue == old(pool)@.sem.queue,
        final(pool)@.count == old(pool)@.count,
{
    if r is Some {
        old(pool)@.law_the_last_free_buffer_is_handed_out(r->0.buf(), old(pool)@.sem.taken(1));
        old(pool)@.sem.law_permits_are_counted(1);
        old(pool).law_permits_are_free_buffers();
    }
}

/// A buffer that is given back is free behind all others, as it was left, and the waiter
/// at the front is woken. Whoever takes a buffer next gets this one.
pub proof fn law_what_giving_back_does<T: Zeroable + Copy>(
    pool: &mut LocalBufferPool<T>,
    buffer: PooledBuffer<T>,
    r: Option<Waker>,
    next: &mut LocalBufferPool<T>,
    s: Option<PooledBuffer<T>>,
)
    requires
        old(pool)@.sem.permits < usize::MAX,
        call_ensures(LocalBufferPool::<T>::give_back, (pool, buffer), r),
        *old(next) == *final(pool),
        call_ensures(LocalBufferPool::<T>::try_acquire, (next,), s),
    ensures
        final(pool)@.free == old(pool)@.free.push(buffer.buf()),
        final(pool)@.out == old(pool)@.out - 1,
        final(pool)@.count == old(pool)@.count,
        final(pool)@.sem.permits == old(pool)@.sem.permits + 1,
        final(pool)@.sem.queue == old(pool)@.sem.queue,
        r == if old(pool)@.sem.queue.len() > 0 && old(pool)@.sem.queue[0].request
            <= old(pool)@.sem.permits + 1 {
            Some(old(pool)@.sem.queue[0].waker)
        } else {
            None
        },
        s is Some,
        s->0.buf().mem() == buffer.buf().mem(),
        s->0.buf().address() == buffer.buf().address(),
        s->0.buf()@.len() == 0,
{
    old(pool)@.law_a_buffer_given_back_is_free(buffer.buf());
    old(pool)@.given_back(buffer.buf()).sem.law_who_is_notified();
}

/// A future for a buffer is ready exactly where one is free and nobody waits before it,
/// with the buffer that came back last. Otherwise no buffer moves: a new future waits
/// behind all others, one that waits already keeps its place.
pub proof fn law_what_polling_does<T: Zeroable + Copy>(
    future: &mut AcquireBuffer,
    pool: &mut LocalBufferPool<T>,
    waker: &Waker,
    r: (Poll<PooledBuffer<T>>, Option<Waker>),
    i: int,
)
    requires
        old(pool).wf(),
        old(future).slot() is None ==> forall|k: int|
            0 <= k < old(pool)@.sem.queue.len() ==> (#[trigger] old(pool)@.sem.queue[k]).id
                != old(pool)@.sem.next_id,
        call_ensures(AcquireBuffer::poll::<T>, (future, pool, waker), r),
    ensures
        ({
            let queue = old(pool)@.sem.queue;
            let slot = old(future).slot();
            let rest = if queue.len() == 0 {
                queue
            } else {
                queue.drop_first()
            };
            &&& r.0 is Ready <==> old(pool)@.free.len() > 0 && (queue.len() == 0 || slot is Some
                && slot->0.id == queue[0].id)
            &&& r.0 is Ready ==> {
                let last = old(pool)@.free[old(pool)@.free.len() - 1];
                &&& r.0->Ready_0.buf().mem() == last.mem()
                &&& r.0->Ready_0.buf().address() == last.address()
                &&& r.0->Ready_0.buf()@.len() == 0
                &&& old(pool)@.free == final(pool)@.free.push(last)
                &&& final(pool)@.out == old(pool)@.out + 1
                &&& final(pool)@.sem.queue == rest
                &&& final(future).slot() is None
                &&& r.1 == if rest.len() > 0 && rest[0].request <= old(pool)@.free.len() - 1 {
                    Some(rest[0].waker)
                } else {
                    None
                }
            }
            &&& r.0 is Pending ==> {
                &&& r.1 is None
                &&& final(pool)@.free == old(pool)@.free
                &&& final(pool)@.out == old(pool)@.out
                &&& final(pool)@.sem.permits == old(pool)@.sem.permits
            }
            &&& r.0 is Pending && slot is None ==> {
                &&& final(pool)@.sem.queue.drop_last() == queue
                &&& final(pool)@.sem.queue.last().request == 1
                &&& final(pool)@.sem.queue.last().waker == *waker
            }
            &&& r.0 is Pending && slot is Some ==> {
                &&& final(future).slot() == slot
                &&& 0 <= i < queue.len() && queue[i].id == slot->0.id
                    ==> final(pool)@.sem.queue == queue.update(
                    i,
                    waiters::Waiter { waker: *waker, ..queue[i] },
                )
            }
            &&& final(pool)@.count == old(pool)@.count
        }),
{
    let before = old(pool)@.sem;
    let slot = old(future).slot();
    old(pool).law_permits_are_free_buffers();
    before.law_a_poll_acquires_or_waits(slot, 1, *waker, i);
    before.law_who_may_acquire(1, slot);
    before.taken(1).deregistered(slot).law_who_is_notified();
    if slot is Some && before.queue.len() > 0 {
        before.taken(1).law_a_future_that_leaves_is_gone(slot->0, 0);
        assert(before.queue.take(0) + before.queue.skip(1) =~= before.queue.drop_first());
    }
    if before.queue.len() > 0 {
        assert(before.queue.skip(1) =~= before.queue.drop_first());
    }
    if r.0 is Ready {
        old(pool)@.law_the_last_free_buffer_is_handed_out(r.0->Ready_0.buf(), final(pool)@.sem);
    } else if slot is None {
        assert(final(pool)@.sem.queue.drop_last() =~= before.queue);
    }
}

/// A future that is given up is nowhere in the queue, and no buffer moves. The one that
/// is then at the front is woken exactly where there are buffers enough for it.
pub proof fn law_what_cancelling_does<T: Zeroable + Copy>(
    future: AcquireBuffer,
    pool: &mut LocalBufferPool<T>,
    r: Option<Waker>,
    i: int,
)
    requires
        old(pool).wf(),
        call_ensures(AcquireBuffer::cancel::<T>, (future, pool), r),
    ensures
        final(pool)@.free == old(pool)@.free,
        final(pool)@.out == old(pool)@.out,
        final(pool)@.sem.permits == old(pool)@.sem.permits,
        future.slot() is None ==> r is None && final(pool)@ == old(pool)@,
        future.slot() is Some ==> {
            let queue = final(pool)@.sem.queue;
            &&& forall|k: int|
                0 <= k < queue.len() ==> (#[trigger] queue[k]).id != future.slot()->0.id
            &&& 0 <= i < old(pool)@.sem.queue.len() && old(pool)@.sem.queue[i].id
                == future.slot()->0.id ==> queue == old(pool)@.sem.queue.take(i)
                + old(pool)@.sem.queue.skip(i + 1)
            &&& r == if queue.len() > 0 && queue[0].request <= old(pool)@.free.len() {
                Some(queue[0].waker)
            } else {
                None
            }
        },
{
    old(pool).law_permits_are_free_buffers();
    if future.slot() is Some {
        old(pool)@.sem.law_a_future_that_leaves_is_gone(future.slot()->0, i);
        old(pool)@.sem.deregistered(future.slot()).law_who_is_notified();
    }
}

/// A pool is made with as many buffers as it is given, all of them free and all items
/// zero, and says how many are free.
pub proof fn law_what_a_pool_is_made_with<T: Zeroable + Copy>(
    count: usize,
    buf_size: usize,
    made: LocalBufferPool<T>,
    pool: LocalBufferPool<T>,
    free: usize,
    i: int,
    j: int,
)
    requires
        call_ensures(LocalBufferPool::<T>::new, (count, buf_size), made),
        call_ensures(LocalBufferPool::<T>::available, (&pool,), free),
    ensures
        made@.free.len() == count,
        made@.out == 0,
        made@.sem.queue.len() == 0,
        0 <= i < count ==> made@.free[i].mem().len() == buf_size,
        0 <= i < count && 0 <= j < buf_size ==> made@.free[i].mem()[j] == T::zero_value(),
        free == pool@.free.len(),
{
    if 0 <= i < count {
        assert(made@.free[i].mem() == Seq::new(buf_size as nat, |k: int| T::zero_value()));
    }
}

} // verus!
