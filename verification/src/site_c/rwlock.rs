use vstd::prelude::*;

use std::task::Waker;

use crate::poll::Poll;
use crate::waiters;
use crate::waiters::{Registration, WaitList, Waiter};

verus! {

/// The state of a reader-writer lock, as contracts see it.
pub struct RwLockState<T> {
    /// How many readers hold the lock.
    pub readers: usize,
    /// Whether a writer holds the lock.
    pub writer: bool,
    pub value: T,
    /// The futures that wait to read, first come first.
    pub read_queue: Seq<Waiter<()>>,
    /// The futures that wait to write, first come first.
    pub write_queue: Seq<Waiter<()>>,
    /// The token for the next future that comes to wait.
    pub next_id: u64,
    /// The readers that have been taken out of their queue to be woken, and
    /// have neither been polled nor cancelled since.
    pub woken_readers: Set<u64>,
    /// The writers of which the same holds.
    pub woken_writers: Set<u64>,
    /// How many read guards have been handed out and not been given back.
    pub read_guards: nat,
    /// How many write guards have been handed out and not been given back.
    pub write_guards: nat,
    /// Which lock this is. Its guards and futures carry the same tag.
    pub tag: int,
}

/// The set of the tokens in `list`, together with `ids`.
pub open spec fn ids_with(ids: Set<u64>, list: Seq<Waiter<()>>) -> Set<u64> {
    ids.union(Set::new(|id: u64| waiters::has_id(list, id)))
}

/// `ids` without the token of `slot`.
pub open spec fn ids_without(ids: Set<u64>, slot: Option<Registration>) -> Set<u64> {
    match slot {
        Some(reg) => ids.remove(reg.id),
        None => ids,
    }
}

/// The wakers of the entries of `list`.
pub open spec fn wakers(list: Seq<Waiter<()>>) -> Seq<Waker> {
    list.map_values(|w: Waiter<()>| w.waker)
}

impl<T> RwLockState<T> {
    /// Whether nobody holds the lock.
    pub open spec fn free(self) -> bool {
        self.readers == 0 && !self.writer
    }

    /// The guards that are out are those of the holders.
    pub open spec fn guarded(self) -> bool {
        &&& self.writer ==> self.readers == 0
        &&& self.read_guards == self.readers
        &&& self.write_guards == if self.writer {
            1nat
        } else {
            0nat
        }
    }

    /// A writer excludes everybody else. Where the lock is free and writers
    /// wait, a writer has been woken; where it is free and readers wait, a
    /// writer or a reader has been woken.
    pub open spec fn inv(self) -> bool {
        &&& self.guarded()
        &&& self.free() && self.write_queue.len() > 0 ==> self.woken_writers != Set::<u64>::empty()
        &&& self.free() && self.read_queue.len() > 0 ==> self.woken_writers != Set::<u64>::empty()
            || self.woken_readers != Set::<u64>::empty()
    }

    /// The state after the next waiters have been woken, where the lock is
    /// free: the first writer if writers wait, otherwise all readers.
    pub open spec fn next_woken(self) -> Self {
        if !self.free() {
            self
        } else if self.write_queue.len() > 0 {
            RwLockState {
                write_queue: self.write_queue.skip(1),
                woken_writers: self.woken_writers.insert(self.write_queue[0].id),
                ..self
            }
        } else {
            RwLockState {
                read_queue: Seq::empty(),
                woken_readers: ids_with(self.woken_readers, self.read_queue),
                ..self
            }
        }
    }

    /// The wakers that waking the next waiters calls, in order.
    pub open spec fn next_wakers(self) -> Seq<Waker> {
        if !self.free() {
            Seq::empty()
        } else if self.write_queue.len() > 0 {
            seq![self.write_queue[0].waker]
        } else {
            wakers(self.read_queue)
        }
    }

    /// The state after a read guard has been handed out.
    pub open spec fn reading(self) -> Self {
        RwLockState {
            readers: (self.readers + 1) as usize,
            read_guards: self.read_guards + 1,
            ..self
        }
    }

    /// The state after the write guard has been handed out.
    pub open spec fn writing(self) -> Self {
        RwLockState { writer: true, write_guards: self.write_guards + 1, ..self }
    }

    /// The state after a read guard has been given back, before anyone is woken.
    pub open spec fn read_released(self) -> Self {
        RwLockState {
            readers: (self.readers - 1) as usize,
            read_guards: (self.read_guards - 1) as nat,
            ..self
        }
    }

    /// The state after the write guard has been given back, before anyone is
    /// woken.
    pub open spec fn write_released(self) -> Self {
        RwLockState { writer: false, write_guards: (self.write_guards - 1) as nat, ..self }
    }

    /// The state after a reader with registration `slot` has left its queue.
    pub open spec fn reader_left(self, slot: Option<Registration>) -> Self {
        RwLockState {
            read_queue: waiters::left(self.read_queue, slot),
            woken_readers: ids_without(self.woken_readers, slot),
            ..self
        }
    }

    /// The state after a writer with registration `slot` has left its queue.
    pub open spec fn writer_left(self, slot: Option<Registration>) -> Self {
        RwLockState {
            write_queue: waiters::left(self.write_queue, slot),
            woken_writers: ids_without(self.woken_writers, slot),
            ..self
        }
    }

    /// Whether a future for a read guard is ready: no writer holds the lock and
    /// none waits for it.
    pub open spec fn may_read(self) -> bool {
        !self.writer && self.write_queue.len() == 0
    }

    /// The state after a reader with registration `slot` has been polled with
    /// waker `waker`, and its registration. A reader that waits already keeps its
    /// place where `same` says that it waits with that waker, and goes to the back
    /// otherwise.
    pub open spec fn reader_polled(
        self,
        slot: Option<Registration>,
        waker: Waker,
        same: bool,
    ) -> (Self, Option<Registration>) {
        let woken_readers = ids_without(self.woken_readers, slot);
        if self.may_read() {
            (self.reader_left(slot).reading(), None)
        } else {
            (
                RwLockState {
                    read_queue: waiters::moved(
                        self.read_queue,
                        slot,
                        self.next_id,
                        (),
                        waker,
                        same,
                    ),
                    next_id: waiters::id_after(slot, self.next_id),
                    woken_readers,
                    ..self
                },
                Some(Registration { id: waiters::token(slot, self.next_id) }),
            )
        }
    }

    /// The state after a writer with registration `slot` has been polled with
    /// waker `waker`, and its registration. A writer that waits already keeps its
    /// place where `same` says that it waits with that waker, and goes to the back
    /// otherwise.
    pub open spec fn writer_polled(
        self,
        slot: Option<Registration>,
        waker: Waker,
        same: bool,
    ) -> (Self, Option<Registration>) {
        let woken_writers = ids_without(self.woken_writers, slot);
        if self.free() {
            (self.writer_left(slot).writing(), None)
        } else {
            (
                RwLockState {
                    write_queue: waiters::moved(
                        self.write_queue,
                        slot,
                        self.next_id,
                        (),
                        waker,
                        same,
                    ),
                    next_id: waiters::id_after(slot, self.next_id),
                    woken_writers,
                    ..self
                },
                Some(Registration { id: waiters::token(slot, self.next_id) }),
            )
        }
    }

    /// Readers share the lock: a future for a read guard is ready whenever no writer
    /// holds the lock and none waits for it, however many readers there are. A writer
    /// that holds it or waits keeps readers out.
    pub proof fn law_readers_share(self)
        ensures
            !self.writer && self.write_queue.len() == 0 ==> self.may_read(),
            self.writer || self.write_queue.len() > 0 ==> !self.may_read(),
            self.free() <==> self.readers == 0 && !self.writer,
    {
    }

    /// When nobody holds the lock, the writer that came first is woken, alone; where no
    /// writer waits, all readers are, in the order in which they came. Those who are
    /// woken leave their queue, and only they count as woken. While somebody holds the
    /// lock nobody is woken.
    pub proof fn law_who_is_woken(self)
        ensures
            ({
                let after = self.next_woken();
                &&& self.readers > 0 || self.writer ==> after == self && self.next_wakers()
                    == Seq::<Waker>::empty()
                &&& self.readers == 0 && !self.writer && self.write_queue.len() > 0 ==> {
                    &&& self.next_wakers() == seq![self.write_queue[0].waker]
                    &&& self.write_queue == seq![self.write_queue[0]] + after.write_queue
                    &&& forall|id: u64| #[trigger]
                        after.woken_writers.contains(id) <==> self.woken_writers.contains(id) || id
                            == self.write_queue[0].id
                    &&& after.read_queue == self.read_queue
                    &&& after.woken_readers == self.woken_readers
                }
                &&& self.readers == 0 && !self.writer && self.write_queue.len() == 0 ==> {
                    &&& self.next_wakers().len() == self.read_queue.len()
                    &&& forall|k: int|
                        0 <= k < self.read_queue.len() ==> #[trigger] self.next_wakers()[k]
                            == self.read_queue[k].waker
                    &&& after.read_queue.len() == 0
                    &&& forall|id: u64| #[trigger]
                        after.woken_readers.contains(id) <==> self.woken_readers.contains(id) || (
                        exists|k: int|
                            0 <= k < self.read_queue.len() && (#[trigger] self.read_queue[k]).id
                                == id)
                    &&& after.write_queue == self.write_queue
                    &&& after.woken_writers == self.woken_writers
                }
                &&& after.readers == self.readers
                &&& after.writer == self.writer
                &&& after.value == self.value
                &&& after.next_id == self.next_id
                &&& after.read_guards == self.read_guards
                &&& after.write_guards == self.write_guards
                &&& after.tag == self.tag
            }),
    {
        if self.readers == 0 && !self.writer && self.write_queue.len() > 0 {
            assert(self.write_queue =~= seq![self.write_queue[0]] + self.next_woken().write_queue);
        }
    }

    /// A guard that is handed out and given back leaves the lock as it was: it counts
    /// one reader more or one less, or takes the lock for the writer or frees it, and
    /// changes nothing else.
    pub proof fn law_a_guard_is_counted(self)
        ensures
            self.readers < usize::MAX ==> {
                &&& self.reading().readers == self.readers + 1
                &&& self.reading().read_guards == self.read_guards + 1
                &&& self.reading().read_released() == self
            },
            self.readers > 0 && self.read_guards > 0 ==> {
                &&& self.read_released().readers == self.readers - 1
                &&& self.read_released().read_guards == self.read_guards - 1
                &&& self.read_released().reading() == self
            },
            !self.writer ==> {
                &&& self.writing().writer
                &&& self.writing().write_guards == self.write_guards + 1
                &&& self.writing().write_released() == self
            },
            self.writer && self.write_guards > 0 ==> {
                &&& !self.write_released().writer
                &&& self.write_released().write_guards == self.write_guards - 1
                &&& self.write_released().writing() == self
            },
            self.reading() == (RwLockState {
                readers: self.reading().readers,
                read_guards: self.reading().read_guards,
                ..self
            }),
            self.writing() == (RwLockState {
                writer: self.writing().writer,
                write_guards: self.writing().write_guards,
                ..self
            }),
            self.read_released() == (RwLockState {
                readers: self.read_released().readers,
                read_guards: self.read_released().read_guards,
                ..self
            }),
            self.write_released() == (RwLockState {
                writer: self.write_released().writer,
                write_guards: self.write_released().write_guards,
                ..self
            }),
    {
    }

    /// A reader that has been cancelled, or has got its guard, is nowhere in its queue
    /// and does not count as woken. All others are where they were.
    pub proof fn law_a_reader_that_leaves_is_gone(self, reg: Registration, i: int)
        requires
            waiters::distinct(self.read_queue),
        ensures
            ({
                let after = self.reader_left(Some(reg));
                &&& forall|k: int|
                    0 <= k < after.read_queue.len() ==> (#[trigger] after.read_queue[k]).id != reg.id
                &&& 0 <= i < self.read_queue.len() && self.read_queue[i].id == reg.id
                    ==> after.read_queue == self.read_queue.take(i) + self.read_queue.skip(i + 1)
                &&& (forall|k: int|
                    0 <= k < self.read_queue.len() ==> (#[trigger] self.read_queue[k]).id != reg.id)
                    ==> after.read_queue == self.read_queue
                &&& forall|id: u64| #[trigger]
                    after.woken_readers.contains(id) <==> self.woken_readers.contains(id) && id != reg.id
                &&& after == (RwLockState {
                    read_queue: after.read_queue,
                    woken_readers: after.woken_readers,
                    ..self
                })
            }),
            self.reader_left(None) == self,
    {
        waiters::law_leaving_takes_one_entry(self.read_queue, reg);
    }

    /// A writer that has been cancelled, or has got its guard, is nowhere in its queue
    /// and does not count as woken. All others are where they were.
    pub proof fn law_a_writer_that_leaves_is_gone(self, reg: Registration, i: int)
        requires
            waiters::distinct(self.write_queue),
        ensures
            ({
                let after = self.writer_left(Some(reg));
                &&& forall|k: int|
                    0 <= k < after.write_queue.len() ==> (#[trigger] after.write_queue[k]).id != reg.id
                &&& 0 <= i < self.write_queue.len() && self.write_queue[i].id == reg.id
                    ==> after.write_queue == self.write_queue.take(i) + self.write_queue.skip(i + 1)
                &&& (forall|k: int|
                    0 <= k < self.write_queue.len() ==> (#[trigger] self.write_queue[k]).id != reg.id)
                    ==> after.write_queue == self.write_queue
                &&& forall|id: u64| #[trigger]
                    after.woken_writers.contains(id) <==> self.woken_writers.contains(id) && id != reg.id
                &&& after == (RwLockState {
                    write_queue: after.write_queue,
                    woken_writers: after.woken_writers,
                    ..self
                })
            }),
            self.writer_left(None) == self,
    {
        waiters::law_leaving_takes_one_entry(self.write_queue, reg);
    }

    /// A reader that is polled gets a guard exactly where no writer holds the lock and
    /// none waits, however many readers hold it, and no longer waits then. Otherwise
    /// it waits: behind all others where it is new or comes with another waker, and
    /// in its place where it comes with the same.
    pub proof fn law_a_reader_locks_or_waits(
        self,
        slot: Option<Registration>,
        waker: Waker,
        same: bool,
        i: int,
    )
        requires
            waiters::distinct(self.read_queue),
            self.readers < usize::MAX,
            slot is None ==> forall|k: int|
                0 <= k < self.read_queue.len() ==> (#[trigger] self.read_queue[k]).id
                    != self.next_id,
        ensures
            ({
                let (after, held) = self.reader_polled(slot, waker, same);
                let ready = !self.writer && self.write_queue.len() == 0;
                &&& after.value == self.value
                &&& after.tag == self.tag
                &&& after.write_queue == self.write_queue
                &&& after.woken_writers == self.woken_writers
                &&& held is None <==> ready
                &&& ready ==> {
                    &&& after.readers == self.readers + 1
                    &&& after.read_guards == self.read_guards + 1
                    &&& after.writer == self.writer
                    &&& after.write_guards == self.write_guards
                    &&& after.next_id == self.next_id
                    &&& slot is None ==> after.read_queue == self.read_queue
                    &&& slot is Some ==> {
                        &&& forall|k: int|
                            0 <= k < after.read_queue.len() ==> (#[trigger] after.read_queue[k]).id
                                != slot->0.id
                        &&& 0 <= i < self.read_queue.len() && self.read_queue[i].id == slot->0.id
                            ==> after.read_queue == self.read_queue.take(i)
                            + self.read_queue.skip(i + 1)
                        &&& (forall|k: int|
                            0 <= k < self.read_queue.len() ==> (#[trigger] self.read_queue[k]).id
                                != slot->0.id) ==> after.read_queue == self.read_queue
                    }
                }
                &&& !ready ==> {
                    &&& after.readers == self.readers
                    &&& after.writer == self.writer
                    &&& after.read_guards == self.read_guards
                    &&& after.write_guards == self.write_guards
                    &&& slot is None ==> {
                        &&& held == Some(Registration { id: self.next_id })
                        &&& after.read_queue == self.read_queue.push(
                            Waiter { id: self.next_id, request: (), waker },
                        )
                        &&& after.next_id as int == (self.next_id + 1) % 0x1_0000_0000_0000_0000
                    }
                    &&& slot is Some ==> {
                        &&& held == slot
                        &&& after.next_id == self.next_id
                        &&& 0 <= i < self.read_queue.len() && self.read_queue[i].id == slot->0.id
                            ==> after.read_queue == if same {
                            self.read_queue
                        } else {
                            (self.read_queue.take(i) + self.read_queue.skip(i + 1)).push(
                                Waiter { id: slot->0.id, request: (), waker },
                            )
                        }
                        &&& (forall|k: int|
                            0 <= k < self.read_queue.len() ==> (#[trigger] self.read_queue[k]).id
                                != slot->0.id) ==> after.read_queue == self.read_queue.push(
                            Waiter { id: slot->0.id, request: (), waker },
                        )
                    }
                }
                &&& slot is None ==> after.woken_readers == self.woken_readers
                &&& slot is Some ==> forall|id: u64| #[trigger]
                    after.woken_readers.contains(id) <==> self.woken_readers.contains(id) && id
                        != slot->0.id
            }),
    {
        waiters::law_coming_with_another_waker(
            self.read_queue,
            slot,
            self.next_id,
            (),
            waker,
            same,
        );
        if slot is Some {
            waiters::law_leaving_takes_one_entry(self.read_queue, slot->0);
            waiters::law_tokens_go_round(self.next_id, slot->0);
        }
    }

    /// A writer that is polled gets the guard exactly where nobody holds the lock, and
    /// no longer waits then. Otherwise it waits: behind all others where it is new or
    /// comes with another waker, and in its place where it comes with the same.
    pub proof fn law_a_writer_locks_or_waits(
        self,
        slot: Option<Registration>,
        waker: Waker,
        same: bool,
        i: int,
    )
        requires
            waiters::distinct(self.write_queue),
            slot is None ==> forall|k: int|
                0 <= k < self.write_queue.len() ==> (#[trigger] self.write_queue[k]).id
                    != self.next_id,
        ensures
            ({
                let (after, held) = self.writer_polled(slot, waker, same);
                let ready = !self.writer && self.readers == 0;
                &&& after.value == self.value
                &&& after.tag == self.tag
                &&& after.read_queue == self.read_queue
                &&& after.woken_readers == self.woken_readers
                &&& held is None <==> ready
                &&& ready ==> {
                    &&& after.writer
                    &&& after.write_guards == self.write_guards + 1
                    &&& after.readers == self.readers
                    &&& after.read_guards == self.read_guards
                    &&& after.next_id == self.next_id
                    &&& slot is None ==> after.write_queue == self.write_queue
                    &&& slot is Some ==> {
                        &&& forall|k: int|
                            0 <= k < after.write_queue.len() ==> (#[trigger] after.write_queue[k]).id
                                != slot->0.id
                        &&& 0 <= i < self.write_queue.len() && self.write_queue[i].id == slot->0.id
                            ==> after.write_queue == self.write_queue.take(i)
                            + self.write_queue.skip(i + 1)
                        &&& (forall|k: int|
                            0 <= k < self.write_queue.len() ==> (#[trigger] self.write_queue[k]).id
                                != slot->0.id) ==> after.write_queue == self.write_queue
                    }
                }
                &&& !ready ==> {
                    &&& after.readers == self.readers
                    &&& after.writer == self.writer
                    &&& after.read_guards == self.read_guards
                    &&& after.write_guards == self.write_guards
                    &&& slot is None ==> {
                        &&& held == Some(Registration { id: self.next_id })
                        &&& after.write_queue == self.write_queue.push(
                            Waiter { id: self.next_id, request: (), waker },
                        )
                        &&& after.next_id as int == (self.next_id + 1) % 0x1_0000_0000_0000_0000
                    }
                    &&& slot is Some ==> {
                        &&& held == slot
                        &&& after.next_id == self.next_id
                        &&& 0 <= i < self.write_queue.len() && self.write_queue[i].id == slot->0.id
                            ==> after.write_queue == if same {
                            self.write_queue
                        } else {
                            (self.write_queue.take(i) + self.write_queue.skip(i + 1)).push(
                                Waiter { id: slot->0.id, request: (), waker },
                            )
                        }
                        &&& (forall|k: int|
                            0 <= k < self.write_queue.len() ==> (#[trigger] self.write_queue[k]).id
                                != slot->0.id) ==> after.write_queue == self.write_queue.push(
                            Waiter { id: slot->0.id, request: (), waker },
                        )
                    }
                }
                &&& slot is None ==> after.woken_writers == self.woken_writers
                &&& slot is Some ==> forall|id: u64| #[trigger]
                    after.woken_writers.contains(id) <==> self.woken_writers.contains(id) && id
                        != slot->0.id
            }),
    {
        waiters::law_coming_with_another_waker(
            self.write_queue,
            slot,
            self.next_id,
            (),
            waker,
            same,
        );
        if slot is Some {
            waiters::law_leaving_takes_one_entry(self.write_queue, slot->0);
            waiters::law_tokens_go_round(self.next_id, slot->0);
        }
    }
}

/// A reader-writer lock for tasks of one thread that hold it across await
/// points. It prefers writers: a future for a read guard waits while a writer
/// waits.
///
/// A guard or a future of the lock does not borrow it: each operation is handed
/// the lock. Wakers are handed back to the caller, who calls them in order when
/// it no longer uses the lock.
pub struct LocalRwLock<T> {
    readers: usize,
    writer: bool,
    read_waiters: WaitList<()>,
    write_waiters: WaitList<()>,
    next_id: u64,
    value: T,
    woken_readers: Ghost<Set<u64>>,
    woken_writers: Ghost<Set<u64>>,
    read_guards: Ghost<nat>,
    write_guards: Ghost<nat>,
    tag: Ghost<int>,
}

impl<T> View for LocalRwLock<T> {
    type V = RwLockState<T>;

    closed spec fn view(&self) -> RwLockState<T> {
        RwLockState {
            readers: self.readers,
            writer: self.writer,
            value: self.value,
            read_queue: self.read_waiters@,
            write_queue: self.write_waiters@,
            next_id: self.next_id,
            woken_readers: self.woken_readers@,
            woken_writers: self.woken_writers@,
            read_guards: self.read_guards@,
            write_guards: self.write_guards@,
            tag: self.tag@,
        }
    }
}

/// What a lock shows of itself: the value only while it is free.
#[derive(Debug)]
pub struct LocalRwLockDebug<'a, T> {
    pub readers: usize,
    pub writer: bool,
    pub value: Option<&'a T>,
    pub locked: bool,
}

impl<T> LocalRwLock<T> {
    pub closed spec fn wf(self) -> bool {
        &&& self.read_waiters.wf()
        &&& self.write_waiters.wf()
        &&& self@.inv()
    }

    /// What holds of every lock: no token waits twice in a queue, readers and a
    /// writer never hold it at once, the guards that are out are those of the
    /// holders, and a free lock for which futures wait has woken one that has not
    /// answered yet, a writer if writers wait.
    pub proof fn law_exclusion_and_no_lost_wake(self)
        requires
            self.wf(),
        ensures
            waiters::distinct(self@.read_queue),
            waiters::distinct(self@.write_queue),
            self@.writer ==> self@.readers == 0,
            self@.read_guards == self@.readers,
            self@.write_guards == 1 <==> self@.writer,
            self@.write_guards <= 1,
            self@.write_guards == 1 ==> self@.read_guards == 0,
            self@.free() <==> self@.read_guards == 0 && self@.write_guards == 0,
            self@.free() && self@.write_queue.len() > 0 ==> self@.woken_writers != Set::<
                u64,
            >::empty(),
            self@.free() && self@.read_queue.len() > 0 ==> self@.woken_writers != Set::<
                u64,
            >::empty() || self@.woken_readers != Set::<u64>::empty(),
    {
        self.read_waiters.lemma_wf();
        self.write_waiters.lemma_wf();
    }

    /// Writers come first: while one waits no future for a read guard is ready,
    /// and when the lock comes free the first writer alone is woken. Readers are
    /// woken together.
    pub proof fn law_writers_first(self)
        ensures
            self@.write_queue.len() > 0 ==> !self@.may_read(),
            self@.write_queue.len() > 0 && self@.free() ==> self@.next_wakers()
                == seq![self@.write_queue[0].waker],
            self@.write_queue.len() == 0 && self@.free() ==> self@.next_wakers().len()
                == self@.read_queue.len() && self@.next_woken().read_queue.len() == 0,
    {
    }

    /// A free lock.
    pub fn new(value: T) -> (r: Self)
        ensures
            r.wf(),
            r@ == (RwLockState {
                readers: 0,
                writer: false,
                value,
                read_queue: Seq::empty(),
                write_queue: Seq::empty(),
                next_id: 0,
                woken_readers: Set::empty(),
                woken_writers: Set::empty(),
                read_guards: 0,
                write_guards: 0,
                tag: r@.tag,
            }),
    {
        LocalRwLock {
            readers: 0,
            writer: false,
            read_waiters: WaitList::new(),
            write_waiters: WaitList::new(),
            next_id: 0,
            value,
            woken_readers: Ghost(Set::empty()),
            woken_writers: Ghost(Set::empty()),
            read_guards: Ghost(0),
            write_guards: Ghost(0),
            tag: Ghost(arbitrary()),
        }
    }

    /// A future for a read guard. It waits its turn once it is polled.
    pub fn read(&self) -> (r: LocalRwLockReadFuture)
        ensures
            r.tag() == self@.tag,
            r.slot() is None,
    {
        LocalRwLockReadFuture { registered: None, tag: Ghost(self.tag@) }
    }

    /// A future for the write guard. It waits its turn once it is polled.
    pub fn write(&self) -> (r: LocalRwLockWriteFuture)
        ensures
            r.tag() == self@.tag,
            r.slot() is None,
    {
        LocalRwLockWriteFuture { registered: None, tag: Ghost(self.tag@) }
    }

    /// A read guard, where no writer holds the lock. Writers that wait are
    /// passed over.
    pub fn try_read(&mut self) -> (r: Option<LocalRwLockReadGuard>)
        requires
            old(self).wf(),
            old(self)@.readers < usize::MAX,
        ensures
            final(self).wf(),
            r is Some <==> !old(self)@.writer,
            r is Some ==> r->0.tag() == old(self)@.tag,
            final(self)@ == if old(self)@.writer {
                old(self)@
            } else {
                old(self)@.reading()
            },
    {
        if !self.writer {
            Some(self.add_reader())
        } else {
            None
        }
    }

    /// A read guard, where no writer holds the lock and none waits for it.
    fn try_read_fair(&mut self) -> (r: Option<LocalRwLockReadGuard>)
        requires
            old(self).wf(),
            old(self)@.readers < usize::MAX,
        ensures
            final(self).wf(),
            r is Some <==> old(self)@.may_read(),
            r is Some ==> r->0.tag() == old(self)@.tag,
            final(self)@ == if old(self)@.may_read() {
                old(self)@.reading()
            } else {
                old(self)@
            },
    {
        if !self.writer && self.write_waiters.is_empty() {
            Some(self.add_reader())
        } else {
            None
        }
    }

    fn add_reader(&mut self) -> (r: LocalRwLockReadGuard)
        requires
            old(self).wf(),
            !old(self)@.writer,
            old(self)@.readers < usize::MAX,
        ensures
            final(self).wf(),
            final(self)@ == old(self)@.reading(),
            r.tag() == old(self)@.tag,
    {
        self.readers = self.readers + 1;
        self.read_guards = Ghost((self.read_guards@ + 1) as nat);
        LocalRwLockReadGuard { tag: Ghost(self.tag@) }
    }

    /// The write guard, where the lock is free.
    pub fn try_write(&mut self) -> (r: Option<LocalRwLockWriteGuard>)
        requires
            old(self).wf(),
        ensures
            final(self).wf(),
            r is Some <==> old(self)@.free(),
            r is Some ==> r->0.tag() == old(self)@.tag,
            final(self)@ == if old(self)@.free() {
                old(self)@.writing()
            } else {
                old(self)@
            },
    {
        if self.readers == 0 && !self.writer {
            self.writer = true;
            self.write_guards = Ghost((self.write_guards@ + 1) as nat);
            Some(LocalRwLockWriteGuard { tag: Ghost(self.tag@) })
        } else {
            None
        }
    }

    /// Whether a writer holds the lock.
    pub fn is_write_locked(&self) -> (r: bool)
        ensures
            r == self@.writer,
    {
        self.writer
    }

    /// How many readers hold the lock.
    pub fn reader_count(&self) -> (r: usize)
        ensures
            r == self@.readers,
    {
        self.readers
    }

    /// Whether anyone holds the lock.
    pub fn is_locked(&self) -> (r: bool)
        ensures
            r == !self@.free(),
    {
        self.readers > 0 || self.writer
    }

    /// The value, once the lock is no longer needed.
    pub fn into_inner(self) -> (r: T)
        ensures
            r == self@.value,
    {
        self.value
    }

    /// The value, for change in place.
    pub fn get_mut(&mut self) -> (r: &mut T)
        requires
            old(self).wf(),
        ensures
            *r == old(self)@.value,
            final(self).wf(),
            final(self)@ == (RwLockState { value: *final(r), ..old(self)@ }),
    {
        &mut self.value
    }

    /// What can be shown of the lock: who holds it, and the value if nobody
    /// does.
    pub fn debug(&self) -> (r: LocalRwLockDebug<'_, T>)
        ensures
            r.readers == self@.readers,
            r.writer == self@.writer,
            r.locked == !self@.free(),
            r.value is Some <==> self@.free(),
            r.value is Some ==> *r.value->0 == self@.value,
    {
        let locked = self.is_locked();
        LocalRwLockDebug {
            readers: self.readers,
            writer: self.writer,
            value: if locked {
                None
            } else {
                Some(&self.value)
            },
            locked,
        }
    }

    /// Gives a read guard back. Returns the wakers to call.
    pub fn release_read(&mut self, guard: LocalRwLockReadGuard) -> (r: Vec<Waker>)
        requires
            old(self).wf(),
            old(self)@.readers > 0,
            guard.tag() == old(self)@.tag,
        ensures
            final(self).wf(),
            final(self)@ == old(self)@.read_released().next_woken(),
            r@ == old(self)@.read_released().next_wakers(),
    {
        self.readers = self.readers - 1;
        self.read_guards = Ghost((self.read_guards@ - 1) as nat);
        self.wake_next()
    }

    /// Gives the write guard back. Returns the wakers to call.
    pub fn release_write(&mut self, guard: LocalRwLockWriteGuard) -> (r: Vec<Waker>)
        requires
            old(self).wf(),
            old(self)@.writer,
            guard.tag() == old(self)@.tag,
        ensures
            final(self).wf(),
            final(self)@ == old(self)@.write_released().next_woken(),
            r@ == old(self)@.write_released().next_wakers(),
    {
        self.writer = false;
        self.write_guards = Ghost((self.write_guards@ - 1) as nat);
        self.wake_next()
    }

    /// Takes the next waiters out of their queue to be woken, where the lock is
    /// free: the first writer if writers wait, otherwise all readers. Returns
    /// their wakers.
    fn wake_next(&mut self) -> (r: Vec<Waker>)
        requires
            old(self).read_waiters.wf(),
            old(self).write_waiters.wf(),
            old(self)@.guarded(),
        ensures
            final(self).wf(),
            final(self)@ == old(self)@.next_woken(),
            r@ == old(self)@.next_wakers(),
    {
        let mut woken: Vec<Waker> = Vec::new();
        if self.writer || self.readers > 0 {
            return woken;
        }
        if let Some(next) = self.write_waiters.pop_front() {
            self.woken_writers = Ghost(self.woken_writers@.insert(next.id));
            assert(self.woken_writers@.contains(next.id));
            woken.push(next.waker);
            return woken;
        }
        let ghost all = self.read_waiters@;
        self.woken_readers = Ghost(ids_with(self.woken_readers@, all));
        let len: usize = self.read_waiters.len();
        let ghost before = *self;
        proof {
            assert(all.skip(0) =~= all);
            assert(wakers(all).take(0) =~= Seq::<Waker>::empty());
        }
        while woken.len() < len
            invariant
                self.read_waiters.wf(),
                len == all.len(),
                woken@.len() <= len,
                self.read_waiters@ == all.skip(woken@.len() as int),
                woken@ == wakers(all).take(woken@.len() as int),
                *self == (LocalRwLock { read_waiters: self.read_waiters, ..before }),
            decreases len - woken@.len(),
        {
            proof {
                let k = woken@.len() as int;
                assert(all.skip(k).skip(1) =~= all.skip(k + 1));
                assert(wakers(all).take(k).push(all[k].waker) =~= wakers(all).take(k + 1));
            }
            if let Some(next) = self.read_waiters.pop_front() {
                woken.push(next.waker);
            }
        }
        assert(self.read_waiters@ =~= Seq::<Waiter<()>>::empty());
        assert(woken@ =~= wakers(all));
        woken
    }
}

impl<T: Default> Default for LocalRwLock<T> {
    fn default() -> (r: Self)
        ensures
            r.wf(),
            call_ensures(T::default, (), r@.value),
            r@.free(),
            r@.read_queue.len() == 0,
            r@.write_queue.len() == 0,
    {
        Self::new(T::default())
    }
}

/// A future for a read guard of a lock.
pub struct LocalRwLockReadFuture {
    registered: Option<Registration>,
    tag: Ghost<int>,
}

impl LocalRwLockReadFuture {
    /// Which lock the future waits for.
    pub closed spec fn tag(self) -> int {
        self.tag@
    }

    /// The future's place in the queue of readers, if it has one.
    pub closed spec fn slot(self) -> Option<Registration> {
        self.registered
    }

    /// Polls the future. It is ready where no writer holds the lock or waits for
    /// it, and waits otherwise. A future that waits already goes to the back where
    /// it comes with another waker.
    pub fn poll<T>(&mut self, lock: &mut LocalRwLock<T>, waker: &Waker) -> (r: Poll<
        LocalRwLockReadGuard,
    >)
        requires
            old(lock).wf(),
            old(lock)@.readers < usize::MAX,
            old(self).tag() == old(lock)@.tag,
        ensures
            final(lock).wf(),
            final(self).tag() == old(self).tag(),
            r is Ready <==> old(lock)@.may_read(),
            r is Ready ==> r->Ready_0.tag() == old(lock)@.tag,
            exists|same: bool|
                {
                    &&& #[trigger] waiters::answers(
                        old(lock)@.read_queue,
                        old(self).slot(),
                        *waker,
                        same,
                    )
                    &&& (final(lock)@, final(self).slot()) == old(lock)@.reader_polled(
                        old(self).slot(),
                        *waker,
                        same,
                    )
                },
    {
        let same = lock.read_waiters.waits_with(&self.registered, waker);
        self.poll_if(lock, waker, same)
    }

    /// The same where `same` says whether the future waits with a waker that
    /// wakes the task that `waker` wakes.
    pub fn poll_if<T>(&mut self, lock: &mut LocalRwLock<T>, waker: &Waker, same: bool) -> (r: Poll<
        LocalRwLockReadGuard,
    >)
        requires
            old(lock).wf(),
            old(lock)@.readers < usize::MAX,
            old(self).tag() == old(lock)@.tag,
        ensures
            final(lock).wf(),
            final(self).tag() == old(self).tag(),
            r is Ready <==> old(lock)@.may_read(),
            r is Ready ==> r->Ready_0.tag() == old(lock)@.tag,
            (final(lock)@, final(self).slot()) == old(lock)@.reader_polled(
                old(self).slot(),
                *waker,
                same,
            ),
    {
        if let Some(guard) = lock.try_read_fair() {
            lock.woken_readers = Ghost(ids_without(lock.woken_readers@, self.registered));
            lock.read_waiters.deregister(&mut self.registered);
            return Poll::Ready(guard);
        }
        lock.woken_readers = Ghost(ids_without(lock.woken_readers@, self.registered));
        lock.read_waiters.register_if(
            &mut lock.next_id,
            &mut self.registered,
            (),
            waker,
            same,
        );
        Poll::Pending
    }

    /// Gives up waiting. A future that had been woken passes its turn on:
    /// returns the wakers to call.
    pub fn cancel<T>(self, lock: &mut LocalRwLock<T>) -> (r: Vec<Waker>)
        requires
            old(lock).wf(),
            self.tag() == old(lock)@.tag,
        ensures
            final(lock).wf(),
            self.slot() is None ==> r@.len() == 0 && final(lock)@ == old(lock)@,
            self.slot() is Some ==> {
                &&& final(lock)@ == old(lock)@.reader_left(self.slot()).next_woken()
                &&& r@ == old(lock)@.reader_left(self.slot()).next_wakers()
            },
    {
        let mut registered = self.registered;
        if registered.is_some() {
            lock.woken_readers = Ghost(ids_without(lock.woken_readers@, registered));
            lock.read_waiters.deregister(&mut registered);
            lock.wake_next()
        } else {
            Vec::new()
        }
    }
}

/// A future for the write guard of a lock.
pub struct LocalRwLockWriteFuture {
    registered: Option<Registration>,
    tag: Ghost<int>,
}

impl LocalRwLockWriteFuture {
    /// Which lock the future waits for.
    pub closed spec fn tag(self) -> int {
        self.tag@
    }

    /// The future's place in the queue of writers, if it has one.
    pub closed spec fn slot(self) -> Option<Registration> {
        self.registered
    }

    /// Polls the future. It is ready where the lock is free, and waits otherwise.
    /// A future that waits already goes to the back where it comes with another
    /// waker.
    pub fn poll<T>(&mut self, lock: &mut LocalRwLock<T>, waker: &Waker) -> (r: Poll<
        LocalRwLockWriteGuard,
    >)
        requires
            old(lock).wf(),
            old(self).tag() == old(lock)@.tag,
        ensures
            final(lock).wf(),
            final(self).tag() == old(self).tag(),
            r is Ready <==> old(lock)@.free(),
            r is Ready ==> r->Ready_0.tag() == old(lock)@.tag,
            exists|same: bool|
                {
                    &&& #[trigger] waiters::answers(
                        old(lock)@.write_queue,
                        old(self).slot(),
                        *waker,
                        same,
                    )
                    &&& (final(lock)@, final(self).slot()) == old(lock)@.writer_polled(
                        old(self).slot(),
                        *waker,
                        same,
                    )
                },
    {
        let same = lock.write_waiters.waits_with(&self.registered, waker);
        self.poll_if(lock, waker, same)
    }

    /// The same where `same` says whether the future waits with a waker that
    /// wakes the task that `waker` wakes.
    pub fn poll_if<T>(&mut self, lock: &mut LocalRwLock<T>, waker: &Waker, same: bool) -> (r: Poll<
        LocalRwLockWriteGuard,
    >)
        requires
            old(lock).wf(),
            old(self).tag() == old(lock)@.tag,
        ensures
            final(lock).wf(),
            final(self).tag() == old(self).tag(),
            r is Ready <==> old(lock)@.free(),
            r is Ready ==> r->Ready_0.tag() == old(lock)@.tag,
            (final(lock)@, final(self).slot()) == old(lock)@.writer_polled(
                old(self).slot(),
                *waker,
                same,
            ),
    {
        if let Some(guard) = lock.try_write() {
            lock.woken_writers = Ghost(ids_without(lock.woken_writers@, self.registered));
            lock.write_waiters.deregister(&mut self.registered);
            return Poll::Ready(guard);
        }
        lock.woken_writers = Ghost(ids_without(lock.woken_writers@, self.registered));
        lock.write_waiters.register_if(
            &mut lock.next_id,
            &mut self.registered,
            (),
            waker,
            same,
        );
        Poll::Pending
    }

    /// Gives up waiting. A future that had been woken passes its turn on:
    /// returns the wakers to call.
    pub fn cancel<T>(self, lock: &mut LocalRwLock<T>) -> (r: Vec<Waker>)
        requires
            old(lock).wf(),
            self.tag() == old(lock)@.tag,
        ensures
            final(lock).wf(),
            self.slot() is None ==> r@.len() == 0 && final(lock)@ == old(lock)@,
            self.slot() is Some ==> {
                &&& final(lock)@ == old(lock)@.writer_left(self.slot()).next_woken()
                &&& r@ == old(lock)@.writer_left(self.slot()).next_wakers()
            },
    {
        let mut registered = self.registered;
        if registered.is_some() {
            lock.woken_writers = Ghost(ids_without(lock.woken_writers@, registered));
            lock.write_waiters.deregister(&mut registered);
            lock.wake_next()
        } else {
            Vec::new()
        }
    }
}

/// The right to read the value of a lock.
pub struct LocalRwLockReadGuard {
    tag: Ghost<int>,
}

impl LocalRwLockReadGuard {
    /// Which lock the guard is of.
    pub closed spec fn tag(self) -> int {
        self.tag@
    }

    /// The value.
    pub fn deref<'a, T>(&self, lock: &'a LocalRwLock<T>) -> (r: &'a T)
        requires
            self.tag() == lock@.tag,
        ensures
            *r == lock@.value,
    {
        &lock.value
    }
}

/// The right to change the value of a lock.
pub struct LocalRwLockWriteGuard {
    tag: Ghost<int>,
}

impl LocalRwLockWriteGuard {
    /// Which lock the guard is of.
    pub closed spec fn tag(self) -> int {
        self.tag@
    }

    /// The value.
    pub fn deref<'a, T>(&self, lock: &'a LocalRwLock<T>) -> (r: &'a T)
        requires
            self.tag() == lock@.tag,
        ensures
            *r == lock@.value,
    {
        &lock.value
    }

    /// The value, for change in place.
    pub fn deref_mut<'a, T>(&mut self, lock: &'a mut LocalRwLock<T>) -> (r: &'a mut T)
        requires
            old(lock).wf(),
            old(self).tag() == old(lock)@.tag,
        ensures
            *r == old(lock)@.value,
            *final(self) == *old(self),
            final(lock).wf(),
            final(lock)@ == (RwLockState { value: *final(r), ..old(lock)@ }),
    {
        &mut lock.value
    }
}

/// Trying to read succeeds exactly where no writer holds the lock, however many
/// readers do and whoever waits; trying to write exactly where nobody holds it.
/// What fails changes nothing, and nobody in a queue moves.
pub proof fn law_what_trying_does<T>(
    lock: &mut LocalRwLock<T>,
    r: Option<LocalRwLockReadGuard>,
    other: &mut LocalRwLock<T>,
    w: Option<LocalRwLockWriteGuard>,
)
    requires
        old(lock)@.readers < usize::MAX,
        call_ensures(LocalRwLock::<T>::try_read, (lock,), r),
        call_ensures(LocalRwLock::<T>::try_write, (other,), w),
    ensures
        r is Some <==> !old(lock)@.writer,
        r is Some ==> final(lock)@.readers == old(lock)@.readers + 1 && !final(lock)@.writer,
        r is None ==> final(lock)@ == old(lock)@,
        final(lock)@.value == old(lock)@.value,
        final(lock)@.read_queue == old(lock)@.read_queue,
        final(lock)@.write_queue == old(lock)@.write_queue,
        w is Some <==> old(other)@.readers == 0 && !old(other)@.writer,
        w is Some ==> final(other)@.readers == 0 && final(other)@.writer,
        w is None ==> final(other)@ == old(other)@,
        final(other)@.value == old(other)@.value,
        final(other)@.read_queue == old(other)@.read_queue,
        final(other)@.write_queue == old(other)@.write_queue,
{
}

/// After a successful attempt to read, another one succeeds too, and one to write
/// fails. After a successful attempt to write, both fail.
pub proof fn law_who_shares_the_lock<T>(
    first: &mut LocalRwLock<T>,
    a: Option<LocalRwLockReadGuard>,
    b: Option<LocalRwLockWriteGuard>,
    reading: bool,
    second: &mut LocalRwLock<T>,
    c: Option<LocalRwLockReadGuard>,
    third: &mut LocalRwLock<T>,
    d: Option<LocalRwLockWriteGuard>,
)
    requires
        old(first)@.readers < usize::MAX,
        reading ==> call_ensures(LocalRwLock::<T>::try_read, (first,), a) && a is Some,
        !reading ==> call_ensures(LocalRwLock::<T>::try_write, (first,), b) && b is Some,
        *old(second) == *final(first),
        call_ensures(LocalRwLock::<T>::try_read, (second,), c),
        *old(third) == *final(first),
        call_ensures(LocalRwLock::<T>::try_write, (third,), d),
    ensures
        c is Some <==> reading,
        d is None,
{
}

/// A guard that is given back leaves one holder less. Once nobody holds the lock,
/// the writer that came first is woken, alone; where no writer waits, all readers
/// are, in the order in which they came. While readers are left nobody is woken.
pub proof fn law_what_releasing_does<T>(
    lock: &mut LocalRwLock<T>,
    read: LocalRwLockReadGuard,
    r: Vec<Waker>,
    other: &mut LocalRwLock<T>,
    write: LocalRwLockWriteGuard,
    s: Vec<Waker>,
)
    requires
        old(lock)@.readers > 0 && !old(lock)@.writer,
        call_ensures(LocalRwLock::<T>::release_read, (lock, read), r),
        old(other)@.readers == 0 && old(other)@.writer,
        call_ensures(LocalRwLock::<T>::release_write, (other, write), s),
    ensures
        final(lock)@.readers == old(lock)@.readers - 1,
        !final(lock)@.writer,
        final(lock)@.value == old(lock)@.value,
        final(lock)@.readers > 0 ==> {
            &&& r@.len() == 0
            &&& final(lock)@.write_queue == old(lock)@.write_queue
            &&& final(lock)@.read_queue == old(lock)@.read_queue
        },
        final(lock)@.readers == 0 && old(lock)@.write_queue.len() > 0 ==> {
            &&& r@ == seq![old(lock)@.write_queue[0].waker]
            &&& final(lock)@.write_queue == old(lock)@.write_queue.drop_first()
            &&& final(lock)@.read_queue == old(lock)@.read_queue
        },
        final(lock)@.readers == 0 && old(lock)@.write_queue.len() == 0 ==> {
            &&& r@.len() == old(lock)@.read_queue.len()
            &&& forall|k: int|
                0 <= k < r@.len() ==> #[trigger] r@[k] == old(lock)@.read_queue[k].waker
            &&& final(lock)@.write_queue.len() == 0
            &&& final(lock)@.read_queue.len() == 0
        },
        final(other)@.readers == 0,
        !final(other)@.writer,
        final(other)@.value == old(other)@.value,
        old(other)@.write_queue.len() > 0 ==> {
            &&& s@ == seq![old(other)@.write_queue[0].waker]
            &&& final(other)@.write_queue == old(other)@.write_queue.drop_first()
            &&& final(other)@.read_queue == old(other)@.read_queue
        },
        old(other)@.write_queue.len() == 0 ==> {
            &&& s@.len() == old(other)@.read_queue.len()
            &&& forall|k: int|
                0 <= k < s@.len() ==> #[trigger] s@[k] == old(other)@.read_queue[k].waker
            &&& final(other)@.write_queue.len() == 0
            &&& final(other)@.read_queue.len() == 0
        },
{
    old(lock)@.read_released().law_who_is_woken();
    old(other)@.write_released().law_who_is_woken();
    if old(lock)@.write_queue.len() > 0 {
        assert(old(lock)@.write_queue.skip(1) =~= old(lock)@.write_queue.drop_first());
    }
    if old(other)@.write_queue.len() > 0 {
        assert(old(other)@.write_queue.skip(1) =~= old(other)@.write_queue.drop_first());
    }
}

/// A reader that is polled is ready exactly where no writer holds the lock and none
/// waits, and then it is out of the queue and one more reads. Otherwise the holders
/// stay as they are, and it waits: behind all others where it is new.
pub proof fn law_what_polling_a_reader_does<T>(
    future: &mut LocalRwLockReadFuture,
    lock: &mut LocalRwLock<T>,
    waker: &Waker,
    r: Poll<LocalRwLockReadGuard>,
    i: int,
)
    requires
        waiters::distinct(old(lock)@.read_queue),
        old(lock)@.readers < usize::MAX,
        old(future).slot() is None ==> forall|k: int|
            0 <= k < old(lock)@.read_queue.len() ==> (#[trigger] old(lock)@.read_queue[k]).id
                != old(lock)@.next_id,
        call_ensures(LocalRwLockReadFuture::poll::<T>, (future, lock, waker), r),
    ensures
        r is Ready <==> !old(lock)@.writer && old(lock)@.write_queue.len() == 0,
        r is Ready <==> final(future).slot() is None,
        final(lock)@.value == old(lock)@.value,
        final(lock)@.writer == old(lock)@.writer,
        final(lock)@.write_queue == old(lock)@.write_queue,
        r is Ready ==> {
            &&& final(lock)@.readers == old(lock)@.readers + 1
            &&& old(future).slot() is None ==> final(lock)@.read_queue == old(lock)@.read_queue
            &&& old(future).slot() is Some && 0 <= i < old(lock)@.read_queue.len() && old(lock)@.read_queue[i].id
                == old(future).slot()->0.id ==> final(lock)@.read_queue == old(lock)@.read_queue.take(i)
                + old(lock)@.read_queue.skip(i + 1)
        },
        r is Pending ==> final(lock)@.readers == old(lock)@.readers,
        r is Pending && old(future).slot() is None ==> {
            &&& final(lock)@.read_queue.drop_last() == old(lock)@.read_queue
            &&& final(lock)@.read_queue.last().waker == *waker
            &&& final(future).slot() == Some(
                Registration { id: final(lock)@.read_queue.last().id },
            )
        },
        r is Pending && old(future).slot() is Some && 0 <= i < old(lock)@.read_queue.len()
            && old(lock)@.read_queue[i].id == old(future).slot()->0.id ==> {
            ||| final(lock)@.read_queue == old(lock)@.read_queue
            ||| final(lock)@.read_queue == (old(lock)@.read_queue.take(i)
                + old(lock)@.read_queue.skip(i + 1)).push(
                Waiter { waker: *waker, ..old(lock)@.read_queue[i] },
            )
        },
{
    let slot = old(future).slot();
    let same = choose|same: bool|
        {
            &&& #[trigger] waiters::answers(old(lock)@.read_queue, slot, *waker, same)
            &&& (final(lock)@, final(future).slot()) == old(lock)@.reader_polled(slot, *waker, same)
        };
    old(lock)@.law_a_reader_locks_or_waits(slot, *waker, same, i);
    if r is Pending && slot is None {
        assert(final(lock)@.read_queue.drop_last() =~= old(lock)@.read_queue);
    }
}

/// A writer that is polled is ready exactly where nobody holds the lock, and then it
/// is out of the queue and holds it. Otherwise the holders stay as they are, and it
/// waits: behind all others where it is new.
pub proof fn law_what_polling_a_writer_does<T>(
    future: &mut LocalRwLockWriteFuture,
    lock: &mut LocalRwLock<T>,
    waker: &Waker,
    r: Poll<LocalRwLockWriteGuard>,
    i: int,
)
    requires
        waiters::distinct(old(lock)@.write_queue),
        old(future).slot() is None ==> forall|k: int|
            0 <= k < old(lock)@.write_queue.len() ==> (#[trigger] old(lock)@.write_queue[k]).id
                != old(lock)@.next_id,
        call_ensures(LocalRwLockWriteFuture::poll::<T>, (future, lock, waker), r),
    ensures
        r is Ready <==> !old(lock)@.writer && old(lock)@.readers == 0,
        r is Ready <==> final(future).slot() is None,
        final(lock)@.value == old(lock)@.value,
        final(lock)@.readers == old(lock)@.readers,
        final(lock)@.read_queue == old(lock)@.read_queue,
        r is Ready ==> {
            &&& final(lock)@.writer
            &&& old(future).slot() is None ==> final(lock)@.write_queue == old(lock)@.write_queue
            &&& old(future).slot() is Some && 0 <= i < old(lock)@.write_queue.len() && old(lock)@.write_queue[i].id
                == old(future).slot()->0.id ==> final(lock)@.write_queue == old(lock)@.write_queue.take(i)
                + old(lock)@.write_queue.skip(i + 1)
        },
        r is Pending ==> final(lock)@.writer == old(lock)@.writer,
        r is Pending && old(future).slot() is None ==> {
            &&& final(lock)@.write_queue.drop_last() == old(lock)@.write_queue
            &&& final(lock)@.write_queue.last().waker == *waker
            &&& final(future).slot() == Some(
                Registration { id: final(lock)@.write_queue.last().id },
            )
        },
        r is Pending && old(future).slot() is Some && 0 <= i < old(lock)@.write_queue.len()
            && old(lock)@.write_queue[i].id == old(future).slot()->0.id ==> {
            ||| final(lock)@.write_queue == old(lock)@.write_queue
            ||| final(lock)@.write_queue == (old(lock)@.write_queue.take(i)
                + old(lock)@.write_queue.skip(i + 1)).push(
                Waiter { waker: *waker, ..old(lock)@.write_queue[i] },
            )
        },
{
    let slot = old(future).slot();
    let same = choose|same: bool|
        {
            &&& #[trigger] waiters::answers(old(lock)@.write_queue, slot, *waker, same)
            &&& (final(lock)@, final(future).slot()) == old(lock)@.writer_polled(slot, *waker, same)
        };
    old(lock)@.law_a_writer_locks_or_waits(slot, *waker, same, i);
    if r is Pending && slot is None {
        assert(final(lock)@.write_queue.drop_last() =~= old(lock)@.write_queue);
    }
}

/// A reader that is given up is nowhere in its queue, wherever it stood. Where the
/// lock is free, its turn goes on: to the writer that came first, or to all readers
/// that are left where no writer waits. Where somebody holds it, nobody is woken.
pub proof fn law_what_cancelling_a_reader_does<T>(
    future: LocalRwLockReadFuture,
    lock: &mut LocalRwLock<T>,
    r: Vec<Waker>,
    i: int,
)
    requires
        waiters::distinct(old(lock)@.read_queue),
        call_ensures(LocalRwLockReadFuture::cancel::<T>, (future, lock), r),
    ensures
        final(lock)@.value == old(lock)@.value,
        final(lock)@.readers == old(lock)@.readers,
        final(lock)@.writer == old(lock)@.writer,
        future.slot() is None ==> r@.len() == 0 && final(lock)@ == old(lock)@,
        future.slot() is Some ==> forall|k: int|
            0 <= k < final(lock)@.read_queue.len() ==> (#[trigger] final(lock)@.read_queue[k]).id
                != future.slot()->0.id,
        future.slot() is Some && 0 <= i < old(lock)@.read_queue.len() && old(lock)@.read_queue[i].id
            == future.slot()->0.id ==> {
            let left = old(lock)@.read_queue.take(i) + old(lock)@.read_queue.skip(i + 1);
            &&& old(lock)@.readers > 0 || old(lock)@.writer ==> {
                &&& r@.len() == 0
                &&& final(lock)@.read_queue == left
                &&& final(lock)@.write_queue == old(lock)@.write_queue
            }
            &&& old(lock)@.readers == 0 && !old(lock)@.writer && old(lock)@.write_queue.len() > 0
                ==> {
                &&& r@ == seq![old(lock)@.write_queue[0].waker]
                &&& final(lock)@.read_queue == left
                &&& final(lock)@.write_queue == old(lock)@.write_queue.drop_first()
            }
            &&& old(lock)@.readers == 0 && !old(lock)@.writer && old(lock)@.write_queue.len() == 0
                ==> {
                &&& r@.len() == left.len()
                &&& forall|k: int| 0 <= k < left.len() ==> #[trigger] r@[k] == left[k].waker
                &&& final(lock)@.read_queue.len() == 0
            }
        },
{
    if future.slot() is Some {
        old(lock)@.law_a_reader_that_leaves_is_gone(future.slot()->0, i);
        old(lock)@.reader_left(future.slot()).law_who_is_woken();
        if old(lock)@.write_queue.len() > 0 {
            assert(old(lock)@.write_queue.skip(1) =~= old(lock)@.write_queue.drop_first());
        }
    }
}

/// A writer that is given up is nowhere in its queue, wherever it stood. Where the
/// lock is free, its turn goes on: to the first writer that is left, or to all
/// readers where none is. Where somebody holds it, nobody is woken.
pub proof fn law_what_cancelling_a_writer_does<T>(
    future: LocalRwLockWriteFuture,
    lock: &mut LocalRwLock<T>,
    r: Vec<Waker>,
    i: int,
)
    requires
        waiters::distinct(old(lock)@.write_queue),
        call_ensures(LocalRwLockWriteFuture::cancel::<T>, (future, lock), r),
    ensures
        final(lock)@.value == old(lock)@.value,
        final(lock)@.readers == old(lock)@.readers,
        final(lock)@.writer == old(lock)@.writer,
        future.slot() is None ==> r@.len() == 0 && final(lock)@ == old(lock)@,
        future.slot() is Some ==> forall|k: int|
            0 <= k < final(lock)@.write_queue.len() ==> (#[trigger] final(lock)@.write_queue[k]).id
                != future.slot()->0.id,
        future.slot() is Some && 0 <= i < old(lock)@.write_queue.len() && old(lock)@.write_queue[i].id
            == future.slot()->0.id ==> {
            let left = old(lock)@.write_queue.take(i) + old(lock)@.write_queue.skip(i + 1);
            &&& old(lock)@.readers > 0 || old(lock)@.writer ==> {
                &&& r@.len() == 0
                &&& final(lock)@.write_queue == left
                &&& final(lock)@.read_queue == old(lock)@.read_queue
            }
            &&& old(lock)@.readers == 0 && !old(lock)@.writer && left.len() > 0 ==> {
                &&& r@ == seq![left[0].waker]
                &&& final(lock)@.write_queue == left.drop_first()
                &&& final(lock)@.read_queue == old(lock)@.read_queue
            }
            &&& old(lock)@.readers == 0 && !old(lock)@.writer && left.len() == 0 ==> {
                &&& r@.len() == old(lock)@.read_queue.len()
                &&& forall|k: int|
                    0 <= k < r@.len() ==> #[trigger] r@[k] == old(lock)@.read_queue[k].waker
                &&& final(lock)@.read_queue.len() == 0
            }
        },
{
    if future.slot() is Some {
        let left = old(lock)@.writer_left(future.slot());
        old(lock)@.law_a_writer_that_leaves_is_gone(future.slot()->0, i);
        left.law_who_is_woken();
        if left.write_queue.len() > 0 {
            assert(left.write_queue.skip(1) =~= left.write_queue.drop_first());
        }
    }
}

/// A lock is made free, with nobody in its queues, around the value it is given, and
/// says so. It hands the value back as it is.
pub proof fn law_what_a_lock_says_of_itself<T>(
    value: T,
    made: LocalRwLock<T>,
    out: T,
    lock: LocalRwLock<T>,
    count: usize,
    writing: bool,
    locked: bool,
)
    requires
        call_ensures(LocalRwLock::<T>::new, (value,), made),
        call_ensures(LocalRwLock::<T>::into_inner, (made,), out),
        call_ensures(LocalRwLock::<T>::reader_count, (&lock,), count),
        call_ensures(LocalRwLock::<T>::is_write_locked, (&lock,), writing),
        call_ensures(LocalRwLock::<T>::is_locked, (&lock,), locked),
    ensures
        out == value,
        made@.readers == 0 && !made@.writer,
        made@.read_queue.len() == 0 && made@.write_queue.len() == 0,
        count == lock@.readers,
        writing == lock@.writer,
        locked <==> count > 0 || writing,
{
}

} // verus!
