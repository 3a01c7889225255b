use vstd::prelude::*;
use vstd::std_specs::iter::IteratorSpec;

use std::collections::VecDeque;
use std::task::Waker;

use crate::poll::Poll;
use crate::site_d::notify::{SlotState, WaiterSlot};
use crate::waiters;
use crate::waiters::{Registration, WaitList, Waiter};

verus! {

/// How often a hot receiver looks again before it parks.
pub const RECV_SPIN: usize = 192;

/// How often a contender for a lock looks again before it yields its thread.
pub const LOCK_SPIN: u32 = 8;

/// How many times to spin, between 0 and 63, for a contender that has lost a
/// race for a lock and has drawn the number `seed`: the upper six bits of a
/// multiple of it.
pub fn jitter(seed: u32) -> (r: u32)
    ensures
        r < 64,
        r == (seed * 2654435761) % 0x1_0000_0000 / 0x400_0000,
{
    let mixed: u32 = seed.wrapping_mul(2654435761);
    assert((mixed >> 26u32) & 0x3F == mixed / 0x400_0000 && mixed / 0x400_0000 < 64)
        by (bit_vector);
    (mixed >> 26) & 0x3F
}

/// The number to draw after `seed`.
pub fn next_seed(seed: u32) -> (r: u32)
    ensures
        r == (seed + 0x6d2b79f5) % 0x1_0000_0000,
{
    seed.wrapping_add(0x6d2b79f5)
}

/// Whether a contender for a lock that has looked `spins` times looks again at
/// once. It yields its thread otherwise. Counts the look.
pub fn spins_again(spins: &mut u32) -> (r: bool)
    ensures
        r == (*old(spins) < LOCK_SPIN),
        *final(spins) == if *old(spins) < LOCK_SPIN {
            (*old(spins) + 1) as u32
        } else {
            *old(spins)
        },
{
    if *spins < LOCK_SPIN {
        *spins = *spins + 1;
        true
    } else {
        false
    }
}

/// Why `try_send` did not send. The item is handed back.
#[derive(Debug, PartialEq, Eq)]
pub enum TrySendError<T> {
    /// The channel is full.
    Full(T),
    /// The receiver has gone.
    Closed(T),
}

/// The receiver has gone. The item is handed back.
#[derive(Debug, PartialEq, Eq)]
pub struct SendError<T>(pub T);

/// Why `try_recv` did not receive.
#[derive(Debug, PartialEq, Eq, Structural)]
pub enum TryRecvError {
    /// There is no item now.
    Empty,
    /// All senders have gone, and there is no item left.
    Closed,
}

/// The state of a channel, as contracts see it.
pub struct ChannelState<T> {
    /// The items that the receiver has not fetched.
    pub queue: Seq<T>,
    pub cap: usize,
    /// The senders that are parked, first come first.
    pub waiters: Seq<Waiter<()>>,
    /// The token for the next sender that parks.
    pub next_id: u64,
    /// The senders that have been taken out of the queue of waiters to be
    /// woken, and have neither been polled nor cancelled since.
    pub woken: Set<u64>,
    /// The receiver, where it is parked.
    pub recv: SlotState,
    /// How many senders there are.
    pub senders: usize,
    /// Whether the receiver has gone.
    pub closed: bool,
    /// All items ever sent.
    pub sent: Seq<T>,
    /// All items ever fetched by the receiver.
    pub fetched: Seq<T>,
    /// Which channel this is. Its ends and futures carry the same tag.
    pub tag: int,
}

impl<T> ChannelState<T> {
    /// The queue is within its capacity, and holds all that was sent and not
    /// fetched. Nobody waits for a receiver that has gone.
    pub open spec fn in_order(self) -> bool {
        &&& 1 <= self.cap
        &&& self.queue.len() <= self.cap
        &&& self.recv.quiet()
        &&& self.sent == self.fetched + self.queue
        &&& self.closed ==> self.waiters.len() == 0
    }

    /// Besides, a parked receiver has been told of every item.
    pub open spec fn inv(self) -> bool {
        &&& self.in_order()
        &&& self.recv.armed ==> self.queue.len() == 0
    }

    pub open spec fn full(self) -> bool {
        self.queue.len() >= self.cap
    }

    /// Where senders are parked, the queue is empty and the receiver is parked,
    /// one of the senders has been woken.
    pub open spec fn senders_not_stranded(self) -> bool {
        self.waiters.len() > 0 && self.queue.len() == 0 && self.recv.armed ==> self.woken != Set::<
            u64,
        >::empty()
    }

    /// The state after `items` have been put in the queue, and the receiver has
    /// been signalled.
    pub open spec fn pushed(self, items: Seq<T>) -> Self {
        ChannelState {
            queue: self.queue + items,
            sent: self.sent + items,
            recv: self.recv.signalled(),
            ..self
        }
    }

    /// The state after the sender at the front has been taken out to be woken.
    pub open spec fn one_woken(self) -> Self {
        if self.waiters.len() == 0 {
            self
        } else {
            ChannelState {
                waiters: self.waiters.skip(1),
                woken: self.woken.insert(self.waiters[0].id),
                ..self
            }
        }
    }

    /// The waker of the sender at the front.
    pub open spec fn front_waker(self) -> Option<Waker> {
        if self.waiters.len() == 0 {
            None
        } else {
            Some(self.waiters[0].waker)
        }
    }

    /// The state after the receiver has fetched all there is. Where there is
    /// anything, it wakes a sender.
    pub open spec fn stolen(self) -> Self {
        if self.queue.len() == 0 {
            self
        } else {
            ChannelState {
                queue: Seq::empty(),
                fetched: self.fetched + self.queue,
                ..self.one_woken()
            }
        }
    }

    /// The waker that fetching calls, if any.
    pub open spec fn steal_waker(self) -> Option<Waker> {
        if self.queue.len() == 0 {
            None
        } else {
            self.front_waker()
        }
    }

    /// The state after the sender with token `parked` has left the queue of
    /// waiters.
    pub open spec fn unparked(self, parked: Option<u64>) -> Self {
        match parked {
            Some(id) => ChannelState {
                waiters: waiters::without(self.waiters, id),
                woken: self.woken.remove(id),
                ..self
            },
            None => self,
        }
    }

    /// The state after a sender has parked with waker `waker`.
    pub open spec fn parked(self, waker: Waker) -> Self {
        ChannelState {
            waiters: waiters::without(self.waiters, self.next_id).push(
                Waiter { id: self.next_id, request: (), waker },
            ),
            next_id: waiters::next_token(self.next_id),
            ..self
        }
    }

    /// The state after the receiver has parked with waker `waker`, and has woken
    /// a sender.
    pub open spec fn receiver_parked(self, waker: Waker) -> Self {
        ChannelState { recv: self.recv.armed_with(waker), ..self }.one_woken()
    }

    /// Items come out in the order in which they went in, whoever sent them: what
    /// has been fetched is the beginning of what has been sent, and the rest is
    /// in the queue.
    pub proof fn law_first_in_first_out(self)
        requires
            self.inv(),
        ensures
            self.fetched == self.sent.take(self.fetched.len() as int),
            self.queue == self.sent.skip(self.fetched.len() as int),
    {
        assert(self.fetched =~= self.sent.take(self.fetched.len() as int));
        assert(self.queue =~= self.sent.skip(self.fetched.len() as int));
    }

    /// A parked receiver that is sent something is woken.
    pub proof fn law_sending_wakes_the_receiver(self, waker: Waker, items: Seq<T>)
        requires
            self.inv(),
        ensures
            self.receiver_parked(waker).recv.signals() == Some(waker),
            self.receiver_parked(waker).pushed(items).recv.signals() is None,
    {
    }

    /// No sender is stranded: sending, parking, fetching, and the parking of the
    /// receiver keep it so that a sender has been woken where senders wait, the
    /// queue is empty and the receiver is parked. So does giving up, of a sender
    /// that has not been woken.
    pub proof fn law_no_sender_is_stranded(
        self,
        parked: Option<u64>,
        waker: Waker,
        items: Seq<T>,
    )
        requires
            self.inv(),
            self.senders_not_stranded(),
        ensures
            items.len() > 0 ==> self.unparked(parked).pushed(items).senders_not_stranded(),
            self.full() ==> self.unparked(parked).parked(waker).senders_not_stranded(),
            self.stolen().senders_not_stranded(),
            self.queue.len() == 0 ==> self.receiver_parked(waker).senders_not_stranded(),
            parked is Some && !self.woken.contains(parked->0) ==> self.unparked(
                parked,
            ).senders_not_stranded(),
    {
        if parked is Some {
            waiters::lemma_without(self.waiters, parked->0);
            if !self.woken.contains(parked->0) {
                assert(self.woken.remove(parked->0) =~= self.woken);
            }
        }
        if self.waiters.len() > 0 {
            assert(self.woken.insert(self.waiters[0].id).contains(self.waiters[0].id));
        }
    }

    /// What is sent, one item or many, goes behind all that is there, in its order, and
    /// counts as sent in that order. A parked receiver is told. Nothing else changes.
    pub proof fn law_a_send_goes_behind_what_is_there(self, items: Seq<T>)
        ensures
            self.pushed(items).queue.len() == self.queue.len() + items.len(),
            forall|i: int|
                0 <= i < self.queue.len() ==> #[trigger] self.pushed(items).queue[i]
                    == self.queue[i],
            forall|i: int|
                0 <= i < items.len() ==> self.pushed(items).queue[self.queue.len() + i]
                    == #[trigger] items[i],
            self.pushed(items).queue == self.queue + items,
            self.pushed(items).sent == self.sent + items,
            self.recv.armed ==> !self.pushed(items).recv.armed
                && self.pushed(items).recv.cell.waker is None,
            !self.recv.armed ==> self.pushed(items).recv == self.recv,
            self.pushed(items) == (ChannelState {
                queue: self.pushed(items).queue,
                sent: self.pushed(items).sent,
                recv: self.pushed(items).recv,
                ..self
            }),
    {
    }

    /// One order for all senders: of two sends the later one's items come behind the
    /// earlier one's, whoever sent them, and a batch comes out as its items one after
    /// another would.
    pub proof fn law_one_order_for_all_senders(self, first: Seq<T>, second: Seq<T>)
        ensures
            self.pushed(first).pushed(second).queue == self.queue + first + second,
            self.pushed(first).pushed(second).sent == self.sent + first + second,
            self.pushed(first).pushed(second).queue == self.pushed(first + second).queue,
            self.pushed(first).pushed(second).sent == self.pushed(first + second).sent,
    {
        assert(self.queue + first + second =~= self.queue + (first + second));
        assert(self.sent + first + second =~= self.sent + (first + second));
    }

    /// There is room exactly while fewer items are in the queue than it can hold.
    pub proof fn law_backpressure(self)
        ensures
            self.full() <==> !(self.queue.len() < self.cap),
    {
    }

    /// A fetch takes all that is there, in its order, and leaves the queue empty. Where
    /// there is anything, the sender that parked first is woken.
    pub proof fn law_a_fetch_takes_all_there_is(self)
        ensures
            self.stolen().queue.len() == 0,
            self.stolen().fetched == self.fetched + self.queue,
            self.stolen().sent == self.sent,
            self.queue.len() == 0 ==> self.stolen() == self && self.steal_waker() is None,
            self.queue.len() > 0 && self.waiters.len() == 0 ==> {
                &&& self.steal_waker() is None
                &&& self.stolen().waiters == self.waiters
                &&& self.stolen().woken == self.woken
            },
            self.queue.len() > 0 && self.waiters.len() > 0 ==> {
                &&& self.steal_waker() == Some(self.waiters[0].waker)
                &&& self.waiters == seq![self.waiters[0]] + self.stolen().waiters
                &&& forall|id: u64| #[trigger]
                    self.stolen().woken.contains(id) <==> self.woken.contains(id) || id
                        == self.waiters[0].id
            },
            self.stolen() == (ChannelState {
                queue: self.stolen().queue,
                fetched: self.stolen().fetched,
                waiters: self.stolen().waiters,
                woken: self.stolen().woken,
                ..self
            }),
    {
        assert(self.fetched + Seq::<T>::empty() =~= self.fetched);
        if self.queue.len() == 0 {
            assert(self.fetched + self.queue =~= self.fetched);
        } else if self.waiters.len() > 0 {
            assert(self.waiters =~= seq![self.waiters[0]] + self.stolen().waiters);
        }
    }

    /// The sender that parked first is the one that is woken. It leaves the queue of
    /// waiters, and nobody else does.
    pub proof fn law_the_first_parked_sender_is_woken(self)
        ensures
            self.waiters.len() == 0 ==> self.one_woken() == self && self.front_waker() is None,
            self.waiters.len() > 0 ==> {
                &&& self.front_waker() == Some(self.waiters[0].waker)
                &&& self.waiters == seq![self.waiters[0]] + self.one_woken().waiters
                &&& forall|id: u64| #[trigger]
                    self.one_woken().woken.contains(id) <==> self.woken.contains(id) || id
                        == self.waiters[0].id
            },
            self.one_woken() == (ChannelState {
                waiters: self.one_woken().waiters,
                woken: self.one_woken().woken,
                ..self
            }),
    {
        if self.waiters.len() > 0 {
            assert(self.waiters =~= seq![self.waiters[0]] + self.one_woken().waiters);
        }
    }

    /// A sender that gives up, or comes again, is no longer among the parked ones. All
    /// others are where they were.
    pub proof fn law_a_sender_that_leaves_is_gone(self, id: u64, i: int)
        requires
            waiters::distinct(self.waiters),
        ensures
            ({
                let after = self.unparked(Some(id));
                &&& forall|k: int|
                    0 <= k < after.waiters.len() ==> (#[trigger] after.waiters[k]).id != id
                &&& 0 <= i < self.waiters.len() && self.waiters[i].id == id ==> after.waiters
                    == self.waiters.take(i) + self.waiters.skip(i + 1)
                &&& (forall|k: int|
                    0 <= k < self.waiters.len() ==> (#[trigger] self.waiters[k]).id != id)
                    ==> after.waiters == self.waiters
                &&& forall|other: u64| #[trigger]
                    after.woken.contains(other) <==> self.woken.contains(other) && other != id
                &&& after == (ChannelState {
                    waiters: after.waiters,
                    woken: after.woken,
                    ..self
                })
            }),
            self.unparked(None) == self,
    {
        waiters::law_leaving_takes_one_entry(self.waiters, Registration { id });
    }

    /// A sender parks behind all that are parked, under the next token. No item moves.
    pub proof fn law_a_sender_parks_behind_the_others(self, waker: Waker)
        requires
            forall|k: int|
                0 <= k < self.waiters.len() ==> (#[trigger] self.waiters[k]).id != self.next_id,
        ensures
            self.parked(waker).waiters == self.waiters.push(
                Waiter { id: self.next_id, request: (), waker },
            ),
            self.parked(waker).next_id as int == (self.next_id + 1) % 0x1_0000_0000_0000_0000,
            self.parked(waker) == (ChannelState {
                waiters: self.parked(waker).waiters,
                next_id: self.parked(waker).next_id,
                ..self
            }),
    {
        waiters::lemma_without(self.waiters, self.next_id);
    }

    /// A receiver that parks is woken by the next signal, with the waker that it parked
    /// with, and wakes the sender that parked first. No item moves.
    pub proof fn law_a_parked_receiver_waits_for_a_signal(self, waker: Waker)
        ensures
            ({
                let after = self.receiver_parked(waker);
                &&& after.recv.armed
                &&& after.recv.cell.waker == Some(waker)
                &&& after.recv.cell.state == 0
                &&& self.waiters.len() == 0 ==> after.waiters == self.waiters && after.woken
                    == self.woken
                &&& self.waiters.len() > 0 ==> {
                    &&& self.waiters == seq![self.waiters[0]] + after.waiters
                    &&& forall|id: u64| #[trigger]
                        after.woken.contains(id) <==> self.woken.contains(id) || id
                            == self.waiters[0].id
                }
                &&& after == (ChannelState {
                    recv: after.recv,
                    waiters: after.waiters,
                    woken: after.woken,
                    ..self
                })
            }),
    {
        if self.waiters.len() > 0 {
            assert(self.waiters =~= seq![self.waiters[0]] + self.receiver_parked(waker).waiters);
        }
    }
}

/// A channel from many senders to one receiver, with room for a number of items.
///
/// The ends do not hold the channel: each operation is handed it. Wakers are
/// handed back to the caller, who calls them when it no longer uses the channel.
pub struct Channel<T> {
    nonempty: usize,
    cap: usize,
    queue: VecDeque<T>,
    waiters: WaitList<()>,
    next_id: u64,
    recv: WaiterSlot,
    senders: usize,
    closed: bool,
    woken: Ghost<Set<u64>>,
    sent: Ghost<Seq<T>>,
    fetched: Ghost<Seq<T>>,
    tag: Ghost<int>,
}

impl<T> View for Channel<T> {
    type V = ChannelState<T>;

    closed spec fn view(&self) -> ChannelState<T> {
        ChannelState {
            queue: self.queue@,
            cap: self.cap,
            waiters: self.waiters@,
            next_id: self.next_id,
            woken: self.woken@,
            recv: self.recv@,
            senders: self.senders,
            closed: self.closed,
            sent: self.sent@,
            fetched: self.fetched@,
            tag: self.tag@,
        }
    }
}

/// Why an item was not put in the queue.
enum PushParked<T> {
    /// It is full, and the sender has been parked under this token.
    Full(T, u64),
    /// The receiver has gone.
    Closed(T),
}

/// Puts the items of an iterator at the back of `queue`.
fn append_items<T, I: Iterator<Item = T>>(queue: &mut VecDeque<T>, items: I)
    requires
        items.obeys_prophetic_iter_laws(),
        items.decrease() is Some,
    ensures
        final(queue)@ == old(queue)@ + items.remaining(),
{
    let mut it = items;
    loop
        invariant_except_break
            it.obeys_prophetic_iter_laws(),
            it.decrease() is Some,
            queue@ + it.remaining() == old(queue)@ + items.remaining(),
        ensures
            queue@ == old(queue)@ + items.remaining(),
        decreases it.decrease()->0,
    {
        let ghost rest = it.remaining();
        match it.next() {
            Some(item) => {
                assert(queue@ + rest =~= queue@.push(item) + rest.drop_first());
                queue.push_back(item);
            },
            None => {
                assert(queue@ + rest =~= queue@);
                break;
            },
        }
    }
}

impl<T> Channel<T> {
    pub closed spec fn wf(self) -> bool {
        &&& self.well_kept()
        &&& self@.inv()
    }

    /// What holds also between a change to the queue and the signal that tells
    /// the receiver of it.
    spec fn well_kept(self) -> bool {
        &&& self@.in_order()
        &&& self.waiters.wf()
        &&& self.nonempty == if self.queue@.len() > 0 {
            1usize
        } else {
            0usize
        }
    }

    /// What holds of every channel.
    pub proof fn lemma_wf(self)
        requires
            self.wf(),
        ensures
            self@.inv(),
            waiters::distinct(self@.waiters),
    {
        self.waiters.lemma_wf();
    }

    /// What holds of every channel: no more items are in it than it has room for, all that
    /// was sent and not fetched is in it in order, a receiver that is parked has nothing
    /// to fetch, nobody waits for a receiver that has gone, and no token waits twice.
    pub proof fn law_a_channel_is_in_order(self)
        requires
            self.wf(),
        ensures
            1 <= self@.cap,
            self@.queue.len() <= self@.cap,
            self@.sent == self@.fetched + self@.queue,
            self@.recv.armed ==> self@.queue.len() == 0,
            self@.closed ==> self@.waiters.len() == 0,
            self@.recv.cell.state == 0,
            forall|i: int, j: int|
                0 <= i < j < self@.waiters.len() ==> (#[trigger] self@.waiters[i]).id != (
                #[trigger] self@.waiters[j]).id,
    {
        self.waiters.lemma_wf();
    }

    /// Puts `val` in the queue, unless that is full.
    fn try_push(&mut self, val: T) -> (r: Result<(), T>)
        requires
            old(self).well_kept(),
        ensures
            final(self).well_kept(),
            old(self)@.full() ==> r == Err::<(), T>(val) && final(self)@ == old(self)@,
            !old(self)@.full() ==> r == Ok::<(), T>(()) && final(self)@ == (ChannelState {
                queue: old(self)@.queue.push(val),
                sent: old(self)@.sent.push(val),
                ..old(self)@
            }),
    {
        if self.queue.len() >= self.cap {
            return Err(val);
        }
        self.queue.push_back(val);
        self.sent = Ghost(self.sent@.push(val));
        assert(self.sent@ =~= self.fetched@ + self.queue@);
        if self.queue.len() == 1 {
            self.nonempty = 1;
        }
        Ok(())
    }

    /// Puts as many of `items` in the queue as there is room for, from the front,
    /// and leaves the others. Returns how many these are.
    fn try_push_many(&mut self, items: &mut Vec<T>) -> (r: usize)
        requires
            old(self).well_kept(),
        ensures
            final(self).well_kept(),
            r == if old(items)@.len() <= old(self)@.cap - old(self)@.queue.len() {
                old(items)@.len() as int
            } else {
                old(self)@.cap - old(self)@.queue.len()
            },
            final(items)@ == old(items)@.skip(r as int),
            final(self)@ == (ChannelState {
                queue: old(self)@.queue + old(items)@.take(r as int),
                sent: old(self)@.sent + old(items)@.take(r as int),
                ..old(self)@
            }),
    {
        let ghost all = items@;
        let ghost before = self@;
        if items.len() == 0 {
            proof {
                assert(all.skip(0) =~= all);
                assert(before.queue + all.take(0) =~= before.queue);
                assert(before.sent + all.take(0) =~= before.sent);
            }
            return 0;
        }
        let was_empty = self.queue.len() == 0;
        let room: usize = self.cap - self.queue.len();
        let k: usize = if items.len() <= room {
            items.len()
        } else {
            room
        };
        if k > 0 {
            let mut batch = items.split_off(k);
            std::mem::swap(&mut batch, items);
            append_items(&mut self.queue, batch.into_iter());
            self.sent = Ghost(self.sent@ + all.take(k as int));
            assert(self.sent@ =~= self.fetched@ + self.queue@);
            if was_empty {
                self.nonempty = 1;
            }
        } else {
            proof {
                assert(all.skip(0) =~= all);
                assert(before.queue + all.take(0) =~= before.queue);
                assert(before.sent + all.take(0) =~= before.sent);
            }
        }
        k
    }

    /// Puts `val` in the queue if there is room, and parks the sender otherwise.
    fn push_or_park(&mut self, val: T, waker: &Waker) -> (r: Result<(), PushParked<T>>)
        requires
            old(self).well_kept(),
        ensures
            final(self).well_kept(),
            old(self)@.closed ==> r == Err::<(), PushParked<T>>(PushParked::Closed(val))
                && final(self)@ == old(self)@,
            !old(self)@.closed && !old(self)@.full() ==> r == Ok::<(), PushParked<T>>(())
                && final(self)@ == (ChannelState {
                queue: old(self)@.queue.push(val),
                sent: old(self)@.sent.push(val),
                ..old(self)@
            }),
            !old(self)@.closed && old(self)@.full() ==> r == Err::<(), PushParked<T>>(
                PushParked::Full(val, old(self)@.next_id),
            ) && final(self)@ == old(self)@.parked(*waker),
    {
        if self.closed {
            return Err(PushParked::Closed(val));
        }
        match self.try_push(val) {
            Ok(()) => Ok(()),
            Err(val) => {
                let id: u64 = self.next_id;
                let mut slot: Option<Registration> = None;
                self.waiters.register(&mut self.next_id, &mut slot, (), waker);
                Err(PushParked::Full(val, id))
            },
        }
    }

    /// Takes the sender with token `id` out of the queue of waiters.
    fn remove_waiter(&mut self, id: u64)
        requires
            old(self).wf(),
        ensures
            final(self).wf(),
            final(self)@ == old(self)@.unparked(Some(id)),
    {
        proof {
            waiters::lemma_without(self.waiters@, id);
        }
        self.waiters.remove(id);
        self.woken = Ghost(self.woken@.remove(id));
    }

    /// Takes the sender at the front out to be woken. Returns its waker.
    fn wake_one_waiter(&mut self) -> (r: Option<Waker>)
        requires
            old(self).well_kept(),
        ensures
            final(self).well_kept(),
            final(self)@ == old(self)@.one_woken(),
            r == old(self)@.front_waker(),
    {
        match self.waiters.pop_front() {
            Some(next) => {
                self.woken = Ghost(self.woken@.insert(next.id));
                Some(next.waker)
            },
            None => None,
        }
    }

    /// Takes all senders out to be woken. Returns their wakers, in order.
    fn wake_all_waiters(&mut self) -> (r: Vec<Waker>)
        requires
            old(self).wf(),
        ensures
            final(self).wf(),
            r@ == old(self)@.waiters.map_values(|w: Waiter<()>| w.waker),
            final(self)@ == (ChannelState {
                waiters: Seq::empty(),
                woken: final(self)@.woken,
                ..old(self)@
            }),
            forall|id: u64| #[trigger]
                final(self)@.woken.contains(id) <==> old(self)@.woken.contains(id)
                    || waiters::has_id(old(self)@.waiters, id),
    {
        let ghost all = self.waiters@;
        let ghost wakers = all.map_values(|w: Waiter<()>| w.waker);
        let len: usize = self.waiters.len();
        let mut woken: Vec<Waker> = Vec::new();
        self.woken = Ghost(self.woken@.union(Set::new(|id: u64| waiters::has_id(all, id))));
        let ghost before = *self;
        proof {
            assert(all.skip(0) =~= all);
            assert(wakers.take(0) =~= Seq::<Waker>::empty());
        }
        while woken.len() < len
            invariant
                self.waiters.wf(),
                len == all.len(),
                woken@.len() <= len,
                wakers == all.map_values(|w: Waiter<()>| w.waker),
                self.waiters@ == all.skip(woken@.len() as int),
                woken@ == wakers.take(woken@.len() as int),
                *self == (Channel { waiters: self.waiters, ..before }),
            decreases len - woken@.len(),
        {
            proof {
                let k = woken@.len() as int;
                assert(all.skip(k).skip(1) =~= all.skip(k + 1));
                assert(wakers.take(k).push(all[k].waker) =~= wakers.take(k + 1));
            }
            if let Some(next) = self.waiters.pop_front() {
                woken.push(next.waker);
            }
        }
        assert(self.waiters@ =~= Seq::<Waiter<()>>::empty());
        assert(woken@ =~= wakers);
        woken
    }

    /// Exchanges the whole queue for `staging`, which is empty, where the queue
    /// is not. Returns whether it did, and the waker to call.
    fn steal_into(&mut self, staging: &mut VecDeque<T>) -> (r: (bool, Option<Waker>))
        requires
            old(self).well_kept(),
            old(staging)@.len() == 0,
        ensures
            final(self).wf(),
            final(self)@ == old(self)@.stolen(),
            final(staging)@ == old(self)@.queue,
            r.0 == (old(self)@.queue.len() > 0),
            r.1 == old(self)@.steal_waker(),
    {
        if self.queue.len() == 0 {
            assert(staging@ =~= self.queue@);
            return (false, None);
        }
        std::mem::swap(&mut self.queue, staging);
        self.nonempty = 0;
        self.fetched = Ghost(self.fetched@ + staging@);
        assert(self.queue@ =~= Seq::<T>::empty());
        assert(self.sent@ =~= self.fetched@ + self.queue@);
        let waker = self.wake_one_waiter();
        (true, waker)
    }
}

/// A channel with room for `capacity` items, or for one where that is zero, and
/// its two ends.
pub fn bounded<T>(capacity: usize) -> (r: (Channel<T>, Sender, Receiver<T>))
    ensures
        r.0.wf(),
        r.0@ == (ChannelState {
            queue: Seq::<T>::empty(),
            cap: if capacity >= 1 {
                capacity
            } else {
                1
            },
            waiters: Seq::empty(),
            next_id: 0,
            woken: Set::empty(),
            recv: SlotState::idle(),
            senders: 1,
            closed: false,
            sent: Seq::<T>::empty(),
            fetched: Seq::<T>::empty(),
            tag: r.0@.tag,
        }),
        r.1.tag() == r.0@.tag,
        r.2.of(r.0@),
        r.2.staging() == Seq::<T>::empty(),
        r.2.got() == Seq::<T>::empty(),
{
    let cap: usize = if capacity >= 1 {
        capacity
    } else {
        1
    };
    let ghost tag: int = arbitrary();
    let channel = Channel {
        nonempty: 0,
        cap,
        queue: VecDeque::with_capacity(cap),
        waiters: WaitList::new(),
        next_id: 0,
        recv: WaiterSlot::new(),
        senders: 1,
        closed: false,
        woken: Ghost(Set::empty()),
        sent: Ghost(Seq::empty()),
        fetched: Ghost(Seq::empty()),
        tag: Ghost(tag),
    };
    let receiver = Receiver {
        staging: VecDeque::new(),
        got: Ghost(Seq::empty()),
        tag: Ghost(tag),
    };
    proof {
        assert(channel.sent@ =~= channel.fetched@ + channel.queue@);
        assert(channel.fetched@ =~= receiver.got@ + receiver.staging@);
    }
    (channel, Sender { tag: Ghost(tag) }, receiver)
}

/// An end of a channel that sends.
pub struct Sender {
    tag: Ghost<int>,
}

impl Sender {
    /// Which channel the sender is of.
    pub closed spec fn tag(self) -> int {
        self.tag@
    }

    /// Another sender of the channel.
    pub fn clone<T>(&self, channel: &mut Channel<T>) -> (r: Sender)
        requires
            old(channel).wf(),
            self.tag() == old(channel)@.tag,
            old(channel)@.senders < usize::MAX,
        ensures
            final(channel).wf(),
            r.tag() == self.tag(),
            final(channel)@ == (ChannelState {
                senders: (old(channel)@.senders + 1) as usize,
                ..old(channel)@
            }),
    {
        channel.senders = channel.senders + 1;
        Sender { tag: Ghost(self.tag@) }
    }

    /// Sends `val`, if there is room for it and a receiver. Returns also the
    /// waker to call.
    pub fn try_send<T>(&self, channel: &mut Channel<T>, val: T) -> (r: (
        Result<(), TrySendError<T>>,
        Option<Waker>,
    ))
        requires
            old(channel).wf(),
            self.tag() == old(channel)@.tag,
        ensures
            final(channel).wf(),
            old(channel)@.closed ==> r.0 == Err::<(), TrySendError<T>>(TrySendError::Closed(val)),
            !old(channel)@.closed && old(channel)@.full() ==> r.0 == Err::<(), TrySendError<T>>(
                TrySendError::Full(val),
            ),
            !old(channel)@.closed && !old(channel)@.full() ==> r.0 == Ok::<(), TrySendError<T>>(
                (),
            ),
            r.0 is Ok ==> {
                &&& final(channel)@ == old(channel)@.pushed(seq![val])
                &&& r.1 == old(channel)@.recv.signals()
            },
            r.0 is Err ==> final(channel)@ == old(channel)@ && r.1 is None,
    {
        if channel.closed {
            return (Err(TrySendError::Closed(val)), None);
        }
        let ghost before = channel@;
        match channel.try_push(val) {
            Ok(()) => {
                proof {
                    assert(before.queue.push(val) =~= before.queue + seq![val]);
                    assert(before.sent.push(val) =~= before.sent + seq![val]);
                }
                let waker = channel.recv.signal();
                (Ok(()), waker)
            },
            Err(val) => (Err(TrySendError::Full(val)), None),
        }
    }

    /// Sends as many of `items` as there is room for, from the front, if there is
    /// a receiver, and leaves the others. Returns how many these are, and the
    /// waker to call.
    pub fn try_send_many<T>(&self, channel: &mut Channel<T>, items: &mut Vec<T>) -> (r: (
        usize,
        Option<Waker>,
    ))
        requires
            old(channel).wf(),
            self.tag() == old(channel)@.tag,
        ensures
            final(channel).wf(),
            r.0 == if old(channel)@.closed {
                0
            } else if old(items)@.len() <= old(channel)@.cap - old(channel)@.queue.len() {
                old(items)@.len() as int
            } else {
                old(channel)@.cap - old(channel)@.queue.len()
            },
            final(items)@ == old(items)@.skip(r.0 as int),
            r.0 > 0 ==> {
                &&& final(channel)@ == old(channel)@.pushed(old(items)@.take(r.0 as int))
                &&& r.1 == old(channel)@.recv.signals()
            },
            r.0 == 0 ==> final(channel)@ == old(channel)@ && r.1 is None,
    {
        let ghost before = channel@;
        if channel.closed {
            assert(items@.skip(0) =~= items@);
            return (0, None);
        }
        let k: usize = channel.try_push_many(items);
        if k > 0 {
            let waker = channel.recv.signal();
            (k, waker)
        } else {
            proof {
                assert(channel@.queue =~= before.queue);
                assert(channel@.sent =~= before.sent);
            }
            (k, None)
        }
    }

    /// A future that sends `val`. It waits for room once it is polled.
    pub fn send<T>(&self, val: T) -> (r: Send_<T>)
        ensures
            r.tag() == self.tag(),
            r.val() == Some(val),
            r.parked_id() is None,
    {
        Send_ { val: Some(val), parked_id: None, tag: Ghost(self.tag@) }
    }

    /// Whether the receiver has gone.
    pub fn is_closed<T>(&self, channel: &Channel<T>) -> (r: bool)
        requires
            self.tag() == channel@.tag,
        ensures
            r == channel@.closed,
    {
        channel.closed
    }

    /// Goes. The last sender to go wakes the receiver: returns the waker to call.
    pub fn close<T>(self, channel: &mut Channel<T>) -> (r: Option<Waker>)
        requires
            old(channel).wf(),
            self.tag() == old(channel)@.tag,
            old(channel)@.senders > 0,
        ensures
            final(channel).wf(),
            final(channel)@ == (ChannelState {
                senders: (old(channel)@.senders - 1) as usize,
                recv: if old(channel)@.senders == 1 {
                    old(channel)@.recv.signalled()
                } else {
                    old(channel)@.recv
                },
                ..old(channel)@
            }),
            r == if old(channel)@.senders == 1 {
                old(channel)@.recv.signals()
            } else {
                None
            },
    {
        let before: usize = channel.senders;
        channel.senders = before - 1;
        if before == 1 {
            channel.recv.signal()
        } else {
            None
        }
    }
}

/// A future that sends an item.
pub struct Send_<T> {
    val: Option<T>,
    parked_id: Option<u64>,
    tag: Ghost<int>,
}

impl<T> Send_<T> {
    /// Which channel the future is of.
    pub closed spec fn tag(self) -> int {
        self.tag@
    }

    /// The item, until it has been sent or handed back.
    pub closed spec fn val(self) -> Option<T> {
        self.val
    }

    /// The token under which the sender is parked, if it is.
    pub closed spec fn parked_id(self) -> Option<u64> {
        self.parked_id
    }

    /// Polls the future. It sends the item where there is room, hands it back
    /// where the receiver has gone, and parks otherwise. Returns also the waker
    /// to call.
    pub fn poll(&mut self, channel: &mut Channel<T>, waker: &Waker) -> (r: (
        Poll<Result<(), SendError<T>>>,
        Option<Waker>,
    ))
        requires
            old(channel).wf(),
            old(self).tag() == old(channel)@.tag,
        ensures
            final(channel).wf(),
            final(self).tag() == old(self).tag(),
            match old(self).val() {
                None => {
                    &&& r.0 == Poll::Ready(Ok::<(), SendError<T>>(()))
                    &&& r.1 is None
                    &&& *final(self) == *old(self)
                    &&& final(channel)@ == old(channel)@
                },
                Some(val) => {
                    let left = old(channel)@.unparked(old(self).parked_id());
                    if left.closed {
                        &&& r.0 == Poll::Ready(Err::<(), SendError<T>>(SendError(val)))
                        &&& r.1 is None
                        &&& final(self).val() is None
                        &&& final(self).parked_id() is None
                        &&& final(channel)@ == left
                    } else if left.full() {
                        &&& r.0 is Pending
                        &&& r.1 is None
                        &&& final(self).val() == Some(val)
                        &&& final(self).parked_id() == Some(left.next_id)
                        &&& final(channel)@ == left.parked(*waker)
                    } else {
                        &&& r.0 == Poll::Ready(Ok::<(), SendError<T>>(()))
                        &&& r.1 == left.recv.signals()
                        &&& final(self).val() is None
                        &&& final(self).parked_id() is None
                        &&& final(channel)@ == left.pushed(seq![val])
                    }
                },
            },
    {
        let val = match self.val.take() {
            Some(val) => val,
            None => return (Poll::Ready(Ok(())), None),
        };
        if let Some(id) = self.parked_id.take() {
            channel.remove_waiter(id);
        }
        let ghost before = channel@;
        match channel.push_or_park(val, waker) {
            Ok(()) => {
                proof {
                    assert(before.queue.push(val) =~= before.queue + seq![val]);
                    assert(before.sent.push(val) =~= before.sent + seq![val]);
                }
                let woken = channel.recv.signal();
                (Poll::Ready(Ok(())), woken)
            },
            Err(PushParked::Closed(val)) => (Poll::Ready(Err(SendError(val))), None),
            Err(PushParked::Full(val, id)) => {
                self.parked_id = Some(id);
                self.val = Some(val);
                (Poll::Pending, None)
            },
        }
    }

    /// Gives up. The sender is no longer parked. Returns the item, if it has not
    /// been sent.
    pub fn cancel(self, channel: &mut Channel<T>) -> (r: Option<T>)
        requires
            old(channel).wf(),
            self.tag() == old(channel)@.tag,
        ensures
            final(channel).wf(),
            final(channel)@ == old(channel)@.unparked(self.parked_id()),
            r == self.val(),
    {
        if let Some(id) = self.parked_id {
            channel.remove_waiter(id);
        }
        self.val
    }
}

/// The end of a channel that receives. What it has fetched and not handed out it
/// keeps to itself.
pub struct Receiver<T> {
    staging: VecDeque<T>,
    got: Ghost<Seq<T>>,
    tag: Ghost<int>,
}

impl<T> Receiver<T> {
    /// Which channel the receiver is of.
    pub closed spec fn tag(self) -> int {
        self.tag@
    }

    /// The items that have been fetched and not been handed out.
    pub closed spec fn staging(self) -> Seq<T> {
        self.staging@
    }

    /// All items ever handed out.
    pub closed spec fn got(self) -> Seq<T> {
        self.got@
    }

    /// Whether this is the receiver of the channel: what was fetched from it has
    /// been handed out or is kept, in order.
    pub open spec fn of(self, channel: ChannelState<T>) -> bool {
        &&& self.tag() == channel.tag
        &&& channel.fetched == self.got() + self.staging()
    }

    /// The items that are on their way, in the order in which they come.
    pub open spec fn pending(self, channel: ChannelState<T>) -> Seq<T> {
        self.staging() + channel.queue
    }

    /// What a future for the next item comes to now, if anything: the next item,
    /// or nothing once all senders have gone.
    pub open spec fn comes(self, channel: ChannelState<T>) -> Option<Option<T>> {
        if self.pending(channel).len() > 0 {
            Some(Some(self.pending(channel)[0]))
        } else if channel.senders == 0 {
            Some(None)
        } else {
            None
        }
    }

    /// The channel after the next item has been looked for.
    pub open spec fn stepped(self, channel: ChannelState<T>) -> ChannelState<T> {
        if self.staging().len() > 0 {
            channel
        } else {
            channel.stolen()
        }
    }

    /// Whether `after` is this receiver once it has handed out the next item, or
    /// has found that there is none, and the channel has gone from `channel` to
    /// `next`.
    pub open spec fn steps_to(
        self,
        channel: ChannelState<T>,
        after: Self,
        next: ChannelState<T>,
    ) -> bool {
        &&& after.of(next)
        &&& next == self.stepped(channel)
        &&& if self.pending(channel).len() > 0 {
            &&& after.got() == self.got().push(self.pending(channel)[0])
            &&& after.pending(next) == self.pending(channel).skip(1)
        } else {
            &&& after.got() == self.got()
            &&& after.staging() == self.staging()
        }
    }

    /// The waker to call when the next item is handed out.
    pub open spec fn step_waker(self, channel: ChannelState<T>) -> Option<Waker> {
        if self.staging().len() > 0 {
            None
        } else {
            channel.steal_waker()
        }
    }

    /// Global order: what has been handed out is the beginning of what has been
    /// sent, and what is on its way is the rest.
    pub proof fn law_handed_out_in_the_order_sent(self, channel: Channel<T>)
        requires
            channel.wf(),
            self.of(channel@),
        ensures
            channel@.sent == self.got() + self.pending(channel@),
            self.got() == channel@.sent.take(self.got().len() as int),
    {
        assert(channel@.sent =~= self.got() + self.pending(channel@));
        assert(self.got() =~= channel@.sent.take(self.got().len() as int));
    }

    /// A receiver is that of a channel exactly where it bears its mark and has handed out or
    /// kept all that was fetched, in order.
    pub proof fn law_whose_receiver_it_is(self, channel: ChannelState<T>)
        ensures
            self.of(channel) <==> self.tag() == channel.tag && channel.fetched == self.got()
                + self.staging(),
    {
    }

    /// The channel is fetched from exactly where nothing that was fetched is left.
    pub proof fn law_when_the_channel_is_fetched_from(self, channel: ChannelState<T>)
        ensures
            self.staging().len() > 0 ==> self.stepped(channel) == channel,
            self.staging().len() == 0 ==> {
                &&& self.stepped(channel).queue.len() == 0
                &&& self.stepped(channel).fetched == channel.fetched + channel.queue
                &&& self.stepped(channel).sent == channel.sent
                &&& self.stepped(channel).cap == channel.cap
                &&& self.stepped(channel).recv == channel.recv
                &&& self.stepped(channel).senders == channel.senders
                &&& self.stepped(channel).closed == channel.closed
                &&& self.stepped(channel).tag == channel.tag
            },
    {
        channel.law_a_fetch_takes_all_there_is();
    }

    /// What is sent comes to the receiver behind all that is on its way to it, in the
    /// order in which it was sent, one item or many.
    pub proof fn law_what_is_sent_comes_last(self, channel: ChannelState<T>, items: Seq<T>)
        ensures
            self.pending(channel.pushed(items)) == self.pending(channel) + items,
            self.pending(channel) == self.staging() + channel.queue,
    {
        assert(self.pending(channel.pushed(items)) =~= self.pending(channel) + items);
    }

    /// The item that comes next is the oldest that has not been handed out: the first
    /// that has been fetched, or the first of the queue. Where there is none, the end
    /// comes exactly where all senders have gone.
    pub proof fn law_the_oldest_item_comes_next(self, channel: ChannelState<T>)
        ensures
            self.staging().len() > 0 ==> self.comes(channel) == Some(Some(self.staging()[0])),
            self.staging().len() == 0 && channel.queue.len() > 0 ==> self.comes(channel) == Some(
                Some(channel.queue[0]),
            ),
            self.staging().len() == 0 && channel.queue.len() == 0 ==> self.comes(channel)
                == if channel.senders == 0 {
                Some(None::<T>)
            } else {
                None
            },
    {
    }

    /// Where an item is handed out, it counts as handed out behind all others, and what
    /// is on its way is the rest, in its order. The channel is touched only where
    /// nothing that has been fetched is left: then all that it holds is fetched, and
    /// the sender that parked first is woken if that is anything.
    pub proof fn law_an_item_is_handed_out_once(
        self,
        channel: ChannelState<T>,
        after: Self,
        next: ChannelState<T>,
    )
        requires
            self.steps_to(channel, after, next),
        ensures
            self.staging() + channel.queue =~= Seq::<T>::empty() ==> after.got() == self.got()
                && after.staging() + next.queue == Seq::<T>::empty(),
            (self.staging() + channel.queue).len() > 0 ==> {
                &&& after.got() == self.got().push((self.staging() + channel.queue)[0])
                &&& self.staging() + channel.queue == seq![(self.staging() + channel.queue)[0]] + (
                after.staging() + next.queue)
            },
            self.staging().len() > 0 ==> next == channel && self.step_waker(channel) is None,
            self.staging().len() == 0 ==> {
                &&& next.queue.len() == 0
                &&& next.fetched == channel.fetched + channel.queue
                &&& next.sent == channel.sent
                &&& self.step_waker(channel) == if channel.queue.len() > 0 && channel.waiters.len()
                    > 0 {
                    Some(channel.waiters[0].waker)
                } else {
                    None
                }
            },
            after.tag() == next.tag,
            next.fetched == after.got() + after.staging(),
    {
        let all = self.staging() + channel.queue;
        channel.law_a_fetch_takes_all_there_is();
        if all.len() > 0 {
            assert(after.pending(next) == all.skip(1));
            assert(all =~= seq![all[0]] + all.skip(1));
        } else {
            assert(self.staging() =~= Seq::<T>::empty());
            assert(channel.queue =~= Seq::<T>::empty());
            assert(after.staging() + next.queue =~= Seq::<T>::empty());
        }
    }

    /// The next item, if there is one: one that has been fetched, or the first of
    /// the queue, which is then fetched whole. Returns also the waker to call.
    fn next_staged(&mut self, channel: &mut Channel<T>) -> (r: (Option<T>, Option<Waker>))
        requires
            old(channel).well_kept(),
            old(self).of(old(channel)@),
        ensures
            final(channel).well_kept(),
            old(channel).wf() ==> final(channel).wf(),
            old(self).steps_to(old(channel)@, *final(self), final(channel)@),
            r.1 == old(self).step_waker(old(channel)@),
            r.0 == if old(self).pending(old(channel)@).len() > 0 {
                Some(old(self).pending(old(channel)@)[0])
            } else {
                None
            },
            final(self).staging() == if old(self).staging().len() > 0 {
                old(self).staging().skip(1)
            } else if old(channel)@.queue.len() > 0 {
                old(channel)@.queue.skip(1)
            } else {
                Seq::empty()
            },
    {
        let ghost old_got = self.got@;
        let ghost staged = self.staging@;
        let ghost before = self.pending(channel@);
        match self.staging.pop_front() {
            Some(val) => {
                self.got = Ghost(self.got@.push(val));
                assert(old_got + staged =~= self.got@ + self.staging@);
                assert(self.pending(channel@) =~= before.skip(1));
                (Some(val), None)
            },
            None => {
                let ghost fetched = channel@.fetched;
                let (stole, waker) = channel.steal_into(&mut self.staging);
                if stole {
                    let ghost staged = self.staging@;
                    match self.staging.pop_front() {
                        Some(val) => {
                            self.got = Ghost(self.got@.push(val));
                            assert(fetched + staged =~= self.got@ + self.staging@);
                            assert(self.pending(channel@) =~= before.skip(1));
                            (Some(val), waker)
                        },
                        None => (None, waker),
                    }
                } else {
                    assert(self.staging@ =~= staged);
                    assert(self.staging@ =~= Seq::<T>::empty());
                    (None, waker)
                }
            },
        }
    }

    /// The next item, if there is one. Returns also the waker to call.
    pub fn try_recv(&mut self, channel: &mut Channel<T>) -> (r: (
        Result<T, TryRecvError>,
        Option<Waker>,
    ))
        requires
            old(channel).wf(),
            old(self).of(old(channel)@),
        ensures
            final(channel).wf(),
            old(self).steps_to(old(channel)@, *final(self), final(channel)@),
            r.1 == old(self).step_waker(old(channel)@),
            r.0 == match old(self).comes(old(channel)@) {
                Some(Some(val)) => Ok::<T, TryRecvError>(val),
                Some(None) => Err(TryRecvError::Closed),
                None => Err(TryRecvError::Empty),
            },
    {
        let (first, waker) = self.next_staged(channel);
        if let Some(val) = first {
            return (Ok(val), waker);
        }
        if channel.senders == 0 {
            let (second, _) = self.next_staged(channel);
            return match second {
                Some(val) => (Ok(val), waker),
                None => (Err(TryRecvError::Closed), waker),
            };
        }
        (Err(TryRecvError::Empty), waker)
    }

    /// Appends the next items to `out`, `max` at most. Returns how many these
    /// are, and the waker to call.
    pub fn recv_many(&mut self, channel: &mut Channel<T>, out: &mut Vec<T>, max: usize) -> (r: (
        usize,
        Option<Waker>,
    ))
        requires
            old(channel).wf(),
            old(self).of(old(channel)@),
        ensures
            final(channel).wf(),
            final(self).of(final(channel)@),
            final(channel)@ == if max <= old(self).staging().len() {
                old(channel)@
            } else {
                old(channel)@.stolen()
            },
            r.1 == if max <= old(self).staging().len() {
                None
            } else {
                old(channel)@.steal_waker()
            },
            r.0 == if max <= old(self).pending(old(channel)@).len() {
                max as int
            } else {
                old(self).pending(old(channel)@).len() as int
            },
            final(out)@ == old(out)@ + old(self).pending(old(channel)@).take(r.0 as int),
            final(self).got() == old(self).got() + old(self).pending(old(channel)@).take(r.0 as int),
            final(self).pending(final(channel)@) == old(self).pending(old(channel)@).skip(
                r.0 as int,
            ),
    {
        let ghost all = self.pending(channel@);
        let ghost start = *self;
        let ghost chan = channel@;
        let ghost staged = self.staging().len();
        let mut n: usize = 0;
        let mut waker: Option<Waker> = None;
        let mut dry = false;
        proof {
            assert(out@ + all.take(0) =~= out@);
            assert(self.got() + all.take(0) =~= self.got());
            assert(all.skip(0) =~= all);
        }
        while n < max && !dry
            invariant
                n <= max,
                n <= all.len(),
                channel.wf(),
                self.of(channel@),
                all == start.staging() + chan.queue,
                staged == start.staging().len(),
                start == *old(self),
                out@ == old(out)@ + all.take(n as int),
                self.got() == start.got() + all.take(n as int),
                self.pending(channel@) == all.skip(n as int),
                n <= staged && !dry ==> channel@ == chan && waker is None && self.staging().len()
                    == staged - n,
                n > staged || dry ==> channel@ == chan.stolen() && waker == chan.steal_waker(),
                n > staged ==> channel@.queue.len() == 0 && chan.queue.len() > 0,
                dry ==> n == all.len() && n >= staged,
                chan == old(channel)@,
            decreases max - n, (if dry {
                0int
            } else {
                1
            }),
        {
            let ghost k = n as int;
            let (next, woken) = self.next_staged(channel);
            proof {
                if k < all.len() {
                    assert(all.skip(k).skip(1) =~= all.skip(k + 1));
                    assert(all.take(k).push(all[k]) =~= all.take(k + 1));
                    assert(self.pending(channel@) =~= all.skip(k + 1));
                    assert((old(out)@ + all.take(k)).push(all[k]) =~= old(out)@ + all.take(k + 1));
                    assert((start.got() + all.take(k)).push(all[k]) =~= start.got() + all.take(
                        k + 1,
                    ));
                } else {
                    assert(self.pending(channel@) =~= all.skip(k));
                }
            }
            if woken.is_some() {
                waker = woken;
            }
            match next {
                Some(val) => {
                    out.push(val);
                    n = n + 1;
                },
                None => {
                    dry = true;
                },
            }
        }
        (n, waker)
    }

    /// A future for the next item. It parks at once where there is none.
    pub fn recv(&self) -> (r: Recv)
        ensures
            r.tag() == self.tag(),
            !r.spins(),
    {
        Recv { spin: false, tag: Ghost(self.tag@) }
    }

    /// A future for the next item. It looks again a number of times before it
    /// parks.
    pub fn recv_hot(&self) -> (r: Recv)
        ensures
            r.tag() == self.tag(),
            r.spins(),
    {
        Recv { spin: true, tag: Ghost(self.tag@) }
    }

    /// Whether all senders have gone.
    pub fn is_closed(&self, channel: &Channel<T>) -> (r: bool)
        requires
            self.tag() == channel@.tag,
        ensures
            r == (channel@.senders == 0),
    {
        channel.senders == 0
    }

    /// Goes. Returns the wakers of all parked senders, in order.
    pub fn close(self, channel: &mut Channel<T>) -> (r: Vec<Waker>)
        requires
            old(channel).wf(),
            self.of(old(channel)@),
        ensures
            final(channel).wf(),
            r@ == old(channel)@.waiters.map_values(|w: Waiter<()>| w.waker),
            final(channel)@ == (ChannelState {
                closed: true,
                waiters: Seq::empty(),
                woken: final(channel)@.woken,
                ..old(channel)@
            }),
            forall|id: u64| #[trigger]
                final(channel)@.woken.contains(id) <==> old(channel)@.woken.contains(id)
                    || waiters::has_id(old(channel)@.waiters, id),
    {
        let wakers = channel.wake_all_waiters();
        channel.closed = true;
        wakers
    }
}

/// A future for the next item.
pub struct Recv {
    spin: bool,
    tag: Ghost<int>,
}

impl Recv {
    /// Which channel the future is of.
    pub closed spec fn tag(self) -> int {
        self.tag@
    }

    /// Whether it looks again a number of times before it parks.
    pub closed spec fn spins(self) -> bool {
        self.spin
    }

    /// First stage of a poll: what there is already.
    pub fn ready<T>(&mut self, rx: &mut Receiver<T>, channel: &mut Channel<T>) -> (r: (
        Option<Option<T>>,
        Option<Waker>,
    ))
        requires
            old(channel).wf(),
            old(rx).of(old(channel)@),
            old(self).tag() == old(channel)@.tag,
        ensures
            final(channel).wf(),
            *final(self) == *old(self),
            old(rx).steps_to(old(channel)@, *final(rx), final(channel)@),
            r.0 == old(rx).comes(old(channel)@),
            r.1 == old(rx).step_waker(old(channel)@),
    {
        let (first, woken) = rx.next_staged(channel);
        if let Some(val) = first {
            return (Some(Some(val)), woken);
        }
        if channel.senders == 0 {
            let (second, _) = rx.next_staged(channel);
            return (Some(second), woken);
        }
        (None, woken)
    }

    /// A look in between: fetches only where the channel says that there is
    /// something to fetch.
    pub fn look_again<T>(&mut self, rx: &mut Receiver<T>, channel: &mut Channel<T>) -> (r: (
        Option<Option<T>>,
        Option<Waker>,
    ))
        requires
            old(channel).wf(),
            old(rx).of(old(channel)@),
            old(rx).staging().len() == 0,
            old(self).tag() == old(channel)@.tag,
        ensures
            final(channel).wf(),
            *final(self) == *old(self),
            old(rx).steps_to(old(channel)@, *final(rx), final(channel)@),
            r.0 == old(rx).comes(old(channel)@),
            r.1 == old(rx).step_waker(old(channel)@),
    {
        if channel.nonempty > 0 {
            let (first, woken) = rx.next_staged(channel);
            if let Some(val) = first {
                return (Some(Some(val)), woken);
            }
        }
        if channel.senders == 0 {
            let (second, woken) = rx.next_staged(channel);
            return (Some(second), woken);
        }
        (None, None)
    }

    /// Last stage of a poll: parks, and looks once more. Where something has come
    /// meanwhile, it is ready and no longer parked. Where there is nothing still,
    /// wakes a parked sender so that there will be. Returns also the waker to
    /// call.
    pub fn park<T>(&mut self, rx: &mut Receiver<T>, channel: &mut Channel<T>, waker: &Waker) -> (r: (
        Poll<Option<T>>,
        Option<Waker>,
    ))
        requires
            old(channel).wf(),
            old(rx).of(old(channel)@),
            old(self).tag() == old(channel)@.tag,
        ensures
            final(channel).wf(),
            final(rx).of(final(channel)@),
            *final(self) == *old(self),
            match old(rx).comes(old(channel)@) {
                Some(item) => {
                    let next = old(rx).stepped(old(channel)@);
                    &&& r.0 == Poll::Ready(item)
                    &&& r.1 == old(rx).step_waker(old(channel)@)
                    &&& old(rx).steps_to(old(channel)@, *final(rx), next)
                    &&& final(channel)@ == (ChannelState {
                        recv: next.recv.armed_with(*waker).disarmed(),
                        ..next
                    })
                },
                None => {
                    &&& r.0 is Pending
                    &&& r.1 == old(channel)@.front_waker()
                    &&& final(rx).staging() == old(rx).staging()
                    &&& final(rx).got() == old(rx).got()
                    &&& final(channel)@ == old(channel)@.receiver_parked(*waker)
                },
            },
    {
        let _ = channel.recv.arm(waker);
        let (first, woken) = rx.next_staged(channel);
        if let Some(val) = first {
            channel.recv.disarm();
            return (Poll::Ready(Some(val)), woken);
        }
        if channel.senders == 0 {
            channel.recv.disarm();
            let (second, woken) = rx.next_staged(channel);
            return (Poll::Ready(second), woken);
        }
        let next = channel.wake_one_waiter();
        (Poll::Pending, next)
    }

    /// Polls the future. It is ready where there is an item or all senders have
    /// gone, and parks otherwise. Returns also the waker to call.
    pub fn poll<T>(&mut self, rx: &mut Receiver<T>, channel: &mut Channel<T>, waker: &Waker) -> (r: (
        Poll<Option<T>>,
        Option<Waker>,
    ))
        requires
            old(channel).wf(),
            old(rx).of(old(channel)@),
            old(self).tag() == old(channel)@.tag,
        ensures
            final(channel).wf(),
            *final(self) == *old(self),
            match old(rx).comes(old(channel)@) {
                Some(item) => {
                    &&& r.0 == Poll::Ready(item)
                    &&& r.1 == old(rx).step_waker(old(channel)@)
                    &&& old(rx).steps_to(old(channel)@, *final(rx), final(channel)@)
                },
                None => {
                    &&& r.0 is Pending
                    &&& r.1 == old(channel)@.front_waker()
                    &&& final(rx).of(final(channel)@)
                    &&& final(rx).staging() == old(rx).staging()
                    &&& final(rx).got() == old(rx).got()
                    &&& final(channel)@ == old(channel)@.receiver_parked(*waker)
                },
            },
    {
        let (first, woken) = self.ready(rx, channel);
        if let Some(item) = first {
            return (Poll::Ready(item), woken);
        }
        if self.spin {
            let mut looks: usize = 0;
            while looks < RECV_SPIN
                invariant
                    channel.wf(),
                    rx.of(channel@),
                    channel@ == old(channel)@,
                    rx.staging() == old(rx).staging(),
                    rx.got() == old(rx).got(),
                    rx.staging().len() == 0,
                    rx.comes(channel@) is None,
                    *self == *old(self),
                    self.tag() == channel@.tag,
                decreases RECV_SPIN - looks,
            {
                let (item, _) = self.look_again(rx, channel);
                if let Some(item) = item {
                    return (Poll::Ready(item), None);
                }
                looks = looks + 1;
            }
        }
        self.park(rx, channel, waker)
    }

    /// Gives up: the receiver is no longer parked.
    pub fn cancel<T>(self, channel: &mut Channel<T>)
        requires
            old(channel).wf(),
            self.tag() == old(channel)@.tag,
        ensures
            final(channel).wf(),
            final(channel)@ == (ChannelState {
                recv: old(channel)@.recv.disarmed(),
                ..old(channel)@
            }),
    {
        channel.recv.disarm();
    }
}

/// One item is sent exactly where there is a receiver and room. It goes behind all
/// that is in the queue, and a parked receiver is woken. Otherwise the item is handed
/// back with the reason, and nothing changes.
pub proof fn law_what_sending_one_does<T>(
    sender: Sender,
    channel: &mut Channel<T>,
    val: T,
    r: (Result<(), TrySendError<T>>, Option<Waker>),
)
    requires
        call_ensures(Sender::try_send::<T>, (&sender, channel, val), r),
    ensures
        old(channel)@.closed ==> r.0 == Err::<(), TrySendError<T>>(TrySendError::Closed(val)),
        !old(channel)@.closed && old(channel)@.queue.len() >= old(channel)@.cap ==> r.0 == Err::<
            (),
            TrySendError<T>,
        >(TrySendError::Full(val)),
        !old(channel)@.closed && old(channel)@.queue.len() < old(channel)@.cap ==> {
            &&& r.0 is Ok
            &&& final(channel)@.queue == old(channel)@.queue.push(val)
            &&& final(channel)@.sent == old(channel)@.sent.push(val)
            &&& r.1 == if old(channel)@.recv.armed {
                old(channel)@.recv.cell.waker
            } else {
                None
            }
            &&& !final(channel)@.recv.armed
        },
        r.0 is Err ==> r.1 is None && final(channel)@ == old(channel)@,
        final(channel)@.waiters == old(channel)@.waiters,
        final(channel)@.senders == old(channel)@.senders,
        final(channel)@.closed == old(channel)@.closed,
        final(channel)@.cap == old(channel)@.cap,
        final(channel)@.fetched == old(channel)@.fetched,
{
    old(channel)@.law_a_send_goes_behind_what_is_there(seq![val]);
    old(channel)@.law_backpressure();
    assert(old(channel)@.queue + seq![val] =~= old(channel)@.queue.push(val));
    assert(old(channel)@.sent + seq![val] =~= old(channel)@.sent.push(val));
}

/// Of a batch as many items are sent as there is room for, from its front; the
/// others stay with the caller, in their order. What was in the queue stays before
/// them. To a receiver that has gone nothing is sent.
pub proof fn law_what_sending_many_does<T>(
    sender: Sender,
    channel: &mut Channel<T>,
    items: &mut Vec<T>,
    r: (usize, Option<Waker>),
)
    requires
        old(channel)@.queue.len() <= old(channel)@.cap,
        call_ensures(Sender::try_send_many::<T>, (&sender, channel, items), r),
    ensures
        old(channel)@.closed ==> r.0 == 0,
        r.0 <= old(items)@.len(),
        r.0 <= old(channel)@.cap - old(channel)@.queue.len(),
        !old(channel)@.closed ==> r.0 == old(items)@.len() || final(channel)@.queue.len() == old(channel)@.cap,
        final(channel)@.queue.len() == old(channel)@.queue.len() + r.0,
        forall|i: int|
            0 <= i < old(channel)@.queue.len() ==> #[trigger] final(channel)@.queue[i] == old(channel)@.queue[i],
        forall|i: int|
            0 <= i < r.0 ==> final(channel)@.queue[old(channel)@.queue.len() + i]
                == #[trigger] old(items)@[i],
        old(items)@ == final(channel)@.queue.skip(old(channel)@.queue.len() as int) + final(items)@,
        final(channel)@.sent == old(channel)@.sent + old(items)@.take(r.0 as int),
        r.1 == if r.0 > 0 && old(channel)@.recv.armed {
            old(channel)@.recv.cell.waker
        } else {
            None
        },
        r.0 > 0 ==> !final(channel)@.recv.armed,
        r.0 == 0 ==> final(channel)@.recv == old(channel)@.recv,
        final(channel)@.waiters == old(channel)@.waiters,
        final(channel)@.senders == old(channel)@.senders,
        final(channel)@.closed == old(channel)@.closed,
        final(channel)@.cap == old(channel)@.cap,
        final(channel)@.fetched == old(channel)@.fetched,
{
    let part = old(items)@.take(r.0 as int);
    old(channel)@.law_a_send_goes_behind_what_is_there(part);
    assert(old(items)@ =~= part + old(items)@.skip(r.0 as int));
    assert(final(channel)@.queue =~= old(channel)@.queue + part);
    assert(final(channel)@.sent =~= old(channel)@.sent + part);
    assert(final(channel)@.queue.skip(old(channel)@.queue.len() as int) =~= part);
}

/// A future that sends is ready at once where the receiver has gone, with its item,
/// or where there is room: then the item goes behind all that is in the queue, and a
/// parked receiver is woken. Otherwise the sender parks behind all others, with its
/// item, and no item moves. However it goes, it is not parked twice.
pub proof fn law_what_polling_a_send_does<T>(
    future: &mut Send_<T>,
    channel: &mut Channel<T>,
    waker: &Waker,
    r: (Poll<Result<(), SendError<T>>>, Option<Waker>),
    i: int,
)
    requires
        waiters::distinct(old(channel)@.waiters),
        forall|k: int|
            0 <= k < old(channel)@.waiters.len() ==> (#[trigger] old(channel)@.waiters[k]).id
                != old(channel)@.next_id,
        call_ensures(Send_::<T>::poll, (future, channel, waker), r),
    ensures
        old(future).val() is None ==> r.0 == Poll::Ready(Ok::<(), SendError<T>>(())) && r.1 is None
            && final(channel)@ == old(channel)@,
        old(future).val() is Some && old(channel)@.closed ==> {
            &&& r.0 == Poll::Ready(Err::<(), SendError<T>>(SendError(old(future).val()->0)))
            &&& final(future).val() is None
            &&& final(channel)@.queue == old(channel)@.queue
            &&& r.1 is None
        },
        old(future).val() is Some && !old(channel)@.closed && old(channel)@.queue.len() < old(channel)@.cap ==> {
            &&& r.0 == Poll::Ready(Ok::<(), SendError<T>>(()))
            &&& final(future).val() is None
            &&& final(channel)@.queue == old(channel)@.queue.push(old(future).val()->0)
            &&& final(channel)@.sent == old(channel)@.sent.push(old(future).val()->0)
            &&& r.1 == if old(channel)@.recv.armed {
                old(channel)@.recv.cell.waker
            } else {
                None
            }
            &&& !final(channel)@.recv.armed
        },
        old(future).val() is Some && !old(channel)@.closed && old(channel)@.queue.len() >= old(channel)@.cap ==> {
            &&& r.0 is Pending
            &&& r.1 is None
            &&& final(future).val() == old(future).val()
            &&& final(channel)@.queue == old(channel)@.queue
            &&& final(channel)@.recv == old(channel)@.recv
            &&& final(channel)@.waiters.len() > 0
            &&& final(channel)@.waiters.last().waker == *waker
            &&& final(future).parked_id() == Some(final(channel)@.waiters.last().id)
            &&& old(future).parked_id() is None ==> final(channel)@.waiters.drop_last() == old(channel)@.waiters
            &&& old(future).parked_id() is Some && 0 <= i < old(channel)@.waiters.len() && old(channel)@.waiters[i].id == old(future).parked_id()->0
                ==> final(channel)@.waiters.drop_last() == old(channel)@.waiters.take(i) + old(channel)@.waiters.skip(i + 1)
        },
        old(future).val() is Some && r.0 is Ready ==> final(future).parked_id() is None,
        old(future).val() is Some && old(future).parked_id() is Some && r.0 is Ready
            ==> forall|k: int|
            0 <= k < final(channel)@.waiters.len() ==> (#[trigger] final(channel)@.waiters[k]).id
                != old(future).parked_id()->0,
        final(channel)@.senders == old(channel)@.senders,
        final(channel)@.closed == old(channel)@.closed,
        final(channel)@.cap == old(channel)@.cap,
        final(channel)@.fetched == old(channel)@.fetched,
{
    let before = old(channel)@;
    let left = before.unparked(old(future).parked_id());
    if old(future).parked_id() is Some {
        let id = old(future).parked_id()->0;
        before.law_a_sender_that_leaves_is_gone(id, i);
        waiters::lemma_without(before.waiters, id);
    }
    if old(future).val() is Some {
        let val = old(future).val()->0;
        left.law_a_send_goes_behind_what_is_there(seq![val]);
        assert(before.queue + seq![val] =~= before.queue.push(val));
        assert(before.sent + seq![val] =~= before.sent.push(val));
        left.law_a_sender_parks_behind_the_others(*waker);
        assert(left.parked(*waker).waiters.drop_last() =~= left.waiters);
    }
}

/// A sender that gives up gets its item back, if it has not been sent, and is no
/// longer parked, wherever it stood. No item moves.
pub proof fn law_what_cancelling_a_send_does<T>(
    future: Send_<T>,
    channel: &mut Channel<T>,
    r: Option<T>,
    i: int,
)
    requires
        waiters::distinct(old(channel)@.waiters),
        call_ensures(Send_::<T>::cancel, (future, channel), r),
    ensures
        r == future.val(),
        final(channel)@.queue == old(channel)@.queue,
        final(channel)@.sent == old(channel)@.sent,
        final(channel)@.recv == old(channel)@.recv,
        future.parked_id() is None ==> final(channel)@ == old(channel)@,
        future.parked_id() is Some ==> forall|k: int|
            0 <= k < final(channel)@.waiters.len() ==> (#[trigger] final(channel)@.waiters[k]).id
                != future.parked_id()->0,
        future.parked_id() is Some && 0 <= i < old(channel)@.waiters.len() && old(channel)@.waiters[i].id == future.parked_id()->0 ==> final(channel)@.waiters == old(channel)@.waiters.take(i) + old(channel)@.waiters.skip(i + 1),
{
    if future.parked_id() is Some {
        old(channel)@.law_a_sender_that_leaves_is_gone(future.parked_id()->0, i);
    }
}

/// The ends that come and go: each sender counts, the last one to go wakes a parked
/// receiver, and the receiver wakes all parked senders in the order in which they
/// parked. No item moves, and what is in the queue can still be received.
pub proof fn law_what_coming_and_going_does<T>(
    sender: Sender,
    cloned: &mut Channel<T>,
    another: Sender,
    left: &mut Channel<T>,
    r: Option<Waker>,
    receiver: Receiver<T>,
    closed: &mut Channel<T>,
    s: Vec<Waker>,
)
    requires
        old(cloned)@.senders < usize::MAX,
        call_ensures(Sender::clone::<T>, (&sender, cloned), another),
        old(left)@.senders > 0,
        call_ensures(Sender::close::<T>, (sender, left), r),
        call_ensures(Receiver::<T>::close, (receiver, closed), s),
    ensures
        final(cloned)@.senders == old(cloned)@.senders + 1,
        final(cloned)@.queue == old(cloned)@.queue,
        final(cloned)@.closed == old(cloned)@.closed,
        final(cloned)@.waiters == old(cloned)@.waiters,
        final(cloned)@.recv == old(cloned)@.recv,
        final(cloned)@.cap == old(cloned)@.cap,
        final(left)@.senders == old(left)@.senders - 1,
        final(left)@.queue == old(left)@.queue,
        final(left)@.closed == old(left)@.closed,
        final(left)@.waiters == old(left)@.waiters,
        final(left)@.cap == old(left)@.cap,
        r == if old(left)@.senders == 1 && old(left)@.recv.armed {
            old(left)@.recv.cell.waker
        } else {
            None
        },
        old(left)@.senders > 1 ==> final(left)@.recv == old(left)@.recv,
        old(left)@.senders == 1 ==> !final(left)@.recv.armed,
        final(closed)@.closed,
        final(closed)@.queue == old(closed)@.queue,
        final(closed)@.senders == old(closed)@.senders,
        final(closed)@.waiters.len() == 0,
        s@.len() == old(closed)@.waiters.len(),
        forall|k: int| 0 <= k < s@.len() ==> #[trigger] s@[k] == old(closed)@.waiters[k].waker,
{
}

/// The next item is the oldest that has been sent and not been handed out; it is
/// handed out once. There is none left exactly where that is reported, and whether
/// all senders have gone tells which of the two reports comes.
pub proof fn law_what_receiving_one_does<T>(
    receiver: &mut Receiver<T>,
    channel: &mut Channel<T>,
    r: (Result<T, TryRecvError>, Option<Waker>),
)
    requires
        call_ensures(Receiver::<T>::try_recv, (receiver, channel), r),
    ensures
        ({
            let before = old(receiver).staging() + old(channel)@.queue;
            let after = final(receiver).staging() + final(channel)@.queue;
            &&& before.len() > 0 ==> {
                &&& r.0 == Ok::<T, TryRecvError>(before[0])
                &&& before.drop_first() == after
                &&& final(receiver).got() == old(receiver).got().push(before[0])
            }
            &&& before.len() == 0 ==> {
                &&& r.0 is Err
                &&& r.0->Err_0 is Closed <==> old(channel)@.senders == 0
                &&& after.len() == 0
                &&& final(receiver).got() == old(receiver).got()
            }
            &&& r.1 == if old(receiver).staging().len() == 0 && old(channel)@.queue.len() > 0
                && old(channel)@.waiters.len() > 0 {
                Some(old(channel)@.waiters[0].waker)
            } else {
                None
            }
            &&& final(channel)@.sent == old(channel)@.sent
            &&& final(channel)@.senders == old(channel)@.senders
            &&& final(channel)@.closed == old(channel)@.closed
            &&& final(channel)@.recv == old(channel)@.recv
            &&& final(channel)@.cap == old(channel)@.cap
        }),
{
    let before = old(receiver).staging() + old(channel)@.queue;
    old(receiver).law_an_item_is_handed_out_once(old(channel)@, *final(receiver), final(channel)@);
    old(receiver).law_the_oldest_item_comes_next(old(channel)@);
    old(channel)@.law_a_fetch_takes_all_there_is();
    if before.len() > 0 {
        assert(before.drop_first() =~= final(receiver).staging() + final(channel)@.queue);
    } else {
        assert(before =~= Seq::<T>::empty());
    }
}

/// As many items are appended to `out` as were asked for, or all there are where
/// these are fewer, the oldest first, behind what `out` holds. The others are still
/// to come, in their order.
pub proof fn law_what_receiving_many_does<T>(
    receiver: &mut Receiver<T>,
    channel: &mut Channel<T>,
    out: &mut Vec<T>,
    max: usize,
    r: (usize, Option<Waker>),
)
    requires
        call_ensures(Receiver::<T>::recv_many, (receiver, channel, out, max), r),
    ensures
        ({
            let before = old(receiver).staging() + old(channel)@.queue;
            let after = final(receiver).staging() + final(channel)@.queue;
            &&& r.0 <= max
            &&& r.0 == max || after.len() == 0
            &&& final(out)@.len() == old(out)@.len() + r.0
            &&& forall|i: int|
                0 <= i < old(out)@.len() ==> #[trigger] final(out)@[i] == old(out)@[i]
            &&& old(out)@ + before == final(out)@ + after
            &&& final(receiver).got() + after == old(receiver).got() + before
            &&& r.1 == if max > old(receiver).staging().len() && old(channel)@.queue.len() > 0
                && old(channel)@.waiters.len() > 0 {
                Some(old(channel)@.waiters[0].waker)
            } else {
                None
            }
            &&& final(channel)@.sent == old(channel)@.sent
            &&& final(channel)@.senders == old(channel)@.senders
            &&& final(channel)@.closed == old(channel)@.closed
            &&& final(channel)@.recv == old(channel)@.recv
        }),
{
    let before = old(receiver).staging() + old(channel)@.queue;
    let k = r.0 as int;
    old(channel)@.law_a_fetch_takes_all_there_is();
    assert(before =~= before.take(k) + before.skip(k));
    assert(old(out)@ + before =~= final(out)@ + before.skip(k));
    assert(old(receiver).got() + before =~= final(receiver).got() + before.skip(k));
}

/// A future for the next item is ready exactly where there is one or all senders have
/// gone, with the oldest item or with nothing. Otherwise the receiver parks with its
/// waker, and wakes the sender that parked first, in case there is one. No item moves
/// then.
pub proof fn law_what_polling_a_receive_does<T>(
    future: &mut Recv,
    receiver: &mut Receiver<T>,
    channel: &mut Channel<T>,
    waker: &Waker,
    r: (Poll<Option<T>>, Option<Waker>),
)
    requires
        call_ensures(Recv::poll::<T>, (future, receiver, channel, waker), r),
    ensures
        ({
            let before = old(receiver).staging() + old(channel)@.queue;
            let after = final(receiver).staging() + final(channel)@.queue;
            &&& before.len() > 0 ==> {
                &&& r.0 == Poll::Ready(Some(before[0]))
                &&& before.drop_first() == after
                &&& final(receiver).got() == old(receiver).got().push(before[0])
                &&& r.1 == if old(receiver).staging().len() == 0 && old(channel)@.waiters.len()
                    > 0 {
                    Some(old(channel)@.waiters[0].waker)
                } else {
                    None
                }
            }
            &&& before.len() == 0 && old(channel)@.senders == 0 ==> {
                &&& r.0 == Poll::Ready(None::<T>)
                &&& after.len() == 0
            }
            &&& before.len() == 0 && old(channel)@.senders > 0 ==> {
                &&& r.0 is Pending
                &&& after.len() == 0
                &&& final(channel)@.recv.armed
                &&& final(channel)@.recv.cell.waker == Some(*waker)
                &&& r.1 == if old(channel)@.waiters.len() > 0 {
                    Some(old(channel)@.waiters[0].waker)
                } else {
                    None
                }
                &&& final(channel)@.waiters == if old(channel)@.waiters.len() > 0 {
                    old(channel)@.waiters.drop_first()
                } else {
                    old(channel)@.waiters
                }
            }
            &&& final(channel)@.sent == old(channel)@.sent
            &&& final(channel)@.senders == old(channel)@.senders
            &&& final(channel)@.closed == old(channel)@.closed
            &&& final(channel)@.cap == old(channel)@.cap
        }),
{
    let before = old(receiver).staging() + old(channel)@.queue;
    old(receiver).law_the_oldest_item_comes_next(old(channel)@);
    old(channel)@.law_a_fetch_takes_all_there_is();
    old(channel)@.law_a_parked_receiver_waits_for_a_signal(*waker);
    old(channel)@.law_the_first_parked_sender_is_woken();
    if before.len() > 0 || old(channel)@.senders == 0 {
        old(receiver).law_an_item_is_handed_out_once(
            old(channel)@,
            *final(receiver),
            final(channel)@,
        );
        if before.len() > 0 {
            assert(before.drop_first() =~= final(receiver).staging() + final(channel)@.queue);
        } else {
            assert(before =~= Seq::<T>::empty());
        }
    } else if old(channel)@.waiters.len() > 0 {
        assert(old(channel)@.waiters.drop_first() =~= final(channel)@.waiters);
    }
}

/// A channel is made empty, with one sender and its receiver, and has room for as many
/// items as were asked for, but for one at least.
pub proof fn law_what_a_channel_is_made_with<T>(
    capacity: usize,
    r: (Channel<T>, Sender, Receiver<T>),
    gone: bool,
    over: bool,
)
    requires
        call_ensures(bounded::<T>, (capacity,), r),
        call_ensures(Sender::is_closed::<T>, (&r.1, &r.0), gone),
        call_ensures(Receiver::<T>::is_closed, (&r.2, &r.0), over),
    ensures
        capacity > 0 ==> r.0@.cap == capacity,
        capacity == 0 ==> r.0@.cap == 1,
        r.0@.queue.len() == 0,
        r.2.staging().len() == 0,
        r.0@.senders == 1,
        !r.0@.recv.armed,
        r.0@.waiters.len() == 0,
        !gone,
        !over,
{
}

/// A contender for a lock looks again a fixed number of times and no more, and counts each
/// look. How long it spins is drawn: the number goes by the upper six bits of a multiple
/// of what was drawn, which moves on by a fixed step.
pub proof fn law_what_a_contender_does(
    spins: &mut u32,
    r: bool,
    seed: u32,
    wait: u32,
    next: u32,
)
    requires
        call_ensures(spins_again, (spins,), r),
        call_ensures(jitter, (seed,), wait),
        call_ensures(next_seed, (seed,), next),
    ensures
        r <==> *old(spins) < 8,
        r ==> *final(spins) == *old(spins) + 1,
        !r ==> *final(spins) == *old(spins),
        wait < 64,
        wait * 0x400_0000 <= (seed * 2654435761) % 0x1_0000_0000 < (wait + 1) * 0x400_0000,
        (next - seed - 0x6d2b79f5) % 0x1_0000_0000 == 0,
{
}

} // verus!
