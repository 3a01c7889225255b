use vstd::prelude::*;

use std::task::Waker;

use crate::poll::Poll;
use crate::site_d::notify::{SlotState, WaiterSlot};

verus! {

/// A value has been sent.
pub const VALUE_SET: u8 = 1;

/// The sender has gone without sending.
pub const SENDER_DROPPED: u8 = 2;

/// The receiver has gone.
pub const RECEIVER_DROPPED: u8 = 4;

/// The value has been received.
pub const TAKEN: u8 = 8;

/// What has happened to a channel.
pub struct Flags {
    pub value_set: bool,
    pub sender_dropped: bool,
    pub receiver_dropped: bool,
    pub taken: bool,
}

impl Flags {
    /// Nothing has.
    pub open spec fn none() -> Self {
        Flags { value_set: false, sender_dropped: false, receiver_dropped: false, taken: false }
    }

    /// What the bits of `state` say.
    pub open spec fn of(state: u8) -> Self {
        Flags {
            value_set: state & VALUE_SET != 0,
            sender_dropped: state & SENDER_DROPPED != 0,
            receiver_dropped: state & RECEIVER_DROPPED != 0,
            taken: state & TAKEN != 0,
        }
    }
}

/// Each of the bits stands for one thing that has happened, and setting it changes what
/// the others say in nothing.
pub proof fn law_each_bit_has_its_meaning(state: u8)
    ensures
        Flags::of(0) == Flags::none(),
        Flags::of(state | VALUE_SET) == (Flags { value_set: true, ..Flags::of(state) }),
        Flags::of(state | SENDER_DROPPED) == (Flags { sender_dropped: true, ..Flags::of(state) }),
        Flags::of(state | RECEIVER_DROPPED) == (Flags {
            receiver_dropped: true,
            ..Flags::of(state)
        }),
        Flags::of(state | TAKEN) == (Flags { taken: true, ..Flags::of(state) }),
{
    lemma_bits(state);
}

proof fn lemma_bits(s: u8)
    by (bit_vector)
    ensures
        (s | 1) & 1 != 0,
        (s | 1) & 2 == s & 2,
        (s | 1) & 4 == s & 4,
        (s | 1) & 8 == s & 8,
        (s | 2) & 2 != 0,
        (s | 2) & 1 == s & 1,
        (s | 2) & 4 == s & 4,
        (s | 2) & 8 == s & 8,
        (s | 4) & 4 != 0,
        (s | 4) & 1 == s & 1,
        (s | 4) & 2 == s & 2,
        (s | 4) & 8 == s & 8,
        (s | 8) & 8 != 0,
        (s | 8) & 1 == s & 1,
        (s | 8) & 2 == s & 2,
        (s | 8) & 4 == s & 4,
        0u8 & 1 == 0,
        0u8 & 2 == 0,
        0u8 & 4 == 0,
        0u8 & 8 == 0,
{
}

/// The sender was dropped without sending a value.
#[derive(Debug, Clone, Copy, PartialEq, Eq, Structural)]
pub struct RecvError;

/// The state of a channel, as contracts see it.
pub struct OneshotState<T> {
    pub value: Option<T>,
    pub flags: Flags,
    /// The receiver, where it is parked.
    pub recv: SlotState,
    /// Which channel this is. Its sender and receiver carry the same tag.
    pub tag: int,
}

impl<T> OneshotState<T> {
    /// The channel holds a value exactly from the time it is sent to the time it
    /// is received. A sender that has sent is not dropped.
    pub open spec fn inv(self) -> bool {
        &&& self.value is Some <==> self.flags.value_set && !self.flags.taken
        &&& self.flags.taken ==> self.flags.value_set
        &&& !(self.flags.value_set && self.flags.sender_dropped)
        &&& self.recv.quiet()
    }

    /// The sender has neither sent nor gone.
    pub open spec fn open_for_send(self) -> bool {
        !self.flags.value_set && !self.flags.sender_dropped
    }

    /// What the receiver gets now, if the channel has come to a result.
    pub open spec fn resolves(self) -> Option<Result<T, RecvError>> {
        if self.flags.value_set {
            match self.value {
                Some(value) => Some(Ok(value)),
                None => Some(Err(RecvError)),
            }
        } else if self.flags.sender_dropped {
            Some(Err(RecvError))
        } else {
            None
        }
    }

    /// The state after the receiver has looked.
    pub open spec fn resolved(self) -> Self {
        if self.value is Some {
            OneshotState {
                value: None,
                flags: Flags { taken: true, ..self.flags },
                ..self
            }
        } else {
            self
        }
    }

    /// The state after the sender, having seen the flags `seen`, has put
    /// `value` in, before it signals.
    pub open spec fn published(self, seen: Flags, value: T) -> Self {
        OneshotState {
            value: Some(value),
            flags: Flags { value_set: true, ..seen },
            ..self
        }
    }

    /// The state after the receiver has been signalled.
    pub open spec fn signalled(self) -> Self {
        OneshotState { recv: self.recv.signalled(), ..self }
    }

    /// The state after the sender has gone, before it signals.
    pub open spec fn sender_gone(self) -> Self {
        OneshotState { flags: Flags { sender_dropped: true, ..self.flags }, ..self }
    }

    /// The state after the receiver has gone.
    pub open spec fn receiver_gone(self) -> Self {
        OneshotState { flags: Flags { receiver_dropped: true, ..self.flags }, ..self }
    }

    /// What is sent is received, and only once.
    pub proof fn law_sent_is_received_once(self, value: T)
        requires
            self.inv(),
            self.open_for_send(),
        ensures
            self.published(self.flags, value).signalled().resolves() == Some(
                Ok::<T, RecvError>(value),
            ),
            self.published(self.flags, value).signalled().resolved().resolves() == Some(
                Err::<T, RecvError>(RecvError),
            ),
    {
    }

    /// A receiver that goes after the sender has looked, and before it puts the
    /// value in, leaves the value in the channel: nobody receives it, and it is
    /// dropped with the channel.
    pub proof fn law_a_race_with_the_receiver_keeps_the_value(self, value: T)
        requires
            self.inv(),
            self.open_for_send(),
        ensures
            self.receiver_gone().published(self.flags, value).inv(),
            self.receiver_gone().published(self.flags, value).value == Some(value),
    {
    }

    /// A sender that goes without sending leaves the receiver an error, and
    /// wakes it where it is parked.
    pub proof fn law_a_dropped_sender_resolves(self)
        requires
            self.inv(),
            self.open_for_send(),
        ensures
            self.sender_gone().resolves() == Some(Err::<T, RecvError>(RecvError)),
            self.recv.armed ==> self.sender_gone().recv.signals() == self.recv.cell.waker,
    {
    }

    /// The receiver gets the value exactly from the time it is sent, once; an error
    /// where the sender has gone without sending, or the value has been received; and
    /// nothing before. Looking takes the value out and changes nothing else.
    pub proof fn law_what_the_receiver_gets(self)
        requires
            self.inv(),
        ensures
            self.flags.value_set && !self.flags.taken ==> self.value is Some && self.resolves()
                == Some(Ok::<T, RecvError>(self.value->0)),
            self.flags.value_set && self.flags.taken ==> self.resolves() == Some(
                Err::<T, RecvError>(RecvError),
            ),
            !self.flags.value_set && self.flags.sender_dropped ==> self.resolves() == Some(
                Err::<T, RecvError>(RecvError),
            ),
            !self.flags.value_set && !self.flags.sender_dropped ==> self.resolves() is None,
            self.resolved().value is None,
            self.resolved().flags.taken <==> self.flags.taken || self.value is Some,
            self.resolved().flags.value_set == self.flags.value_set,
            self.resolved().flags.sender_dropped == self.flags.sender_dropped,
            self.resolved().flags.receiver_dropped == self.flags.receiver_dropped,
            self.resolved().recv == self.recv,
            self.resolved().tag == self.tag,
    {
    }

    /// What the ends do: a value that is put in is there, and counts as sent; an end that
    /// goes counts as gone. A signal wakes the receiver, and changes nothing else.
    pub proof fn law_what_the_ends_do(self, seen: Flags, value: T)
        ensures
            self.published(seen, value).value == Some(value),
            self.published(seen, value).flags == (Flags { value_set: true, ..seen }),
            self.published(seen, value).recv == self.recv,
            self.published(seen, value).tag == self.tag,
            self.sender_gone().flags == (Flags { sender_dropped: true, ..self.flags }),
            self.sender_gone().value == self.value,
            self.sender_gone().recv == self.recv,
            self.sender_gone().tag == self.tag,
            self.receiver_gone().flags == (Flags { receiver_dropped: true, ..self.flags }),
            self.receiver_gone().value == self.value,
            self.receiver_gone().recv == self.recv,
            self.receiver_gone().tag == self.tag,
            self.signalled().value == self.value,
            self.signalled().flags == self.flags,
            self.signalled().tag == self.tag,
            self.recv.armed ==> !self.signalled().recv.armed,
            !self.recv.armed ==> self.signalled().recv == self.recv,
            self.open_for_send() <==> !self.flags.value_set && !self.flags.sender_dropped,
            !Flags::none().value_set && !Flags::none().sender_dropped
                && !Flags::none().receiver_dropped && !Flags::none().taken,
    {
    }
}

/// A channel for a single value.
///
/// The two ends do not hold the channel: each operation is handed it. Wakers are
/// handed back to the caller, who calls them.
pub struct Oneshot<T> {
    value: Option<T>,
    state: u8,
    recv: WaiterSlot,
    tag: Ghost<int>,
}

impl<T> View for Oneshot<T> {
    type V = OneshotState<T>;

    closed spec fn view(&self) -> OneshotState<T> {
        OneshotState {
            value: self.value,
            flags: Flags::of(self.state),
            recv: self.recv@,
            tag: self.tag@,
        }
    }
}

/// The end of a channel that sends.
pub struct Sender {
    tag: Ghost<int>,
}

/// The end of a channel that receives.
pub struct Receiver {
    tag: Ghost<int>,
}

/// A channel and its two ends.
pub fn oneshot<T>() -> (r: (Oneshot<T>, Sender, Receiver))
    ensures
        r.0.wf(),
        r.0@ == (OneshotState {
            value: None::<T>,
            flags: Flags::none(),
            recv: SlotState::idle(),
            tag: r.0@.tag,
        }),
        r.1.tag() == r.0@.tag,
        r.2.tag() == r.0@.tag,
{
    proof {
        lemma_bits(0);
    }
    let ghost tag: int = arbitrary();
    (
        Oneshot { value: None, state: 0, recv: WaiterSlot::new(), tag: Ghost(tag) },
        Sender { tag: Ghost(tag) },
        Receiver { tag: Ghost(tag) },
    )
}

impl<T> Oneshot<T> {
    pub closed spec fn wf(self) -> bool {
        self@.inv()
    }

    /// What holds of every channel.
    pub proof fn lemma_wf(self)
        requires
            self.wf(),
        ensures
            self@.inv(),
    {
    }

    /// What holds of every channel: it holds a value exactly from the time it is sent to
    /// the time it is received, and a sender that has sent does not count as dropped.
    pub proof fn law_a_value_is_there_while_it_is_owed(self)
        requires
            self.wf(),
        ensures
            self@.value is Some <==> self@.flags.value_set && !self@.flags.taken,
            self@.flags.taken ==> self@.flags.value_set,
            !(self@.flags.value_set && self@.flags.sender_dropped),
            self@.recv.cell.state == 0,
    {
    }

    closed spec fn bits(self) -> u8 {
        self.state
    }

    /// Takes the value out, where it has not been taken yet. `seen` is the state
    /// as the caller has just read it.
    fn take_value(&mut self, seen: u8) -> (r: Option<T>)
        requires
            old(self).wf(),
            seen == old(self).bits(),
            old(self)@.flags.value_set,
        ensures
            final(self).wf(),
            r == old(self)@.value,
            final(self)@ == old(self)@.resolved(),
    {
        proof {
            lemma_bits(seen);
        }
        if seen & TAKEN != 0 {
            None
        } else {
            self.state = seen | TAKEN;
            self.value.take()
        }
    }

    /// What the channel has come to, if anything.
    fn resolve(&mut self) -> (r: Option<Result<T, RecvError>>)
        requires
            old(self).wf(),
        ensures
            final(self).wf(),
            r == old(self)@.resolves(),
            final(self)@ == old(self)@.resolved(),
    {
        let seen: u8 = self.state;
        if seen & VALUE_SET != 0 {
            match self.take_value(seen) {
                Some(value) => Some(Ok(value)),
                None => Some(Err(RecvError)),
            }
        } else if seen & SENDER_DROPPED != 0 {
            Some(Err(RecvError))
        } else {
            None
        }
    }

    /// The state, as a sender reads it before it sends.
    pub fn load(&self) -> (r: u8)
        ensures
            Flags::of(r) == self@.flags,
    {
        self.state
    }

    /// Puts `value` in for a sender that has read the state `seen`. The receiver
    /// may have gone since.
    pub fn publish(&mut self, seen: u8, value: T)
        requires
            old(self).wf(),
            old(self)@.open_for_send(),
            Flags::of(seen) == old(self)@.flags || (Flags {
                receiver_dropped: true,
                ..Flags::of(seen)
            }) == old(self)@.flags,
        ensures
            final(self).wf(),
            final(self)@ == old(self)@.published(Flags::of(seen), value),
    {
        proof {
            lemma_bits(seen);
        }
        self.value = Some(value);
        self.state = seen | VALUE_SET;
    }

    /// Wakes the receiver, where it is parked. Returns its waker.
    pub fn signal(&mut self) -> (r: Option<Waker>)
        requires
            old(self).wf(),
        ensures
            final(self).wf(),
            final(self)@ == old(self)@.signalled(),
            r == old(self)@.recv.signals(),
    {
        self.recv.signal()
    }
}

impl Sender {
    /// Which channel the sender is of.
    pub closed spec fn tag(self) -> int {
        self.tag@
    }

    /// Sends `value`. Where the receiver has gone, hands it back; the sender is
    /// then gone too. Returns also the waker to call.
    pub fn send<T>(self, channel: &mut Oneshot<T>, value: T) -> (r: (Result<(), T>, Option<Waker>))
        requires
            old(channel).wf(),
            old(channel)@.open_for_send(),
            self.tag() == old(channel)@.tag,
        ensures
            final(channel).wf(),
            old(channel)@.flags.receiver_dropped ==> {
                &&& r.0 == Err::<(), T>(value)
                &&& final(channel)@ == old(channel)@.sender_gone().signalled()
            },
            !old(channel)@.flags.receiver_dropped ==> {
                &&& r.0 == Ok::<(), T>(())
                &&& final(channel)@ == old(channel)@.published(
                    old(channel)@.flags,
                    value,
                ).signalled()
            },
            r.1 == old(channel)@.recv.signals(),
    {
        let seen: u8 = channel.load();
        if seen & RECEIVER_DROPPED != 0 {
            let waker = self.close(channel);
            return (Err(value), waker);
        }
        channel.publish(seen, value);
        let waker = channel.signal();
        (Ok(()), waker)
    }

    /// Whether the receiver has gone, so that sending would fail.
    pub fn is_closed<T>(&self, channel: &Oneshot<T>) -> (r: bool)
        requires
            self.tag() == channel@.tag,
        ensures
            r == channel@.flags.receiver_dropped,
    {
        channel.state & RECEIVER_DROPPED != 0
    }

    /// Goes without sending. Returns the waker to call.
    pub fn close<T>(self, channel: &mut Oneshot<T>) -> (r: Option<Waker>)
        requires
            old(channel).wf(),
            old(channel)@.open_for_send(),
            self.tag() == old(channel)@.tag,
        ensures
            final(channel).wf(),
            final(channel)@ == old(channel)@.sender_gone().signalled(),
            r == old(channel)@.recv.signals(),
    {
        proof {
            lemma_bits(channel.state);
        }
        channel.state = channel.state | SENDER_DROPPED;
        channel.recv.signal()
    }
}

impl Receiver {
    /// Which channel the receiver is of.
    pub closed spec fn tag(self) -> int {
        self.tag@
    }

    /// The value if it is there, nothing if it is not there yet or has been
    /// received, an error if the sender went without sending.
    pub fn try_recv<T>(&mut self, channel: &mut Oneshot<T>) -> (r: Result<Option<T>, RecvError>)
        requires
            old(channel).wf(),
            old(self).tag() == old(channel)@.tag,
        ensures
            final(channel).wf(),
            *final(self) == *old(self),
            r == if old(channel)@.flags.sender_dropped {
                Err::<Option<T>, RecvError>(RecvError)
            } else {
                Ok(old(channel)@.value)
            },
            final(channel)@ == old(channel)@.resolved(),
    {
        let seen: u8 = channel.state;
        if seen & VALUE_SET != 0 {
            Ok(channel.take_value(seen))
        } else if seen & SENDER_DROPPED != 0 {
            Err(RecvError)
        } else {
            Ok(None)
        }
    }

    /// Polls for the value. Where the channel has come to no result, the
    /// receiver parks.
    pub fn poll<T>(&mut self, channel: &mut Oneshot<T>, waker: &Waker) -> (r: Poll<
        Result<T, RecvError>,
    >)
        requires
            old(channel).wf(),
            old(self).tag() == old(channel)@.tag,
        ensures
            final(channel).wf(),
            *final(self) == *old(self),
            match old(channel)@.resolves() {
                Some(result) => {
                    &&& r == Poll::Ready(result)
                    &&& final(channel)@ == old(channel)@.resolved()
                },
                None => {
                    &&& r is Pending
                    &&& final(channel)@ == (OneshotState {
                        recv: old(channel)@.recv.armed_with(*waker),
                        ..old(channel)@
                    })
                },
            },
    {
        if let Some(result) = channel.resolve() {
            return Poll::Ready(result);
        }
        let _ = channel.recv.arm(waker);
        match channel.resolve() {
            Some(result) => {
                channel.recv.disarm();
                Poll::Ready(result)
            },
            None => Poll::Pending,
        }
    }

    /// Goes. A value that has been sent stays in the channel.
    pub fn close<T>(self, channel: &mut Oneshot<T>)
        requires
            old(channel).wf(),
            self.tag() == old(channel)@.tag,
        ensures
            final(channel).wf(),
            final(channel)@ == old(channel)@.receiver_gone(),
    {
        proof {
            lemma_bits(channel.state);
        }
        channel.state = channel.state | RECEIVER_DROPPED;
    }
}

/// A value is sent exactly where the receiver has not gone: it is then in the channel, and
/// a parked receiver is woken. Otherwise it is handed back, and nothing is in the
/// channel.
pub proof fn law_what_sending_does<T>(
    sender: Sender,
    channel: &mut Oneshot<T>,
    value: T,
    r: (Result<(), T>, Option<Waker>),
)
    requires
        call_ensures(Sender::send::<T>, (sender, channel, value), r),
    ensures
        old(channel)@.flags.receiver_dropped ==> {
            &&& r.0 == Err::<(), T>(value)
            &&& final(channel)@.value == old(channel)@.value
            &&& final(channel)@.flags.sender_dropped
            &&& final(channel)@.flags.value_set == old(channel)@.flags.value_set
        },
        !old(channel)@.flags.receiver_dropped ==> {
            &&& r.0 is Ok
            &&& final(channel)@.value == Some(value)
            &&& final(channel)@.flags.value_set
            &&& final(channel)@.flags.sender_dropped == old(channel)@.flags.sender_dropped
            &&& final(channel)@.flags.taken == old(channel)@.flags.taken
        },
        r.1 == if old(channel)@.recv.armed {
            old(channel)@.recv.cell.waker
        } else {
            None
        },
        !final(channel)@.recv.armed,
        final(channel)@.flags.receiver_dropped == old(channel)@.flags.receiver_dropped,
{
}

/// What is sent is what is received next, and after that nothing comes any more.
pub proof fn law_what_is_sent_is_received<T>(
    sender: Sender,
    channel: &mut Oneshot<T>,
    value: T,
    r: (Result<(), T>, Option<Waker>),
    receiver: &mut Receiver,
    filled: &mut Oneshot<T>,
    s: Result<Option<T>, RecvError>,
    again: &mut Receiver,
    empty: &mut Oneshot<T>,
    t: Result<Option<T>, RecvError>,
)
    requires
        old(channel).wf(),
        !old(channel)@.flags.sender_dropped,
        call_ensures(Sender::send::<T>, (sender, channel, value), r),
        *old(filled) == *final(channel),
        call_ensures(Receiver::try_recv::<T>, (receiver, filled), s),
        *old(empty) == *final(filled),
        call_ensures(Receiver::try_recv::<T>, (again, empty), t),
    ensures
        r.0 is Ok ==> s == Ok::<Option<T>, RecvError>(Some(value)) && t == Ok::<
            Option<T>,
            RecvError,
        >(None),
        r.0 is Err ==> s is Err && t is Err,
{
}

/// The ends that go: a sender that goes without sending leaves an error to come and wakes a
/// parked receiver; a receiver that goes leaves what is in the channel. Each is seen to
/// have gone.
pub proof fn law_what_going_does<T>(
    sender: Sender,
    left: &mut Oneshot<T>,
    r: Option<Waker>,
    receiver: Receiver,
    closed: &mut Oneshot<T>,
    u: (),
    channel: Oneshot<T>,
    gone: bool,
)
    requires
        call_ensures(Sender::close::<T>, (sender, left), r),
        call_ensures(Receiver::close::<T>, (receiver, closed), u),
        call_ensures(Sender::is_closed::<T>, (&sender, &channel), gone),
    ensures
        final(left)@.flags.sender_dropped,
        final(left)@.flags.value_set == old(left)@.flags.value_set,
        final(left)@.flags.receiver_dropped == old(left)@.flags.receiver_dropped,
        final(left)@.value == old(left)@.value,
        r == if old(left)@.recv.armed {
            old(left)@.recv.cell.waker
        } else {
            None
        },
        !final(left)@.recv.armed,
        final(closed)@.flags.receiver_dropped,
        final(closed)@.flags.value_set == old(closed)@.flags.value_set,
        final(closed)@.flags.sender_dropped == old(closed)@.flags.sender_dropped,
        final(closed)@.flags.taken == old(closed)@.flags.taken,
        final(closed)@.value == old(closed)@.value,
        final(closed)@.recv == old(closed)@.recv,
        gone == channel@.flags.receiver_dropped,
{
}

/// A receiver that is polled gets the value where it has been sent and not been received,
/// an error where it has been received or the sender has gone, and parks otherwise. The
/// value is then out of the channel. Trying to receive gives nothing in place of the
/// error where the value has been received, and never parks.
pub proof fn law_what_receiving_does<T>(
    receiver: &mut Receiver,
    channel: &mut Oneshot<T>,
    waker: &Waker,
    r: Poll<Result<T, RecvError>>,
    other: &mut Receiver,
    tried: &mut Oneshot<T>,
    s: Result<Option<T>, RecvError>,
)
    requires
        old(channel).wf(),
        call_ensures(Receiver::poll::<T>, (receiver, channel, waker), r),
        old(tried).wf(),
        call_ensures(Receiver::try_recv::<T>, (other, tried), s),
    ensures
        ({
            let flags = old(channel)@.flags;
            &&& flags.value_set && !flags.taken ==> {
                &&& r == Poll::Ready(Ok::<T, RecvError>(old(channel)@.value->0))
                &&& final(channel)@.value is None
                &&& final(channel)@.flags.taken
            }
            &&& flags.value_set && flags.taken || flags.sender_dropped ==> r == Poll::Ready(
                Err::<T, RecvError>(RecvError),
            )
            &&& !flags.value_set && !flags.sender_dropped ==> {
                &&& r is Pending
                &&& final(channel)@.recv.armed
                &&& final(channel)@.recv.cell.waker == Some(*waker)
            }
            &&& r is Ready ==> final(channel)@.recv == old(channel)@.recv
            &&& final(channel)@.flags.value_set == flags.value_set
            &&& final(channel)@.flags.sender_dropped == flags.sender_dropped
            &&& final(channel)@.flags.receiver_dropped == flags.receiver_dropped
        }),
        ({
            let flags = old(tried)@.flags;
            &&& flags.value_set && !flags.taken ==> {
                &&& s is Ok && s->Ok_0 is Some && s->Ok_0 == old(tried)@.value
                &&& final(tried)@.value is None
                &&& final(tried)@.flags.taken
            }
            &&& flags.value_set && flags.taken ==> s == Ok::<Option<T>, RecvError>(None)
            &&& flags.sender_dropped ==> s is Err
            &&& !flags.value_set && !flags.sender_dropped ==> s == Ok::<Option<T>, RecvError>(None)
            &&& final(tried)@.recv == old(tried)@.recv
        }),
{
    old(channel)@.law_what_the_receiver_gets();
    old(tried)@.law_what_the_receiver_gets();
}

/// A channel is made empty, with both its ends there and nobody parked.
pub proof fn law_what_a_channel_is_made_with<T>(r: (Oneshot<T>, Sender, Receiver))
    requires
        call_ensures(oneshot::<T>, (), r),
    ensures
        r.0@.value is None,
        !r.0@.flags.value_set && !r.0@.flags.taken,
        !r.0@.flags.sender_dropped && !r.0@.flags.receiver_dropped,
        !r.0@.recv.armed,
{
}

} // verus!
