use vstd::prelude::*;

use std::task::Waker;

verus! {

/// Neither a registration nor a wake is under way.
pub const WAITING: usize = 0;

/// A task is storing its waker.
pub const REGISTERING: usize = 1;

/// A wake is taking the waker.
pub const WAKING: usize = 2;

/// The state of a waker cell, as contracts see it.
pub struct CellState {
    /// `WAITING`, or `REGISTERING` and `WAKING` in any combination. Whoever set
    /// the one that came first has the waker to itself.
    pub state: usize,
    pub waker: Option<Waker>,
}

impl CellState {
    pub open spec fn wf(self) -> bool {
        self.state <= 3
    }

    /// Whether a registration has the waker to itself.
    pub open spec fn registering(self) -> bool {
        self.state == 1 || self.state == 3
    }

    /// Whether a wake has the waker to itself.
    pub open spec fn taking(self) -> bool {
        self.state == 2
    }

    /// After a registration has tried to begin.
    pub open spec fn began_register(self) -> Self {
        if self.state == 0 {
            CellState { state: 1, ..self }
        } else {
            self
        }
    }

    /// After a registration has stored `waker`.
    pub open spec fn stored(self, waker: Waker) -> Self {
        CellState { waker: Some(waker), ..self }
    }

    /// After a registration has ended. Where a wake came meanwhile, the waker is
    /// taken out.
    pub open spec fn finished_register(self) -> Self {
        CellState {
            state: 0,
            waker: if self.state == 1 {
                self.waker
            } else {
                None
            },
        }
    }

    /// The waker to call when a registration ends: the one that is there, where
    /// a wake came meanwhile.
    pub open spec fn fires(self) -> Option<Waker> {
        if self.state == 1 {
            None
        } else {
            self.waker
        }
    }

    /// After a wake has begun.
    pub open spec fn began_take(self) -> Self {
        CellState {
            state: if self.state < 2 {
                (self.state + 2) as usize
            } else {
                self.state
            },
            ..self
        }
    }

    /// After a wake that has the waker to itself has taken it.
    pub open spec fn finished_take(self) -> Self {
        CellState { state: 0, waker: None }
    }

    /// Two parties never have the waker to themselves at once, and no step of
    /// one lets the other in: a registration can begin only where nothing is
    /// under way, and a wake takes the waker only where nothing is.
    pub proof fn law_the_waker_is_never_shared(self)
        requires
            self.wf(),
        ensures
            !(self.registering() && self.taking()),
            self.registering() ==> self.began_register() == self && self.began_take().registering(),
            self.taking() ==> self.began_register() == self && self.began_take() == self,
            self.began_register().wf(),
            self.began_take().wf(),
            self.finished_register().wf(),
    {
    }

    /// A wake that comes while a registration is under way is not lost: however
    /// many come, the registration calls the waker it stored.
    pub proof fn law_a_wake_during_registration_fires(self, waker: Waker)
        requires
            self.state == 0,
        ensures
            self.began_register().stored(waker).began_take().fires() == Some(waker),
            self.began_register().began_take().stored(waker).fires() == Some(waker),
            self.began_register().stored(waker).began_take().began_take().fires() == Some(waker),
    {
    }

    /// What the steps do: a registration begins only where nothing is under way, stores
    /// its waker, and leaves it there unless a wake came meanwhile. A wake leaves its
    /// mark, and takes the waker where nothing was under way. No step but these
    /// touches the waker.
    pub proof fn law_what_the_steps_do(self, waker: Waker)
        requires
            self.wf(),
        ensures
            self.registering() <==> self.state == 1 || self.state == 3,
            self.taking() <==> self.state == 2,
            self.began_register().state == if self.state == 0 {
                1usize
            } else {
                self.state
            },
            self.began_register().waker == self.waker,
            self.stored(waker).waker == Some(waker),
            self.stored(waker).state == self.state,
            self.finished_register().state == 0,
            self.state == 1 ==> self.finished_register().waker == self.waker && self.fires() is None,
            self.state == 3 ==> self.finished_register().waker is None && self.fires()
                == self.waker,
            self.began_take().waker == self.waker,
            self.began_take().state >= 2,
            self.began_take().state == 3 <==> self.registering(),
            self.finished_take().state == 0,
            self.finished_take().waker is None,
    {
    }
}

/// A waker that one task at a time registers and others take. The operations
/// are made of steps, each of which is atomic; steps of a registration and of
/// wakes may alternate.
pub struct AtomicWaker {
    state: usize,
    waker: Option<Waker>,
}

impl View for AtomicWaker {
    type V = CellState;

    closed spec fn view(&self) -> CellState {
        CellState { state: self.state, waker: self.waker }
    }
}

impl AtomicWaker {
    /// A cell without a waker.
    pub fn new() -> (r: Self)
        ensures
            r@ == (CellState { state: 0, waker: None }),
    {
        AtomicWaker { state: WAITING, waker: None }
    }

    /// First step of a registration. Returns whether it may go on.
    pub fn begin_register(&mut self) -> (r: bool)
        ensures
            final(self)@ == old(self)@.began_register(),
            r == (old(self)@.state == 0),
    {
        if self.state == WAITING {
            self.state = REGISTERING;
            true
        } else {
            false
        }
    }

    /// Second step of a registration: stores `waker`, unless an equivalent one
    /// is there.
    pub fn store(&mut self, waker: &Waker)
        requires
            old(self)@.registering(),
        ensures
            final(self)@ == old(self)@.stored(*waker),
    {
        let same = match &self.waker {
            Some(stored) => stored.will_wake(waker),
            None => false,
        };
        if !same {
            self.waker = Some(waker.clone());
        }
    }

    /// Last step of a registration. Returns the waker to call, where a wake came
    /// meanwhile.
    pub fn finish_register(&mut self) -> (r: Option<Waker>)
        requires
            old(self)@.registering(),
        ensures
            final(self)@ == old(self)@.finished_register(),
            r == old(self)@.fires(),
    {
        let raced = self.state != REGISTERING;
        self.state = WAITING;
        if raced {
            self.waker.take()
        } else {
            None
        }
    }

    /// Registers `waker`. Returns the waker to call at once, which is `waker`
    /// itself where something else is under way.
    pub fn register(&mut self, waker: &Waker) -> (r: Option<Waker>)
        ensures
            old(self)@.state == 0 ==> r is None && final(self)@ == (CellState {
                state: 0,
                waker: Some(*waker),
            }),
            old(self)@.state != 0 ==> r == Some(*waker) && final(self)@ == old(self)@,
    {
        if self.begin_register() {
            self.store(waker);
            self.finish_register()
        } else {
            Some(waker.clone())
        }
    }

    /// First step of a wake. Returns whether it has the waker to itself. Where a
    /// registration is under way, that calls the waker instead.
    pub fn begin_take(&mut self) -> (r: bool)
        requires
            old(self)@.wf(),
        ensures
            final(self)@ == old(self)@.began_take(),
            r == (old(self)@.state == 0),
    {
        let before: usize = self.state;
        assert(before <= 3 ==> (before | 2) == (if before < 2 {
            before + 2
        } else {
            before as int
        })) by (bit_vector);
        self.state = before | WAKING;
        before == WAITING
    }

    /// Last step of a wake that has the waker to itself: takes it.
    pub fn finish_take(&mut self) -> (r: Option<Waker>)
        requires
            old(self)@.taking(),
        ensures
            final(self)@ == old(self)@.finished_take(),
            r == old(self)@.waker,
    {
        let taken = self.waker.take();
        assert(2usize & !2usize == 0) by (bit_vector);
        self.state = self.state & !WAKING;
        taken
    }

    /// Takes the waker, where nothing is under way.
    pub fn take(&mut self) -> (r: Option<Waker>)
        requires
            old(self)@.wf(),
        ensures
            old(self)@.state == 0 ==> r == old(self)@.waker && final(self)@ == (CellState {
                state: 0,
                waker: None,
            }),
            old(self)@.state != 0 ==> r is None && final(self)@ == old(self)@.began_take(),
    {
        if self.begin_take() {
            self.finish_take()
        } else {
            None
        }
    }

    /// Wakes the registered task: returns the waker to call.
    pub fn wake(&mut self) -> (r: Option<Waker>)
        requires
            old(self)@.wf(),
        ensures
            old(self)@.state == 0 ==> r == old(self)@.waker && final(self)@ == (CellState {
                state: 0,
                waker: None,
            }),
            old(self)@.state != 0 ==> r is None && final(self)@ == old(self)@.began_take(),
    {
        self.take()
    }
}

/// The state of a waiter slot, as contracts see it.
pub struct SlotState {
    pub cell: CellState,
    /// Whether a task is parked or about to park.
    pub armed: bool,
}

impl SlotState {
    /// Nobody has parked yet.
    pub open spec fn idle() -> Self {
        SlotState { cell: CellState { state: 0, waker: None }, armed: false }
    }

    /// No registration and no wake is under way.
    pub open spec fn quiet(self) -> bool {
        self.cell.state == 0
    }

    /// After a task has armed the slot with `waker`.
    pub open spec fn armed_with(self, waker: Waker) -> Self {
        SlotState { cell: CellState { state: 0, waker: Some(waker) }, armed: true }
    }

    pub open spec fn disarmed(self) -> Self {
        SlotState { armed: false, ..self }
    }

    /// After the slot has been signalled.
    pub open spec fn signalled(self) -> Self {
        if self.armed {
            SlotState { cell: CellState { state: 0, waker: None }, armed: false }
        } else {
            self
        }
    }

    /// The waker that a signal calls, if any.
    pub open spec fn signals(self) -> Option<Waker> {
        if self.armed {
            self.cell.waker
        } else {
            None
        }
    }

    /// A signal after a task has armed the slot calls the task's waker, once.
    pub proof fn law_an_armed_task_is_woken_once(self, waker: Waker)
        ensures
            self.armed_with(waker).signals() == Some(waker),
            self.armed_with(waker).signalled().signals() is None,
            self.armed_with(waker).disarmed().signals() is None,
    {
    }

    /// A signal reaches a parked task exactly where the slot is armed. It calls the
    /// waker that the slot was armed with, which is then gone, and disarms the slot. A
    /// signal to a slot that is not armed changes nothing.
    pub proof fn law_what_a_signal_does(self, waker: Waker)
        ensures
            self.armed ==> {
                &&& self.signals() == self.cell.waker
                &&& !self.signalled().armed
                &&& self.signalled().cell.waker is None
                &&& self.signalled().cell.state == 0
            },
            !self.armed ==> self.signals() is None && self.signalled() == self,
            self.armed_with(waker).armed,
            self.armed_with(waker).cell.waker == Some(waker),
            self.armed_with(waker).cell.state == 0,
            !self.disarmed().armed,
            self.disarmed().cell == self.cell,
            !SlotState::idle().armed,
            SlotState::idle().cell.waker is None,
            SlotState::idle().quiet(),
            self.quiet() <==> self.cell.state == 0,
    {
    }
}

/// One direction of a wakeup between two parties: the waker of the party that
/// waits, and a flag that tells the other whether there is anyone to wake.
///
/// The party that signals first makes public what is being waited for. The
/// party that waits first arms the slot and then looks once more.
pub struct WaiterSlot {
    waker: AtomicWaker,
    armed: bool,
}

impl View for WaiterSlot {
    type V = SlotState;

    closed spec fn view(&self) -> SlotState {
        SlotState { cell: self.waker@, armed: self.armed }
    }
}

impl WaiterSlot {
    /// A slot that is not armed.
    pub fn new() -> (r: Self)
        ensures
            r@ == SlotState::idle(),
    {
        WaiterSlot { waker: AtomicWaker::new(), armed: false }
    }

    /// Registers `waker` and arms the slot. The caller has to look once more
    /// for what it waits for. Returns the waker to call.
    pub fn arm(&mut self, waker: &Waker) -> (r: Option<Waker>)
        requires
            old(self)@.quiet(),
        ensures
            final(self)@ == old(self)@.armed_with(*waker),
            r is None,
    {
        let raced = self.waker.register(waker);
        self.armed = true;
        raced
    }

    /// Disarms the slot: what was waited for has come.
    pub fn disarm(&mut self)
        ensures
            final(self)@ == old(self)@.disarmed(),
    {
        self.armed = false;
    }

    /// Wakes the parked task, if there is one. Returns its waker.
    pub fn signal(&mut self) -> (r: Option<Waker>)
        requires
            old(self)@.quiet(),
        ensures
            final(self)@ == old(self)@.signalled(),
            r == old(self)@.signals(),
    {
        if self.armed {
            self.signal_slow()
        } else {
            None
        }
    }

    fn signal_slow(&mut self) -> (r: Option<Waker>)
        requires
            old(self)@.quiet(),
        ensures
            final(self)@ == old(self)@.signalled(),
            r == old(self)@.signals(),
    {
        let claimed = self.armed;
        self.armed = false;
        if claimed {
            self.waker.wake()
        } else {
            None
        }
    }
}

/// Where a party that waits stands.
pub enum WaiterPc {
    /// About to register its waker.
    Register,
    /// About to store its waker.
    Store,
    /// About to end the registration.
    Finish,
    /// About to set the flag.
    Arm,
    /// About to look once more.
    Recheck,
    Parked,
    /// It found what it waited for.
    Proceeding,
}

/// Where a party that signals stands.
pub enum SignalPc {
    /// About to make public what is waited for.
    Publish,
    /// About to read the flag.
    Load,
    /// About to claim the flag.
    Swap,
    /// About to begin the wake.
    Begin,
    /// About to take the waker.
    Finish,
    Done,
}

/// Two parties at a waiter slot, each somewhere in its sequence of atomic steps.
pub struct Handshake {
    pub slot: SlotState,
    /// The waker of the party that waits.
    pub waker: Waker,
    /// What is waited for has been made public.
    pub published: bool,
    /// The waker has been called since the party began to wait.
    pub fired: bool,
    pub waiter: WaiterPc,
    pub signaller: SignalPc,
    /// The signal under way is an earlier one, which made nothing public that is
    /// waited for now.
    pub earlier: bool,
}

impl Handshake {
    /// The party that waits is about to begin. The other is about to signal, or
    /// still busy with an earlier signal.
    pub open spec fn starts(self) -> bool {
        &&& self.waiter is Register
        &&& !self.published
        &&& !self.fired
        &&& self.signaller is Publish ==> !self.earlier
        &&& !(self.signaller is Publish) ==> self.earlier && !(self.signaller is Done)
        &&& self.slot.cell.state == if self.signaller is Finish {
            2usize
        } else {
            0usize
        }
    }

    /// The state after the next step of the party that waits.
    pub open spec fn waiter_steps(self) -> Self {
        let cell = self.slot.cell;
        match self.waiter {
            WaiterPc::Register => if cell.state == 0 {
                Handshake {
                    slot: SlotState { cell: cell.began_register(), ..self.slot },
                    waiter: WaiterPc::Store,
                    ..self
                }
            } else {
                Handshake { fired: true, waiter: WaiterPc::Arm, ..self }
            },
            WaiterPc::Store => Handshake {
                slot: SlotState { cell: cell.stored(self.waker), ..self.slot },
                waiter: WaiterPc::Finish,
                ..self
            },
            WaiterPc::Finish => Handshake {
                slot: SlotState { cell: cell.finished_register(), ..self.slot },
                fired: self.fired || cell.fires() == Some(self.waker),
                waiter: WaiterPc::Arm,
                ..self
            },
            WaiterPc::Arm => Handshake {
                slot: SlotState { armed: true, ..self.slot },
                waiter: WaiterPc::Recheck,
                ..self
            },
            WaiterPc::Recheck => if self.published {
                Handshake {
                    slot: self.slot.disarmed(),
                    waiter: WaiterPc::Proceeding,
                    ..self
                }
            } else {
                Handshake { waiter: WaiterPc::Parked, ..self }
            },
            _ => self,
        }
    }

    /// The state after a signal has come to its end.
    pub open spec fn signal_ended(self) -> Self {
        if self.earlier {
            Handshake { signaller: SignalPc::Publish, earlier: false, ..self }
        } else {
            Handshake { signaller: SignalPc::Done, ..self }
        }
    }

    /// The state after the next step of the party that signals.
    pub open spec fn signaller_steps(self) -> Self {
        let cell = self.slot.cell;
        match self.signaller {
            SignalPc::Publish => Handshake {
                published: true,
                signaller: SignalPc::Load,
                ..self
            },
            SignalPc::Load => if self.slot.armed {
                Handshake { signaller: SignalPc::Swap, ..self }
            } else {
                self.signal_ended()
            },
            SignalPc::Swap => if self.slot.armed {
                Handshake {
                    slot: self.slot.disarmed(),
                    signaller: SignalPc::Begin,
                    ..self
                }
            } else {
                self.signal_ended()
            },
            SignalPc::Begin => {
                let next = Handshake {
                    slot: SlotState { cell: cell.began_take(), ..self.slot },
                    ..self
                };
                if cell.state == 0 {
                    Handshake { signaller: SignalPc::Finish, ..next }
                } else {
                    next.signal_ended()
                }
            },
            SignalPc::Finish => Handshake {
                slot: SlotState { cell: cell.finished_take(), ..self.slot },
                fired: self.fired || cell.waker == Some(self.waker),
                ..self
            }.signal_ended(),
            SignalPc::Done => self,
        }
    }

    /// The state after a number of steps: where `order` holds true the party
    /// that waits takes the step, and the other where it holds false.
    pub open spec fn run(self, order: Seq<bool>) -> Self
        decreases order.len(),
    {
        if order.len() == 0 {
            self
        } else {
            let before = self.run(order.drop_last());
            if order.last() {
                before.waiter_steps()
            } else {
                before.signaller_steps()
            }
        }
    }

    /// Where the parties may start: the one that waits with nothing registered and nothing
    /// made public, the other about to signal, or anywhere in an earlier signal.
    pub proof fn law_where_the_parties_start(self)
        requires
            self.waiter is Register,
            !self.published,
            !self.fired,
        ensures
            self.signaller is Publish && !self.earlier && self.slot.cell.state == 0
                ==> self.starts(),
            self.earlier && (self.signaller is Load || self.signaller is Swap
                || self.signaller is Begin) && self.slot.cell.state == 0 ==> self.starts(),
            self.earlier && self.signaller is Finish && self.slot.cell.state == 2
                ==> self.starts(),
    {
    }

    /// Where the other party does not come in between, the steps of the party that
    /// waits make up arming the slot, and those of a signal make up signalling it.
    pub proof fn law_the_steps_make_up_the_operations(self)
        requires
            self.slot.quiet(),
        ensures
            self.waiter is Register ==> {
                let ready = self.waiter_steps().waiter_steps().waiter_steps().waiter_steps();
                &&& ready.slot == self.slot.armed_with(self.waker)
                &&& ready.waiter is Recheck
                &&& ready.fired == self.fired
                &&& self.published ==> ready.waiter_steps().waiter is Proceeding
                    && !ready.waiter_steps().slot.armed
                &&& !self.published ==> ready.waiter_steps().waiter is Parked
                    && ready.waiter_steps().slot == ready.slot
            },
            self.signaller is Publish && !self.earlier && self.slot.armed ==> {
                let told =
                    self.signaller_steps().signaller_steps().signaller_steps().signaller_steps().signaller_steps();
                &&& told.slot == self.slot.signalled()
                &&& told.published
                &&& told.signaller is Done
                &&& told.fired <==> self.fired || self.slot.signals() == Some(self.waker)
            },
            self.signaller is Publish && !self.earlier && !self.slot.armed ==> {
                let told = self.signaller_steps().signaller_steps();
                &&& told.slot == self.slot.signalled()
                &&& told.published
                &&& told.signaller is Done
                &&& told.fired == self.fired
            },
    {
    }

    spec fn inv(self) -> bool {
        let cell = self.slot.cell;
        let registering = self.waiter is Store || self.waiter is Finish;
        let registered = self.waiter is Arm || self.waiter is Recheck || self.waiter is Parked;
        &&& registering <==> cell.registering()
        &&& self.signaller is Finish <==> cell.taking()
        &&& cell.wf()
        &&& self.published <==> !self.earlier && !(self.signaller is Publish)
        &&& self.earlier ==> !(self.signaller is Publish) && !(self.signaller is Done)
        &&& self.waiter is Finish ==> cell.waker == Some(self.waker)
        &&& registered ==> self.fired || cell.waker == Some(self.waker)
        &&& (self.waiter is Recheck || self.waiter is Parked) && !self.fired ==> self.slot.armed
            || self.signaller is Begin || self.signaller is Finish || (self.waiter is Recheck
            && self.published)
        &&& self.waiter is Parked && self.signaller is Done ==> self.fired
    }

    proof fn lemma_run(self, order: Seq<bool>)
        requires
            self.starts(),
        ensures
            self.run(order).inv(),
        decreases order.len(),
    {
        if order.len() > 0 {
            self.lemma_run(order.drop_last());
        }
    }

    /// A wakeup is never lost, in whichever order the steps of the two parties
    /// come: once the signal is over, the party that waits has been woken or it
    /// never parked.
    pub proof fn law_no_wakeup_is_lost(self, order: Seq<bool>)
        requires
            self.starts(),
        ensures
            self.run(order).signaller is Done && self.run(order).waiter is Parked ==> self.run(
                order,
            ).fired,
    {
        self.lemma_run(order);
    }
}

/// Registering puts the waker in the cell where nothing is under way, and hands it to the
/// caller to be called otherwise. Taking gives what was registered last, once, where
/// nothing is under way, and leaves its mark otherwise.
pub proof fn law_what_a_cell_does(
    cell: &mut AtomicWaker,
    waker: &Waker,
    r: Option<Waker>,
    full: &mut AtomicWaker,
    s: Option<Waker>,
    empty: &mut AtomicWaker,
    t: Option<Waker>,
)
    requires
        call_ensures(AtomicWaker::register, (cell, waker), r),
        old(full)@.wf(),
        call_ensures(AtomicWaker::take, (full,), s),
        *old(empty) == *final(full),
        call_ensures(AtomicWaker::wake, (empty,), t),
    ensures
        old(cell)@.state == 0 ==> {
            &&& r is None
            &&& final(cell)@.waker == Some(*waker)
            &&& final(cell)@.state == 0
        },
        old(cell)@.state != 0 ==> r == Some(*waker) && final(cell)@ == old(cell)@,
        old(full)@.state == 0 ==> {
            &&& s == old(full)@.waker
            &&& final(full)@.waker is None
            &&& final(full)@.state == 0
            &&& t is None
        },
        old(full)@.state != 0 ==> {
            &&& s is None
            &&& final(full)@.waker == old(full)@.waker
            &&& final(full)@.state >= 2
            &&& t is None
        },
{
}

/// A slot that has been armed hands its waker to the next signal, and to that one only. One
/// that has been disarmed, or was never armed, hands out none.
pub proof fn law_what_a_slot_does(
    slot: &mut WaiterSlot,
    waker: &Waker,
    r: Option<Waker>,
    armed: &mut WaiterSlot,
    s: Option<Waker>,
    told: &mut WaiterSlot,
    t: Option<Waker>,
    given_up: &mut WaiterSlot,
    u: (),
    quiet: &mut WaiterSlot,
    v: Option<Waker>,
    new: WaiterSlot,
)
    requires
        call_ensures(WaiterSlot::arm, (slot, waker), r),
        *old(armed) == *final(slot),
        call_ensures(WaiterSlot::signal, (armed,), s),
        *old(told) == *final(armed),
        call_ensures(WaiterSlot::signal, (told,), t),
        *old(given_up) == *final(slot),
        call_ensures(WaiterSlot::disarm, (given_up,), u),
        *old(quiet) == *final(given_up),
        call_ensures(WaiterSlot::signal, (quiet,), v),
        call_ensures(WaiterSlot::new, (), new),
    ensures
        r is None,
        final(slot)@.armed,
        s == Some(*waker),
        t is None,
        !final(given_up)@.armed,
        v is None,
        !new@.armed,
        new@.cell.waker is None,
{
}

} // verus!
