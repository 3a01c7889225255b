use vstd::prelude::*;

use std::task::Waker;

use crate::site_c::queue;
use crate::site_c::queue::Queue;

verus! {

/// A future that waits: its token, what it asks for, and the waker to call once
/// it may go on.
#[derive(Debug)]
pub struct Waiter<R> {
    pub id: u64,
    pub request: R,
    pub waker: Waker,
}

/// What a waiting future remembers of its place in a wait list. The token, and
/// not the waker, tells its entry from others: two futures of one task share a
/// waker.
#[derive(Debug)]
pub struct Registration {
    pub id: u64,
}

/// Whether no token occurs twice.
pub open spec fn distinct<R>(list: Seq<Waiter<R>>) -> bool {
    forall|i: int, j: int|
        0 <= i < j < list.len() ==> (#[trigger] list[i]).id != (#[trigger] list[j]).id
}

/// Whether the token `id` occurs.
pub open spec fn has_id<R>(list: Seq<Waiter<R>>, id: u64) -> bool {
    exists|i: int| 0 <= i < list.len() && (#[trigger] list[i]).id == id
}

/// The entries other than those with token `id`, in order.
pub open spec fn without<R>(list: Seq<Waiter<R>>, id: u64) -> Seq<Waiter<R>> {
    list.filter(|w: Waiter<R>| w.id != id)
}

/// The entries that are left when a future with registration `slot` leaves.
pub open spec fn left<R>(list: Seq<Waiter<R>>, slot: Option<Registration>) -> Seq<Waiter<R>> {
    match slot {
        Some(reg) => without(list, reg.id),
        None => list,
    }
}

/// The token of a future with registration `slot` where the next free token is
/// `next_id`.
pub open spec fn token(slot: Option<Registration>, next_id: u64) -> u64 {
    match slot {
        Some(reg) => reg.id,
        None => next_id,
    }
}

/// The token to hand out after `next_id`.
pub open spec fn next_token(next_id: u64) -> u64 {
    if next_id == u64::MAX {
        0
    } else {
        (next_id + 1) as u64
    }
}

/// The entries of `list`, where the one with token `id` has got the waker `waker`.
pub open spec fn refreshed<R>(list: Seq<Waiter<R>>, id: u64, waker: Waker) -> Seq<Waiter<R>> {
    list.map_values(
        |w: Waiter<R>|
            if w.id == id {
                Waiter { id, request: w.request, waker }
            } else {
                w
            },
    )
}

/// The entries of `list` after a future with registration `slot` has come to wait
/// with the waker `waker`: it keeps its place where it has one, and goes to the
/// back otherwise.
pub open spec fn entered<R>(
    list: Seq<Waiter<R>>,
    slot: Option<Registration>,
    next_id: u64,
    request: R,
    waker: Waker,
) -> Seq<Waiter<R>> {
    let id = token(slot, next_id);
    if slot is Some && has_id(list, id) {
        refreshed(list, id, waker)
    } else {
        without(list, id).push(Waiter { id, request, waker })
    }
}

/// The same where a future keeps its place only if `same` says that the waker that
/// it waits with wakes the task that `waker` wakes: with another waker it goes to
/// the back.
pub open spec fn moved<R>(
    list: Seq<Waiter<R>>,
    slot: Option<Registration>,
    next_id: u64,
    request: R,
    waker: Waker,
    same: bool,
) -> Seq<Waiter<R>> {
    let id = token(slot, next_id);
    if same && slot is Some && has_id(list, id) {
        list
    } else {
        without(list, id).push(Waiter { id, request, waker })
    }
}

/// Whether `same` is an answer that a future with registration `slot` can get when
/// it asks whether the waker that it waits with wakes the task that `waker` wakes.
/// For a future that does not wait it is false.
pub open spec fn answers<R>(
    list: Seq<Waiter<R>>,
    slot: Option<Registration>,
    waker: Waker,
    same: bool,
) -> bool {
    if slot is Some && has_id(list, slot->0.id) {
        exists|i: int|
            {
                &&& 0 <= i < list.len()
                &&& (#[trigger] list[i]).id == slot->0.id
                &&& call_ensures(Waker::will_wake, (&list[i].waker, &waker), same)
            }
    } else {
        !same
    }
}

/// The token to hand out after a future with registration `slot` has come to wait.
pub open spec fn id_after(slot: Option<Registration>, next_id: u64) -> u64 {
    if slot is Some {
        next_id
    } else {
        next_token(next_id)
    }
}

/// A new waker changes nothing else about the entries.
pub proof fn lemma_refreshed<R>(list: Seq<Waiter<R>>, id: u64, waker: Waker)
    ensures
        refreshed(list, id, waker).len() == list.len(),
        forall|i: int|
            0 <= i < list.len() ==> (#[trigger] refreshed(list, id, waker)[i]).id == list[i].id
                && refreshed(list, id, waker)[i].request == list[i].request,
        distinct(list) ==> distinct(refreshed(list, id, waker)),
{
    let after = refreshed(list, id, waker);
    if distinct(list) {
        assert forall|i: int, j: int| 0 <= i < j < after.len() implies (#[trigger] after[i]).id != (
        #[trigger] after[j]).id by {
            assert(list[i].id != list[j].id);
        }
    }
}

/// What leaving out a token keeps.
pub proof fn lemma_without<R>(list: Seq<Waiter<R>>, id: u64)
    ensures
        without(list, id).len() <= list.len(),
        !has_id(without(list, id), id),
        distinct(list) ==> distinct(without(list, id)),
        forall|i: int|
            0 <= i < without(list, id).len() ==> list.contains(#[trigger] without(list, id)[i]),
        forall|w: Waiter<R>|
            list.contains(w) && w.id != id ==> #[trigger] without(list, id).contains(w),
        !has_id(list, id) ==> without(list, id) == list,
        list.len() > 0 && list[0].id != id ==> without(list, id).len() > 0 && without(list, id)[0]
            == list[0],
        list.len() > 0 && list[0].id == id && distinct(list) ==> without(list, id) == list.skip(1),
    decreases list.len(),
{
    reveal(Seq::filter);
    let rest = without(list, id);
    if list.len() > 0 {
        let init = list.drop_last();
        let last = list.last();
        lemma_without(init, id);
        let init_rest = without(init, id);
        assert(rest == if last.id != id {
            init_rest.push(last)
        } else {
            init_rest
        });
        assert forall|i: int| 0 <= i < rest.len() implies list.contains(#[trigger] rest[i]) by {
            if i < init_rest.len() {
                assert(init.contains(init_rest[i]));
                let j = choose|j: int| 0 <= j < init.len() && init[j] == init_rest[i];
                assert(list[j] == rest[i]);
            } else {
                assert(list[list.len() - 1] == rest[i]);
            }
        }
        assert forall|w: Waiter<R>| list.contains(w) && w.id != id implies #[trigger] rest.contains(
            w,
        ) by {
            let j = choose|j: int| 0 <= j < list.len() && list[j] == w;
            if j < init.len() {
                assert(init[j] == w);
                assert(init.contains(w));
                assert(without(init, id).contains(w));
                let i = choose|i: int| 0 <= i < init_rest.len() && init_rest[i] == w;
                assert(rest[i] == w);
            } else {
                assert(rest[rest.len() - 1] == w);
            }
        }
        if distinct(list) {
            assert(distinct(init)) by {
                assert forall|i: int, j: int| 0 <= i < j < init.len() implies (#[trigger] init[i]).id
                    != (#[trigger] init[j]).id by {
                    assert(list[i].id != list[j].id);
                }
            }
            assert forall|i: int, j: int| 0 <= i < j < rest.len() implies (#[trigger] rest[i]).id
                != (#[trigger] rest[j]).id by {
                if j < init_rest.len() {
                    assert(init_rest[i].id != init_rest[j].id);
                } else {
                    assert(init.contains(init_rest[i]));
                    let k = choose|k: int| 0 <= k < init.len() && init[k] == init_rest[i];
                    assert(list[k].id != list[list.len() - 1].id);
                }
            }
        }
        if !has_id(list, id) {
            assert forall|i: int| 0 <= i < init.len() implies (#[trigger] init[i]).id != id by {
                assert(list[i].id != id);
            }
            assert(list[list.len() - 1].id != id);
            assert(rest =~= list);
        }
        assert(!has_id(rest, id)) by {
            assert forall|i: int| 0 <= i < rest.len() implies (#[trigger] rest[i]).id != id by {
                if i < init_rest.len() {
                    assert(init_rest[i].id != id);
                }
            }
        }
        if list.len() > 1 {
            assert(init[0] == list[0]);
            if list[0].id == id && distinct(list) {
                assert(list[0].id != list[list.len() - 1].id);
                assert(rest =~= list.skip(1));
            }
        } else {
            assert(init_rest.len() == 0);
            if list[0].id == id {
                assert(rest =~= list.skip(1));
            }
        }
    }
}

/// A future that leaves takes its own entry with it and no other: the entries
/// before and behind it stay as they are. Its token then occurs nowhere. A future
/// that has no entry leaves everything as it is.
pub proof fn law_leaving_takes_one_entry<R>(list: Seq<Waiter<R>>, reg: Registration)
    requires
        distinct(list),
    ensures
        left(list, None) == list,
        forall|i: int|
            0 <= i < list.len() && (#[trigger] list[i]).id == reg.id ==> left(list, Some(reg))
                == list.take(i) + list.skip(i + 1),
        (forall|i: int| 0 <= i < list.len() ==> (#[trigger] list[i]).id != reg.id) ==> left(
            list,
            Some(reg),
        ) == list,
        forall|i: int|
            0 <= i < left(list, Some(reg)).len() ==> (#[trigger] left(list, Some(reg))[i]).id
                != reg.id,
    decreases list.len(),
{
    reveal(Seq::filter);
    let rest = without(list, reg.id);
    lemma_without(list, reg.id);
    if list.len() > 0 {
        let init = list.drop_last();
        let last = list.last();
        assert forall|i: int, j: int| 0 <= i < j < init.len() implies (#[trigger] init[i]).id != (
        #[trigger] init[j]).id by {
            assert(list[i].id != list[j].id);
        }
        law_leaving_takes_one_entry(init, reg);
        assert forall|i: int| 0 <= i < list.len() && (#[trigger] list[i]).id == reg.id implies rest
            == list.take(i) + list.skip(i + 1) by {
            if i == list.len() - 1 {
                assert forall|k: int| 0 <= k < init.len() implies (#[trigger] init[k]).id
                    != reg.id by {
                    assert(list[k].id != list[i].id);
                }
                assert(left(init, Some(reg)) == init);
                assert(rest =~= list.take(i) + list.skip(i + 1));
            } else {
                assert(init[i].id == reg.id);
                assert(left(init, Some(reg)) == init.take(i) + init.skip(i + 1));
                assert(list[i].id != list[list.len() - 1].id);
                assert(rest =~= list.take(i) + list.skip(i + 1));
            }
        }
    }
    assert forall|i: int| 0 <= i < rest.len() implies (#[trigger] rest[i]).id != reg.id by {
        assert(!has_id(rest, reg.id));
    }
}

/// A future that comes to wait stands behind all that wait already. One that waits
/// already keeps its place and what it asked for, and is to be woken by the waker
/// that it came with last. No other entry changes.
pub proof fn law_coming_to_wait<R>(
    list: Seq<Waiter<R>>,
    slot: Option<Registration>,
    next_id: u64,
    request: R,
    waker: Waker,
)
    requires
        distinct(list),
        slot is None ==> forall|i: int|
            0 <= i < list.len() ==> (#[trigger] list[i]).id != next_id,
    ensures
        slot is None ==> entered(list, slot, next_id, request, waker) == list.push(
            Waiter { id: next_id, request, waker },
        ),
        slot is Some && (forall|i: int|
            0 <= i < list.len() ==> (#[trigger] list[i]).id != slot->0.id) ==> entered(
            list,
            slot,
            next_id,
            request,
            waker,
        ) == list.push(Waiter { id: slot->0.id, request, waker }),
        slot is Some ==> forall|i: int|
            0 <= i < list.len() && (#[trigger] list[i]).id == slot->0.id ==> entered(
                list,
                slot,
                next_id,
                request,
                waker,
            ) == list.update(i, Waiter { id: slot->0.id, request: list[i].request, waker }),
{
    let id = token(slot, next_id);
    lemma_without(list, id);
    if slot is Some {
        assert forall|i: int|
            0 <= i < list.len() && (#[trigger] list[i]).id == slot->0.id implies entered(
            list,
            slot,
            next_id,
            request,
            waker,
        ) == list.update(i, Waiter { id: slot->0.id, request: list[i].request, waker }) by {
            assert(has_id(list, id));
            assert forall|j: int| 0 <= j < list.len() && j != i implies (#[trigger] list[j]).id
                != id by {
                if j < i {
                    assert(list[j].id != list[i].id);
                } else {
                    assert(list[i].id != list[j].id);
                }
            }
            assert(refreshed(list, id, waker) =~= list.update(
                i,
                Waiter { id, request: list[i].request, waker },
            ));
        }
    }
}

/// The same where a future that waits already goes to the back unless it comes with
/// the waker that it waits with.
pub proof fn law_coming_with_another_waker<R>(
    list: Seq<Waiter<R>>,
    slot: Option<Registration>,
    next_id: u64,
    request: R,
    waker: Waker,
    same: bool,
)
    requires
        distinct(list),
        slot is None ==> forall|i: int|
            0 <= i < list.len() ==> (#[trigger] list[i]).id != next_id,
    ensures
        slot is None ==> moved(list, slot, next_id, request, waker, same) == list.push(
            Waiter { id: next_id, request, waker },
        ),
        slot is Some && (forall|i: int|
            0 <= i < list.len() ==> (#[trigger] list[i]).id != slot->0.id) ==> moved(
            list,
            slot,
            next_id,
            request,
            waker,
            same,
        ) == list.push(Waiter { id: slot->0.id, request, waker }),
        slot is Some ==> forall|i: int|
            0 <= i < list.len() && (#[trigger] list[i]).id == slot->0.id ==> moved(
                list,
                slot,
                next_id,
                request,
                waker,
                same,
            ) == if same {
                list
            } else {
                (list.take(i) + list.skip(i + 1)).push(Waiter { id: slot->0.id, request, waker })
            },
{
    let id = token(slot, next_id);
    lemma_without(list, id);
    if slot is Some {
        law_leaving_takes_one_entry(list, slot->0);
        assert forall|i: int|
            0 <= i < list.len() && (#[trigger] list[i]).id == slot->0.id implies moved(
            list,
            slot,
            next_id,
            request,
            waker,
            same,
        ) == if same {
            list
        } else {
            (list.take(i) + list.skip(i + 1)).push(Waiter { id: slot->0.id, request, waker })
        } by {
            assert(has_id(list, id));
        }
    }
}

/// A future that asks whether it comes with the waker that it waits with is told no
/// where it comes with another, and where it does not wait.
pub proof fn law_another_waker_is_told_apart<R>(
    list: Seq<Waiter<R>>,
    slot: Option<Registration>,
    waker: Waker,
    same: bool,
)
    requires
        answers(list, slot, waker, same),
        slot is Some ==> forall|i: int|
            0 <= i < list.len() && (#[trigger] list[i]).id == slot->0.id ==> list[i].waker != waker,
    ensures
        !same,
{
}

/// A future that waits is told what the waker that it waits with says.
pub proof fn law_the_waiting_waker_is_asked<R>(
    list: Seq<Waiter<R>>,
    slot: Option<Registration>,
    waker: Waker,
    same: bool,
    i: int,
)
    requires
        distinct(list),
        slot is Some,
        0 <= i < list.len(),
        list[i].id == slot->0.id,
    ensures
        answers(list, slot, waker, same) <==> call_ensures(
            Waker::will_wake,
            (&list[i].waker, &waker),
            same,
        ),
{
    assert(has_id(list, slot->0.id));
    assert forall|j: int| 0 <= j < list.len() && (#[trigger] list[j]).id == slot->0.id implies j
        == i by {
        if j < i {
            assert(list[j].id != list[i].id);
        } else if i < j {
            assert(list[i].id != list[j].id);
        }
    }
}

/// A future keeps its token, and one that has none gets the next, which no later one
/// gets until all have been handed out.
pub proof fn law_tokens_go_round(next_id: u64, reg: Registration)
    ensures
        token(None, next_id) == next_id,
        token(Some(reg), next_id) == reg.id,
        id_after(Some(reg), next_id) == next_id,
        id_after(None, next_id) as int == (next_id + 1) % 0x1_0000_0000_0000_0000,
        next_token(next_id) as int == (next_id + 1) % 0x1_0000_0000_0000_0000,
{
}

/// What the words for a list of entries mean.
pub proof fn law_tokens_are_told_apart<R>(list: Seq<Waiter<R>>, id: u64)
    ensures
        distinct(list) <==> (forall|i: int, j: int|
            0 <= i < list.len() && 0 <= j < list.len() && (#[trigger] list[i]).id == (
            #[trigger] list[j]).id ==> i == j),
        has_id(list, id) <==> !(forall|i: int| 0 <= i < list.len() ==> (#[trigger] list[i]).id != id),
{
    if distinct(list) {
        assert forall|i: int, j: int|
            0 <= i < list.len() && 0 <= j < list.len() && (#[trigger] list[i]).id == (
            #[trigger] list[j]).id implies i == j by {
            if i < j {
                assert(list[i].id != list[j].id);
            } else if j < i {
                assert(list[j].id != list[i].id);
            }
        }
    }
}

/// A queue of waiting futures, first come first. Its view is the sequence of
/// the entries.
#[derive(Debug)]
pub struct WaitList<R> {
    queue: Queue<Waiter<R>, 8>,
}

impl<R> View for WaitList<R> {
    type V = Seq<Waiter<R>>;

    closed spec fn view(&self) -> Seq<Waiter<R>> {
        self.queue@
    }
}

impl<R> WaitList<R> {
    /// Each future has one entry at most.
    pub closed spec fn wf(self) -> bool {
        &&& self.queue.wf()
        &&& distinct(self@)
    }

    pub proof fn lemma_wf(self)
        requires
            self.wf(),
        ensures
            distinct(self@),
    {
    }

    pub fn new() -> (r: Self)
        ensures
            r.wf(),
            r@ == Seq::<Waiter<R>>::empty(),
    {
        WaitList { queue: Queue::new() }
    }

    pub fn is_empty(&self) -> (r: bool)
        ensures
            r == (self@.len() == 0),
    {
        self.queue.is_empty()
    }

    pub fn len(&self) -> (r: usize)
        ensures
            r == self@.len(),
    {
        self.queue.len()
    }

    /// The entry at the front, if there is one.
    pub fn front(&self) -> (r: Option<&Waiter<R>>)
        requires
            self.wf(),
        ensures
            match r {
                Some(w) => self@.len() > 0 && *w == self@[0],
                None => self@.len() == 0,
            },
    {
        self.queue.iter().next()
    }

    /// Takes the entry at the front, if there is one.
    pub fn pop_front(&mut self) -> (r: Option<Waiter<R>>)
        requires
            old(self).wf(),
        ensures
            final(self).wf(),
            old(self)@.len() == 0 ==> r is None && final(self)@ == old(self)@,
            old(self)@.len() > 0 ==> r == Some(old(self)@[0]) && final(self)@ == old(self)@.skip(1),
    {
        self.queue.pop_front()
    }

    /// Takes out the entry with token `id`, if there is one.
    pub fn remove(&mut self, id: u64)
        requires
            old(self).wf(),
        ensures
            final(self).wf(),
            final(self)@ == without(old(self)@, id),
    {
        let ghost list = self@;
        let other = |w: &Waiter<R>| -> (r: bool)
            ensures
                r == (w.id != id)
            { w.id != id };
        self.queue.retain(other);
        proof {
            let keep = choose|keep: Seq<bool>|
                {
                    &&& keep.len() == list.len()
                    &&& forall|i: int|
                        0 <= i < keep.len() ==> call_ensures(other, (&list[i],), #[trigger] keep[i])
                    &&& self.queue@ == #[trigger] queue::kept(list, keep)
                };
            assert forall|i: int| 0 <= i < list.len() implies keep[i] == ((#[trigger] list[i]).id
                != id) by {
                assert(call_ensures(other, (&list[i],), keep[i]));
            }
            queue::lemma_kept_is_filter(list, keep, |w: Waiter<R>| w.id != id);
            lemma_without(list, id);
        }
    }

    /// Whether the entry with token `id` has a waker that is known to wake the
    /// task that `waker` wakes, or nothing where there is no such entry.
    fn is_current(&self, id: u64, waker: &Waker) -> (r: Option<bool>)
        requires
            self.wf(),
        ensures
            r is Some <==> has_id(self@, id),
            r is Some ==> exists|i: int|
                0 <= i < self@.len() && (#[trigger] self@[i]).id == id && call_ensures(
                    Waker::will_wake,
                    (&self@[i].waker, waker),
                    r->0,
                ),
            r == Some(true) ==> refreshed(self@, id, *waker) == self@,
    {
        let len: usize = self.queue.len();
        let mut iter = self.queue.iter();
        let mut i: usize = 0;
        while i < len
            invariant
                i <= len,
                len == self@.len(),
                self.wf(),
                iter.wf(),
                iter@ == self@.skip(i as int),
                forall|k: int| 0 <= k < i ==> (#[trigger] self@[k]).id != id,
            decreases len - i,
        {
            assert(self@.skip(i as int).skip(1) =~= self@.skip(i + 1));
            if let Some(w) = iter.next() {
                if w.id == id {
                    let current = w.waker.will_wake(waker);
                    proof {
                        assert(self@[i as int].id == id);
                        if current {
                            assert forall|k: int| 0 <= k < self@.len() && k != i implies (
                            #[trigger] self@[k]).id != id by {
                                if k > i {
                                    assert(self@[i as int].id != self@[k].id);
                                }
                            }
                            assert(refreshed(self@, id, *waker) =~= self@);
                        }
                    }
                    return Some(current);
                }
            }
            i = i + 1;
        }
        None
    }

    /// Whether the token `id` occurs.
    fn has(&self, id: u64) -> (r: bool)
        requires
            self.wf(),
        ensures
            r == has_id(self@, id),
    {
        let len: usize = self.queue.len();
        let mut iter = self.queue.iter();
        let mut i: usize = 0;
        while i < len
            invariant
                i <= len,
                len == self@.len(),
                iter.wf(),
                iter@ == self@.skip(i as int),
                forall|k: int| 0 <= k < i ==> (#[trigger] self@[k]).id != id,
            decreases len - i,
        {
            assert(self@.skip(i as int).skip(1) =~= self@.skip(i + 1));
            if let Some(w) = iter.next() {
                if w.id == id {
                    assert(self@[i as int].id == id);
                    return true;
                }
            }
            i = i + 1;
        }
        false
    }

    /// Whether the future with registration `slot` waits with a waker that is
    /// known to wake the task that `waker` wakes.
    pub fn waits_with(&self, slot: &Option<Registration>, waker: &Waker) -> (r: bool)
        requires
            self.wf(),
        ensures
            answers(self@, *slot, *waker, r),
    {
        match slot {
            Some(reg) => match self.is_current(reg.id, waker) {
                Some(same) => same,
                None => false,
            },
            None => false,
        }
    }

    /// Gives the entry with token `id` the waker `waker`. All entries keep their
    /// places.
    fn refresh(&mut self, id: u64, waker: &Waker)
        requires
            old(self).wf(),
        ensures
            final(self).wf(),
            final(self)@ == refreshed(old(self)@, id, *waker),
    {
        let ghost list = self@;
        let ghost after = refreshed(list, id, *waker);
        let len: usize = self.queue.len();
        let mut i: usize = 0;
        proof {
            lemma_refreshed(list, id, *waker);
            assert(list.skip(0) + after.take(0) =~= list);
        }
        while i < len
            invariant
                i <= len,
                len == list.len(),
                after.len() == len,
                after == refreshed(list, id, *waker),
                self.queue.wf(),
                self.queue@ == list.skip(i as int) + after.take(i as int),
            decreases len - i,
        {
            proof {
                assert(self.queue@[0] == list[i as int]);
                assert(self.queue@.skip(1) =~= list.skip(i + 1) + after.take(i as int));
                assert(after.take(i as int).push(after[i as int]) =~= after.take(i + 1));
            }
            if let Some(w) = self.queue.pop_front() {
                let mut w = w;
                if w.id == id {
                    w.waker = waker.clone();
                }
                assert(w == after[i as int]);
                self.queue.push_back(w);
                assert(self.queue@ =~= list.skip(i + 1) + after.take(i + 1));
            }
            i = i + 1;
        }
        assert(self.queue@ =~= after);
    }

    /// Enters the future with registration `slot` with the waker `waker`. It keeps
    /// its place where it has one, and goes to the back otherwise. A future that
    /// was not registered gets the next token.
    pub fn register(
        &mut self,
        next_id: &mut u64,
        slot: &mut Option<Registration>,
        request: R,
        waker: &Waker,
    )
        requires
            old(self).wf(),
        ensures
            final(self).wf(),
            final(self)@ == entered(old(self)@, *old(slot), *old(next_id), request, *waker),
            *final(slot) == Some(Registration { id: token(*old(slot), *old(next_id)) }),
            *final(next_id) == id_after(*old(slot), *old(next_id)),
    {
        if let Some(reg) = slot {
            let id: u64 = reg.id;
            if let Some(current) = self.is_current(id, waker) {
                if !current {
                    self.refresh(id, waker);
                }
                return;
            }
        }
        self.enter(next_id, slot, request, waker);
    }

    /// The same where the future keeps its place only if `same` says that the
    /// waker that it waits with wakes the task that `waker` wakes, and goes to the
    /// back with another waker.
    pub fn register_if(
        &mut self,
        next_id: &mut u64,
        slot: &mut Option<Registration>,
        request: R,
        waker: &Waker,
        same: bool,
    )
        requires
            old(self).wf(),
        ensures
            final(self).wf(),
            final(self)@ == moved(old(self)@, *old(slot), *old(next_id), request, *waker, same),
            *final(slot) == Some(Registration { id: token(*old(slot), *old(next_id)) }),
            *final(next_id) == id_after(*old(slot), *old(next_id)),
    {
        if let Some(reg) = slot {
            let id: u64 = reg.id;
            if same && self.has(id) {
                return;
            }
        }
        self.enter(next_id, slot, request, waker);
    }

    /// Puts the future with registration `slot` at the back, with the waker
    /// `waker`.
    fn enter(
        &mut self,
        next_id: &mut u64,
        slot: &mut Option<Registration>,
        request: R,
        waker: &Waker,
    )
        requires
            old(self).wf(),
        ensures
            final(self).wf(),
            ({
                let id = token(*old(slot), *old(next_id));
                &&& final(self)@ == without(old(self)@, id).push(
                    Waiter { id, request, waker: *waker },
                )
                &&& *final(slot) == Some(Registration { id })
            }),
            *final(next_id) == id_after(*old(slot), *old(next_id)),
    {
        let id: u64 = match slot {
            Some(reg) => reg.id,
            None => {
                let id: u64 = *next_id;
                *next_id = id.wrapping_add(1);
                id
            },
        };
        self.remove(id);
        proof {
            lemma_without(old(self)@, id);
        }
        self.queue.push_back(Waiter { id, request, waker: waker.clone() });
        *slot = Some(Registration { id });
    }

    /// Takes out the entry of the future with registration `slot`, which is
    /// then no longer registered.
    pub fn deregister(&mut self, slot: &mut Option<Registration>)
        requires
            old(self).wf(),
        ensures
            final(self).wf(),
            final(self)@ == left(old(self)@, *old(slot)),
            *final(slot) is None,
    {
        if let Some(reg) = slot.take() {
            self.remove(reg.id);
        }
    }
}

/// A future that comes to wait stands behind all others, under the next token, with what it
/// asks for and its waker. One that waits already keeps its place and what it asks for,
/// and is woken by the new waker. Nobody else moves.
pub proof fn law_what_registering_does<R>(
    list: &mut WaitList<R>,
    next_id: &mut u64,
    slot: &mut Option<Registration>,
    request: R,
    waker: &Waker,
    u: (),
    i: int,
)
    requires
        distinct(old(list)@),
        *old(slot) is None ==> forall|k: int|
            0 <= k < old(list)@.len() ==> (#[trigger] old(list)@[k]).id != *old(next_id),
        call_ensures(WaitList::<R>::register, (list, next_id, slot, request, waker), u),
    ensures
        *old(slot) is None ==> {
            &&& *final(slot) == Some(Registration { id: *old(next_id) })
            &&& final(list)@ == old(list)@.push(
                Waiter { id: *old(next_id), request, waker: *waker },
            )
            &&& *final(next_id) as int == (*old(next_id) + 1) % 0x1_0000_0000_0000_0000
        },
        *old(slot) is Some ==> {
            &&& *final(slot) == *old(slot)
            &&& *final(next_id) == *old(next_id)
            &&& 0 <= i < old(list)@.len() && old(list)@[i].id == (*old(slot))->0.id
                ==> final(list)@ == old(list)@.update(i, Waiter { waker: *waker, ..old(list)@[i] })
            &&& (forall|k: int|
                0 <= k < old(list)@.len() ==> (#[trigger] old(list)@[k]).id != (*old(slot))->0.id)
                ==> final(list)@ == old(list)@.push(
                Waiter { id: (*old(slot))->0.id, request, waker: *waker },
            )
        },
{
    law_coming_to_wait(old(list)@, *old(slot), *old(next_id), request, *waker);
    if *old(slot) is Some {
        law_tokens_go_round(*old(next_id), (*old(slot))->0);
    }
}

/// A future that leaves is nowhere in the list and has no place any more; the others stay
/// in their order. The one that is popped is the one at the front.
pub proof fn law_what_leaving_does<R>(
    list: &mut WaitList<R>,
    slot: &mut Option<Registration>,
    u: (),
    i: int,
    other: &mut WaitList<R>,
    r: Option<Waiter<R>>,
)
    requires
        distinct(old(list)@),
        call_ensures(WaitList::<R>::deregister, (list, slot), u),
        call_ensures(WaitList::<R>::pop_front, (other,), r),
    ensures
        *final(slot) is None,
        *old(slot) is None ==> final(list)@ == old(list)@,
        *old(slot) is Some ==> forall|k: int|
            0 <= k < final(list)@.len() ==> (#[trigger] final(list)@[k]).id != (*old(slot))->0.id,
        *old(slot) is Some && 0 <= i < old(list)@.len() && old(list)@[i].id == (*old(slot))->0.id
            ==> final(list)@ == old(list)@.take(i) + old(list)@.skip(i + 1),
        *old(slot) is Some && (forall|k: int|
            0 <= k < old(list)@.len() ==> (#[trigger] old(list)@[k]).id != (*old(slot))->0.id)
            ==> final(list)@ == old(list)@,
        r is Some <==> old(other)@.len() > 0,
        r is Some ==> old(other)@ == seq![r->0] + final(other)@,
        r is None ==> final(other)@.len() == 0,
{
    if *old(slot) is Some {
        law_leaving_takes_one_entry(old(list)@, (*old(slot))->0);
    }
    if r is Some {
        assert(old(other)@ =~= seq![r->0] + final(other)@);
    }
}

} // verus!
