use vstd::prelude::*;
use vstd::std_specs::cmp::{PartialEqSpec, PartialEqSpecImpl};
use vstd::std_specs::convert::FromSpecImpl;
use vstd::std_specs::iter::IteratorSpec;

use std::collections::VecDeque;

verus! {

/// The slot that lies `k` places after slot `head` in a ring of `n` slots.
pub open spec fn ring(head: int, k: int, n: int) -> int {
    if head + k >= n {
        head + k - n
    } else {
        head + k
    }
}

/// A double-ended queue that keeps up to `N` items inline in a ring of slots
/// and moves them all to the heap when one more is pushed.
///
/// Its view is the sequence of its items, front first.
#[derive(Debug)]
pub struct Queue<T, const N: usize>(QueueInternal<T, N>);

#[derive(Debug)]
enum QueueInternal<T, const N: usize> {
    Inline { buf: [Option<T>; N], head: usize, tail: usize, len: usize },
    Heap(VecDeque<T>),
}

/// Builds an array by calling `std::array::from_fn`: slot `i` of the result is
/// what `f` returned for `i`.
#[verifier::external_body]
fn array_from_fn<T, const N: usize, F: Fn(usize) -> T>(f: F) -> (r: [T; N])
    requires
        forall|i: usize| i < N ==> call_requires(f, (i,)),
    ensures
        forall|i: usize| i < N ==> call_ensures(f, (i,), #[trigger] r@[i as int]),
{
    std::array::from_fn(f)
}

/// Calls `VecDeque::make_contiguous`: the slice returned holds the items of the
/// deque in order, and what is written to the slice is written to the deque.
#[verifier::external_body]
fn deque_make_contiguous<T>(deque: &mut VecDeque<T>) -> (r: &mut [T])
    ensures
        r@ == old(deque)@,
        final(deque)@ == final(r)@,
{
    deque.make_contiguous()
}

/// Calls `VecDeque::swap`: the items at `a` and `b` change places. It panics
/// where an index is out of bounds, so both have to be in bounds.
#[verifier::external_body]
fn deque_swap<T>(deque: &mut VecDeque<T>, a: usize, b: usize)
    requires
        a < old(deque)@.len(),
        b < old(deque)@.len(),
    ensures
        final(deque)@ == old(deque)@.update(a as int, old(deque)@[b as int]).update(
            b as int,
            old(deque)@[a as int],
        ),
{
    deque.swap(a, b)
}

/// The items in the `len` slots of the ring `buf` from slot `start` on.
pub open spec fn ring_view<T>(buf: Seq<Option<T>>, start: int, len: int) -> Seq<T> {
    Seq::new(len as nat, |k: int| buf[ring(start, k, buf.len() as int)]->0)
}

/// Whether exactly the `len` slots of the ring `buf` from slot `start` on are
/// filled.
pub open spec fn ring_filled<T>(buf: Seq<Option<T>>, start: int, len: int) -> bool {
    &&& 0 <= len <= buf.len()
    &&& buf.len() > 0 ==> 0 <= start < buf.len()
    &&& forall|k: int| 0 <= k < len ==> (#[trigger] buf[ring(start, k, buf.len() as int)]) is Some
    &&& forall|k: int|
        len <= k < buf.len() ==> (#[trigger] buf[ring(start, k, buf.len() as int)]) is None
}

/// Whether `head`, `tail` and `len` describe a ring of the slots `buf`: the
/// `len` slots from `head` on are filled, all others are empty, and `tail`
/// comes right after the filled ones.
spec fn ring_wf<T>(buf: Seq<Option<T>>, head: int, tail: int, len: int) -> bool {
    let n = buf.len() as int;
    &&& ring_filled(buf, head, len)
    &&& n == 0 ==> head == 0 && tail == 0
    &&& n > 0 ==> 0 <= tail < n && tail == ring(ring(head, len, n), 0, n)
}

/// The slot after slot `i` in a ring of `n` slots.
fn step(i: usize, n: usize) -> (r: usize)
    requires
        i < n,
    ensures
        r == ring(i as int, 1, n as int),
        r < n,
{
    if i + 1 == n {
        0
    } else {
        i + 1
    }
}

/// The slot before slot `i` in a ring of `n` slots.
fn step_back(i: usize, n: usize) -> (r: usize)
    requires
        i < n,
    ensures
        r < n,
        ring(r as int, 1, n as int) == i,
{
    if i == 0 {
        n - 1
    } else {
        i - 1
    }
}

/// An array of empty slots.
fn empty_slots<T, const N: usize>() -> (r: [Option<T>; N])
    ensures
        forall|i: int| 0 <= i < N ==> (#[trigger] r@[i]) is None,
{
    let r = array_from_fn(
        |i: usize| -> (r: Option<T>)
            ensures
                r is None
            { None },
    );
    assert forall|i: int| 0 <= i < N implies (#[trigger] r@[i]) is None by {
        assert(r@[(i as usize) as int] is None);
    }
    r
}

/// Moves the items of a ring to the back of `out`, front first, and leaves
/// every slot empty.
fn drain_ring<T, const N: usize>(
    buf: &mut [Option<T>; N],
    head: usize,
    len: usize,
    out: &mut VecDeque<T>,
)
    requires
        ring_filled(old(buf)@, head as int, len as int),
    ensures
        final(out)@ == old(out)@ + ring_view(old(buf)@, head as int, len as int),
        forall|i: int| 0 <= i < N ==> (#[trigger] final(buf)@[i]) is None,
{
    let mut idx: usize = head;
    let mut done: usize = 0;
    let ghost b0 = buf@;
    let ghost items = ring_view(b0, head as int, len as int);
    let ghost n = N as int;
    assert(b0.len() == n);
    while done < len
        invariant
            done <= len <= N,
            n == N,
            b0.len() == n,
            buf@.len() == n,
            n > 0 ==> head < n && idx < n,
            n > 0 ==> idx == ring(ring(head as int, done as int, n), 0, n),
            items == ring_view(b0, head as int, len as int),
            out@ == old(out)@ + items.take(done as int),
            forall|k: int| 0 <= k < len ==> (#[trigger] b0[ring(head as int, k, n)]) is Some,
            forall|k: int| len <= k < n ==> (#[trigger] b0[ring(head as int, k, n)]) is None,
            forall|k: int|
                done <= k < n ==> (#[trigger] buf@[ring(head as int, k, n)]) == b0[ring(
                    head as int,
                    k,
                    n,
                )],
            forall|k: int| 0 <= k < done ==> (#[trigger] buf@[ring(head as int, k, n)]) is None,
        decreases len - done,
    {
        assert(b0[ring(head as int, done as int, n)] is Some);
        assert(buf@[ring(head as int, done as int, n)] is Some);
        if let Some(value) = buf[idx].take() {
            out.push_back(value);
            assert(value == items[done as int]);
            assert(items.take(done as int).push(value) =~= items.take(done + 1));
        }
        idx = step(idx, N);
        done = done + 1;
    }
    assert(items.take(len as int) =~= items);
    assert forall|i: int| 0 <= i < N implies (#[trigger] buf@[i]) is None by {
        let k = if i >= head { i - head } else { i - head + n };
        assert(ring(head as int, k, n) == i);
        if k >= len {
            assert(b0[ring(head as int, k, n)] is None);
        }
        assert(buf@[ring(head as int, k, n)] is None);
    }
}

impl<T, const N: usize> View for Queue<T, N> {
    type V = Seq<T>;

    closed spec fn view(&self) -> Seq<T> {
        match self.0 {
            QueueInternal::Inline { buf, head, tail, len } => ring_view(
                buf@,
                head as int,
                len as int,
            ),
            QueueInternal::Heap(vec) => vec@,
        }
    }
}

impl<T, const N: usize> Queue<T, N> {
    /// The ring of an inline queue is in order.
    pub closed spec fn wf(self) -> bool {
        match self.0 {
            QueueInternal::Inline { buf, head, tail, len } => ring_wf(
                buf@,
                head as int,
                tail as int,
                len as int,
            ),
            QueueInternal::Heap(vec) => true,
        }
    }

    /// Whether the items have been moved to the heap.
    pub closed spec fn spilled(self) -> bool {
        self.0 is Heap
    }

    /// An empty queue, inline.
    pub fn new() -> (r: Self)
        ensures
            r.wf(),
            r@ == Seq::<T>::empty(),
            !r.spilled(),
    {
        let buf = empty_slots();
        let r = Self(QueueInternal::Inline { buf, head: 0, tail: 0, len: 0 });
        assert(r@ =~= Seq::<T>::empty());
        r
    }

    /// An empty queue with room for `capacity` items: inline where the slots
    /// suffice, on the heap otherwise.
    pub fn with_capacity(capacity: usize) -> (r: Self)
        ensures
            r.wf(),
            r@ == Seq::<T>::empty(),
            r.spilled() <==> capacity > N,
    {
        if capacity <= N {
            Self::new()
        } else {
            Self(QueueInternal::Heap(VecDeque::with_capacity(capacity)))
        }
    }

    /// The room asked for when a full inline queue moves to the heap: twice its
    /// slots, or as many where that number is too large.
    fn spill_capacity() -> (r: usize)
        ensures
            r == if 2 * N <= usize::MAX {
                2 * N
            } else {
                N as int
            },
    {
        if N <= usize::MAX / 2 {
            N * 2
        } else {
            N
        }
    }

    /// Adds an item at the back. A full inline queue moves to the heap first.
    pub fn push_back(&mut self, value: T)
        requires
            old(self).wf(),
        ensures
            final(self).wf(),
            final(self)@ == old(self)@.push(value),
            final(self).spilled() <==> old(self).spilled() || old(self)@.len() >= N,
    {
        let ghost before = *self;
        let ghost n = N as int;
        match &mut self.0 {
            QueueInternal::Inline { buf, head, tail, len } => {
                let ghost b0 = buf@;
                assert(b0.len() == n);
                if *len < N {
                    buf[*tail] = Some(value);
                    *tail = step(*tail, N);
                    *len = *len + 1;
                    proof {
                        let h = before.0->head as int;
                        let l = before.0->len as int;
                        let b1 = b0.update(ring(h, l, n), Some(value));
                        assert forall|k: int| 0 <= k < n && k != l implies (#[trigger] b1[ring(
                            h,
                            k,
                            n,
                        )]) == b0[ring(h, k, n)] by {}
                        assert(ring_view(b1, h, l + 1) =~= ring_view(b0, h, l).push(value));
                    }
                } else {
                    let mut heap = VecDeque::with_capacity(Self::spill_capacity());
                    drain_ring(buf, *head, *len, &mut heap);
                    heap.push_back(value);
                    assert(heap@ =~= before@.push(value));
                    self.0 = QueueInternal::Heap(heap);
                }
            },
            QueueInternal::Heap(vec) => vec.push_back(value),
        }
    }

    /// Adds an item at the front. A full inline queue moves to the heap first.
    pub fn push_front(&mut self, value: T)
        requires
            old(self).wf(),
        ensures
            final(self).wf(),
            final(self)@ == seq![value] + old(self)@,
            final(self).spilled() <==> old(self).spilled() || old(self)@.len() >= N,
    {
        let ghost before = *self;
        let ghost n = N as int;
        match &mut self.0 {
            QueueInternal::Inline { buf, head, tail, len } => {
                let ghost b0 = buf@;
                assert(b0.len() == n);
                if *len < N {
                    *head = step_back(*head, N);
                    buf[*head] = Some(value);
                    *len = *len + 1;
                    proof {
                        let h0 = before.0->head as int;
                        let h = *head as int;
                        let l = before.0->len as int;
                        let b1 = b0.update(h, Some(value));
                        assert forall|k: int| 1 <= k < n implies (#[trigger] b1[ring(h, k, n)])
                            == b0[ring(h0, k - 1, n)] by {}
                        assert(ring(h, 0, n) == h);
                        assert(ring_view(b1, h, l + 1) =~= seq![value] + ring_view(b0, h0, l));
                    }
                } else {
                    let mut heap = VecDeque::with_capacity(Self::spill_capacity());
                    heap.push_front(value);
                    drain_ring(buf, *head, *len, &mut heap);
                    assert(heap@ =~= seq![value] + before@);
                    self.0 = QueueInternal::Heap(heap);
                }
            },
            QueueInternal::Heap(vec) => vec.push_front(value),
        }
    }

    /// Takes the item at the front, if there is one.
    pub fn pop_front(&mut self) -> (r: Option<T>)
        requires
            old(self).wf(),
        ensures
            final(self).wf(),
            old(self)@.len() == 0 ==> r is None && final(self)@ == old(self)@,
            old(self)@.len() > 0 ==> r == Some(old(self)@[0]) && final(self)@ == old(self)@.skip(1),
            final(self).spilled() == old(self).spilled(),
    {
        let ghost before = *self;
        let ghost n = N as int;
        match &mut self.0 {
            QueueInternal::Inline { buf, head, tail, len } => {
                let ghost b0 = buf@;
                assert(b0.len() == n);
                if *len == 0 {
                    None
                } else {
                    assert(b0[ring(*head as int, 0, n)] is Some);
                    let value = buf[*head].take();
                    *head = step(*head, N);
                    *len = *len - 1;
                    proof {
                        let h0 = before.0->head as int;
                        let h = *head as int;
                        let l = before.0->len as int;
                        let b1 = b0.update(h0, None);
                        assert forall|k: int| 0 <= k < n - 1 implies (#[trigger] b1[ring(h, k, n)])
                            == b0[ring(h0, k + 1, n)] by {}
                        assert(ring(h, n - 1, n) == h0);
                        assert(ring_view(b1, h, l - 1) =~= ring_view(b0, h0, l).skip(1));
                    }
                    value
                }
            },
            QueueInternal::Heap(vec) => vec.pop_front(),
        }
    }

    /// Takes the item at the back, if there is one.
    pub fn pop_back(&mut self) -> (r: Option<T>)
        requires
            old(self).wf(),
        ensures
            final(self).wf(),
            old(self)@.len() == 0 ==> r is None && final(self)@ == old(self)@,
            old(self)@.len() > 0 ==> r == Some(old(self)@.last()) && final(self)@
                == old(self)@.drop_last(),
            final(self).spilled() == old(self).spilled(),
    {
        let ghost before = *self;
        let ghost n = N as int;
        match &mut self.0 {
            QueueInternal::Inline { buf, head, tail, len } => {
                let ghost b0 = buf@;
                assert(b0.len() == n);
                if *len == 0 {
                    None
                } else {
                    *tail = step_back(*tail, N);
                    proof {
                        assert(*tail == ring(*head as int, *len - 1, n));
                        assert(b0[ring(*head as int, *len - 1, n)] is Some);
                    }
                    let value = buf[*tail].take();
                    *len = *len - 1;
                    proof {
                        let h = *head as int;
                        let l = before.0->len as int;
                        let b1 = b0.update(ring(h, l - 1, n), None);
                        assert forall|k: int| 0 <= k < n && k != l - 1 implies (#[trigger] b1[ring(
                            h,
                            k,
                            n,
                        )]) == b0[ring(h, k, n)] by {}
                        assert(ring_view(b1, h, l - 1) =~= ring_view(b0, h, l).drop_last());
                    }
                    value
                }
            },
            QueueInternal::Heap(vec) => vec.pop_back(),
        }
    }

    /// The number of items.
    pub fn len(&self) -> (r: usize)
        ensures
            r == self@.len(),
    {
        match &self.0 {
            QueueInternal::Inline { len, .. } => *len,
            QueueInternal::Heap(vec) => vec.len(),
        }
    }

    /// Whether there are no items.
    pub fn is_empty(&self) -> (r: bool)
        ensures
            r == (self@.len() == 0),
    {
        self.len() == 0
    }

    /// Whether the items have been moved to the heap.
    pub fn is_spilled(&self) -> (r: bool)
        ensures
            r == self.spilled(),
    {
        match &self.0 {
            QueueInternal::Inline { .. } => false,
            QueueInternal::Heap(_) => true,
        }
    }

    /// Moves the items of an inline queue to the heap, with room for `capacity`
    /// items there.
    fn spill(&mut self, capacity: usize)
        requires
            old(self).wf(),
        ensures
            final(self).wf(),
            final(self)@ == old(self)@,
            final(self).spilled(),
    {
        let ghost before = *self;
        match &mut self.0 {
            QueueInternal::Inline { buf, head, tail, len } => {
                let mut heap = VecDeque::with_capacity(capacity);
                drain_ring(buf, *head, *len, &mut heap);
                assert(heap@ =~= before@);
                self.0 = QueueInternal::Heap(heap);
            },
            QueueInternal::Heap(_) => {},
        }
    }

    /// Makes room for `additional` more items. An inline queue whose slots do
    /// not suffice moves to the heap.
    pub fn reserve(&mut self, additional: usize)
        requires
            old(self).wf(),
            old(self)@.len() + additional <= usize::MAX,
        ensures
            final(self).wf(),
            final(self)@ == old(self)@,
            final(self).spilled() <==> old(self).spilled() || old(self)@.len() + additional > N,
    {
        let required: usize = self.len() + additional;
        match &mut self.0 {
            QueueInternal::Inline { .. } => {
                if required > N {
                    self.spill(required);
                }
            },
            QueueInternal::Heap(vec) => vec.reserve(additional),
        }
    }

    /// Takes all items out, front first, and leaves the queue empty.
    pub fn into_vec(&mut self) -> (r: Vec<T>)
        requires
            old(self).wf(),
        ensures
            final(self).wf(),
            r@ == old(self)@,
            final(self)@ == Seq::<T>::empty(),
            final(self).spilled() == old(self).spilled(),
    {
        let len: usize = self.len();
        let mut result: Vec<T> = Vec::with_capacity(len);
        let ghost items = self@;
        proof {
            assert(items.skip(0) =~= items);
            assert(items.take(0) =~= Seq::<T>::empty());
        }
        while result.len() < len
            invariant
                self.wf(),
                self.spilled() == old(self).spilled(),
                len == items.len(),
                result@.len() <= len,
                result@ == items.take(result@.len() as int),
                self@ == items.skip(result@.len() as int),
            decreases len - result@.len(),
        {
            proof {
                let k = result@.len() as int;
                assert(items.take(k).push(items[k]) =~= items.take(k + 1));
                assert(items.skip(k).skip(1) =~= items.skip(k + 1));
            }
            if let Some(value) = self.pop_front() {
                result.push(value);
            }
        }
        assert(result@ =~= items);
        assert(self@ =~= Seq::<T>::empty());
        result
    }

    /// Drops all items.
    pub fn clear(&mut self)
        requires
            old(self).wf(),
        ensures
            final(self).wf(),
            final(self)@ == Seq::<T>::empty(),
            final(self).spilled() == old(self).spilled(),
    {
        match &mut self.0 {
            QueueInternal::Inline { buf, head, tail, len } => {
                let mut dropped: VecDeque<T> = VecDeque::new();
                drain_ring(buf, *head, *len, &mut dropped);
                *head = 0;
                *tail = 0;
                *len = 0;
            },
            QueueInternal::Heap(vec) => vec.clear(),
        }
        assert(self@ =~= Seq::<T>::empty());
    }

    /// The items as one slice, through which they can be changed. The items of
    /// an inline queue move to the heap, where they lie side by side without the
    /// marks that tell filled slots from empty ones.
    pub fn make_contiguous(&mut self) -> (r: &mut [T])
        requires
            old(self).wf(),
        ensures
            r@ == old(self)@,
            final(self).wf(),
            final(self)@ == final(r)@,
            final(self).spilled() <==> old(self).spilled() || old(self)@.len() > 0,
    {
        let len: usize = self.len();
        if len == 0 {
            return &mut [];
        }
        self.spill(len);
        match &mut self.0 {
            QueueInternal::Heap(vec) => deque_make_contiguous(vec),
            QueueInternal::Inline { .. } => {
                assert(false);
                vstd::pervasive::unreached()
            },
        }
    }

    /// Exchanges the items at places `a` and `b`.
    pub fn swap(&mut self, a: usize, b: usize)
        requires
            old(self).wf(),
            a < old(self)@.len(),
            b < old(self)@.len(),
        ensures
            final(self).wf(),
            final(self)@ == old(self)@.update(a as int, old(self)@[b as int]).update(
                b as int,
                old(self)@[a as int],
            ),
            final(self).spilled() == old(self).spilled(),
    {
        let ghost before = *self;
        let ghost n = N as int;
        if a == b {
            assert(self@ =~= self@.update(a as int, self@[b as int]).update(b as int, self@[a as int]));
            return;
        }
        match &mut self.0 {
            QueueInternal::Inline { buf, head, tail, len } => {
                let ghost b0 = buf@;
                assert(b0.len() == n);
                let i: usize = if a >= N - *head { a - (N - *head) } else { *head + a };
                let j: usize = if b >= N - *head { b - (N - *head) } else { *head + b };
                let x = buf[i].take();
                let y = buf[j].take();
                buf[i] = y;
                buf[j] = x;
                proof {
                    let h = *head as int;
                    let l = *len as int;
                    let b1 = b0.update(i as int, b0[j as int]).update(j as int, b0[i as int]);
                    assert(i == ring(h, a as int, n));
                    assert(j == ring(h, b as int, n));
                    assert(buf@ =~= b1);
                    assert forall|k: int| 0 <= k < n && k != a && k != b implies (#[trigger] b1[ring(
                        h,
                        k,
                        n,
                    )]) == b0[ring(h, k, n)] by {}
                    assert(b1[ring(h, a as int, n)] == b0[ring(h, b as int, n)]);
                    assert(b1[ring(h, b as int, n)] == b0[ring(h, a as int, n)]);
                    assert(ring_view(b1, h, l) =~= before@.update(a as int, before@[b as int]).update(
                        b as int,
                        before@[a as int],
                    ));
                }
            },
            QueueInternal::Heap(vec) => deque_swap(vec, a, b),
        }
    }
}

/// The items of `items` whose flag in `keep` is set, in order.
pub open spec fn kept<T>(items: Seq<T>, keep: Seq<bool>) -> Seq<T>
    decreases items.len(),
{
    if items.len() == 0 {
        Seq::empty()
    } else if keep.last() {
        kept(items.drop_last(), keep.drop_last()).push(items.last())
    } else {
        kept(items.drop_last(), keep.drop_last())
    }
}

/// An item is kept or dropped by its own flag, and the items that are kept stay in
/// their order: what is kept of two stretches is what is kept of the first and then
/// what is kept of the second.
pub proof fn law_each_item_is_kept_by_its_own_flag<T>(
    a: Seq<T>,
    keep_a: Seq<bool>,
    b: Seq<T>,
    keep_b: Seq<bool>,
    item: T,
)
    requires
        keep_a.len() == a.len(),
        keep_b.len() == b.len(),
    ensures
        kept(a + b, keep_a + keep_b) == kept(a, keep_a) + kept(b, keep_b),
        kept(seq![item], seq![true]) == seq![item],
        kept(seq![item], seq![false]) == Seq::<T>::empty(),
        kept(Seq::<T>::empty(), Seq::<bool>::empty()) == Seq::<T>::empty(),
    decreases b.len(),
{
    assert(kept(seq![item].drop_last(), seq![true].drop_last()) =~= Seq::<T>::empty());
    assert(kept(seq![item].drop_last(), seq![false].drop_last()) =~= Seq::<T>::empty());
    assert(kept(seq![item], seq![true]) =~= seq![item]);
    if b.len() == 0 {
        assert(a + b =~= a);
        assert(keep_a + keep_b =~= keep_a);
        assert(kept(a, keep_a) + kept(b, keep_b) =~= kept(a, keep_a));
    } else {
        law_each_item_is_kept_by_its_own_flag(
            a,
            keep_a,
            b.drop_last(),
            keep_b.drop_last(),
            item,
        );
        assert((a + b).drop_last() =~= a + b.drop_last());
        assert((keep_a + keep_b).drop_last() =~= keep_a + keep_b.drop_last());
        assert(kept(a + b, keep_a + keep_b) =~= kept(a, keep_a) + kept(b, keep_b));
    }
}

/// Slots lie in a ring: after the last one comes the first.
pub proof fn law_slots_go_round<T>(buf: Seq<Option<T>>, head: int, k: int, len: int)
    requires
        0 <= head < buf.len(),
        0 <= k < len <= buf.len(),
    ensures
        ring(head, k, buf.len() as int) == (head + k) % (buf.len() as int),
        ring_view(buf, head, len).len() == len,
        ring_view(buf, head, len)[k] == buf[(head + k) % (buf.len() as int)]->0,
{
    let n = buf.len() as int;
    if head + k >= n {
        vstd::arithmetic::div_mod::lemma_mod_sub_multiples_vanish(head + k, n);
        vstd::arithmetic::div_mod::lemma_small_mod((head + k - n) as nat, n as nat);
    } else {
        vstd::arithmetic::div_mod::lemma_small_mod((head + k) as nat, n as nat);
    }
}

/// Where the flags come from a predicate, the items kept are those that the
/// predicate holds of.
pub proof fn lemma_kept_is_filter<T>(items: Seq<T>, keep: Seq<bool>, pred: spec_fn(T) -> bool)
    requires
        keep.len() == items.len(),
        forall|i: int| 0 <= i < items.len() ==> keep[i] == pred(#[trigger] items[i]),
    ensures
        kept(items, keep) == items.filter(pred),
    decreases items.len(),
{
    reveal(Seq::filter);
    if items.len() > 0 {
        lemma_kept_is_filter(items.drop_last(), keep.drop_last(), pred);
    }
}

impl<T, const N: usize> Queue<T, N> {
    /// Keeps the items of which `f` returns true, in their order, and drops the
    /// others. `f` is called once for each item, front first.
    pub fn retain<F: Fn(&T) -> bool>(&mut self, f: F)
        requires
            old(self).wf(),
            forall|i: int| 0 <= i < old(self)@.len() ==> call_requires(f, (&#[trigger] old(self)@[i],)),
        ensures
            final(self).wf(),
            final(self).spilled() == old(self).spilled(),
            exists|keep: Seq<bool>|
                {
                    &&& keep.len() == old(self)@.len()
                    &&& forall|i: int|
                        0 <= i < keep.len() ==> call_ensures(f, (&old(self)@[i],), #[trigger] keep[i])
                    &&& final(self)@ == #[trigger] kept(old(self)@, keep)
                },
    {
        let len: usize = self.len();
        let mut done: usize = 0;
        let ghost items = self@;
        let ghost mut keep: Seq<bool> = Seq::empty();
        proof {
            assert(items.skip(0) + kept(items.take(0), keep) =~= items);
        }
        while done < len
            invariant
                self.wf(),
                self.spilled() == old(self).spilled(),
                done <= len,
                len == items.len(),
                items == old(self)@,
                keep.len() == done,
                forall|i: int| 0 <= i < items.len() ==> call_requires(f, (&#[trigger] items[i],)),
                forall|i: int| 0 <= i < done ==> call_ensures(f, (&items[i],), #[trigger] keep[i]),
                self@ == items.skip(done as int) + kept(items.take(done as int), keep),
                kept(items.take(done as int), keep).len() <= done,
                !self.spilled() ==> len <= N,
            decreases len - done,
        {
            let ghost rest = kept(items.take(done as int), keep);
            assert(items.take(done + 1).drop_last() =~= items.take(done as int));
            assert(self@.skip(1) =~= items.skip(done + 1) + rest);
            if let Some(value) = self.pop_front() {
                let wanted = f(&value);
                proof {
                    let next = keep.push(wanted);
                    assert(next.drop_last() =~= keep);
                    keep = next;
                }
                if wanted {
                    assert((items.skip(done + 1) + rest).push(value) =~= items.skip(done + 1)
                        + rest.push(value));
                    self.push_back(value);
                }
            }
            done = done + 1;
        }
        assert(items.take(len as int) =~= items);
        assert(self@ =~= kept(items, keep));
    }
}

/// Yields references to the items of a queue, front first. Its view is the
/// sequence of the items that are still to come.
pub enum Iter<'a, T, const N: usize> {
    Inline { buf: &'a [Option<T>; N], head: usize, remaining: usize },
    Heap { vec: &'a VecDeque<T>, pos: usize },
}

impl<'a, T, const N: usize> View for Iter<'a, T, N> {
    type V = Seq<T>;

    closed spec fn view(&self) -> Seq<T> {
        match self {
            Iter::Inline { buf, head, remaining } => ring_view(buf@, *head as int, *remaining as int),
            Iter::Heap { vec, pos } => vec@.skip(*pos as int),
        }
    }
}

impl<'a, T, const N: usize> Iter<'a, T, N> {
    /// The slots that are still to be visited are filled.
    pub closed spec fn wf(self) -> bool {
        match self {
            Iter::Inline { buf, head, remaining } => {
                &&& remaining <= N
                &&& remaining > 0 ==> head < N
                &&& forall|k: int|
                    0 <= k < remaining ==> (#[trigger] buf@[ring(head as int, k, N as int)]) is Some
            },
            Iter::Heap { vec, pos } => pos <= vec@.len(),
        }
    }

    /// The next item, if there is one.
    pub fn next(&mut self) -> (r: Option<&'a T>)
        requires
            old(self).wf(),
        ensures
            final(self).wf(),
            old(self)@.len() == 0 ==> r is None && final(self)@ == old(self)@,
            old(self)@.len() > 0 ==> r is Some && *r->0 == old(self)@[0] && final(self)@
                == old(self)@.skip(1),
    {
        match self {
            Iter::Inline { buf, head, remaining } => {
                let ghost n = N as int;
                assert(buf@.len() == n);
                if *remaining == 0 {
                    None
                } else {
                    assert(buf@[ring(*head as int, 0, n)] is Some);
                    let item = buf[*head].as_ref();
                    proof {
                        let h = *head as int;
                        let h1 = ring(h, 1, n);
                        let r = *remaining as int;
                        assert forall|k: int| 0 <= k < r - 1 implies (#[trigger] buf@[ring(h1, k, n)]) is Some by {
                            assert(ring(h1, k, n) == ring(h, k + 1, n));
                        }
                        assert(ring_view(buf@, h1, r - 1) =~= ring_view(buf@, h, r).skip(1));
                    }
                    *head = step(*head, N);
                    *remaining = *remaining - 1;
                    item
                }
            },
            Iter::Heap { vec, pos } => {
                if *pos < vec.len() {
                    let item = &vec[*pos];
                    *pos = *pos + 1;
                    assert(vec@.skip(*pos - 1).skip(1) =~= vec@.skip(*pos as int));
                    Some(item)
                } else {
                    None
                }
            },
        }
    }

    /// The number of items still to come.
    pub fn len(&self) -> (r: usize)
        requires
            self.wf(),
        ensures
            r == self@.len(),
    {
        match self {
            Iter::Inline { remaining, .. } => *remaining,
            Iter::Heap { vec, pos } => vec.len() - *pos,
        }
    }

    /// Bounds on the number of items still to come: it is known exactly.
    pub fn size_hint(&self) -> (r: (usize, Option<usize>))
        requires
            self.wf(),
        ensures
            r == (self@.len() as usize, Some(self@.len() as usize)),
            self@.len() <= usize::MAX,
    {
        let len: usize = self.len();
        (len, Some(len))
    }
}

/// Yields the items of a queue that has been taken apart, front first. Its view
/// is the sequence of the items that are still to come.
pub struct IntoIter<T> {
    inner: VecDeque<T>,
}

impl<T> View for IntoIter<T> {
    type V = Seq<T>;

    closed spec fn view(&self) -> Seq<T> {
        self.inner@
    }
}

impl<T> IntoIter<T> {
    /// The next item, if there is one.
    pub fn next(&mut self) -> (r: Option<T>)
        ensures
            old(self)@.len() == 0 ==> r is None && final(self)@ == old(self)@,
            old(self)@.len() > 0 ==> r == Some(old(self)@[0]) && final(self)@ == old(self)@.skip(1),
    {
        self.inner.pop_front()
    }

    /// The number of items still to come.
    pub fn len(&self) -> (r: usize)
        ensures
            r == self@.len(),
    {
        self.inner.len()
    }

    /// Bounds on the number of items still to come: it is known exactly.
    pub fn size_hint(&self) -> (r: (usize, Option<usize>))
        ensures
            r == (self@.len() as usize, Some(self@.len() as usize)),
            self@.len() <= usize::MAX,
    {
        let len: usize = self.len();
        (len, Some(len))
    }
}

/// Yields the items of a queue for change in place, front first.
pub enum IterMut<'a, T, const N: usize> {
    Inline {
        buf: &'a mut [Option<T>; N],
        head: usize,
        remaining: usize,
        start: Ghost<int>,
        total: Ghost<nat>,
    },
    Heap { slice: &'a mut [T], pos: usize },
}

impl<'a, T, const N: usize> IterMut<'a, T, N> {
    /// All items of the queue, as they are now.
    pub open spec fn items(self) -> Seq<T> {
        match self {
            IterMut::Inline { buf, start, total, .. } => ring_view(buf@, start@, total@ as int),
            IterMut::Heap { slice, .. } => slice@,
        }
    }

    /// How many items have been yielded.
    pub open spec fn position(self) -> int {
        match self {
            IterMut::Inline { remaining, total, .. } => total@ - remaining,
            IterMut::Heap { pos, .. } => pos as int,
        }
    }

    /// The iterator stands at the slot after those it has yielded.
    pub open spec fn wf(self) -> bool {
        match self {
            IterMut::Inline { buf, head, remaining, start, total } => {
                &&& ring_filled(buf@, start@, total@ as int)
                &&& remaining <= total@
                &&& remaining > 0 ==> head == ring(start@, total@ - remaining, N as int)
            },
            IterMut::Heap { slice, pos } => pos <= slice@.len(),
        }
    }

    /// The next item, if there is one. What is written to it is written to the
    /// queue.
    pub fn next(&mut self) -> (r: Option<&mut T>)
        requires
            old(self).wf(),
        ensures
            final(self).wf(),
            old(self).position() >= old(self).items().len() ==> r is None && *final(self) == *old(
                self,
            ),
            old(self).position() < old(self).items().len() ==> {
                &&& r is Some
                &&& *r->0 == old(self).items()[old(self).position()]
                &&& final(self).position() == old(self).position() + 1
                &&& final(self).items() == old(self).items().update(
                    old(self).position(),
                    *final(r->0),
                )
            },
            match (*old(self), *final(self)) {
                (
                    IterMut::Inline { buf: b0, start: s0, total: t0, .. },
                    IterMut::Inline { buf: b1, start: s1, total: t1, .. },
                ) => *final(b0) == *final(b1) && s0 == s1 && t0 == t1,
                (IterMut::Heap { slice: s0, .. }, IterMut::Heap { slice: s1, .. }) => final(s0)@
                    == final(s1)@,
                _ => false,
            },
    {
        let ghost n = N as int;
        match self {
            IterMut::Inline { buf, head, remaining, start, total } => {
                assert(buf@.len() == n);
                if *remaining == 0 {
                    None
                } else {
                    let idx: usize = *head;
                    let ghost p = total@ - *remaining;
                    let ghost s = start@;
                    let ghost b0 = buf@;
                    assert(b0[ring(s, p, n)] is Some);
                    *head = step(*head, N);
                    *remaining = *remaining - 1;
                    match &mut buf[idx] {
                        Some(item) => {
                            proof {
                                let b1 = b0.update(ring(s, p, n), Some(*final(item)));
                                assert forall|k: int| 0 <= k < n && k != p implies (#[trigger] b1[ring(
                                    s,
                                    k,
                                    n,
                                )]) == b0[ring(s, k, n)] by {}
                                assert(ring_view(b1, s, total@ as int) =~= ring_view(b0, s, total@ as int).update(
                                    p,
                                    *final(item),
                                ));
                            }
                            Some(item)
                        },
                        None => None,
                    }
                }
            },
            IterMut::Heap { slice, pos } => {
                let idx: usize = *pos;
                if idx < slice.len() {
                    *pos = idx + 1;
                    Some(&mut slice[idx])
                } else {
                    None
                }
            },
        }
    }

    /// The number of items still to come.
    pub fn len(&self) -> (r: usize)
        requires
            self.wf(),
        ensures
            r == self.items().len() - self.position(),
    {
        match self {
            IterMut::Inline { remaining, .. } => *remaining,
            IterMut::Heap { slice, pos } => slice.len() - *pos,
        }
    }

    /// Bounds on the number of items still to come: it is known exactly.
    pub fn size_hint(&self) -> (r: (usize, Option<usize>))
        requires
            self.wf(),
        ensures
            r.0 == self.items().len() - self.position(),
            r.1 == Some(r.0),
    {
        let len: usize = self.len();
        (len, Some(len))
    }
}

impl<T, const N: usize> Queue<T, N> {
    /// An iterator over the items, front first.
    pub fn iter(&self) -> (r: Iter<'_, T, N>)
        requires
            self.wf(),
        ensures
            r.wf(),
            r@ == self@,
    {
        let r = match &self.0 {
            QueueInternal::Inline { buf, head, tail, len } => {
                assert(buf@.len() == N);
                Iter::Inline { buf, head: *head, remaining: *len }
            },
            QueueInternal::Heap(vec) => Iter::Heap { vec, pos: 0 },
        };
        assert(r@ =~= self@);
        r
    }

    /// An iterator over the items, front first, through which they can be
    /// changed. Once it is done with, the queue holds the items as the iterator
    /// left them, which is what a ring filled as the iterator's is reads as.
    pub fn iter_mut(&mut self) -> (r: IterMut<'_, T, N>)
        requires
            old(self).wf(),
        ensures
            r.wf(),
            r.position() == 0,
            r.items() == old(self)@,
            final(self).spilled() == old(self).spilled(),
            match r {
                IterMut::Inline { buf, start, total, .. } => ring_filled(
                    final(buf)@,
                    start@,
                    total@ as int,
                ) ==> final(self).wf() && final(self)@ == ring_view(
                    final(buf)@,
                    start@,
                    total@ as int,
                ),
                IterMut::Heap { slice, .. } => final(self).wf() && final(self)@ == final(slice)@,
            },
    {
        match &mut self.0 {
            QueueInternal::Inline { buf, head, tail, len } => {
                assert(buf@.len() == N);
                IterMut::Inline {
                    buf,
                    head: *head,
                    remaining: *len,
                    start: Ghost(*head as int),
                    total: Ghost(*len as nat),
                }
            },
            QueueInternal::Heap(vec) => IterMut::Heap {
                slice: deque_make_contiguous(vec),
                pos: 0,
            },
        }
    }

    /// Takes the queue apart into an iterator over its items, front first.
    pub fn into_iter(self) -> (r: IntoIter<T>)
        requires
            self.wf(),
        ensures
            r@ == self@,
    {
        let mut queue = self;
        let len: usize = queue.len();
        queue.spill(len);
        match queue.0 {
            QueueInternal::Heap(inner) => IntoIter { inner },
            QueueInternal::Inline { .. } => {
                assert(false);
                IntoIter { inner: VecDeque::new() }
            },
        }
    }

    /// References to the items, front first.
    pub fn to_refs(&self) -> (r: Vec<&T>)
        requires
            self.wf(),
        ensures
            r@.len() == self@.len(),
            forall|i: int| 0 <= i < r@.len() ==> *(#[trigger] r@[i]) == self@[i],
    {
        let len: usize = self.len();
        let mut r: Vec<&T> = Vec::with_capacity(len);
        let mut iter = self.iter();
        while r.len() < len
            invariant
                iter.wf(),
                r@.len() <= len,
                len == self@.len(),
                iter@ == self@.skip(r@.len() as int),
                forall|i: int| 0 <= i < r@.len() ==> *(#[trigger] r@[i]) == self@[i],
            decreases len - r@.len(),
        {
            let ghost k = r@.len() as int;
            assert(self@.skip(k).skip(1) =~= self@.skip(k + 1));
            if let Some(item) = iter.next() {
                r.push(item);
            }
        }
        r
    }

    /// What the slot of the item at place `i` holds.
    pub closed spec fn slot(self, i: int) -> Option<T> {
        match self.0 {
            QueueInternal::Inline { buf, head, tail, len } => if i < len && i < N && head < N {
                buf@[ring(head as int, i, N as int)]
            } else {
                None
            },
            QueueInternal::Heap(vec) => if i < vec@.len() {
                Some(vec@[i])
            } else {
                None
            },
        }
    }

    /// In a queue that is in order, the slots hold the items.
    pub proof fn lemma_slots(self)
        requires
            self.wf(),
        ensures
            forall|i: int| 0 <= i < self@.len() ==> #[trigger] self.slot(i) == Some(self@[i]),
    {
        match self.0 {
            QueueInternal::Inline { buf, head, tail, len } => {
                assert(buf@.len() == N);
                assert forall|i: int| 0 <= i < self@.len() implies #[trigger] self.slot(i) == Some(
                    self@[i],
                ) by {
                    assert(buf@[ring(head as int, i, N as int)] is Some);
                }
            },
            QueueInternal::Heap(vec) => {},
        }
    }

    fn get(&self, i: usize) -> (r: Option<&T>)
        ensures
            match r {
                Some(item) => self.slot(i as int) == Some(*item),
                None => self.slot(i as int) is None,
            },
    {
        match &self.0 {
            QueueInternal::Inline { buf, head, tail, len } => {
                assert(buf@.len() == N);
                if i < *len && i < N && *head < N {
                    let idx: usize = if i >= N - *head {
                        i - (N - *head)
                    } else {
                        *head + i
                    };
                    buf[idx].as_ref()
                } else {
                    None
                }
            },
            QueueInternal::Heap(vec) => if i < vec.len() {
                Some(&vec[i])
            } else {
                None
            },
        }
    }
}

impl<T, const N: usize> Default for Queue<T, N> {
    fn default() -> (r: Self)
        ensures
            r.wf(),
            r@ == Seq::<T>::empty(),
            !r.spilled(),
    {
        Self::new()
    }
}

impl<T: Clone, const N: usize> Clone for Queue<T, N> {
    fn clone(&self) -> (r: Self)
        ensures
            r.wf(),
            self.wf() ==> {
                &&& r@.len() == self@.len()
                &&& forall|i: int| 0 <= i < r@.len() ==> cloned(self@[i], #[trigger] r@[i])
                &&& r.spilled() <==> self@.len() > N
            },
    {
        let mut r = Self::new();
        let len: usize = self.len();
        let mut i: usize = 0;
        proof {
            if self.wf() {
                self.lemma_slots();
            }
        }
        while i < len
            invariant
                i <= len,
                len == self@.len(),
                r.wf(),
                self.wf() ==> {
                    &&& r@.len() == i
                    &&& r.spilled() <==> i > N
                    &&& forall|k: int| 0 <= k < self@.len() ==> #[trigger] self.slot(k) == Some(self@[k])
                    &&& forall|k: int| 0 <= k < r@.len() ==> cloned(self@[k], #[trigger] r@[k])
                },
            decreases len - i,
        {
            if let Some(item) = self.get(i) {
                r.push_back(item.clone());
            }
            i = i + 1;
        }
        r
    }
}

impl<T: PartialEq, const N: usize> PartialEqSpecImpl for Queue<T, N> {
    open spec fn obeys_eq_spec() -> bool {
        <T as PartialEqSpec>::obeys_eq_spec()
    }

    open spec fn eq_spec(&self, other: &Self) -> bool {
        &&& self@.len() == other@.len()
        &&& forall|i: int|
            0 <= i < self@.len() ==> match (#[trigger] self.slot(i), other.slot(i)) {
                (Some(a), Some(b)) => PartialEqSpec::eq_spec(&a, &b),
                _ => false,
            }
    }
}

impl<T: PartialEq, const N: usize> PartialEq for Queue<T, N> {
    fn eq(&self, other: &Self) -> (r: bool) {
        let len: usize = self.len();
        if len != other.len() {
            return false;
        }
        let mut i: usize = 0;
        while i < len
            invariant
                i <= len,
                len == self@.len(),
                len == other@.len(),
                <T as PartialEqSpec>::obeys_eq_spec() ==> forall|k: int|
                    0 <= k < i ==> match (#[trigger] self.slot(k), other.slot(k)) {
                        (Some(a), Some(b)) => PartialEqSpec::eq_spec(&a, &b),
                        _ => false,
                    },
            decreases len - i,
        {
            let same = match (self.get(i), other.get(i)) {
                (Some(a), Some(b)) => *a == *b,
                _ => false,
            };
            if !same {
                return false;
            }
            i = i + 1;
        }
        true
    }
}

impl<T: Eq, const N: usize> Eq for Queue<T, N> {

}

impl<T, const N: usize> Queue<T, N> {
    /// Two queues in order are equal where their items are, whichever way each
    /// stores them.
    pub proof fn law_equality_ignores_storage(self, other: Self)
        where T: PartialEq
        requires
            self.wf(),
            other.wf(),
        ensures
            PartialEqSpec::eq_spec(&self, &other) <==> self@.len() == other@.len() && forall|i: int|
                0 <= i < self@.len() ==> PartialEqSpec::eq_spec(&#[trigger] self@[i], &other@[i]),
    {
        self.lemma_slots();
        other.lemma_slots();
        if self@.len() == other@.len() {
            if PartialEqSpec::eq_spec(&self, &other) {
                assert forall|i: int| 0 <= i < self@.len() implies PartialEqSpec::eq_spec(
                    &#[trigger] self@[i],
                    &other@[i],
                ) by {
                    assert(self.slot(i) == Some(self@[i]));
                }
            }
        }
    }

    /// Adds the items of an iterator at the back, in the order in which they
    /// come.
    pub fn extend<I: Iterator<Item = T>>(&mut self, iter: I)
        requires
            old(self).wf(),
            iter.obeys_prophetic_iter_laws(),
            iter.decrease() is Some,
        ensures
            final(self).wf(),
            final(self)@ == old(self)@ + iter.remaining(),
            final(self).spilled() <==> old(self).spilled() || (iter.remaining().len() > 0
                && old(self)@.len() + iter.remaining().len() > N),
    {
        let mut it = iter;
        loop
            invariant_except_break
                self.wf(),
                it.obeys_prophetic_iter_laws(),
                it.decrease() is Some,
                self@ + it.remaining() == old(self)@ + iter.remaining(),
                self@.len() >= old(self)@.len(),
                self.spilled() <==> old(self).spilled() || (self@.len() > old(self)@.len()
                    && self@.len() > N),
            ensures
                self.wf(),
                self@ == old(self)@ + iter.remaining(),
                self.spilled() <==> old(self).spilled() || (iter.remaining().len() > 0
                    && old(self)@.len() + iter.remaining().len() > N),
            decreases it.decrease()->0,
        {
            let ghost left = it.remaining();
            match it.next() {
                Some(item) => {
                    assert(self@ + left =~= self@.push(item) + left.drop_first());
                    self.push_back(item);
                },
                None => {
                    assert(self@ + left =~= self@);
                    break;
                },
            }
        }
    }

    /// A queue of the items of an iterator, in the order in which they come.
    pub fn from_iter<I: Iterator<Item = T>>(iter: I) -> (r: Self)
        requires
            iter.obeys_prophetic_iter_laws(),
            iter.decrease() is Some,
        ensures
            r.wf(),
            r@ == iter.remaining(),
            r.spilled() <==> iter.remaining().len() > N,
    {
        let mut queue = Self::new();
        queue.extend(iter);
        assert(queue@ =~= iter.remaining());
        queue
    }
}

impl<T, const N: usize> FromSpecImpl<Vec<T>> for Queue<T, N> {
    open spec fn obeys_from_spec() -> bool {
        false
    }

    open spec fn from_spec(v: Vec<T>) -> Self {
        arbitrary()
    }
}

impl<T, const N: usize> From<Vec<T>> for Queue<T, N> {
    fn from(vec: Vec<T>) -> (r: Self)
        ensures
            r.wf(),
            r@ == vec@,
            r.spilled() <==> vec@.len() > N,
    {
        let r = Self::from_iter(vec.into_iter());
        r
    }
}

impl<T, const N: usize> FromSpecImpl<VecDeque<T>> for Queue<T, N> {
    open spec fn obeys_from_spec() -> bool {
        false
    }

    open spec fn from_spec(v: VecDeque<T>) -> Self {
        arbitrary()
    }
}

impl<T, const N: usize> From<VecDeque<T>> for Queue<T, N> {
    fn from(vec_deque: VecDeque<T>) -> (r: Self)
        ensures
            r.wf(),
            r@ == vec_deque@,
            r.spilled() <==> vec_deque@.len() > N,
    {
        let mut rest = vec_deque;
        let mut queue = Self::new();
        let len: usize = rest.len();
        let ghost items = rest@;
        let mut done: usize = 0;
        while done < len
            invariant
                done <= len,
                len == items.len(),
                queue.wf(),
                rest@ == items.skip(done as int),
                queue@ == items.take(done as int),
                queue.spilled() <==> done > N,
            decreases len - done,
        {
            assert(items.skip(done as int).skip(1) =~= items.skip(done + 1));
            assert(items.take(done as int).push(items[done as int]) =~= items.take(done + 1));
            if let Some(item) = rest.pop_front() {
                queue.push_back(item);
            }
            done = done + 1;
        }
        assert(items.take(len as int) =~= items);
        queue
    }
}

/// What is pushed at one end comes out there first.
pub proof fn law_last_in_first_out_at_one_end<T>(items: Seq<T>, value: T)
    ensures
        items.push(value).last() == value,
        items.push(value).drop_last() == items,
        (seq![value] + items)[0] == value,
        (seq![value] + items).skip(1) == items,
{
    assert(items.push(value).drop_last() =~= items);
    assert((seq![value] + items).skip(1) =~= items);
}

/// What is pushed at the back comes out at the front after all that was there,
/// in the order in which it went in.
pub proof fn law_first_in_first_out<T>(items: Seq<T>, added: Seq<T>)
    ensures
        (items + added).take(items.len() as int) == items,
        (items + added).skip(items.len() as int) == added,
{
    assert((items + added).take(items.len() as int) =~= items);
    assert((items + added).skip(items.len() as int) =~= added);
}

/// An item that is pushed at an end is there, next to all others, which stay in their
/// order. Inline room is left for good when it does not suffice, and only then.
pub proof fn law_what_pushing_does<T, const N: usize>(
    back: &mut Queue<T, N>,
    front: &mut Queue<T, N>,
    value: T,
    r: (),
    s: (),
)
    requires
        call_ensures(Queue::<T, N>::push_back, (back, value), r),
        call_ensures(Queue::<T, N>::push_front, (front, value), s),
    ensures
        final(back)@.len() == old(back)@.len() + 1,
        final(back)@[old(back)@.len() as int] == value,
        forall|i: int| 0 <= i < old(back)@.len() ==> #[trigger] final(back)@[i] == old(back)@[i],
        final(back).spilled() <==> old(back).spilled() || final(back)@.len() > N,
        final(front)@.len() == old(front)@.len() + 1,
        final(front)@[0] == value,
        forall|i: int| 0 <= i < old(front)@.len() ==> final(front)@[i + 1] == #[trigger] old(front)@[i],
        final(front).spilled() <==> old(front).spilled() || final(front)@.len() > N,
{
}

/// What is popped is the item at that end, and all others stay in their order. An empty
/// queue gives nothing.
pub proof fn law_what_popping_does<T, const N: usize>(
    front: &mut Queue<T, N>,
    r: Option<T>,
    back: &mut Queue<T, N>,
    s: Option<T>,
)
    requires
        call_ensures(Queue::<T, N>::pop_front, (front,), r),
        call_ensures(Queue::<T, N>::pop_back, (back,), s),
    ensures
        r is Some <==> old(front)@.len() > 0,
        r is Some ==> old(front)@ == seq![r->0] + final(front)@,
        r is None ==> final(front)@.len() == 0,
        final(front).spilled() == old(front).spilled(),
        s is Some <==> old(back)@.len() > 0,
        s is Some ==> old(back)@ == final(back)@.push(s->0),
        s is None ==> final(back)@.len() == 0,
        final(back).spilled() == old(back).spilled(),
{
    if r is Some {
        assert(old(front)@ =~= seq![r->0] + final(front)@);
    }
    if s is Some {
        assert(old(back)@ =~= final(back)@.push(s->0));
    }
}

/// An item that is pushed comes back when it is popped at the same end, and the queue is
/// then as before. Popped at the other end of an empty queue, it comes back too.
pub proof fn law_popping_undoes_pushing<T, const N: usize>(
    queue: &mut Queue<T, N>,
    value: T,
    at_front: bool,
    u: (),
    pushed: &mut Queue<T, N>,
    from_front: bool,
    r: Option<T>,
)
    requires
        at_front ==> call_ensures(Queue::<T, N>::push_front, (queue, value), u),
        !at_front ==> call_ensures(Queue::<T, N>::push_back, (queue, value), u),
        *old(pushed) == *final(queue),
        from_front ==> call_ensures(Queue::<T, N>::pop_front, (pushed,), r),
        !from_front ==> call_ensures(Queue::<T, N>::pop_back, (pushed,), r),
    ensures
        r is Some,
        at_front == from_front || old(queue)@.len() == 0 ==> r == Some(value)
            && final(pushed)@ == old(queue)@,
        at_front && !from_front && old(queue)@.len() > 0 ==> r == Some(old(queue)@.last()),
        !at_front && from_front && old(queue)@.len() > 0 ==> r == Some(old(queue)@[0]),
{
    if at_front == from_front || old(queue)@.len() == 0 {
        assert(final(pushed)@ =~= old(queue)@);
    }
}

/// Two items change places, and no other moves.
pub proof fn law_what_swapping_does<T, const N: usize>(
    queue: &mut Queue<T, N>,
    a: usize,
    b: usize,
    u: (),
)
    requires
        a < old(queue)@.len(),
        b < old(queue)@.len(),
        call_ensures(Queue::<T, N>::swap, (queue, a, b), u),
    ensures
        final(queue)@.len() == old(queue)@.len(),
        final(queue)@[a as int] == old(queue)@[b as int],
        final(queue)@[b as int] == old(queue)@[a as int],
        forall|i: int|
            0 <= i < old(queue)@.len() && i != a && i != b ==> #[trigger] final(queue)@[i] == old(queue)@[i],
        final(queue).spilled() == old(queue).spilled(),
{
}

/// Taking all items out gives them front first and leaves the queue empty; clearing
/// leaves it empty; making room leaves its items. Only the last of these may move them
/// out of inline room, and does exactly where they would not fit.
pub proof fn law_what_emptying_and_reserving_do<T, const N: usize>(
    taken: &mut Queue<T, N>,
    items: Vec<T>,
    cleared: &mut Queue<T, N>,
    u: (),
    grown: &mut Queue<T, N>,
    additional: usize,
    v: (),
)
    requires
        call_ensures(Queue::<T, N>::into_vec, (taken,), items),
        call_ensures(Queue::<T, N>::clear, (cleared,), u),
        call_ensures(Queue::<T, N>::reserve, (grown, additional), v),
    ensures
        items@ == old(taken)@,
        final(taken)@.len() == 0,
        final(taken).spilled() == old(taken).spilled(),
        final(cleared)@.len() == 0,
        final(cleared).spilled() == old(cleared).spilled(),
        final(grown)@ == old(grown)@,
        final(grown).spilled() <==> old(grown).spilled() || old(grown)@.len() + additional > N,
{
}

/// A new queue is empty, and keeps its items inline unless it was made for more than fit
/// there. It says how many items it has, whether it is empty, and where they are.
pub proof fn law_what_a_queue_says_of_itself<T, const N: usize>(
    new: Queue<T, N>,
    capacity: usize,
    roomy: Queue<T, N>,
    queue: Queue<T, N>,
    len: usize,
    empty: bool,
    spilled: bool,
)
    requires
        call_ensures(Queue::<T, N>::new, (), new),
        call_ensures(Queue::<T, N>::with_capacity, (capacity,), roomy),
        call_ensures(Queue::<T, N>::len, (&queue,), len),
        call_ensures(Queue::<T, N>::is_empty, (&queue,), empty),
        call_ensures(Queue::<T, N>::is_spilled, (&queue,), spilled),
    ensures
        new@.len() == 0 && !new.spilled(),
        roomy@.len() == 0,
        roomy.spilled() <==> capacity > N,
        len == queue@.len(),
        empty <==> len == 0,
        spilled == queue.spilled(),
{
}

/// Each of the ways to go through a queue begins at its front, and yields each item once,
/// in their order.
pub proof fn law_what_going_through_does<'a, T, const N: usize>(
    queue: Queue<T, N>,
    iter: Iter<'a, T, N>,
    apart: IntoIter<T>,
    refs: Vec<&'a T>,
    by_ref: &mut Iter<'a, T, N>,
    r: Option<&'a T>,
    by_value: &mut IntoIter<T>,
    s: Option<T>,
)
    requires
        call_ensures(Queue::<T, N>::iter, (&queue,), iter),
        call_ensures(Queue::<T, N>::into_iter, (queue,), apart),
        call_ensures(Queue::<T, N>::to_refs, (&queue,), refs),
        call_ensures(Iter::<'a, T, N>::next, (by_ref,), r),
        call_ensures(IntoIter::<T>::next, (by_value,), s),
    ensures
        iter@ == queue@,
        apart@ == queue@,
        refs@.len() == queue@.len(),
        forall|i: int| 0 <= i < queue@.len() ==> *(#[trigger] refs@[i]) == queue@[i],
        r is Some <==> old(by_ref)@.len() > 0,
        r is Some ==> old(by_ref)@ == seq![*r->0] + final(by_ref)@,
        r is None ==> final(by_ref)@.len() == 0,
        s is Some <==> old(by_value)@.len() > 0,
        s is Some ==> old(by_value)@ == seq![s->0] + final(by_value)@,
        s is None ==> final(by_value)@.len() == 0,
{
    if r is Some {
        assert(old(by_ref)@ =~= seq![*r->0] + final(by_ref)@);
    }
    if s is Some {
        assert(old(by_value)@ =~= seq![s->0] + final(by_value)@);
    }
}

/// Where `f` answers by what an item is, exactly the items of which it answers true are
/// kept, in their order.
pub proof fn law_what_retaining_does<T, const N: usize, F: Fn(&T) -> bool>(
    queue: &mut Queue<T, N>,
    f: F,
    pred: spec_fn(T) -> bool,
    u: (),
)
    requires
        forall|item: T, r: bool| #[trigger] call_ensures(f, (&item,), r) ==> r == pred(item),
        call_ensures(Queue::<T, N>::retain::<F>, (queue, f), u),
    ensures
        final(queue)@ == old(queue)@.filter(pred),
        final(queue).spilled() == old(queue).spilled(),
{
    let items = old(queue)@;
    let keep = choose|keep: Seq<bool>|
        {
            &&& keep.len() == items.len()
            &&& forall|i: int|
                0 <= i < keep.len() ==> call_ensures(f, (&items[i],), #[trigger] keep[i])
            &&& final(queue)@ == #[trigger] kept(items, keep)
        };
    assert forall|i: int| 0 <= i < items.len() implies keep[i] == pred(#[trigger] items[i]) by {
        assert(call_ensures(f, (&items[i],), keep[i]));
    }
    lemma_kept_is_filter(items, keep, pred);
}

/// The items of an iterator come behind all others, in the order in which it yields them,
/// and a queue made of them holds just these. Inline room is left exactly where it does
/// not suffice for an item that is added.
pub proof fn law_what_extending_does<T, const N: usize, I: Iterator<Item = T>>(
    queue: &mut Queue<T, N>,
    iter: I,
    u: (),
    made: Queue<T, N>,
)
    requires
        call_ensures(Queue::<T, N>::extend::<I>, (queue, iter), u),
        call_ensures(Queue::<T, N>::from_iter::<I>, (iter,), made),
    ensures
        final(queue)@.take(old(queue)@.len() as int) == old(queue)@,
        final(queue)@.skip(old(queue)@.len() as int) == made@,
        made@ == iter.remaining(),
        made.spilled() <==> made@.len() > N,
        final(queue).spilled() <==> old(queue).spilled() || (made@.len() > 0
            && final(queue)@.len() > N),
{
    assert(final(queue)@.take(old(queue)@.len() as int) =~= old(queue)@);
    assert(final(queue)@.skip(old(queue)@.len() as int) =~= iter.remaining());
}

} // verus!
