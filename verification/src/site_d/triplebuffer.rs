use vstd::layout;
use vstd::prelude::*;

use std::task::Waker;

pub use crate::site_d::buffer::{AlignedBuffer, Zeroable};

use crate::poll::Poll;
use crate::site_d::notify::{AtomicWaker, CellState};

verus! {

/// The state of a triple buffer, as contracts see it.
pub struct TripleState<T: Zeroable + Copy> {
    /// The buffers that are in the structure.
    pub slots: Seq<Option<AlignedBuffer<T>>>,
    /// The number of items of each buffer.
    pub cap: usize,
    /// The alignment of each buffer.
    pub align: usize,
    pub writer_idx: int,
    pub reader_idx: int,
    pub middle_idx: int,
    /// Counts the buffers that have been published.
    pub generation: usize,
    /// The generation that was last taken.
    pub last_read_gen: usize,
    /// The reader, where it is parked.
    pub reader: CellState,
    /// The writer, where it is parked.
    pub writer: CellState,
    /// How many of the three buffers are outside of the structure.
    pub out: int,
    /// Which triple buffer this is. Its ends and futures carry the same tag.
    pub tag: int,
}

/// How many of the slots are filled.
pub open spec fn filled<T: Zeroable + Copy>(slots: Seq<Option<AlignedBuffer<T>>>) -> int {
    (if slots[0] is Some {
        1int
    } else {
        0
    }) + (if slots[1] is Some {
        1int
    } else {
        0
    }) + (if slots[2] is Some {
        1int
    } else {
        0
    })
}

/// Whether `buf` is a buffer of `capacity` items with alignment `align` that has
/// not been used. Its items lie at a multiple of `align` where one is sure to be
/// reached.
pub open spec fn is_fresh_buffer<T: Zeroable + Copy>(
    buf: AlignedBuffer<T>,
    capacity: int,
    align: int,
) -> bool {
    &&& buf.wf()
    &&& buf.mem() == Seq::new(capacity as nat, |i: int| T::zero_value())
    &&& buf@ == Seq::<T>::empty()
    &&& buf.align() == align
    &&& AlignedBuffer::<T>::placeable(capacity, align) ==> buf.address() as int % align == 0
}

/// The generation after `generation`.
pub open spec fn next_generation(generation: usize) -> usize {
    if generation == usize::MAX {
        0
    } else {
        (generation + 1) as usize
    }
}

impl<T: Zeroable + Copy> TripleState<T> {
    /// Whether the structure has not been used: the writer has its buffer, and
    /// the other two are in their slots.
    pub open spec fn is_fresh(self, capacity: int, align: int) -> bool {
        &&& self.slots.len() == 3
        &&& self.slots[0] is None
        &&& self.slots[1] is Some && is_fresh_buffer(self.slots[1]->0, capacity, align)
        &&& self.slots[2] is Some && is_fresh_buffer(self.slots[2]->0, capacity, align)
        &&& self == TripleState {
            slots: self.slots,
            cap: capacity as usize,
            align: align as usize,
            writer_idx: 0,
            reader_idx: 1,
            middle_idx: 2,
            generation: 0,
            last_read_gen: 0,
            reader: CellState { state: 0, waker: None },
            writer: CellState { state: 0, waker: None },
            out: 1,
            tag: self.tag,
        }
    }

    /// Whether `buf` has the size and the alignment of the three buffers.
    pub open spec fn matching(self, buf: AlignedBuffer<T>) -> bool {
        buf.wf() && buf.mem().len() == self.cap && buf.align() == self.align
    }

    /// The writer, the reader and the middle have a slot each. At most one
    /// buffer is published and not taken, and then it is in the middle. Each of
    /// the three buffers is in a slot or outside.
    pub open spec fn inv(self) -> bool {
        &&& self.slots.len() == 3
        &&& 0 <= self.writer_idx < 3
        &&& 0 <= self.reader_idx < 3
        &&& 0 <= self.middle_idx < 3
        &&& self.writer_idx != self.reader_idx
        &&& self.reader_idx != self.middle_idx
        &&& self.middle_idx != self.writer_idx
        &&& forall|i: int|
            0 <= i < 3 && (#[trigger] self.slots[i]) is Some ==> self.matching(self.slots[i]->0)
        &&& self.generation == self.last_read_gen || self.generation == next_generation(
            self.last_read_gen,
        )
        &&& self.unread() ==> self.slots[self.middle_idx] is Some
        &&& filled(self.slots) + self.out == 3
        &&& self.reader.state == 0
        &&& self.writer.state == 0
    }

    /// Whether a buffer has been published and not been taken.
    pub open spec fn unread(self) -> bool {
        self.generation != self.last_read_gen
    }

    /// The buffer in the middle.
    pub open spec fn middle(self) -> AlignedBuffer<T> {
        self.slots[self.middle_idx]->0
    }

    /// The state after the writer has put `completed` in its slot and made that
    /// the middle, before it takes out the buffer it gets in return and before
    /// the reader is woken.
    pub open spec fn rotated(self, completed: AlignedBuffer<T>) -> Self {
        TripleState {
            slots: self.slots.update(self.writer_idx, Some(completed)),
            writer_idx: self.middle_idx,
            middle_idx: self.writer_idx,
            generation: next_generation(self.generation),
            out: self.out - 1,
            ..self
        }
    }

    /// The state after the writer has taken out the buffer in its slot.
    pub open spec fn collected(self) -> Self {
        TripleState {
            slots: self.slots.update(self.writer_idx, None),
            out: self.out + 1,
            ..self
        }
    }

    /// The state after the writer has published `completed`.
    pub open spec fn published(self, completed: AlignedBuffer<T>) -> Self {
        TripleState { reader: self.reader.finished_take(), ..self.rotated(completed).collected() }
    }

    /// The slots once the reader has put `previous` in its own.
    pub open spec fn slots_with(self, previous: Option<AlignedBuffer<T>>) -> Seq<
        Option<AlignedBuffer<T>>,
    > {
        match previous {
            Some(prev) => self.slots.update(self.reader_idx, Some(prev)),
            None => self.slots,
        }
    }

    /// The state after the reader has put `previous` in its slot, made that the
    /// middle, and taken out what was in the middle, before the writer is woken.
    pub open spec fn moved(self, previous: Option<AlignedBuffer<T>>) -> Self {
        TripleState {
            slots: self.slots_with(previous).update(self.middle_idx, None),
            reader_idx: self.middle_idx,
            middle_idx: self.reader_idx,
            last_read_gen: self.generation,
            out: if previous is Some {
                self.out
            } else {
                self.out + 1
            },
            ..self
        }
    }

    /// The state after the reader has given `previous` back and taken the
    /// published buffer.
    pub open spec fn taken(self, previous: Option<AlignedBuffer<T>>) -> Self {
        TripleState { writer: self.writer.finished_take(), ..self.moved(previous) }
    }

    /// Whether `previous` can be given back: it fits, and the slot for it is
    /// empty.
    pub open spec fn accepts(self, previous: Option<AlignedBuffer<T>>) -> bool {
        match previous {
            Some(prev) => self.matching(prev) && self.slots[self.reader_idx] is None,
            None => true,
        }
    }

    /// Whether the writer can publish: nothing is unread, its slot is empty, and
    /// there is a buffer to get in return.
    pub open spec fn can_publish(self) -> bool {
        &&& !self.unread()
        &&& self.slots[self.writer_idx] is None
        &&& self.slots[self.middle_idx] is Some
    }

    /// What is published is what is taken next, and nothing is lost: until then
    /// the writer cannot publish again. A reader that gives back its last
    /// buffer leaves the writer one to get in return.
    pub proof fn law_published_is_taken(
        self,
        completed: AlignedBuffer<T>,
        previous: Option<AlignedBuffer<T>>,
    )
        requires
            self.inv(),
            self.can_publish(),
            self.matching(completed),
            self.accepts(previous),
        ensures
            self.published(completed).inv(),
            self.published(completed).unread(),
            !self.published(completed).can_publish(),
            self.published(completed).middle() == completed,
            self.published(completed).accepts(previous),
            self.published(completed).taken(previous).inv(),
            !self.published(completed).taken(previous).unread(),
            previous is Some || self.slots[self.reader_idx] is Some ==> self.published(
                completed,
            ).taken(previous).can_publish(),
    {
        self.lemma_rotated(completed);
        self.rotated(completed).lemma_collected();
        self.published(completed).lemma_moved(previous);
    }

    /// There are three buffers at all times: those in the slots and those
    /// outside.
    pub proof fn law_three_buffers(self)
        requires
            self.inv(),
        ensures
            filled(self.slots) + self.out == 3,
            0 <= filled(self.slots) <= 3,
    {
    }

    /// The writer takes out the buffer it gets in return only after the reader
    /// can see what it published. What the reader does in between does not
    /// disturb it: both orders come to the same.
    pub proof fn law_the_reader_leaves_the_writers_slot(
        self,
        completed: AlignedBuffer<T>,
        previous: Option<AlignedBuffer<T>>,
    )
        requires
            self.inv(),
            self.can_publish(),
            self.matching(completed),
            self.accepts(previous),
        ensures
            self.rotated(completed).moved(previous).collected() == self.rotated(
                completed,
            ).collected().moved(previous),
            self.rotated(completed).moved(previous).slots[self.middle_idx]
                == self.slots[self.middle_idx],
            self.rotated(completed).middle() == completed,
    {
        assert(self.rotated(completed).moved(previous).collected().slots =~= self.rotated(
            completed,
        ).collected().moved(previous).slots);
    }

    /// What publishing does: the completed buffer is then in the middle, in the slot that
    /// was the writer's; the writer gets the buffer that was in the middle, and its slot;
    /// the reader's slot is left alone. One more has been published, and a reader that
    /// is parked is woken.
    pub proof fn law_what_publishing_does(self, completed: AlignedBuffer<T>)
        requires
            self.inv(),
            self.can_publish(),
        ensures
            ({
                let after = self.published(completed);
                &&& after.slots.len() == 3
                &&& after.slots[self.writer_idx] == Some(completed)
                &&& after.slots[self.middle_idx] is None
                &&& after.slots[self.reader_idx] == self.slots[self.reader_idx]
                &&& after.middle_idx == self.writer_idx
                &&& after.writer_idx == self.middle_idx
                &&& self.generation < usize::MAX ==> after.generation == self.generation + 1
                &&& self.generation == usize::MAX ==> after.generation == 0
                &&& after.reader.waker is None
                &&& after.reader.state == 0
                &&& after == (TripleState {
                    slots: after.slots,
                    writer_idx: after.writer_idx,
                    middle_idx: after.middle_idx,
                    generation: after.generation,
                    reader: after.reader,
                    ..self
                })
                &&& self.middle() == self.slots[self.middle_idx]->0
            }),
            ({
                let after = self.rotated(completed);
                &&& after.slots[self.writer_idx] == Some(completed)
                &&& after.slots[self.middle_idx] == self.slots[self.middle_idx]
                &&& after.slots[self.reader_idx] == self.slots[self.reader_idx]
                &&& after.middle_idx == self.writer_idx
                &&& after.writer_idx == self.middle_idx
                &&& self.generation < usize::MAX ==> after.generation == self.generation + 1
                &&& self.generation == usize::MAX ==> after.generation == 0
                &&& after.out == self.out - 1
                &&& after.collected().slots[self.middle_idx] is None
                &&& after.collected().out == self.out
                &&& after.reader == self.reader
            }),
    {
    }

    /// What taking does: the reader gets what was in the middle, and its slot; what it
    /// gives back is then in the middle, in the slot that was the reader's; the writer's
    /// slot is left alone. All that was published has been taken, and a writer that is
    /// parked is woken.
    pub proof fn law_what_taking_does(self, previous: Option<AlignedBuffer<T>>)
        requires
            self.inv(),
            self.unread(),
            self.accepts(previous),
        ensures
            ({
                let after = self.taken(previous);
                &&& after.slots.len() == 3
                &&& after.slots[self.middle_idx] is None
                &&& previous is Some ==> after.slots[self.reader_idx] == previous
                &&& previous is None ==> after.slots[self.reader_idx]
                    == self.slots[self.reader_idx]
                &&& after.slots[self.writer_idx] == self.slots[self.writer_idx]
                &&& after.reader_idx == self.middle_idx
                &&& after.middle_idx == self.reader_idx
                &&& after.last_read_gen == self.generation
                &&& after.out == if previous is Some {
                    self.out
                } else {
                    self.out + 1
                }
                &&& after.writer.waker is None
                &&& after.writer.state == 0
                &&& after == (TripleState {
                    slots: after.slots,
                    reader_idx: after.reader_idx,
                    middle_idx: after.middle_idx,
                    last_read_gen: after.last_read_gen,
                    out: after.out,
                    writer: after.writer,
                    ..self
                })
                &&& !after.unread()
            }),
    {
    }

    /// When the ends may go on: the reader exactly where more has been published than
    /// taken, the writer where nothing is unread, its slot is empty and it gets a buffer
    /// in return. A buffer can be given back where it has the size and the alignment of
    /// the others and the reader's slot is empty.
    pub proof fn law_when_the_ends_may_go_on(self, buf: AlignedBuffer<T>)
        ensures
            self.unread() <==> self.generation != self.last_read_gen,
            self.can_publish() <==> {
                &&& self.generation == self.last_read_gen
                &&& self.slots[self.writer_idx] is None
                &&& self.slots[self.middle_idx] is Some
            },
            self.matching(buf) <==> {
                &&& buf.wf()
                &&& buf.mem().len() == self.cap
                &&& buf.align() == self.align
            },
            self.accepts(None),
            self.accepts(Some(buf)) <==> self.matching(buf) && self.slots[self.reader_idx] is None,
    {
    }

    /// A new structure has three buffers of zeros, one of them with the writer, and
    /// nothing is unread.
    pub proof fn law_a_new_structure_is_empty(self, capacity: int, align: int)
        requires
            self.is_fresh(capacity, align),
            0 < capacity <= usize::MAX,
            0 < align <= usize::MAX,
        ensures
            self.slots[self.writer_idx] is None,
            self.slots[self.reader_idx] is Some && self.slots[self.middle_idx] is Some,
            self.out == 1,
            !self.unread(),
            self.can_publish(),
            self.cap == capacity,
            self.align == align,
            self.reader.waker is None && self.writer.waker is None,
            self.reader.state == 0 && self.writer.state == 0,
            self.writer_idx == 0 && self.reader_idx == 1 && self.middle_idx == 2,
            self.generation == 0 && self.last_read_gen == 0,
            forall|k: int|
                0 <= k < 3 && (#[trigger] self.slots[k]) is Some ==> {
                    &&& self.slots[k]->0.mem().len() == capacity
                    &&& forall|i: int|
                        0 <= i < capacity ==> #[trigger] self.slots[k]->0.mem()[i]
                            == T::zero_value()
                    &&& self.slots[k]->0@.len() == 0
                    &&& self.slots[k]->0.align() == align
                },
    {
    }

    pub proof fn lemma_rotated(self, completed: AlignedBuffer<T>)
        requires
            self.inv(),
            self.can_publish(),
            self.matching(completed),
        ensures
            self.rotated(completed).inv(),
    {
    }

    pub proof fn lemma_collected(self)
        requires
            self.inv(),
            self.slots[self.writer_idx] is Some,
        ensures
            self.collected().inv(),
    {
    }

    pub proof fn lemma_moved(self, previous: Option<AlignedBuffer<T>>)
        requires
            self.inv(),
            self.unread(),
            self.accepts(previous),
        ensures
            self.moved(previous).inv(),
    {
    }
}

/// Three buffers that go round between a writer and a reader: one is written,
/// one is read, and one lies in the middle.
///
/// The ends do not hold the structure: each operation is handed it. Wakers are
/// handed back to the caller, who calls them.
pub struct TripleBuffer<T: Zeroable + Copy> {
    buffers: [Option<AlignedBuffer<T>>; 3],
    cap: usize,
    align: usize,
    writer_idx: usize,
    reader_idx: usize,
    middle_idx: usize,
    generation: usize,
    last_read_gen: usize,
    reader: AtomicWaker,
    writer: AtomicWaker,
    out: Ghost<int>,
    tag: Ghost<int>,
}

impl<T: Zeroable + Copy> View for TripleBuffer<T> {
    type V = TripleState<T>;

    closed spec fn view(&self) -> TripleState<T> {
        TripleState {
            slots: self.buffers@,
            cap: self.cap,
            align: self.align,
            writer_idx: self.writer_idx as int,
            reader_idx: self.reader_idx as int,
            middle_idx: self.middle_idx as int,
            generation: self.generation,
            last_read_gen: self.last_read_gen,
            reader: self.reader@,
            writer: self.writer@,
            out: self.out@,
            tag: self.tag@,
        }
    }
}

/// A snapshot of the indices of a triple buffer.
#[derive(Debug, Clone, Copy)]
pub struct BufferStats {
    pub writer_idx: usize,
    pub reader_idx: usize,
    pub middle_idx: usize,
    pub generation: usize,
}

impl<T: Zeroable + Copy> TripleBuffer<T> {
    pub closed spec fn wf(self) -> bool {
        self@.inv()
    }

    /// What holds of every triple buffer.
    pub proof fn lemma_wf(self)
        requires
            self.wf(),
        ensures
            self@.inv(),
    {
    }

    /// What holds of every triple buffer: the writer, the reader and the middle have a slot
    /// each, all buffers have its size and alignment, at most one is published and not
    /// taken and then it is in the middle, and there are three in all.
    pub proof fn law_a_triple_buffer_is_in_order(self)
        requires
            self.wf(),
        ensures
            self@.slots.len() == 3,
            0 <= self@.writer_idx < 3 && 0 <= self@.reader_idx < 3 && 0 <= self@.middle_idx < 3,
            self@.writer_idx + self@.reader_idx + self@.middle_idx == 3,
            self@.writer_idx != self@.reader_idx,
            forall|i: int|
                0 <= i < 3 && (#[trigger] self@.slots[i]) is Some ==> self@.slots[i]->0.wf()
                    && self@.slots[i]->0.mem().len() == self@.cap && self@.slots[i]->0.align()
                    == self@.align,
            self@.generation != self@.last_read_gen ==> self@.slots[self@.middle_idx] is Some,
            self@.generation == self@.last_read_gen || self@.generation == self@.last_read_gen + 1
                || (self@.generation == 0 && self@.last_read_gen == usize::MAX),
            self@.out + (if self@.slots[0] is Some {
                1int
            } else {
                0
            }) + (if self@.slots[1] is Some {
                1int
            } else {
                0
            }) + (if self@.slots[2] is Some {
                1int
            } else {
                0
            }) == 3,
    {
    }

    /// A triple buffer, and the buffer that the writer starts with.
    fn new(capacity: usize, align: usize, Ghost(tag): Ghost<int>) -> (r: (Self, AlignedBuffer<T>))
        requires
            AlignedBuffer::<T>::fits(capacity as int, align as int),
        ensures
            r.0.wf(),
            r.0@.tag == tag,
            r.0@.is_fresh(capacity as int, align as int),
            is_fresh_buffer(r.1, capacity as int, align as int),
            r.0@.matching(r.1),
    {
        let b0 = AlignedBuffer::with_alignment(capacity, align);
        let b1 = AlignedBuffer::with_alignment(capacity, align);
        let b2 = AlignedBuffer::with_alignment(capacity, align);
        let buffer = TripleBuffer {
            buffers: [None, Some(b1), Some(b2)],
            cap: capacity,
            align,
            writer_idx: 0,
            reader_idx: 1,
            middle_idx: 2,
            generation: 0,
            last_read_gen: 0,
            reader: AtomicWaker::new(),
            writer: AtomicWaker::new(),
            out: Ghost(1),
            tag: Ghost(tag),
        };
        (buffer, b0)
    }

    /// Whether a buffer has been published and not been taken.
    pub fn has_unread(&self) -> (r: bool)
        ensures
            r == self@.unread(),
    {
        self.generation != self.last_read_gen
    }

    /// Whether nothing is unread, so that the writer does not overwrite anything.
    pub fn middle_free(&self) -> (r: bool)
        ensures
            r == !self@.unread(),
    {
        self.generation == self.last_read_gen
    }

    /// Whether the writer can publish.
    pub fn is_publishable(&self) -> (r: bool)
        requires
            self.wf(),
        ensures
            r == self@.can_publish(),
    {
        self.middle_free() && self.buffers[self.writer_idx].is_none()
            && self.buffers[self.middle_idx].is_some()
    }

    /// Whether the size and the alignment of `buf` are those of the three
    /// buffers.
    pub fn is_matching(&self, buf: &AlignedBuffer<T>) -> (r: bool)
        requires
            buf.wf(),
        ensures
            r == self@.matching(*buf),
    {
        buf.capacity() == self.cap && buf.alignment() == self.align
    }

    /// Whether `previous` can be given back.
    pub fn is_acceptable(&self, previous: &Option<AlignedBuffer<T>>) -> (r: bool)
        requires
            self.wf(),
            previous is Some ==> previous->0.wf(),
        ensures
            r == self@.accepts(*previous),
    {
        match previous {
            Some(prev) => self.is_matching(prev) && self.buffers[self.reader_idx].is_none(),
            None => true,
        }
    }

    /// Puts `completed` in the writer's slot, makes that the middle and makes it
    /// known.
    pub fn rotate(&mut self, completed: AlignedBuffer<T>)
        requires
            old(self).wf(),
            old(self)@.can_publish(),
            old(self)@.matching(completed),
        ensures
            final(self).wf(),
            final(self)@ == old(self)@.rotated(completed),
    {
        proof {
            self@.lemma_rotated(completed);
        }
        let writer_idx: usize = self.writer_idx;
        let middle_idx: usize = self.middle_idx;
        self.buffers[writer_idx] = Some(completed);
        self.writer_idx = middle_idx;
        self.middle_idx = writer_idx;
        self.generation = self.generation.wrapping_add(1);
        self.out = Ghost(self.out@ - 1);
    }

    /// Takes out the buffer in the writer's slot, with none of its items
    /// meaningful.
    pub fn collect(&mut self) -> (r: AlignedBuffer<T>)
        requires
            old(self).wf(),
            old(self)@.slots[old(self)@.writer_idx] is Some,
        ensures
            final(self).wf(),
            final(self)@ == old(self)@.collected(),
            old(self)@.matching(r),
            r.mem() == old(self)@.slots[old(self)@.writer_idx]->0.mem(),
            r.address() == old(self)@.slots[old(self)@.writer_idx]->0.address(),
            r@ == Seq::<T>::empty(),
    {
        proof {
            self@.lemma_collected();
        }
        let ghost before = self@;
        assert(before.matching(before.slots[before.writer_idx]->0));
        let writer_idx: usize = self.writer_idx;
        match self.buffers[writer_idx].take() {
            Some(buf) => {
                self.out = Ghost(self.out@ + 1);
                let mut next = buf;
                next.set_len(0);
                assert(next@ =~= Seq::<T>::empty());
                next
            },
            None => {
                assert(false);
                vstd::pervasive::unreached()
            },
        }
    }

    /// Publishes `completed`. Returns a buffer to write next, and the waker to
    /// call.
    fn writer_publish_now(&mut self, completed: AlignedBuffer<T>) -> (r: (
        AlignedBuffer<T>,
        Option<Waker>,
    ))
        requires
            old(self).wf(),
            old(self)@.can_publish(),
            old(self)@.matching(completed),
        ensures
            final(self).wf(),
            final(self)@ == old(self)@.published(completed),
            old(self)@.matching(r.0),
            r.0.mem() == old(self)@.middle().mem(),
            r.0.address() == old(self)@.middle().address(),
            r.0@ == Seq::<T>::empty(),
            r.1 == old(self)@.reader.waker,
    {
        self.rotate(completed);
        let next = self.collect();
        let waker = self.reader.wake();
        (next, waker)
    }

    /// Puts `previous` in the reader's slot, makes that the middle, and takes out
    /// what was there. Returns it, and the waker to call.
    fn reader_take_now(&mut self, previous: Option<AlignedBuffer<T>>) -> (r: (
        AlignedBuffer<T>,
        Option<Waker>,
    ))
        requires
            old(self).wf(),
            old(self)@.unread(),
            old(self)@.accepts(previous),
        ensures
            final(self).wf(),
            final(self)@ == old(self)@.taken(previous),
            r.0 == old(self)@.middle(),
            r.1 == old(self)@.writer.waker,
    {
        proof {
            self@.lemma_moved(previous);
        }
        let generation: usize = self.generation;
        let reader_idx: usize = self.reader_idx;
        let middle_idx: usize = self.middle_idx;
        let ghost kept = previous is Some;
        if let Some(prev) = previous {
            self.buffers[reader_idx] = Some(prev);
        }
        self.reader_idx = middle_idx;
        self.middle_idx = reader_idx;
        match self.buffers[middle_idx].take() {
            Some(buf) => {
                self.last_read_gen = generation;
                self.out = Ghost(if kept {
                    self.out@
                } else {
                    self.out@ + 1
                });
                let waker = self.writer.wake();
                (buf, waker)
            },
            None => {
                assert(false);
                vstd::pervasive::unreached()
            },
        }
    }

    /// A snapshot of the indices.
    pub fn stats(&self) -> (r: BufferStats)
        ensures
            r.writer_idx == self@.writer_idx,
            r.reader_idx == self@.reader_idx,
            r.middle_idx == self@.middle_idx,
            r.generation == self@.generation,
    {
        BufferStats {
            writer_idx: self.writer_idx,
            reader_idx: self.reader_idx,
            middle_idx: self.middle_idx,
            generation: self.generation,
        }
    }
}

/// The end of a triple buffer that writes.
pub struct TripleBufWriter {
    tag: Ghost<int>,
}

/// The end of a triple buffer that reads.
pub struct TripleBufReader {
    tag: Ghost<int>,
}

/// A triple buffer whose buffers have `capacity` items each, with the alignment
/// of the items; its two ends; and the buffer that the writer starts with.
pub fn triple_buffer<T: Zeroable + Copy>(capacity: usize) -> (r: (
    TripleBuffer<T>,
    TripleBufWriter,
    TripleBufReader,
    AlignedBuffer<T>,
))
    requires
        AlignedBuffer::<T>::fits_items(capacity as int),
    ensures
        r.0.wf(),
        r.0@.is_fresh(capacity as int, layout::align_of::<T>() as int),
        r.1.tag() == r.0@.tag,
        r.2.tag() == r.0@.tag,
        is_fresh_buffer(r.3, capacity as int, layout::align_of::<T>() as int),
        r.0@.matching(r.3),
{
    proof {
        AlignedBuffer::<T>::law_own_alignment_fits(capacity as int);
    }
    triple_buffer_aligned(capacity, core::mem::align_of::<T>())
}

/// The same with alignment `align`.
pub fn triple_buffer_aligned<T: Zeroable + Copy>(capacity: usize, align: usize) -> (r: (
    TripleBuffer<T>,
    TripleBufWriter,
    TripleBufReader,
    AlignedBuffer<T>,
))
    requires
        AlignedBuffer::<T>::fits(capacity as int, align as int),
    ensures
        r.0.wf(),
        r.0@.is_fresh(capacity as int, align as int),
        r.1.tag() == r.0@.tag,
        r.2.tag() == r.0@.tag,
        is_fresh_buffer(r.3, capacity as int, align as int),
        r.0@.matching(r.3),
{
    let ghost tag: int = arbitrary();
    let (buffer, first) = TripleBuffer::new(capacity, align, Ghost(tag));
    (buffer, TripleBufWriter { tag: Ghost(tag) }, TripleBufReader { tag: Ghost(tag) }, first)
}

impl TripleBufWriter {
    /// Which triple buffer the end is of.
    pub closed spec fn tag(self) -> int {
        self.tag@
    }

    /// A future that publishes `buf` once the last buffer published has been
    /// taken, and comes to a buffer to write next.
    pub fn publish<T: Zeroable + Copy>(&mut self, tb: &TripleBuffer<T>, buf: AlignedBuffer<T>) -> (r:
        WriterPublish<T>)
        requires
            old(self).tag() == tb@.tag,
            tb@.matching(buf),
        ensures
            *final(self) == *old(self),
            r.tag() == tb@.tag,
            r.buf() == Some(buf),
    {
        WriterPublish { buf: Some(buf), tag: Ghost(self.tag@) }
    }

    /// Publishes `buf` where nothing is unread, and comes to a buffer to write
    /// next. Hands `buf` back otherwise. Returns also the waker to call.
    pub fn try_publish<T: Zeroable + Copy>(
        &mut self,
        tb: &mut TripleBuffer<T>,
        buf: AlignedBuffer<T>,
    ) -> (r: (Result<AlignedBuffer<T>, AlignedBuffer<T>>, Option<Waker>))
        requires
            old(tb).wf(),
            old(self).tag() == old(tb)@.tag,
            old(tb)@.matching(buf),
            !old(tb)@.unread() ==> old(tb)@.can_publish(),
        ensures
            final(tb).wf(),
            *final(self) == *old(self),
            match r.0 {
                Ok(next) => {
                    &&& !old(tb)@.unread()
                    &&& final(tb)@ == old(tb)@.published(buf)
                    &&& old(tb)@.matching(next)
                    &&& next.mem() == old(tb)@.middle().mem()
                    &&& next.address() == old(tb)@.middle().address()
                    &&& next@ == Seq::<T>::empty()
                    &&& r.1 == old(tb)@.reader.waker
                },
                Err(back) => {
                    &&& old(tb)@.unread()
                    &&& final(tb)@ == old(tb)@
                    &&& back == buf
                    &&& r.1 is None
                },
            },
    {
        if tb.middle_free() {
            let (next, woken) = tb.writer_publish_now(buf);
            (Ok(next), woken)
        } else {
            (Err(buf), None)
        }
    }

    /// A snapshot of the indices.
    pub fn stats<T: Zeroable + Copy>(&self, tb: &TripleBuffer<T>) -> (r: BufferStats)
        requires
            self.tag() == tb@.tag,
        ensures
            r.writer_idx == tb@.writer_idx,
            r.reader_idx == tb@.reader_idx,
            r.middle_idx == tb@.middle_idx,
            r.generation == tb@.generation,
    {
        tb.stats()
    }
}

impl TripleBufReader {
    /// Which triple buffer the end is of.
    pub closed spec fn tag(self) -> int {
        self.tag@
    }

    /// A future that comes to the next buffer published. It gives `previous`
    /// back: nothing at first, and the last buffer taken from then on.
    pub fn next<T: Zeroable + Copy>(
        &mut self,
        tb: &TripleBuffer<T>,
        previous: Option<AlignedBuffer<T>>,
    ) -> (r: ReaderNext<T>)
        requires
            old(self).tag() == tb@.tag,
            previous is Some ==> tb@.matching(previous->0),
        ensures
            *final(self) == *old(self),
            r.tag() == tb@.tag,
            r.prev() == previous,
    {
        ReaderNext { prev: previous, tag: Ghost(self.tag@) }
    }

    /// Takes the published buffer where there is one, and gives `previous` back.
    /// Hands `previous` back to the caller otherwise. Returns also the waker to
    /// call.
    pub fn try_next<T: Zeroable + Copy>(
        &mut self,
        tb: &mut TripleBuffer<T>,
        previous: Option<AlignedBuffer<T>>,
    ) -> (r: (Result<AlignedBuffer<T>, Option<AlignedBuffer<T>>>, Option<Waker>))
        requires
            old(tb).wf(),
            old(self).tag() == old(tb)@.tag,
            old(tb)@.unread() ==> old(tb)@.accepts(previous),
        ensures
            final(tb).wf(),
            *final(self) == *old(self),
            match r.0 {
                Ok(buf) => {
                    &&& old(tb)@.unread()
                    &&& final(tb)@ == old(tb)@.taken(previous)
                    &&& buf == old(tb)@.middle()
                    &&& r.1 == old(tb)@.writer.waker
                },
                Err(back) => {
                    &&& !old(tb)@.unread()
                    &&& final(tb)@ == old(tb)@
                    &&& back == previous
                    &&& r.1 is None
                },
            },
    {
        if tb.has_unread() {
            let (buf, woken) = tb.reader_take_now(previous);
            (Ok(buf), woken)
        } else {
            (Err(previous), None)
        }
    }

    /// A snapshot of the indices.
    pub fn stats<T: Zeroable + Copy>(&self, tb: &TripleBuffer<T>) -> (r: BufferStats)
        requires
            self.tag() == tb@.tag,
        ensures
            r.writer_idx == tb@.writer_idx,
            r.reader_idx == tb@.reader_idx,
            r.middle_idx == tb@.middle_idx,
            r.generation == tb@.generation,
    {
        tb.stats()
    }
}

/// A future that publishes a buffer.
pub struct WriterPublish<T: Zeroable + Copy> {
    buf: Option<AlignedBuffer<T>>,
    tag: Ghost<int>,
}

impl<T: Zeroable + Copy> WriterPublish<T> {
    /// Which triple buffer the future is of.
    pub closed spec fn tag(self) -> int {
        self.tag@
    }

    /// The buffer to publish, until it has been.
    pub closed spec fn buf(self) -> Option<AlignedBuffer<T>> {
        self.buf
    }

    /// Polls the future. It publishes the buffer where nothing is unread, and
    /// parks otherwise. Returns also the waker to call.
    pub fn poll(&mut self, tb: &mut TripleBuffer<T>, waker: &Waker) -> (r: (
        Poll<AlignedBuffer<T>>,
        Option<Waker>,
    ))
        requires
            old(tb).wf(),
            old(self).tag() == old(tb)@.tag,
            old(self).buf() is Some,
            old(tb)@.matching(old(self).buf()->0),
            !old(tb)@.unread() ==> old(tb)@.can_publish(),
        ensures
            final(tb).wf(),
            final(self).tag() == old(self).tag(),
            r.0 is Ready <==> !old(tb)@.unread(),
            r.0 is Ready ==> {
                &&& final(self).buf() is None
                &&& final(tb)@ == old(tb)@.published(old(self).buf()->0)
                &&& old(tb)@.matching(r.0->Ready_0)
                &&& r.0->Ready_0.mem() == old(tb)@.middle().mem()
                &&& r.0->Ready_0.address() == old(tb)@.middle().address()
                &&& r.0->Ready_0@ == Seq::<T>::empty()
                &&& r.1 == old(tb)@.reader.waker
            },
            r.0 is Pending ==> {
                &&& final(self).buf() == old(self).buf()
                &&& final(tb)@ == (TripleState {
                    writer: CellState { state: 0, waker: Some(*waker) },
                    ..old(tb)@
                })
                &&& r.1 is None
            },
    {
        if tb.middle_free() {
            if let Some(buf) = self.buf.take() {
                let (next, woken) = tb.writer_publish_now(buf);
                return (Poll::Ready(next), woken);
            }
        }
        let raced = tb.writer.register(waker);
        (Poll::Pending, raced)
    }
}

/// A future for the next buffer published.
pub struct ReaderNext<T: Zeroable + Copy> {
    prev: Option<AlignedBuffer<T>>,
    tag: Ghost<int>,
}

impl<T: Zeroable + Copy> ReaderNext<T> {
    /// Which triple buffer the future is of.
    pub closed spec fn tag(self) -> int {
        self.tag@
    }

    /// The buffer to give back, until it has been.
    pub closed spec fn prev(self) -> Option<AlignedBuffer<T>> {
        self.prev
    }

    /// Polls the future. It takes the published buffer where there is one, and
    /// parks otherwise. Returns also the waker to call.
    pub fn poll(&mut self, tb: &mut TripleBuffer<T>, waker: &Waker) -> (r: (
        Poll<AlignedBuffer<T>>,
        Option<Waker>,
    ))
        requires
            old(tb).wf(),
            old(self).tag() == old(tb)@.tag,
            old(tb)@.unread() ==> old(tb)@.accepts(old(self).prev()),
        ensures
            final(tb).wf(),
            final(self).tag() == old(self).tag(),
            r.0 is Ready <==> old(tb)@.unread(),
            r.0 is Ready ==> {
                &&& final(self).prev() is None
                &&& final(tb)@ == old(tb)@.taken(old(self).prev())
                &&& r.0->Ready_0 == old(tb)@.middle()
                &&& r.1 == old(tb)@.writer.waker
            },
            r.0 is Pending ==> {
                &&& final(self).prev() == old(self).prev()
                &&& final(tb)@ == (TripleState {
                    reader: CellState { state: 0, waker: Some(*waker) },
                    ..old(tb)@
                })
                &&& r.1 is None
            },
    {
        if tb.has_unread() {
            let (buf, woken) = tb.reader_take_now(self.prev.take());
            return (Poll::Ready(buf), woken);
        }
        let raced = tb.reader.register(waker);
        (Poll::Pending, raced)
    }
}

/// A buffer is published exactly where nothing is unread. It is then what is taken next,
/// the writer gets the buffer that was in the middle with no item meaningful, and a
/// parked reader is woken. Otherwise it is handed back, and nothing changes.
pub proof fn law_what_trying_to_publish_does<T: Zeroable + Copy>(
    writer: &mut TripleBufWriter,
    tb: &mut TripleBuffer<T>,
    buf: AlignedBuffer<T>,
    r: (Result<AlignedBuffer<T>, AlignedBuffer<T>>, Option<Waker>),
)
    requires
        old(tb).wf(),
        !old(tb)@.unread() ==> old(tb)@.can_publish(),
        call_ensures(TripleBufWriter::try_publish::<T>, (writer, tb, buf), r),
    ensures
        r.0 is Ok <==> old(tb)@.generation == old(tb)@.last_read_gen,
        r.0 is Ok ==> {
            let middle = old(tb)@.slots[old(tb)@.middle_idx]->0;
            &&& r.0->Ok_0.mem() == middle.mem()
            &&& r.0->Ok_0.address() == middle.address()
            &&& r.0->Ok_0@.len() == 0
            &&& final(tb)@.slots[final(tb)@.middle_idx] == Some(buf)
            &&& final(tb)@.slots[final(tb)@.writer_idx] is None
            &&& final(tb)@.middle_idx == old(tb)@.writer_idx
            &&& final(tb)@.writer_idx == old(tb)@.middle_idx
            &&& final(tb)@.generation != final(tb)@.last_read_gen
            &&& old(tb)@.generation < usize::MAX ==> final(tb)@.generation == old(tb)@.generation
                + 1
            &&& r.1 == old(tb)@.reader.waker
            &&& final(tb)@.reader.waker is None
        },
        r.0 is Err ==> r.0->Err_0 == buf && r.1 is None && final(tb)@ == old(tb)@,
        final(tb)@.reader_idx == old(tb)@.reader_idx,
        final(tb)@.slots[final(tb)@.reader_idx] == old(tb)@.slots[old(tb)@.reader_idx],
        final(tb)@.last_read_gen == old(tb)@.last_read_gen,
        final(tb)@.writer == old(tb)@.writer,
{
    old(tb).lemma_wf();
    if r.0 is Ok {
        old(tb)@.law_what_publishing_does(buf);
    }
}

/// The published buffer is taken exactly where there is one that has not been. What the
/// reader gives back is then in the middle, and a parked writer is woken. Otherwise what
/// was to be given back is handed back, and nothing changes.
pub proof fn law_what_trying_to_take_does<T: Zeroable + Copy>(
    reader: &mut TripleBufReader,
    tb: &mut TripleBuffer<T>,
    previous: Option<AlignedBuffer<T>>,
    r: (Result<AlignedBuffer<T>, Option<AlignedBuffer<T>>>, Option<Waker>),
)
    requires
        old(tb).wf(),
        old(tb)@.unread() ==> old(tb)@.accepts(previous),
        call_ensures(TripleBufReader::try_next::<T>, (reader, tb, previous), r),
    ensures
        r.0 is Ok <==> old(tb)@.generation != old(tb)@.last_read_gen,
        r.0 is Ok ==> {
            &&& Some(r.0->Ok_0) == old(tb)@.slots[old(tb)@.middle_idx]
            &&& final(tb)@.slots[final(tb)@.reader_idx] is None
            &&& previous is Some ==> final(tb)@.slots[final(tb)@.middle_idx] == previous
            &&& previous is None ==> final(tb)@.slots[final(tb)@.middle_idx]
                == old(tb)@.slots[old(tb)@.reader_idx]
            &&& final(tb)@.middle_idx == old(tb)@.reader_idx
            &&& final(tb)@.reader_idx == old(tb)@.middle_idx
            &&& final(tb)@.last_read_gen == final(tb)@.generation
            &&& r.1 == old(tb)@.writer.waker
            &&& final(tb)@.writer.waker is None
        },
        r.0 is Err ==> r.0->Err_0 == previous && r.1 is None && final(tb)@ == old(tb)@,
        final(tb)@.writer_idx == old(tb)@.writer_idx,
        final(tb)@.slots[final(tb)@.writer_idx] == old(tb)@.slots[old(tb)@.writer_idx],
        final(tb)@.generation == old(tb)@.generation,
        final(tb)@.reader == old(tb)@.reader,
{
    old(tb).lemma_wf();
    if r.0 is Ok {
        old(tb)@.law_what_taking_does(previous);
    }
}

/// What is published is what is taken next, with its items, and then there is nothing to
/// take until more is published.
pub proof fn law_what_is_published_is_taken<T: Zeroable + Copy>(
    writer: &mut TripleBufWriter,
    tb: &mut TripleBuffer<T>,
    buf: AlignedBuffer<T>,
    r: (Result<AlignedBuffer<T>, AlignedBuffer<T>>, Option<Waker>),
    reader: &mut TripleBufReader,
    full: &mut TripleBuffer<T>,
    previous: Option<AlignedBuffer<T>>,
    s: (Result<AlignedBuffer<T>, Option<AlignedBuffer<T>>>, Option<Waker>),
    other: &mut TripleBufReader,
    done: &mut TripleBuffer<T>,
    none: Option<AlignedBuffer<T>>,
    t: (Result<AlignedBuffer<T>, Option<AlignedBuffer<T>>>, Option<Waker>),
)
    requires
        old(tb).wf(),
        old(tb)@.can_publish(),
        call_ensures(TripleBufWriter::try_publish::<T>, (writer, tb, buf), r),
        *old(full) == *final(tb),
        old(full)@.accepts(previous),
        call_ensures(TripleBufReader::try_next::<T>, (reader, full, previous), s),
        *old(done) == *final(full),
        call_ensures(TripleBufReader::try_next::<T>, (other, done, none), t),
    ensures
        r.0 is Ok,
        s.0 is Ok && s.0->Ok_0 == buf,
        t.0 is Err,
{
    old(tb).lemma_wf();
    old(tb)@.law_what_publishing_does(buf);
    old(full).lemma_wf();
    old(full)@.law_what_taking_does(previous);
}

/// A future that publishes is ready exactly where nothing is unread, and does then what
/// trying does. Otherwise the writer parks with its waker, keeps its buffer, and nothing
/// else changes.
pub proof fn law_what_polling_to_publish_does<T: Zeroable + Copy>(
    future: &mut WriterPublish<T>,
    tb: &mut TripleBuffer<T>,
    waker: &Waker,
    r: (Poll<AlignedBuffer<T>>, Option<Waker>),
)
    requires
        old(tb).wf(),
        old(future).buf() is Some,
        !old(tb)@.unread() ==> old(tb)@.can_publish(),
        call_ensures(WriterPublish::<T>::poll, (future, tb, waker), r),
    ensures
        r.0 is Ready <==> old(tb)@.generation == old(tb)@.last_read_gen,
        r.0 is Ready ==> {
            let middle = old(tb)@.slots[old(tb)@.middle_idx]->0;
            &&& r.0->Ready_0.mem() == middle.mem()
            &&& r.0->Ready_0.address() == middle.address()
            &&& r.0->Ready_0@.len() == 0
            &&& final(future).buf() is None
            &&& final(tb)@.slots[final(tb)@.middle_idx] == old(future).buf()
            &&& final(tb)@.slots[final(tb)@.writer_idx] is None
            &&& final(tb)@.middle_idx == old(tb)@.writer_idx
            &&& final(tb)@.writer_idx == old(tb)@.middle_idx
            &&& final(tb)@.generation != final(tb)@.last_read_gen
            &&& r.1 == old(tb)@.reader.waker
            &&& final(tb)@.reader.waker is None
        },
        r.0 is Pending ==> {
            &&& r.1 is None
            &&& final(future).buf() == old(future).buf()
            &&& final(tb)@.writer.waker == Some(*waker)
            &&& final(tb)@.slots == old(tb)@.slots
            &&& final(tb)@.middle_idx == old(tb)@.middle_idx
            &&& final(tb)@.writer_idx == old(tb)@.writer_idx
            &&& final(tb)@.generation == old(tb)@.generation
            &&& final(tb)@.reader == old(tb)@.reader
        },
        final(tb)@.reader_idx == old(tb)@.reader_idx,
        final(tb)@.last_read_gen == old(tb)@.last_read_gen,
{
    old(tb).lemma_wf();
    if r.0 is Ready {
        old(tb)@.law_what_publishing_does(old(future).buf()->0);
    }
}

/// A future that takes is ready exactly where there is a buffer that has not been taken,
/// and does then what trying does. Otherwise the reader parks with its waker, keeps what
/// it has to give back, and nothing else changes.
pub proof fn law_what_polling_to_take_does<T: Zeroable + Copy>(
    future: &mut ReaderNext<T>,
    tb: &mut TripleBuffer<T>,
    waker: &Waker,
    r: (Poll<AlignedBuffer<T>>, Option<Waker>),
)
    requires
        old(tb).wf(),
        old(tb)@.unread() ==> old(tb)@.accepts(old(future).prev()),
        call_ensures(ReaderNext::<T>::poll, (future, tb, waker), r),
    ensures
        r.0 is Ready <==> old(tb)@.generation != old(tb)@.last_read_gen,
        r.0 is Ready ==> {
            &&& Some(r.0->Ready_0) == old(tb)@.slots[old(tb)@.middle_idx]
            &&& final(future).prev() is None
            &&& final(tb)@.slots[final(tb)@.reader_idx] is None
            &&& old(future).prev() is Some ==> final(tb)@.slots[final(tb)@.middle_idx]
                == old(future).prev()
            &&& old(future).prev() is None ==> final(tb)@.slots[final(tb)@.middle_idx]
                == old(tb)@.slots[old(tb)@.reader_idx]
            &&& final(tb)@.middle_idx == old(tb)@.reader_idx
            &&& final(tb)@.reader_idx == old(tb)@.middle_idx
            &&& final(tb)@.last_read_gen == final(tb)@.generation
            &&& r.1 == old(tb)@.writer.waker
            &&& final(tb)@.writer.waker is None
        },
        r.0 is Pending ==> {
            &&& r.1 is None
            &&& final(future).prev() == old(future).prev()
            &&& final(tb)@.reader.waker == Some(*waker)
            &&& final(tb)@.slots == old(tb)@.slots
            &&& final(tb)@.middle_idx == old(tb)@.middle_idx
            &&& final(tb)@.reader_idx == old(tb)@.reader_idx
            &&& final(tb)@.last_read_gen == old(tb)@.last_read_gen
            &&& final(tb)@.writer == old(tb)@.writer
        },
        final(tb)@.writer_idx == old(tb)@.writer_idx,
        final(tb)@.generation == old(tb)@.generation,
{
    old(tb).lemma_wf();
    if r.0 is Ready {
        old(tb)@.law_what_taking_does(old(future).prev());
    }
}

/// What a triple buffer says of itself: whether there is a buffer to take, and whether
/// there is room to publish one.
pub proof fn law_what_a_triple_buffer_says_of_itself<T: Zeroable + Copy>(
    tb: TripleBuffer<T>,
    unread: bool,
    free: bool,
    publishable: bool,
)
    requires
        call_ensures(TripleBuffer::<T>::has_unread, (&tb,), unread),
        call_ensures(TripleBuffer::<T>::middle_free, (&tb,), free),
        call_ensures(TripleBuffer::<T>::is_publishable, (&tb,), publishable),
    ensures
        unread <==> tb@.generation != tb@.last_read_gen,
        free == !unread,
        publishable <==> free && tb@.slots[tb@.writer_idx] is None
            && tb@.slots[tb@.middle_idx] is Some,
{
}

} // verus!
