use vstd::layout;
use vstd::prelude::*;

use std::task::Waker;

use crate::poll::Poll;
use crate::site_d::buffer::AlignedBuffer;
use crate::site_d::notify::{SlotState, WaiterSlot};

verus! {

/// Where a write of `n` bytes can start in a buffer of `cap` bytes with the two
/// indices `read` and `write`, so that the bytes lie side by side. Behind
/// `read`, one byte always stays free: the indices meet only where the buffer is
/// empty.
pub open spec fn write_place(cap: int, read: int, write: int, n: int) -> Option<int> {
    if n > cap {
        None
    } else if write < read {
        if n < read - write {
            Some(write)
        } else {
            None
        }
    } else if n <= cap - write {
        Some(write)
    } else if n < read {
        Some(0)
    } else {
        None
    }
}

/// The bytes that can be read side by side, as a start and a length, where the
/// indices are `read` and `write` and the data above `write` ends at `last`. A
/// reader that has come to `last` goes on at the front.
pub open spec fn read_place(read: int, write: int, last: int) -> (int, int) {
    if write < read {
        if read == last {
            (0, write)
        } else {
            (read, last - read)
        }
    } else {
        (read, write - read)
    }
}

/// Where a write starts: at the write index wherever the bytes fit there, and at the
/// front only where the tail behind the write index is too short and there are more
/// bytes free before the read index than are asked for. Where the writer is behind
/// the reader, there is only what lies between them, less one byte.
pub proof fn law_where_a_write_starts(cap: int, read: int, write: int, n: int)
    requires
        0 <= read <= cap,
        0 <= write <= cap,
        0 <= n,
    ensures
        read <= write && write + n <= cap ==> write_place(cap, read, write, n) == Some(write),
        read <= write && write + n > cap && n < read ==> write_place(cap, read, write, n) == Some(
            0int,
        ),
        read <= write && write + n > cap && n >= read ==> write_place(cap, read, write, n) is None,
        write < read && write + n < read ==> write_place(cap, read, write, n) == Some(write),
        write < read && write + n >= read ==> write_place(cap, read, write, n) is None,
{
}

/// Where a read starts: at the read index, and it goes on to the write index, or to
/// the end of the data above where the writer has gone on at the front. A reader that
/// has come to that end goes on at the front.
pub proof fn law_where_a_read_starts(read: int, write: int, last: int)
    ensures
        read <= write ==> read_place(read, write, last) == (read, write - read),
        write < read && read < last ==> read_place(read, write, last) == (read, last - read),
        write < read && read == last ==> read_place(read, write, last) == (0int, write),
{
}

/// The state of a bip buffer, as contracts see it.
pub struct BipState {
    pub mem: Seq<u8>,
    /// The alignment in bytes that the buffer was made with.
    pub align: int,
    /// The address of the first byte.
    pub address: int,
    pub write: int,
    pub read: int,
    /// Where the data above `write` ends, while `write` is below `read`.
    pub last: int,
    /// The region that is out to be written, as a start and a length.
    pub write_grant: Option<(int, int)>,
    /// The region that is out to be read, as a start and a length.
    pub read_grant: Option<(int, int)>,
    /// The consumer, where it is parked.
    pub data: SlotState,
    /// The producer, where it is parked.
    pub space: SlotState,
    /// All bytes ever committed.
    pub sent: Seq<u8>,
    /// All bytes ever released.
    pub received: Seq<u8>,
    /// Which buffer this is. Its ends and grants carry the same tag.
    pub tag: int,
}

impl BipState {
    /// A buffer of `cap` bytes with alignment `align`, from `address` on, that has
    /// not been used.
    pub open spec fn fresh(cap: int, align: int, address: int, tag: int) -> Self {
        BipState {
            mem: Seq::new(cap as nat, |i: int| 0u8),
            align,
            address,
            write: 0,
            read: 0,
            last: cap,
            write_grant: None,
            read_grant: None,
            data: SlotState::idle(),
            space: SlotState::idle(),
            sent: Seq::empty(),
            received: Seq::empty(),
            tag,
        }
    }

    pub open spec fn cap(self) -> int {
        self.mem.len() as int
    }

    /// Whether the writer has gone on at the front and the reader has not yet.
    pub open spec fn inverted(self) -> bool {
        self.write < self.read
    }

    /// The bytes that have been committed and not been released.
    pub open spec fn readable(self) -> Seq<u8> {
        if self.inverted() {
            self.mem.subrange(self.read, self.last) + self.mem.subrange(0, self.write)
        } else {
            self.mem.subrange(self.read, self.write)
        }
    }

    /// Whether the `len` bytes from `start` on can be out to be written: they
    /// follow the data, at its end or at the front, and none of them is data.
    pub open spec fn writable(self, start: int, len: int) -> bool {
        &&& 0 <= len
        &&& {
            ||| start == self.write && start + len <= self.cap() && (self.inverted() ==> start + len
                < self.read)
            ||| start == 0 && self.write != 0 && !self.inverted() && len < self.read
        }
    }

    /// The bytes lie at a multiple of the alignment, the indices are within them,
    /// what is out is where it may be, and what was committed is what was released
    /// and what can be read.
    pub open spec fn inv(self) -> bool {
        &&& self.address % self.align == 0
        &&& 0 <= self.read <= self.cap()
        &&& 0 <= self.write <= self.cap()
        &&& self.inverted() ==> self.read <= self.last <= self.cap()
        &&& match self.write_grant {
            Some((start, len)) => self.writable(start, len),
            None => true,
        }
        &&& match self.read_grant {
            Some((start, len)) => {
                &&& start == self.read
                &&& 0 < len
                &&& start + len <= if self.inverted() {
                    self.last
                } else {
                    self.write
                }
            },
            None => true,
        }
        &&& self.sent == self.received + self.readable()
        &&& self.data.quiet()
        &&& self.space.quiet()
    }

    /// Where a write of `n` bytes is let start, if it is.
    pub open spec fn reserves(self, n: int) -> Option<int> {
        if self.write_grant is Some {
            None
        } else {
            write_place(self.cap(), self.read, self.write, n)
        }
    }

    /// The state after a write has been asked for.
    pub open spec fn reserved(self, n: int) -> Self {
        match self.reserves(n) {
            Some(start) => BipState { write_grant: Some((start, n)), ..self },
            None => self,
        }
    }

    /// The state after the first `used` of the bytes that were out to be written
    /// from `start` on have been made readable, before anyone is woken.
    pub open spec fn committed(self, start: int, used: int) -> Self {
        BipState {
            last: if start == 0 && self.write != 0 {
                self.write
            } else {
                self.last
            },
            write: start + used,
            write_grant: None,
            sent: self.sent + self.mem.subrange(start, start + used),
            ..self
        }
    }

    /// The state after the reader has gone on at the front, where it had come to
    /// the end of the data above.
    pub open spec fn wrapped(self) -> Self {
        if self.inverted() && self.read == self.last {
            BipState { read: 0, space: self.space.signalled(), ..self }
        } else {
            self
        }
    }

    /// The waker that the reader's going on at the front calls, if any.
    pub open spec fn wrap_waker(self) -> Option<Waker> {
        if self.inverted() && self.read == self.last {
            self.space.signals()
        } else {
            None
        }
    }

    /// What can be read side by side.
    pub open spec fn reads(self) -> (int, int) {
        read_place(self.read, self.write, self.last)
    }

    /// Whether a read is let go ahead: none is out and there is something to
    /// read.
    pub open spec fn may_read(self) -> bool {
        self.read_grant is None && self.readable().len() > 0
    }

    /// The state after a read has been asked for.
    pub open spec fn read_asked(self) -> Self {
        if self.read_grant is Some {
            self
        } else if self.readable().len() > 0 {
            BipState { read_grant: Some(self.reads()), ..self.wrapped() }
        } else {
            self.wrapped()
        }
    }

    /// The state after the first `used` of the bytes that were out to be read
    /// have been given up, before anyone is woken.
    pub open spec fn released(self, used: int) -> Self {
        BipState {
            read: self.read + used,
            read_grant: None,
            received: self.received + self.mem.subrange(self.read, self.read + used),
            ..self
        }
    }

    /// Going on at the front changes nothing about what can be read.
    pub proof fn lemma_wrapped(self)
        requires
            self.inv(),
            self.read_grant is None,
        ensures
            self.wrapped().inv(),
            self.wrapped().readable() == self.readable(),
            self.wrapped().readable().len() > 0 ==> self.reads() == read_place(
                self.wrapped().read,
                self.wrapped().write,
                self.wrapped().last,
            ),
            self.reads().1 > 0 <==> self.readable().len() > 0,
            self.reads().1 > 0 ==> {
                &&& self.reads().0 == self.wrapped().read
                &&& self.reads().0 + self.reads().1 <= self.cap()
                &&& self.mem.subrange(self.reads().0, self.reads().0 + self.reads().1)
                    == self.readable().take(self.reads().1)
            },
    {
        let w = self.wrapped();
        assert(w.readable() =~= self.readable());
        assert(w.readable().len() == if w.inverted() {
            w.last - w.read + w.write
        } else {
            w.write - w.read
        });
        let (start, len) = self.reads();
        if len > 0 {
            assert(self.mem.subrange(start, start + len) =~= self.readable().take(len));
        }
    }

    /// A write that is let start gets a region that can be out.
    pub proof fn lemma_reserved(self, n: int)
        requires
            self.inv(),
            n >= 0,
        ensures
            self.reserved(n).inv(),
            self.reserved(n).readable() == self.readable(),
            self.reserves(n) is Some ==> self.writable(self.reserves(n)->0, n) && self.reserves(
                n,
            )->0 + n <= self.cap(),
    {
    }

    /// What is committed is appended to what can be read.
    pub proof fn lemma_committed(self, start: int, len: int, used: int)
        requires
            self.inv(),
            self.write_grant == Some((start, len)),
            0 <= used <= len,
        ensures
            start + len <= self.cap(),
            self.committed(start, used).readable() == self.readable() + self.mem.subrange(
                start,
                start + used,
            ),
            self.committed(start, used).inv(),
    {
        let after = self.committed(start, used);
        let region = self.mem.subrange(start, start + used);
        assert(after.readable() =~= self.readable() + region);
        assert(after.sent =~= after.received + after.readable());
    }

    /// What is released is taken off the front of what can be read.
    pub proof fn lemma_released(self, start: int, len: int, used: int)
        requires
            self.inv(),
            self.read_grant == Some((start, len)),
            0 <= used <= len,
        ensures
            self.released(used).readable() == self.readable().skip(used),
            self.mem.subrange(start, start + used) == self.readable().take(used),
            self.released(used).inv(),
    {
        let after = self.released(used);
        assert(after.readable() =~= self.readable().skip(used));
        assert(self.mem.subrange(start, start + used) =~= self.readable().take(used));
        assert(self.received + self.readable() =~= after.received + after.readable());
    }

    /// Writing to the region that is out to be written leaves what can be read as
    /// it is, and so the region that is out to be read.
    pub proof fn law_writing_leaves_the_data(self, mem: Seq<u8>, start: int, len: int)
        requires
            self.inv(),
            self.write_grant == Some((start, len)),
            mem.len() == self.mem.len(),
            forall|i: int|
                0 <= i < mem.len() && !(start <= i < start + len) ==> mem[i] == self.mem[i],
        ensures
            (BipState { mem, ..self }).readable() == self.readable(),
            (BipState { mem, ..self }).inv(),
    {
        assert((BipState { mem, ..self }).readable() =~= self.readable());
    }

    /// Bytes come out in the order in which they went in, none twice and none
    /// left out: all that were ever committed are those that were released,
    /// followed by those that can be read.
    pub proof fn law_bytes_come_out_in_order(self)
        requires
            self.inv(),
        ensures
            self.received == self.sent.take(self.received.len() as int),
            self.readable() == self.sent.skip(self.received.len() as int),
    {
        assert(self.received =~= self.sent.take(self.received.len() as int));
        assert(self.readable() =~= self.sent.skip(self.received.len() as int));
    }

    /// No byte is out both to be written and to be read, or to be written while
    /// it is data.
    pub proof fn law_grants_are_disjoint(self, w: (int, int), r: (int, int))
        requires
            self.inv(),
            self.write_grant == Some(w),
        ensures
            self.read_grant == Some(r) ==> w.0 + w.1 <= r.0 || r.0 + r.1 <= w.0,
            0 <= w.0 && w.0 + w.1 <= self.cap(),
            self.inverted() ==> w.0 >= self.write && w.0 + w.1 <= self.read,
            !self.inverted() ==> w.0 >= self.write || w.0 + w.1 <= self.read,
    {
    }

    /// A parked consumer is woken by the next commit, and a parked producer by the
    /// next release.
    pub proof fn law_a_parked_end_is_woken(self, waker: Waker, start: int, used: int)
        ensures
            (BipState { data: self.data.armed_with(waker), ..self }).committed(
                start,
                used,
            ).data.signals() == Some(waker),
            (BipState { space: self.space.armed_with(waker), ..self }).released(
                used,
            ).space.signals() == Some(waker),
    {
    }

    /// A write is let start wherever the bytes fit side by side: it is refused only
    /// while another is out, or where no place can be had for them.
    pub proof fn law_a_write_is_refused_only_for_want_of_room(self, n: int)
        requires
            self.inv(),
            n >= 0,
            self.write_grant is None,
        ensures
            self.reserves(n) is None ==> forall|start: int| !#[trigger] self.writable(start, n),
            self.reserves(n) is Some ==> self.writable(self.reserves(n)->0, n),
            self.write <= self.cap() - n && self.read <= self.write ==> self.reserves(n) == Some(
                self.write,
            ),
            self.write < self.read && n < self.read - self.write ==> self.reserves(n) == Some(
                self.write,
            ),
    {
    }

    /// What it is for a region to be free: it follows the data at its end or begins at
    /// the front, it lies within the buffer, and the next byte to read, where there is
    /// data behind it, is not reached.
    pub proof fn law_what_is_free(self, start: int, len: int)
        requires
            self.inv(),
        ensures
            self.writable(start, len) ==> {
                &&& 0 <= len
                &&& 0 <= start && start + len <= self.cap()
                &&& start == self.write || start == 0
                &&& start != self.write ==> start + len < self.read && self.read <= self.write
                &&& self.write < self.read ==> start == self.write && start + len < self.read
            },
            0 <= len && self.read <= self.write && self.write + len <= self.cap()
                ==> self.writable(self.write, len),
            0 <= len && self.write < self.read && self.write + len < self.read ==> self.writable(
                self.write,
                len,
            ),
            0 <= len && self.read <= self.write && len < self.read ==> self.writable(0, len),
            self.inverted() <==> self.write < self.read,
    {
    }

    /// What can be read are the bytes from the read index to the write index, or, where
    /// the writer has gone on at the front, those up to the end of the data above and
    /// then those at the front.
    pub proof fn law_what_can_be_read(self, i: int)
        requires
            self.inv(),
        ensures
            self.read <= self.write ==> {
                &&& self.readable().len() == self.write - self.read
                &&& 0 <= i < self.write - self.read ==> self.readable()[i] == self.mem[self.read
                    + i]
            },
            self.write < self.read ==> {
                &&& self.readable().len() == self.last - self.read + self.write
                &&& 0 <= i < self.last - self.read ==> self.readable()[i] == self.mem[self.read + i]
                &&& self.last - self.read <= i < self.last - self.read + self.write
                    ==> self.readable()[i] == self.mem[i - (self.last - self.read)]
            },
            self.cap() == self.mem.len(),
            self.sent == self.received + self.readable(),
            self.address % self.align == 0,
    {
    }

    /// A write that is let start has its region to itself until it is over. One that is
    /// refused changes nothing.
    pub proof fn law_what_a_reservation_does(self, n: int)
        ensures
            self.write_grant is Some ==> self.reserves(n) is None,
            self.write_grant is None ==> self.reserves(n) == write_place(
                self.mem.len() as int,
                self.read,
                self.write,
                n,
            ),
            self.reserves(n) is None ==> self.reserved(n) == self,
            self.reserves(n) is Some ==> {
                &&& self.reserved(n).write_grant == Some((self.reserves(n)->0, n))
                &&& self.reserved(n) == (BipState {
                    write_grant: self.reserved(n).write_grant,
                    ..self
                })
            },
    {
    }

    /// A commit makes the bytes that were written readable, behind all that could be
    /// read before, and no others. The write index stands behind them. Where they are
    /// at the front and the data above goes on to where the writer was, it ends there.
    pub proof fn law_what_a_commit_does(self, start: int, len: int, used: int)
        requires
            self.inv(),
            self.write_grant == Some((start, len)),
            0 <= used <= len,
        ensures
            ({
                let after = self.committed(start, used);
                &&& after.readable() == self.readable() + self.mem.subrange(start, start + used)
                &&& after.sent == self.sent + self.mem.subrange(start, start + used)
                &&& after.received == self.received
                &&& after.write == start + used
                &&& after.write_grant is None
                &&& start == self.write ==> after.last == self.last
                &&& start != self.write ==> after.last == self.write
                &&& after == (BipState {
                    write: after.write,
                    last: after.last,
                    write_grant: after.write_grant,
                    sent: after.sent,
                    ..self
                })
                &&& after.inv()
            }),
    {
        self.lemma_committed(start, len, used);
    }

    /// A release gives up the bytes that were read, from the front of all that can be
    /// read, and no others.
    pub proof fn law_what_a_release_does(self, start: int, len: int, used: int)
        requires
            self.inv(),
            self.read_grant == Some((start, len)),
            0 <= used <= len,
        ensures
            ({
                let after = self.released(used);
                &&& self.readable() == self.mem.subrange(start, start + used) + after.readable()
                &&& after.received == self.received + self.mem.subrange(start, start + used)
                &&& after.sent == self.sent
                &&& after.read == self.read + used
                &&& after.read_grant is None
                &&& after == (BipState {
                    read: after.read,
                    read_grant: after.read_grant,
                    received: after.received,
                    ..self
                })
                &&& after.inv()
            }),
    {
        self.lemma_released(start, len, used);
        assert(self.readable() =~= self.readable().take(used) + self.readable().skip(used));
    }

    /// A read is let go ahead exactly where none is out and there is something to read.
    /// It gets the oldest bytes, as many as lie side by side. A reader that has come to
    /// the end of the data above goes on at the front, and tells the producer.
    pub proof fn law_what_a_read_gets(self)
        requires
            self.inv(),
        ensures
            self.may_read() <==> self.read_grant is None && self.readable().len() > 0,
            self.read_grant is Some ==> self.read_asked() == self,
            self.read_grant is None ==> {
                let front = self.write < self.read && self.read == self.last;
                let after = self.read_asked();
                &&& self.may_read() ==> {
                    &&& self.reads() == read_place(self.read, self.write, self.last)
                    &&& self.reads().1 > 0
                    &&& self.mem.subrange(self.reads().0, self.reads().0 + self.reads().1)
                        == self.readable().take(self.reads().1)
                    &&& after.read_grant == Some(self.reads())
                }
                &&& !self.may_read() ==> after.read_grant is None
                &&& after.readable() == self.readable()
                &&& front ==> {
                    &&& after.read == 0
                    &&& self.wrap_waker() == if self.space.armed {
                        self.space.cell.waker
                    } else {
                        None
                    }
                    &&& self.space.armed ==> !after.space.armed
                    &&& !self.space.armed ==> after.space == self.space
                }
                &&& !front ==> {
                    &&& after.read == self.read
                    &&& self.wrap_waker() is None
                    &&& after.space == self.space
                }
                &&& after == (BipState {
                    read: after.read,
                    read_grant: after.read_grant,
                    space: after.space,
                    ..self
                })
            },
    {
        if self.read_grant is None {
            self.lemma_wrapped();
            assert(self.read_asked().readable() == self.wrapped().readable());
        }
    }

    /// What is written to a region is there, and all other bytes stay.
    pub proof fn law_what_writing_does(self, start: int, bytes: Seq<u8>, i: int)
        requires
            0 <= start,
            start + bytes.len() <= self.mem.len(),
            0 <= i < self.mem.len(),
        ensures
            self.overwritten(start, bytes).mem.len() == self.mem.len(),
            start <= i < start + bytes.len() ==> self.overwritten(start, bytes).mem[i] == bytes[i
                - start],
            !(start <= i < start + bytes.len()) ==> self.overwritten(start, bytes).mem[i]
                == self.mem[i],
            self.overwritten(start, bytes) == (BipState {
                mem: self.overwritten(start, bytes).mem,
                ..self
            }),
            self.piece((start, bytes.len() as int)).len() == bytes.len(),
            start <= i < start + bytes.len() ==> self.piece((start, bytes.len() as int))[i - start]
                == self.mem[i],
    {
    }

    /// A new buffer holds zeros only, and has room for as many bytes as it was made for.
    pub proof fn law_a_new_buffer_is_empty(cap: int, align: int, address: int, tag: int, n: int)
        requires
            0 <= n <= cap,
        ensures
            ({
                let new = BipState::fresh(cap, align, address, tag);
                &&& new.mem.len() == cap
                &&& forall|i: int| 0 <= i < cap ==> #[trigger] new.mem[i] == 0
                &&& new.readable().len() == 0
                &&& new.reserves(n) == Some(0int)
                &&& !new.may_read()
                &&& new.read == 0
                &&& new.write == 0
                &&& new.write_grant is None
                &&& new.read_grant is None
                &&& !new.data.armed
                &&& !new.space.armed
                &&& new.sent.len() == 0
                &&& new.received.len() == 0
                &&& new.align == align
                &&& new.address == address
                &&& new.tag == tag
            }),
    {
    }

    /// The state after the bytes from `start` on have been replaced by `bytes`.
    pub open spec fn overwritten(self, start: int, bytes: Seq<u8>) -> Self {
        BipState {
            mem: self.mem.take(start) + bytes + self.mem.skip(start + bytes.len()),
            ..self
        }
    }

    /// The bytes of the region `place`, which is a start and a length.
    pub open spec fn piece(self, place: (int, int)) -> Seq<u8> {
        self.mem.subrange(place.0, place.0 + place.1)
    }

    /// Whether the read index can have been `seen` since the write index is what
    /// it is: the reader has come closer to the end of the data since, or has
    /// gone on at the front.
    pub open spec fn was_read_index(self, seen: int) -> bool {
        &&& 0 <= seen <= self.cap()
        &&& seen <= self.read && (self.write < seen <==> self.inverted()) || (self.write < seen
            && !self.inverted())
    }

    /// Whether the write index can have been `seen` since the read index is what
    /// it is: the writer has written since, or has gone on at the front.
    pub open spec fn was_write_index(self, seen: int) -> bool {
        &&& 0 <= seen <= self.cap()
        &&& seen <= self.write && (seen < self.read <==> self.inverted()) || (self.inverted()
            && self.read <= seen <= self.last)
    }

    /// An index that an end has seen may be out of date by what the other end has done since:
    /// nothing, a release, going on at the front, or a commit.
    pub proof fn law_how_an_index_goes_out_of_date(self, start: int, len: int, used: int)
        requires
            self.inv(),
            0 <= used <= len,
        ensures
            self.was_read_index(self.read),
            self.was_write_index(self.write),
            self.read_grant == Some((start, len)) ==> self.released(used).was_read_index(self.read),
            self.wrapped().was_read_index(self.read),
            self.write_grant == Some((start, len)) ==> self.committed(start, used).was_write_index(
                self.write,
            ),
    {
    }

    /// A producer may decide by a value `seen` of the read index that is out of
    /// date: the consumer may have gone on since, and have gone on at the front.
    /// The region it comes to is free all the same.
    pub proof fn law_an_old_read_index_is_safe(self, seen: int, n: int)
        requires
            self.inv(),
            n >= 0,
            self.write_grant is None,
            self.was_read_index(seen),
        ensures
            match write_place(self.cap(), seen, self.write, n) {
                Some(start) => self.writable(start, n),
                None => true,
            },
    {
    }

    /// A consumer may decide by a value `seen` of the write index that is out of
    /// date: the producer may have written since, and have gone on at the front.
    /// What it comes to read is data all the same, the oldest there is.
    pub proof fn law_an_old_write_index_is_safe(self, seen: int)
        requires
            self.inv(),
            self.read_grant is None,
            self.was_write_index(seen),
        ensures
            0 <= read_place(self.read, seen, self.last).1 <= self.readable().len(),
            read_place(self.read, seen, self.last).1 > 0 ==> self.piece(
                read_place(self.read, seen, self.last),
            ) == self.readable().take(read_place(self.read, seen, self.last).1),
    {
        let (start, len) = read_place(self.read, seen, self.last);
        if len > 0 {
            assert(self.mem.subrange(start, start + len) =~= self.readable().take(len));
        }
    }
}

/// Where a write of `n` bytes can start.
pub fn plan_reserve(cap: usize, read: usize, write: usize, n: usize) -> (r: Option<usize>)
    requires
        read <= cap,
        write <= cap,
    ensures
        match r {
            Some(start) => write_place(cap as int, read as int, write as int, n as int) == Some(
                start as int,
            ),
            None => write_place(cap as int, read as int, write as int, n as int) is None,
        },
{
    if n > cap {
        return None;
    }
    if write < read {
        if n < read - write {
            Some(write)
        } else {
            None
        }
    } else if n <= cap - write {
        Some(write)
    } else if n < read {
        Some(0)
    } else {
        None
    }
}

/// A ring of bytes that hands out regions in which the bytes lie side by side.
///
/// Its ends and grants do not hold the buffer: each operation is handed it.
/// Wakers are handed back to the caller, who calls them.
pub struct BipBuffer {
    buf: AlignedBuffer<u8>,
    cap: usize,
    write: usize,
    read: usize,
    last: usize,
    reserve: usize,
    wip: bool,
    rip: bool,
    data: WaiterSlot,
    space: WaiterSlot,
    write_grant: Ghost<Option<(int, int)>>,
    read_grant: Ghost<Option<(int, int)>>,
    sent: Ghost<Seq<u8>>,
    received: Ghost<Seq<u8>>,
    tag: Ghost<int>,
}

impl View for BipBuffer {
    type V = BipState;

    closed spec fn view(&self) -> BipState {
        BipState {
            mem: self.buf@,
            align: self.buf.align() as int,
            address: self.buf.address() as int,
            write: self.write as int,
            read: self.read as int,
            last: self.last as int,
            write_grant: self.write_grant@,
            read_grant: self.read_grant@,
            data: self.data@,
            space: self.space@,
            sent: self.sent@,
            received: self.received@,
            tag: self.tag@,
        }
    }
}

impl BipBuffer {
    pub closed spec fn wf(self) -> bool {
        &&& self.buf.wf()
        &&& self.cap == self.buf@.len()
        &&& self@.inv()
        &&& self.wip == (self.write_grant@ is Some)
        &&& self.rip == (self.read_grant@ is Some)
        &&& match self.write_grant@ {
            Some((start, len)) => self.reserve == start + len,
            None => true,
        }
    }

    /// What holds of every buffer.
    pub proof fn lemma_wf(self)
        requires
            self.wf(),
        ensures
            self@.inv(),
    {
    }

    /// What holds of every buffer: its bytes lie at a multiple of its alignment, its
    /// indices and regions are within it, a region that is out to be read holds the
    /// oldest bytes, and what was committed is what was released and what can be read.
    pub proof fn law_a_buffer_is_in_order(self, start: int, len: int)
        requires
            self.wf(),
        ensures
            self@.address % self@.align == 0,
            0 <= self@.read <= self@.mem.len(),
            0 <= self@.write <= self@.mem.len(),
            self@.sent == self@.received + self@.readable(),
            self@.write_grant == Some((start, len)) ==> 0 <= start && 0 <= len && start + len
                <= self@.mem.len(),
            self@.read_grant == Some((start, len)) ==> {
                &&& start == self@.read
                &&& 0 < len <= self@.readable().len()
                &&& start + len <= self@.mem.len()
                &&& self@.mem.subrange(start, start + len) == self@.readable().take(len)
            },
            self@.data.cell.state == 0 && self@.space.cell.state == 0,
    {
        if self@.read_grant == Some((start, len)) {
            assert(self@.mem.subrange(start, start + len) =~= self@.readable().take(len));
        }
    }

    /// The number of bytes.
    pub fn capacity(&self) -> (r: usize)
        requires
            self.wf(),
        ensures
            r == self@.cap(),
    {
        self.cap
    }

    /// Lets a write of `n` bytes start, if there is room for them side by side
    /// and no write is out. Returns the region.
    fn try_reserve(&mut self, n: usize) -> (r: Option<(usize, usize)>)
        requires
            old(self).wf(),
        ensures
            final(self).wf(),
            final(self)@ == old(self)@.reserved(n as int),
            match r {
                Some((start, len)) => old(self)@.reserves(n as int) == Some(start as int) && len
                    == n,
                None => old(self)@.reserves(n as int) is None,
            },
    {
        if self.wip {
            return None;
        }
        proof {
            self@.lemma_reserved(n as int);
        }
        match plan_reserve(self.cap, self.read, self.write, n) {
            Some(start) => {
                self.reserve = start + n;
                self.wip = true;
                self.write_grant = Ghost(Some((start as int, n as int)));
                Some((start, n))
            },
            None => None,
        }
    }

    /// Lets a read go ahead, if there is data and no read is out. Returns the
    /// region, and the waker to call.
    fn try_read(&mut self) -> (r: (Option<(usize, usize)>, Option<Waker>))
        requires
            old(self).wf(),
        ensures
            final(self).wf(),
            final(self)@ == old(self)@.read_asked(),
            match r.0 {
                Some((start, len)) => old(self)@.may_read() && old(self)@.reads() == (
                    start as int,
                    len as int,
                ),
                None => !old(self)@.may_read(),
            },
            r.1 == if old(self)@.read_grant is Some {
                None
            } else {
                old(self)@.wrap_waker()
            },
    {
        if self.rip {
            return (None, None);
        }
        proof {
            self@.lemma_wrapped();
        }
        let ghost before = self@;
        let mut waker: Option<Waker> = None;
        if self.write < self.read && self.read == self.last {
            self.read = 0;
            waker = self.space.signal();
        }
        assert(self@ == before.wrapped());
        let end: usize = if self.write < self.read {
            self.last
        } else {
            self.write
        };
        let len: usize = end - self.read;
        if len == 0 {
            return (None, waker);
        }
        self.rip = true;
        self.read_grant = Ghost(Some((self.read as int, len as int)));
        (Some((self.read, len)), waker)
    }
}

/// A bip buffer of `cap` bytes, and its two ends.
pub fn bip_buffer(cap: usize) -> (r: (BipBuffer, Producer, Consumer))
    requires
        AlignedBuffer::<u8>::fits_items(cap as int),
    ensures
        r.0.wf(),
        r.0@ == BipState::fresh(cap as int, 1, r.0@.address, r.0@.tag),
        r.1.tag() == r.0@.tag,
        r.2.tag() == r.0@.tag,
{
    bip_buffer_aligned(cap, 1)
}

/// A bip buffer of `cap` bytes with alignment `align`, and its two ends. The bytes
/// lie at a multiple of `align`.
pub fn bip_buffer_aligned(cap: usize, align: usize) -> (r: (BipBuffer, Producer, Consumer))
    requires
        AlignedBuffer::<u8>::fits(cap as int, align as int),
    ensures
        r.0.wf(),
        r.0@ == BipState::fresh(cap as int, align as int, r.0@.address, r.0@.tag),
        r.0@.align == align,
        r.0@.address % (align as int) == 0,
        r.1.tag() == r.0@.tag,
        r.2.tag() == r.0@.tag,
{
    proof {
        assert(layout::align_of::<u8>() == 1) by {
            vstd::arithmetic::div_mod::lemma_mod_is_zero(
                layout::size_of::<u8>(),
                layout::align_of::<u8>(),
            );
        }
        AlignedBuffer::<u8>::law_where_items_can_be_placed(cap as int, align as int);
    }
    let mut buf: AlignedBuffer<u8> = AlignedBuffer::with_alignment(cap, align);
    buf.set_len(cap);
    let ghost tag: int = arbitrary();
    let bip = BipBuffer {
        buf,
        cap,
        write: 0,
        read: 0,
        last: cap,
        reserve: 0,
        wip: false,
        rip: false,
        data: WaiterSlot::new(),
        space: WaiterSlot::new(),
        write_grant: Ghost(None),
        read_grant: Ghost(None),
        sent: Ghost(Seq::empty()),
        received: Ghost(Seq::empty()),
        tag: Ghost(tag),
    };
    assert(bip@.mem =~= Seq::new(cap as nat, |i: int| 0u8));
    assert(bip@.readable() =~= Seq::<u8>::empty());
    assert(bip@.sent =~= bip@.received + bip@.readable());
    (bip, Producer { tag: Ghost(tag) }, Consumer { tag: Ghost(tag) })
}

/// The end of a bip buffer that writes.
pub struct Producer {
    tag: Ghost<int>,
}

/// The end of a bip buffer that reads.
pub struct Consumer {
    tag: Ghost<int>,
}

impl Producer {
    /// Which buffer the end is of.
    pub closed spec fn tag(self) -> int {
        self.tag@
    }

    /// A region of `n` bytes to write, if there is room for them side by side and
    /// no write is out.
    pub fn try_reserve(&mut self, bip: &mut BipBuffer, n: usize) -> (r: Option<WriteGrant>)
        requires
            old(bip).wf(),
            old(self).tag() == old(bip)@.tag,
        ensures
            final(bip).wf(),
            *final(self) == *old(self),
            final(bip)@ == old(bip)@.reserved(n as int),
            r is Some <==> old(bip)@.reserves(n as int) is Some,
            r is Some ==> {
                &&& r->0.region() == (old(bip)@.reserves(n as int)->0, n as int)
                &&& r->0.tag() == old(bip)@.tag
            },
    {
        match bip.try_reserve(n) {
            Some((start, len)) => Some(WriteGrant { start, len, tag: Ghost(self.tag@) }),
            None => None,
        }
    }

    /// A future for a region of `n` bytes to write.
    pub fn reserve(&self, n: usize) -> (r: Reserve)
        ensures
            r.tag() == self.tag(),
            r.n() == n,
    {
        Reserve { n, tag: Ghost(self.tag@) }
    }

    /// The number of bytes of the buffer.
    pub fn capacity(&self, bip: &BipBuffer) -> (r: usize)
        requires
            bip.wf(),
            self.tag() == bip@.tag,
        ensures
            r == bip@.cap(),
    {
        bip.cap
    }
}

impl Consumer {
    /// Which buffer the end is of.
    pub closed spec fn tag(self) -> int {
        self.tag@
    }

    /// What can be read side by side, if there is any and no read is out.
    /// Returns also the waker to call, where the reader goes on at the front.
    pub fn try_read(&mut self, bip: &mut BipBuffer) -> (r: (Option<ReadGrant>, Option<Waker>))
        requires
            old(bip).wf(),
            old(self).tag() == old(bip)@.tag,
        ensures
            final(bip).wf(),
            *final(self) == *old(self),
            final(bip)@ == old(bip)@.read_asked(),
            final(bip)@.readable() == old(bip)@.readable(),
            r.0 is Some <==> old(bip)@.may_read(),
            r.0 is Some ==> {
                &&& r.0->0.region() == old(bip)@.reads()
                &&& r.0->0.tag() == old(bip)@.tag
            },
            r.1 == if old(bip)@.read_grant is Some {
                None
            } else {
                old(bip)@.wrap_waker()
            },
    {
        proof {
            if bip@.read_grant is None {
                bip@.lemma_wrapped();
            }
        }
        let (region, waker) = bip.try_read();
        match region {
            Some((start, len)) => (Some(ReadGrant { start, len, tag: Ghost(self.tag@) }), waker),
            None => (None, waker),
        }
    }

    /// A future for what can be read side by side.
    pub fn read(&self) -> (r: Read)
        ensures
            r.tag() == self.tag(),
    {
        Read { tag: Ghost(self.tag@) }
    }

    /// The number of bytes of the buffer.
    pub fn capacity(&self, bip: &BipBuffer) -> (r: usize)
        requires
            bip.wf(),
            self.tag() == bip@.tag,
        ensures
            r == bip@.cap(),
    {
        bip.cap
    }
}

/// A region that is out to be written.
pub struct WriteGrant {
    start: usize,
    len: usize,
    tag: Ghost<int>,
}

impl WriteGrant {
    /// Which buffer the region is of.
    pub closed spec fn tag(self) -> int {
        self.tag@
    }

    /// The region, as a start and a length.
    pub closed spec fn region(self) -> (int, int) {
        (self.start as int, self.len as int)
    }

    /// Whether this is the region that is out to be written.
    pub open spec fn of(self, bip: BipState) -> bool {
        self.tag() == bip.tag && bip.write_grant == Some(self.region())
    }

    /// A grant is that of a buffer exactly where it bears its mark and its region is the
    /// one that is out to be written.
    pub proof fn law_whose_grant_it_is(self, bip: BipState)
        ensures
            self.of(bip) <==> self.tag() == bip.tag && bip.write_grant is Some
                && bip.write_grant->0 == self.region(),
    {
    }

    /// The bytes to write. All other bytes stay as they are, and so does what can
    /// be read.
    pub fn as_mut_slice<'a>(&mut self, bip: &'a mut BipBuffer) -> (r: &'a mut [u8])
        requires
            old(bip).wf(),
            old(self).of(old(bip)@),
        ensures
            *final(self) == *old(self),
            r@ == old(bip)@.piece(old(self).region()),
            r@.len() == old(self).region().1,
            final(r)@.len() == r@.len() ==> {
                &&& final(bip).wf()
                &&& final(bip)@ == old(bip)@.overwritten(old(self).region().0, final(r)@)
                &&& final(bip)@.cap() == old(bip)@.cap()
                &&& final(bip)@.piece(old(self).region()) == final(r)@
                &&& final(bip)@.readable() == old(bip)@.readable()
            },
    {
        let ghost before = bip@;
        let ghost (start, len) = self.region();
        let all = bip.buf.deref_mut();
        let (head, rest) = all.split_at_mut(self.start);
        let (region, tail) = rest.split_at_mut(self.len);
        proof {
            assert(region@ =~= before.piece((start, len)));
            assert forall|written: Seq<u8>|
                #![trigger written + tail@]
                written.len() == len implies {
                let after = BipState { mem: head@ + (written + tail@), ..before };
                &&& after == before.overwritten(start, written)
                &&& after.cap() == before.cap()
                &&& after.inv()
                &&& after.readable() == before.readable()
                &&& after.piece((start, len)) == written
            } by {
                let mem = head@ + (written + tail@);
                before.law_writing_leaves_the_data(mem, start, len);
                assert(mem =~= before.overwritten(start, written).mem);
                assert((BipState { mem, ..before }).piece((start, len)) =~= written);
            }
        }
        region
    }

    /// Where the region begins in the buffer.
    pub fn offset(&self) -> (r: usize)
        ensures
            r == self.region().0,
    {
        self.start
    }

    /// The number of bytes of the region.
    pub fn len(&self) -> (r: usize)
        ensures
            r == self.region().1,
    {
        self.len
    }

    /// Whether the region is empty.
    pub fn is_empty(&self) -> (r: bool)
        ensures
            r == (self.region().1 == 0),
    {
        self.len == 0
    }

    /// Makes the first `used` bytes of the region readable, or all of them where
    /// there are fewer. Returns the waker to call.
    pub fn commit(self, bip: &mut BipBuffer, used: usize) -> (r: Option<Waker>)
        requires
            old(bip).wf(),
            self.of(old(bip)@),
        ensures
            final(bip).wf(),
            ({
                let used = if used <= self.region().1 {
                    used as int
                } else {
                    self.region().1
                };
                let after = old(bip)@.committed(self.region().0, used);
                &&& final(bip)@ == (BipState { data: after.data.signalled(), ..after })
                &&& final(bip)@.readable() == old(bip)@.readable() + old(bip)@.piece(
                    (self.region().0, used),
                )
            }),
            r == old(bip)@.data.signals(),
    {
        let used: usize = if used <= self.len {
            used
        } else {
            self.len
        };
        proof {
            bip@.lemma_committed(self.start as int, self.len as int, used as int);
            bip.sent@ = bip@.committed(self.start as int, used as int).sent;
        }
        let write: usize = bip.write;
        if self.start == 0 && write != 0 {
            bip.last = write;
        }
        bip.write = self.start + used;
        bip.wip = false;
        bip.write_grant = Ghost(None);
        bip.data.signal()
    }

    /// Gives the region up without making any of it readable.
    pub fn abandon(self, bip: &mut BipBuffer)
        requires
            old(bip).wf(),
            self.of(old(bip)@),
        ensures
            final(bip).wf(),
            final(bip)@ == (BipState { write_grant: None, ..old(bip)@ }),
            final(bip)@.readable() == old(bip)@.readable(),
    {
        bip.wip = false;
        bip.reserve = bip.write;
        bip.write_grant = Ghost(None);
    }
}

/// A region that is out to be read.
pub struct ReadGrant {
    start: usize,
    len: usize,
    tag: Ghost<int>,
}

impl ReadGrant {
    /// Which buffer the region is of.
    pub closed spec fn tag(self) -> int {
        self.tag@
    }

    /// The region, as a start and a length.
    pub closed spec fn region(self) -> (int, int) {
        (self.start as int, self.len as int)
    }

    /// Whether this is the region that is out to be read.
    pub open spec fn of(self, bip: BipState) -> bool {
        self.tag() == bip.tag && bip.read_grant == Some(self.region())
    }

    /// A grant is that of a buffer exactly where it bears its mark and its region is the
    /// one that is out to be read.
    pub proof fn law_whose_grant_it_is(self, bip: BipState)
        ensures
            self.of(bip) <==> self.tag() == bip.tag && bip.read_grant is Some && bip.read_grant->0
                == self.region(),
    {
    }

    /// The bytes to read, which are the oldest.
    pub fn as_slice<'a>(&self, bip: &'a BipBuffer) -> (r: &'a [u8])
        requires
            bip.wf(),
            self.of(bip@),
        ensures
            r@ == bip@.readable().take(self.region().1),
            r@.len() == self.region().1,
    {
        let r = vstd::slice::slice_subrange(bip.buf.deref(), self.start, self.start + self.len);
        assert(r@ =~= bip@.readable().take(self.len as int));
        r
    }

    /// Where the region begins in the buffer.
    pub fn offset(&self) -> (r: usize)
        ensures
            r == self.region().0,
    {
        self.start
    }

    /// The number of bytes of the region.
    pub fn len(&self) -> (r: usize)
        ensures
            r == self.region().1,
    {
        self.len
    }

    /// Whether the region is empty.
    pub fn is_empty(&self) -> (r: bool)
        ensures
            r == (self.region().1 == 0),
    {
        self.len == 0
    }

    /// Gives up the first `used` bytes of the region for good, or all of them
    /// where there are fewer. The others stay readable. Returns the waker to
    /// call.
    pub fn release(self, bip: &mut BipBuffer, used: usize) -> (r: Option<Waker>)
        requires
            old(bip).wf(),
            self.of(old(bip)@),
        ensures
            final(bip).wf(),
            ({
                let used = if used <= self.region().1 {
                    used as int
                } else {
                    self.region().1
                };
                let after = old(bip)@.released(used);
                &&& final(bip)@ == (BipState { space: after.space.signalled(), ..after })
                &&& final(bip)@.readable() == old(bip)@.readable().skip(used)
            }),
            r == old(bip)@.space.signals(),
    {
        let used: usize = if used <= self.len {
            used
        } else {
            self.len
        };
        proof {
            bip@.lemma_released(self.start as int, self.len as int, used as int);
            bip.received@ = bip@.released(used as int).received;
        }
        bip.read = bip.read + used;
        bip.rip = false;
        bip.read_grant = Ghost(None);
        bip.space.signal()
    }

    /// Leaves all of the region readable.
    pub fn put_back(self, bip: &mut BipBuffer)
        requires
            old(bip).wf(),
            self.of(old(bip)@),
        ensures
            final(bip).wf(),
            final(bip)@ == (BipState { read_grant: None, ..old(bip)@ }),
            final(bip)@.readable() == old(bip)@.readable(),
    {
        bip.rip = false;
        bip.read_grant = Ghost(None);
    }
}

/// A future for a region to write.
pub struct Reserve {
    n: usize,
    tag: Ghost<int>,
}

impl Reserve {
    /// Which buffer the future waits for.
    pub closed spec fn tag(self) -> int {
        self.tag@
    }

    /// How many bytes the future asks for.
    pub closed spec fn n(self) -> usize {
        self.n
    }

    /// Polls the future. It is ready where there is room and no write is out,
    /// and parks otherwise.
    pub fn poll(&mut self, bip: &mut BipBuffer, waker: &Waker) -> (r: Poll<WriteGrant>)
        requires
            old(bip).wf(),
            old(self).tag() == old(bip)@.tag,
        ensures
            final(bip).wf(),
            *final(self) == *old(self),
            r is Ready <==> old(bip)@.reserves(old(self).n() as int) is Some,
            r is Ready ==> {
                &&& r->Ready_0.region() == (
                    old(bip)@.reserves(old(self).n() as int)->0,
                    old(self).n() as int,
                )
                &&& r->Ready_0.tag() == old(bip)@.tag
                &&& final(bip)@ == old(bip)@.reserved(old(self).n() as int)
            },
            r is Pending ==> final(bip)@ == (BipState {
                space: old(bip)@.space.armed_with(*waker),
                ..old(bip)@
            }),
    {
        let mut producer = Producer { tag: Ghost(self.tag@) };
        if let Some(grant) = producer.try_reserve(bip, self.n) {
            return Poll::Ready(grant);
        }
        let _ = bip.space.arm(waker);
        match producer.try_reserve(bip, self.n) {
            Some(grant) => {
                bip.space.disarm();
                Poll::Ready(grant)
            },
            None => Poll::Pending,
        }
    }
}

/// A future for a region to read.
pub struct Read {
    tag: Ghost<int>,
}

impl Read {
    /// Which buffer the future waits for.
    pub closed spec fn tag(self) -> int {
        self.tag@
    }

    /// Polls the future. It is ready where there is data and no read is out, and
    /// parks otherwise. Returns also the waker to call, where the reader goes on
    /// at the front.
    pub fn poll(&mut self, bip: &mut BipBuffer, waker: &Waker) -> (r: (
        Poll<ReadGrant>,
        Option<Waker>,
    ))
        requires
            old(bip).wf(),
            old(self).tag() == old(bip)@.tag,
        ensures
            final(bip).wf(),
            *final(self) == *old(self),
            final(bip)@.readable() == old(bip)@.readable(),
            r.0 is Ready <==> old(bip)@.may_read(),
            r.0 is Ready ==> {
                &&& r.0->Ready_0.region() == old(bip)@.reads()
                &&& r.0->Ready_0.tag() == old(bip)@.tag
                &&& final(bip)@ == old(bip)@.read_asked()
            },
            r.0 is Pending ==> final(bip)@ == (BipState {
                data: old(bip)@.data.armed_with(*waker),
                ..old(bip)@.read_asked()
            }),
            r.1 == if old(bip)@.read_grant is Some {
                None
            } else {
                old(bip)@.wrap_waker()
            },
    {
        let mut consumer = Consumer { tag: Ghost(self.tag@) };
        let (first, woken) = consumer.try_read(bip);
        if let Some(grant) = first {
            return (Poll::Ready(grant), woken);
        }
        let _ = bip.data.arm(waker);
        let (second, _) = consumer.try_read(bip);
        match second {
            Some(grant) => {
                bip.data.disarm();
                (Poll::Ready(grant), woken)
            },
            None => (Poll::Pending, woken),
        }
    }
}

/// A write is planned at the write index wherever the bytes fit there, at the front
/// only where the tail is too short for them and the front is not, and nowhere where
/// neither holds.
pub proof fn law_what_planning_does(cap: usize, read: usize, write: usize, n: usize, r: Option<usize>)
    requires
        read <= cap,
        write <= cap,
        call_ensures(plan_reserve, (cap, read, write, n), r),
    ensures
        read <= write && n <= cap - write ==> r == Some(write),
        read <= write && n > cap - write && n < read ==> r == Some(0usize),
        read <= write && n > cap - write && n >= read ==> r is None,
        write < read && n < read - write ==> r == Some(write),
        write < read && n >= read - write ==> r is None,
{
    law_where_a_write_starts(cap as int, read as int, write as int, n as int);
}

/// A region to write is handed out exactly where no other is out and the bytes fit side
/// by side: behind the data where they fit there, at the front otherwise. No byte
/// changes, and neither does what can be read.
pub proof fn law_what_reserving_does(
    producer: &mut Producer,
    bip: &mut BipBuffer,
    n: usize,
    r: Option<WriteGrant>,
)
    requires
        old(bip).wf(),
        call_ensures(Producer::try_reserve, (producer, bip, n), r),
    ensures
        ({
            let b = old(bip)@;
            &&& r is Some <==> b.write_grant is None && {
                ||| b.read <= b.write && b.write + n <= b.mem.len()
                ||| b.read <= b.write && n < b.read
                ||| b.write < b.read && b.write + n < b.read
            }
            &&& r is Some ==> {
                &&& r->0.region().1 == n
                &&& r->0.region().0 == if b.read <= b.write && b.write + n > b.mem.len() {
                    0
                } else {
                    b.write
                }
                &&& final(bip)@.write_grant == Some(r->0.region())
            }
            &&& r is None ==> final(bip)@ == b
            &&& final(bip)@.mem == b.mem
            &&& final(bip)@.readable() == b.readable()
            &&& final(bip)@.read == b.read
            &&& final(bip)@.write == b.write
            &&& final(bip)@.read_grant == b.read_grant
        }),
{
    let b = old(bip)@;
    old(bip).lemma_wf();
    b.law_what_a_reservation_does(n as int);
    b.lemma_reserved(n as int);
    law_where_a_write_starts(b.mem.len() as int, b.read, b.write, n as int);
}

/// A future for a region to write is ready exactly where the region is handed out at
/// once. Otherwise the producer parks with its waker, and nothing else changes.
pub proof fn law_what_polling_for_room_does(
    future: &mut Reserve,
    bip: &mut BipBuffer,
    waker: &Waker,
    r: Poll<WriteGrant>,
)
    requires
        old(bip).wf(),
        call_ensures(Reserve::poll, (future, bip, waker), r),
    ensures
        ({
            let b = old(bip)@;
            let n = old(future).n();
            &&& r is Ready <==> b.write_grant is None && {
                ||| b.read <= b.write && b.write + n <= b.mem.len()
                ||| b.read <= b.write && n < b.read
                ||| b.write < b.read && b.write + n < b.read
            }
            &&& r is Ready ==> {
                &&& r->Ready_0.region().1 == n
                &&& r->Ready_0.region().0 == if b.read <= b.write && b.write + n > b.mem.len() {
                    0
                } else {
                    b.write
                }
                &&& final(bip)@.write_grant == Some(r->Ready_0.region())
                &&& final(bip)@.space == b.space
            }
            &&& r is Pending ==> {
                &&& final(bip)@.space.armed
                &&& final(bip)@.space.cell.waker == Some(*waker)
                &&& final(bip)@.write_grant == b.write_grant
            }
            &&& final(bip)@.mem == b.mem
            &&& final(bip)@.readable() == b.readable()
            &&& final(bip)@.read == b.read
            &&& final(bip)@.write == b.write
            &&& final(bip)@.read_grant == b.read_grant
            &&& final(bip)@.data == b.data
        }),
{
    let b = old(bip)@;
    let n = old(future).n() as int;
    old(bip).lemma_wf();
    b.law_what_a_reservation_does(n);
    b.lemma_reserved(n);
    law_where_a_write_starts(b.mem.len() as int, b.read, b.write, n);
}

/// What is committed, which is no more than was handed out, can be read behind all that
/// could be read before; a parked consumer is woken. A region that is given up leaves
/// what can be read as it is. Either way no region is out to be written then.
pub proof fn law_what_committing_does(
    grant: WriteGrant,
    bip: &mut BipBuffer,
    used: usize,
    r: Option<Waker>,
    other: &mut BipBuffer,
    s: (),
)
    requires
        old(bip).wf(),
        grant.of(old(bip)@),
        call_ensures(WriteGrant::commit, (grant, bip, used), r),
        call_ensures(WriteGrant::abandon, (grant, other), s),
    ensures
        ({
            let n = if used <= grant.region().1 {
                used as int
            } else {
                grant.region().1
            };
            let start = grant.region().0;
            &&& final(bip)@.readable() == old(bip)@.readable() + old(bip)@.mem.subrange(
                start,
                start + n,
            )
            &&& final(bip)@.sent == old(bip)@.sent + old(bip)@.mem.subrange(start, start + n)
            &&& final(bip)@.write == start + n
            &&& final(bip)@.write_grant is None
            &&& final(bip)@.mem == old(bip)@.mem
            &&& final(bip)@.read == old(bip)@.read
            &&& final(bip)@.read_grant == old(bip)@.read_grant
            &&& r == if old(bip)@.data.armed {
                old(bip)@.data.cell.waker
            } else {
                None
            }
            &&& !final(bip)@.data.armed
            &&& final(bip)@.space == old(bip)@.space
        }),
        final(other)@.readable() == old(other)@.readable(),
        final(other)@.sent == old(other)@.sent,
        final(other)@.write == old(other)@.write,
        final(other)@.read == old(other)@.read,
        final(other)@.write_grant is None,
        final(other)@.read_grant == old(other)@.read_grant,
        final(other)@.data == old(other)@.data,
        final(other)@.space == old(other)@.space,
{
    let n = if used <= grant.region().1 {
        used as int
    } else {
        grant.region().1
    };
    old(bip).law_a_buffer_is_in_order(grant.region().0, grant.region().1);
    old(bip).lemma_wf();
    old(bip)@.law_what_a_commit_does(grant.region().0, grant.region().1, n);
}

/// A region to read is handed out exactly where no other is out and there is anything
/// to read. It holds the oldest bytes, as many as lie side by side, and what can be
/// read stays as it is.
pub proof fn law_what_reading_does(
    consumer: &mut Consumer,
    bip: &mut BipBuffer,
    r: (Option<ReadGrant>, Option<Waker>),
)
    requires
        old(bip).wf(),
        call_ensures(Consumer::try_read, (consumer, bip), r),
    ensures
        ({
            let b = old(bip)@;
            let front = b.write < b.read && b.read == b.last;
            &&& r.0 is Some <==> b.read_grant is None && b.readable().len() > 0
            &&& r.0 is Some ==> {
                let (start, len) = r.0->0.region();
                &&& final(bip)@.read_grant == Some((start, len))
                &&& len > 0
                &&& b.mem.subrange(start, start + len) == b.readable().take(len)
                &&& b.read <= b.write || front ==> len == b.readable().len()
                &&& b.write < b.read && !front ==> len == b.last - b.read
            }
            &&& r.0 is None ==> final(bip)@.read_grant == b.read_grant
            &&& final(bip)@.readable() == b.readable()
            &&& final(bip)@.mem == b.mem
            &&& final(bip)@.write == b.write
            &&& final(bip)@.write_grant == b.write_grant
            &&& final(bip)@.data == b.data
            &&& r.1 == if b.read_grant is None && front && b.space.armed {
                b.space.cell.waker
            } else {
                None
            }
        }),
{
    let b = old(bip)@;
    old(bip).lemma_wf();
    b.law_what_a_read_gets();
    b.law_what_can_be_read(0);
    law_where_a_read_starts(b.read, b.write, b.last);
}

/// A future for a region to read is ready exactly where no other is out and there is
/// anything to read. Otherwise the consumer parks with its waker. What can be read
/// stays as it is.
pub proof fn law_what_polling_for_data_does(
    future: &mut Read,
    bip: &mut BipBuffer,
    waker: &Waker,
    r: (Poll<ReadGrant>, Option<Waker>),
)
    requires
        old(bip).wf(),
        call_ensures(Read::poll, (future, bip, waker), r),
    ensures
        ({
            let b = old(bip)@;
            let front = b.write < b.read && b.read == b.last;
            &&& r.0 is Ready <==> b.read_grant is None && b.readable().len() > 0
            &&& r.0 is Ready ==> {
                let (start, len) = r.0->Ready_0.region();
                &&& final(bip)@.read_grant == Some((start, len))
                &&& len > 0
                &&& b.mem.subrange(start, start + len) == b.readable().take(len)
                &&& b.read <= b.write || front ==> len == b.readable().len()
                &&& b.write < b.read && !front ==> len == b.last - b.read
                &&& final(bip)@.data == b.data
            }
            &&& r.0 is Pending ==> {
                &&& final(bip)@.data.armed
                &&& final(bip)@.data.cell.waker == Some(*waker)
                &&& final(bip)@.read_grant == b.read_grant
            }
            &&& final(bip)@.readable() == b.readable()
            &&& final(bip)@.mem == b.mem
            &&& final(bip)@.write == b.write
            &&& final(bip)@.write_grant == b.write_grant
            &&& r.1 == if b.read_grant is None && front && b.space.armed {
                b.space.cell.waker
            } else {
                None
            }
        }),
{
    let b = old(bip)@;
    old(bip).lemma_wf();
    b.law_what_a_read_gets();
    b.law_what_can_be_read(0);
    law_where_a_read_starts(b.read, b.write, b.last);
}

/// What is released, which is no more than was handed out, is taken off the front of what
/// can be read; a parked producer is woken. A region that is put back leaves what can
/// be read as it is. Either way no region is out to be read then.
pub proof fn law_what_releasing_does(
    grant: ReadGrant,
    bip: &mut BipBuffer,
    used: usize,
    r: Option<Waker>,
    other: &mut BipBuffer,
    s: (),
)
    requires
        old(bip).wf(),
        grant.of(old(bip)@),
        call_ensures(ReadGrant::release, (grant, bip, used), r),
        call_ensures(ReadGrant::put_back, (grant, other), s),
    ensures
        ({
            let n = if used <= grant.region().1 {
                used as int
            } else {
                grant.region().1
            };
            &&& old(bip)@.readable() == old(bip)@.readable().take(n) + final(bip)@.readable()
            &&& final(bip)@.readable().len() == old(bip)@.readable().len() - n
            &&& final(bip)@.received == old(bip)@.received + old(bip)@.readable().take(n)
            &&& final(bip)@.read == old(bip)@.read + n
            &&& final(bip)@.read_grant is None
            &&& final(bip)@.mem == old(bip)@.mem
            &&& final(bip)@.write == old(bip)@.write
            &&& final(bip)@.write_grant == old(bip)@.write_grant
            &&& r == if old(bip)@.space.armed {
                old(bip)@.space.cell.waker
            } else {
                None
            }
            &&& !final(bip)@.space.armed
            &&& final(bip)@.data == old(bip)@.data
        }),
        final(other)@.readable() == old(other)@.readable(),
        final(other)@.received == old(other)@.received,
        final(other)@.write == old(other)@.write,
        final(other)@.read == old(other)@.read,
        final(other)@.read_grant is None,
        final(other)@.write_grant == old(other)@.write_grant,
        final(other)@.data == old(other)@.data,
        final(other)@.space == old(other)@.space,
{
    let n = if used <= grant.region().1 {
        used as int
    } else {
        grant.region().1
    };
    let all = old(bip)@.readable();
    old(bip).law_a_buffer_is_in_order(grant.region().0, grant.region().1);
    old(bip).lemma_wf();
    old(bip)@.lemma_released(grant.region().0, grant.region().1, n);
    old(bip)@.law_what_a_release_does(grant.region().0, grant.region().1, n);
    assert(all =~= all.take(n) + all.skip(n));
}

/// A buffer is made with room for the bytes it is given, all of them zero, and nothing to
/// read. It says how many they are. A grant says where its region lies, and shows the
/// oldest bytes.
pub proof fn law_what_a_buffer_is_made_with(
    cap: usize,
    r: (BipBuffer, Producer, Consumer),
    size: usize,
    grant: ReadGrant,
    bip: BipBuffer,
    bytes: &[u8],
    offset: usize,
    len: usize,
)
    requires
        call_ensures(bip_buffer, (cap,), r),
        call_ensures(BipBuffer::capacity, (&r.0,), size),
        bip.wf(),
        grant.of(bip@),
        call_ensures(ReadGrant::as_slice, (&grant, &bip), bytes),
        call_ensures(ReadGrant::offset, (&grant,), offset),
        call_ensures(ReadGrant::len, (&grant,), len),
    ensures
        size == cap,
        r.0@.mem.len() == cap,
        forall|i: int| 0 <= i < cap ==> #[trigger] r.0@.mem[i] == 0,
        r.0@.readable().len() == 0,
        r.0@.write_grant is None && r.0@.read_grant is None,
        bytes@.len() == len,
        forall|i: int| 0 <= i < len ==> #[trigger] bytes@[i] == bip@.readable()[i],
        forall|i: int| 0 <= i < len ==> #[trigger] bytes@[i] == bip@.mem[offset + i],
{
    BipState::law_a_new_buffer_is_empty(cap as int, 1, r.0@.address, r.0@.tag, 0);
    bip.law_a_buffer_is_in_order(grant.region().0, grant.region().1);
    let (start, n) = grant.region();
    assert forall|i: int| 0 <= i < len implies #[trigger] bytes@[i] == bip@.mem[offset + i] by {
        assert(bip@.mem.subrange(start, start + n)[i] == bip@.readable().take(n)[i]);
    }
}

} // verus!
