//! Byte queues that two parties share through memory.
//!
//! The read and the write index of a queue run over twice its capacity, so that a full queue and an
//! empty one can be told apart. Each index is moved by one party only.

use vstd::prelude::*;
use vstd::slice::slice_subrange;

use crate::bytes;

verus! {

/// A queue as it lies in memory.
#[verifier::ext_equal]
pub struct Ring {
    /// The index of the next byte to read.
    pub read: int,
    /// The index of the next byte to write.
    pub write: int,
    /// The cells, one for each byte that the queue can hold.
    pub data: Seq<u8>,
}

/// What a party does to a queue.
#[verifier::ext_equal]
pub enum Act {
    /// It moves its index or writes cells, which leaves the queue like this.
    Change(Ring),
    /// It reads cells, from one on, and gets these bytes.
    Read { cell: int, bytes: Seq<u8> },
}

/// How many bytes lie between a read and a write index.
pub open spec fn distance(read: int, write: int, capacity: int) -> int {
    (write - read) % (2 * capacity)
}

pub open spec fn least(a: int, b: int) -> int {
    if a <= b {
        a
    } else {
        b
    }
}

impl Ring {
    pub open spec fn capacity(self) -> int {
        self.data.len() as int
    }

    /// The number of unread bytes.
    pub open spec fn len(self) -> int {
        distance(self.read, self.write, self.capacity())
    }

    /// The queue holds at least one cell, both indices are in range, and no more bytes are unread
    /// than there are cells.
    pub open spec fn valid(self) -> bool {
        &&& 0 < self.capacity() <= 0x8000_0000
        &&& 0 <= self.read < 2 * self.capacity()
        &&& 0 <= self.write < 2 * self.capacity()
        &&& self.len() <= self.capacity()
    }

    /// The unread bytes, the oldest first.
    pub open spec fn unread(self) -> Seq<u8> {
        Seq::new(self.len() as nat, |i: int| self.data[(self.read + i) % self.capacity()])
    }

    /// Whether the cell at `cell` holds an unread byte.
    pub open spec fn holds(self, cell: int) -> bool {
        exists|i: int|
            0 <= i < self.len() && #[trigger] ((self.read + i) % self.capacity()) == cell
    }

    /// The queue after a push that counted `count` of the bytes of `input`. All of `input` is
    /// written: up to the end of the cells behind the write index, and the rest from the first cell
    /// on.
    pub open spec fn after_push(self, input: Seq<u8>, count: int) -> Ring {
        let at = self.write % self.capacity();
        let first = least(count, self.capacity() - at);
        Ring {
            read: self.read,
            write: (self.write + count) % (2 * self.capacity()),
            data: bytes::overlay(bytes::overlay(self.data, at, input.take(first)), 0, input.skip(first)),
        }
    }

    /// The queue after `count` bytes were popped.
    pub open spec fn after_pop(self, count: int) -> Ring {
        Ring {
            read: (self.read + count) % (2 * self.capacity()),
            write: self.write,
            data: self.data,
        }
    }

    /// How many bytes of an input of `len` bytes a push counts that finds the queue like this.
    pub open spec fn push_count(self, len: usize) -> int {
        least((len as u32) as int, self.capacity() - self.len())
    }

    /// How many bytes a pop into `len` bytes counts that finds the queue like this.
    pub open spec fn pop_count(self, len: usize) -> int {
        least((len as u32) as int, self.len())
    }
}

/// `value` on the circle of `2 * size` index values.
fn wrap(value: i64, size: u32) -> (wrapped: u32)
    requires
        0 < size <= 0x8000_0000,
        -0x1_0000_0000 < value < 0x2_0000_0000,
    ensures
        wrapped == value as int % (2 * size as int),
{
    let circle: u64 = 2 * size as u64;
    if value < 0 {
        let back: u64 = ((-value) as u64) % circle;
        if back == 0 {
            proof {
                lemma_negative_mod(value as int, circle as int);
            }
            0
        } else {
            proof {
                lemma_negative_mod(value as int, circle as int);
            }
            (circle - back) as u32
        }
    } else {
        ((value as u64) % circle) as u32
    }
}

/// The remainder of a negative number.
proof fn lemma_negative_mod(value: int, circle: int)
    requires
        circle > 0,
        value < 0,
    ensures
        (-value) % circle == 0 ==> value % circle == 0,
        (-value) % circle != 0 ==> value % circle == circle - (-value) % circle,
{
    let back = (-value) % circle;
    let turns = (-value) / circle;
    vstd::arithmetic::div_mod::lemma_fundamental_div_mod(-value, circle);
    vstd::arithmetic::div_mod::lemma_mod_bound(-value, circle);
    if back == 0 {
        assert(value == (-turns) * circle + 0) by (nonlinear_arith)
            requires
                -value == circle * turns,
        ;
        vstd::arithmetic::div_mod::lemma_fundamental_div_mod_converse(value, circle, -turns, 0);
    } else {
        assert(value == (-turns - 1) * circle + (circle - back)) by (nonlinear_arith)
            requires
                -value == circle * turns + back,
        ;
        vstd::arithmetic::div_mod::lemma_fundamental_div_mod_converse(
            value,
            circle,
            -turns - 1,
            circle - back,
        );
    }
}

/// One party's access to the indices of a queue.
pub trait CbObserverMut {
    /// The queue as this party saw it last.
    spec fn ring(&self) -> Ring;

    /// What this party did to the queue, in order.
    spec fn acts(&self) -> Seq<Act>;

    /// Whether the other party may bring the queue from `before` to `after` between two looks.
    spec fn peer(before: Ring, after: Ring) -> bool;

    /// Whatever the other party does, the queue stays valid and its cells stay as many.
    proof fn peer_keeps_valid(before: Ring, after: Ring)
        requires
            before.valid(),
            Self::peer(before, after),
        ensures
            after.valid(),
            after.capacity() == before.capacity(),
    ;

    /// The other party may do nothing.
    proof fn peer_may_rest(ring: Ring)
        ensures
            Self::peer(ring, ring),
    ;

    /// What the other party may do in two steps it may do in one.
    proof fn peer_composes(first: Ring, second: Ring, third: Ring)
        requires
            first.valid(),
            Self::peer(first, second),
            Self::peer(second, third),
        ensures
            Self::peer(first, third),
    ;

    fn get_read_mut(&mut self) -> (value: u32)
        requires
            old(self).ring().valid(),
        ensures
            Self::peer(old(self).ring(), final(self).ring()),
            final(self).acts() == old(self).acts(),
            value == final(self).ring().read,
    ;

    fn get_write_mut(&mut self) -> (value: u32)
        requires
            old(self).ring().valid(),
        ensures
            Self::peer(old(self).ring(), final(self).ring()),
            final(self).acts() == old(self).acts(),
            value == final(self).ring().write,
    ;

    fn get_capacity_mut(&mut self) -> (value: u32)
        requires
            old(self).ring().valid(),
        ensures
            Self::peer(old(self).ring(), final(self).ring()),
            final(self).acts() == old(self).acts(),
            value == final(self).ring().capacity(),
    ;
}

/// What follows from the indices of a queue alone.
pub trait CbObserver: CbObserverMut {
    fn get_read(&mut self) -> (value: u32)
        requires
            old(self).ring().valid(),
        ensures
            Self::peer(old(self).ring(), final(self).ring()),
            final(self).acts() == old(self).acts(),
            value == final(self).ring().read,
    {
        self.get_read_mut()
    }

    fn get_write(&mut self) -> (value: u32)
        requires
            old(self).ring().valid(),
        ensures
            Self::peer(old(self).ring(), final(self).ring()),
            final(self).acts() == old(self).acts(),
            value == final(self).ring().write,
    {
        self.get_write_mut()
    }

    fn get_capacity(&mut self) -> (value: u32)
        requires
            old(self).ring().valid(),
        ensures
            Self::peer(old(self).ring(), final(self).ring()),
            final(self).acts() == old(self).acts(),
            value == final(self).ring().capacity(),
    {
        self.get_capacity_mut()
    }

    fn empty(read: u32, write: u32) -> (empty: bool)
        ensures
            empty == (read == write),
    {
        read == write
    }

    fn full(read: u32, write: u32, capacity: u32) -> (full: bool)
        requires
            0 < capacity <= 0x8000_0000,
        ensures
            full == (distance(read as int, write as int, capacity as int) == capacity),
    {
        Self::size(read, write, capacity) == capacity
    }

    fn size(read: u32, write: u32, capacity: u32) -> (size: u32)
        requires
            0 < capacity <= 0x8000_0000,
        ensures
            size == distance(read as int, write as int, capacity as int),
    {
        wrap(write as i64 - read as i64, capacity)
    }

    fn free(read: u32, write: u32, capacity: u32) -> (free: u32)
        requires
            0 < capacity <= 0x8000_0000,
            distance(read as int, write as int, capacity as int) <= capacity,
        ensures
            free == capacity - distance(read as int, write as int, capacity as int),
    {
        capacity - Self::size(read, write, capacity)
    }

    /// The number of unread bytes: the write index is looked at after the read index.
    fn read_size(&mut self) -> (size: u32)
        requires
            old(self).ring().valid(),
        ensures
            exists|first: Ring, second: Ring|
                {
                    &&& #[trigger] Self::peer(old(self).ring(), first)
                    &&& #[trigger] Self::peer(first, second)
                    &&& Self::peer(second, final(self).ring())
                    &&& size == distance(first.read, second.write, second.capacity())
                },
            final(self).acts() == old(self).acts(),
    {
        let read: u32 = self.get_read();
        let ghost first = self.ring();
        proof {
            Self::peer_keeps_valid(old(self).ring(), first);
        }
        let write: u32 = self.get_write();
        let ghost second = self.ring();
        proof {
            Self::peer_keeps_valid(first, second);
        }
        let capacity: u32 = self.get_capacity();
        proof {
            Self::peer_keeps_valid(second, self.ring());
        }
        Self::size(read, write, capacity)
    }
}

impl<T: CbObserverMut> CbObserver for T {

}

/// The access of the party that writes to a queue.
pub trait CbProducerMut: CbObserverMut {
    /// The other party moves the read index only, and never past the write index.
    proof fn peer_only_reads(before: Ring, after: Ring)
        requires
            before.valid(),
            Self::peer(before, after),
        ensures
            after.write == before.write,
            after.data == before.data,
            after.len() <= before.len(),
    ;

    fn set_write_mut(&mut self, value: u32)
        ensures
            final(self).ring() == (Ring { write: value as int, ..old(self).ring() }),
            final(self).acts() == old(self).acts().push(Act::Change(final(self).ring())),
    ;

    fn set_data_mut(&mut self, offset: u32, value: &[u8])
        ensures
            final(self).ring() == (Ring {
                data: bytes::overlay(old(self).ring().data, offset as int, value@),
                ..old(self).ring()
            }),
            final(self).acts() == old(self).acts().push(Act::Change(final(self).ring())),
    ;
}

/// Writing to a queue.
pub trait CbProducer: CbProducerMut + CbObserver {
    fn set_write(&mut self, value: u32)
        ensures
            final(self).ring() == (Ring { write: value as int, ..old(self).ring() }),
            final(self).acts() == old(self).acts().push(Act::Change(final(self).ring())),
    {
        self.set_write_mut(value)
    }

    fn set_data(&mut self, offset: u32, value: &[u8])
        ensures
            final(self).ring() == (Ring {
                data: bytes::overlay(old(self).ring().data, offset as int, value@),
                ..old(self).ring()
            }),
            final(self).acts() == old(self).acts().push(Act::Change(final(self).ring())),
    {
        self.set_data_mut(offset, value)
    }

    /// Writes as much of `input` as the queue has room for, and returns how much that was.
    ///
    /// Bytes of `input` that are not counted are nevertheless written, from the first cell on: an
    /// input that does not fit spoils unread bytes.
    fn push(&mut self, input: &[u8]) -> (count: u32)
        requires
            old(self).ring().valid(),
        ensures
            push_result::<Self>(
                old(self).ring(),
                final(self).ring(),
                input@,
                count,
                old(self).acts(),
                final(self).acts(),
            ),
    {
        let capacity: u32 = self.get_capacity();
        proof {
            Self::peer_keeps_valid(old(self).ring(), self.ring());
        }
        let ghost first = self.ring();
        let read: u32 = self.get_read();
        proof {
            Self::peer_keeps_valid(first, self.ring());
            Self::peer_composes(old(self).ring(), first, self.ring());
        }
        let ghost seen = self.ring();
        let write: u32 = self.get_write();
        proof {
            Self::peer_keeps_valid(seen, self.ring());
            Self::peer_only_reads(seen, self.ring());
        }
        let ghost now = self.ring();

        if Self::full(read, write, capacity) {
            proof {
                assert(self.acts() =~= old(self).acts() + Seq::<Act>::empty());
                assert(pushed::<Self>(
                    old(self).ring(),
                    seen,
                    now,
                    self.ring(),
                    input@,
                    0,
                    old(self).acts(),
                    self.acts(),
                ));
            }
            return 0;
        }
        let size: u32 = Self::size(read, write, capacity);
        let offered: u32 = input.len() as u32;
        let count: u32 = if offered <= capacity - size {
            offered
        } else {
            capacity - size
        };
        let at: u32 = write % capacity;
        let first_write: u32 = if count <= capacity - at {
            count
        } else {
            capacity - at
        };
        proof {
            lemma_truncated(input@.len() as usize);
        }
        self.set_data(at, slice_subrange(input, 0, first_write as usize));
        self.set_data(0, slice_subrange(input, first_write as usize, input.len()));
        self.set_write(wrap(write as i64 + count as i64, capacity));
        proof {
            assert(input@.subrange(0, first_write as int) =~= input@.take(first_write as int));
            assert(input@.subrange(first_write as int, input@.len() as int) =~= input@.skip(
                first_write as int,
            ));
            assert(self.ring() =~= now.after_push(input@, count as int));
            assert(self.acts() =~= old(self).acts() + push_acts(now, input@, count as int));
            assert(pushed::<Self>(
                old(self).ring(),
                seen,
                now,
                self.ring(),
                input@,
                count,
                old(self).acts(),
                self.acts(),
            ));
        }
        count
    }

    /// Writes as much of `input` behind its first `done` bytes as the queue has room for, and returns
    /// how much of it is written then. What is pushed step by step while the other party reads is
    /// written when that is all of it.
    fn push_step(&mut self, input: &[u8], done: usize) -> (next: usize)
        requires
            old(self).ring().valid(),
            done <= input@.len(),
        ensures
            done <= next <= input@.len(),
            push_result::<Self>(
                old(self).ring(),
                final(self).ring(),
                input@.skip(done as int),
                (next - done) as u32,
                old(self).acts(),
                final(self).acts(),
            ),
            next - done <= u32::MAX,
    {
        let rest = slice_subrange(input, done, input.len());
        let ghost before = self.ring();
        let ghost acts = self.acts();
        let count: u32 = self.push(rest);
        proof {
            assert(rest@ =~= input@.skip(done as int));
            let (seen, now) = choose|seen: Ring, now: Ring| #[trigger]
                pushed::<Self>(before, seen, now, self.ring(), rest@, count, acts, self.acts());
            Self::peer_keeps_valid(before, seen);
            lemma_truncated(rest@.len() as usize);
        }
        done + count as usize
    }

    /// Writes all of `input`, which the queue has room for.
    fn push_all(&mut self, input: &[u8])
        requires
            old(self).ring().valid(),
            input@.len() <= old(self).ring().capacity() - old(self).ring().len(),
        ensures
            final(self).ring().valid(),
            filled::<Self>(
                old(self).ring(),
                final(self).ring(),
                input@,
                old(self).acts(),
                final(self).acts(),
            ),
    {
        let ghost before = self.ring();
        let ghost acts = self.acts();
        if input.len() > 0 {
            // There is room enough, so one push writes all of the input.
            let count: u32 = self.push(input);
            proof {
                let (seen, now) = choose|seen: Ring, now: Ring| #[trigger]
                    pushed::<Self>(
                        before,
                        seen,
                        now,
                        self.ring(),
                        input@,
                        count,
                        acts,
                        self.acts(),
                    );
                Self::peer_keeps_valid(before, seen);
                Self::peer_only_reads(before, seen);
                Self::peer_keeps_valid(seen, now);
                Self::peer_only_reads(seen, now);
                Self::peer_composes(before, seen, now);
                lemma_truncated(input@.len() as usize);
                pushing_appends(now, input@);
            }
        } else {
            proof {
                Self::peer_may_rest(before);
                lemma_after_empty_push(before, input@);
                assert(self.acts() =~= acts + Seq::<Act>::empty());
            }
        }
    }
}

impl<T: CbProducerMut> CbProducer for T {

}

/// The access of the party that reads from a queue.
pub trait CbConsumerMut: CbObserverMut {
    /// The other party only appends to the unread bytes.
    proof fn peer_only_writes(before: Ring, after: Ring)
        requires
            before.valid(),
            Self::peer(before, after),
        ensures
            after.read == before.read,
            before.unread().is_prefix_of(after.unread()),
    ;

    fn set_read_mut(&mut self, value: u32)
        ensures
            final(self).ring() == (Ring { read: value as int, ..old(self).ring() }),
            final(self).acts() == old(self).acts().push(Act::Change(final(self).ring())),
    ;

    /// Copies cells into `data`. What a cell holds that is not unread is left open: the other party
    /// may be writing to it.
    fn get_data_mut(&mut self, offset: u32, data: &mut [u8])
        requires
            old(self).ring().valid(),
        ensures
            final(self).ring() == old(self).ring(),
            final(self).acts() == old(self).acts().push(
                Act::Read { cell: offset as int, bytes: final(data)@ },
            ),
            final(data)@.len() == old(data)@.len(),
            forall|i: int|
                0 <= i < old(data)@.len() && old(self).ring().holds(offset + i)
                    ==> #[trigger] final(data)@[i] == old(self).ring().data[offset + i],
    ;
}

/// Reading from a queue.
pub trait CbConsumer: CbConsumerMut + CbObserver {
    fn set_read(&mut self, value: u32)
        ensures
            final(self).ring() == (Ring { read: value as int, ..old(self).ring() }),
            final(self).acts() == old(self).acts().push(Act::Change(final(self).ring())),
    {
        self.set_read_mut(value)
    }

    fn get_data(&mut self, offset: u32, data: &mut [u8])
        requires
            old(self).ring().valid(),
        ensures
            final(self).ring() == old(self).ring(),
            final(self).acts() == old(self).acts().push(
                Act::Read { cell: offset as int, bytes: final(data)@ },
            ),
            final(data)@.len() == old(data)@.len(),
            forall|i: int|
                0 <= i < old(data)@.len() && old(self).ring().holds(offset + i)
                    ==> #[trigger] final(data)@[i] == old(self).ring().data[offset + i],
    {
        self.get_data_mut(offset, data)
    }

    /// Takes unread bytes out of the queue, as many as `output` has room for, and returns how many
    /// that were. All of `output` is read from the cells, unless the queue was empty: its bytes behind
    /// the unread ones are overwritten too, with what cells hold that the other party may be writing
    /// to.
    fn pop(&mut self, output: &mut [u8]) -> (count: u32)
        requires
            old(self).ring().valid(),
        ensures
            pop_result::<Self>(
                old(self).ring(),
                final(self).ring(),
                old(output)@,
                final(output)@,
                count,
                old(self).acts(),
                final(self).acts(),
            ),
    {
        let capacity: u32 = self.get_capacity();
        proof {
            Self::peer_keeps_valid(old(self).ring(), self.ring());
        }
        let ghost first = self.ring();
        let write: u32 = self.get_write();
        proof {
            Self::peer_keeps_valid(first, self.ring());
            Self::peer_composes(old(self).ring(), first, self.ring());
        }
        let ghost seen = self.ring();
        let read: u32 = self.get_read();
        proof {
            Self::peer_keeps_valid(seen, self.ring());
            Self::peer_only_writes(seen, self.ring());
        }
        let ghost now = self.ring();

        if Self::empty(read, write) {
            proof {
                lemma_after_empty_pop(now);
                assert(self.acts() =~= old(self).acts() + Seq::<Act>::empty());
                vstd::arithmetic::div_mod::lemma_small_mod(0, (2 * seen.capacity()) as nat);
                assert(output@.take(0) =~= now.unread().take(0));
                assert(popped::<Self>(
                    old(self).ring(),
                    seen,
                    now,
                    self.ring(),
                    output@,
                    output@,
                    0,
                    old(self).acts(),
                    self.acts(),
                ));
            }
            return 0;
        }
        let size: u32 = Self::size(read, write, capacity);
        let asked: u32 = output.len() as u32;
        let count: u32 = if asked <= size {
            asked
        } else {
            size
        };
        let at: u32 = read % capacity;
        let first_read: u32 = if count <= capacity - at {
            count
        } else {
            capacity - at
        };
        proof {
            lemma_truncated(output@.len() as usize);
        }
        let ghost given = output@;
        let (head, tail) = output.split_at_mut(first_read as usize);
        self.get_data(at, head);
        self.get_data(0, tail);
        let ghost (head_bytes, tail_bytes) = (head@, tail@);
        self.set_read(wrap(read as i64 + count as i64, capacity));
        proof {
            let taken = output@;
            assert(taken =~= head_bytes + tail_bytes);
            lemma_distinct_indices(seen);
            assert forall|i: int| 0 <= i < count implies taken[i] == now.unread()[i] by {
                if i < first_read {
                    lemma_shift(read as int, i, capacity as int);
                    assert(now.holds((now.read + i) % now.capacity()));
                    assert(head_bytes[i] == now.data[at + i]);
                } else {
                    lemma_around(read as int, i, capacity as int);
                    assert(now.holds((now.read + i) % now.capacity()));
                    assert(tail_bytes[i - first_read] == now.data[0 + (i - first_read)]);
                }
            }
            assert(taken.take(count as int) =~= now.unread().take(count as int));
            assert(self.ring() =~= now.after_pop(count as int));
            assert(taken.take(first_read as int) =~= head_bytes);
            assert(taken.skip(first_read as int) =~= tail_bytes);
            assert(self.acts() =~= old(self).acts() + pop_acts(now, taken, count as int));
            assert(popped::<Self>(
                old(self).ring(),
                seen,
                now,
                self.ring(),
                given,
                taken,
                count,
                old(self).acts(),
                self.acts(),
            ));
        }
        count
    }

    /// Takes unread bytes out of the queue, as many as `output` has room for behind its first `done`
    /// bytes, and returns how much of it is filled then. What is popped step by step while the other
    /// party writes is there when that is all of it.
    fn pop_step(&mut self, output: &mut [u8], done: usize) -> (next: usize)
        requires
            old(self).ring().valid(),
            done <= old(output)@.len(),
        ensures
            done <= next <= old(output)@.len(),
            next - done <= u32::MAX,
            final(output)@.len() == old(output)@.len(),
            final(output)@.take(done as int) == old(output)@.take(done as int),
            pop_result::<Self>(
                old(self).ring(),
                final(self).ring(),
                old(output)@.skip(done as int),
                final(output)@.skip(done as int),
                (next - done) as u32,
                old(self).acts(),
                final(self).acts(),
            ),
    {
        let ghost given = output@;
        let ghost before = self.ring();
        let ghost acts = self.acts();
        let total: usize = output.len();
        let (head, rest) = output.split_at_mut(done);
        let ghost head_bytes = head@;
        let ghost asked = rest@;
        let count: u32 = self.pop(rest);
        let ghost rest_bytes = rest@;
        proof {
            assert(asked =~= given.skip(done as int));
            let (seen, now) = choose|seen: Ring, now: Ring| #[trigger]
                popped::<Self>(
                    before,
                    seen,
                    now,
                    self.ring(),
                    asked,
                    rest_bytes,
                    count,
                    acts,
                    self.acts(),
                );
            Self::peer_keeps_valid(before, seen);
            lemma_truncated((total - done) as usize);
            assert(output@ =~= head_bytes + rest_bytes);
            assert(output@.take(done as int) =~= given.take(done as int));
            assert(output@.skip(done as int) =~= rest_bytes);
        }
        done + count as usize
    }

    /// Fills `output`, for which there are enough unread bytes.
    fn pop_all(&mut self, output: &mut [u8])
        requires
            old(self).ring().valid(),
            old(output)@.len() <= old(self).ring().len(),
        ensures
            final(output)@ == old(self).ring().unread().take(old(output)@.len() as int),
            final(self).ring().valid(),
            drained::<Self>(
                old(self).ring(),
                final(self).ring(),
                final(output)@,
                old(self).acts(),
                final(self).acts(),
            ),
    {
        let ghost asked = output@.len() as int;
        let ghost before = self.ring();
        let ghost acts = self.acts();
        if output.len() > 0 {
            // The unread bytes are enough, so one pop fills the output.
            let count: u32 = self.pop(output);
            proof {
                let (seen, now) = choose|seen: Ring, now: Ring| #[trigger]
                    popped::<Self>(
                        before,
                        seen,
                        now,
                        self.ring(),
                        old(output)@,
                        output@,
                        count,
                        acts,
                        self.acts(),
                    );
                Self::peer_keeps_valid(before, seen);
                Self::peer_only_writes(before, seen);
                Self::peer_keeps_valid(seen, now);
                Self::peer_only_writes(seen, now);
                lemma_truncated(asked as usize);
                popping_takes_the_oldest(now, count as int);
                assert(output@ =~= output@.take(count as int));
                assert(before.unread().take(asked) =~= now.unread().take(asked)) by {
                    assert(forall|i: int|
                        0 <= i < before.unread().len() ==> #[trigger] before.unread()[i]
                            == seen.unread()[i]);
                    assert(forall|i: int|
                        0 <= i < seen.unread().len() ==> #[trigger] seen.unread()[i]
                            == now.unread()[i]);
                }
                Self::peer_composes(before, seen, now);
            }
        } else {
            proof {
                assert(output@ =~= before.unread().take(0));
                Self::peer_may_rest(before);
                lemma_after_empty_pop(before);
                assert(self.acts() =~= acts + Seq::<Act>::empty());
            }
        }
    }
}

impl<T: CbConsumerMut> CbConsumer for T {

}

/// What a pop does that counts `count` bytes and leaves `output`: the cells are read first, up to
/// their end and then from the first one on, into all of the output, and the read index is moved
/// last.
pub open spec fn pop_acts(now: Ring, output: Seq<u8>, count: int) -> Seq<Act> {
    let at = now.read % now.capacity();
    let first = least(count, now.capacity() - at);
    seq![
        Act::Read { cell: at, bytes: output.take(first) },
        Act::Read { cell: 0, bytes: output.skip(first) },
        Act::Change(now.after_pop(count)),
    ]
}

/// What a push does that counts `count` of the bytes of `input`: the bytes are written first, up to
/// the end of the cells and then from the first cell on, and the write index is moved last.
pub open spec fn push_acts(now: Ring, input: Seq<u8>, count: int) -> Seq<Act> {
    let at = now.write % now.capacity();
    let first = least(count, now.capacity() - at);
    let after = now.after_push(input, count);
    seq![
        Act::Change(Ring { data: bytes::overlay(now.data, at, input.take(first)), ..now }),
        Act::Change(Ring { data: after.data, ..now }),
        Act::Change(after),
    ]
}

/// Whether a queue was brought from `before` to `after` by appending `input` to its unread bytes,
/// with what the other party did before that.
pub open spec fn filled<T: CbObserverMut + ?Sized>(
    before: Ring,
    after: Ring,
    input: Seq<u8>,
    acts_before: Seq<Act>,
    acts_after: Seq<Act>,
) -> bool {
    exists|now: Ring| #[trigger]
        T::peer(before, now) && after == now.after_push(input, input.len() as int) && after.unread()
            == now.unread() + input && acts_after == acts_before + if input.len() == 0 {
            seq![]
        } else {
            push_acts(now, input, input.len() as int)
        }
}

/// Whether a queue was brought from `before` to `after` by popping bytes into all of `output`, with
/// what the other party did before that.
pub open spec fn drained<T: CbObserverMut + ?Sized>(
    before: Ring,
    after: Ring,
    output: Seq<u8>,
    acts_before: Seq<Act>,
    acts_after: Seq<Act>,
) -> bool {
    exists|now: Ring| #[trigger]
        T::peer(before, now) && after == now.after_pop(output.len() as int) && acts_after
            == acts_before + if output.len() == 0 {
            seq![]
        } else {
            pop_acts(now, output, output.len() as int)
        }
}

/// What a pop may do: `seen` is the queue when the write index was looked at, `now` when the bytes
/// were read.
pub open spec fn popped<T: CbObserverMut + ?Sized>(
    before: Ring,
    seen: Ring,
    now: Ring,
    after: Ring,
    output_before: Seq<u8>,
    output_after: Seq<u8>,
    count: u32,
    acts_before: Seq<Act>,
    acts_after: Seq<Act>,
) -> bool {
    &&& T::peer(before, seen)
    &&& T::peer(seen, now)
    &&& count == seen.pop_count(output_before.len() as usize)
    &&& after == now.after_pop(count as int)
    &&& output_after.len() == output_before.len()
    &&& output_after.take(count as int) == now.unread().take(count as int)
    &&& seen.len() == 0 ==> output_after == output_before
    &&& acts_after == acts_before + if seen.len() == 0 {
        seq![]
    } else {
        pop_acts(now, output_after, count as int)
    }
}

pub open spec fn pop_result<T: CbObserverMut + ?Sized>(
    before: Ring,
    after: Ring,
    output_before: Seq<u8>,
    output_after: Seq<u8>,
    count: u32,
    acts_before: Seq<Act>,
    acts_after: Seq<Act>,
) -> bool {
    exists|seen: Ring, now: Ring| #[trigger]
        popped::<T>(
            before,
            seen,
            now,
            after,
            output_before,
            output_after,
            count,
            acts_before,
            acts_after,
        )
}

/// Two different indices lie at least one byte apart.
proof fn lemma_distinct_indices(ring: Ring)
    requires
        ring.valid(),
        ring.read != ring.write,
    ensures
        ring.len() != 0,
{
    let m = 2 * ring.capacity();
    vstd::arithmetic::div_mod::lemma_small_mod(ring.read as nat, m as nat);
    vstd::arithmetic::div_mod::lemma_small_mod(ring.write as nat, m as nat);
    vstd::arithmetic::div_mod::lemma_mod_equivalence(ring.write, ring.read, m);
}

/// A pop hands out the oldest unread bytes and leaves the others, in their order.
pub proof fn popping_takes_the_oldest(ring: Ring, count: int)
    requires
        ring.valid(),
        0 <= count <= ring.len(),
    ensures
        ring.after_pop(count).valid(),
        ring.after_pop(count).capacity() == ring.capacity(),
        ring.after_pop(count).unread() == ring.unread().skip(count),
{
    let c = ring.capacity();
    let after = ring.after_pop(count);
    vstd::arithmetic::div_mod::lemma_mod_bound(ring.read + count, 2 * c);
    vstd::arithmetic::div_mod::lemma_mod_bound(ring.write - ring.read, 2 * c);
    vstd::arithmetic::div_mod::lemma_sub_mod_noop_right(ring.write, ring.read + count, 2 * c);
    let turns = (ring.write - ring.read) / (2 * c);
    vstd::arithmetic::div_mod::lemma_fundamental_div_mod(ring.write - ring.read, 2 * c);
    assert(ring.write - (ring.read + count) == turns * (2 * c) + (ring.len() - count))
        by (nonlinear_arith)
        requires
            ring.write - ring.read == (2 * c) * turns + ring.len(),
    ;
    vstd::arithmetic::div_mod::lemma_fundamental_div_mod_converse(
        ring.write - (ring.read + count),
        2 * c,
        turns,
        ring.len() - count,
    );
    assert(after.len() == ring.len() - count);
    assert forall|i: int| 0 <= i < after.len() implies after.unread()[i]
        == ring.unread()[i + count] by {
        let x = ring.read + count;
        vstd::arithmetic::div_mod::lemma_mod_mod(x, c, 2);
        assert(c * 2 == 2 * c);
        vstd::arithmetic::div_mod::lemma_add_mod_noop(after.read, i, c);
        vstd::arithmetic::div_mod::lemma_add_mod_noop(x, i, c);
        assert((after.read + i) % c == (x + i) % c);
    }
    assert(after.unread() =~= ring.unread().skip(count));
}

/// Bytes come out of a queue in the order in which they went in: what is pushed onto an empty queue
/// that has room for it is what the next pop of as many bytes hands out, and leaves the queue empty.
pub proof fn popping_gives_back_what_was_pushed(ring: Ring, input: Seq<u8>)
    requires
        ring.valid(),
        ring.len() == 0,
        input.len() <= ring.capacity(),
    ensures
        ring.after_push(input, input.len() as int).unread().take(input.len() as int) == input,
        ring.after_push(input, input.len() as int).after_pop(input.len() as int).len() == 0,
{
    pushing_appends(ring, input);
    let mid = ring.after_push(input, input.len() as int);
    assert(mid.unread() =~= input);
    assert(mid.unread().len() == mid.len());
    popping_takes_the_oldest(mid, input.len() as int);
    let end = mid.after_pop(input.len() as int);
    assert(end.unread().len() == end.len());
    assert(mid.unread().take(input.len() as int) =~= input);
}

/// Popping nothing changes nothing.
proof fn lemma_after_empty_pop(ring: Ring)
    requires
        ring.valid(),
    ensures
        ring.after_pop(0) == ring,
{
    vstd::arithmetic::div_mod::lemma_small_mod(ring.read as nat, (2 * ring.capacity()) as nat);
}

/// Pushing nothing changes nothing.
proof fn lemma_after_empty_push(ring: Ring, input: Seq<u8>)
    requires
        ring.valid(),
        input.len() == 0,
    ensures
        ring.after_push(input, 0) == ring,
        ring.unread() + input == ring.unread(),
{
    vstd::arithmetic::div_mod::lemma_small_mod(ring.write as nat, (2 * ring.capacity()) as nat);
    assert(ring.after_push(input, 0) =~= ring);
    assert(ring.unread() + input =~= ring.unread());
}

/// What a push may do: `seen` is the queue when the read index was looked at, `now` when the bytes
/// were written.
pub open spec fn pushed<T: CbObserverMut + ?Sized>(
    before: Ring,
    seen: Ring,
    now: Ring,
    after: Ring,
    input: Seq<u8>,
    count: u32,
    acts_before: Seq<Act>,
    acts_after: Seq<Act>,
) -> bool {
    &&& T::peer(before, seen)
    &&& T::peer(seen, now)
    &&& count == seen.push_count(input.len() as usize)
    &&& after == if seen.len() == seen.capacity() {
        now
    } else {
        now.after_push(input, count as int)
    }
    &&& acts_after == acts_before + if seen.len() == seen.capacity() {
        seq![]
    } else {
        push_acts(now, input, count as int)
    }
}

pub open spec fn push_result<T: CbObserverMut + ?Sized>(
    before: Ring,
    after: Ring,
    input: Seq<u8>,
    count: u32,
    acts_before: Seq<Act>,
    acts_after: Seq<Act>,
) -> bool {
    exists|seen: Ring, now: Ring| #[trigger]
        pushed::<T>(before, seen, now, after, input, count, acts_before, acts_after)
}

/// While a push writes its bytes nothing of what is unread changes, and only when all of them are in
/// place does the index tell the other party of them.
pub proof fn bytes_are_in_place_before_the_index_moves(now: Ring, input: Seq<u8>)
    requires
        now.valid(),
        input.len() <= now.capacity() - now.len(),
    ensures
        ({
            let acts = push_acts(now, input, input.len() as int);
            &&& acts.len() == 3
            &&& forall|i: int|
                0 <= i < 2 ==> {
                    &&& (#[trigger] acts[i]) is Change
                    &&& acts[i]->Change_0.read == now.read
                    &&& acts[i]->Change_0.write == now.write
                    &&& acts[i]->Change_0.unread() == now.unread()
                }
            &&& acts[2] is Change
            &&& acts[2]->Change_0.data == acts[1]->Change_0.data
            &&& acts[2]->Change_0.unread() == now.unread() + input
        }),
{
    let c = now.capacity();
    let n = input.len() as int;
    let acts = push_acts(now, input, n);
    let (r0, r1, r2) = (acts[0]->Change_0, acts[1]->Change_0, acts[2]->Change_0);
    let at = now.write % c;
    vstd::arithmetic::div_mod::lemma_mod_bound(now.write, c);
    vstd::arithmetic::div_mod::lemma_mod_bound(now.write - now.read, 2 * c);
    let first = least(n, c - at);
    let part = input.take(first);
    let partly = now.after_push(part, first);
    pushing_appends(now, input);
    pushing_appends(now, part);
    assert(part.take(first) =~= part);
    assert(part.skip(first) =~= seq![]);
    assert(r0.data =~= partly.data);
    assert forall|i: int| 0 <= i < now.len() implies #[trigger] r0.unread()[i]
        == now.unread()[i] by {
        assert(partly.unread().len() == now.len() + first);
        assert(partly.unread()[i] == (now.unread() + part)[i]);
        assert(partly.unread()[i] == partly.data[(now.read + i) % c]);
        assert(r0.capacity() == c);
        assert(r0.len() == now.len());
        assert(r0.unread()[i] == r0.data[(now.read + i) % c]);
    }
    assert(r0.unread() =~= now.unread());
    assert forall|i: int| 0 <= i < now.len() implies #[trigger] r1.unread()[i]
        == now.unread()[i] by {
        assert(r2.unread().len() == now.len() + n);
        assert(r2.unread()[i] == (now.unread() + input)[i]);
        assert(r2.unread()[i] == r2.data[(now.read + i) % c]);
        assert(r1.capacity() == c);
        assert(r1.len() == now.len());
        assert(r1.unread()[i] == r1.data[(now.read + i) % c]);
    }
    assert(r1.unread() =~= now.unread());
}

/// A pop reads all of its output from the cells before it moves the index, which tells the other
/// party that they are free.
pub proof fn cells_are_read_before_they_are_free(now: Ring, output: Seq<u8>, count: int)
    requires
        now.valid(),
        0 <= count <= now.len(),
        count <= output.len(),
    ensures
        ({
            let acts = pop_acts(now, output, count);
            &&& acts.len() == 3
            &&& acts[0] is Read && acts[0]->cell == now.read % now.capacity()
            &&& acts[1] is Read && acts[1]->cell == 0
            &&& acts[0]->bytes + acts[1]->bytes == output
            &&& acts[0]->cell + acts[0]->bytes.len() <= now.capacity()
            &&& acts[2] == Act::Change(now.after_pop(count))
        }),
{
    let at = now.read % now.capacity();
    let first = least(count, now.capacity() - at);
    vstd::arithmetic::div_mod::lemma_mod_bound(now.read, now.capacity());
    assert(output.take(first) + output.skip(first) =~= output);
}

/// A party that moves the read index only, and never past the write index, pops.
proof fn lemma_peer_pops(before: Ring, after: Ring)
    requires
        before.valid(),
        after.valid(),
        after.write == before.write,
        after.data == before.data,
        after.len() <= before.len(),
    ensures
        after == before.after_pop(before.len() - after.len()),
        after.unread() == before.unread().skip(before.len() - after.len()),
{
    let m = 2 * before.capacity();
    let count = before.len() - after.len();
    vstd::arithmetic::div_mod::lemma_mod_bound(before.write - before.read, m);
    vstd::arithmetic::div_mod::lemma_mod_bound(after.write - after.read, m);
    let turns = (before.write - before.read) / m;
    let other_turns = (after.write - after.read) / m;
    vstd::arithmetic::div_mod::lemma_fundamental_div_mod(before.write - before.read, m);
    vstd::arithmetic::div_mod::lemma_fundamental_div_mod(after.write - after.read, m);
    assert(before.read + count == (other_turns - turns) * m + after.read) by (nonlinear_arith)
        requires
            before.write - before.read == m * turns + before.len(),
            before.write - after.read == m * other_turns + after.len(),
            count == before.len() - after.len(),
    ;
    vstd::arithmetic::div_mod::lemma_fundamental_div_mod_converse(
        before.read + count,
        m,
        other_turns - turns,
        after.read,
    );
    popping_takes_the_oldest(before, count);
}

/// A queue at some point of a push or a pop that takes several steps.
pub struct Progress {
    pub ring: Ring,
    /// How many bytes are done.
    pub done: int,
    /// The bytes that are pushed, or those that are filled.
    pub bytes: Seq<u8>,
    pub acts: Seq<Act>,
}

/// Whether `after` follows `before` by one step of a pop.
pub open spec fn pop_follows<T: CbObserverMut + ?Sized>(before: Progress, after: Progress) -> bool {
    &&& before.done <= after.done <= before.bytes.len()
    &&& after.done - before.done <= u32::MAX
    &&& after.bytes.len() == before.bytes.len()
    &&& after.bytes.take(before.done) == before.bytes.take(before.done)
    &&& pop_result::<T>(
        before.ring,
        after.ring,
        before.bytes.skip(before.done),
        after.bytes.skip(before.done),
        (after.done - before.done) as u32,
        before.acts,
        after.acts,
    )
}

/// The bytes that were popped and those that still can be, in order.
pub open spec fn stream(progress: Progress) -> Seq<u8> {
    progress.bytes.take(progress.done) + progress.ring.unread()
}

/// One step of a pop keeps the stream of bytes: it only grows at its end, by what the other party
/// writes.
proof fn lemma_pop_step_keeps_the_stream<T: CbConsumerMut>(before: Progress, after: Progress)
    requires
        before.ring.valid(),
        0 <= before.done <= before.bytes.len(),
        pop_follows::<T>(before, after),
    ensures
        after.ring.valid(),
        stream(before).is_prefix_of(stream(after)),
{
    let count = (after.done - before.done) as u32;
    let asked = before.bytes.skip(before.done);
    let given = after.bytes.skip(before.done);
    let (seen, now) = choose|seen: Ring, now: Ring| #[trigger]
        popped::<T>(
            before.ring,
            seen,
            now,
            after.ring,
            asked,
            given,
            count,
            before.acts,
            after.acts,
        );
    T::peer_keeps_valid(before.ring, seen);
    T::peer_only_writes(before.ring, seen);
    T::peer_keeps_valid(seen, now);
    T::peer_only_writes(seen, now);
    assert(seen.unread().len() <= now.unread().len());
    vstd::arithmetic::div_mod::lemma_mod_bound(seen.write - seen.read, 2 * seen.capacity());
    popping_takes_the_oldest(now, count as int);
    let unread = now.unread();
    assert(after.bytes.take(after.done) =~= before.bytes.take(before.done) + unread.take(
        count as int,
    )) by {
        assert forall|i: int| 0 <= i < after.done implies after.bytes[i] == (before.bytes.take(
            before.done,
        ) + unread.take(count as int))[i] by {
            if i < before.done {
                assert(after.bytes.take(before.done)[i] == before.bytes.take(before.done)[i]);
            } else {
                assert(given.take(count as int)[i - before.done] == unread.take(
                    count as int,
                )[i - before.done]);
            }
        }
    }
    assert(stream(after) =~= before.bytes.take(before.done) + unread);
    assert(before.ring.unread().len() <= unread.len());
    assert forall|i: int| 0 <= i < before.ring.unread().len() implies before.ring.unread()[i]
        == unread[i] by {
        assert(before.ring.unread()[i] == seen.unread()[i]);
        assert(seen.unread()[i] == now.unread()[i]);
    }
    assert(stream(before) =~= stream(after).take(stream(before).len() as int));
}

/// A pop that is repeated until it has filled its output fills it with the oldest bytes, in order and
/// without a gap: what was unread at first, and then what the other party wrote meanwhile. What is
/// unread afterwards is what comes next.
pub proof fn repeated_pops_read_everything_in_order<T: CbConsumerMut>(steps: Seq<Progress>)
    requires
        steps.len() > 0,
        steps[0].ring.valid(),
        steps[0].done == 0,
        forall|i: int, j: int|
            0 <= i && j == i + 1 && j < steps.len() ==> pop_follows::<T>(
                #[trigger] steps[i],
                #[trigger] steps[j],
            ),
    ensures
        steps.last().ring.valid(),
        0 <= steps.last().done <= steps.last().bytes.len(),
        steps[0].ring.unread().is_prefix_of(stream(steps.last())),
        steps.last().bytes.take(steps.last().done).is_prefix_of(stream(steps.last())),
        steps.last().ring.unread() == stream(steps.last()).skip(steps.last().done),
    decreases steps.len(),
{
    let last = steps.last();
    if steps.len() > 1 {
        let earlier = steps.drop_last();
        repeated_pops_read_everything_in_order::<T>(earlier);
        assert(earlier.last() == steps[steps.len() - 2]);
        assert(pop_follows::<T>(steps[steps.len() - 2], steps[steps.len() - 1]));
        lemma_pop_step_keeps_the_stream::<T>(earlier.last(), last);
        let first = steps[0].ring.unread();
        let before = stream(earlier.last());
        let after = stream(last);
        assert forall|i: int| 0 <= i < first.len() implies first[i] == after[i] by {
            assert(first[i] == before[i]);
            assert(before[i] == after[i]);
        }
        assert(first =~= after.take(first.len() as int));
    } else {
        assert(stream(last) =~= last.ring.unread());
        assert(last.ring.unread() =~= stream(last).take(last.ring.unread().len() as int));
    }
    assert(last.bytes.take(last.done) =~= stream(last).take(last.done));
    assert(last.ring.unread() =~= stream(last).skip(last.done));
}

/// Whether `after` follows `before` by one step of a push.
pub open spec fn push_follows<T: CbObserverMut + ?Sized>(
    before: Progress,
    seen: Ring,
    now: Ring,
    after: Progress,
) -> bool {
    &&& before.done <= after.done <= before.bytes.len()
    &&& after.done - before.done <= u32::MAX
    &&& after.bytes == before.bytes
    &&& pushed::<T>(
        before.ring,
        seen,
        now,
        after.ring,
        before.bytes.skip(before.done),
        (after.done - before.done) as u32,
        before.acts,
        after.acts,
    )
}

/// Whether a step of a push found the queue full, or with room for all that was left to write.
pub open spec fn fits(before: Progress, seen: Ring) -> bool {
    ||| seen.len() == seen.capacity()
    ||| before.bytes.len() - before.done <= seen.capacity() - seen.len()
}

/// Whether `after` follows `before` by one step of a push that did not spoil anything.
pub open spec fn push_fits<T: CbObserverMut + ?Sized>(before: Progress, after: Progress) -> bool {
    exists|seen: Ring, now: Ring| #[trigger]
        push_follows::<T>(before, seen, now, after) && fits(before, seen)
}

/// Whether a text ends in another.
pub open spec fn ends_in(whole: Seq<u8>, end: Seq<u8>) -> bool {
    &&& end.len() <= whole.len()
    &&& whole.skip(whole.len() - end.len()) == end
}

/// One step of a push keeps the order of the unread bytes, but for those that the other party reads.
proof fn lemma_push_step_appends<T: CbProducerMut>(whole: Seq<u8>, before: Progress, after: Progress)
    requires
        before.ring.valid(),
        0 <= before.done <= before.bytes.len(),
        ends_in(whole, before.ring.unread()),
        push_fits::<T>(before, after),
    ensures
        after.ring.valid(),
        ends_in(whole + before.bytes.subrange(before.done, after.done), after.ring.unread()),
{
    let count = (after.done - before.done) as u32;
    let (seen, now) = choose|seen: Ring, now: Ring| #[trigger]
        push_follows::<T>(before, seen, now, after) && fits(before, seen);
    T::peer_keeps_valid(before.ring, seen);
    T::peer_only_reads(before.ring, seen);
    T::peer_keeps_valid(seen, now);
    T::peer_only_reads(seen, now);
    lemma_peer_pops(before.ring, seen);
    lemma_peer_pops(seen, now);
    let rest = before.bytes.skip(before.done);
    let written = before.bytes.subrange(before.done, after.done);
    vstd::arithmetic::div_mod::lemma_mod_bound(now.write - now.read, 2 * now.capacity());
    vstd::arithmetic::div_mod::lemma_mod_bound(seen.write - seen.read, 2 * seen.capacity());
    assert(ends_in(whole, now.unread())) by {
        let unread = before.ring.unread();
        assert(now.unread() =~= unread.skip(unread.len() - now.unread().len()));
        assert(whole.skip(whole.len() - now.unread().len()) =~= whole.skip(
            whole.len() - unread.len(),
        ).skip(unread.len() - now.unread().len()));
    }
    if seen.len() == seen.capacity() {
        assert(written =~= seq![]);
        assert(whole + written =~= whole);
    } else {
        assert(rest.len() == before.bytes.len() - before.done);
        lemma_truncated(rest.len() as usize);
        assert(count == rest.len());
        assert(written =~= rest);
        pushing_appends(now, rest);
        assert((whole + rest).skip(whole.len() + rest.len() - after.ring.unread().len())
            =~= whole.skip(whole.len() - now.unread().len()) + rest);
    }
}

/// A push that is repeated until it has written its input writes all of it, in order and without a
/// gap: what is unread then is the end of what was unread at first, followed by what was written; the
/// other party has read the rest. Every step finds the queue full or with room for all that is left,
/// as one that finds too little room spoils unread bytes.
pub proof fn repeated_pushes_write_everything_in_order<T: CbProducerMut>(steps: Seq<Progress>)
    requires
        steps.len() > 0,
        steps[0].ring.valid(),
        steps[0].done == 0,
        forall|i: int, j: int|
            0 <= i && j == i + 1 && j < steps.len() ==> push_fits::<T>(
                #[trigger] steps[i],
                #[trigger] steps[j],
            ),
    ensures
        steps.last().ring.valid(),
        0 <= steps.last().done <= steps[0].bytes.len(),
        steps.last().bytes == steps[0].bytes,
        ends_in(
            steps[0].ring.unread() + steps[0].bytes.take(steps.last().done),
            steps.last().ring.unread(),
        ),
    decreases steps.len(),
{
    let first = steps[0];
    let last = steps.last();
    if steps.len() > 1 {
        let earlier = steps.drop_last();
        repeated_pushes_write_everything_in_order::<T>(earlier);
        let before = earlier.last();
        assert(before == steps[steps.len() - 2]);
        assert(push_fits::<T>(steps[steps.len() - 2], steps[steps.len() - 1]));
        let whole = first.ring.unread() + first.bytes.take(before.done);
        lemma_push_step_appends::<T>(whole, before, last);
        assert(whole + first.bytes.subrange(before.done, last.done) =~= first.ring.unread()
            + first.bytes.take(last.done));
    } else {
        assert(first.ring.unread() + first.bytes.take(0) =~= first.ring.unread());
        assert(first.ring.unread().skip(0) =~= first.ring.unread());
    }
}

/// Adding to a number does not wrap as long as its remainder stays below the modulus.
proof fn lemma_shift(x: int, n: int, m: int)
    requires
        0 < m,
        0 <= n,
        x % m + n < m,
    ensures
        (x + n) % m == x % m + n,
{
    vstd::arithmetic::div_mod::lemma_mod_bound(x, m);
    vstd::arithmetic::div_mod::lemma_small_mod(n as nat, m as nat);
    vstd::arithmetic::div_mod::lemma_mod_adds(x, n, m);
}

/// Fewer than `capacity` steps on from a cell lies another cell.
proof fn lemma_other_cell(index: int, steps: int, capacity: int)
    requires
        0 < steps < capacity,
    ensures
        index % capacity != (index + steps) % capacity,
{
    vstd::arithmetic::div_mod::lemma_small_mod(steps as nat, capacity as nat);
    vstd::arithmetic::div_mod::lemma_mod_equivalence(index + steps, index, capacity);
}

/// Where a write index points into the cells, counted from the read index.
proof fn lemma_write_cell(ring: Ring, steps: int)
    requires
        ring.valid(),
        0 <= steps,
    ensures
        (ring.write + steps) % ring.capacity() == (ring.read + ring.len() + steps)
            % ring.capacity(),
{
    let c = ring.capacity();
    let turns = (ring.write - ring.read) / (2 * c);
    vstd::arithmetic::div_mod::lemma_fundamental_div_mod(ring.write - ring.read, 2 * c);
    assert((2 * c) * turns == c * (2 * turns)) by (nonlinear_arith);
    let x = ring.read + ring.len() + steps;
    assert(ring.write + steps == c * (2 * turns) + x);
    vstd::arithmetic::div_mod::lemma_mod_multiples_vanish(2 * turns, x, c);
}

/// A push of bytes that the queue has room for appends them to the unread bytes.
pub proof fn pushing_appends(ring: Ring, input: Seq<u8>)
    requires
        ring.valid(),
        input.len() <= ring.capacity() - ring.len(),
    ensures
        ring.after_push(input, input.len() as int).valid(),
        ring.after_push(input, input.len() as int).capacity() == ring.capacity(),
        ring.after_push(input, input.len() as int).unread() == ring.unread() + input,
{
    let c = ring.capacity();
    let n = input.len() as int;
    let after = ring.after_push(input, n);
    let at = ring.write % c;
    let first = least(n, c - at);
    vstd::arithmetic::div_mod::lemma_mod_bound(ring.write, c);
    vstd::arithmetic::div_mod::lemma_mod_bound(ring.write + n, 2 * c);
    vstd::arithmetic::div_mod::lemma_mod_bound(ring.write - ring.read, 2 * c);
    vstd::arithmetic::div_mod::lemma_small_mod(ring.read as nat, (2 * c) as nat);
    vstd::arithmetic::div_mod::lemma_sub_mod_noop(ring.write + n, ring.read, 2 * c);
    lemma_shift(ring.write - ring.read, n, 2 * c);
    assert(after.len() == ring.len() + n);
    assert forall|i: int| 0 <= i < after.len() implies after.unread()[i] == (ring.unread()
        + input)[i] by {
        let cell = (ring.read + i) % c;
        vstd::arithmetic::div_mod::lemma_mod_bound(ring.read + i, c);
        if i < ring.len() {
            // None of the written cells is this one.
            assert forall|j: int| 0 <= j < n implies cell != #[trigger] ((ring.write + j) % c) by {
                lemma_write_cell(ring, j);
                lemma_other_cell(ring.read + i, ring.len() + j - i, c);
            }
            if at <= cell < at + first {
                lemma_shift(ring.write, cell - at, c);
                assert((ring.write + (cell - at)) % c == cell);
            }
            if 0 <= cell < n - first {
                let j = c - at + cell;
                lemma_around(ring.write, j, c);
                assert((ring.write + j) % c == cell);
            }
        } else {
            let j = i - ring.len();
            lemma_write_cell(ring, j);
            if j < first {
                lemma_shift(ring.write, j, c);
            } else {
                lemma_around(ring.write, j, c);
            }
        }
    }
    assert(after.unread() =~= ring.unread() + input);
}

/// Adding to a number wraps once where its remainder runs past the modulus.
proof fn lemma_around(x: int, n: int, m: int)
    requires
        0 < m,
        0 <= n,
        m <= x % m + n < 2 * m,
    ensures
        (x + n) % m == x % m + n - m,
{
    let turns = x / m;
    vstd::arithmetic::div_mod::lemma_fundamental_div_mod(x, m);
    assert(x + n == (turns + 1) * m + (x % m + n - m)) by (nonlinear_arith)
        requires
            x == m * turns + x % m,
    ;
    vstd::arithmetic::div_mod::lemma_fundamental_div_mod_converse(
        x + n,
        m,
        turns + 1,
        x % m + n - m,
    );
}

/// Cutting a length down to its low bits does not make it larger.
proof fn lemma_truncated(len: usize)
    ensures
        (len as u32) as usize <= len,
        len <= u32::MAX ==> len as u32 == len,
{
    assert((len as u32) as usize <= len) by (bit_vector);
}

/// A queue in the memory of one process, whose indices nobody else moves.
pub struct LocalQueue {
    read: u32,
    write: u32,
    cells: Vec<u8>,
    acts: Ghost<Seq<Act>>,
}

impl LocalQueue {
    /// An empty queue of `capacity` cells.
    pub fn new(capacity: u32) -> (queue: Self)
        requires
            0 < capacity <= 0x8000_0000,
        ensures
            queue.ring().valid(),
            queue.ring().capacity() == capacity,
            queue.ring().len() == 0,
            queue.ring().read == 0,
            queue.ring().write == 0,
            queue.acts() == Seq::<Act>::empty(),
    {
        let queue = LocalQueue {
            read: 0,
            write: 0,
            cells: vec![0u8; capacity as usize],
            acts: Ghost(Seq::empty()),
        };
        proof {
            vstd::arithmetic::div_mod::lemma_small_mod(0, (2 * capacity) as nat);
        }
        queue
    }

    /// The queue whose indices and cells are these, if they are those of a queue.
    pub fn from_memory(read: u32, write: u32, cells: Vec<u8>) -> (queue: Option<Self>)
        ensures
            ({
                let ring = Ring { read: read as int, write: write as int, data: cells@ };
                match queue {
                    Some(queue) => {
                        &&& ring.valid()
                        &&& queue.ring() == ring
                        &&& queue.acts() == Seq::<Act>::empty()
                    },
                    None => !ring.valid(),
                }
            }),
    {
        if cells.len() == 0 || cells.len() > 0x8000_0000 {
            return None;
        }
        let capacity: u32 = cells.len() as u32;
        let circle: u64 = 2 * capacity as u64;
        if read as u64 >= circle || write as u64 >= circle {
            return None;
        }
        if wrap(write as i64 - read as i64, capacity) > capacity {
            return None;
        }
        Some(LocalQueue { read, write, cells, acts: Ghost(Seq::empty()) })
    }
}

impl CbObserverMut for LocalQueue {
    closed spec fn ring(&self) -> Ring {
        Ring { read: self.read as int, write: self.write as int, data: self.cells@ }
    }

    closed spec fn acts(&self) -> Seq<Act> {
        self.acts@
    }

    open spec fn peer(before: Ring, after: Ring) -> bool {
        before == after
    }

    proof fn peer_keeps_valid(before: Ring, after: Ring) {
    }

    proof fn peer_may_rest(ring: Ring) {
    }

    proof fn peer_composes(first: Ring, second: Ring, third: Ring) {
    }

    fn get_read_mut(&mut self) -> (value: u32) {
        self.read
    }

    fn get_write_mut(&mut self) -> (value: u32) {
        self.write
    }

    fn get_capacity_mut(&mut self) -> (value: u32) {
        self.cells.len() as u32
    }
}

impl CbProducerMut for LocalQueue {
    proof fn peer_only_reads(before: Ring, after: Ring) {
    }

    fn set_write_mut(&mut self, value: u32) {
        self.write = value;
        self.acts = Ghost(self.acts@.push(Act::Change(self.ring())));
    }

    fn set_data_mut(&mut self, offset: u32, value: &[u8]) {
        let ghost before = self.ring();
        let mut i: usize = 0;
        while i < value.len() && i < self.cells.len() && (offset as usize) < self.cells.len() - i
            invariant
                i <= value@.len(),
                i <= before.data.len(),
                self.acts == old(self).acts,
                self.read == before.read,
                self.write == before.write,
                self.cells@.len() == before.data.len(),
                forall|k: int|
                    0 <= k < self.cells@.len() ==> self.cells@[k] == (if offset <= k < offset + i {
                        value@[k - offset]
                    } else {
                        before.data[k]
                    }),
            decreases value@.len() - i,
        {
            let cell: usize = offset as usize + i;
            self.cells[cell] = value[i];
            i = i + 1;
        }
        assert(self.cells@ =~= bytes::overlay(before.data, offset as int, value@));
        self.acts = Ghost(self.acts@.push(Act::Change(self.ring())));
    }
}

impl CbConsumerMut for LocalQueue {
    proof fn peer_only_writes(before: Ring, after: Ring) {
        assert(after.unread() =~= before.unread());
        assert(before.unread() =~= before.unread().take(before.unread().len() as int));
    }

    fn set_read_mut(&mut self, value: u32) {
        self.read = value;
        self.acts = Ghost(self.acts@.push(Act::Change(self.ring())));
    }

    fn get_data_mut(&mut self, offset: u32, data: &mut [u8]) {
        let len: usize = data.len();
        let mut i: usize = 0;
        while i < len && i < self.cells.len() && (offset as usize) < self.cells.len() - i
            invariant
                i <= len,
                i <= self.cells@.len(),
                len == data@.len(),
                forall|k: int| 0 <= k < i ==> data@[k] == self.cells@[offset + k],
            decreases len - i,
        {
            data[i] = self.cells[offset as usize + i];
            i = i + 1;
        }
        self.acts = Ghost(
            self.acts@.push(Act::Read { cell: offset as int, bytes: data@ }),
        );
        proof {
            let ring = self.ring();
            assert forall|k: int| 0 <= k < len && ring.holds(offset + k) implies #[trigger] data@[k]
                == ring.data[offset + k] by {
                let j = choose|j: int|
                    0 <= j < ring.len() && #[trigger] ((ring.read + j) % ring.capacity()) == offset
                        + k;
                vstd::arithmetic::div_mod::lemma_mod_bound(ring.read + j, ring.capacity());
            }
        }
    }
}

} // verus!
