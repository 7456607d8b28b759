use vstd::prelude::*;

verus! {

/// Why an operation on a [`CircularBuffer`] was refused.
#[derive(Debug, Clone, Copy, PartialEq, Eq, Structural)]
pub enum BufferError {
    /// A single write found every slot taken.
    BufferFull,
    /// A single read or peek found no element.
    BufferEmpty,
    /// A bulk write asked for more slots than are free.
    InsufficientSpace,
    /// A bulk read or peek asked for more elements than are stored.
    InsufficientElements,
}

/// The slot `offset` places after `start` on a ring of `capacity` slots,
/// for `start < capacity` and `offset <= capacity`.
pub open spec fn ring_index(start: int, offset: int, capacity: int) -> int {
    if start + offset < capacity {
        start + offset
    } else {
        start + offset - capacity
    }
}

/// How many places slot `i` lies after `start` on a ring of `capacity` slots.
pub open spec fn ring_offset(start: int, i: int, capacity: int) -> int {
    if i >= start {
        i - start
    } else {
        i + capacity - start
    }
}

/// A first-in first-out buffer with a fixed number of slots.
pub struct CircularBuffer<T> {
    capacity: usize,
    buffer: Vec<Option<T>>,
    index_start: usize,
    index_next_free: usize,
    size: usize,
}

impl<T> View for CircularBuffer<T> {
    type V = Seq<T>;

    /// The stored elements, oldest first.
    closed spec fn view(&self) -> Seq<T> {
        Seq::new(
            self.size as nat,
            |k: int|
                self.buffer@[ring_index(self.index_start as int, k, self.capacity as int)]->Some_0,
        )
    }
}

impl<T: Clone> CircularBuffer<T> {
    /// The number of slots, fixed when the buffer is made.
    pub closed spec fn spec_capacity(&self) -> nat {
        self.capacity as nat
    }

    /// The slot of the oldest element.
    pub closed spec fn spec_start(&self) -> nat {
        self.index_start as nat
    }

    /// Slot `i` holds a live element.
    spec fn live(&self, i: int) -> bool {
        ring_offset(self.index_start as int, i, self.capacity as int) < self.size
    }

    /// The cursors stay on the ring, the window fits, and exactly the slots of
    /// the window hold an element.
    pub closed spec fn wf(&self) -> bool {
        &&& self.buffer@.len() == self.capacity
        &&& self.size <= self.capacity
        &&& (self.index_start < self.capacity || (self.capacity == 0 && self.index_start == 0))
        &&& self.index_next_free == ring_index(
            self.index_start as int,
            self.size as int,
            self.capacity as int,
        )
        &&& forall|i: int|
            0 <= i < self.capacity ==> (#[trigger] self.buffer@[i] is Some <==> self.live(i))
    }

    /// A buffer never holds more elements than it has slots, and one with at
    /// least one slot is never empty and full at once.
    pub proof fn lemma_empty_full(&self)
        requires
            self.wf(),
        ensures
            self@.len() <= self.spec_capacity(),
            self.spec_capacity() > 0 ==> !(self@.len() == 0 && self@.len() == self.spec_capacity()),
    {
    }

    /// Makes an empty buffer with `capacity` slots. A buffer of no slots is
    /// at once empty and full.
    pub fn new(capacity: usize) -> (r: Self)
        ensures
            r.wf(),
            r@ == Seq::<T>::empty(),
            r.spec_capacity() == capacity,
            r.spec_start() == 0,
    {
        let mut buffer: Vec<Option<T>> = Vec::with_capacity(capacity);
        let mut i: usize = 0;
        while i < capacity
            invariant
                i <= capacity,
                buffer@.len() == i,
                forall|j: int| 0 <= j < i ==> #[trigger] buffer@[j] is None,
            decreases capacity - i,
        {
            buffer.push(None);
            i = i + 1;
        }
        let r = CircularBuffer { capacity, buffer, index_start: 0, index_next_free: 0, size: 0 };
        assert(r@ =~= Seq::<T>::empty());
        r
    }

    /// The slot after `index`, going back to the first after the last.
    fn increase_index(&self, index: usize) -> (r: usize)
        requires
            index < self.capacity,
        ensures
            r == ring_index(index as int, 1, self.capacity as int),
    {
        if index == self.capacity - 1 {
            0
        } else {
            index + 1
        }
    }

    /// The number of stored elements.
    pub fn size(&self) -> (r: usize)
        requires
            self.wf(),
        ensures
            r == self@.len(),
    {
        self.size
    }

    /// The number of slots.
    pub fn capacity(&self) -> (r: usize)
        ensures
            r == self.spec_capacity(),
    {
        self.capacity
    }

    /// Whether no element is stored.
    pub fn is_empty(&self) -> (r: bool)
        requires
            self.wf(),
        ensures
            r == (self@.len() == 0),
    {
        self.size == 0
    }

    /// Whether every slot holds an element.
    pub fn is_full(&self) -> (r: bool)
        requires
            self.wf(),
        ensures
            r == (self@.len() == self.spec_capacity()),
    {
        self.size == self.capacity
    }

    /// Appends `value` after the newest element; refused, with the buffer
    /// left as it was, when every slot is taken.
    pub fn write(&mut self, value: T) -> (r: Result<(), BufferError>)
        requires
            old(self).wf(),
        ensures
            final(self).wf(),
            final(self).spec_capacity() == old(self).spec_capacity(),
            if old(self)@.len() == old(self).spec_capacity() {
                r == Err::<(), BufferError>(BufferError::BufferFull) && *final(self) == *old(self)
            } else {
                &&& r == Ok::<(), BufferError>(())
                &&& final(self)@ == old(self)@.push(value)
                &&& final(self).spec_start() == old(self).spec_start()
            },
    {
        if !self.is_full() {
            let ghost before = self@;
            let idx = self.index_next_free;
            self.buffer.set(idx, Some(value));
            self.index_next_free = self.increase_index(idx);
            self.size = self.size + 1;
            assert(self@ =~= before.push(value));
            Ok(())
        } else {
            Err(BufferError::BufferFull)
        }
    }

    /// Removes and returns the oldest element; refused, with the buffer left
    /// as it was, when no element is stored.
    pub fn read(&mut self) -> (r: Result<T, BufferError>)
        requires
            old(self).wf(),
        ensures
            final(self).wf(),
            final(self).spec_capacity() == old(self).spec_capacity(),
            if old(self)@.len() == 0 {
                r == Err::<T, BufferError>(BufferError::BufferEmpty) && *final(self) == *old(self)
            } else {
                &&& r == Ok::<T, BufferError>(old(self)@[0])
                &&& final(self)@ == old(self)@.drop_first()
                &&& final(self).spec_start() == ring_index(
                    old(self).spec_start() as int,
                    1,
                    old(self).spec_capacity() as int,
                )
            },
    {
        if !self.is_empty() {
            let ghost before = self@;
            let idx = self.index_start;
            let mut taken: Option<T> = None;
            self.buffer.set_and_swap(idx, &mut taken);
            self.index_start = self.increase_index(idx);
            self.size = self.size - 1;
            assert(self@ =~= before.drop_first());
            Ok(taken.unwrap())
        } else {
            Err(BufferError::BufferEmpty)
        }
    }

    /// The oldest element, left in place; refused when no element is stored.
    pub fn peek(&self) -> (r: Result<&T, BufferError>)
        requires
            self.wf(),
        ensures
            if self@.len() == 0 {
                r == Err::<&T, BufferError>(BufferError::BufferEmpty)
            } else {
                r == Ok::<&T, BufferError>(&self@[0])
            },
    {
        if !self.is_empty() {
            Ok(self.buffer[self.index_start].as_ref().unwrap())
        } else {
            Err(BufferError::BufferEmpty)
        }
    }
    /// Appends clones of `values`, in order; refused, with the buffer left as
    /// it was, when fewer slots are free than `values` holds.
    pub fn write_many(&mut self, values: &[T]) -> (r: Result<(), BufferError>)
        requires
            old(self).wf(),
        ensures
            final(self).wf(),
            final(self).spec_capacity() == old(self).spec_capacity(),
            if values@.len() > old(self).spec_capacity() - old(self)@.len() {
                r == Err::<(), BufferError>(BufferError::InsufficientSpace) && *final(self) == *old(
                    self,
                )
            } else {
                &&& r == Ok::<(), BufferError>(())
                &&& final(self)@.len() == old(self)@.len() + values@.len()
                &&& forall|k: int|
                    0 <= k < old(self)@.len() ==> #[trigger] final(self)@[k] == old(self)@[k]
                &&& forall|k: int|
                    0 <= k < values@.len() ==> cloned(
                        values@[k],
                        #[trigger] final(self)@[old(self)@.len() + k],
                    )
            },
    {
        if values.len() > self.capacity - self.size() {
            return Err(BufferError::InsufficientSpace);
        }
        let ghost before = self@;
        let mut i: usize = 0;
        while i < values.len()
            invariant
                self.wf(),
                self.spec_capacity() == old(self).spec_capacity(),
                before == old(self)@,
                values@.len() <= self.spec_capacity() - before.len(),
                i <= values@.len(),
                self@.len() == before.len() + i,
                forall|k: int| 0 <= k < before.len() ==> #[trigger] self@[k] == before[k],
                forall|k: int|
                    0 <= k < i ==> cloned(values@[k], #[trigger] self@[before.len() + k]),
            decreases values@.len() - i,
        {
            self.write(values[i].clone())?;
            i = i + 1;
        }
        Ok(())
    }

    /// Removes and returns the `amount` oldest elements, oldest first;
    /// refused, with the buffer left as it was, when fewer are stored.
    pub fn read_many(&mut self, amount: usize) -> (r: Result<Vec<T>, BufferError>)
        requires
            old(self).wf(),
        ensures
            final(self).wf(),
            final(self).spec_capacity() == old(self).spec_capacity(),
            if amount > old(self)@.len() {
                r == Err::<Vec<T>, BufferError>(BufferError::InsufficientElements) && *final(self)
                    == *old(self)
            } else {
                &&& r is Ok
                &&& r->Ok_0@ == old(self)@.take(amount as int)
                &&& final(self)@ == old(self)@.skip(amount as int)
            },
    {
        if amount > self.size() {
            return Err(BufferError::InsufficientElements);
        }
        let ghost before = self@;
        let mut out: Vec<T> = Vec::with_capacity(amount);
        let mut i: usize = 0;
        while i < amount
            invariant
                self.wf(),
                self.spec_capacity() == old(self).spec_capacity(),
                before == old(self)@,
                amount <= before.len(),
                i <= amount,
                out@ == before.take(i as int),
                self@ == before.skip(i as int),
            decreases amount - i,
        {
            let v = self.read()?;
            out.push(v);
            i = i + 1;
            assert(out@ =~= before.take(i as int));
            assert(self@ =~= before.skip(i as int));
        }
        Ok(out)
    }

    /// Clones of the `amount` oldest elements, oldest first, with the buffer
    /// left as it was; refused when fewer are stored.
    pub fn peek_many(&self, amount: usize) -> (r: Result<Vec<T>, BufferError>)
        requires
            self.wf(),
        ensures
            if amount > self@.len() {
                r == Err::<Vec<T>, BufferError>(BufferError::InsufficientElements)
            } else {
                &&& r is Ok
                &&& r->Ok_0@.len() == amount
                &&& forall|k: int| 0 <= k < amount ==> cloned(self@[k], #[trigger] r->Ok_0@[k])
            },
    {
        if amount > self.size() {
            return Err(BufferError::InsufficientElements);
        }
        let mut out: Vec<T> = Vec::with_capacity(amount);
        let mut index = self.index_start;
        let mut i: usize = 0;
        while i < amount
            invariant
                self.wf(),
                amount <= self@.len(),
                i <= amount,
                i < amount ==> index == ring_index(
                    self.index_start as int,
                    i as int,
                    self.capacity as int,
                ),
                out@.len() == i,
                forall|k: int| 0 <= k < i ==> cloned(self@[k], #[trigger] out@[k]),
            decreases amount - i,
        {
            out.push(self.buffer[index].as_ref().unwrap().clone());
            if i + 1 < amount {
                index = self.increase_index(index);
            }
            i = i + 1;
        }
        Ok(out)
    }

    /// Removes every element, one read at a time, so that each is dropped.
    pub fn clear(&mut self)
        requires
            old(self).wf(),
        ensures
            final(self).wf(),
            final(self).spec_capacity() == old(self).spec_capacity(),
            final(self)@.len() == 0,
    {
        while !self.is_empty()
            invariant
                self.wf(),
                self.spec_capacity() == old(self).spec_capacity(),
            decreases self@.len(),
        {
            self.read().unwrap();
        }
    }

    /// The slot of the oldest element.
    pub fn index_start(&self) -> (r: usize)
        ensures
            r == self.spec_start(),
    {
        self.index_start
    }

    /// The slot that the next write fills.
    pub fn index_next_free(&self) -> (r: usize)
        requires
            self.wf(),
        ensures
            r == ring_index(
                self.spec_start() as int,
                self@.len() as int,
                self.spec_capacity() as int,
            ),
    {
        self.index_next_free
    }

    /// What slot `i` holds: the element that lies there when the slot is in
    /// the live window, else nothing.
    pub fn slot(&self, i: usize) -> (r: Option<&T>)
        requires
            self.wf(),
            i < self.spec_capacity(),
        ensures
            ({
                let off = ring_offset(self.spec_start() as int, i as int, self.spec_capacity() as int);
                r == if off < self@.len() {
                    Some(&self@[off])
                } else {
                    None::<&T>
                }
            }),
    {
        self.buffer[i].as_ref()
    }
}

} // verus!
