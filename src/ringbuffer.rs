use vstd::prelude::*;

verus! {

/// `x` folded once into `[0, capacity)`.
pub open spec fn wrap(x: int, capacity: int) -> int {
    if x < capacity {
        x
    } else {
        x - capacity
    }
}

/// Fixed-capacity circular buffer; writing to a full buffer overwrites the
/// oldest item.
pub struct RingBuffer<T> {
    empty: bool,
    write_idx: usize,
    read_idx: usize,
    capacity: usize,
    items: Vec<T>,
}

impl<T: Copy> RingBuffer<T> {
    /// Number of items held.
    pub closed spec fn spec_size(&self) -> nat {
        if self.empty {
            0
        } else if self.read_idx < self.write_idx {
            (self.write_idx - self.read_idx) as nat
        } else {
            (self.capacity - self.read_idx + self.write_idx) as nat
        }
    }

    /// The items, oldest first.
    pub closed spec fn view(&self) -> Seq<T> {
        Seq::new(self.spec_size(), |i: int| self.items@[wrap(self.read_idx + i, self.capacity as int)])
    }

    /// Number of items the buffer can hold.
    pub closed spec fn spec_capacity(&self) -> nat {
        self.capacity as nat
    }

    pub closed spec fn wf(&self) -> bool {
        &&& self.capacity > 0
        &&& self.items@.len() == self.capacity
        &&& self.read_idx < self.capacity
        &&& self.write_idx < self.capacity
        &&& self.empty ==> self.read_idx == self.write_idx
    }

    /// A well-formed buffer holds at most its capacity, which is positive.
    pub proof fn lemma_wf(&self)
        requires
            self.wf(),
        ensures
            self.view().len() <= self.spec_capacity(),
            self.spec_capacity() > 0,
    {
    }

    /// An empty buffer of `capacity` slots.
    pub fn new(capacity: usize) -> (r: Self)
        where
            T: Default,
        requires
            capacity > 0,
        ensures
            r.wf(),
            r.view() == Seq::<T>::empty(),
            r.spec_capacity() == capacity,
    {
        let mut items: Vec<T> = Vec::with_capacity(capacity);
        let mut i: usize = 0;
        while i < capacity
            invariant
                items@.len() == i,
                i <= capacity,
            decreases capacity - i,
        {
            items.push(T::default());
            i = i + 1;
        }
        let r = RingBuffer { empty: true, write_idx: 0, read_idx: 0, capacity, items };
        assert(r.view() =~= Seq::<T>::empty());
        r
    }

    /// Appends `item`; a full buffer drops its oldest item to make room.
    pub fn write(&mut self, item: T)
        requires
            old(self).wf(),
        ensures
            final(self).wf(),
            final(self).spec_capacity() == old(self).spec_capacity(),
            final(self).view().len() <= final(self).spec_capacity(),
            final(self).view() == if old(self).view().len() == old(self).spec_capacity() {
                old(self).view().drop_first().push(item)
            } else {
                old(self).view().push(item)
            },
    {
        let ghost before = self.view();
        let ghost full = before.len() == self.capacity;
        if self.write_idx == self.read_idx && !self.empty {
            self.read_idx = if self.read_idx + 1 == self.capacity { 0 } else { self.read_idx + 1 };
        }
        self.empty = false;
        let w = self.write_idx;
        self.items.set(w, item);
        self.write_idx = if w + 1 == self.capacity { 0 } else { w + 1 };
        proof {
            let after = self.view();
            if full {
                assert(after =~= before.drop_first().push(item));
            } else {
                assert(after =~= before.push(item));
            }
        }
    }

    /// Appends a copy of `item`; a full buffer drops its oldest item.
    pub fn write_clone(&mut self, item: &T)
        requires
            old(self).wf(),
        ensures
            final(self).wf(),
            final(self).spec_capacity() == old(self).spec_capacity(),
            final(self).view().len() <= final(self).spec_capacity(),
            final(self).view() == if old(self).view().len() == old(self).spec_capacity() {
                old(self).view().drop_first().push(*item)
            } else {
                old(self).view().push(*item)
            },
    {
        self.write(*item);
    }

    /// Takes the oldest item; none when empty.
    pub fn read(&mut self) -> (r: Option<T>)
        requires
            old(self).wf(),
        ensures
            final(self).wf(),
            final(self).spec_capacity() == old(self).spec_capacity(),
            old(self).view().len() == 0 ==> r is None && final(self).view() == old(self).view(),
            old(self).view().len() > 0 ==> r == Some(old(self).view()[0]) && final(self).view() == old(self).view().drop_first(),
    {
        if self.empty {
            return None;
        }
        let ghost before = self.view();
        let item = self.items[self.read_idx];
        self.read_idx = if self.read_idx + 1 == self.capacity { 0 } else { self.read_idx + 1 };
        self.empty = self.read_idx == self.write_idx;
        proof {
            assert(self.view() =~= before.drop_first());
        }
        Some(item)
    }

    /// The oldest item, left in place; none when empty.
    pub fn peek(&self) -> (r: Option<&T>)
        requires
            self.wf(),
        ensures
            self.view().len() == 0 ==> r is None,
            self.view().len() > 0 ==> r == Some(&self.view()[0]),
    {
        if self.empty {
            return None;
        }
        Some(&self.items[self.read_idx])
    }

    /// The oldest item, left in place for update; none when empty.
    pub fn peek_mut(&mut self) -> (r: Option<&mut T>)
        requires
            old(self).wf(),
        ensures
            old(self).view().len() == 0 ==> r is None,
            old(self).view().len() > 0 ==> r is Some && *r.unwrap() == old(self).view()[0],
            final(self).wf(),
            final(self).spec_capacity() == old(self).spec_capacity(),
            r is None ==> final(self).view() == old(self).view(),
            r matches Some(e) ==> final(self).view() == old(self).view().update(0, *final(e)),
    {
        if self.empty {
            return None;
        }
        let i = self.read_idx;
        let e = &mut self.items[i];
        Some(e)
    }

    /// Empties the buffer; its slots stay allocated.
    pub fn reset(&mut self)
        requires
            old(self).wf(),
        ensures
            final(self).wf(),
            final(self).spec_capacity() == old(self).spec_capacity(),
            final(self).view() == Seq::<T>::empty(),
    {
        self.write_idx = 0;
        self.read_idx = 0;
        self.empty = true;
        assert(self.view() =~= Seq::<T>::empty());
    }

    pub fn capacity(&self) -> (r: usize)
        ensures
            r == self.spec_capacity(),
    {
        self.capacity
    }

    /// Number of items held.
    pub fn size(&self) -> (r: usize)
        requires
            self.wf(),
        ensures
            r == self.view().len(),
    {
        if self.empty {
            return 0;
        }
        if self.read_idx < self.write_idx {
            self.write_idx - self.read_idx
        } else {
            self.capacity - self.read_idx + self.write_idx
        }
    }

    pub fn is_empty(&self) -> (r: bool)
        requires
            self.wf(),
        ensures
            r == (self.view().len() == 0),
    {
        self.empty
    }
}

} // verus!
