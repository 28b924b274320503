use vstd::prelude::*;
use crate::math_util::{next_multiple, round_to_next_multiple, round_to_previous_multiple};
use crate::virtual_mem::{PAGE_SIZE, RESERVATION_BASE};

verus! {

/// Elements the first grow makes room for.
pub const INITIAL_GROW_AMOUNT: usize = 8;

/// Bytes of address space each vector reserves.
pub const MAX_VECTOR_CAPACITY: usize = 1073741824;

/// Growable array over a fixed reservation of address space: element `i`
/// keeps the address `base + i * size` of the reservation for its whole life,
/// and pages of the reservation are committed as the array grows.
pub struct Vector<T> {
    items: Vec<T>,
    element_size: usize,
    committed: usize,
    capacity: usize,
}

impl<T> Vector<T> {
    /// The elements.
    pub closed spec fn view(&self) -> Seq<T> {
        self.items@
    }

    pub closed spec fn spec_capacity(&self) -> nat {
        self.capacity as nat
    }

    /// Bytes committed so far.
    pub closed spec fn spec_committed(&self) -> nat {
        self.committed as nat
    }

    /// Bytes of one element.
    pub closed spec fn spec_element_size(&self) -> nat {
        self.element_size as nat
    }

    /// Bytes the next grow commits when asked for `bytes` more.
    pub open spec fn grow_by(&self, bytes: nat) -> nat {
        let page_bytes = next_multiple(bytes, PAGE_SIZE as nat);
        if self.spec_committed() + page_bytes <= MAX_VECTOR_CAPACITY {
            page_bytes
        } else {
            let remaining = (MAX_VECTOR_CAPACITY - self.spec_committed()) as nat;
            (remaining - remaining % (PAGE_SIZE as nat)) as nat
        }
    }

    /// Capacity after a grow by `bytes`: the elements that fit in the
    /// committed bytes.
    pub open spec fn capacity_after_grow(&self, bytes: nat) -> nat {
        (self.spec_committed() + self.grow_by(bytes)) / self.spec_element_size()
    }

    /// Elements a push on a full vector makes room for: twice the capacity,
    /// and never fewer than the initial grow amount.
    pub open spec fn push_grow_count(&self) -> nat {
        if 2 * self.spec_capacity() > INITIAL_GROW_AMOUNT {
            2 * self.spec_capacity()
        } else {
            INITIAL_GROW_AMOUNT as nat
        }
    }

    /// Bytes a push asks for when the vector is full: room for
    /// `push_grow_count` more elements, within the reservation.
    pub open spec fn push_grow_bytes(&self) -> nat {
        let count = self.push_grow_count();
        if count * self.spec_element_size() > MAX_VECTOR_CAPACITY {
            MAX_VECTOR_CAPACITY as nat
        } else {
            count * self.spec_element_size()
        }
    }

    /// Capacity after a push.
    pub open spec fn capacity_after_push(&self) -> nat {
        if self.view().len() == self.spec_capacity() {
            self.capacity_after_grow(self.push_grow_bytes())
        } else {
            self.spec_capacity()
        }
    }

    /// Capacity after making room for `n` elements.
    pub open spec fn capacity_for(&self, n: nat) -> nat {
        if n <= self.spec_capacity() {
            self.spec_capacity()
        } else {
            self.capacity_after_grow(((n - self.spec_capacity()) * self.spec_element_size()) as nat)
        }
    }

    /// Most elements the reservation can hold.
    pub open spec fn max_elements(&self) -> nat {
        MAX_VECTOR_CAPACITY as nat / self.spec_element_size()
    }

    /// Address that element `i` has in the reservation model: the same
    /// formula for every vector, which says where the element sits in the
    /// reservation and nothing about where its value is stored in process
    /// memory.
    pub open spec fn spec_element_address(&self, i: nat) -> nat {
        (RESERVATION_BASE + i * self.spec_element_size()) as nat
    }

    pub closed spec fn wf(&self) -> bool {
        &&& self.element_size > 0
        &&& self.items@.len() <= self.capacity
        &&& self.capacity == self.committed / self.element_size
        &&& self.committed <= MAX_VECTOR_CAPACITY
        &&& self.committed % PAGE_SIZE == 0
    }

    /// What a well-formed vector says of its counts: the elements fit in the
    /// capacity, which is what the committed bytes hold, and the capacity
    /// never passes what the reservation can hold.
    pub proof fn lemma_wf(&self)
        requires
            self.wf(),
        ensures
            self.spec_element_size() > 0,
            self.view().len() <= self.spec_capacity(),
            self.spec_capacity() == self.spec_committed() / self.spec_element_size(),
            self.spec_committed() <= MAX_VECTOR_CAPACITY,
            self.spec_capacity() <= self.max_elements(),
    {
        vstd::arithmetic::div_mod::lemma_div_is_ordered(self.committed as int, MAX_VECTOR_CAPACITY as int, self.element_size as int);
    }

    /// A grow asked for room for `n - capacity` more elements makes room for
    /// at least `n`, as long as the reservation can hold `n`.
    proof fn lemma_grow_enough(&self, bytes: nat, n: nat)
        requires
            self.wf(),
            self.spec_capacity() < n <= self.max_elements(),
            (n - self.spec_capacity()) * self.spec_element_size() <= bytes,
        ensures
            self.capacity_after_grow(bytes) >= n,
            self.spec_committed() + self.grow_by(bytes) <= MAX_VECTOR_CAPACITY,
            (self.spec_committed() + self.grow_by(bytes)) % (PAGE_SIZE as nat) == 0,
    {
        let e = self.element_size as int;
        let c = self.committed as int;
        let cap = self.capacity as int;
        let page = next_multiple(bytes, PAGE_SIZE as nat) as int;
        vstd::arithmetic::div_mod::lemma_fundamental_div_mod(c, e);
        assert(page >= bytes && page % 4096 == 0) by (nonlinear_arith)
            requires
                page == if bytes % 4096 == 0 { bytes as int } else { bytes - bytes % 4096 + 4096 },
        ;
        let after = c + self.grow_by(bytes) as int;
        if c + page <= MAX_VECTOR_CAPACITY {
            assert(after >= n * e) by (nonlinear_arith)
                requires
                    after == c + page,
                    page >= bytes,
                    bytes >= (n - cap) * e,
                    c >= e * cap,
                    n > cap,
            ;
            assert(after % 4096 == 0) by (nonlinear_arith)
                requires
                    after == c + page,
                    page % 4096 == 0,
                    c % 4096 == 0,
            ;
            let q = after / e;
            vstd::arithmetic::div_mod::lemma_fundamental_div_mod(after, e);
            assert(q >= n) by (nonlinear_arith)
                requires
                    after == e * q + after % e,
                    after % e < e,
                    after >= n * e,
                    e > 0,
            ;
        } else {
            let rem = MAX_VECTOR_CAPACITY - c;
            assert(rem % 4096 == 0) by (nonlinear_arith)
                requires
                    rem == 1073741824 - c,
                    c % 4096 == 0,
            ;
            assert(after == MAX_VECTOR_CAPACITY);
        }
    }

    /// An empty vector with its address space reserved and nothing committed.
    pub fn new() -> (r: Self)
        requires
            vstd::layout::size_of::<T>() > 0,
        ensures
            r.wf(),
            r.view() == Seq::<T>::empty(),
            r.spec_capacity() == 0,
            r.spec_committed() == 0,
            r.spec_element_size() == vstd::layout::size_of::<T>(),
    {
        let element_size = core::mem::size_of::<T>();
        Vector { items: Vec::new(), element_size, committed: 0, capacity: 0 }
    }

    /// Commits pages for `bytes` more bytes, or what is left of the
    /// reservation when that is less.
    fn grow(&mut self, bytes: usize)
        requires
            old(self).wf(),
            bytes <= MAX_VECTOR_CAPACITY,
        ensures
            final(self).wf(),
            final(self).view() == old(self).view(),
            final(self).spec_element_size() == old(self).spec_element_size(),
            final(self).spec_committed() == old(self).spec_committed() + old(self).grow_by(bytes as nat),
            final(self).spec_capacity() == old(self).capacity_after_grow(bytes as nat),
    {
        let page_bytes = round_to_next_multiple(bytes, PAGE_SIZE);
        let grow_by: usize = if page_bytes <= MAX_VECTOR_CAPACITY - self.committed {
            page_bytes
        } else {
            round_to_previous_multiple(MAX_VECTOR_CAPACITY - self.committed, PAGE_SIZE)
        };
        proof {
            let c = self.committed as int;
            if page_bytes > MAX_VECTOR_CAPACITY - self.committed {
                let rem = MAX_VECTOR_CAPACITY - c;
                assert(rem % 4096 == 0) by (nonlinear_arith)
                    requires
                        rem == 1073741824 - c,
                        c % 4096 == 0,
                ;
            } else {
                assert((c + page_bytes) % 4096 == 0) by (nonlinear_arith)
                    requires
                        page_bytes % 4096 == 0,
                        c % 4096 == 0,
                ;
            }
            vstd::arithmetic::div_mod::lemma_div_is_ordered(c, c + grow_by, self.element_size as int);
        }
        self.committed = self.committed + grow_by;
        self.capacity = self.committed / self.element_size;
    }

    /// Appends `item`, growing first when full.
    pub fn push(&mut self, item: T)
        requires
            old(self).wf(),
            old(self).view().len() < old(self).max_elements(),
        ensures
            final(self).wf(),
            final(self).view() == old(self).view().push(item),
            final(self).spec_capacity() == old(self).capacity_after_push(),
            final(self).view().len() <= final(self).spec_capacity(),
            final(self).spec_element_size() == old(self).spec_element_size(),
    {
        if self.items.len() == self.capacity {
            let count: usize = if self.capacity > INITIAL_GROW_AMOUNT / 2 {
                proof {
                    assert(self.capacity <= self.capacity * self.element_size) by (nonlinear_arith)
                        requires
                            self.element_size >= 1,
                    ;
                }
                2 * self.capacity
            } else {
                INITIAL_GROW_AMOUNT
            };
            let bytes: usize = if count > MAX_VECTOR_CAPACITY / self.element_size {
                proof {
                    assert(count * self.element_size > MAX_VECTOR_CAPACITY) by (nonlinear_arith)
                        requires
                            count > MAX_VECTOR_CAPACITY as int / self.element_size as int,
                            self.element_size > 0,
                    ;
                }
                MAX_VECTOR_CAPACITY
            } else {
                proof {
                    assert(count * self.element_size <= MAX_VECTOR_CAPACITY) by (nonlinear_arith)
                        requires
                            count <= MAX_VECTOR_CAPACITY as int / self.element_size as int,
                            self.element_size > 0,
                    ;
                }
                count * self.element_size
            };
            proof {
                assert(self.element_size <= MAX_VECTOR_CAPACITY) by (nonlinear_arith)
                    requires
                        self.items@.len() < MAX_VECTOR_CAPACITY as int / self.element_size as int,
                        self.element_size > 0,
                ;
                assert(count * self.element_size >= self.element_size) by (nonlinear_arith)
                    requires
                        count >= 1,
                        self.element_size > 0,
                ;
                assert(bytes >= self.element_size);
                assert(((self.capacity + 1) - self.capacity) * self.element_size == self.element_size) by (nonlinear_arith);
                self.lemma_grow_enough(bytes as nat, (self.capacity + 1) as nat);
            }
            self.grow(bytes);
        }
        self.items.push(item);
    }

    /// Takes the last element; none when empty.
    pub fn pop(&mut self) -> (r: Option<T>)
        requires
            old(self).wf(),
        ensures
            final(self).wf(),
            final(self).spec_capacity() == old(self).spec_capacity(),
            final(self).spec_element_size() == old(self).spec_element_size(),
            old(self).view().len() == 0 ==> r is None && final(self).view() == old(self).view(),
            old(self).view().len() > 0 ==> r == Some(old(self).view().last()) && final(self).view() == old(self).view().drop_last(),
    {
        self.items.pop()
    }

    /// Removes element `index`, moving the later ones down by one.
    pub fn erase(&mut self, index: usize)
        requires
            old(self).wf(),
            index < old(self).view().len(),
        ensures
            final(self).wf(),
            final(self).spec_capacity() == old(self).spec_capacity(),
            final(self).spec_element_size() == old(self).spec_element_size(),
            final(self).view() == old(self).view().remove(index as int),
    {
        let _erased = self.items.remove(index);
    }

    /// Removes elements `begin` through `end`, both included, moving the
    /// later ones down.
    pub fn erase_range(&mut self, begin: usize, end: usize)
        requires
            old(self).wf(),
            begin <= end < old(self).view().len(),
        ensures
            final(self).wf(),
            final(self).spec_capacity() == old(self).spec_capacity(),
            final(self).spec_element_size() == old(self).spec_element_size(),
            final(self).view() == old(self).view().subrange(0, begin as int) + old(self).view().subrange(
                end + 1,
                old(self).view().len() as int,
            ),
    {
        let ghost before = self.items@;
        let n = self.items.len();
        let mut k: usize = begin;
        while k <= end
            invariant
                n == before.len(),
                self.wf(),
                self.capacity == old(self).capacity,
                self.element_size == old(self).element_size,
                begin <= k <= end + 1,
                end < before.len(),
                self.items@ == before.subrange(0, begin as int) + before.subrange(k as int, before.len() as int),
            decreases end + 1 - k,
        {
            let _erased = self.items.remove(begin);
            proof {
                assert(self.items@ =~= before.subrange(0, begin as int) + before.subrange(k + 1, before.len() as int));
            }
            k = k + 1;
        }
    }

    /// Makes room for `new_capacity` elements in one commit.
    pub fn reserve(&mut self, new_capacity: usize)
        requires
            old(self).wf(),
            new_capacity <= old(self).max_elements(),
        ensures
            final(self).wf(),
            final(self).view() == old(self).view(),
            final(self).spec_element_size() == old(self).spec_element_size(),
            final(self).spec_capacity() == old(self).capacity_for(new_capacity as nat),
            final(self).spec_capacity() >= new_capacity,
            new_capacity <= old(self).spec_capacity() ==> final(self).spec_capacity() == old(self).spec_capacity(),
    {
        if new_capacity <= self.capacity {
            return;
        }
        proof {
            assert((new_capacity - self.capacity) * self.element_size <= new_capacity * self.element_size) by (nonlinear_arith)
                requires new_capacity >= self.capacity;
            assert(new_capacity * self.element_size <= MAX_VECTOR_CAPACITY) by (nonlinear_arith)
                requires
                    new_capacity <= MAX_VECTOR_CAPACITY as int / self.element_size as int,
                    self.element_size > 0,
            ;
        }
        proof {
            self.lemma_grow_enough(((new_capacity - self.capacity) * self.element_size) as nat, new_capacity as nat);
        }
        self.grow((new_capacity - self.capacity) * self.element_size);
    }

    /// Sets the length to `new_size`: new elements are `T::default()`, and
    /// elements past `new_size` are dropped.
    pub fn resize(&mut self, new_size: usize)
        where
            T: Default,
        requires
            old(self).wf(),
            new_size <= old(self).max_elements(),
        ensures
            final(self).wf(),
            final(self).view().len() == new_size,
            final(self).spec_element_size() == old(self).spec_element_size(),
            final(self).spec_capacity() == if new_size <= old(self).view().len() { old(self).spec_capacity() } else { old(self).capacity_for(new_size as nat) },
            forall|i: int| 0 <= i < new_size && i < old(self).view().len() ==> #[trigger] final(self).view()[i] == old(self).view()[i],
            forall|i: int| old(self).view().len() <= i < new_size ==> call_ensures(T::default, (), #[trigger] final(self).view()[i]),
    {
        if new_size <= self.items.len() {
            self.items.truncate(new_size);
            return;
        }
        self.reserve(new_size);
        let ghost before = self.items@;
        while self.items.len() < new_size
            invariant
                self.wf(),
                self.capacity >= new_size,
                self.capacity == old(self).capacity_for(new_size as nat),
                self.element_size == old(self).element_size,
                before.len() <= self.items@.len() <= new_size,
                forall|i: int| 0 <= i < before.len() ==> #[trigger] self.items@[i] == before[i],
                forall|i: int| before.len() <= i < self.items@.len() ==> call_ensures(T::default, (), #[trigger] self.items@[i]),
            decreases new_size - self.items@.len(),
        {
            self.items.push(T::default());
        }
    }

    /// Sets the length to `new_size`: new elements are clones of `object`,
    /// and elements past `new_size` are dropped.
    pub fn resize_with_template(&mut self, new_size: usize, object: &T)
        where
            T: Clone,
        requires
            old(self).wf(),
            new_size <= old(self).max_elements(),
        ensures
            final(self).wf(),
            final(self).view().len() == new_size,
            final(self).spec_element_size() == old(self).spec_element_size(),
            final(self).spec_capacity() == if new_size <= old(self).view().len() { old(self).spec_capacity() } else { old(self).capacity_for(new_size as nat) },
            forall|i: int| 0 <= i < new_size && i < old(self).view().len() ==> #[trigger] final(self).view()[i] == old(self).view()[i],
            forall|i: int| old(self).view().len() <= i < new_size ==> call_ensures(T::clone, (object,), #[trigger] final(self).view()[i]),
    {
        if new_size <= self.items.len() {
            self.items.truncate(new_size);
            return;
        }
        self.reserve(new_size);
        let ghost before = self.items@;
        while self.items.len() < new_size
            invariant
                self.wf(),
                self.capacity >= new_size,
                self.capacity == old(self).capacity_for(new_size as nat),
                self.element_size == old(self).element_size,
                before.len() <= self.items@.len() <= new_size,
                forall|i: int| 0 <= i < before.len() ==> #[trigger] self.items@[i] == before[i],
                forall|i: int| before.len() <= i < self.items@.len() ==> call_ensures(T::clone, (object,), #[trigger] self.items@[i]),
            decreases new_size - self.items@.len(),
        {
            self.items.push(object.clone());
        }
    }

    pub fn size(&self) -> (r: usize)
        ensures
            r == self.view().len(),
    {
        self.items.len()
    }

    pub fn capacity(&self) -> (r: usize)
        ensures
            r == self.spec_capacity(),
    {
        self.capacity
    }

    pub fn empty(&self) -> (r: bool)
        ensures
            r == (self.view().len() == 0),
    {
        self.items.len() == 0
    }

    /// The elements as one contiguous slice.
    pub fn as_slice(&self) -> (r: &[T])
        ensures
            r@ == self.view(),
    {
        self.items.as_slice()
    }

    /// Element `index`.
    pub fn get(&self, index: usize) -> (r: &T)
        requires
            index < self.view().len(),
        ensures
            *r == self.view()[index as int],
    {
        &self.items[index]
    }

    /// Replaces element `index` by `value`.
    pub fn set(&mut self, index: usize, value: T)
        requires
            old(self).wf(),
            index < old(self).view().len(),
        ensures
            final(self).wf(),
            final(self).spec_capacity() == old(self).spec_capacity(),
            final(self).spec_element_size() == old(self).spec_element_size(),
            final(self).view() == old(self).view().update(index as int, value),
    {
        self.items.set(index, value);
    }

    /// Address of element `index` in the reservation model (elements follow
    /// one another from the start of the reservation). This is a model
    /// formula, not the address of the value in process memory.
    pub fn element_address(&self, index: usize) -> (r: usize)
        requires
            self.wf(),
            index < self.view().len(),
        ensures
            r == self.spec_element_address(index as nat),
    {
        proof {
            vstd::arithmetic::div_mod::lemma_fundamental_div_mod(self.committed as int, self.element_size as int);
            assert(index * self.element_size <= self.capacity * self.element_size) by (nonlinear_arith)
                requires index <= self.capacity;
        }
        RESERVATION_BASE + index * self.element_size
    }
}

/// In the address formula of the reservation, each element starts right
/// where the one before it ends. This is a fact of the formula
/// `spec_element_address`, the address that element `i` has in the
/// reservation model; it says nothing about where the element's value is
/// stored in process memory.
pub proof fn lemma_vector_contiguous<T>(v: &Vector<T>, i: nat)
    ensures
        v.spec_element_address(i + 1) == v.spec_element_address(i) + v.spec_element_size(),
{
    assert((i + 1) * v.spec_element_size() == i * v.spec_element_size() + v.spec_element_size()) by (nonlinear_arith);
}

} // verus!
