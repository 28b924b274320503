use vstd::prelude::*;

verus! {

/// Identifies an entry of a `HandleMap`: the sparse slot in the low 32 bits
/// and the slot's generation in the high 32 bits.
pub type Handle = u64;

/// End marker of the free-slot list.
pub const NIL: usize = usize::MAX;

/// The sparse slot a handle names.
pub open spec fn handle_index(h: Handle) -> nat {
    (h % 4294967296) as nat
}

/// The generation a handle was issued with.
pub open spec fn handle_generation(h: Handle) -> nat {
    (h / 4294967296) as nat
}

/// The handle of slot `index` in generation `generation`.
pub open spec fn spec_make_handle(index: nat, generation: nat) -> Handle {
    (generation * 4294967296 + index) as Handle
}

/// A handle is determined by its slot and its generation.
pub proof fn lemma_handle_parts(a: Handle, b: Handle)
    requires
        handle_index(a) == handle_index(b),
        handle_generation(a) == handle_generation(b),
    ensures
        a == b,
{
    vstd::arithmetic::div_mod::lemma_fundamental_div_mod(a as int, 4294967296);
    vstd::arithmetic::div_mod::lemma_fundamental_div_mod(b as int, 4294967296);
}

/// Packs a slot and a generation into a handle.
pub fn make_handle(index: u32, generation: u32) -> (r: Handle)
    ensures
        r == spec_make_handle(index as nat, generation as nat),
        handle_index(r) == index,
        handle_generation(r) == generation,
{
    let r: u64 = generation as u64 * 4294967296 + index as u64;
    r
}

/// The slot of a handle.
pub fn index_of(h: Handle) -> (r: u32)
    ensures
        r == handle_index(h),
{
    (h % 4294967296) as u32
}

/// The generation of a handle.
pub fn generation_of(h: Handle) -> (r: u32)
    ensures
        r == handle_generation(h),
{
    proof {
        assert(h / 4294967296 <= u32::MAX) by (nonlinear_arith)
            requires h <= u64::MAX;
    }
    (h / 4294967296) as u32
}

/// The generation that follows `g`, wrapping after the largest.
pub open spec fn next_generation(g: nat) -> nat {
    if g == u32::MAX {
        0
    } else {
        g + 1
    }
}

/// One sparse slot: where its value sits in the dense array (or, while the
/// slot is free, the next free slot), its own index, and its generation.
#[derive(Clone, Copy)]
struct HandleData {
    dense_array_idx: usize,
    sparse_array_idx: u32,
    generation: u32,
}

/// Values addressed by generation-stamped handles and kept packed in a
/// dense array; removal moves the last value into the hole.
pub struct HandleMap<T> {
    dense: Vec<T>,
    sparse: Vec<HandleData>,
    dense_to_sparse: Vec<u32>,
    free_head: usize,
    free: Ghost<Seq<nat>>,
    size: u32,
    max_size: u32,
}

/// The entry after position `k` of a free-slot list.
pub open spec fn free_next(free: Seq<nat>, k: int) -> nat {
    if k + 1 < free.len() {
        free[k + 1]
    } else {
        NIL as nat
    }
}

impl<T> HandleMap<T> {
    /// Number of live values.
    pub closed spec fn spec_size(&self) -> nat {
        self.size as nat
    }

    /// Number of slots.
    pub closed spec fn spec_max_size(&self) -> nat {
        self.max_size as nat
    }

    /// The live values in dense order.
    pub closed spec fn dense_view(&self) -> Seq<T> {
        self.dense@
    }

    /// The slot whose value sits at dense position `d`.
    pub closed spec fn slot_of(&self, d: nat) -> nat {
        self.dense_to_sparse@[d as int] as nat
    }

    /// The dense position recorded in slot `s`.
    pub closed spec fn dense_index_of(&self, s: nat) -> nat {
        self.sparse@[s as int].dense_array_idx as nat
    }

    /// The generation of slot `s`.
    pub closed spec fn generation(&self, s: nat) -> nat {
        self.sparse@[s as int].generation as nat
    }

    /// Slot `s` holds a live value.
    pub open spec fn live(&self, s: nat) -> bool {
        &&& s < self.spec_max_size()
        &&& self.dense_index_of(s) < self.spec_size()
        &&& self.slot_of(self.dense_index_of(s)) == s
    }

    /// `h` names a live value of its slot's current generation.
    pub open spec fn valid(&self, h: Handle) -> bool {
        &&& self.live(handle_index(h))
        &&& self.generation(handle_index(h)) == handle_generation(h)
    }

    /// The value `h` names.
    pub open spec fn value(&self, h: Handle) -> T {
        self.dense_view()[self.dense_index_of(handle_index(h)) as int]
    }

    pub closed spec fn wf(&self) -> bool {
        let free = self.free@;
        &&& self.sparse@.len() == self.max_size
        &&& self.dense_to_sparse@.len() == self.max_size
        &&& self.dense@.len() == self.size
        &&& self.size <= self.max_size
        &&& forall|s: int| 0 <= s < self.max_size ==> (#[trigger] self.sparse@[s]).sparse_array_idx == s
        &&& forall|d: int| 0 <= d < self.size ==> #[trigger] self.dense_to_sparse@[d] < self.max_size
            && self.sparse@[self.dense_to_sparse@[d] as int].dense_array_idx == d
        &&& free.len() + self.size == self.max_size
        &&& forall|k: int| 0 <= k < free.len() ==> #[trigger] free[k] < self.max_size
            && self.sparse@[free[k] as int].dense_array_idx == free_next(free, k)
        &&& forall|k1: int, k2: int| 0 <= k1 < k2 < free.len() ==> #[trigger] free[k1] != #[trigger] free[k2]
        &&& forall|k: int, d: int| 0 <= k < free.len() && 0 <= d < self.size ==> #[trigger] free[k]
            != #[trigger] self.dense_to_sparse@[d]
        &&& self.free_head == if free.len() == 0 { NIL as nat } else { free[0] }
    }

    /// Threads every slot onto the free list, lowest first.
    fn rebuild_free_list(&mut self)
        requires
            old(self).sparse@.len() == old(self).max_size,
            forall|s: int| 0 <= s < old(self).max_size ==> (#[trigger] old(self).sparse@[s]).sparse_array_idx == s,
        ensures
            final(self).sparse@.len() == old(self).max_size,
            forall|s: int| 0 <= s < old(self).max_size ==> (#[trigger] final(self).sparse@[s]).sparse_array_idx == s,
            forall|s: int| 0 <= s < old(self).max_size ==> (#[trigger] final(self).sparse@[s]).generation == old(self).sparse@[s].generation,
            final(self).free@ == Seq::new(old(self).max_size as nat, |i: int| i as nat),
            forall|k: int| 0 <= k < final(self).free@.len() ==> #[trigger] final(self).sparse@[final(self).free@[k] as int].dense_array_idx
                == free_next(final(self).free@, k),
            final(self).free_head == if old(self).max_size == 0 { NIL } else { 0 },
            final(self).dense@ == old(self).dense@,
            final(self).dense_to_sparse@ == old(self).dense_to_sparse@,
            final(self).size == old(self).size,
            final(self).max_size == old(self).max_size,
    {
        let ghost all = Seq::new(self.max_size as nat, |i: int| i as nat);
        let mut i: usize = 0;
        let n = self.max_size as usize;
        while i < n
            invariant
                n == self.max_size,
                all == Seq::new(n as nat, |j: int| j as nat),
                self.max_size == old(self).max_size,
                self.size == old(self).size,
                self.dense@ == old(self).dense@,
                self.dense_to_sparse@ == old(self).dense_to_sparse@,
                self.sparse@.len() == n,
                i <= n,
                forall|s: int| 0 <= s < n ==> (#[trigger] self.sparse@[s]).sparse_array_idx == s,
                forall|s: int| 0 <= s < n ==> (#[trigger] self.sparse@[s]).generation == old(self).sparse@[s].generation,
                forall|s: int| 0 <= s < i ==> (#[trigger] self.sparse@[s]).dense_array_idx == free_next(all, s),
            decreases n - i,
        {
            let mut slot = self.sparse[i];
            slot.dense_array_idx = if i + 1 < n { i + 1 } else { NIL };
            proof {
                assert(all.len() == n);
                if i + 1 < n {
                    assert(all[i + 1] == i + 1);
                }
                assert(free_next(all, i as int) == slot.dense_array_idx);
            }
            self.sparse.set(i, slot);
            i = i + 1;
        }
        self.free = Ghost(all);
        self.free_head = if n == 0 { NIL } else { 0 };
    }

    /// A map of `max_size` slots, all free.
    pub fn new(max_size: u32) -> (r: Self)
        ensures
            r.wf(),
            r.spec_max_size() == max_size,
            r.spec_size() == 0,
            r.dense_view() == Seq::<T>::empty(),
            forall|s: nat| s < max_size ==> #[trigger] r.generation(s) == 0,
    {
        let mut sparse: Vec<HandleData> = Vec::new();
        let mut dense_to_sparse: Vec<u32> = Vec::new();
        let mut i: u32 = 0;
        while i < max_size
            invariant
                i <= max_size,
                sparse@.len() == i,
                dense_to_sparse@.len() == i,
                forall|s: int| 0 <= s < i ==> (#[trigger] sparse@[s]).sparse_array_idx == s && sparse@[s].generation == 0,
            decreases max_size - i,
        {
            sparse.push(HandleData { dense_array_idx: 0, sparse_array_idx: i, generation: 0 });
            dense_to_sparse.push(0);
            i = i + 1;
        }
        let mut r = HandleMap {
            dense: Vec::new(),
            sparse,
            dense_to_sparse,
            free_head: NIL,
            free: Ghost(Seq::empty()),
            size: 0,
            max_size,
        };
        r.rebuild_free_list();
        r
    }

    /// Stores `item` in a free slot and returns its handle; none when every
    /// slot is taken.
    pub fn insert(&mut self, item: T) -> (r: Option<Handle>)
        requires
            old(self).wf(),
        ensures
            final(self).wf(),
            final(self).spec_max_size() == old(self).spec_max_size(),
            r is None <==> old(self).spec_size() == old(self).spec_max_size(),
            r is None ==> final(self).dense_view() == old(self).dense_view() && final(self).spec_size() == old(self).spec_size(),
            r matches Some(h) ==> {
                &&& !old(self).valid(h)
                &&& final(self).valid(h)
                &&& final(self).value(h) == item
                &&& final(self).dense_view() == old(self).dense_view().push(item)
                &&& final(self).spec_size() == old(self).spec_size() + 1
            },
            forall|h: Handle| #[trigger] old(self).valid(h) ==> final(self).valid(h) && final(self).value(h) == old(self).value(h),
            forall|h: Handle| #[trigger] final(self).valid(h) ==> old(self).valid(h) || r == Some(h),
            forall|s: nat| s < old(self).spec_max_size() ==> #[trigger] final(self).generation(s) == old(self).generation(s),
    {
        if self.free_head == NIL {
            return None;
        }
        let ghost free = self.free@;
        let s = self.free_head;
        proof {
            assert(free[0] < self.max_size);
        }
        let mut slot = self.sparse[s];
        let next = slot.dense_array_idx;
        let d = self.size as usize;
        slot.dense_array_idx = d;
        self.sparse.set(s, slot);
        self.dense_to_sparse.set(d, slot.sparse_array_idx);
        self.dense.push(item);
        self.size = self.size + 1;
        self.free_head = next;
        self.free = Ghost(free.drop_first());
        let h = make_handle(slot.sparse_array_idx, slot.generation);
        proof {
            assert forall|k: int, dd: int| 0 <= k < self.free@.len() && 0 <= dd < self.size implies #[trigger] self.free@[k]
                != #[trigger] self.dense_to_sparse@[dd] by {
                assert(self.free@[k] == free[k + 1]);
                if dd < d {
                } else {
                    assert(free[0] != free[k + 1]);
                }
            }
            assert forall|k: int| 0 <= k < self.free@.len() implies #[trigger] self.free@[k] < self.max_size
                && self.sparse@[self.free@[k] as int].dense_array_idx == free_next(self.free@, k) by {
                assert(self.free@[k] == free[k + 1]);
                assert(free[0] != free[k + 1]);
            }
            assert forall|dd: int| 0 <= dd < self.size implies #[trigger] self.dense_to_sparse@[dd] < self.max_size
                && self.sparse@[self.dense_to_sparse@[dd] as int].dense_array_idx == dd by {
                if dd < d {
                    assert(free[0] != old(self).dense_to_sparse@[dd]);
                }
            }
            assert forall|h2: Handle| #[trigger] old(self).valid(h2) implies self.valid(h2) && self.value(h2) == old(self).value(h2) by {
                let s2 = handle_index(h2);
                let d2 = old(self).dense_index_of(s2);
                assert(old(self).dense_to_sparse@[d2 as int] == s2);
                assert(free[0] != old(self).dense_to_sparse@[d2 as int]);
            }
            if old(self).valid(h) {
                assert(old(self).dense_to_sparse@[old(self).dense_index_of(s as nat) as int] == s);
                assert(free[0] != old(self).dense_to_sparse@[old(self).dense_index_of(s as nat) as int]);
            }
            assert forall|h2: Handle| #[trigger] self.valid(h2) implies old(self).valid(h2) || Some(h) == Some(h2) by {
                let s2 = handle_index(h2);
                if s2 == s {
                    lemma_handle_parts(h, h2);
                } else {
                    let d2 = self.sparse@[s2 as int].dense_array_idx as int;
                    assert(self.dense_to_sparse@[d2] == s2);
                    if d2 == d {
                    } else {
                        assert(old(self).dense_to_sparse@[d2] == s2);
                    }
                }
            }
        }
        Some(h)
    }

    /// Stores a clone of `item`.
    pub fn insert_copy(&mut self, item: &T) -> (r: Option<Handle>)
        where
            T: Clone,
        requires
            old(self).wf(),
        ensures
            final(self).wf(),
            final(self).spec_max_size() == old(self).spec_max_size(),
            r is None <==> old(self).spec_size() == old(self).spec_max_size(),
            r matches Some(h) ==> {
                &&& !old(self).valid(h)
                &&& final(self).valid(h)
                &&& call_ensures(T::clone, (item,), final(self).value(h))
                &&& final(self).spec_size() == old(self).spec_size() + 1
            },
            forall|h: Handle| #[trigger] old(self).valid(h) ==> final(self).valid(h) && final(self).value(h) == old(self).value(h),
    {
        self.insert(item.clone())
    }

    /// Dense array after removing position `d`: the last value moves there.
    pub open spec fn swap_removed(dense: Seq<T>, d: int) -> Seq<T> {
        dense.update(d, dense.last()).drop_last()
    }

    /// Takes out the value `h` names; none when `h` is stale. The last
    /// dense value moves into the hole, and the slot's generation advances.
    pub fn remove(&mut self, handle: Handle) -> (r: Option<T>)
        requires
            old(self).wf(),
            handle_index(handle) < old(self).spec_max_size(),
        ensures
            final(self).wf(),
            final(self).spec_max_size() == old(self).spec_max_size(),
            r == if old(self).valid(handle) { Some(old(self).value(handle)) } else { None },
            !final(self).valid(handle),
            !old(self).valid(handle) ==> {
                &&& final(self).dense_view() == old(self).dense_view()
                &&& final(self).spec_size() == old(self).spec_size()
                &&& forall|s: nat| s < old(self).spec_max_size() ==> #[trigger] final(self).generation(s) == old(self).generation(s)
                &&& forall|h: Handle| #[trigger] final(self).valid(h) == old(self).valid(h)
                &&& forall|h: Handle| old(self).valid(h) ==> #[trigger] final(self).value(h) == old(self).value(h)
            },
            old(self).valid(handle) ==> {
                &&& final(self).spec_size() == old(self).spec_size() - 1
                &&& final(self).dense_view() == Self::swap_removed(
                    old(self).dense_view(),
                    old(self).dense_index_of(handle_index(handle)) as int,
                )
                &&& forall|s: nat| s < old(self).spec_max_size() ==> #[trigger] final(self).generation(s) == if s == handle_index(handle) {
                    next_generation(old(self).generation(s))
                } else {
                    old(self).generation(s)
                }
            },
            forall|h: Handle| #[trigger] old(self).valid(h) && handle_index(h) != handle_index(handle) ==> final(self).valid(h)
                && final(self).value(h) == old(self).value(h),
            forall|h: Handle| #[trigger] final(self).valid(h) ==> old(self).valid(h),
    {
        let idx = index_of(handle) as usize;
        let generation = generation_of(handle);
        let slot = self.sparse[idx];
        if slot.generation != generation {
            return None;
        }
        let d = slot.dense_array_idx;
        if d >= self.size as usize || self.dense_to_sparse[d] as usize != idx {
            return None;
        }
        let ghost free = self.free@;
        let ghost old_dts = self.dense_to_sparse@;
        let ghost old_sparse = self.sparse@;
        let last = (self.size - 1) as usize;
        let moved = self.dense_to_sparse[last];
        let removed = self.dense.swap_remove(d);
        let mut moved_slot = self.sparse[moved as usize];
        moved_slot.dense_array_idx = d;
        self.sparse.set(moved as usize, moved_slot);
        self.dense_to_sparse.set(d, moved);
        let mut freed = self.sparse[idx];
        freed.dense_array_idx = self.free_head;
        freed.generation = if freed.generation == u32::MAX { 0 } else { freed.generation + 1 };
        self.sparse.set(idx, freed);
        self.free_head = idx;
        self.free = Ghost(seq![idx as nat] + free);
        self.size = self.size - 1;
        proof {
            let n = self.size as int;
            assert forall|x: int, y: int| 0 <= x < y <= n implies old_dts[x] != old_dts[y] by {
                assert(old_sparse[old_dts[x] as int].dense_array_idx == x);
                assert(old_sparse[old_dts[y] as int].dense_array_idx == y);
            }
            assert forall|dd: int| 0 <= dd < n implies #[trigger] self.dense_to_sparse@[dd] < self.max_size
                && self.sparse@[self.dense_to_sparse@[dd] as int].dense_array_idx == dd by {
                if dd == d {
                    assert(old_dts[n] != old_dts[d as int]);
                } else {
                    assert(old_dts[dd] != old_dts[d as int]);
                    assert(old_dts[dd] != old_dts[n]);
                }
            }
            assert forall|k: int| 0 <= k < self.free@.len() implies #[trigger] self.free@[k] < self.max_size
                && self.sparse@[self.free@[k] as int].dense_array_idx == free_next(self.free@, k) by {
                if k > 0 {
                    assert(self.free@[k] == free[k - 1]);
                    assert(free[k - 1] != old_dts[d as int]);
                    assert(free[k - 1] != old_dts[n]);
                }
            }
            assert forall|k1: int, k2: int| 0 <= k1 < k2 < self.free@.len() implies #[trigger] self.free@[k1]
                != #[trigger] self.free@[k2] by {
                assert(self.free@[k2] == free[k2 - 1]);
                if k1 == 0 {
                    assert(free[k2 - 1] != old_dts[d as int]);
                } else {
                    assert(self.free@[k1] == free[k1 - 1]);
                }
            }
            assert forall|k: int, dd: int| 0 <= k < self.free@.len() && 0 <= dd < n implies #[trigger] self.free@[k]
                != #[trigger] self.dense_to_sparse@[dd] by {
                if dd == d {
                    assert(old_dts[n] != old_dts[d as int]);
                    if k > 0 {
                        assert(self.free@[k] == free[k - 1]);
                        assert(free[k - 1] != old_dts[n]);
                    }
                } else {
                    assert(old_dts[dd] != old_dts[d as int]);
                    if k > 0 {
                        assert(self.free@[k] == free[k - 1]);
                        assert(free[k - 1] != old_dts[dd]);
                    }
                }
            }
            assert forall|h: Handle| #[trigger] old(self).valid(h) && handle_index(h) != handle_index(handle) implies self.valid(h)
                && self.value(h) == old(self).value(h) by {
                let s2 = handle_index(h);
                let d2 = old_sparse[s2 as int].dense_array_idx as int;
                assert(old_dts[d2] == s2);
                if d2 == n {
                } else {
                    assert(d2 != d);
                }
            }
            assert(self.dense@ =~= Self::swap_removed(old(self).dense@, d as int));
            assert forall|h2: Handle| #[trigger] self.valid(h2) implies old(self).valid(h2) by {
                let s2 = handle_index(h2);
                let d2 = self.sparse@[s2 as int].dense_array_idx as int;
                assert(self.dense_to_sparse@[d2] == s2);
                if s2 == idx {
                    assert(self.free@[0] == s2);
                    assert(self.free@[0] != self.dense_to_sparse@[d2]);
                } else if s2 == moved {
                    assert(old_dts[n] == s2);
                } else {
                    assert(old_dts[d2] == s2);
                }
            }
        }
        Some(removed)
    }

    /// Drops every value, advances the generation of every live slot, and
    /// frees every slot.
    pub fn clear(&mut self)
        requires
            old(self).wf(),
        ensures
            final(self).wf(),
            final(self).spec_max_size() == old(self).spec_max_size(),
            final(self).spec_size() == 0,
            final(self).dense_view() == Seq::<T>::empty(),
            forall|h: Handle| !(#[trigger] final(self).valid(h)),
            forall|s: nat| s < old(self).spec_max_size() ==> #[trigger] final(self).generation(s) == if old(self).live(s) {
                next_generation(old(self).generation(s))
            } else {
                old(self).generation(s)
            },
    {
        let ghost old_dts = self.dense_to_sparse@;
        let ghost old_sparse = self.sparse@;
        let n = self.size as usize;
        proof {
            assert forall|x: int, y: int| 0 <= x < y < n implies old_dts[x] != old_dts[y] by {
                assert(old_sparse[old_dts[x] as int].dense_array_idx == x);
                assert(old_sparse[old_dts[y] as int].dense_array_idx == y);
            }
        }
        let mut d: usize = 0;
        while d < n
            invariant
                n == old(self).size,
                n <= self.max_size,
                d <= n,
                self.sparse@.len() == old_sparse.len(),
                self.dense_to_sparse@ == old_dts,
                self.max_size == old(self).max_size,
                old_sparse.len() == self.max_size,
                old_dts.len() == self.max_size,
                forall|x: int| 0 <= x < n ==> #[trigger] old_dts[x] < self.max_size,
                forall|x: int, y: int| 0 <= x < y < n ==> old_dts[x] != old_dts[y],
                forall|s: int| 0 <= s < self.max_size ==> (#[trigger] self.sparse@[s]).sparse_array_idx == old_sparse[s].sparse_array_idx,
                forall|s: int| 0 <= s < self.max_size ==> (#[trigger] self.sparse@[s]).generation == if exists|x: int| 0 <= x < d && old_dts[x] == s {
                    next_generation(old_sparse[s].generation as nat)
                } else {
                    old_sparse[s].generation as nat
                },
            decreases n - d,
        {
            let s = self.dense_to_sparse[d] as usize;
            let mut slot = self.sparse[s];
            slot.generation = if slot.generation == u32::MAX { 0 } else { slot.generation + 1 };
            self.sparse.set(s, slot);
            proof {
                assert forall|t: int| 0 <= t < self.max_size implies (#[trigger] self.sparse@[t]).generation == if exists|x: int| 0 <= x < d + 1 && old_dts[x] == t {
                    next_generation(old_sparse[t].generation as nat)
                } else {
                    old_sparse[t].generation as nat
                } by {
                    if t == s {
                        assert(old_dts[d as int] == t);
                        assert(!exists|x: int| 0 <= x < d && old_dts[x] == t);
                    } else {
                        if exists|x: int| 0 <= x < d + 1 && old_dts[x] == t {
                            let x = choose|x: int| 0 <= x < d + 1 && old_dts[x] == t;
                            assert(x < d);
                        }
                    }
                }
            }
            d = d + 1;
        }
        self.dense.clear();
        self.size = 0;
        self.rebuild_free_list();
        proof {
            assert forall|t: nat| t < old(self).spec_max_size() implies #[trigger] self.generation(t) == if old(self).live(t) {
                next_generation(old(self).generation(t))
            } else {
                old(self).generation(t)
            } by {
                if old(self).live(t) {
                    let x = old_sparse[t as int].dense_array_idx as int;
                    assert(old_dts[x] == t);
                } else {
                    if exists|x: int| 0 <= x < n && old_dts[x] == t {
                        let x = choose|x: int| 0 <= x < n && old_dts[x] == t;
                        assert(old_sparse[old_dts[x] as int].dense_array_idx == x);
                    }
                }
            }
            let all = self.free@;
            assert forall|k1: int, k2: int| 0 <= k1 < k2 < all.len() implies #[trigger] all[k1] != #[trigger] all[k2] by {}
        }
    }

    /// The value `handle` names.
    pub fn at(&self, handle: Handle) -> (r: &T)
        requires
            self.wf(),
            self.valid(handle),
        ensures
            *r == self.value(handle),
    {
        let idx = index_of(handle) as usize;
        &self.dense[self.sparse[idx].dense_array_idx]
    }

    /// The value `handle` names, for update in place.
    pub fn at_mut(&mut self, handle: Handle) -> (r: &mut T)
        requires
            old(self).wf(),
            old(self).valid(handle),
        ensures
            *r == old(self).value(handle),
            final(self).dense_view() == old(self).dense_view().update(
                old(self).dense_index_of(handle_index(handle)) as int,
                *final(r),
            ),
            final(self).spec_size() == old(self).spec_size(),
            final(self).spec_max_size() == old(self).spec_max_size(),
            final(self).wf(),
            forall|s: nat| s < old(self).spec_max_size() ==> #[trigger] final(self).generation(s) == old(self).generation(s),
            forall|h: Handle| #[trigger] final(self).valid(h) == old(self).valid(h),
            forall|h: Handle| #[trigger] final(self).dense_index_of(handle_index(h)) == old(self).dense_index_of(handle_index(h)),
    {
        let idx = index_of(handle) as usize;
        let d = self.sparse[idx].dense_array_idx;
        &mut self.dense[d]
    }

    /// Whether `handle` names a live value of its slot's current generation.
    pub fn is_valid(&self, handle: Handle) -> (r: bool)
        requires
            self.wf(),
        ensures
            r == self.valid(handle),
    {
        let idx = index_of(handle) as usize;
        if idx >= self.max_size as usize {
            return false;
        }
        let slot = &self.sparse[idx];
        slot.generation == generation_of(handle) && slot.dense_array_idx < self.size as usize
            && self.dense_to_sparse[slot.dense_array_idx] as usize == idx
    }

    pub fn size(&self) -> (r: u32)
        ensures
            r == self.spec_size(),
    {
        self.size
    }

    pub fn max_size(&self) -> (r: u32)
        ensures
            r == self.spec_max_size(),
    {
        self.max_size
    }

    /// The live values, packed, in dense order.
    pub fn as_slice(&self) -> (r: &[T])
        ensures
            r@ == self.dense_view(),
    {
        self.dense.as_slice()
    }

    /// Each live dense position maps to a slot that maps back to it, and
    /// each valid handle names the value at its slot's dense position.
    pub proof fn lemma_bijection(&self)
        requires
            self.wf(),
        ensures
            forall|d: nat| d < self.spec_size() ==> #[trigger] self.slot_of(d) < self.spec_max_size()
                && self.dense_index_of(self.slot_of(d)) == d,
            forall|h: Handle| #[trigger] self.valid(h) ==> self.dense_index_of(handle_index(h)) < self.dense_view().len(),
    {
        assert forall|d: nat| d < self.spec_size() implies #[trigger] self.slot_of(d) < self.spec_max_size()
            && self.dense_index_of(self.slot_of(d)) == d by {
            assert(self.dense_to_sparse@[d as int] < self.max_size);
        }
    }
}

} // verus!
