use vstd::prelude::*;

verus! {

/// A stable capability naming one value in a `HandleMap`: the index of the
/// slot holding the value, plus the generation that slot had when the value
/// was inserted.
///
/// Two handles are equal iff both fields are equal. Holding a handle does not
/// guarantee that its referent is still present.
#[derive(Clone, Copy, Debug, Hash, PartialEq, Eq, Structural)]
pub struct Handle {
    pub index: usize,
    pub generation: u64,
}

/// One table cell: either it holds a value, or it is free and linked into the
/// intrusive list of reusable slots. Either way it carries the generation
/// that future handles presenting this index are compared against.
enum Slot<T> {
    Occupied { value: T, generation: u64 },
    Free { next_free: Option<usize>, generation: u64 },
}

impl<T> Slot<T> {
    spec fn generation(self) -> u64 {
        match self {
            Slot::Occupied { generation, .. } => generation,
            Slot::Free { generation, .. } => generation,
        }
    }

    spec fn value(self) -> T
        recommends
            self is Occupied,
    {
        match self {
            Slot::Occupied { value, .. } => value,
            Slot::Free { .. } => arbitrary(),
        }
    }

    spec fn next_free(self) -> Option<usize> {
        match self {
            Slot::Free { next_free, .. } => next_free,
            Slot::Occupied { .. } => None,
        }
    }
}

/// A generational handle table: a growable arena that hands out stable,
/// copyable, comparable `Handle`s for stored values. A handle stays usable
/// exactly until its value is removed; presenting it afterwards is detected
/// (its generation no longer matches the slot's) rather than aliasing a
/// reused slot.
///
/// Freed slots are kept on an intrusive singly-linked free list, head first,
/// and reused most-recently-freed first. A slot whose generation counter
/// would wrap is retired instead of reused, so a stale handle can never
/// appear valid again.
pub struct HandleMap<T> {
    slots: Vec<Slot<T>>,
    free_head: Option<usize>,
    count: usize,
    free_list: Ghost<Seq<usize>>,
}

impl<T> HandleMap<T> {
    /// The number of occupied slots in a prefix-closed scan of `slots`.
    spec fn num_occupied(slots: Seq<Slot<T>>) -> nat
        decreases slots.len(),
    {
        if slots.len() == 0 {
            0
        } else {
            Self::num_occupied(slots.drop_last()) + if slots.last() is Occupied {
                1nat
            } else {
                0nat
            }
        }
    }

    /// A handle is valid against a slot sequence iff its slot exists, is
    /// occupied, and still carries the generation the handle was issued with.
    spec fn valid_in(slots: Seq<Slot<T>>, h: Handle) -> bool {
        &&& h.index < slots.len()
        &&& slots[h.index as int] is Occupied
        &&& slots[h.index as int].generation() == h.generation
    }

    spec fn stale_in(slots: Seq<Slot<T>>, h: Handle) -> bool {
        &&& h.index < slots.len()
        &&& h.generation < slots[h.index as int].generation()
    }

    /// The map from valid handles to the values in their slots.
    spec fn map_of(slots: Seq<Slot<T>>) -> Map<Handle, T> {
        Map::new(
            |h: Handle| Self::valid_in(slots, h),
            |h: Handle| slots[h.index as int].value(),
        )
    }

    /// A handle is valid iff its slot exists, is occupied, and still carries
    /// the generation the handle was issued with.
    pub closed spec fn valid(self, h: Handle) -> bool {
        Self::valid_in(self.slots@, h)
    }

    /// A handle is stale once its slot has moved past its generation; a stale
    /// handle is never valid again, whatever is done to the table.
    pub closed spec fn stale(self, h: Handle) -> bool {
        Self::stale_in(self.slots@, h)
    }

    /// How many slots the table has ever grown to, occupied or free.
    pub closed spec fn num_slots(self) -> nat {
        self.slots@.len()
    }

    /// The indices of the slots available for reuse, next-reused first.
    pub closed spec fn free_slots(self) -> Seq<usize> {
        self.free_list@
    }

    /// The generation currently stored in slot `i`.
    pub closed spec fn slot_generation(self, i: int) -> u64
        recommends
            0 <= i < self.num_slots(),
    {
        self.slots@[i].generation()
    }

    /// Internal well-formedness: the free list holds exactly the reusable
    /// free slots, without duplicates, chained through their `next_free`
    /// links from `free_head`; generations of live slots stay below the
    /// retirement bound; and `count` tracks the occupied slots.
    pub closed spec fn wf(self) -> bool {
        let slots = self.slots@;
        let fl = self.free_list@;
        &&& forall|j: int|
            0 <= j < fl.len() ==> (#[trigger] fl[j]) < slots.len()
                && slots[fl[j] as int] is Free && slots[fl[j] as int].generation() < u64::MAX
        &&& forall|j: int, k: int|
            0 <= j < fl.len() && 0 <= k < fl.len() && j != k ==> #[trigger] fl[j] != #[trigger] fl[k]
        &&& forall|i: int|
            0 <= i < slots.len() && (#[trigger] slots[i]) is Free && slots[i].generation() < u64::MAX
                ==> fl.contains(i as usize)
        &&& self.free_head == (if fl.len() > 0 {
            Some(fl[0])
        } else {
            None::<usize>
        })
        &&& forall|j: int|
            0 <= j < fl.len() ==> slots[#[trigger] fl[j] as int].next_free() == (if j + 1 < fl.len() {
                Some(fl[j + 1])
            } else {
                None::<usize>
            })
        &&& forall|i: int|
            0 <= i < slots.len() && (#[trigger] slots[i]) is Occupied ==> slots[i].generation()
                < u64::MAX
        &&& self.count == Self::num_occupied(slots)
    }

    /// Returns an empty table: no slots, an empty free list, zero occupied
    /// count.
    pub fn new() -> (r: HandleMap<T>)
        ensures
            r.wf(),
            r@ =~= Map::<Handle, T>::empty(),
            r.num_slots() == 0,
            r.free_slots() =~= Seq::<usize>::empty(),
    {
        HandleMap { slots: Vec::new(), free_head: None, count: 0, free_list: Ghost(Seq::empty()) }
    }

    proof fn lemma_num_occupied_le(slots: Seq<Slot<T>>)
        ensures
            Self::num_occupied(slots) <= slots.len(),
        decreases slots.len(),
    {
        if slots.len() > 0 {
            Self::lemma_num_occupied_le(slots.drop_last());
        }
    }

    proof fn lemma_num_occupied_free(slots: Seq<Slot<T>>, i: int)
        requires
            0 <= i < slots.len(),
            !(slots[i] is Occupied),
        ensures
            Self::num_occupied(slots) < slots.len(),
        decreases slots.len(),
    {
        if i == slots.len() - 1 {
            Self::lemma_num_occupied_le(slots.drop_last());
        } else {
            Self::lemma_num_occupied_free(slots.drop_last(), i);
        }
    }

    proof fn lemma_num_occupied_update(slots: Seq<Slot<T>>, i: int, s: Slot<T>)
        requires
            0 <= i < slots.len(),
        ensures
            Self::num_occupied(slots.update(i, s)) == Self::num_occupied(slots) - (if slots[i]
                is Occupied {
                1int
            } else {
                0int
            }) + (if s is Occupied {
                1int
            } else {
                0int
            }),
        decreases slots.len(),
    {
        let u = slots.update(i, s);
        if i == slots.len() - 1 {
            assert(u.drop_last() =~= slots.drop_last());
        } else {
            Self::lemma_num_occupied_update(slots.drop_last(), i, s);
            assert(u.drop_last() =~= slots.drop_last().update(i, s));
        }
    }

    proof fn lemma_num_occupied_push(slots: Seq<Slot<T>>, s: Slot<T>)
        ensures
            Self::num_occupied(slots.push(s)) == Self::num_occupied(slots) + (if s is Occupied {
                1int
            } else {
                0int
            }),
    {
        assert(slots.push(s).drop_last() =~= slots);
    }

    /// The handle the next insertion will return: the head of the free list
    /// with that slot's current generation, or a fresh slot at the end of the
    /// table with generation zero.
    pub open spec fn next_handle(self) -> Handle {
        if self.free_slots().len() > 0 {
            Handle {
                index: self.free_slots()[0],
                generation: self.slot_generation(self.free_slots()[0] as int),
            }
        } else {
            Handle { index: self.num_slots() as usize, generation: 0 }
        }
    }

    /// Stores `value` and returns a handle for it. The most recently freed
    /// slot is reused if one exists, keeping the generation the removal left
    /// there; otherwise a new slot is appended with generation zero. The
    /// returned handle is never one that was valid before, every handle that
    /// was valid stays valid with its value, and every handle that was stale
    /// stays stale. Exhausting the index space aborts inside the append, the
    /// one fatal failure this table has.
    pub fn insert(&mut self, value: T) -> (h: Handle)
        requires
            old(self).wf(),
        ensures
            final(self).wf(),
            h == old(self).next_handle(),
            !old(self)@.dom().contains(h),
            !old(self).stale(h),
            final(self)@ =~= old(self)@.insert(h, value),
            final(self).free_slots() =~= (if old(self).free_slots().len() > 0 {
                old(self).free_slots().drop_first()
            } else {
                old(self).free_slots()
            }),
            final(self).num_slots() == (if old(self).free_slots().len() > 0 {
                old(self).num_slots()
            } else {
                old(self).num_slots() + 1
            }),
            forall|i: int|
                0 <= i < old(self).num_slots() ==> final(self).slot_generation(i) == old(
                    self,
                ).slot_generation(i),
            old(self).free_slots().len() == 0 ==> final(self).slot_generation(
                old(self).num_slots() as int,
            ) == 0,
            forall|h2: Handle| old(self).stale(h2) ==> final(self).stale(h2),
    {
        let n = self.slots.len();
        match self.free_head {
            Some(i) => {
                proof {
                    assert(self.slots@.len() == n as int);
                    assert(self.free_list@.len() > 0 && self.free_list@[0] == i);
                }
                let (g, next) = match &self.slots[i] {
                    Slot::Free { next_free, generation } => (*generation, *next_free),
                    Slot::Occupied { .. } => unreached(),
                };
                let ghost old_slots = self.slots@;
                let ghost fl = self.free_list@;
                self.slots.set(i, Slot::Occupied { value, generation: g });
                self.free_head = next;
                proof {
                    Self::lemma_num_occupied_free(old_slots, i as int);
                    Self::lemma_num_occupied_update(
                        old_slots,
                        i as int,
                        self.slots@[i as int],
                    );
                }
                self.count = self.count + 1;
                self.free_list = Ghost(self.free_list@.drop_first());
                let h = Handle { index: i, generation: g };
                proof {
                    let fl2 = self.free_list@;
                    let slots2 = self.slots@;
                    assert forall|m: int|
                        0 <= m < slots2.len() && (#[trigger] slots2[m]) is Free
                            && slots2[m].generation() < u64::MAX implies fl2.contains(
                        m as usize,
                    ) by {
                        assert(old_slots[m] is Free && old_slots[m].generation() < u64::MAX);
                        assert(fl.contains(m as usize));
                        let j = choose|j: int| 0 <= j < fl.len() && fl[j] == m as usize;
                        assert(m != i as int);
                        assert(j != 0);
                        assert(fl2[j - 1] == m as usize);
                    }
                    assert(self@ =~= old(self)@.insert(h, value));
                }
                h
            },
            None => {
                let ghost old_slots = self.slots@;
                let i = self.slots.len();
                self.slots.push(Slot::Occupied { value, generation: 0 });
                let new_len = self.slots.len();
                proof {
                    Self::lemma_num_occupied_le(old_slots);
                    Self::lemma_num_occupied_push(old_slots, self.slots@.last());
                    assert(self.count < new_len);
                }
                self.count = self.count + 1;
                let h = Handle { index: i, generation: 0 };
                proof {
                    assert(self@ =~= old(self)@.insert(h, value));
                }
                h
            },
        }
    }

    proof fn lemma_num_occupied_pos(slots: Seq<Slot<T>>, i: int)
        requires
            0 <= i < slots.len(),
            slots[i] is Occupied,
        ensures
            Self::num_occupied(slots) >= 1,
        decreases slots.len(),
    {
        if i < slots.len() - 1 {
            Self::lemma_num_occupied_pos(slots.drop_last(), i);
        }
    }

    /// Removes the value named by a valid handle and returns it. The slot's
    /// generation is bumped, so the presented handle and every copy of it is
    /// stale from then on, and the slot is pushed onto the free list for
    /// reuse — unless its generation counter would wrap, in which case the
    /// slot is retired and never reused. An invalid handle (stale, never
    /// issued, or out of range) leaves the table unchanged and returns
    /// `None`, so removal is idempotent.
    #[verifier::rlimit(100)]
    pub fn remove(&mut self, handle: &Handle) -> (r: Option<T>)
        requires
            old(self).wf(),
        ensures
            final(self).wf(),
            old(self)@.dom().contains(*handle) ==> r == Some(old(self)@[*handle]),
            !old(self)@.dom().contains(*handle) ==> r is None && *final(self) == *old(self),
            final(self)@ =~= old(self)@.remove(*handle),
            old(self)@.dom().contains(*handle) ==> {
                &&& final(self).stale(*handle)
                &&& final(self).slot_generation(handle.index as int) == handle.generation + 1
                &&& final(self).free_slots() =~= (if handle.generation + 1 < u64::MAX {
                    seq![handle.index].add(old(self).free_slots())
                } else {
                    old(self).free_slots()
                })
            },
            final(self).num_slots() == old(self).num_slots(),
            forall|i: int|
                0 <= i < old(self).num_slots() && i != handle.index as int
                    ==> final(self).slot_generation(i) == old(self).slot_generation(i),
            forall|h2: Handle| old(self).stale(h2) ==> final(self).stale(h2),
    {
        if handle.index >= self.slots.len() {
            return None;
        }
        let (ok, g) = match &self.slots[handle.index] {
            Slot::Occupied { generation, .. } => (*generation == handle.generation, *generation),
            Slot::Free { .. } => (false, 0),
        };
        if !ok {
            return None;
        }
        let ghost old_slots = self.slots@;
        let ghost fl = self.free_list@;
        let new_gen = g + 1;
        let next_free = if new_gen < u64::MAX {
            self.free_head
        } else {
            None
        };
        let mut taken = Slot::Free { next_free, generation: new_gen };
        self.slots.set_and_swap(handle.index, &mut taken);
        proof {
            Self::lemma_num_occupied_pos(old_slots, handle.index as int);
            Self::lemma_num_occupied_update(
                old_slots,
                handle.index as int,
                self.slots@[handle.index as int],
            );
            assert forall|j: int| 0 <= j < fl.len() implies #[trigger] fl[j]
                != handle.index by {
                assert(old_slots[fl[j] as int] is Free);
            }
        }
        self.count = self.count - 1;
        if new_gen < u64::MAX {
            self.free_head = Some(handle.index);
            self.free_list = Ghost(seq![handle.index].add(self.free_list@));
        }
        proof {
            let slots2 = self.slots@;
            let fl2 = self.free_list@;
            assert forall|m: int|
                0 <= m < slots2.len() && (#[trigger] slots2[m]) is Free && slots2[m].generation()
                    < u64::MAX implies fl2.contains(m as usize) by {
                if m == handle.index as int {
                    assert(fl2[0] == handle.index);
                } else {
                    assert(old_slots[m] is Free && old_slots[m].generation() < u64::MAX);
                    assert(fl.contains(m as usize));
                    let j = choose|j: int| 0 <= j < fl.len() && fl[j] == m as usize;
                    if new_gen < u64::MAX {
                        assert(fl2[j + 1] == m as usize);
                    }
                }
            }
            assert(self@ =~= old(self)@.remove(*handle));
            assert(self.count == Self::num_occupied(slots2));
            assert(self.free_head == (if fl2.len() > 0 {
                Some(fl2[0])
            } else {
                None::<usize>
            }));
            assert(forall|j: int|
                0 <= j < fl2.len() ==> (#[trigger] fl2[j]) < slots2.len() && slots2[fl2[j] as int]
                    is Free && slots2[fl2[j] as int].generation() < u64::MAX);
            assert(forall|j: int, k: int|
                0 <= j < fl2.len() && 0 <= k < fl2.len() && j != k ==> #[trigger] fl2[j]
                    != #[trigger] fl2[k]);
            assert forall|j: int| 0 <= j < fl2.len() implies slots2[#[trigger] fl2[j] as int].next_free()
                == (if j + 1 < fl2.len() {
                Some(fl2[j + 1])
            } else {
                None::<usize>
            }) by {
                if new_gen < u64::MAX && j > 0 {
                    assert(fl2[j] == fl[j - 1]);
                    assert(fl[j - 1] != handle.index);
                }
            }
            assert(self.wf());
            assert(Self::stale_in(slots2, *handle));
        }
        match taken {
            Slot::Occupied { value, .. } => Some(value),
            Slot::Free { .. } => unreached(),
        }
    }

    /// Returns a reference to the value iff the handle is valid: stale
    /// handles, never-issued handles and out-of-range indices all answer
    /// `None`, with no side effect.
    pub fn get(&self, handle: &Handle) -> (r: Option<&T>)
        ensures
            match r {
                Some(v) => self@.dom().contains(*handle) && *v == self@[*handle],
                None => !self@.dom().contains(*handle),
            },
    {
        if handle.index < self.slots.len() {
            match &self.slots[handle.index] {
                Slot::Occupied { value, generation } => {
                    if *generation == handle.generation {
                        Some(value)
                    } else {
                        None
                    }
                },
                Slot::Free { .. } => None,
            }
        } else {
            None
        }
    }

    /// Borrow the value inside an occupied slot; the slot's tag and
    /// generation stay what they were, whatever is written through the
    /// borrow.
    fn slot_value_mut(slot: &mut Slot<T>) -> (r: &mut T)
        requires
            (*old(slot)) is Occupied,
        ensures
            *r == old(slot).value(),
            *final(slot) == (Slot::Occupied {
                value: *final(r),
                generation: old(slot).generation(),
            }),
    {
        match slot {
            Slot::Occupied { value, .. } => value,
            Slot::Free { .. } => unreached(),
        }
    }

    /// Returns a mutable reference to the value iff the handle is valid;
    /// invalid handles answer `None` and leave the table unchanged. Writing
    /// through the reference replaces the value the handle maps to and
    /// nothing else: the handle stays valid, and no slot changes its
    /// generation or its place on the free list.
    #[verifier::rlimit(100)]
    pub fn get_mut(&mut self, handle: &Handle) -> (r: Option<&mut T>)
        ensures
            match r {
                Some(v) => {
                    &&& old(self)@.dom().contains(*handle)
                    &&& *v == old(self)@[*handle]
                    &&& final(self)@ =~= old(self)@.insert(*handle, *final(v))
                },
                None => !old(self)@.dom().contains(*handle) && *final(self) == *old(self),
            },
            old(self).wf() ==> final(self).wf(),
            final(self).num_slots() == old(self).num_slots(),
            final(self).free_slots() == old(self).free_slots(),
            forall|i: int|
                0 <= i < old(self).num_slots() ==> final(self).slot_generation(i) == old(
                    self,
                ).slot_generation(i),
            forall|h2: Handle| old(self).stale(h2) ==> final(self).stale(h2),
    {
        if handle.index >= self.slots.len() {
            return None;
        }
        let ok = match &self.slots[handle.index] {
            Slot::Occupied { generation, .. } => *generation == handle.generation,
            Slot::Free { .. } => false,
        };
        if !ok {
            return None;
        }
        proof {
            let slots0 = self.slots@;
            let g = handle.generation;
            let i = handle.index as int;
            assert forall|v: T|
                Self::num_occupied(
                    #[trigger] slots0.update(i, Slot::Occupied { value: v, generation: g }),
                ) == Self::num_occupied(slots0) && Self::map_of(
                    slots0.update(i, Slot::Occupied { value: v, generation: g }),
                ) =~= Self::map_of(slots0).insert(*handle, v) by {
                let slots2 = slots0.update(i, Slot::Occupied { value: v, generation: g });
                Self::lemma_num_occupied_update(
                    slots0,
                    i,
                    Slot::Occupied { value: v, generation: g },
                );
                assert(Self::map_of(slots2) =~= Self::map_of(slots0).insert(*handle, v));
            }
        }
        let slot = &mut self.slots[handle.index];
        let v = Self::slot_value_mut(slot);
        Some(v)
    }

    /// The set of handles that are valid against `slots`.
    spec fn valid_set(slots: Seq<Slot<T>>) -> Set<Handle> {
        Set::new(|h: Handle| Self::valid_in(slots, h))
    }

    /// Each occupied slot validates exactly one handle, so the valid handles
    /// form a finite set with one member per occupied slot.
    proof fn lemma_valid_set_card(slots: Seq<Slot<T>>)
        requires
            slots.len() <= usize::MAX,
        ensures
            Self::valid_set(slots).finite(),
            Self::valid_set(slots).len() == Self::num_occupied(slots),
        decreases slots.len(),
    {
        if slots.len() == 0 {
            assert(Self::valid_set(slots) =~= Set::<Handle>::empty());
        } else {
            let s2 = slots.drop_last();
            Self::lemma_valid_set_card(s2);
            let n = slots.len() - 1;
            if slots.last() is Occupied {
                let h = Handle { index: n as usize, generation: slots[n].generation() };
                assert(Self::valid_set(slots) =~= Self::valid_set(s2).insert(h));
                assert(!Self::valid_set(s2).contains(h));
            } else {
                assert(Self::valid_set(slots) =~= Self::valid_set(s2));
            }
        }
    }

    /// Returns the occupied count. It is tracked incrementally, not
    /// recomputed by scanning, and always equals the number of handles the
    /// table currently reports as present.
    pub fn len(&self) -> (r: usize)
        requires
            self.wf(),
        ensures
            self@.dom().finite(),
            r == self@.dom().len(),
    {
        let n = self.slots.len();
        proof {
            assert(self.slots@.len() == n as int);
            Self::lemma_valid_set_card(self.slots@);
            assert(self@.dom() =~= Self::valid_set(self.slots@));
        }
        self.count
    }

    /// The handles of all occupied slots, in increasing index order: exactly
    /// the currently valid handles, each once, and none of the removed ones.
    /// Pair each with `get` to read its value. The scan visits every slot,
    /// free or not, an accepted trade-off against keeping a dense auxiliary
    /// index list.
    pub fn iter(&self) -> (r: Vec<Handle>)
        ensures
            forall|a: int, b: int| 0 <= a < b < r@.len() ==> r@[a].index < r@[b].index,
            forall|k: int| 0 <= k < r@.len() ==> self@.dom().contains(#[trigger] r@[k]),
            forall|h: Handle| self@.dom().contains(h) ==> r@.contains(h),
    {
        let mut out: Vec<Handle> = Vec::new();
        let n = self.slots.len();
        let mut i: usize = 0;
        while i < n
            invariant
                n == self.slots@.len(),
                i <= n,
                forall|a: int, b: int| 0 <= a < b < out@.len() ==> out@[a].index < out@[b].index,
                forall|k: int|
                    0 <= k < out@.len() ==> self.valid(#[trigger] out@[k]) && out@[k].index < i,
                forall|h: Handle| self.valid(h) && h.index < i ==> out@.contains(h),
            decreases n - i,
        {
            let ghost out0 = out@;
            match &self.slots[i] {
                Slot::Occupied { generation, .. } => {
                    out.push(Handle { index: i, generation: *generation });
                },
                Slot::Free { .. } => {},
            }
            proof {
                assert forall|h: Handle| self.valid(h) && h.index < i + 1 implies out@.contains(
                    h,
                ) by {
                    if h.index < i {
                        let k = choose|k: int| 0 <= k < out0.len() && out0[k] == h;
                        assert(out@[k] == h);
                    } else {
                        assert(out@[out@.len() - 1] == h);
                    }
                }
            }
            i = i + 1;
        }
        out
    }

    /// Law: a stale handle is never reported as present. Removal makes the
    /// presented handle stale, and every operation leaves stale handles
    /// stale, so once a removal frees a slot, the handles issued for its
    /// earlier occupants are never valid again, however often the slot is
    /// reused.
    pub proof fn lemma_stale_is_invalid(self, h: Handle)
        ensures
            self.stale(h) ==> !self@.dom().contains(h),
    {
    }

    /// Law: reading right after an insertion round-trips — in the state an
    /// insertion of `value` that returned `h` leaves behind, `h` is present
    /// and maps to `value`, which is what `get` and `contains` then report.
    pub proof fn lemma_insert_get_round_trip(pre: Map<Handle, T>, post: Map<Handle, T>, h: Handle, value: T)
        requires
            post == pre.insert(h, value),
        ensures
            post.dom().contains(h),
            post[h] == value,
    {
    }

    /// Law: removal is idempotent — a successful removal of `h` leaves a
    /// state in which `h` is no longer present, so a second removal with the
    /// same handle returns nothing and leaves the table unchanged.
    pub proof fn lemma_remove_idempotent(pre: Map<Handle, T>, post: Map<Handle, T>, h: Handle)
        requires
            post == pre.remove(h),
        ensures
            !post.dom().contains(h),
    {
    }

    /// Whether the handle is valid, without borrowing the value.
    pub fn contains(&self, handle: &Handle) -> (r: bool)
        ensures
            r == self@.dom().contains(*handle),
    {
        self.get(handle).is_some()
    }
}

impl<T> View for HandleMap<T> {
    type V = Map<Handle, T>;

    /// The table abstracts to the finite map from currently valid handles to
    /// the values stored in their slots.
    closed spec fn view(&self) -> Map<Handle, T> {
        Map::new(|h: Handle| self.valid(h), |h: Handle| self.slots@[h.index as int].value())
    }
}

} // verus!
