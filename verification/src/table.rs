//! The handle table: an arena that owns values and hands out small integer
//! handles for them. A freed slot is reused by the next insertion.

use vstd::prelude::*;

verus! {

/// The largest number of values a table holds at once. Handles are the slot
/// indices `0 .. MAX_HANDLES`, so every handle fits in 32 bits on every target.
pub const MAX_HANDLES: usize = 0xffff_ffff;

/// The failure of [`HandleTable::remove`]: the handle names no live entry.
#[derive(Clone, Copy, Debug, PartialEq, Eq, Structural)]
pub struct NotFound;

impl NotFound {
    /// The text this failure is reported with.
    pub fn message(&self) -> (text: &'static str)
        ensures
            text@ == "invalid handle index"@,
    {
        "invalid handle index"
    }
}

enum Slot<V> {
    /// A free slot; `next_empty` is the free slot after it, or the number of
    /// slots when it is the last one.
    Empty { next_empty: usize },
    Full { item: V },
}

/// An arena of values addressed by handle.
///
/// Its view is the map from each live handle to the value stored under it.
pub struct HandleTable<V> {
    elems: Vec<Slot<V>>,
    /// The first free slot, or `elems.len()` when none is free.
    next: usize,
    /// The free slots in the order in which insertions will take them.
    free: Ghost<Seq<u32>>,
}

impl<V> View for HandleTable<V> {
    type V = Map<u32, V>;

    closed spec fn view(&self) -> Map<u32, V> {
        Map::new(
            |h: u32| (h as int) < self.elems@.len() && self.elems@[h as int] is Full,
            |h: u32| self.elems@[h as int]->item,
        )
    }
}

impl<V> HandleTable<V> {
    /// The slot that follows the `i`-th free slot in the free chain.
    spec fn link(&self, i: int) -> usize {
        if i + 1 < self.free@.len() {
            self.free@[i + 1] as usize
        } else {
            self.elems@.len() as usize
        }
    }

    /// The freed handles that are waiting to be issued again, the next one
    /// first.
    pub closed spec fn free_handles(&self) -> Seq<u32> {
        self.free@
    }

    /// The number of slots the table has ever used: the live handles and the
    /// free ones are exactly the numbers below it.
    pub closed spec fn slots(&self) -> nat {
        self.elems@.len()
    }

    /// The representation invariant. Every constructor establishes it and every
    /// method keeps it.
    pub closed spec fn wf(&self) -> bool {
        &&& self.elems@.len() <= MAX_HANDLES
        &&& self.next == (if self.free@.len() > 0 {
            self.free@[0] as usize
        } else {
            self.elems@.len() as usize
        })
        &&& forall|i: int|
            0 <= i < self.free@.len() ==> {
                &&& (#[trigger] self.free@[i]) < self.elems@.len()
                &&& self.elems@[self.free@[i] as int] matches Slot::Empty { next_empty }
                &&& next_empty == self.link(i)
            }
        &&& forall|i: int, j: int|
            0 <= i < j < self.free@.len() ==> self.free@[i] != self.free@[j]
        &&& forall|k: int|
            0 <= k < self.elems@.len() && (#[trigger] self.elems@[k]) is Empty
                ==> self.free@.contains(k as u32)
        &&& self@.dom().finite()
        &&& self@.dom().len() + self.free@.len() == self.elems@.len()
    }

    /// The handle that the next insertion returns: the most recently freed
    /// one, or a new one when none is free.
    pub open spec fn next_handle(&self) -> u32 {
        if self.free_handles().len() > 0 {
            self.free_handles()[0]
        } else {
            self.slots() as u32
        }
    }

    /// Whether the table holds as many values as it can.
    pub open spec fn full(&self) -> bool {
        self@.dom().len() >= MAX_HANDLES
    }

    /// What the representation invariant says of the abstract state: the
    /// live handles and the free handles are exactly the slots below
    /// `slots()`, no handle is both or is free twice, and there are never more
    /// than `MAX_HANDLES` slots.
    pub proof fn lemma_layout(&self)
        requires
            self.wf(),
        ensures
            self.slots() <= MAX_HANDLES,
            self@.dom().finite(),
            self@.dom().len() + self.free_handles().len() == self.slots(),
            forall|h: u32|
                (#[trigger] self@.contains_key(h) || self.free_handles().contains(h)) <==> h
                    < self.slots(),
            forall|h: u32|
                !(#[trigger] self@.contains_key(h) && self.free_handles().contains(h)),
            self.free_handles().no_duplicates(),
            !self@.contains_key(self.next_handle()),
            self.full() <==> (self.free_handles().len() == 0 && self.slots() == MAX_HANDLES),
    {
        assert forall|h: u32| h < self.slots() implies (self@.contains_key(h)
            || self.free_handles().contains(h)) by {
            if !(self.elems@[h as int] is Full) {
                assert(self.elems@[h as int] is Empty);
            }
        }
        assert forall|h: u32| self.free_handles().contains(h) implies h < self.slots()
            && !self@.contains_key(h) by {
            let i = choose|i: int| 0 <= i < self.free@.len() && self.free@[i] == h;
            assert(self.free@[i] < self.elems@.len());
        }
        if self.free@.len() > 0 {
            assert(self.free@[0] < self.elems@.len());
        }
    }

    /// An empty table.
    pub fn new() -> (table: Self)
        ensures
            table.wf(),
            table@ == Map::<u32, V>::empty(),
            table.free_handles() == Seq::<u32>::empty(),
            table.slots() == 0,
    {
        let table = HandleTable { elems: Vec::new(), next: 0, free: Ghost(Seq::empty()) };
        assert(table@ =~= Map::<u32, V>::empty());
        table
    }

    /// Whether no further value can be inserted.
    pub fn is_full(&self) -> (b: bool)
        requires
            self.wf(),
        ensures
            b == self.full(),
    {
        self.next == self.elems.len() && self.elems.len() >= MAX_HANDLES
    }

    /// Whether `handle` names a live entry.
    pub fn contains(&self, handle: u32) -> (b: bool)
        requires
            self.wf(),
        ensures
            b == self@.contains_key(handle),
    {
        let idx = handle as usize;
        if idx >= self.elems.len() {
            return false;
        }
        match &self.elems[idx] {
            Slot::Full { .. } => true,
            Slot::Empty { .. } => false,
        }
    }

    /// Stores `item` and returns the handle it is now known by. The handle is
    /// one that was not live before; every other entry stays as it was.
    pub fn insert(&mut self, item: V) -> (handle: u32)
        requires
            old(self).wf(),
            !old(self).full(),
        ensures
            final(self).wf(),
            handle == old(self).next_handle(),
            !old(self)@.contains_key(handle),
            final(self)@ == old(self)@.insert(handle, item),
            old(self).free_handles().len() > 0 ==> {
                &&& final(self).free_handles() == old(self).free_handles().drop_first()
                &&& final(self).slots() == old(self).slots()
            },
            old(self).free_handles().len() == 0 ==> {
                &&& final(self).free_handles() == old(self).free_handles()
                &&& final(self).slots() == old(self).slots() + 1
            },
    {
        proof {
            self.lemma_layout();
        }
        let idx = self.next;
        if idx == self.elems.len() {
            self.elems.push(Slot::Full { item });
            self.next = idx + 1;
            proof {
                assert(self@ =~= old(self)@.insert(idx as u32, item));
                assert forall|k: int|
                    0 <= k < self.elems@.len() && (#[trigger] self.elems@[k]) is Empty
                    implies self.free@.contains(k as u32) by {
                    assert(old(self).elems@[k] is Empty);
                }
            }
        } else {
            let ghost before = *self;
            assert(self.free@.len() > 0);
            assert(self.free@[0] as usize == idx);
            let next_empty = match &self.elems[idx] {
                Slot::Empty { next_empty } => *next_empty,
                Slot::Full { .. } => idx,
            };
            self.elems.set(idx, Slot::Full { item });
            self.next = next_empty;
            self.free = Ghost(self.free@.drop_first());
            proof {
                assert(next_empty == before.link(0));
                assert(self@ =~= before@.insert(idx as u32, item));
                assert forall|i: int| 0 <= i < self.free@.len() implies {
                    &&& (#[trigger] self.free@[i]) < self.elems@.len()
                    &&& self.elems@[self.free@[i] as int] matches Slot::Empty { next_empty }
                    &&& next_empty == self.link(i)
                } by {
                    assert(self.free@[i] == before.free@[i + 1]);
                    assert(before.free@[i + 1] != before.free@[0]);
                    assert(self.link(i) == before.link(i + 1));
                }
                assert forall|i: int, j: int| 0 <= i < j < self.free@.len() implies self.free@[i]
                    != self.free@[j] by {
                    assert(self.free@[i] == before.free@[i + 1]);
                    assert(self.free@[j] == before.free@[j + 1]);
                }
                assert forall|k: int|
                    0 <= k < self.elems@.len() && (#[trigger] self.elems@[k]) is Empty
                    implies self.free@.contains(k as u32) by {
                    assert(before.elems@[k] is Empty);
                    assert(before.free@.contains(k as u32));
                    let i = choose|i: int| 0 <= i < before.free@.len() && before.free@[i] == k;
                    assert(i != 0);
                    assert(self.free@[i - 1] == k as u32);
                }
            }
        }
        idx as u32
    }

    /// The value stored under `handle`, if `handle` is live.
    pub fn get(&self, handle: u32) -> (found: Option<&V>)
        requires
            self.wf(),
        ensures
            match found {
                Some(item) => self@.contains_key(handle) && *item == self@[handle],
                None => !self@.contains_key(handle),
            },
    {
        let idx = handle as usize;
        if idx >= self.elems.len() {
            return None;
        }
        match &self.elems[idx] {
            Slot::Full { item } => Some(item),
            Slot::Empty { .. } => None,
        }
    }

    /// The value stored under `handle`, for changing it in place. No handle
    /// is issued or freed by the change.
    pub fn get_mut(&mut self, handle: u32) -> (found: Option<&mut V>)
        requires
            old(self).wf(),
        ensures
            final(self).wf(),
            final(self).free_handles() == old(self).free_handles(),
            final(self).slots() == old(self).slots(),
            match found {
                Some(item) => {
                    &&& old(self)@.contains_key(handle)
                    &&& *item == old(self)@[handle]
                    &&& final(self)@ == old(self)@.insert(handle, *final(item))
                },
                None => {
                    &&& !old(self)@.contains_key(handle)
                    &&& *final(self) == *old(self)
                },
            },
    {
        let idx = handle as usize;
        if idx >= self.elems.len() {
            return None;
        }
        let live = match &self.elems[idx] {
            Slot::Full { .. } => true,
            Slot::Empty { .. } => false,
        };
        if !live {
            return None;
        }
        let ghost before = *old(self);
        let ghost after = *final(self);
        match &mut self.elems[idx] {
            Slot::Full { item } => {
                proof {
                    assert(after.elems@ =~= before.elems@.update(
                        idx as int,
                        Slot::Full { item: *final(item) },
                    ));
                    assert(after@ =~= before@.insert(handle, *final(item)));
                    assert(after@.dom() =~= before@.dom());
                    assert forall|i: int| 0 <= i < after.free@.len() implies {
                        &&& (#[trigger] after.free@[i]) < after.elems@.len()
                        &&& after.elems@[after.free@[i] as int] matches Slot::Empty { next_empty }
                        &&& next_empty == after.link(i)
                    } by {
                        assert(before.free@[i] != idx);
                        assert(after.link(i) == before.link(i));
                    }
                    assert forall|k: int|
                        0 <= k < after.elems@.len() && (#[trigger] after.elems@[k]) is Empty
                        implies after.free@.contains(k as u32) by {
                        assert(before.elems@[k] is Empty);
                    }
                }
                Some(item)
            },
            Slot::Empty { .. } => None,
        }
    }

    /// Takes the value stored under `handle` out of the table. The slot is the
    /// first to be reused: the next insertion returns `handle` again. On an
    /// unknown handle nothing changes.
    pub fn remove(&mut self, handle: u32) -> (taken: Result<V, NotFound>)
        requires
            old(self).wf(),
        ensures
            final(self).wf(),
            match taken {
                Ok(item) => {
                    &&& old(self)@.contains_key(handle)
                    &&& item == old(self)@[handle]
                    &&& final(self)@ == old(self)@.remove(handle)
                    &&& final(self).free_handles() == seq![handle] + old(self).free_handles()
                    &&& final(self).slots() == old(self).slots()
                },
                Err(_) => {
                    &&& !old(self)@.contains_key(handle)
                    &&& *final(self) == *old(self)
                },
            },
    {
        let idx = handle as usize;
        if idx >= self.elems.len() {
            return Err(NotFound);
        }
        let live = match &self.elems[idx] {
            Slot::Full { .. } => true,
            Slot::Empty { .. } => false,
        };
        if !live {
            return Err(NotFound);
        }
        let ghost before = *self;
        let mut slot = Slot::Empty { next_empty: self.next };
        core::mem::swap(&mut self.elems[idx], &mut slot);
        self.next = idx;
        self.free = Ghost(seq![handle].add(self.free@));
        proof {
            assert(self@ =~= before@.remove(handle));
            assert forall|i: int| 0 <= i < self.free@.len() implies {
                &&& (#[trigger] self.free@[i]) < self.elems@.len()
                &&& self.elems@[self.free@[i] as int] matches Slot::Empty { next_empty }
                &&& next_empty == self.link(i)
            } by {
                if i > 0 {
                    assert(self.free@[i] == before.free@[i - 1]);
                    assert(self.link(i) == before.link(i - 1));
                }
            }
            assert forall|i: int, j: int| 0 <= i < j < self.free@.len() implies self.free@[i]
                != self.free@[j] by {
                assert(self.free@[j] == before.free@[j - 1]);
                if i > 0 {
                    assert(self.free@[i] == before.free@[i - 1]);
                }
            }
            assert forall|k: int|
                0 <= k < self.elems@.len() && (#[trigger] self.elems@[k]) is Empty
                implies self.free@.contains(k as u32) by {
                if k == idx {
                    assert(self.free@[0] == k as u32);
                } else {
                    assert(before.elems@[k] is Empty);
                    let i = choose|i: int| 0 <= i < before.free@.len() && before.free@[i] == k;
                    assert(self.free@[i + 1] == k as u32);
                }
            }
        }
        match slot {
            Slot::Full { item } => Ok(item),
            Slot::Empty { .. } => Err(NotFound),
        }
    }
}

} // verus!
