//! Allocation arena with dynamically checked handles.
//!
//! An arena keeps every value allocated in it alive, at a stable heap address, until the
//! arena itself is dropped; the values are then dropped in the order in which they were
//! allocated. Handles do not borrow from the arena. They carry the arena's index instead,
//! and resolving a handle checks that index.
//!
//! A value of a zero-sized type takes no allocation and is recorded in no list: its
//! handle is the sentinel, which stands for every zero-sized allocation of the arena and
//! resolves to the value that was allocated last. The arena keeps the zero-sized values
//! until it is dropped itself.

use core::marker::PhantomData;
use vstd::layout::size_of;
use vstd::prelude::*;

verus! {

/// The slot of the sentinel handle.
pub const SENTINEL: usize = usize::MAX;

/// An allocation arena of values of type `T`.
pub struct Arena<T> {
    allocs: Vec<Box<T>>,
    /// The zero-sized values. They take no memory, here or in the vector.
    units: Vec<T>,
    index: usize,
}

/// Shared handle to an allocation of an arena. Freely copyable; reading through it takes
/// the arena that made it.
#[derive(Debug)]
pub struct Ref<T> {
    slot: usize,
    arena_index: usize,
    marker: PhantomData<T>,
}

/// Owning handle to an allocation of an arena. There is one per allocation, and it is not
/// copyable, so it can be resolved to a mutable reference.
#[derive(Debug)]
pub struct Own<T> {
    slot: usize,
    arena_index: usize,
    marker: PhantomData<T>,
}

/// Owning handle whose referent additionally never moves.
#[derive(Debug)]
pub struct OwnPinned<T> {
    slot: usize,
    arena_index: usize,
    marker: PhantomData<T>,
}

/// A handle was presented to an arena that did not make it.
#[derive(Debug, Clone, Copy, PartialEq, Eq, PartialOrd, Ord, Hash)]
pub struct DifferentArenaError;

impl DifferentArenaError {
    /// The text of this error.
    pub fn message(&self) -> (text: &'static str)
        ensures
            text@ == "reference was allocated in a different arena"@,
    {
        "reference was allocated in a different arena"
    }
}

impl<T> Clone for Ref<T> {
    fn clone(&self) -> (copy: Self)
        ensures
            copy == *self,
    {
        Ref { slot: self.slot, arena_index: self.arena_index, marker: PhantomData }
    }
}

impl<T> Copy for Ref<T> {

}

impl<T> Ref<T> {
    /// Position of the allocation within its arena.
    pub closed spec fn slot(&self) -> int {
        self.slot as int
    }

    /// Position of the allocation within its arena.
    pub fn position(&self) -> (slot: usize)
        ensures
            slot == self.slot(),
    {
        self.slot
    }

    /// Index of the arena that made this handle.
    pub closed spec fn arena_index(&self) -> usize {
        self.arena_index
    }
}

impl<T> Own<T> {
    /// Position of the allocation within its arena.
    pub closed spec fn slot(&self) -> int {
        self.slot as int
    }

    /// Index of the arena that made this handle.
    pub closed spec fn arena_index(&self) -> usize {
        self.arena_index
    }

    /// A shared handle to the same allocation.
    pub fn share(&self) -> (re: Ref<T>)
        ensures
            re.slot() == self.slot(),
            re.arena_index() == self.arena_index(),
    {
        Ref { slot: self.slot, arena_index: self.arena_index, marker: PhantomData }
    }

    /// Gives up mutability: turns the owning handle into a shared one to the same
    /// allocation.
    pub fn downgrade(self) -> (re: Ref<T>)
        ensures
            re.slot() == self.slot(),
            re.arena_index() == self.arena_index(),
    {
        Ref { slot: self.slot, arena_index: self.arena_index, marker: PhantomData }
    }
}

impl<T> OwnPinned<T> {
    /// Position of the allocation within its arena.
    pub closed spec fn slot(&self) -> int {
        self.slot as int
    }

    /// Index of the arena that made this handle.
    pub closed spec fn arena_index(&self) -> usize {
        self.arena_index
    }
}

impl<T> View for Arena<T> {
    type V = Seq<T>;

    /// The allocated values, in allocation order.
    closed spec fn view(&self) -> Seq<T> {
        Seq::new(self.allocs@.len(), |i: int| *self.allocs@[i])
    }
}

impl<T> Arena<T> {
    /// The index that tells this arena from every other.
    pub closed spec fn spec_index(&self) -> usize {
        self.index
    }

    /// What the sentinel handle resolves to: the zero-sized value that was allocated
    /// last, if there was one.
    pub closed spec fn sentinel(&self) -> Option<T> {
        if self.units@.len() == 0 {
            None
        } else {
            Some(self.units@.last())
        }
    }

    /// Whether the values of the arena are of a zero-sized type.
    pub open spec fn zero_sized() -> bool {
        size_of::<T>() == 0
    }

    /// Whether a handle with this arena index and slot resolves in this arena: it is of
    /// this arena, and it leads to a recorded allocation or is the sentinel of a
    /// zero-sized allocation.
    pub open spec fn resolves(&self, arena_index: usize, slot: int) -> bool {
        arena_index == self.spec_index() && (0 <= slot < self@.len() || (slot == SENTINEL
            && Self::zero_sized() && self.sentinel() is Some))
    }

    /// The value that a handle with this slot resolves to.
    pub open spec fn at(&self, slot: int) -> T {
        if 0 <= slot < self@.len() {
            self@[slot]
        } else {
            self.sentinel()->0
        }
    }

    /// Whether `after` is this arena with `value` behind the handle with this slot, and
    /// everything else as it was.
    pub open spec fn put(&self, slot: int, value: T, after: Self) -> bool {
        &&& after.spec_index() == self.spec_index()
        &&& if 0 <= slot < self@.len() {
            after@ == self@.update(slot, value) && after.sentinel() == self.sentinel()
        } else {
            after@ == self@ && after.sentinel() == Some(value)
        }
    }

    /// Whether `after` is this arena with `value` allocated in it: a zero-sized value is
    /// recorded in no list and stands behind the sentinel, any other value is recorded
    /// last.
    pub open spec fn stored(&self, value: T, after: Self) -> bool {
        &&& after.spec_index() == self.spec_index()
        &&& if Self::zero_sized() {
            after@ == self@ && after.sentinel() == Some(value)
        } else {
            after@ == self@.push(value) && after.sentinel() == self.sentinel()
        }
    }

    /// Whether `after` is this arena with `value` allocated in it, and `slot` the slot
    /// of the handle to it: the sentinel for a zero-sized value, else the place in the
    /// list.
    pub open spec fn allocated(&self, value: T, slot: int, after: Self) -> bool {
        &&& self.stored(value, after)
        &&& slot == (if Self::zero_sized() {
            SENTINEL as int
        } else {
            self@.len() as int
        })
    }

    /// Creates an empty arena with the given index.
    ///
    /// The index is all that tells the handles of one arena from those of another: two
    /// arenas that were given one index resolve each other's handles. The caller has to
    /// give every arena an index of its own; an [`ArenaCounter`] hands out every index
    /// once.
    pub fn new(index: usize) -> (arena: Self)
        ensures
            arena@ == Seq::<T>::empty(),
            arena.sentinel() is None,
            arena.spec_index() == index,
    {
        let arena = Arena { allocs: Vec::new(), units: Vec::new(), index };
        assert(arena@ =~= Seq::<T>::empty());
        arena
    }

    /// The index that tells this arena from every other.
    pub fn index(&self) -> (index: usize)
        ensures
            index == self.spec_index(),
    {
        self.index
    }

    /// Number of recorded allocations.
    pub fn len(&self) -> (len: usize)
        ensures
            len == self@.len(),
    {
        self.allocs.len()
    }

    /// Moves `value` into a fresh recorded allocation, whatever its size, and returns an
    /// owning handle to it.
    pub(crate) fn alloc_recorded(&mut self, value: T) -> (own: Own<T>)
        ensures
            final(self)@ == old(self)@.push(value),
            final(self).sentinel() == old(self).sentinel(),
            final(self).spec_index() == old(self).spec_index(),
            own.slot() == old(self)@.len(),
            own.arena_index() == old(self).spec_index(),
    {
        let slot = self.record(value);
        Own { slot, arena_index: self.index, marker: PhantomData }
    }

    /// Moves `value` into the arena and returns the slot of its handle.
    fn alloc_slot(&mut self, value: T) -> (slot: usize)
        ensures
            old(self).allocated(value, slot as int, *final(self)),
            final(self).resolves(final(self).spec_index(), slot as int),
            final(self).at(slot as int) == value,
    {
        if core::mem::size_of::<T>() == 0 {
            let recorded = self.allocs.len();
            self.units.push(value);
            assert(self@ =~= old(self)@);
            SENTINEL
        } else {
            self.record(value)
        }
    }

    /// Moves `value` into a fresh recorded allocation and returns its slot.
    fn record(&mut self, value: T) -> (slot: usize)
        ensures
            slot == old(self)@.len(),
            final(self)@ == old(self)@.push(value),
            final(self).sentinel() == old(self).sentinel(),
            final(self).spec_index() == old(self).spec_index(),
    {
        let slot = self.allocs.len();
        self.allocs.push(Box::new(value));
        assert(self@ =~= old(self)@.push(value));
        slot
    }

    /// Allocates a value in the arena and returns a mutable reference to it.
    pub fn allocate(&mut self, value: T) -> (r: &mut T)
        ensures
            *r == value,
            old(self).stored(*final(r), *final(self)),
    {
        let slot = self.alloc_slot(value);
        let recorded = self.len();
        assert forall|other: T|
            !Self::zero_sized() implies #[trigger] self@.update(slot as int, other) == old(
            self,
        )@.push(other) by {
            assert(self@.update(slot as int, other) =~= old(self)@.push(other));
        }
        self.slot_mut(slot)
    }

    /// Same as [`allocate`](Self::allocate); the referent never moves.
    pub fn alloc_pinned(&mut self, value: T) -> (r: &mut T)
        ensures
            *r == value,
            old(self).stored(*final(r), *final(self)),
    {
        self.allocate(value)
    }

    /// Same as [`allocate`](Self::allocate), but returns an owning handle.
    pub fn alloc_own(&mut self, value: T) -> (own: Own<T>)
        ensures
            old(self).allocated(value, own.slot(), *final(self)),
            own.arena_index() == old(self).spec_index(),
            final(self).resolves(own.arena_index(), own.slot()),
            final(self).at(own.slot()) == value,
    {
        let slot = self.alloc_slot(value);
        Own { slot, arena_index: self.index, marker: PhantomData }
    }

    /// Same as [`allocate`](Self::allocate), but returns an owning pinned handle.
    pub fn alloc_own_pinned(&mut self, value: T) -> (own: OwnPinned<T>)
        ensures
            old(self).allocated(value, own.slot(), *final(self)),
            own.arena_index() == old(self).spec_index(),
            final(self).resolves(own.arena_index(), own.slot()),
            final(self).at(own.slot()) == value,
    {
        let slot = self.alloc_slot(value);
        OwnPinned { slot, arena_index: self.index, marker: PhantomData }
    }

    /// A shared handle to the recorded allocation in `slot`.
    pub fn handle(&self, slot: usize) -> (re: Ref<T>)
        requires
            slot < self@.len(),
        ensures
            re.slot() == slot,
            re.arena_index() == self.spec_index(),
    {
        Ref { slot, arena_index: self.index, marker: PhantomData }
    }

    /// Whether a handle of this arena with this slot resolves.
    fn holds(&self, slot: usize) -> (held: bool)
        ensures
            held == self.resolves(self.spec_index(), slot as int),
    {
        slot < self.allocs.len() || (slot == SENTINEL && core::mem::size_of::<T>() == 0
            && self.units.len() > 0)
    }

    /// Shared access to the value behind the handle with this slot.
    fn slot_ref(&self, slot: usize) -> (r: &T)
        requires
            self.resolves(self.spec_index(), slot as int),
        ensures
            *r == self.at(slot as int),
    {
        if slot < self.allocs.len() {
            &*self.allocs[slot]
        } else {
            &self.units[self.units.len() - 1]
        }
    }

    /// Mutable access to the recorded allocation in `slot`.
    fn recorded_mut(&mut self, slot: usize) -> (r: &mut T)
        requires
            slot < old(self)@.len(),
        ensures
            *r == old(self)@[slot as int],
            final(self)@ == old(self)@.update(slot as int, *final(r)),
            final(self).sentinel() == old(self).sentinel(),
            final(self).spec_index() == old(self).spec_index(),
    {
        &mut *self.allocs[slot]
    }

    /// Mutable access to the value behind the sentinel.
    fn sentinel_mut(&mut self) -> (r: &mut T)
        requires
            old(self).sentinel() is Some,
        ensures
            *r == old(self).sentinel()->0,
            final(self)@ == old(self)@,
            final(self).sentinel() == Some(*final(r)),
            final(self).spec_index() == old(self).spec_index(),
    {
        let last = self.units.len() - 1;
        &mut self.units[last]
    }

    /// Mutable access to the value behind the handle with this slot.
    fn slot_mut(&mut self, slot: usize) -> (r: &mut T)
        requires
            old(self).resolves(old(self).spec_index(), slot as int),
        ensures
            *r == old(self).at(slot as int),
            old(self).put(slot as int, *final(r), *final(self)),
    {
        if slot < self.allocs.len() {
            self.recorded_mut(slot)
        } else {
            self.sentinel_mut()
        }
    }

    /// Resolves a shared handle, if this arena made it.
    pub fn try_get(&self, re: Ref<T>) -> (r: Result<&T, DifferentArenaError>)
        ensures
            match r {
                Ok(value) => self.resolves(re.arena_index(), re.slot()) && *value == self.at(
                    re.slot(),
                ),
                Err(_) => !self.resolves(re.arena_index(), re.slot()),
            },
    {
        if re.arena_index == self.index && self.holds(re.slot) {
            Ok(self.slot_ref(re.slot))
        } else {
            Err(DifferentArenaError)
        }
    }

    /// Same as [`try_get`](Self::try_get) for a handle that this arena made.
    pub fn get(&self, re: Ref<T>) -> (value: &T)
        requires
            self.resolves(re.arena_index(), re.slot()),
        ensures
            *value == self.at(re.slot()),
    {
        self.slot_ref(re.slot)
    }

    /// Resolves an owning handle to a mutable reference, if this arena made it.
    pub fn try_get_mut(&mut self, own: &mut Own<T>) -> (r: Result<&mut T, DifferentArenaError>)
        ensures
            *final(own) == *old(own),
            match r {
                Ok(value) => {
                    &&& old(self).resolves(old(own).arena_index(), old(own).slot())
                    &&& *value == old(self).at(old(own).slot())
                    &&& old(self).put(old(own).slot(), *final(value), *final(self))
                },
                Err(_) => {
                    &&& !old(self).resolves(old(own).arena_index(), old(own).slot())
                    &&& *final(self) == *old(self)
                },
            },
    {
        if own.arena_index == self.index && self.holds(own.slot) {
            Ok(self.slot_mut(own.slot))
        } else {
            Err(DifferentArenaError)
        }
    }

    /// Same as [`try_get_mut`](Self::try_get_mut) for a handle that this arena made.
    pub fn get_mut(&mut self, own: &mut Own<T>) -> (value: &mut T)
        requires
            old(self).resolves(old(own).arena_index(), old(own).slot()),
        ensures
            *final(own) == *old(own),
            *value == old(self).at(old(own).slot()),
            old(self).put(old(own).slot(), *final(value), *final(self)),
    {
        self.slot_mut(own.slot)
    }

    /// Resolves an owning pinned handle to a mutable reference, if this arena made it.
    pub fn try_get_mut_pinned(&mut self, own: &mut OwnPinned<T>) -> (r: Result<
        &mut T,
        DifferentArenaError,
    >)
        ensures
            *final(own) == *old(own),
            match r {
                Ok(value) => {
                    &&& old(self).resolves(old(own).arena_index(), old(own).slot())
                    &&& *value == old(self).at(old(own).slot())
                    &&& old(self).put(old(own).slot(), *final(value), *final(self))
                },
                Err(_) => {
                    &&& !old(self).resolves(old(own).arena_index(), old(own).slot())
                    &&& *final(self) == *old(self)
                },
            },
    {
        if own.arena_index == self.index && self.holds(own.slot) {
            Ok(self.slot_mut(own.slot))
        } else {
            Err(DifferentArenaError)
        }
    }

    /// Same as [`try_get_mut_pinned`](Self::try_get_mut_pinned) for a handle that this
    /// arena made.
    pub fn get_mut_pinned(&mut self, own: &mut OwnPinned<T>) -> (value: &mut T)
        requires
            old(self).resolves(old(own).arena_index(), old(own).slot()),
        ensures
            *final(own) == *old(own),
            *value == old(self).at(old(own).slot()),
            old(self).put(old(own).slot(), *final(value), *final(self)),
    {
        self.slot_mut(own.slot)
    }
}

/// Hands out the indices of arenas: every index once, in ascending order.
pub struct ArenaCounter {
    next: usize,
}

impl ArenaCounter {
    /// The index that the next arena gets.
    pub closed spec fn upcoming(&self) -> usize {
        self.next
    }

    /// A counter that has handed out nothing yet.
    pub fn new() -> (counter: Self)
        ensures
            counter.upcoming() == 0,
    {
        ArenaCounter { next: 0 }
    }

    /// A new arena, with an index that no arena from this counter had before; `None`
    /// once the indices are used up.
    pub fn arena<T>(&mut self) -> (arena: Option<Arena<T>>)
        ensures
            match arena {
                Some(arena) => {
                    &&& arena@ == Seq::<T>::empty()
                    &&& arena.sentinel() is None
                    &&& arena.spec_index() == old(self).upcoming()
                    &&& final(self).upcoming() == old(self).upcoming() + 1
                },
                None => old(self).upcoming() == usize::MAX && final(self).upcoming() == old(self).upcoming(),
            },
    {
        if self.next == usize::MAX {
            None
        } else {
            let index = self.next;
            self.next = self.next + 1;
            Some(Arena::new(index))
        }
    }
}

/// Arenas from one counter differ in their indices: the one made later has the greater
/// index, so a handle of either resolves in it alone.
pub proof fn lemma_counter_tells_arenas_apart<T>(
    earlier: Arena<T>,
    between: ArenaCounter,
    later: Arena<T>,
    after: ArenaCounter,
    arena_index: usize,
    slot: int,
)
    requires
        earlier.spec_index() < between.upcoming(),
        between.upcoming() <= later.spec_index() < after.upcoming(),
    ensures
        earlier.spec_index() != later.spec_index(),
        earlier.resolves(arena_index, slot) ==> !later.resolves(arena_index, slot),
        later.resolves(arena_index, slot) ==> !earlier.resolves(arena_index, slot),
{
}

/// A handle that resolves in one arena resolves in no arena with another index.
pub proof fn lemma_handle_bound_to_arena<T>(a: Arena<T>, b: Arena<T>, arena_index: usize, slot: int)
    requires
        a.resolves(arena_index, slot),
        a.spec_index() != b.spec_index(),
    ensures
        !b.resolves(arena_index, slot),
{
}

} // verus!
