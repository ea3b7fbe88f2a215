//! Handing out register identifiers.

use crate::ir::register::Register;
use crate::ir::register::RegisterId;
use crate::ir::register::NAT32_RANGE;
use crate::ir::register::RANGE;
use crate::ir_generated::errors::RegisterAllocationError;
use core::ops::Range;
use vstd::prelude::*;

verus! {

/// A register that has to be given back with `drop_register`.
pub struct RegisterDropGuard<T> where T: Register {
    register: T,
}

impl<T> RegisterDropGuard<T> where T: Register {
    /// The guarded register.
    pub closed spec fn register(&self) -> T {
        self.register
    }

    pub fn new(register: T) -> (guard: Self)
        ensures
            guard.register() == register,
    {
        Self { register }
    }

    /// The guarded register.
    pub fn get(&self) -> (register: &T)
        ensures
            *register == self.register(),
    {
        &self.register
    }

    /// The identifier of the guarded register.
    pub fn id(&self) -> (id: RegisterId)
        ensures
            id == self.register().spec_id(),
    {
        self.register.id()
    }
}

/// Hands out the identifiers of one range in ascending order.
pub struct RegisterIdAllocator {
    next_register_id: u16,
}

impl RegisterIdAllocator {
    /// The identifier that is handed out next.
    pub closed spec fn upcoming(&self) -> u16 {
        self.next_register_id
    }

    pub fn new(range_start: u16) -> (allocator: Self)
        ensures
            allocator.upcoming() == range_start,
    {
        Self { next_register_id: range_start }
    }

    /// The next identifier, unless the range that ends at `range_end` is exhausted.
    pub fn next(&mut self, range_end: u16) -> (r: Result<RegisterId, RegisterAllocationError>)
        ensures
            match r {
                Ok(id) => {
                    &&& old(self).upcoming() < range_end
                    &&& id.0 == old(self).upcoming()
                    &&& final(self).upcoming() == old(self).upcoming() + 1
                },
                Err(e) => {
                    &&& old(self).upcoming() >= range_end
                    &&& e.last_valid_register_id == old(self).upcoming()
                    &&& final(self).upcoming() == old(self).upcoming()
                },
            },
    {
        let id = self.next_register_id;
        if id >= range_end {
            return Err(RegisterAllocationError { last_valid_register_id: id });
        }
        self.next_register_id = id + 1;
        Ok(RegisterId(id))
    }
}

/// Hands out registers: those that were given back first, then fresh ones.
pub struct RegisterAllocator {
    register_id_nat32: RegisterIdAllocator,
    dropped_registers: Vec<RegisterId>,
}

/// Whether `id` lies in `range`.
pub open spec fn in_range(id: RegisterId, range: Range<u16>) -> bool {
    range.start <= id.0 < range.end
}

/// The position of the first identifier of `range` among `dropped`, or the length of
/// `dropped` if there is none.
pub open spec fn first_in_range(dropped: Seq<RegisterId>, range: Range<u16>) -> int
    decreases dropped.len(),
{
    if dropped.len() == 0 {
        0
    } else if in_range(dropped[0], range) {
        0
    } else {
        1 + first_in_range(dropped.drop_first(), range)
    }
}

/// What [`first_in_range`] finds.
pub proof fn lemma_first_in_range(dropped: Seq<RegisterId>, range: Range<u16>)
    ensures
        0 <= first_in_range(dropped, range) <= dropped.len(),
        first_in_range(dropped, range) < dropped.len() ==> in_range(
            dropped[first_in_range(dropped, range)],
            range,
        ),
        forall|i: int| 0 <= i < first_in_range(dropped, range) ==> !in_range(dropped[i], range),
    decreases dropped.len(),
{
    if dropped.len() > 0 && !in_range(dropped[0], range) {
        lemma_first_in_range(dropped.drop_first(), range);
        assert forall|i: int| 0 <= i < first_in_range(dropped, range) implies !in_range(
            dropped[i],
            range,
        ) by {
            if i > 0 {
                assert(dropped.drop_first()[i - 1] == dropped[i]);
            }
        }
    }
}

/// The range of the 32-bit natural registers.
pub open spec fn nat32_range() -> Range<u16> {
    Range { start: (RANGE * NAT32_RANGE) as u16, end: (RANGE * (NAT32_RANGE + 1)) as u16 }
}

impl RegisterAllocator {
    /// The registers that were given back and not handed out again, oldest first.
    pub closed spec fn dropped(&self) -> Seq<RegisterId> {
        self.dropped_registers@
    }

    /// The fresh 32-bit natural register that is handed out next.
    pub closed spec fn upcoming_nat32(&self) -> u16 {
        self.register_id_nat32.upcoming()
    }

    /// Whether no register was handed out or given back yet.
    pub open spec fn fresh(&self) -> bool {
        &&& self.dropped() == Seq::<RegisterId>::empty()
        &&& self.upcoming_nat32() == nat32_range().start
    }

    /// The 32-bit natural register that is handed out next: the one that was given back
    /// first, if there is one, else the next fresh one. None when none was given back and
    /// the fresh ones are exhausted.
    pub open spec fn next_register(&self) -> Option<RegisterId> {
        let at = first_in_range(self.dropped(), nat32_range());
        if at < self.dropped().len() {
            Some(self.dropped()[at])
        } else if self.upcoming_nat32() < nat32_range().end {
            Some(RegisterId(self.upcoming_nat32()))
        } else {
            None
        }
    }

    /// Whether `after` is this allocator once its next register was asked for: a register
    /// that was given back is no longer among those; a fresh one is followed by the next
    /// fresh one; where there is none, nothing changes.
    pub open spec fn handed_out(&self, after: Self) -> bool {
        let at = first_in_range(self.dropped(), nat32_range());
        if at < self.dropped().len() {
            &&& after.dropped() == self.dropped().remove(at)
            &&& after.upcoming_nat32() == self.upcoming_nat32()
        } else if self.upcoming_nat32() < nat32_range().end {
            &&& after.dropped() == self.dropped()
            &&& after.upcoming_nat32() == self.upcoming_nat32() + 1
        } else {
            &&& after.dropped() == self.dropped()
            &&& after.upcoming_nat32() == self.upcoming_nat32()
        }
    }

    /// Whether the next fresh register is one of its range or the end of the range.
    pub open spec fn wf(&self) -> bool {
        nat32_range().start <= self.upcoming_nat32() <= nat32_range().end
    }

    pub fn new() -> (allocator: Self)
        ensures
            allocator.wf(),
            allocator.fresh(),
    {
        Self {
            register_id_nat32: RegisterIdAllocator::new(crate::ir::register::id_range(NAT32_RANGE).start),
            dropped_registers: Vec::new(),
        }
    }

    /// Takes a register back, to be handed out again.
    pub fn drop(&mut self, register_id: RegisterId)
        ensures
            final(self).dropped() == old(self).dropped().push(register_id),
            final(self).upcoming_nat32() == old(self).upcoming_nat32(),
    {
        self.dropped_registers.push(register_id)
    }

    /// A 32-bit natural register: the one that was given back first, if there is one, else
    /// a fresh one. Fails when none was given back and the fresh ones are exhausted.
    pub fn next_nat32(&mut self) -> (r: Result<RegisterId, RegisterAllocationError>)
        requires
            old(self).wf(),
        ensures
            final(self).wf(),
            old(self).handed_out(*final(self)),
            match r {
                Ok(id) => old(self).next_register() == Some(id),
                Err(_) => old(self).next_register() is None,
            },
            match r {
                Ok(id) => {
                    &&& in_range(id, nat32_range())
                    &&& if first_in_range(old(self).dropped(), nat32_range()) < old(self).dropped().len() {
                        &&& id == old(self).dropped()[first_in_range(
                            old(self).dropped(),
                            nat32_range(),
                        )]
                        &&& final(self).dropped() == old(self).dropped().remove(
                            first_in_range(old(self).dropped(), nat32_range()),
                        )
                        &&& final(self).upcoming_nat32() == old(self).upcoming_nat32()
                    } else {
                        &&& id.0 == old(self).upcoming_nat32()
                        &&& final(self).dropped() == old(self).dropped()
                        &&& final(self).upcoming_nat32() == old(self).upcoming_nat32() + 1
                    }
                },
                Err(e) => {
                    &&& first_in_range(old(self).dropped(), nat32_range()) == old(self).dropped().len()
                    &&& old(self).upcoming_nat32() == nat32_range().end
                    &&& e.last_valid_register_id == nat32_range().end
                    &&& final(self).dropped() == old(self).dropped()
                    &&& final(self).upcoming_nat32() == old(self).upcoming_nat32()
                },
            },
    {
        proof {
            lemma_first_in_range(self.dropped(), nat32_range());
        }
        let range = crate::ir::register::id_range(NAT32_RANGE);
        match self.get_dropped(Range { start: range.start, end: range.end }) {
            Some(r) => Ok(r),
            None => self.register_id_nat32.next(range.end),
        }
    }

    /// Takes the first register of `range` out of the ones that were given back.
    fn get_dropped(&mut self, range: Range<u16>) -> (found: Option<RegisterId>)
        ensures
            final(self).upcoming_nat32() == old(self).upcoming_nat32(),
            match found {
                Some(id) => {
                    &&& first_in_range(old(self).dropped(), range) < old(self).dropped().len()
                    &&& id == old(self).dropped()[first_in_range(old(self).dropped(), range)]
                    &&& final(self).dropped() == old(self).dropped().remove(
                        first_in_range(old(self).dropped(), range),
                    )
                },
                None => {
                    &&& first_in_range(old(self).dropped(), range) == old(self).dropped().len()
                    &&& final(self).dropped() == old(self).dropped()
                },
            },
    {
        let mut index: usize = 0;
        proof {
            lemma_first_in_range(self.dropped(), range);
        }
        while index < self.dropped_registers.len()
            invariant
                *self == *old(self),
                index <= self.dropped_registers@.len(),
                index <= first_in_range(self.dropped(), range),
            decreases self.dropped_registers@.len() - index,
        {
            let unwrapped = self.dropped_registers[index].into_inner();
            if unwrapped >= range.start && unwrapped < range.end {
                proof {
                    lemma_first_in_range(self.dropped(), range);
                }
                return Some(self.dropped_registers.remove(index));
            }
            proof {
                lemma_first_in_range(self.dropped(), range);
            }
            index += 1;
        }
        None
    }
}

} // verus!
