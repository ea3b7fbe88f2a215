//! Write-once cells.

use vstd::prelude::*;

verus! {

/// A write-once container: it goes from empty to full exactly once and keeps its value
/// from then on.
pub struct Cell<T> {
    value: Option<T>,
}

impl<T> View for Cell<T> {
    type V = Option<T>;

    closed spec fn view(&self) -> Option<T> {
        self.value
    }
}

impl<T> Cell<T> {
    /// An empty cell.
    pub fn new() -> (cell: Self)
        ensures
            cell@ == None::<T>,
    {
        Cell { value: None }
    }

    /// The value, if the cell is full.
    pub fn get(&self) -> (value: Option<&T>)
        ensures
            match value {
                Some(v) => self@ == Some(*v),
                None => self@ == None::<T>,
            },
    {
        self.value.as_ref()
    }

    /// Whether the cell holds a value.
    pub fn is_full(&self) -> (full: bool)
        ensures
            full == self@.is_some(),
    {
        self.value.is_some()
    }

    /// Fills an empty cell with `value`. A full cell keeps what it holds, and `value`
    /// comes back as the error.
    pub fn set(&mut self, value: T) -> (r: Result<(), T>)
        ensures
            old(self)@ is None ==> r == Ok::<(), T>(()) && final(self)@ == Some(value),
            old(self)@ is Some ==> r == Err::<(), T>(value) && final(self)@ == old(self)@,
    {
        if self.value.is_some() {
            Err(value)
        } else {
            self.value = Some(value);
            Ok(())
        }
    }
}

impl<T> Default for Cell<T> {
    fn default() -> (cell: Self)
        ensures
            cell@ == None::<T>,
    {
        Cell::new()
    }
}

} // verus!
