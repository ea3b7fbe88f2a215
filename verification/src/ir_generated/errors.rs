//! Errors of emission.

use crate::diagnostic::note;
use crate::diagnostic::Diagnostic;
use crate::diagnostic::NoteKind;
use crate::diagnostic::Severity;
use crate::ir::register::RANGE;
use crate::text::push_str;
use vstd::prelude::*;

verus! {

/// No identifier is left in the range of a kind of register.
#[derive(Debug, Clone, Copy, PartialEq, Eq, Structural)]
pub struct RegisterAllocationError {
    pub last_valid_register_id: u16,
}

/// The name of the kind of register whose range ends at `end`.
pub open spec fn register_type(end: u16) -> Seq<char> {
    if end == 1 * RANGE {
        "Nat64"@
    } else if end == 2 * RANGE {
        "Nat32"@
    } else if end == 3 * RANGE {
        "Nat16"@
    } else if end == 4 * RANGE {
        "Nat8"@
    } else if end == 5 * RANGE {
        "Int64"@
    } else if end == 6 * RANGE {
        "Int32"@
    } else if end == 7 * RANGE {
        "Int16"@
    } else if end == 8 * RANGE {
        "Int8"@
    } else if end == 9 * RANGE {
        "Float64"@
    } else if end == 10 * RANGE {
        "Float32"@
    } else if end == 11 * RANGE {
        "Float16"@
    } else if end == 12 * RANGE {
        "Special"@
    } else if end == 13 * RANGE {
        "Pointer"@
    } else if end == 14 * RANGE {
        "Bit"@
    } else {
        "Unknown"@
    }
}

/// The message of the diagnostic for an exhausted range.
pub open spec fn overflow_message(end: u16) -> Seq<char> {
    "register allocation failed. "@ + register_type(end) + " ID range overflow"@
}

fn register_type_text(end: u16) -> (name: &'static str)
    ensures
        name@ == register_type(end),
{
    if end == 1 * RANGE {
        "Nat64"
    } else if end == 2 * RANGE {
        "Nat32"
    } else if end == 3 * RANGE {
        "Nat16"
    } else if end == 4 * RANGE {
        "Nat8"
    } else if end == 5 * RANGE {
        "Int64"
    } else if end == 6 * RANGE {
        "Int32"
    } else if end == 7 * RANGE {
        "Int16"
    } else if end == 8 * RANGE {
        "Int8"
    } else if end == 9 * RANGE {
        "Float64"
    } else if end == 10 * RANGE {
        "Float32"
    } else if end == 11 * RANGE {
        "Float16"
    } else if end == 12 * RANGE {
        "Special"
    } else if end == 13 * RANGE {
        "Pointer"
    } else if end == 14 * RANGE {
        "Bit"
    } else {
        "Unknown"
    }
}

impl RegisterAllocationError {
    /// The diagnostic that reports the error: a compiler bug, named after the kind of
    /// register whose range is exhausted, with a note on what may have caused it.
    pub fn diagnostic(&self) -> (diagnostic: Diagnostic)
        ensures
            diagnostic.severity == Severity::Bug,
            diagnostic.message@ == overflow_message(self.last_valid_register_id),
            diagnostic.labels@.len() == 0,
            diagnostic.children@.len() == 0,
            diagnostic.notes@.len() == 1,
            diagnostic.notes@[0].kind == NoteKind::Note,
            diagnostic.notes@[0].message@
                == "this can be caused if your function has too many variables; try factoring out your function to smaller ones"@,
    {
        let mut message = "register allocation failed. ".to_owned();
        push_str(&mut message, register_type_text(self.last_valid_register_id));
        push_str(&mut message, " ID range overflow");
        Severity::Bug.diagnostic(message.as_str()).with_note(
            note(
                NoteKind::Note,
                "this can be caused if your function has too many variables; try factoring out your function to smaller ones",
            ),
        )
    }
}

} // verus!
