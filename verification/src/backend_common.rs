//! Identifiers shared by the back ends.

use crate::text::decimal;
use crate::text::push_str;
use crate::text::u64_to_string;
use vstd::prelude::*;

verus! {

/// Identifier of a value within a function.
#[derive(Clone, Copy, Debug, Eq, Hash, PartialEq, Structural)]
pub struct ValueId(pub u32);

/// Identifier of a function within an archive.
#[derive(Clone, Copy, Debug, Eq, Hash, PartialEq, Structural)]
pub struct FunctionId(pub u64);

/// Identifier of a type. It may change between compilations.
#[derive(Clone, Copy, Debug, Eq, Hash, PartialEq, Structural)]
pub struct UnstableTypeId(pub u64);

impl ValueId {
    /// The identifier as it is written in listings: `%` and the number.
    pub fn to_text(&self) -> (text: String)
        ensures
            text@ == "%"@ + decimal(self.0 as nat),
    {
        let mut text = "%".to_owned();
        push_str(&mut text, u64_to_string(self.0 as u64).as_str());
        text
    }
}

impl FunctionId {
    /// The identifier as it is written in listings: `$` and the number.
    pub fn to_text(&self) -> (text: String)
        ensures
            text@ == "$"@ + decimal(self.0 as nat),
    {
        let mut text = "$".to_owned();
        push_str(&mut text, u64_to_string(self.0).as_str());
        text
    }
}

impl UnstableTypeId {
    /// The type of a value that is nothing.
    pub fn void() -> (id: Self)
        ensures
            id.0 == 0,
    {
        UnstableTypeId(0)
    }

    /// The 32-bit natural type.
    pub fn nat32() -> (id: Self)
        ensures
            id.0 == 1,
    {
        UnstableTypeId(1)
    }

    /// Unwraps the identifier to its number.
    pub fn inner(self) -> (value: u64)
        ensures
            value == self.0,
    {
        self.0
    }
}

} // verus!
