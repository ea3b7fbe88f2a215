//! Virtual registers.

use core::ops::Range;
use vstd::prelude::*;

verus! {

/// Number of identifiers in the range of one kind of register.
pub const RANGE: u16 = 1024;

/// Number of ranges of that size that fit the identifiers.
pub const RANGES: u16 = 63;

pub const NAT64_RANGE: u16 = 0;

pub const NAT32_RANGE: u16 = 1;

pub const NAT16_RANGE: u16 = 2;

pub const NAT8_RANGE: u16 = 3;

pub const INT64_RANGE: u16 = 4;

pub const INT32_RANGE: u16 = 5;

pub const INT16_RANGE: u16 = 6;

pub const INT8_RANGE: u16 = 7;

pub const FLOAT64_RANGE: u16 = 8;

pub const FLOAT32_RANGE: u16 = 9;

pub const FLOAT16_RANGE: u16 = 10;

pub const SPECIAL_RANGE: u16 = 11;

pub const PTR_RANGE: u16 = 12;

pub const BIT_RANGE: u16 = 13;

/// First identifier of the general purpose registers.
pub const X_START_INDEX: u16 = 0;

/// First identifier of the special registers of the older numbering.
pub const S_START_INDEX: u16 = 128;

/// The identifiers of the `index`-th kind of register: `RANGE` of them, from
/// `RANGE * index` on.
pub fn id_range(index: u16) -> (range: Range<u16>)
    requires
        index < RANGES,
    ensures
        range.start == RANGE * index,
        range.end == RANGE * (index + 1),
{
    Range { start: RANGE * index, end: RANGE * (index + 1) }
}

/// Identifier of a register.
#[derive(Clone, Copy, Debug, PartialEq, Eq, Structural)]
pub struct RegisterId(pub u16);

/// What has the identifier of a register.
pub trait Register {
    /// The identifier of the register.
    spec fn spec_id(&self) -> RegisterId;

    /// The identifier of the register.
    fn id(&self) -> (id: RegisterId)
        ensures
            id == self.spec_id(),
    ;
}

/// Flag for register which can be used as memory address.
pub trait RegisterAddress: Register {

}

/// Flag for register which can be used as unspecified bit-width natural.
pub trait RegisterN: Register {

}

/// Flag for register which can be used as platform bit-width natural.
pub trait RegisterNSize: RegisterN {

}

/// Flag for register which can be used as 64-bit natural.
pub trait RegisterN64: RegisterN {

}

/// Flag for register which can be used as 32-bit natural.
pub trait RegisterN32: RegisterN {

}

/// Flag for register which can be used as 16-bit natural.
pub trait RegisterN16: RegisterN {

}

/// Flag for register which can be used as 8-bit natural.
pub trait RegisterN8: RegisterN {

}

/// Flag for any size natural register.
pub trait RegisterNat: Register {

}

/// The two bytes of `value`, low byte first.
pub open spec fn le_bytes_u16(value: u16) -> Seq<u8> {
    seq![(value % 256) as u8, (value / 256) as u8]
}

/// The four bytes of `value`, low byte first.
pub open spec fn le_bytes_u32(value: u32) -> Seq<u8> {
    seq![
        (value % 256) as u8,
        (value / 256 % 256) as u8,
        (value / 65536 % 256) as u8,
        (value / 16777216) as u8,
    ]
}

/// The number whose bytes, low byte first, are `bytes`.
pub open spec fn from_le_bytes(bytes: Seq<u8>) -> nat
    decreases bytes.len(),
{
    if bytes.len() == 0 {
        0
    } else {
        bytes[0] as nat + 256 * from_le_bytes(bytes.drop_first())
    }
}

/// Reading the bytes of a number gives the number back.
pub proof fn lemma_le_bytes_roundtrip(half: u16, word: u32)
    ensures
        from_le_bytes(le_bytes_u16(half)) == half,
        from_le_bytes(le_bytes_u32(word)) == word,
{
    reveal_with_fuel(from_le_bytes, 5);
    let h = le_bytes_u16(half);
    assert(h.drop_first().drop_first().len() == 0);
    let w = le_bytes_u32(word);
    assert(w.drop_first().drop_first().drop_first().drop_first().len() == 0);
}

/// The two bytes of `value`, low byte first.
pub fn u16_to_le_bytes(value: u16) -> (bytes: [u8; 2])
    ensures
        bytes@ == le_bytes_u16(value),
{
    let bytes = [(value % 256) as u8, (value / 256) as u8];
    assert(bytes@ =~= le_bytes_u16(value));
    bytes
}

/// The four bytes of `value`, low byte first.
pub fn u32_to_le_bytes(value: u32) -> (bytes: [u8; 4])
    ensures
        bytes@ == le_bytes_u32(value),
{
    let bytes = [
        (value % 256) as u8,
        (value / 256 % 256) as u8,
        (value / 65536 % 256) as u8,
        (value / 16777216) as u8,
    ];
    assert(bytes@ =~= le_bytes_u32(value));
    bytes
}

impl RegisterId {
    /// Converts the register id to little-endian bytes.
    pub fn to_le_bytes(self) -> (bytes: [u8; 2])
        ensures
            bytes@ == le_bytes_u16(self.0),
    {
        u16_to_le_bytes(self.0)
    }

    /// Unwraps the register id to internal value.
    pub fn into_inner(self) -> (value: u16)
        ensures
            value == self.0,
    {
        self.0
    }
}

/// Container which holds the registers which are most optimal to chill in the current
/// context.
///
/// This is a hint to the JIT compiler to chill one of these registers if all of them are
/// busy, by previous instructions.
#[derive(Clone, Copy, Debug, PartialEq, Eq, Structural)]
pub struct RegisterChill {}

impl RegisterChill {
    /// Reads the hint from its bytes, of which there are none.
    pub fn from_le_bytes(bytes: &[u8]) -> (chill: Self)
        requires
            bytes@.len() == 0,
        ensures
            chill == (RegisterChill {  }),
    {
        RegisterChill {  }
    }

    /// The bytes of the hint, of which there are none.
    pub fn to_le_bytes(self) -> (bytes: [u8; 0])
        ensures
            bytes@.len() == 0,
    {
        []
    }
}

impl Default for RegisterChill {
    fn default() -> (chill: Self)
        ensures
            chill == (RegisterChill {  }),
    {
        RegisterChill {  }
    }
}

/// 64-bit natural register.
pub struct RegisterNat64(RegisterId);

/// 32-bit natural register.
pub struct RegisterNat32(RegisterId);

/// 16-bit natural register.
pub struct RegisterNat16(RegisterId);

/// 8-bit natural register.
pub struct RegisterNat8(RegisterId);

impl RegisterNat64 {
    /// Makes a register of an identifier without checking that the identifier is one of
    /// a 64-bit natural register.
    pub fn new_unchecked(id: RegisterId) -> (register: Self)
        ensures
            register.spec_id() == id,
    {
        Self(id)
    }
}

impl RegisterNat32 {
    /// Makes a register of an identifier without checking that the identifier is one of
    /// a 32-bit natural register.
    pub fn new_unchecked(id: RegisterId) -> (register: Self)
        ensures
            register.spec_id() == id,
    {
        Self(id)
    }
}

impl RegisterNat16 {
    /// Makes a register of an identifier without checking that the identifier is one of
    /// a 16-bit natural register.
    pub fn new_unchecked(id: RegisterId) -> (register: Self)
        ensures
            register.spec_id() == id,
    {
        Self(id)
    }
}

impl RegisterNat8 {
    /// Makes a register of an identifier without checking that the identifier is one of
    /// an 8-bit natural register.
    pub fn new_unchecked(id: RegisterId) -> (register: Self)
        ensures
            register.spec_id() == id,
    {
        Self(id)
    }
}

impl Register for RegisterNat64 {
    closed spec fn spec_id(&self) -> RegisterId {
        self.0
    }

    fn id(&self) -> (id: RegisterId) {
        self.0
    }
}

impl Register for RegisterNat32 {
    closed spec fn spec_id(&self) -> RegisterId {
        self.0
    }

    fn id(&self) -> (id: RegisterId) {
        self.0
    }
}

impl Register for RegisterNat16 {
    closed spec fn spec_id(&self) -> RegisterId {
        self.0
    }

    fn id(&self) -> (id: RegisterId) {
        self.0
    }
}

impl Register for RegisterNat8 {
    closed spec fn spec_id(&self) -> RegisterId {
        self.0
    }

    fn id(&self) -> (id: RegisterId) {
        self.0
    }
}

impl RegisterNat for RegisterNat64 {

}

impl RegisterNat for RegisterNat32 {

}

impl RegisterNat for RegisterNat16 {

}

impl RegisterNat for RegisterNat8 {

}

/// The identifier of the `index`-th special register.
pub fn get_id(index: u16) -> (id: RegisterId)
    requires
        index < RANGE,
    ensures
        id.0 == RANGE * SPECIAL_RANGE + index,
{
    let range = id_range(SPECIAL_RANGE);
    RegisterId(range.start + index)
}

/// Stack pointer.
pub struct RegisterSP;

impl Register for RegisterSP {
    open spec fn spec_id(&self) -> RegisterId {
        RegisterId((RANGE * SPECIAL_RANGE) as u16)
    }

    fn id(&self) -> (id: RegisterId) {
        get_id(0)
    }
}

/// General purpose registers.
#[derive(Clone, Copy, Debug, PartialEq, Eq, Structural)]
pub enum RegisterX {
    R0,
    R1,
    R2,
    R3,
    R4,
    R5,
    R6,
    R7,
    R8,
    R9,
    R10,
    R11,
    R12,
    R13,
    R14,
}

impl RegisterX {
    /// Position of the register among the general purpose registers.
    pub open spec fn ordinal(self) -> u16 {
        match self {
            RegisterX::R0 => 0,
            RegisterX::R1 => 1,
            RegisterX::R2 => 2,
            RegisterX::R3 => 3,
            RegisterX::R4 => 4,
            RegisterX::R5 => 5,
            RegisterX::R6 => 6,
            RegisterX::R7 => 7,
            RegisterX::R8 => 8,
            RegisterX::R9 => 9,
            RegisterX::R10 => 10,
            RegisterX::R11 => 11,
            RegisterX::R12 => 12,
            RegisterX::R13 => 13,
            RegisterX::R14 => 14,
        }
    }
}

impl Register for RegisterX {
    open spec fn spec_id(&self) -> RegisterId {
        RegisterId((X_START_INDEX + self.ordinal()) as u16)
    }

    fn id(&self) -> (id: RegisterId) {
        let ordinal: u16 = match self {
            RegisterX::R0 => 0,
            RegisterX::R1 => 1,
            RegisterX::R2 => 2,
            RegisterX::R3 => 3,
            RegisterX::R4 => 4,
            RegisterX::R5 => 5,
            RegisterX::R6 => 6,
            RegisterX::R7 => 7,
            RegisterX::R8 => 8,
            RegisterX::R9 => 9,
            RegisterX::R10 => 10,
            RegisterX::R11 => 11,
            RegisterX::R12 => 12,
            RegisterX::R13 => 13,
            RegisterX::R14 => 14,
        };
        RegisterId(X_START_INDEX + ordinal)
    }
}

impl RegisterN for RegisterX {

}

impl RegisterN64 for RegisterX {

}

impl RegisterN32 for RegisterX {

}

impl RegisterN16 for RegisterX {

}

impl RegisterN8 for RegisterX {

}

} // verus!
