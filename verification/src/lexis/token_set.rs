//! Sets of token kinds.

use crate::lexis::token::TokenKind;
use vstd::prelude::*;

verus! {

/// Number of bytes that hold one bit for every kind of token.
pub const SIZE: usize = 7;

/// A set of token kinds, one bit per kind.
#[derive(Debug, Clone, Copy, PartialEq, Eq)]
pub struct TokenSet {
    bits: [u8; 7],
}

/// Whether bit `bit` of `byte` is set.
pub open spec fn bit_is_set(byte: u8, bit: int) -> bool {
    byte & (1u8 << (bit as u8)) != 0
}

proof fn lemma_set_bit(byte: u8, bit: u8, other: u8)
    by (bit_vector)
    requires
        bit < 8,
        other < 8,
    ensures
        ((byte | (1u8 << bit)) & (1u8 << other) != 0) <==> ((byte & (1u8 << other) != 0) || bit
            == other),
{
}

proof fn lemma_no_bit(bit: u8)
    by (bit_vector)
    requires
        bit < 8,
    ensures
        0u8 & (1u8 << bit) == 0,
{
}

impl TokenSet {
    /// Whether the set holds `kind`.
    pub closed spec fn has(&self, kind: TokenKind) -> bool {
        bit_is_set(self.bits@[kind.ordinal() / 8], kind.ordinal() % 8)
    }

    /// The set without elements, as a value.
    pub closed spec fn nothing() -> TokenSet {
        TokenSet { bits: [0u8, 0u8, 0u8, 0u8, 0u8, 0u8, 0u8] }
    }

    /// The set without elements.
    pub fn empty() -> (set: Self)
        ensures
            set == Self::nothing(),
            forall|kind: TokenKind| !set.has(kind),
    {
        let set = TokenSet { bits: [0u8, 0u8, 0u8, 0u8, 0u8, 0u8, 0u8] };
        assert forall|kind: TokenKind| !set.has(kind) by {
            lemma_no_bit((kind.ordinal() % 8) as u8);
        }
        set
    }

    fn byte_index(kind: TokenKind) -> (index: usize)
        ensures
            index == kind.ordinal() / 8,
            index < SIZE,
    {
        kind.index() / 8
    }

    fn bit_index(kind: TokenKind) -> (index: usize)
        ensures
            index == kind.ordinal() % 8,
    {
        kind.index() % 8
    }

    /// The set of the given kinds.
    pub fn of(kinds: &[TokenKind]) -> (set: TokenSet)
        ensures
            forall|kind: TokenKind| set.has(kind) <==> kinds@.contains(kind),
            kinds@.len() == 0 ==> set == Self::nothing(),
    {
        let mut token_set = TokenSet::empty();
        let mut i: usize = 0;
        while i < kinds.len()
            invariant
                i <= kinds@.len(),
                i == 0 ==> token_set == Self::nothing(),
                forall|kind: TokenKind|
                    token_set.has(kind) <==> kinds@.subrange(0, i as int).contains(kind),
            decreases kinds@.len() - i,
        {
            let kind = kinds[i];
            let byte = Self::byte_index(kind);
            let bit = Self::bit_index(kind);
            let ghost before = token_set;
            let updated: u8 = token_set.bits[byte] | (1u8 << (bit as u8));
            token_set.bits.set(byte, updated);
            proof {
                assert forall|other: TokenKind|
                    token_set.has(other) <==> kinds@.subrange(0, i + 1).contains(other) by {
                    let prefix = kinds@.subrange(0, i as int);
                    let next = kinds@.subrange(0, i + 1);
                    assert(next =~= prefix.push(kind));
                    if prefix.contains(other) {
                        let j = choose|j: int| 0 <= j < prefix.len() && prefix[j] == other;
                        assert(next[j] == other);
                    }
                    assert(next[i as int] == kind);
                    if next.contains(other) && other != kind {
                        let j = choose|j: int| 0 <= j < next.len() && next[j] == other;
                        assert(prefix[j] == other);
                    }
                    assert(token_set.bits@ == before.bits@.update(byte as int, updated));
                    assert(before.has(other) <==> prefix.contains(other));
                    let other_bit = (other.ordinal() % 8) as u8;
                    if other.ordinal() / 8 == kind.ordinal() / 8 {
                        lemma_set_bit(before.bits@[byte as int], bit as u8, other_bit);
                        assert(token_set.bits@[other.ordinal() / 8] == updated);
                        assert(token_set.has(other) == (updated & (1u8 << other_bit) != 0));
                        assert(before.has(other) == (before.bits@[byte as int] & (1u8
                            << other_bit) != 0));
                        if other.ordinal() % 8 == kind.ordinal() % 8 {
                            crate::lexis::token::lemma_ordinal_injective(other, kind);
                        }
                    } else {
                        assert(token_set.bits@[other.ordinal() / 8] == before.bits@[other.ordinal()
                            / 8]);
                        assert(other != kind);
                    }
                }
            }
            i += 1;
        }
        assert(kinds@.subrange(0, kinds@.len() as int) =~= kinds@);
        token_set
    }

    /// Whether the set holds `kind`.
    pub fn includes(&self, kind: TokenKind) -> (included: bool)
        ensures
            included == self.has(kind),
    {
        self.bits[Self::byte_index(kind)] & (1u8 << (Self::bit_index(kind) as u8)) != 0
    }
}

} // verus!
