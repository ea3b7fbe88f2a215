//! Pre-hashed names for query kinds.

use vstd::prelude::*;
use vstd::std_specs::cmp::PartialEqSpecImpl;
use vstd::string::StringSliceAdditionalSpecFns;
use vstd::wrapping::u64_specs::wrapping_mul;

verus! {

/// Multiplier of the mixing step.
pub const K: u64 = 0x517cc1b727220a95;

/// The value of `bytes` read as a little-endian number.
pub open spec fn le_word(bytes: Seq<u8>) -> nat
    decreases bytes.len(),
{
    if bytes.len() == 0 {
        0
    } else {
        bytes[0] as nat + 256 * le_word(bytes.drop_first())
    }
}

/// One mixing step: rotate left by five bits, xor the word in, multiply by [`K`] modulo 2^64.
pub open spec fn mix(hash: u64, word: u64) -> u64 {
    wrapping_mul(((hash << 5u64) | (hash >> 59u64)) ^ word, K)
}

/// The hash after all whole 8-byte chunks of `bytes` have been mixed into `hash`,
/// each read as a little-endian word.
pub open spec fn fx_chunks(hash: u64, bytes: Seq<u8>) -> u64
    decreases bytes.len(),
{
    if bytes.len() < 8 {
        hash
    } else {
        fx_chunks(mix(hash, le_word(bytes.take(8)) as u64), bytes.skip(8))
    }
}

/// What is left of `bytes` once all whole 8-byte chunks are taken off its front.
pub open spec fn fx_rest(bytes: Seq<u8>) -> Seq<u8> {
    bytes.skip(bytes.len() - bytes.len() % 8)
}

/// Mixes a tail of fewer than eight bytes into `hash`: a 4-byte word if four bytes are
/// left, then a 2-byte word if two are left, then a last byte. The words are read as
/// little-endian numbers.
pub open spec fn fx_tail(hash: u64, rest: Seq<u8>) -> u64 {
    let (h4, r4) = if rest.len() >= 4 {
        (mix(hash, le_word(rest.take(4)) as u64), rest.skip(4))
    } else {
        (hash, rest)
    };
    let (h2, r2) = if r4.len() >= 2 {
        (mix(h4, le_word(r4.take(2)) as u64), r4.skip(2))
    } else {
        (h4, r4)
    };
    if r2.len() >= 1 {
        mix(h2, r2[0] as u64)
    } else {
        h2
    }
}

/// The 64-bit Fx hash of `bytes`.
pub open spec fn fx_hash(bytes: Seq<u8>) -> u64 {
    fx_tail(fx_chunks(0, bytes), fx_rest(bytes))
}

/// `le_word` of at most eight bytes fits its width.
pub proof fn lemma_word_bound(bytes: Seq<u8>)
    ensures
        bytes.len() == 2 ==> le_word(bytes) < 0x1_0000,
        bytes.len() == 4 ==> le_word(bytes) < 0x1_0000_0000,
        bytes.len() == 8 ==> le_word(bytes) < 0x1_0000_0000_0000_0000,
{
    reveal_with_fuel(le_word, 9);
}

/// Mixes one word into the hash.
pub fn add_to_hash(hash: u64, word: u64) -> (mixed: u64)
    ensures
        mixed == mix(hash, word),
{
    (((hash << 5u64) | (hash >> 59u64)) ^ word).wrapping_mul(K)
}

/// The eight bytes of `bytes` from `at` on, read as one little-endian word.
fn read_le_word(bytes: &[u8], at: usize) -> (w: u64)
    requires
        at + 8 <= bytes@.len(),
    ensures
        w == le_word(bytes@.subrange(at as int, at + 8)),
{
    let len = bytes.len();
    let ghost chunk = bytes@.subrange(at as int, at + 8);
    proof {
        reveal_with_fuel(le_word, 9);
        assert(chunk.drop_first().drop_first().drop_first().drop_first().drop_first().drop_first().drop_first().drop_first().len() == 0);
    }
    let b7: u64 = bytes[at + 7] as u64;
    let b6: u64 = bytes[at + 6] as u64 + 256 * b7;
    let b5: u64 = bytes[at + 5] as u64 + 256 * b6;
    let b4: u64 = bytes[at + 4] as u64 + 256 * b5;
    let b3: u64 = bytes[at + 3] as u64 + 256 * b4;
    let b2: u64 = bytes[at + 2] as u64 + 256 * b3;
    let b1: u64 = bytes[at + 1] as u64 + 256 * b2;
    let b0: u64 = bytes[at] as u64 + 256 * b1;
    b0
}

/// Unfolds [`fx_chunks`] once at the front of a suffix of `bytes`.
proof fn lemma_chunk_step(hash: u64, bytes: Seq<u8>, at: int)
    requires
        0 <= at,
        at + 8 <= bytes.len(),
    ensures
        fx_chunks(hash, bytes.skip(at)) == fx_chunks(
            mix(hash, le_word(bytes.subrange(at, at + 8)) as u64),
            bytes.skip(at + 8),
        ),
{
    assert(bytes.skip(at).take(8) =~= bytes.subrange(at, at + 8));
    assert(bytes.skip(at).skip(8) =~= bytes.skip(at + 8));
}

/// Mixes all whole 8-byte chunks of `bytes` into a zero hash; also returns where the
/// tail begins.
fn mix_chunks(bytes: &[u8]) -> (r: (u64, usize))
    ensures
        r.0 == fx_chunks(0, bytes@),
        r.1 == bytes@.len() - bytes@.len() % 8,
{
    let len = bytes.len();
    let mut hash: u64 = 0;
    let mut i: usize = 0;
    assert(bytes@.skip(0) =~= bytes@);
    while len - i >= 8
        invariant
            len == bytes@.len(),
            i <= len,
            i % 8 == 0,
            fx_chunks(0, bytes@) == fx_chunks(hash, bytes@.skip(i as int)),
        decreases len - i,
    {
        let w = read_le_word(bytes, i);
        proof {
            lemma_chunk_step(hash, bytes@, i as int);
        }
        hash = add_to_hash(hash, w);
        i += 8;
    }
    (hash, i)
}

/// Mixes the 4-byte word at `at` into `hash` if four bytes are left there.
fn mix_tail_quad(hash: u64, bytes: &[u8], at: usize) -> (r: (u64, usize))
    requires
        at <= bytes@.len(),
    ensures
        bytes@.len() - at >= 4 ==> r.1 == at + 4 && r.0 == mix(
            hash,
            le_word(bytes@.skip(at as int).take(4)) as u64,
        ),
        bytes@.len() - at < 4 ==> r.1 == at && r.0 == hash,
{
    let len = bytes.len();
    if len - at >= 4 {
        let ghost quad = bytes@.skip(at as int).take(4);
        proof {
            reveal_with_fuel(le_word, 5);
            assert(quad.drop_first().drop_first().drop_first().drop_first().len() == 0);
        }
        let b3: u64 = bytes[at + 3] as u64;
        let b2: u64 = bytes[at + 2] as u64 + 256 * b3;
        let b1: u64 = bytes[at + 1] as u64 + 256 * b2;
        let w: u64 = bytes[at] as u64 + 256 * b1;
        (add_to_hash(hash, w), at + 4)
    } else {
        (hash, at)
    }
}

/// Mixes the 2-byte word at `at` into `hash` if two bytes are left there.
fn mix_tail_pair(hash: u64, bytes: &[u8], at: usize) -> (r: (u64, usize))
    requires
        at <= bytes@.len(),
    ensures
        bytes@.len() - at >= 2 ==> r.1 == at + 2 && r.0 == mix(
            hash,
            le_word(bytes@.skip(at as int).take(2)) as u64,
        ),
        bytes@.len() - at < 2 ==> r.1 == at && r.0 == hash,
{
    let len = bytes.len();
    if len - at >= 2 {
        let ghost pair = bytes@.skip(at as int).take(2);
        proof {
            reveal_with_fuel(le_word, 3);
            assert(pair.drop_first().drop_first().len() == 0);
        }
        let w: u64 = bytes[at] as u64 + 256 * (bytes[at + 1] as u64);
        (add_to_hash(hash, w), at + 2)
    } else {
        (hash, at)
    }
}

/// The 64-bit Fx hash of `bytes`.
///
/// Whole 8-byte chunks, and the 4-byte and 2-byte words of the tail, are read as
/// little-endian words: the hash of a text is the same on every machine.
pub fn fxhash(bytes: &[u8]) -> (hash: u64)
    ensures
        hash == fx_hash(bytes@),
{
    let len = bytes.len();
    let (chunks, start) = mix_chunks(bytes);
    let ghost rest = fx_rest(bytes@);
    assert(bytes@.skip(start as int) =~= rest);
    let (h4, i4) = mix_tail_quad(chunks, bytes, start);
    let ghost r4 = if rest.len() >= 4 {
        rest.skip(4)
    } else {
        rest
    };
    assert(bytes@.skip(i4 as int) =~= r4);
    let (h2, i2) = mix_tail_pair(h4, bytes, i4);
    let ghost r2 = if r4.len() >= 2 {
        r4.skip(2)
    } else {
        r4
    };
    assert(bytes@.skip(i2 as int) =~= r2);
    let hash = if len - i2 >= 1 {
        add_to_hash(h2, bytes[i2] as u64)
    } else {
        h2
    };
    assert(hash == fx_tail(chunks, rest));
    hash
}

/// Pre-hashed name of a query kind.
///
/// Two names are equal when their hashes are equal; the text is kept for diagnostics
/// only. Names do not check for collisions among themselves: whoever keys a table by
/// them has to.
#[derive(Clone, Copy, Debug)]
pub struct Name {
    hash: u64,
    name: &'static str,
}

impl Name {
    /// The hash that stands for this name.
    pub closed spec fn spec_hash(&self) -> u64 {
        self.hash
    }

    /// The text this name was made from.
    pub closed spec fn spec_text(&self) -> &'static str {
        self.name
    }

    /// Hashes `name` and keeps both the hash and the text.
    pub fn new(name: &'static str) -> (n: Name)
        ensures
            n.spec_text() == name,
            n.spec_hash() == fx_hash(name.spec_bytes()),
    {
        Name { hash: fxhash(name.as_bytes()), name }
    }

    /// The hash that stands for this name.
    pub fn hash(&self) -> (h: u64)
        ensures
            h == self.spec_hash(),
    {
        self.hash
    }

    /// The text this name was made from.
    pub fn text(&self) -> (t: &'static str)
        ensures
            t == self.spec_text(),
    {
        self.name
    }
}

impl PartialEq for Name {
    fn eq(&self, other: &Self) -> (equal: bool) {
        self.hash == other.hash
    }
}

impl Eq for Name {}

impl PartialEqSpecImpl for Name {
    open spec fn obeys_eq_spec() -> bool {
        true
    }

    open spec fn eq_spec(&self, other: &Self) -> bool {
        self.spec_hash() == other.spec_hash()
    }
}

} // verus!
