//! Operations on text: parts of texts, comparison, and numerals.

use vstd::prelude::*;
use vstd::string::StringSliceAdditionalSpecFns;

verus! {

/// Whether `start` and `end` bound a part of `bytes` that lies on whole characters.
pub open spec fn sliceable(bytes: Seq<u8>, start: int, end: int) -> bool {
    &&& 0 <= start <= end <= bytes.len()
    &&& vstd::utf8::is_char_boundary(bytes, start)
    &&& vstd::utf8::is_char_boundary(bytes, end)
}

/// `str::get` of std with a range: the part of `text` from byte `start` up to byte
/// `end`, or `None` where the range does not lie within the text or does not start and
/// end at the boundary of a character.
#[verifier::external_body]
pub(crate) fn slice(text: &str, start: usize, end: usize) -> (part: Option<&str>)
    ensures
        part is Some == sliceable(text.spec_bytes(), start as int, end as int),
        part matches Some(part) ==> part.spec_bytes() == text.spec_bytes().subrange(
            start as int,
            end as int,
        ),
{
    text.get(start..end)
}

/// Whether two texts are the same sequence of characters.
pub fn same(a: &str, b: &str) -> (same: bool)
    ensures
        same == (a@ == b@),
{
    let x = a.as_bytes();
    let y = b.as_bytes();
    proof {
        vstd::utf8::encode_utf8_decode_utf8(a@);
        vstd::utf8::encode_utf8_decode_utf8(b@);
    }
    if x.len() != y.len() {
        return false;
    }
    let mut i: usize = 0;
    while i < x.len()
        invariant
            x@ == a.spec_bytes(),
            y@ == b.spec_bytes(),
            x@.len() == y@.len(),
            i <= x@.len(),
            forall|j: int| 0 <= j < i ==> x@[j] == y@[j],
        decreases x@.len() - i,
    {
        if x[i] != y[i] {
            return false;
        }
        i += 1;
    }
    assert(x@ =~= y@);
    true
}

/// `String::push_str` of std: `tail` is put behind what `text` holds.
#[verifier::external_body]
pub(crate) fn push_str(text: &mut String, tail: &str)
    ensures
        final(text)@ == old(text)@ + tail@,
{
    text.push_str(tail);
}

/// The digit for `digit`, which is below sixteen: `0` to `9`, then `a` to `f`.
pub open spec fn digit_char(digit: nat) -> char {
    if digit < 10 {
        (('0' as u8) + digit) as char
    } else {
        (('a' as u8) + digit - 10) as char
    }
}

/// The numeral of `n` to the base `radix`, without leading zeros.
pub open spec fn numeral(n: nat, radix: nat) -> Seq<char>
    decreases n,
{
    if n < radix || radix < 2 {
        seq![digit_char(n)]
    } else {
        proof {
            assert(n / radix < n) by (nonlinear_arith)
                requires
                    n >= radix,
                    radix >= 2,
            ;
        }
        numeral(n / radix, radix).push(digit_char(n % radix))
    }
}

/// The decimal numeral of `n`, without leading zeros.
pub open spec fn decimal(n: nat) -> Seq<char> {
    numeral(n, 10)
}

/// The lower-case hexadecimal numeral of `n`, without leading zeros.
pub open spec fn hexadecimal(n: nat) -> Seq<char> {
    numeral(n, 16)
}

/// The digits in `digits`, last one first.
pub open spec fn digits_text(digits: Seq<u8>) -> Seq<char>
    decreases digits.len(),
{
    if digits.len() == 0 {
        Seq::empty()
    } else {
        seq![digit_char(digits.last() as nat)] + digits_text(digits.drop_last())
    }
}

/// The text of one digit.
fn digit_text(digit: u8) -> (text: &'static str)
    requires
        digit < 16,
    ensures
        text@ == seq![digit_char(digit as nat)],
{
    proof {
        reveal_strlit("0");
        reveal_strlit("1");
        reveal_strlit("2");
        reveal_strlit("3");
        reveal_strlit("4");
        reveal_strlit("5");
        reveal_strlit("6");
        reveal_strlit("7");
        reveal_strlit("8");
        reveal_strlit("9");
        reveal_strlit("a");
        reveal_strlit("b");
        reveal_strlit("c");
        reveal_strlit("d");
        reveal_strlit("e");
        reveal_strlit("f");
    }
    let text = if digit == 0 {
        "0"
    } else if digit == 1 {
        "1"
    } else if digit == 2 {
        "2"
    } else if digit == 3 {
        "3"
    } else if digit == 4 {
        "4"
    } else if digit == 5 {
        "5"
    } else if digit == 6 {
        "6"
    } else if digit == 7 {
        "7"
    } else if digit == 8 {
        "8"
    } else if digit == 9 {
        "9"
    } else if digit == 10 {
        "a"
    } else if digit == 11 {
        "b"
    } else if digit == 12 {
        "c"
    } else if digit == 13 {
        "d"
    } else if digit == 14 {
        "e"
    } else {
        "f"
    };
    assert(text@ =~= seq![digit_char(digit as nat)]);
    text
}

/// The numeral of `n` to the base ten or sixteen.
fn to_numeral(n: u64, radix: u64) -> (text: String)
    requires
        radix == 10 || radix == 16,
    ensures
        text@ == numeral(n as nat, radix as nat),
{
    let mut digits: Vec<u8> = Vec::new();
    let mut rest = n;
    assert(numeral(n as nat, radix as nat) =~= numeral(rest as nat, radix as nat) + digits_text(
        digits@,
    ));
    while rest >= radix
        invariant
            radix == 10 || radix == 16,
            forall|i: int| 0 <= i < digits@.len() ==> digits@[i] < 16,
            numeral(n as nat, radix as nat) == numeral(rest as nat, radix as nat) + digits_text(
                digits@,
            ),
        decreases rest,
    {
        let ghost before = digits@;
        let digit = (rest % radix) as u8;
        digits.push(digit);
        proof {
            assert(digits@.drop_last() =~= before);
            assert(numeral((rest / radix) as nat, radix as nat) + digits_text(digits@)
                =~= numeral(rest as nat, radix as nat) + digits_text(before));
        }
        rest = rest / radix;
    }
    let ghost before = digits@;
    digits.push(rest as u8);
    proof {
        assert(digits@.drop_last() =~= before);
        assert(digits_text(digits@) =~= numeral(n as nat, radix as nat));
    }
    let mut text = String::new();
    let mut i = digits.len();
    assert(digits@.subrange(0, i as int) =~= digits@);
    assert(text@ + digits_text(digits@.subrange(0, i as int)) =~= digits_text(digits@));
    while i > 0
        invariant
            i <= digits@.len(),
            forall|j: int| 0 <= j < digits@.len() ==> digits@[j] < 16,
            text@ + digits_text(digits@.subrange(0, i as int)) == digits_text(digits@),
        decreases i,
    {
        let ghost prefix = digits@.subrange(0, i as int);
        i -= 1;
        push_str(&mut text, digit_text(digits[i]));
        proof {
            assert(prefix.drop_last() =~= digits@.subrange(0, i as int));
            assert(prefix.last() == digits@[i as int]);
            assert(text@ + digits_text(digits@.subrange(0, i as int)) =~= digits_text(digits@));
        }
    }
    assert(digits_text(digits@.subrange(0, 0)) =~= Seq::empty());
    assert(text@ =~= digits_text(digits@));
    text
}

/// The decimal numeral of `n`.
pub fn usize_to_string(n: usize) -> (text: String)
    ensures
        text@ == decimal(n as nat),
{
    to_numeral(n as u64, 10)
}

/// The decimal numeral of `n`.
pub fn u64_to_string(n: u64) -> (text: String)
    ensures
        text@ == decimal(n as nat),
{
    to_numeral(n, 10)
}

/// The lower-case hexadecimal numeral of `n`.
pub fn u64_to_hex(n: u64) -> (text: String)
    ensures
        text@ == hexadecimal(n as nat),
{
    to_numeral(n, 16)
}

} // verus!
