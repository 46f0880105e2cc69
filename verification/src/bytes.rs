//! Byte strings: white space, decimal numerals, comparison.

use vstd::prelude::*;
use vstd::utf8::{encode_utf8, valid_utf8};

verus! {

#[verifier::external_type_specification]
#[verifier::external_body]
pub struct ExFromUtf8Error(std::string::FromUtf8Error);

/// Calls `String::from_utf8` on a copy of the bytes. Believed, as its
/// documentation says: it succeeds exactly on bytes that are valid UTF-8,
/// and the text then has those bytes.
#[verifier::external_body]
fn from_utf8(bytes: &[u8]) -> (r: Result<String, std::string::FromUtf8Error>)
    ensures
        valid_utf8(bytes@) <==> r is Ok,
        r matches Ok(text) ==> encode_utf8(text@) == bytes@,
{
    String::from_utf8(bytes.to_vec())
}

/// The bytes as text, where they are valid UTF-8.
pub fn text_of(bytes: &[u8]) -> (r: Option<String>)
    ensures
        r is Some <==> valid_utf8(bytes@),
        r matches Some(text) ==> encode_utf8(text@) == bytes@,
{
    match from_utf8(bytes) {
        Ok(text) => Some(text),
        Err(_) => None,
    }
}

pub const SPACE: u8 = 0x20;

pub const NEWLINE: u8 = 0x0a;

pub const SLASH: u8 = 0x2f;

pub const PLUS: u8 = 0x2b;

/// The white space that separates the arguments of a frame: blank, tab, line
/// feed, vertical tab, form feed and carriage return.
pub open spec fn is_space(b: u8) -> bool {
    b == 0x20 || (0x09 <= b && b <= 0x0d)
}

pub open spec fn is_digit(b: u8) -> bool {
    0x30 <= b && b <= 0x39
}

/// The views of the byte strings in `v`, in order.
pub open spec fn views(v: Seq<Vec<u8>>) -> Seq<Seq<u8>> {
    Seq::new(v.len(), |i: int| v[i]@)
}

/// The number that a string of decimal digits denotes, most significant digit
/// first. The empty string denotes zero.
pub open spec fn decimal_value(s: Seq<u8>) -> nat
    decreases s.len(),
{
    if s.len() == 0 {
        0
    } else {
        10 * decimal_value(s.drop_last()) + (s.last() - 0x30) as nat
    }
}

pub open spec fn all_digits(s: Seq<u8>) -> bool {
    s.len() > 0 && forall|i: int| 0 <= i < s.len() ==> is_digit(#[trigger] s[i])
}

/// What a numeral denotes: an optional plus sign, then one digit or more.
pub open spec fn numeral(s: Seq<u8>) -> Option<nat> {
    let digits = if s.len() > 0 && s[0] == 0x2b {
        s.skip(1)
    } else {
        s
    };
    if all_digits(digits) {
        Some(decimal_value(digits))
    } else {
        None
    }
}

/// The numeral `s` as a `u32`, where it denotes one.
pub open spec fn numeral_u32(s: Seq<u8>) -> Option<u32> {
    match numeral(s) {
        Some(v) => if v <= u32::MAX {
            Some(v as u32)
        } else {
            None
        },
        None => None,
    }
}

/// The shortest decimal numeral of `n`.
pub open spec fn decimal_digits(n: nat) -> Seq<u8>
    decreases n,
{
    if n < 10 {
        seq![(0x30 + n) as u8]
    } else {
        decimal_digits(n / 10).push((0x30 + n % 10) as u8)
    }
}

pub open spec fn is_prefix(prefix: Seq<u8>, s: Seq<u8>) -> bool {
    prefix.len() <= s.len() && s.take(prefix.len() as int) == prefix
}

pub fn is_space_byte(b: u8) -> (r: bool)
    ensures
        r == is_space(b),
{
    b == 0x20 || (0x09 <= b && b <= 0x0d)
}

pub fn same_bytes(a: &[u8], b: &[u8]) -> (r: bool)
    ensures
        r == (a@ == b@),
{
    if a.len() != b.len() {
        return false;
    }
    let mut i: usize = 0;
    while i < a.len()
        invariant
            a@.len() == b@.len(),
            i <= a@.len(),
            forall|j: int| 0 <= j < i ==> a@[j] == b@[j],
        decreases a@.len() - i,
    {
        if a[i] != b[i] {
            return false;
        }
        i += 1;
    }
    assert(a@ =~= b@);
    true
}

pub fn starts_with(s: &[u8], prefix: &[u8]) -> (r: bool)
    ensures
        r == is_prefix(prefix@, s@),
{
    if prefix.len() > s.len() {
        return false;
    }
    let mut i: usize = 0;
    while i < prefix.len()
        invariant
            prefix@.len() <= s@.len(),
            i <= prefix@.len(),
            forall|j: int| 0 <= j < i ==> s@[j] == prefix@[j],
        decreases prefix@.len() - i,
    {
        if s[i] != prefix[i] {
            assert(s@.take(prefix@.len() as int)[i as int] != prefix@[i as int]);
            return false;
        }
        i += 1;
    }
    assert(s@.take(prefix@.len() as int) =~= prefix@);
    true
}

/// A copy of the bytes of `s` from `from` up to `to`.
pub(crate) fn copy_range(s: &[u8], from: usize, to: usize) -> (r: Vec<u8>)
    requires
        from <= to <= s@.len(),
    ensures
        r@ == s@.subrange(from as int, to as int),
{
    let mut out: Vec<u8> = Vec::new();
    let mut i: usize = from;
    while i < to
        invariant
            from <= i <= to <= s@.len(),
            out@ == s@.subrange(from as int, i as int),
        decreases to - i,
    {
        out.push(s[i]);
        i += 1;
        assert(out@ =~= s@.subrange(from as int, i as int));
    }
    out
}

pub proof fn lemma_decimal_value_push(s: Seq<u8>, d: u8)
    ensures
        decimal_value(s.push(d)) == 10 * decimal_value(s) + (d - 0x30) as nat,
{
    assert(s.push(d).drop_last() =~= s);
}

/// A numeral with more digits never denotes less.
pub proof fn lemma_decimal_value_grows(s: Seq<u8>, k: int)
    requires
        0 <= k <= s.len(),
        forall|i: int| 0 <= i < s.len() ==> is_digit(#[trigger] s[i]),
    ensures
        decimal_value(s.take(k)) <= decimal_value(s),
    decreases s.len() - k,
{
    if k < s.len() {
        lemma_decimal_value_grows(s, k + 1);
        assert(s.take(k + 1).drop_last() =~= s.take(k));
        assert(is_digit(s[k]));
        assert(s.take(k + 1).last() == s[k]);
    } else {
        assert(s.take(k) =~= s);
    }
}

/// Reads a numeral that fits in 32 bits: an optional plus sign and decimal
/// digits, nothing else.
pub fn parse_u32(s: &[u8]) -> (r: Option<u32>)
    ensures
        r == numeral_u32(s@),
{
    let n: usize = s.len();
    let start: usize = if n > 0 && s[0] == PLUS {
        1
    } else {
        0
    };
    let ghost digits: Seq<u8> = if start == 1 {
        s@.skip(1)
    } else {
        s@
    };
    assert(digits =~= s@.subrange(start as int, n as int));
    if start == n {
        return None;
    }
    let mut acc: u64 = 0;
    let mut i: usize = start;
    while i < n
        invariant
            start <= i <= n,
            n == s@.len(),
            digits == s@.subrange(start as int, n as int),
            numeral(s@) == if all_digits(digits) {
                Some(decimal_value(digits))
            } else {
                None::<nat>
            },
            forall|j: int| 0 <= j < i - start ==> is_digit(#[trigger] digits[j]),
            acc == decimal_value(digits.take(i - start)),
            acc <= u32::MAX,
        decreases n - i,
    {
        let b: u8 = s[i];
        assert(b == digits[i - start]);
        if b < 0x30 || b > 0x39 {
            assert(!is_digit(digits[i - start]));
            return None;
        }
        let d: u64 = (b - 0x30) as u64;
        proof {
            assert(digits.take(i - start + 1) =~= digits.take(i - start).push(b));
            lemma_decimal_value_push(digits.take(i - start), b);
        }
        acc = acc * 10 + d;
        i += 1;
        if acc > 0xffff_ffff {
            // The digits that follow, if they are digits, only add to it.
            let mut j: usize = i;
            while j < n
                invariant
                    i <= j <= n,
                    start < i,
                    n == s@.len(),
                    digits == s@.subrange(start as int, n as int),
                    numeral(s@) == if all_digits(digits) {
                        Some(decimal_value(digits))
                    } else {
                        None::<nat>
                    },
                    forall|k: int| 0 <= k < j - start ==> is_digit(#[trigger] digits[k]),
                    acc == decimal_value(digits.take(i - start)),
                    acc > u32::MAX,
                decreases n - j,
            {
                let c: u8 = s[j];
                assert(c == digits[j - start]);
                if c < 0x30 || c > 0x39 {
                    assert(!is_digit(digits[j - start]));
                    return None;
                }
                j += 1;
            }
            proof {
                lemma_decimal_value_grows(digits, i - start);
            }
            return None;
        }
    }
    assert(digits.take(n - start) =~= digits);
    Some(acc as u32)
}

/// Writes `n` as its shortest decimal numeral.
pub fn format_decimal(n: u64) -> (r: Vec<u8>)
    ensures
        r@ == decimal_digits(n as nat),
    decreases n,
{
    if n < 10 {
        let mut out: Vec<u8> = Vec::new();
        out.push(0x30 + n as u8);
        assert(out@ =~= seq![(0x30 + n) as u8]);
        out
    } else {
        let mut out: Vec<u8> = format_decimal(n / 10);
        out.push(0x30 + (n % 10) as u8);
        out
    }
}

/// The digits of a numeral are digits, and there is at least one.
pub proof fn lemma_decimal_digits_are_digits(n: nat)
    ensures
        all_digits(decimal_digits(n)),
        n < 10 ==> decimal_digits(n).len() == 1,
    decreases n,
{
    if n >= 10 {
        lemma_decimal_digits_are_digits(n / 10);
    }
}

/// Reading inverts writing: the shortest numeral of a number denotes that
/// number.
pub proof fn law_numeral_reads_back(n: nat)
    ensures
        numeral(decimal_digits(n)) == Some(n),
    decreases n,
{
    lemma_decimal_digits_are_digits(n);
    lemma_decimal_value_of_digits(n);
}

pub proof fn lemma_decimal_value_of_digits(n: nat)
    ensures
        decimal_value(decimal_digits(n)) == n,
    decreases n,
{
    if n < 10 {
        let s = decimal_digits(n);
        assert(s.drop_last() =~= Seq::<u8>::empty());
        assert(decimal_value(s.drop_last()) == 0);
    } else {
        lemma_decimal_value_of_digits(n / 10);
        lemma_decimal_value_push(decimal_digits(n / 10), (0x30 + n % 10) as u8);
    }
}

} // verus!
