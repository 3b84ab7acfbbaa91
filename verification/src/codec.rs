//! Verified text encodings used by the token format: decimal numerals
//! and lowercase hexadecimal.

use vstd::prelude::*;
use vstd::string::{StrSliceExecFns, StringExecFns};

verus! {

/// Decimal digit characters.
pub open spec fn is_digit(c: char) -> bool {
    c == '0' || c == '1' || c == '2' || c == '3' || c == '4' || c == '5' || c == '6' || c == '7'
        || c == '8' || c == '9'
}

/// The value of a decimal digit character (zero for any other character).
pub open spec fn digit_val(c: char) -> nat {
    if c == '1' {
        1
    } else if c == '2' {
        2
    } else if c == '3' {
        3
    } else if c == '4' {
        4
    } else if c == '5' {
        5
    } else if c == '6' {
        6
    } else if c == '7' {
        7
    } else if c == '8' {
        8
    } else if c == '9' {
        9
    } else {
        0
    }
}

/// The character for a decimal digit value (for values up to nine).
pub open spec fn digit_char(d: nat) -> char {
    if d == 1 {
        '1'
    } else if d == 2 {
        '2'
    } else if d == 3 {
        '3'
    } else if d == 4 {
        '4'
    } else if d == 5 {
        '5'
    } else if d == 6 {
        '6'
    } else if d == 7 {
        '7'
    } else if d == 8 {
        '8'
    } else if d == 9 {
        '9'
    } else {
        '0'
    }
}

pub open spec fn all_digits(s: Seq<char>) -> bool {
    forall|i: int| 0 <= i < s.len() ==> is_digit(#[trigger] s[i])
}

/// The number a digit string denotes, most significant digit first.
pub open spec fn dec_val(s: Seq<char>) -> nat
    decreases s.len(),
{
    if s.len() == 0 {
        0
    } else {
        dec_val(s.drop_last()) * 10 + digit_val(s.last())
    }
}

/// The canonical (no leading zero) digit string of a number.
pub open spec fn dec_seq(n: nat) -> Seq<char>
    decreases n,
{
    if n < 10 {
        seq![digit_char(n)]
    } else {
        dec_seq(n / 10).push(digit_char(n % 10))
    }
}

/// A canonical digit string is nonempty and all digits, and denotes
/// the number it was built from.
pub proof fn lemma_dec_seq(n: nat)
    ensures
        dec_seq(n).len() >= 1,
        all_digits(dec_seq(n)),
        dec_val(dec_seq(n)) == n,
    decreases n,
{
    if n < 10 {
        let s = dec_seq(n);
        assert(s.drop_last() =~= Seq::<char>::empty());
        assert(s.last() == digit_char(n));
        assert(digit_val(digit_char(n)) == n);
        assert(s.len() == 1);
        assert(dec_val(s) == dec_val(s.drop_last()) * 10 + digit_val(s.last()));
        assert(dec_val(s.drop_last()) == 0);
    } else {
        lemma_dec_seq(n / 10);
        let s = dec_seq(n);
        assert(s.drop_last() =~= dec_seq(n / 10));
        assert(s.last() == digit_char(n % 10));
        assert(digit_val(digit_char(n % 10)) == n % 10);
        assert(dec_val(s) == (n / 10) * 10 + n % 10);
        assert((n / 10) * 10 + n % 10 == n) by (nonlinear_arith);
        assert forall|i: int| 0 <= i < s.len() implies is_digit(#[trigger] s[i]) by {
            if i < s.len() - 1 {
                assert(s[i] == dec_seq(n / 10)[i]);
            }
        }
    }
}

/// Appending one more digit multiplies the value by ten and adds it.
pub proof fn lemma_dec_val_step(s: Seq<char>, i: int, k: int)
    requires
        0 <= i <= k < s.len(),
    ensures
        dec_val(s.subrange(i, k + 1)) == dec_val(s.subrange(i, k)) * 10 + digit_val(s[k]),
{
    assert(s.subrange(i, k + 1).drop_last() =~= s.subrange(i, k));
    assert(s.subrange(i, k + 1).last() == s[k]);
}

/// A longer digit run never denotes a smaller number.
pub proof fn lemma_dec_val_monotone(s: Seq<char>, i: int, k: int, j: int)
    requires
        0 <= i <= k <= j <= s.len(),
    ensures
        dec_val(s.subrange(i, j)) >= dec_val(s.subrange(i, k)),
    decreases j - k,
{
    if k < j {
        lemma_dec_val_monotone(s, i, k, j - 1);
        lemma_dec_val_step(s, i, j - 1);
    }
}

/// The first position at or after `i` that does not hold a digit.
pub open spec fn digits_end(s: Seq<char>, i: int) -> int
    decreases s.len() - i,
{
    if i < 0 || i >= s.len() {
        i
    } else if is_digit(s[i]) {
        digits_end(s, i + 1)
    } else {
        i
    }
}

pub proof fn lemma_digits_end_bounds(s: Seq<char>, i: int)
    requires
        0 <= i <= s.len(),
    ensures
        i <= digits_end(s, i) <= s.len(),
        forall|j: int| i <= j < digits_end(s, i) ==> is_digit(#[trigger] s[j]),
        digits_end(s, i) < s.len() ==> !is_digit(s[digits_end(s, i)]),
    decreases s.len() - i,
{
    if i < s.len() && is_digit(s[i]) {
        lemma_digits_end_bounds(s, i + 1);
    }
}

/// The digit run from `i` ends exactly where digits stop.
pub proof fn lemma_digits_end_is(s: Seq<char>, i: int, m: int)
    requires
        0 <= i <= m <= s.len(),
        forall|j: int| i <= j < m ==> is_digit(#[trigger] s[j]),
        m < s.len() ==> !is_digit(s[m]),
    ensures
        digits_end(s, i) == m,
    decreases m - i,
{
    if i < m {
        lemma_digits_end_is(s, i + 1, m);
    }
}

/// One numeric field of the token: a nonempty digit run from `i`, a
/// `.` terminator, and a value that fits the token's number type.
/// Yields the value and the position after the terminator.
pub open spec fn parse_field(s: Seq<char>, i: int) -> Option<(nat, int)> {
    let j = digits_end(s, i);
    if j == i {
        None
    } else if j >= s.len() {
        None
    } else if s[j] != '.' {
        None
    } else if dec_val(s.subrange(i, j)) > u64::MAX {
        None
    } else {
        Some((dec_val(s.subrange(i, j)), j + 1))
    }
}

/// A field built from a canonical numeral parses back to its number:
/// after `prefix + dec_seq(n) + '.'` the parse yields `n` and stops
/// right after the dot.
pub proof fn lemma_parse_field_round_trip(s: Seq<char>, i: int, n: nat)
    requires
        0 <= i,
        n <= u64::MAX,
        i + dec_seq(n).len() < s.len(),
        s.subrange(i, i + dec_seq(n).len() as int) == dec_seq(n),
        s[i + dec_seq(n).len() as int] == '.',
    ensures
        parse_field(s, i) == Some((n, i + dec_seq(n).len() + 1)),
{
    lemma_dec_seq(n);
    let m = i + dec_seq(n).len() as int;
    assert forall|j: int| i <= j < m implies is_digit(#[trigger] s[j]) by {
        assert(s[j] == s.subrange(i, m)[j - i]);
        assert(is_digit(dec_seq(n)[j - i]));
    }
    assert(!is_digit(s[m]));
    lemma_digits_end_is(s, i, m);
    assert(dec_val(s.subrange(i, m)) == n);
}

/// The character for a hexadecimal digit value (for values up to
/// fifteen), lowercase.
pub open spec fn hex_digit(d: nat) -> char {
    if d == 1 {
        '1'
    } else if d == 2 {
        '2'
    } else if d == 3 {
        '3'
    } else if d == 4 {
        '4'
    } else if d == 5 {
        '5'
    } else if d == 6 {
        '6'
    } else if d == 7 {
        '7'
    } else if d == 8 {
        '8'
    } else if d == 9 {
        '9'
    } else if d == 10 {
        'a'
    } else if d == 11 {
        'b'
    } else if d == 12 {
        'c'
    } else if d == 13 {
        'd'
    } else if d == 14 {
        'e'
    } else if d == 15 {
        'f'
    } else {
        '0'
    }
}

/// Lowercase hexadecimal of a byte string, two characters per byte.
pub open spec fn hex_of(bs: Seq<u8>) -> Seq<char>
    decreases bs.len(),
{
    if bs.len() == 0 {
        Seq::<char>::empty()
    } else {
        hex_of(bs.drop_last()) + seq![
            hex_digit((bs.last() / 16) as nat),
            hex_digit((bs.last() % 16) as nat),
        ]
    }
}

/// The one-character string for a decimal digit value.
fn digit_string(d: u64) -> (s: String)
    requires
        d < 10,
    ensures
        s@ == seq![digit_char(d as nat)],
{
    let lit: &str = if d == 0 {
        "0"
    } else if d == 1 {
        "1"
    } else if d == 2 {
        "2"
    } else if d == 3 {
        "3"
    } else if d == 4 {
        "4"
    } else if d == 5 {
        "5"
    } else if d == 6 {
        "6"
    } else if d == 7 {
        "7"
    } else if d == 8 {
        "8"
    } else {
        "9"
    };
    proof {
        reveal_strlit("0");
        reveal_strlit("1");
        reveal_strlit("2");
        reveal_strlit("3");
        reveal_strlit("4");
        reveal_strlit("5");
        reveal_strlit("6");
        reveal_strlit("7");
        reveal_strlit("8");
        reveal_strlit("9");
        assert(lit@ =~= seq![digit_char(d as nat)]);
    }
    lit.to_owned()
}

/// The canonical decimal numeral of `n`.
pub fn u64_to_dec(n: u64) -> (s: String)
    ensures
        s@ == dec_seq(n as nat),
    decreases n,
{
    if n < 10 {
        digit_string(n)
    } else {
        let mut s = u64_to_dec(n / 10);
        let tail = digit_string(n % 10);
        s.append(tail.as_str());
        proof {
            assert(s@ =~= dec_seq(n as nat));
        }
        s
    }
}

/// The one-character string for a hexadecimal digit value.
fn hex_digit_string(d: u8) -> (s: String)
    requires
        d < 16,
    ensures
        s@ == seq![hex_digit(d as nat)],
{
    let lit: &str = if d == 0 {
        "0"
    } else if d == 1 {
        "1"
    } else if d == 2 {
        "2"
    } else if d == 3 {
        "3"
    } else if d == 4 {
        "4"
    } else if d == 5 {
        "5"
    } else if d == 6 {
        "6"
    } else if d == 7 {
        "7"
    } else if d == 8 {
        "8"
    } else if d == 9 {
        "9"
    } else if d == 10 {
        "a"
    } else if d == 11 {
        "b"
    } else if d == 12 {
        "c"
    } else if d == 13 {
        "d"
    } else if d == 14 {
        "e"
    } else {
        "f"
    };
    proof {
        reveal_strlit("0");
        reveal_strlit("1");
        reveal_strlit("2");
        reveal_strlit("3");
        reveal_strlit("4");
        reveal_strlit("5");
        reveal_strlit("6");
        reveal_strlit("7");
        reveal_strlit("8");
        reveal_strlit("9");
        reveal_strlit("a");
        reveal_strlit("b");
        reveal_strlit("c");
        reveal_strlit("d");
        reveal_strlit("e");
        reveal_strlit("f");
        assert(lit@ =~= seq![hex_digit(d as nat)]);
    }
    lit.to_owned()
}

/// Lowercase hexadecimal of a byte string.
pub fn to_hex(bytes: &Vec<u8>) -> (s: String)
    ensures
        s@ == hex_of(bytes@),
{
    let mut s = String::new();
    let mut i: usize = 0;
    let n = bytes.len();
    while i < n
        invariant
            n == bytes@.len(),
            i <= n,
            s@ == hex_of(bytes@.subrange(0, i as int)),
        decreases n - i,
    {
        let b = bytes[i];
        let hi = hex_digit_string(b / 16);
        let lo = hex_digit_string(b % 16);
        s.append(hi.as_str());
        s.append(lo.as_str());
        proof {
            let sub = bytes@.subrange(0, i + 1);
            assert(sub.drop_last() =~= bytes@.subrange(0, i as int));
            assert(sub.last() == bytes@[i as int]);
            assert(s@ =~= hex_of(sub));
        }
        i += 1;
    }
    proof {
        assert(bytes@.subrange(0, n as int) =~= bytes@);
    }
    s
}

/// Decimal digit test on a character value.
pub fn char_is_digit(c: char) -> (r: bool)
    ensures
        r == is_digit(c),
{
    c == '0' || c == '1' || c == '2' || c == '3' || c == '4' || c == '5' || c == '6' || c == '7'
        || c == '8' || c == '9'
}

/// Reads one numeric field of the token at position `i`; mirrors
/// [`parse_field`] exactly.
pub fn parse_field_exec(s: &str, i: usize) -> (r: Option<(u64, usize)>)
    requires
        i <= s@.len(),
    ensures
        match parse_field(s@, i as int) {
            None => r is None,
            Some((v, ni)) => {
                &&& i < ni <= s@.len()
                &&& r == Some((v as u64, ni as usize))
            },
        },
{
    let len = s.unicode_len();
    let ghost e = digits_end(s@, i as int);
    proof {
        lemma_digits_end_bounds(s@, i as int);
    }
    // find the end of the digit run
    let mut j: usize = i;
    while j < len && char_is_digit(s.get_char(j))
        invariant
            i <= j <= len,
            len == s@.len(),
            forall|t: int| i <= t < j ==> is_digit(#[trigger] s@[t]),
        decreases len - j,
    {
        j += 1;
    }
    proof {
        lemma_digits_end_is(s@, i as int, j as int);
    }
    if j == i {
        return None;
    }
    if j == len {
        return None;
    }
    if s.get_char(j) != '.' {
        return None;
    }
    // accumulate the value, rejecting anything beyond the number type
    let mut acc: u64 = 0;
    let mut k: usize = i;
    while k < j
        invariant
            i < j < len,
            i <= k <= j,
            len == s@.len(),
            forall|t: int| i <= t < j ==> is_digit(#[trigger] s@[t]),
            digits_end(s@, i as int) == j as int,
            s@[j as int] == '.',
            acc as nat == dec_val(s@.subrange(i as int, k as int)),
        decreases j - k,
    {
        let c = s.get_char(k);
        let d: u64 = if c == '0' {
            0
        } else if c == '1' {
            1
        } else if c == '2' {
            2
        } else if c == '3' {
            3
        } else if c == '4' {
            4
        } else if c == '5' {
            5
        } else if c == '6' {
            6
        } else if c == '7' {
            7
        } else if c == '8' {
            8
        } else {
            9
        };
        assert(d as nat == digit_val(s@[k as int]));
        proof {
            lemma_dec_val_step(s@, i as int, k as int);
        }
        if acc > 0xFFFF_FFFF_FFFF_FFFFu64 / 10 {
            proof {
                assert(dec_val(s@.subrange(i as int, k as int + 1)) == acc * 10 + d as nat);
                assert(acc * 10 > u64::MAX);
                lemma_dec_val_monotone(s@, i as int, k as int + 1, j as int);
                assert(dec_val(s@.subrange(i as int, j as int)) > u64::MAX);
            }
            return None;
        }
        let next = acc * 10;
        if d > u64::MAX - next {
            proof {
                assert(dec_val(s@.subrange(i as int, k as int + 1)) == next + d as nat);
                lemma_dec_val_monotone(s@, i as int, k as int + 1, j as int);
                assert(dec_val(s@.subrange(i as int, j as int)) > u64::MAX);
            }
            return None;
        }
        acc = next + d;
        k += 1;
    }
    proof {
        assert(dec_val(s@.subrange(i as int, j as int)) <= u64::MAX);
    }
    Some((acc, j + 1))
}

} // verus!
