//! Number literals: reading and writing integers in decimal, and the
//! grammar of floating-point literals.

use vstd::prelude::*;
use crate::scan::{run_end, scan, CharClass};
use crate::text::{char_is_digit, from_chars, is_digit};

verus! {

/// The value of the digit `c`.
pub open spec fn digit_value(c: char) -> int {
    c as u32 as int - 48
}

/// The digit that stands for `d`, for `d` below ten.
pub open spec fn digit_char(d: int) -> char {
    (48 + d) as u8 as char
}

/// The number that a run of digits denotes in base ten; zero for no digits.
pub open spec fn digits_value(s: Seq<char>) -> int
    decreases s.len(),
{
    if s.len() == 0 {
        0
    } else {
        digits_value(s.drop_last()) * 10 + digit_value(s.last())
    }
}

/// Whether `s` holds digits only.
pub open spec fn all_digits(s: Seq<char>) -> bool {
    forall|i: int| 0 <= i < s.len() ==> is_digit(#[trigger] s[i])
}

/// Whether `s` starts with a plus or minus sign.
pub open spec fn has_sign(s: Seq<char>) -> bool {
    s.len() > 0 && (s[0] == '-' || s[0] == '+')
}

/// `s` without its sign, if it has one.
pub open spec fn unsigned_part(s: Seq<char>) -> Seq<char> {
    if has_sign(s) {
        s.skip(1)
    } else {
        s
    }
}

/// The 64-bit signed integer that `s` denotes: an optional sign followed by
/// one or more digits whose value fits. Anything else denotes none.
pub open spec fn int_literal(s: Seq<char>) -> Option<i64> {
    let body = unsigned_part(s);
    let v = if s.len() > 0 && s[0] == '-' {
        -digits_value(body)
    } else {
        digits_value(body)
    };
    if body.len() > 0 && all_digits(body) && i64::MIN <= v <= i64::MAX {
        Some(v as i64)
    } else {
        None
    }
}

/// The decimal digits of `n`, most significant first, without leading zeros.
pub open spec fn decimal_nat(n: nat) -> Seq<char>
    decreases n,
{
    if n < 10 {
        seq![digit_char(n as int)]
    } else {
        decimal_nat(n / 10).push(digit_char((n % 10) as int))
    }
}

/// The canonical decimal rendering of `n`: a minus sign for a negative
/// number, then the digits of its magnitude.
pub open spec fn decimal(n: int) -> Seq<char> {
    if n < 0 {
        seq!['-'] + decimal_nat((-n) as nat)
    } else {
        decimal_nat(n as nat)
    }
}

/// A longer run of digits denotes at least as much as any of its prefixes.
pub proof fn lemma_digits_monotone(s: Seq<char>, k: int)
    requires
        all_digits(s),
        0 <= k <= s.len(),
    ensures
        0 <= digits_value(s.take(k)) <= digits_value(s),
    decreases s.len(),
{
    if k == s.len() {
        assert(s.take(k) == s);
        if s.len() > 0 {
            assert(all_digits(s.drop_last()));
            lemma_digits_monotone(s.drop_last(), k - 1);
            assert(s.drop_last().take(k - 1) == s.drop_last());
            assert(is_digit(s[s.len() - 1]));
        }
    } else {
        assert(all_digits(s.drop_last()));
        lemma_digits_monotone(s.drop_last(), k);
        assert(s.drop_last().take(k) == s.take(k));
        lemma_digits_monotone(s.drop_last(), s.len() - 1);
        assert(is_digit(s[s.len() - 1]));
    }
}

/// Reads `v` as a 64-bit signed integer.
pub fn parse_int(v: &Vec<char>) -> (r: Option<i64>)
    ensures
        r == int_literal(v@),
{
    let negative = v.len() > 0 && v[0] == '-';
    let start: usize = if v.len() > 0 && (v[0] == '-' || v[0] == '+') {
        1
    } else {
        0
    };
    let ghost body = unsigned_part(v@);
    assert(body == v@.subrange(start as int, v.len() as int));
    if start >= v.len() {
        return None;
    }
    let limit: i128 = 0x8000_0000_0000_0000;
    let mut acc: i128 = 0;
    let mut i: usize = start;
    while i < v.len()
        invariant
            start <= i <= v.len(),
            body == v@.subrange(start as int, v.len() as int),
            body == unsigned_part(v@),
            limit == 0x8000_0000_0000_0000,
            0 <= acc <= limit,
            acc == digits_value(body.take(i - start)),
            all_digits(body.take(i - start)),
        decreases v.len() - i,
    {
        let c = v[i];
        let ghost next = body.take(i - start + 1);
        assert(next.drop_last() == body.take(i - start));
        assert(next.last() == c);
        assert(body[i - start] == c);
        if !char_is_digit(c) {
            assert(!all_digits(body));
            return None;
        }
        let d: i128 = (c as u32 - 48) as i128;
        acc = acc * 10 + d;
        i += 1;
        assert(acc == digits_value(next));
        assert(next == body.take(i - start));
        assert(all_digits(next)) by {
            assert forall|j: int| 0 <= j < next.len() implies is_digit(#[trigger] next[j]) by {
                if j < next.len() - 1 {
                    assert(next[j] == body.take(i - start - 1)[j]);
                }
            }
        }
        if acc > limit {
            proof {
                if all_digits(body) {
                    lemma_digits_monotone(body, i - start);
                }
            }
            return None;
        }
    }
    assert(body.take(i - start) == body);
    if negative {
        Some((-acc) as i64)
    } else if acc == limit {
        None
    } else {
        Some(acc as i64)
    }
}

/// Appends the decimal digits of `n` to `out`.
fn push_decimal(out: &mut Vec<char>, n: u64)
    ensures
        final(out)@ == old(out)@ + decimal_nat(n as nat),
    decreases n,
{
    if n >= 10 {
        push_decimal(out, n / 10);
    }
    let d: u8 = (n % 10) as u8;
    out.push((48 + d) as char);
    assert(final(out)@ == old(out)@ + decimal_nat(n as nat));
}

/// The canonical decimal rendering of `n`.
pub fn int_to_text(n: i64) -> (r: String)
    ensures
        r@ == decimal(n as int),
{
    let mut out: Vec<char> = Vec::new();
    if n < 0 {
        out.push('-');
        let m: u64 = (-(n as i128)) as u64;
        push_decimal(&mut out, m);
    } else {
        push_decimal(&mut out, n as u64);
        assert(out@ == decimal_nat(n as nat));
    }
    from_chars(&out)
}

/// A digit's character is a digit and has the digit's value.
pub proof fn lemma_digit_char(d: int)
    requires
        0 <= d < 10,
    ensures
        is_digit(digit_char(d)),
        digit_value(digit_char(d)) == d,
{
}

/// The digits of a number denote it.
pub proof fn lemma_decimal_nat(n: nat)
    ensures
        decimal_nat(n).len() > 0,
        all_digits(decimal_nat(n)),
        digits_value(decimal_nat(n)) == n,
    decreases n,
{
    lemma_digit_char((n % 10) as int);
    if n < 10 {
        assert(decimal_nat(n).drop_last() == Seq::<char>::empty());
        assert(digits_value(Seq::<char>::empty()) == 0);
    } else {
        lemma_decimal_nat(n / 10);
        let s = decimal_nat(n);
        assert(s.last() == digit_char((n % 10) as int));
        assert(s.drop_last() == decimal_nat(n / 10));
        assert forall|i: int| 0 <= i < s.len() implies is_digit(#[trigger] s[i]) by {
            if i < s.len() - 1 {
                assert(s[i] == decimal_nat(n / 10)[i]);
            }
        }
    }
}

/// Reading the canonical rendering of a 64-bit integer gives that integer
/// back.
pub proof fn lemma_decimal_round_trip(n: i64)
    ensures
        int_literal(decimal(n as int)) == Some(n),
{
    let s = decimal(n as int);
    if n < 0 {
        lemma_decimal_nat((-n) as nat);
        assert(s.skip(1) == decimal_nat((-n) as nat));
    } else {
        lemma_decimal_nat(n as nat);
        assert(is_digit(s[0]));
    }
}

/// Whether `c` is the lower-case ASCII letter `l` or its upper-case form.
pub open spec fn same_letter(c: char, l: char) -> bool {
    c == l || c as u32 + 32 == l as u32
}

/// Whether `s` spells `w`, which is in lower case, in any mix of cases.
pub open spec fn spells(s: Seq<char>, w: Seq<char>) -> bool {
    s.len() == w.len() && forall|i: int| 0 <= i < s.len() ==> same_letter(s[i], #[trigger] w[i])
}

/// Whether `s` names an infinity or a not-a-number.
pub open spec fn special_float(s: Seq<char>) -> bool {
    spells(s, seq!['i', 'n', 'f']) || spells(s, seq!['n', 'a', 'n']) || spells(
        s,
        seq!['i', 'n', 'f', 'i', 'n', 'i', 't', 'y'],
    )
}

/// Whether `s` is an unsigned decimal number: digits with at most one point
/// among them and at least one digit, then optionally an exponent, which is
/// the letter `e` in either case, an optional sign and at least one digit.
pub open spec fn decimal_float(s: Seq<char>) -> bool {
    let i = run_end(s, CharClass::Digit, 0);
    let pointed = i < s.len() && s[i] == '.';
    let j = if pointed {
        run_end(s, CharClass::Digit, i + 1)
    } else {
        i
    };
    let digits = if pointed {
        j - 1
    } else {
        j
    };
    let k = if j + 1 < s.len() && (s[j + 1] == '+' || s[j + 1] == '-') {
        j + 2
    } else {
        j + 1
    };
    digits > 0 && (j == s.len() || ((s[j] == 'e' || s[j] == 'E') && k < s.len() && run_end(
        s,
        CharClass::Digit,
        k,
    ) == s.len()))
}

/// Whether `s` is a floating-point literal: an optional sign, then a
/// special name or a decimal number.
pub open spec fn float_literal(s: Seq<char>) -> bool {
    let body = unsigned_part(s);
    special_float(body) || decimal_float(body)
}

/// Executable form of [`same_letter`].
fn letter_matches(c: char, l: char) -> (b: bool)
    ensures
        b == same_letter(c, l),
{
    c == l || c as u32 + 32 == l as u32
}

/// Whether `b` names an infinity or a not-a-number.
fn is_special_float(b: &Vec<char>) -> (r: bool)
    ensures
        r == special_float(b@),
{
    let ghost inf = seq!['i', 'n', 'f'];
    let ghost nan = seq!['n', 'a', 'n'];
    let ghost infinity = seq!['i', 'n', 'f', 'i', 'n', 'i', 't', 'y'];
    if b.len() == 3 {
        let is_inf = letter_matches(b[0], 'i') && letter_matches(b[1], 'n') && letter_matches(
            b[2],
            'f',
        );
        let is_nan = letter_matches(b[0], 'n') && letter_matches(b[1], 'a') && letter_matches(
            b[2],
            'n',
        );
        assert(is_inf == spells(b@, inf)) by {
            assert(inf[0] == 'i' && inf[1] == 'n' && inf[2] == 'f');
        }
        assert(is_nan == spells(b@, nan)) by {
            assert(nan[0] == 'n' && nan[1] == 'a' && nan[2] == 'n');
        }
        is_inf || is_nan
    } else if b.len() == 8 {
        let r = letter_matches(b[0], 'i') && letter_matches(b[1], 'n') && letter_matches(b[2], 'f')
            && letter_matches(b[3], 'i') && letter_matches(b[4], 'n') && letter_matches(b[5], 'i')
            && letter_matches(b[6], 't') && letter_matches(b[7], 'y');
        assert(r == spells(b@, infinity)) by {
            assert(infinity[0] == 'i' && infinity[1] == 'n' && infinity[2] == 'f' && infinity[3]
                == 'i' && infinity[4] == 'n' && infinity[5] == 'i' && infinity[6] == 't'
                && infinity[7] == 'y');
        }
        r
    } else {
        false
    }
}

/// Whether `b` is an unsigned decimal number.
fn is_decimal_float(b: &Vec<char>) -> (r: bool)
    ensures
        r == decimal_float(b@),
{
    let n = b.len();
    let i = scan(b, CharClass::Digit, 0);
    let pointed = i < n && b[i] == '.';
    let j = if pointed {
        scan(b, CharClass::Digit, i + 1)
    } else {
        i
    };
    let digits = if pointed {
        j - 1
    } else {
        j
    };
    if digits == 0 {
        return false;
    }
    if j == n {
        return true;
    }
    if b[j] != 'e' && b[j] != 'E' {
        return false;
    }
    let k = if j + 1 < n && (b[j + 1] == '+' || b[j + 1] == '-') {
        j + 2
    } else {
        j + 1
    };
    if k >= n {
        return false;
    }
    scan(b, CharClass::Digit, k) == n
}

/// Whether `v` is a floating-point literal.
pub fn is_float_literal(v: &Vec<char>) -> (r: bool)
    ensures
        r == float_literal(v@),
{
    let start: usize = if v.len() > 0 && (v[0] == '-' || v[0] == '+') {
        1
    } else {
        0
    };
    let body = crate::text::slice(v, start, v.len());
    assert(body@ == unsigned_part(v@));
    is_special_float(&body) || is_decimal_float(&body)
}

} // verus!
