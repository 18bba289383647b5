//! Decimal formatting and parsing of the integers that ride inside
//! reference strings.
//!
//! Formatting writes the usual base-ten form with a leading minus for
//! negative values.  Parsing follows the standard library's integer
//! parser: an optional leading sign, then one or more digits, with
//! out-of-range values rejected.

use vstd::prelude::*;
use vstd::string::StrSliceExecFns;

use crate::markdown::push_char;

verus! {

/// The digit character for one value below ten.
pub open spec fn dec_digit(d: int) -> char {
    if d == 0 {
        '0'
    } else if d == 1 {
        '1'
    } else if d == 2 {
        '2'
    } else if d == 3 {
        '3'
    } else if d == 4 {
        '4'
    } else if d == 5 {
        '5'
    } else if d == 6 {
        '6'
    } else if d == 7 {
        '7'
    } else if d == 8 {
        '8'
    } else {
        '9'
    }
}

/// Base-ten form of a value that is not negative.
pub open spec fn dec_nat(n: int) -> Seq<char>
    decreases n,
{
    if n < 10 {
        seq![dec_digit(n)]
    } else {
        dec_nat(n / 10).push(dec_digit(n % 10))
    }
}

/// Base-ten form of any value, with a leading minus when negative.
pub open spec fn dec_int(n: int) -> Seq<char> {
    if n < 0 {
        seq!['-'] + dec_nat(-n)
    } else {
        dec_nat(n)
    }
}

/// A base-ten digit.
pub open spec fn is_digit(c: char) -> bool {
    48 <= c as u32 && c as u32 <= 57
}

/// Value of a base-ten digit.
pub open spec fn digit_val(c: char) -> int {
    c as u32 - 48
}

/// One or more characters, all digits.
pub open spec fn all_digits(s: Seq<char>) -> bool {
    s.len() > 0 && forall|i: int| 0 <= i < s.len() ==> is_digit(#[trigger] s[i])
}

/// The value a digit string stands for.
pub open spec fn digits_val(s: Seq<char>) -> int
    decreases s.len(),
{
    if s.len() == 0 {
        0
    } else {
        digits_val(s.drop_last()) * 10 + digit_val(s.last())
    }
}

/// What the standard integer parser accepts before its range check:
/// an optional sign, then one or more digits.
pub open spec fn spec_parse_int(s: Seq<char>) -> Option<int> {
    if s.len() == 0 {
        None
    } else if s[0] == '-' || s[0] == '+' {
        let rest = s.subrange(1, s.len() as int);
        if all_digits(rest) {
            if s[0] == '-' {
                Some(-digits_val(rest))
            } else {
                Some(digits_val(rest))
            }
        } else {
            None
        }
    } else if all_digits(s) {
        Some(digits_val(s))
    } else {
        None
    }
}

/// What the standard 64-bit signed parser returns: the parsed value
/// when it lies in range, nothing otherwise.
pub open spec fn spec_parse_i64(s: Seq<char>) -> Option<int> {
    match spec_parse_int(s) {
        Some(v) => if i64::MIN <= v <= i64::MAX {
            Some(v)
        } else {
            None
        },
        None => None,
    }
}

/// What the standard 32-bit signed parser returns.
pub open spec fn spec_parse_i32(s: Seq<char>) -> Option<int> {
    match spec_parse_int(s) {
        Some(v) => if i32::MIN <= v <= i32::MAX {
            Some(v)
        } else {
            None
        },
        None => None,
    }
}

/// What the standard unsigned machine-word parser returns: a minus
/// sign is rejected outright, even before a zero.
pub open spec fn spec_parse_usize(s: Seq<char>) -> Option<int> {
    match spec_parse_int(s) {
        Some(v) => if s[0] != '-' && v <= usize::MAX {
            Some(v)
        } else {
            None
        },
        None => None,
    }
}

/// A digit string's value is not negative.
proof fn lemma_digits_val_nonneg(s: Seq<char>)
    requires
        forall|i: int| 0 <= i < s.len() ==> is_digit(#[trigger] s[i]),
    ensures
        digits_val(s) >= 0,
    decreases s.len(),
{
    if s.len() > 0 {
        lemma_digits_val_nonneg(s.drop_last());
    }
}

/// A digit string's value only grows as digits are appended.
proof fn lemma_digits_val_prefix(s: Seq<char>, i: int)
    requires
        0 <= i <= s.len(),
        forall|j: int| 0 <= j < s.len() ==> is_digit(#[trigger] s[j]),
    ensures
        digits_val(s) >= digits_val(s.subrange(0, i)),
    decreases s.len() - i,
{
    if i < s.len() {
        lemma_digits_val_prefix(s, i + 1);
        let shorter = s.subrange(0, i);
        let longer = s.subrange(0, i + 1);
        assert(longer.drop_last() =~= shorter);
        lemma_digits_val_nonneg(shorter);
    } else {
        assert(s.subrange(0, i) =~= s);
    }
}

/// Base-ten text of a value that is not negative: one or more
/// digits, standing for exactly that value.
pub proof fn lemma_dec_nat_digits(n: int)
    requires
        n >= 0,
    ensures
        all_digits(dec_nat(n)),
        digits_val(dec_nat(n)) == n,
    decreases n,
{
    if n < 10 {
        assert(dec_nat(n)[0] == dec_digit(n));
        assert(is_digit(dec_digit(n)));
        assert(digit_val(dec_digit(n)) == n);
        assert(dec_nat(n).drop_last() =~= Seq::<char>::empty());
        assert(digits_val(Seq::<char>::empty()) == 0);
        assert(dec_nat(n).last() == dec_digit(n));
    } else {
        lemma_dec_nat_digits(n / 10);
        let pre = dec_nat(n / 10);
        let whole = dec_nat(n);
        assert(whole == pre.push(dec_digit(n % 10)));
        assert(whole.drop_last() =~= pre);
        assert(whole.last() == dec_digit(n % 10));
        assert forall|i: int| 0 <= i < whole.len() implies is_digit(#[trigger] whole[i]) by {
            if i < pre.len() {
                assert(whole[i] == pre[i]);
            }
        }
        assert(digit_val(dec_digit(n % 10)) == n % 10);
        vstd::arithmetic::div_mod::lemma_fundamental_div_mod(n, 10);
    }
}

/// Base-ten text parses back to the value it was written from, and
/// holds nothing but digits after an optional leading minus.
pub proof fn lemma_dec_int_parses(n: int)
    ensures
        spec_parse_int(dec_int(n)) == Some(n),
        dec_int(n).len() > 0,
        forall|i: int|
            0 <= i < dec_int(n).len() ==> (#[trigger] dec_int(n)[i] == '-' || is_digit(
                dec_int(n)[i],
            )),
{
    if n >= 0 {
        lemma_dec_nat_digits(n);
        assert(!(dec_int(n)[0] == '-' || dec_int(n)[0] == '+'));
    } else {
        lemma_dec_nat_digits(-n);
        let s = dec_int(n);
        let digits = dec_nat(-n);
        assert(s == seq!['-'] + digits);
        assert(s[0] == '-');
        assert(s.subrange(1, s.len() as int) =~= digits);
        assert forall|i: int|
            0 <= i < s.len() implies (#[trigger] s[i] == '-' || is_digit(s[i])) by {
            if i >= 1 {
                assert(s[i] == digits[i - 1]);
            }
        }
    }
}

/// The digit character for one value below ten.
fn digit_char(d: u64) -> (r: char)
    requires
        d < 10,
    ensures
        r == dec_digit(d as int),
{
    if d == 0 {
        '0'
    } else if d == 1 {
        '1'
    } else if d == 2 {
        '2'
    } else if d == 3 {
        '3'
    } else if d == 4 {
        '4'
    } else if d == 5 {
        '5'
    } else if d == 6 {
        '6'
    } else if d == 7 {
        '7'
    } else if d == 8 {
        '8'
    } else {
        '9'
    }
}

/// Writes `n` in base ten.
pub fn u64_to_decimal(n: u64) -> (r: String)
    ensures
        r@ == dec_nat(n as int),
    decreases n,
{
    if n < 10 {
        let mut out = String::new();
        push_char(&mut out, digit_char(n));
        proof {
            assert(out@ =~= dec_nat(n as int));
        }
        out
    } else {
        let mut out = u64_to_decimal(n / 10);
        push_char(&mut out, digit_char(n % 10));
        out
    }
}

/// Writes `n` in base ten, with a leading minus when negative.
pub fn i64_to_decimal(n: i64) -> (r: String)
    ensures
        r@ == dec_int(n as int),
{
    if n >= 0 {
        u64_to_decimal(n as u64)
    } else {
        let mag: u64 = if n == i64::MIN {
            9223372036854775808u64
        } else {
            (-n) as u64
        };
        let mut out = String::new();
        push_char(&mut out, '-');
        let digits = u64_to_decimal(mag);
        out.append(digits.as_str());
        proof {
            assert(out@ =~= seq!['-'] + dec_nat(mag as int));
        }
        out
    }
}

/// Parses an optional sign and a run of digits into the sign and the
/// magnitude; rejected when the text is not of that form or the
/// magnitude passes the widest machine range.
fn parse_decimal(s: &str) -> (r: Option<(bool, u64)>)
    ensures
        match r {
            Some(p) => spec_parse_int(s@) == Some(
                if p.0 {
                    -(p.1 as int)
                } else {
                    p.1 as int
                },
            ) && p.0 == (s@[0] == '-'),
            None => spec_parse_int(s@) is None || spec_parse_int(s@)->Some_0 > u64::MAX as int
                || spec_parse_int(s@)->Some_0 < -(u64::MAX as int),
        },
{
    let n = s.unicode_len();
    if n == 0 {
        return None;
    }
    let first = s.get_char(0);
    let neg = first == '-';
    let start: usize = if first == '-' || first == '+' {
        1
    } else {
        0
    };
    if start >= n {
        return None;
    }
    let ghost rest = s@.subrange(start as int, n as int);
    let mut acc: u64 = 0;
    let mut i: usize = start;
    while i < n
        invariant
            n == s@.len(),
            start <= i <= n,
            start <= 1,
            (start == 1) ==> (s@[0] == '-' || s@[0] == '+'),
            (start == 0) ==> !(s@[0] == '-' || s@[0] == '+'),
            rest == s@.subrange(start as int, n as int),
            forall|j: int| start <= j < i ==> is_digit(#[trigger] s@[j]),
            acc as int == digits_val(s@.subrange(start as int, i as int)),
        decreases n - i,
    {
        let c = s.get_char(i);
        let u = c as u32;
        if u < 48 || u > 57 {
            proof {
                assert(rest[i - start] == s@[i as int]);
                assert(!all_digits(rest));
            }
            return None;
        }
        let d: u64 = (u - 48) as u64;
        let wide: u128 = acc as u128 * 10 + d as u128;
        proof {
            let pre = s@.subrange(start as int, i as int);
            let cur = s@.subrange(start as int, i as int + 1);
            assert(cur.drop_last() =~= pre);
            assert(cur.last() == s@[i as int]);
        }
        if wide > u64::MAX as u128 {
            proof {
                let cur = s@.subrange(start as int, i as int + 1);
                assert(digits_val(cur) == wide as int);
                if start == 0 {
                    assert(rest =~= s@);
                }
                if all_digits(rest) {
                    assert(cur =~= rest.subrange(0, i - start + 1));
                    lemma_digits_val_prefix(rest, i - start + 1);
                    assert(digits_val(rest) > u64::MAX as int);
                }
            }
            return None;
        }
        acc = wide as u64;
        i = i + 1;
    }
    proof {
        assert(rest =~= s@.subrange(start as int, i as int));
        assert(all_digits(rest));
        if start == 0 {
            assert(rest =~= s@);
        }
    }
    Some((neg, acc))
}

/// Parses a 64-bit signed integer as the standard parser does: an
/// optional sign, digits, and the exact range check.
pub fn parse_i64_decimal(s: &str) -> (r: Option<i64>)
    ensures
        r is Some ==> spec_parse_i64(s@) == Some(r->Some_0 as int),
        r is None ==> spec_parse_i64(s@) is None,
{
    match parse_decimal(s) {
        None => None,
        Some((neg, mag)) => {
            if !neg {
                if mag <= i64::MAX as u64 {
                    Some(mag as i64)
                } else {
                    None
                }
            } else {
                if mag <= i64::MAX as u64 {
                    Some(-(mag as i64))
                } else if mag == 9223372036854775808u64 {
                    Some(i64::MIN)
                } else {
                    None
                }
            }
        },
    }
}

/// Parses a 32-bit signed integer as the standard parser does.
pub fn parse_i32_decimal(s: &str) -> (r: Option<i32>)
    ensures
        r is Some ==> spec_parse_i32(s@) == Some(r->Some_0 as int),
        r is None ==> spec_parse_i32(s@) is None,
{
    match parse_decimal(s) {
        None => None,
        Some((neg, mag)) => {
            if !neg {
                if mag <= i32::MAX as u64 {
                    Some(mag as i32)
                } else {
                    None
                }
            } else {
                if mag <= i32::MAX as u64 {
                    Some(-(mag as i32))
                } else if mag == 2147483648u64 {
                    Some(i32::MIN)
                } else {
                    None
                }
            }
        },
    }
}

/// Parses an unsigned machine integer as the standard parser does: a
/// minus sign is rejected outright, an optional plus is allowed.
pub fn parse_usize_decimal(s: &str) -> (r: Option<usize>)
    ensures
        r is Some ==> spec_parse_usize(s@) == Some(r->Some_0 as int),
        r is None ==> spec_parse_usize(s@) is None,
{
    proof {
        if spec_parse_int(s@) is Some && spec_parse_int(s@)->Some_0 < 0 && s@[0] != '-' {
            if s@[0] == '+' {
                lemma_digits_val_nonneg(s@.subrange(1, s@.len() as int));
            } else {
                lemma_digits_val_nonneg(s@);
            }
        }
    }
    match parse_decimal(s) {
        None => None,
        Some((neg, mag)) => {
            if neg {
                None
            } else if mag <= usize::MAX as u64 {
                Some(mag as usize)
            } else {
                None
            }
        },
    }
}

} // verus!
