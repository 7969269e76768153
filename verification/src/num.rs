//! Verified decimal rendering and parsing for the integer values that
//! appear in generated SQL (parameter ordinals, OFFSET/FETCH counts)
//! and in query parameters (limit, offset, ranges).

use vstd::prelude::*;

verus! {

pub open spec fn digit_char(d: int) -> char {
    if d == 0 {
        '0'
    } else if d == 1 {
        '1'
    } else if d == 2 {
        '2'
    } else if d == 3 {
        '3'
    } else if d == 4 {
        '4'
    } else if d == 5 {
        '5'
    } else if d == 6 {
        '6'
    } else if d == 7 {
        '7'
    } else if d == 8 {
        '8'
    } else {
        '9'
    }
}

/// Decimal representation of a non-negative integer, most significant
/// digit first, no leading zeros (except for zero itself).
pub open spec fn dec_rep(n: int) -> Seq<char>
    decreases n,
{
    if n < 10 {
        seq![digit_char(n)]
    } else {
        dec_rep(n / 10).push(digit_char(n % 10))
    }
}

/// Decimal representation of an integer, with a sign for negatives.
pub open spec fn int_rep(i: int) -> Seq<char> {
    if i >= 0 {
        dec_rep(i)
    } else {
        seq!['-'] + dec_rep(-i)
    }
}

fn digit_str(d: u64) -> (r: &'static str)
    requires
        d < 10,
    ensures
        r@ == seq![digit_char(d as int)],
{
    proof {
        reveal_strlit("0");
        reveal_strlit("1");
        reveal_strlit("2");
        reveal_strlit("3");
        reveal_strlit("4");
        reveal_strlit("5");
        reveal_strlit("6");
        reveal_strlit("7");
        reveal_strlit("8");
        reveal_strlit("9");
    }
    let r = if d == 0 {
        "0"
    } else if d == 1 {
        "1"
    } else if d == 2 {
        "2"
    } else if d == 3 {
        "3"
    } else if d == 4 {
        "4"
    } else if d == 5 {
        "5"
    } else if d == 6 {
        "6"
    } else if d == 7 {
        "7"
    } else if d == 8 {
        "8"
    } else {
        "9"
    };
    proof {
        assert(r@ =~= seq![digit_char(d as int)]);
    }
    r
}

pub fn u64_to_string(n: u64) -> (r: String)
    ensures
        r@ == dec_rep(n as int),
    decreases n,
{
    if n < 10 {
        digit_str(n).to_owned()
    } else {
        let mut s = u64_to_string(n / 10);
        s.append(digit_str(n % 10));
        proof {
            assert(s@ =~= dec_rep((n / 10) as int).push(digit_char((n % 10) as int)));
        }
        s
    }
}

pub fn usize_to_string(n: usize) -> (r: String)
    ensures
        r@ == dec_rep(n as int),
{
    u64_to_string(n as u64)
}

pub fn i64_to_string(n: i64) -> (r: String)
    ensures
        r@ == int_rep(n as int),
{
    if n >= 0 {
        u64_to_string(n as u64)
    } else {
        // magnitude computed without overflowing i64::MIN
        let mag: u64 = ((-(n + 1)) as u64) + 1;
        let mut s = String::new();
        s.append("-");
        let digits = u64_to_string(mag);
        s.append(digits.as_str());
        proof {
            reveal_strlit("-");
            assert(s@ =~= seq!['-'] + dec_rep(mag as int));
        }
        s
    }
}

fn digit_str_128(d: u128) -> (r: &'static str)
    requires
        d < 10,
    ensures
        r@ == seq![digit_char(d as int)],
{
    digit_str(d as u64)
}

pub fn u128_to_string(n: u128) -> (r: String)
    ensures
        r@ == dec_rep(n as int),
    decreases n,
{
    if n < 10 {
        digit_str_128(n).to_owned()
    } else {
        let mut s = u128_to_string(n / 10);
        s.append(digit_str_128(n % 10));
        proof {
            assert(s@ =~= dec_rep((n / 10) as int).push(digit_char((n % 10) as int)));
        }
        s
    }
}

pub fn i128_to_string(n: i128) -> (r: String)
    ensures
        r@ == int_rep(n as int),
{
    if n >= 0 {
        u128_to_string(n as u128)
    } else {
        let mag: u128 = ((-(n + 1)) as u128) + 1;
        let mut s = String::new();
        s.append("-");
        let digits = u128_to_string(mag);
        s.append(digits.as_str());
        proof {
            reveal_strlit("-");
            assert(s@ =~= seq!['-'] + dec_rep(mag as int));
        }
        s
    }
}

pub open spec fn is_digit(c: char) -> bool {
    48 <= c as u32 && c as u32 <= 57
}

pub open spec fn digit_val(c: char) -> int {
    c as u32 - 48
}

/// Value of a sequence of decimal digits, most significant first.
pub open spec fn digits_val(s: Seq<char>) -> int
    decreases s.len(),
{
    if s.len() == 0 {
        0
    } else {
        digits_val(s.drop_last()) * 10 + digit_val(s.last())
    }
}

/// A decimal integer literal: an optional sign, then one or more digits.
pub open spec fn is_int_literal(s: Seq<char>) -> bool {
    if s.len() > 0 && s[0] == '-' {
        s.len() >= 2 && forall|i: int| 1 <= i < s.len() ==> is_digit(s[i])
    } else {
        s.len() >= 1 && forall|i: int| 0 <= i < s.len() ==> is_digit(s[i])
    }
}

/// The integer a decimal literal denotes.
pub open spec fn int_literal_val(s: Seq<char>) -> int {
    if s.len() > 0 && s[0] == '-' {
        -digits_val(s.subrange(1, s.len() as int))
    } else {
        digits_val(s)
    }
}

proof fn lemma_digits_val_nonneg(s: Seq<char>)
    requires
        forall|i: int| 0 <= i < s.len() ==> is_digit(s[i]),
    ensures
        digits_val(s) >= 0,
    decreases s.len(),
{
    if s.len() > 0 {
        lemma_digits_val_nonneg(s.drop_last());
    }
}

proof fn lemma_digits_val_mono(s: Seq<char>, i: int)
    requires
        0 <= i <= s.len(),
        forall|k: int| 0 <= k < s.len() ==> is_digit(s[k]),
    ensures
        digits_val(s) >= digits_val(s.subrange(0, i)),
    decreases s.len() - i,
{
    if i == s.len() {
        assert(s.subrange(0, i) =~= s);
    } else {
        lemma_digits_val_mono(s, i + 1);
        let p1 = s.subrange(0, i + 1);
        let p0 = s.subrange(0, i);
        assert(p1.drop_last() =~= p0);
        lemma_digits_val_nonneg(p0);
    }
}

/// Parses a decimal integer literal; yields `None` exactly when the
/// string is not a literal or its value does not fit in `i64`.
pub fn parse_i64(s: &str) -> (r: Option<i64>)
    ensures
        match r {
            Some(v) => is_int_literal(s@) && v as int == int_literal_val(s@),
            None => !is_int_literal(s@) || int_literal_val(s@) > i64::MAX as int
                || int_literal_val(s@) < i64::MIN as int,
        },
{
    let sl = s.unicode_len();
    if sl == 0 {
        return None;
    }
    let neg = s.get_char(0) == '-';
    let start: usize = if neg {
        1
    } else {
        0
    };
    if start >= sl {
        return None;
    }
    let ghost digits = s@.subrange(start as int, sl as int);
    let mut acc: u128 = 0;
    let mut i: usize = start;
    while i < sl
        invariant
            sl == s@.len(),
            start <= i <= sl,
            start < sl,
            digits == s@.subrange(start as int, sl as int),
            neg == (s@[0] == '-'),
            neg ==> start == 1,
            !neg ==> start == 0,
            acc as int == digits_val(s@.subrange(start as int, i as int)),
            acc < 0x7fffffffffffffffffffffff,
            forall|k: int| start <= k < i ==> is_digit(s@[k]),
        decreases sl - i,
    {
        let c = s.get_char(i);
        let code = c as u32;
        if code < 48 || code > 57 {
            proof {
                assert(digits[i - start] == s@[i as int]);
                assert(!is_int_literal(s@));
            }
            return None;
        }
        proof {
            let p1 = s@.subrange(start as int, i + 1);
            let p0 = s@.subrange(start as int, i as int);
            assert(p1.drop_last() =~= p0);
            assert(p1.last() == s@[i as int]);
        }
        acc = acc * 10 + ((code - 48) as u128);
        i += 1;
        if acc >= 0x10000000000000000 {
            proof {
                if is_int_literal(s@) {
                    assert forall|k: int| 0 <= k < digits.len() implies is_digit(
                        digits[k],
                    ) by {
                        assert(digits[k] == s@[start + k]);
                    }
                    let scanned = s@.subrange(start as int, i as int);
                    assert(digits.subrange(0, i - start) =~= scanned);
                    lemma_digits_val_mono(digits, i - start);
                    assert(digits_val(digits) >= acc as int);
                    if neg {
                        assert(int_literal_val(s@) == -digits_val(digits));
                        assert(int_literal_val(s@) < i64::MIN as int);
                    } else {
                        assert(s@.subrange(0, sl as int) =~= s@);
                        assert(int_literal_val(s@) == digits_val(digits));
                        assert(int_literal_val(s@) > i64::MAX as int);
                    }
                }
            }
            return None;
        }
    }
    proof {
        assert(s@.subrange(start as int, i as int) =~= digits);
        assert(digits_val(digits) == acc as int);
        assert(is_int_literal(s@));
        if neg {
            assert(int_literal_val(s@) == -(acc as int));
        } else {
            assert(s@.subrange(0, sl as int) =~= s@);
            assert(int_literal_val(s@) == acc as int);
        }
    }
    if neg {
        if acc > 0x8000000000000000 {
            return None;
        }
        if acc == 0x8000000000000000 {
            return Some(i64::MIN);
        }
        let v: i64 = -((acc as i64));
        Some(v)
    } else {
        if acc > 0x7fffffffffffffff {
            return None;
        }
        Some(acc as i64)
    }
}

} // verus!
