//! Whole numbers as text.
use crate::text::{chars_of, digit, is_digit};
use vstd::prelude::*;
use vstd::string::*;

verus! {

/// The character of a decimal digit.
pub open spec fn digit_char(d: int) -> char {
    ('0' as int + d) as char
}

/// The decimal digits of `n`, without leading zeros.
pub open spec fn decimal(n: nat) -> Seq<char>
    decreases n,
{
    if n < 10 {
        seq![digit_char(n as int)]
    } else {
        decimal(n / 10).push(digit_char((n % 10) as int))
    }
}

/// The decimal digits of `n`, with a `-` before those of a negative number.
pub open spec fn signed_decimal(n: int) -> Seq<char> {
    if n < 0 {
        seq!['-'] + decimal((-n) as nat)
    } else {
        decimal(n as nat)
    }
}

/// The decimal digits of `n`, at least two of them.
pub open spec fn two_digits(n: nat) -> Seq<char> {
    if n < 10 {
        seq!['0', digit_char(n as int)]
    } else {
        decimal(n)
    }
}

pub fn digit_of(d: u64) -> (c: char)
    requires
        d < 10,
    ensures
        c == digit_char(d as int),
{
    (48u8 + d as u8) as char
}

pub fn unsigned128(n: u128) -> (s: String)
    ensures
        s@ == decimal(n as nat),
    decreases n,
{
    if n < 10 {
        let mut s = String::new();
        s.push(digit_of(n as u64));
        assert(s@ =~= seq![digit_char(n as int)]);
        s
    } else {
        let mut s = unsigned128(n / 10);
        s.push(digit_of((n % 10) as u64));
        s
    }
}

pub fn unsigned(n: u64) -> (s: String)
    ensures
        s@ == decimal(n as nat),
{
    unsigned128(n as u128)
}

pub fn signed(n: i64) -> (s: String)
    ensures
        s@ == signed_decimal(n as int),
{
    if n >= 0 {
        unsigned(n as u64)
    } else {
        let mut s = String::new();
        s.push('-');
        let size: u64 = if n == i64::MIN {
            0x8000_0000_0000_0000
        } else {
            (-n) as u64
        };
        s.append(unsigned(size).as_str());
        s
    }
}

pub fn two(n: u64) -> (s: String)
    ensures
        s@ == two_digits(n as nat),
{
    if n < 10 {
        let mut s = String::new();
        s.push('0');
        s.push(digit_of(n));
        assert(s@ =~= seq!['0', digit_char(n as int)]);
        s
    } else {
        unsigned(n)
    }
}

/// Whether `s` is one or more decimal digits.
pub open spec fn all_digits(s: Seq<char>) -> bool {
    s.len() > 0 && forall|i: int| 0 <= i < s.len() ==> is_digit(#[trigger] s[i])
}

/// The number that decimal digits stand for.
pub open spec fn digits_value(s: Seq<char>) -> nat
    decreases s.len(),
{
    if s.len() == 0 {
        0
    } else {
        digits_value(s.drop_last()) * 10 + (s.last() as int - '0' as int) as nat
    }
}

/// What `s` reads as: decimal digits, after an optional `+`.
pub open spec fn whole(s: Seq<char>) -> Option<nat> {
    let digits = if s.len() > 0 && s[0] == '+' {
        s.skip(1)
    } else {
        s
    };
    if all_digits(digits) {
        Some(digits_value(digits))
    } else {
        None
    }
}

/// The number that `s` reads as, where `limit` can hold it.
pub fn parse_up_to(s: &str, limit: u64) -> (r: Option<u64>)
    ensures
        match whole(s@) {
            Some(n) => if n <= limit {
                r == Some(n as u64)
            } else {
                r is None
            },
            None => r is None,
        },
{
    let v = chars_of(s);
    let start: usize = if v.len() > 0 && v[0] == '+' {
        1
    } else {
        0
    };
    let ghost digits = s@.skip(start as int);
    assert(s@.skip(0) =~= s@);
    if v.len() == start {
        return None;
    }
    let mut i: usize = start;
    let mut n: u64 = 0;
    let mut over: bool = false;
    while i < v.len()
        invariant
            v@ == s@,
            start <= i <= s@.len(),
            start <= 1,
            digits == s@.skip(start as int),
            forall|j: int| 0 <= j < i - start ==> is_digit(#[trigger] digits[j]),
            over ==> digits_value(digits.take(i - start)) > limit,
            !over ==> n == digits_value(digits.take(i - start)) && n <= limit,
            whole(s@) == if all_digits(digits) {
                Some(digits_value(digits))
            } else {
                None::<nat>
            },
        decreases s@.len() - i,
    {
        let c = v[i];
        proof {
            assert(digits[i - start] == c);
            assert(digits.take(i + 1 - start).drop_last() =~= digits.take(i - start));
        }
        if !digit(c) {
            assert(!all_digits(digits));
            return None;
        }
        let d: u64 = c as u64 - 48;
        if !over {
            if d > limit || n > limit / 10 || n * 10 > limit - d {
                over = true;
            } else {
                n = n * 10 + d;
            }
        }
        i += 1;
    }
    assert(digits.take(i - start) =~= digits);
    if over {
        None
    } else {
        Some(n)
    }
}

pub fn parse_u64(s: &str) -> (r: Option<u64>)
    ensures
        match whole(s@) {
            Some(n) => if n <= u64::MAX {
                r == Some(n as u64)
            } else {
                r is None
            },
            None => r is None,
        },
{
    parse_up_to(s, u64::MAX)
}

pub fn parse_u32(s: &str) -> (r: Option<u32>)
    ensures
        match whole(s@) {
            Some(n) => if n <= u32::MAX {
                r == Some(n as u32)
            } else {
                r is None
            },
            None => r is None,
        },
{
    match parse_up_to(s, u32::MAX as u64) {
        Some(n) => Some(n as u32),
        None => None,
    }
}

/// What `s` reads as: decimal digits, after an optional `+` or `-`.
pub open spec fn integer(s: Seq<char>) -> Option<int> {
    if s.len() > 0 && s[0] == '-' {
        if all_digits(s.skip(1)) {
            Some(-digits_value(s.skip(1)))
        } else {
            None
        }
    } else {
        match whole(s) {
            Some(n) => Some(n as int),
            None => None,
        }
    }
}

/// The number that `s` reads as, where an `i64` can hold it.
pub open spec fn i64_of(s: Seq<char>) -> Option<i64> {
    match integer(s) {
        Some(n) => if i64::MIN <= n <= i64::MAX {
            Some(n as i64)
        } else {
            None
        },
        None => None,
    }
}

pub fn parse_i64(s: &str) -> (r: Option<i64>)
    ensures
        r == i64_of(s@),
{
    if s.unicode_len() > 0 && s.get_char(0) == '-' {
        let digits = s.substring_char(1, s.unicode_len());
        assert(digits@ == s@.skip(1));
        if digits.unicode_len() > 0 && digits.get_char(0) == '+' {
            assert(!is_digit(digits@[0]));
            return None;
        }
        match parse_up_to(digits, 0x8000_0000_0000_0000) {
            Some(n) => if n == 0x8000_0000_0000_0000 {
                Some(i64::MIN)
            } else {
                Some(-(n as i64))
            },
            None => None,
        }
    } else {
        match parse_up_to(s, i64::MAX as u64) {
            Some(n) => Some(n as i64),
            None => None,
        }
    }
}

proof fn lemma_decimal(n: nat)
    ensures
        all_digits(decimal(n)),
        digits_value(decimal(n)) == n,
    decreases n,
{
    let s = decimal(n);
    reveal_with_fuel(digits_value, 2);
    if n < 10 {
        assert(s.drop_last() =~= Seq::empty());
        assert(s.last() == digit_char(n as int));
    } else {
        lemma_decimal(n / 10);
        let front = decimal(n / 10);
        assert(s.drop_last() =~= front);
        assert(s.last() == digit_char((n % 10) as int));
        assert forall|i: int| 0 <= i < s.len() implies is_digit(#[trigger] s[i]) by {
            if i < front.len() {
                assert(s[i] == front[i]);
            }
        }
    }
}

/// What is printed of a number reads back as that number.
pub proof fn law_decimals_read_back(n: nat)
    ensures
        all_digits(decimal(n)),
        whole(decimal(n)) == Some(n),
{
    lemma_decimal(n);
    assert(is_digit(decimal(n)[0]));
}

/// What is printed of a number with a sign reads back as that number.
pub proof fn law_signed_decimals_read_back(n: int)
    ensures
        integer(signed_decimal(n)) == Some(n),
{
    let s = signed_decimal(n);
    if n < 0 {
        law_decimals_read_back((-n) as nat);
        assert(s.skip(1) =~= decimal((-n) as nat));
        lemma_decimal((-n) as nat);
    } else {
        law_decimals_read_back(n as nat);
        assert(is_digit(decimal(n as nat)[0]));
    }
}

} // verus!
