//! Decimal notation for unsigned 32-bit numbers, as slots are written on the
//! wire.

use vstd::prelude::*;
use vstd::string::*;

verus! {

/// `c` is one of the ten ASCII digits.
pub open spec fn is_digit(c: char) -> bool {
    '0' <= c <= '9'
}

/// The value of an ASCII digit.
pub open spec fn digit_value(c: char) -> nat {
    (c as u32 - 48) as nat
}

/// The ASCII digit that stands for `d`, for `d` below ten.
pub open spec fn digit_char(d: nat) -> char {
    (d + 48) as u8 as char
}

/// Every character of `s` is an ASCII digit.
pub open spec fn all_digits(s: Seq<char>) -> bool {
    forall|i: int| 0 <= i < s.len() ==> is_digit(#[trigger] s[i])
}

/// The number that a string of digits denotes, most significant digit first.
pub open spec fn decimal_value(s: Seq<char>) -> nat
    decreases s.len(),
{
    if s.len() == 0 {
        0
    } else {
        decimal_value(s.drop_last()) * 10 + digit_value(s.last())
    }
}

/// The shortest string of digits that denotes `n`.
pub open spec fn decimal_digits(n: nat) -> Seq<char>
    decreases n,
{
    if n < 10 {
        seq![digit_char(n)]
    } else {
        decimal_digits(n / 10).push(digit_char(n % 10))
    }
}

/// The number that `s` denotes as an unsigned 32-bit decimal: an optional
/// `+`, then at least one digit, with a value that fits. Leading zeros are
/// accepted; anything else is not a number.
pub open spec fn parse_u32(s: Seq<char>) -> Option<u32> {
    if s.len() > 0 && s[0] == '+' {
        parse_digits(s.drop_first())
    } else {
        parse_digits(s)
    }
}

/// The number that a non-empty string of digits denotes, where it fits in 32
/// bits.
pub open spec fn parse_digits(digits: Seq<char>) -> Option<u32> {
    if digits.len() > 0 && all_digits(digits) && decimal_value(digits) <= u32::MAX {
        Some(decimal_value(digits) as u32)
    } else {
        None
    }
}

/// The digits of a number are digits, at least one, and denote the number.
pub proof fn lemma_decimal_digits(n: nat)
    ensures
        decimal_digits(n).len() > 0,
        all_digits(decimal_digits(n)),
        decimal_value(decimal_digits(n)) == n,
    decreases n,
{
    let digits = decimal_digits(n);
    if n < 10 {
        assert(decimal_value(digits.drop_last()) == 0);
    } else {
        lemma_decimal_digits(n / 10);
        let front = decimal_digits(n / 10);
        assert(digits.drop_last() =~= front);
        assert forall|i: int| 0 <= i < digits.len() implies is_digit(#[trigger] digits[i]) by {}
    }
}

/// A number is read back from its digits.
pub proof fn lemma_parse_of_digits(n: u32)
    ensures
        parse_u32(decimal_digits(n as nat)) == Some(n),
{
    lemma_decimal_digits(n as nat);
}

/// A string of digits denotes at least what any of its prefixes denotes.
proof fn lemma_prefix_value(s: Seq<char>, k: int)
    requires
        0 <= k <= s.len(),
        all_digits(s),
    ensures
        decimal_value(s.subrange(0, k)) <= decimal_value(s),
    decreases s.len() - k,
{
    if k == s.len() {
        assert(s.subrange(0, k) =~= s);
    } else {
        lemma_prefix_value(s.drop_last(), k);
        assert(s.drop_last().subrange(0, k) =~= s.subrange(0, k));
    }
}

/// Reads an unsigned 32-bit decimal number.
pub fn parse_decimal(s: &str) -> (number: Option<u32>)
    ensures
        number == parse_u32(s@),
{
    broadcast use vstd::utf8::is_ascii_chars_nat_bound;

    if !s.is_ascii() {
        proof {
            let i = choose|i: int| 0 <= i < s@.len() && !('\0' <= #[trigger] s@[i] <= '\u{7f}');
            if s@[0] == '+' {
                assert(s@.drop_first()[i - 1] == s@[i]);
            }
        }
        return None;
    }
    let n = s.unicode_len();
    if n == 0 {
        return None;
    }
    let start: usize = if s.get_ascii(0) == 43u8 {
        1
    } else {
        0
    };
    if start == n {
        return None;
    }
    let ghost digits = s@.subrange(start as int, n as int);
    assert(digits == if s@[0] == '+' {
        s@.drop_first()
    } else {
        s@
    });
    let mut value: u64 = 0;
    let mut i: usize = start;
    while i < n
        invariant
            start <= i <= n,
            n == s@.len(),
            s.is_ascii(),
            digits == s@.subrange(start as int, n as int),
            parse_u32(s@) == parse_digits(digits),
            all_digits(digits.subrange(0, i - start)),
            value == decimal_value(digits.subrange(0, i - start)),
            value <= u32::MAX,
        decreases n - i,
    {
        let b = s.get_ascii(i);
        let ghost next = digits.subrange(0, i - start + 1);
        assert(next.drop_last() == digits.subrange(0, i - start));
        if b < 48 || b > 57 {
            assert(!is_digit(digits[i - start]));
            return None;
        }
        value = value * 10 + (b - 48) as u64;
        if value > 0xffff_ffff {
            proof {
                if all_digits(digits) {
                    lemma_prefix_value(digits, i - start + 1);
                }
            }
            return None;
        }
        assert forall|j: int| 0 <= j < next.len() implies is_digit(#[trigger] next[j]) by {}
        i += 1;
    }
    assert(digits.subrange(0, n - start) == digits);
    Some(value as u32)
}

/// The text of one decimal digit.
fn digit_text(d: u32) -> (text: &'static str)
    requires
        d < 10,
    ensures
        text@ == seq![digit_char(d as nat)],
{
    proof {
        reveal_strlit("0");
        reveal_strlit("1");
        reveal_strlit("2");
        reveal_strlit("3");
        reveal_strlit("4");
        reveal_strlit("5");
        reveal_strlit("6");
        reveal_strlit("7");
        reveal_strlit("8");
        reveal_strlit("9");
    }
    match d {
        0 => "0",
        1 => "1",
        2 => "2",
        3 => "3",
        4 => "4",
        5 => "5",
        6 => "6",
        7 => "7",
        8 => "8",
        _ => "9",
    }
}

/// Appends the decimal notation of `n` to `out`.
pub fn push_decimal(n: u32, out: &mut String)
    ensures
        final(out)@ == old(out)@ + decimal_digits(n as nat),
    decreases n,
{
    if n >= 10 {
        push_decimal(n / 10, out);
    }
    out.append(digit_text(n % 10));
}

} // verus!
