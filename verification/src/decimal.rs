//! Decimal text for the numeric fields of a location: how a number is
//! written, which texts are read as a number, and that reading undoes writing.

use vstd::prelude::*;

verus! {

/// `String::push`: appends one character to the end of the string.
pub assume_specification[ String::push ](s: &mut String, c: char)
    ensures
        final(s)@ == old(s)@.push(c),
;

/// Whether `c` is one of `0` to `9`.
pub open spec fn is_digit(c: char) -> bool {
    48 <= c as int <= 57
}

/// The number that the digit `c` stands for; zero for any other character.
pub open spec fn digit_value(c: char) -> nat {
    if is_digit(c) {
        (c as int - 48) as nat
    } else {
        0
    }
}

/// The character for the digit `d`.
pub open spec fn digit_char(d: nat) -> char
    recommends
        d < 10,
{
    (48 + d) as char
}

/// Whether `s` holds digits only.
pub open spec fn all_digits(s: Seq<char>) -> bool {
    forall|i: int| 0 <= i < s.len() ==> is_digit(#[trigger] s[i])
}

/// The number that a run of digits stands for, most significant digit first.
pub open spec fn digits_value(s: Seq<char>) -> nat
    decreases s.len(),
{
    if s.len() == 0 {
        0
    } else {
        digits_value(s.drop_last()) * 10 + digit_value(s.last())
    }
}

/// How `n` is written: its decimal digits, without sign or leading zeros.
pub open spec fn decimal(n: nat) -> Seq<char>
    decreases n,
{
    if n < 10 {
        seq![digit_char(n)]
    } else {
        decimal(n / 10).push(digit_char(n % 10))
    }
}

/// How a signed number is written: a minus sign before the digits of a
/// negative one, no sign otherwise.
pub open spec fn signed_decimal(n: int) -> Seq<char> {
    if n < 0 {
        seq!['-'] + decimal((-n) as nat)
    } else {
        decimal(n as nat)
    }
}

/// Whether `s` starts with the character `c`.
pub open spec fn starts_with(s: Seq<char>, c: char) -> bool {
    s.len() > 0 && s[0] == c
}

/// The number that the text `s` is read as where no sign but `+` is allowed:
/// an optional `+`, then at least one digit and nothing else, the value no
/// larger than a `u64`.
pub open spec fn read_u64(s: Seq<char>) -> Option<u64> {
    let digits = if starts_with(s, '+') {
        s.skip(1)
    } else {
        s
    };
    if digits.len() > 0 && all_digits(digits) && digits_value(digits) <= u64::MAX {
        Some(digits_value(digits) as u64)
    } else {
        None
    }
}

/// The number that the text `s` is read as where a sign is allowed: an
/// optional `+` or `-`, then at least one digit and nothing else, the value
/// within an `i32`.
pub open spec fn read_i32(s: Seq<char>) -> Option<i32> {
    let negative = starts_with(s, '-');
    let digits = if negative || starts_with(s, '+') {
        s.skip(1)
    } else {
        s
    };
    let value = if negative {
        -(digits_value(digits) as int)
    } else {
        digits_value(digits) as int
    };
    if digits.len() > 0 && all_digits(digits) && i32::MIN <= value <= i32::MAX {
        Some(value as i32)
    } else {
        None
    }
}

/// The digits of a number are digits, at least one of them, and stand for
/// that number.
pub proof fn lemma_decimal_value(n: nat)
    ensures
        decimal(n).len() > 0,
        all_digits(decimal(n)),
        digits_value(decimal(n)) == n,
    decreases n,
{
    if n < 10 {
        assert(decimal(n).drop_last() =~= Seq::<char>::empty());
        assert(digits_value(decimal(n).drop_last()) == 0);
    } else {
        lemma_decimal_value(n / 10);
        assert(decimal(n).drop_last() =~= decimal(n / 10));
    }
}

/// A run of characters stands for at least as much as any of its prefixes.
pub proof fn lemma_value_grows(s: Seq<char>, i: int)
    requires
        0 <= i <= s.len(),
    ensures
        digits_value(s.take(i)) <= digits_value(s),
    decreases s.len() - i,
{
    if i == s.len() {
        assert(s.take(i) =~= s);
    } else {
        lemma_value_grows(s.drop_last(), i);
        assert(s.drop_last().take(i) =~= s.take(i));
    }
}

/// Reading what was written gives the number back, for every `u64`.
pub proof fn lemma_read_u64_decimal(n: u64)
    ensures
        read_u64(decimal(n as nat)) == Some(n),
{
    lemma_decimal_value(n as nat);
}

/// Reading what was written gives the number back, for every `i32`.
pub proof fn lemma_read_i32_decimal(n: i32)
    ensures
        read_i32(signed_decimal(n as int)) == Some(n),
{
    if n < 0 {
        let digits = decimal((-n) as nat);
        lemma_decimal_value((-n) as nat);
        assert(signed_decimal(n as int).skip(1) =~= digits);
    } else {
        lemma_decimal_value(n as nat);
    }
}

/// Appends the decimal digits of `n` to `out`.
pub fn push_decimal(out: &mut String, n: u64)
    ensures
        final(out)@ == old(out)@ + decimal(n as nat),
    decreases n,
{
    if n >= 10 {
        push_decimal(out, n / 10);
    }
    let d: u8 = (n % 10) as u8;
    let c: char = (48u8 + d) as char;
    out.push(c);
    assert(out@ =~= old(out)@ + decimal(n as nat));
}

/// Appends `n` to `out` as it is written, with a minus sign if negative.
pub fn push_signed(out: &mut String, n: i32)
    ensures
        final(out)@ == old(out)@ + signed_decimal(n as int),
{
    if n < 0 {
        out.push('-');
        let m: u64 = (-(n as i64)) as u64;
        push_decimal(out, m);
        assert(out@ =~= old(out)@ + signed_decimal(n as int));
    } else {
        push_decimal(out, n as u64);
    }
}

/// The number that `c` stands for, if it is a digit.
pub fn digit_of(c: char) -> (r: Option<u64>)
    ensures
        r is Some <==> is_digit(c),
        r is Some ==> r.unwrap() == digit_value(c),
{
    match c {
        '0' => Some(0),
        '1' => Some(1),
        '2' => Some(2),
        '3' => Some(3),
        '4' => Some(4),
        '5' => Some(5),
        '6' => Some(6),
        '7' => Some(7),
        '8' => Some(8),
        '9' => Some(9),
        _ => None,
    }
}

/// Reads the digits of `s` from `start` on as a number no larger than
/// `limit`. `None` where there is no digit, something that is no digit, or
/// more than `limit`.
fn read_digits(s: &Vec<char>, start: usize, limit: u64) -> (r: Option<u64>)
    requires
        start <= s.len(),
        9 <= limit,
    ensures
        r is Some <==> s@.skip(start as int).len() > 0 && all_digits(s@.skip(start as int))
            && digits_value(s@.skip(start as int)) <= limit,
        r is Some ==> r.unwrap() == digits_value(s@.skip(start as int)),
{
    let ghost digits = s@.skip(start as int);
    if start == s.len() {
        return None;
    }
    let mut acc: u64 = 0;
    let mut i: usize = start;
    while i < s.len()
        invariant
            start <= i <= s.len(),
            digits == s@.skip(start as int),
            9 <= limit,
            all_digits(digits.take(i - start)),
            acc == digits_value(digits.take(i - start)),
            acc <= limit,
        decreases s.len() - i,
    {
        let c = s[i];
        proof {
            assert(digits[i - start] == c);
            assert(digits.take(i - start + 1).drop_last() =~= digits.take(i - start));
            assert(digits.take(i - start + 1).last() == c);
        }
        let d: u64 = match digit_of(c) {
            Some(d) => d,
            None => {
                assert(!is_digit(digits[i - start]));
                return None;
            },
        };
        if acc > (limit - d) / 10 {
            proof {
                lemma_value_grows(digits, i - start + 1);
            }
            return None;
        }
        acc = acc * 10 + d;
        i = i + 1;
        proof {
            let before = digits.take(i - 1 - start);
            let now = digits.take(i - start);
            assert(now.drop_last() =~= before);
            assert(now.last() == c);
            assert(is_digit(c));
            assert forall|j: int| 0 <= j < now.len() implies is_digit(#[trigger] now[j]) by {
                if j < before.len() {
                    assert(before[j] == now[j]);
                }
            }
        }
    }
    assert(digits.take(i - start) =~= digits);
    Some(acc)
}

/// Reads the text of `s` from `start` on as a `u64`.
pub fn parse_u64(s: &Vec<char>, start: usize) -> (r: Option<u64>)
    requires
        start <= s.len(),
    ensures
        r == read_u64(s@.skip(start as int)),
{
    let ghost text = s@.skip(start as int);
    let mut from = start;
    if start < s.len() && s[start] == '+' {
        from = start + 1;
    }
    proof {
        assert(text.len() > 0 ==> text[0] == s@[start as int]);
        if starts_with(text, '+') {
            assert(text.skip(1) =~= s@.skip(from as int));
        }
    }
    read_digits(s, from, u64::MAX)
}

/// Reads the text of `s` from `start` on as an `i32`.
pub fn parse_i32(s: &Vec<char>, start: usize) -> (r: Option<i32>)
    requires
        start <= s.len(),
    ensures
        r == read_i32(s@.skip(start as int)),
{
    let ghost text = s@.skip(start as int);
    let mut from = start;
    let mut negative = false;
    if start < s.len() {
        let c = s[start];
        if c == '-' {
            negative = true;
            from = start + 1;
        } else if c == '+' {
            from = start + 1;
        }
    }
    proof {
        assert(text.len() > 0 ==> text[0] == s@[start as int]);
        if from > start {
            assert(text.skip(1) =~= s@.skip(from as int));
        }
    }
    match read_digits(s, from, 2147483648) {
        Some(n) => {
            if negative {
                let v: i64 = -(n as i64);
                Some(v as i32)
            } else if n <= 2147483647 {
                Some(n as i32)
            } else {
                None
            }
        },
        None => None,
    }
}

} // verus!
