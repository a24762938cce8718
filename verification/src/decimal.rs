//! Decimal numbers in text.

use vstd::prelude::*;

use crate::text::chars_of;

verus! {

/// Whether `c` is one of the digits `0` to `9`.
pub open spec fn is_digit(c: char) -> bool {
    '0' <= c <= '9'
}

/// What the digit `c` stands for.
pub open spec fn digit_value(c: char) -> nat {
    (c as int - '0' as int) as nat
}

/// Whether `s` is a number without a sign: digits only, and at least one.
pub open spec fn is_numeral(s: Seq<char>) -> bool {
    s.len() > 0 && forall|i: int| 0 <= i < s.len() ==> is_digit(#[trigger] s[i])
}

/// What the digits of `s` stand for.
pub open spec fn numeral_value(s: Seq<char>) -> nat
    decreases s.len(),
{
    if s.len() == 0 {
        0
    } else {
        numeral_value(s.drop_last()) * 10 + digit_value(s.last())
    }
}

/// The digits of a number with an optional `+` in front.
pub open spec fn unsigned_digits(s: Seq<char>) -> Seq<char> {
    if s.len() > 0 && s[0] == '+' {
        s.skip(1)
    } else {
        s
    }
}

/// The `u64` that `s` reads as: digits, behind at most one `+`, of a value in
/// range.
pub open spec fn u64_in(s: Seq<char>) -> Option<u64> {
    let digits = unsigned_digits(s);
    if is_numeral(digits) && numeral_value(digits) <= u64::MAX {
        Some(numeral_value(digits) as u64)
    } else {
        None
    }
}

/// The `i32` that `s` reads as: digits, behind at most one `+` or `-`, of a
/// value in range.
pub open spec fn i32_in(s: Seq<char>) -> Option<i32> {
    if s.len() > 0 && s[0] == '-' {
        let digits = s.skip(1);
        if is_numeral(digits) && -numeral_value(digits) >= i32::MIN {
            Some((-numeral_value(digits)) as i32)
        } else {
            None
        }
    } else {
        let digits = unsigned_digits(s);
        if is_numeral(digits) && numeral_value(digits) <= i32::MAX {
            Some(numeral_value(digits) as i32)
        } else {
            None
        }
    }
}

/// Digits behind a numeral never make it smaller.
proof fn lemma_value_grows(s: Seq<char>, n: int)
    requires
        0 <= n <= s.len(),
    ensures
        numeral_value(s.take(n)) <= numeral_value(s),
    decreases s.len() - n,
{
    if n < s.len() {
        lemma_value_grows(s, n + 1);
        assert(s.take(n + 1).drop_last() =~= s.take(n));
    } else {
        assert(s.take(n) =~= s);
    }
}

/// The value of the digits of `chars` from `from` on, unless there are none,
/// something else is among them, or the value is out of range.
fn read_digits(chars: &Vec<char>, from: usize) -> (value: Option<u64>)
    requires
        from <= chars.len(),
    ensures
        ({
            let digits = chars@.skip(from as int);
            value == if is_numeral(digits) && numeral_value(digits) <= u64::MAX {
                Some(numeral_value(digits) as u64)
            } else {
                None::<u64>
            }
        }),
{
    let ghost digits = chars@.skip(from as int);
    let n: usize = chars.len();
    if from == n {
        return None;
    }
    let mut value: u64 = 0;
    let mut i: usize = from;
    while i < n
        invariant
            from <= i <= n,
            n == chars.len(),
            digits == chars@.skip(from as int),
            forall|k: int| 0 <= k < i - from ==> is_digit(#[trigger] digits[k]),
            value == numeral_value(digits.take(i - from)),
        decreases n - i,
    {
        let c = chars[i];
        let ghost k = i - from;
        assert(digits[k] == c);
        assert(digits.take(k + 1).drop_last() =~= digits.take(k));
        proof {
            lemma_value_grows(digits, k + 1);
        }
        if !('0' <= c && c <= '9') {
            return None;
        }
        let digit: u64 = (c as u32 - '0' as u32) as u64;
        let tens = match value.checked_mul(10) {
            Some(t) => t,
            None => {
                return None;
            },
        };
        value = match tens.checked_add(digit) {
            Some(v) => v,
            None => {
                return None;
            },
        };
        i += 1;
    }
    assert(digits.take(n - from) =~= digits);
    Some(value)
}

/// Reads `s` as a `u64`.
pub fn parse_u64(s: &str) -> (value: Option<u64>)
    ensures
        value == u64_in(s@),
{
    let chars = chars_of(s);
    if chars.len() > 0 && chars[0] == '+' {
        read_digits(&chars, 1)
    } else {
        assert(s@.skip(0) =~= s@);
        read_digits(&chars, 0)
    }
}

/// Reads `s` as an `i32`.
pub fn parse_i32(s: &str) -> (value: Option<i32>)
    ensures
        value == i32_in(s@),
{
    let chars = chars_of(s);
    if chars.len() > 0 && chars[0] == '-' {
        match read_digits(&chars, 1) {
            Some(v) if v <= 0x8000_0000 => Some((-(v as i64)) as i32),
            _ => None,
        }
    } else {
        let from: usize = if chars.len() > 0 && chars[0] == '+' {
            1
        } else {
            0
        };
        assert(s@.skip(0) =~= s@);
        match read_digits(&chars, from) {
            Some(v) if v <= 0x7fff_ffff => Some(v as i32),
            _ => None,
        }
    }
}

/// The digit that stands for `d`.
pub open spec fn digit(d: nat) -> char {
    ('0' as int + d) as char
}

/// `n` in decimal, without leading zeros.
pub open spec fn numeral(n: nat) -> Seq<char>
    decreases n,
{
    if n < 10 {
        seq![digit(n)]
    } else {
        numeral(n / 10).push(digit(n % 10))
    }
}

/// The text of one digit.
fn digit_text(d: u32) -> (out: &'static str)
    requires
        d < 10,
    ensures
        out@ == seq![digit(d as nat)],
{
    proof {
        reveal_strlit("0");
        reveal_strlit("1");
        reveal_strlit("2");
        reveal_strlit("3");
        reveal_strlit("4");
        reveal_strlit("5");
        reveal_strlit("6");
        reveal_strlit("7");
        reveal_strlit("8");
        reveal_strlit("9");
    }
    if d == 0 {
        "0"
    } else if d == 1 {
        "1"
    } else if d == 2 {
        "2"
    } else if d == 3 {
        "3"
    } else if d == 4 {
        "4"
    } else if d == 5 {
        "5"
    } else if d == 6 {
        "6"
    } else if d == 7 {
        "7"
    } else if d == 8 {
        "8"
    } else {
        "9"
    }
}

/// Writes `n` in decimal.
pub fn decimal(n: u32) -> (out: String)
    ensures
        out@ == numeral(n as nat),
    decreases n,
{
    if n < 10 {
        digit_text(n).to_owned()
    } else {
        let mut out = decimal(n / 10);
        let ghost head = out@;
        out.append(digit_text(n % 10));
        assert(head + seq![digit((n % 10) as nat)] =~= head.push(digit((n % 10) as nat)));
        out
    }
}

/// Reading a number in decimal gives the number back.
pub proof fn law_decimal_reads_back(n: nat)
    ensures
        is_numeral(numeral(n)),
        numeral_value(numeral(n)) == n,
    decreases n,
{
    assert(digit_value(digit(n % 10)) == n % 10 && is_digit(digit(n % 10)));
    if n < 10 {
        reveal_with_fuel(numeral_value, 2);
        assert(seq![digit(n)].drop_last() =~= seq![]);
    } else {
        law_decimal_reads_back(n / 10);
        assert(numeral(n).drop_last() =~= numeral(n / 10));
    }
}

/// A numeral has no leading zero, but for zero itself.
pub proof fn law_a_numeral_has_no_leading_zero(n: nat)
    ensures
        numeral(n).len() > 0,
        n >= 10 ==> numeral(n).len() > 1,
        n > 0 ==> numeral(n)[0] != '0',
    decreases n,
{
    if n >= 10 {
        law_a_numeral_has_no_leading_zero(n / 10);
        assert(numeral(n)[0] == numeral(n / 10)[0]);
    }
}

/// Every `u64` is read back from its numeral, with or without a `+`; a greater number
/// is refused.
pub proof fn law_every_u64_is_read(n: nat)
    ensures
        u64_in(numeral(n)) == u64_in(seq!['+'] + numeral(n)),
        match u64_in(numeral(n)) {
            Some(v) => v == n,
            None => n > u64::MAX,
        },
{
    law_decimal_reads_back(n);
    assert(is_digit(numeral(n)[0]));
    assert((seq!['+'] + numeral(n)).skip(1) =~= numeral(n));
}

/// A number is read digit by digit: each digit behind it makes it ten times as much
/// and adds itself. Once a text is no number in range it stays none, whatever follows;
/// and one without a digit is none.
pub proof fn law_numbers_are_read_digit_by_digit(s: Seq<char>, c: char)
    ensures
        u64_in(seq![]) is None,
        u64_in(seq!['+']) is None,
        u64_in(seq!['+', c]) == u64_in(seq![c]),
        match u64_in(seq![c]) {
            Some(v) => '0' <= c <= '9' && v == c as int - '0' as int,
            None => !('0' <= c <= '9'),
        },
        s.len() > 0 && s != seq!['+'] ==> match (u64_in(s), u64_in(s.push(c))) {
            (Some(v), Some(w)) => '0' <= c <= '9' && w == v * 10 + (c as int - '0' as int),
            (Some(v), None) => !('0' <= c <= '9') || v * 10 + (c as int - '0' as int) > u64::MAX,
            (None, after) => after is None,
        },
{
    reveal_with_fuel(numeral_value, 2);
    let one = seq![c];
    let signed = seq!['+', c];
    assert(one.drop_last() =~= seq![]);
    assert(signed.skip(1) =~= one);
    assert(seq!['+'].skip(1) =~= seq![]);
    assert('0' <= c <= '9' ==> is_numeral(one)) by {
        if '0' <= c <= '9' {
            assert forall|i: int| 0 <= i < one.len() implies is_digit(#[trigger] one[i]) by {}
        }
    }
    assert(is_numeral(one) ==> is_digit(one[0]));
    if s.len() > 0 && s != seq!['+'] {
        let t = s.push(c);
        let digits = unsigned_digits(s);
        let more = unsigned_digits(t);
        assert(t[0] == s[0]);
        assert(more =~= digits.push(c));
        assert(digits.len() > 0) by {
            if s[0] == '+' && s.len() == 1 {
                assert(s =~= seq!['+']);
            }
        }
        assert(more.drop_last() =~= digits);
        if is_numeral(more) {
            assert forall|i: int| 0 <= i < digits.len() implies is_digit(#[trigger] digits[i]) by {
                assert(more[i] == digits[i]);
            }
            assert(is_digit(more[digits.len() as int]));
        }
        if is_numeral(digits) && is_digit(c) {
            assert forall|i: int| 0 <= i < more.len() implies is_digit(#[trigger] more[i]) by {
                if i < digits.len() {
                    assert(is_digit(digits[i]));
                }
            }
        }
    }
}

/// An `i32` is read as the `u64` of the same text, if it is in range; behind a `-`, as
/// the opposite of a number without a sign.
pub proof fn law_an_i32_is_read_as_a_number_with_a_sign(s: Seq<char>)
    ensures
        s.len() == 0 || s[0] != '-' ==> match i32_in(s) {
            Some(v) => v >= 0 && u64_in(s) == Some(v as u64),
            None => match u64_in(s) {
                Some(v) => v > i32::MAX,
                None => true,
            },
        },
        s.len() == 0 || s[0] != '+' ==> match i32_in(seq!['-'] + s) {
            Some(v) => v <= 0 && u64_in(s) == Some((-v) as u64),
            None => match u64_in(s) {
                Some(v) => -v < i32::MIN,
                None => true,
            },
        },
        s.len() > 0 && s[0] == '+' ==> i32_in(seq!['-'] + s) is None,
{
    let negative = seq!['-'] + s;
    assert(negative[0] == '-');
    assert(negative.skip(1) =~= s);
    if s.len() > 0 && s[0] == '+' {
        assert(!is_digit(s[0]));
    }
    if s.len() > 0 && s[0] == '-' {
        assert(!is_digit(s[0]));
    }
}

} // verus!
