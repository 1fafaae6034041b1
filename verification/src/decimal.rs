//! Decimal text: what a run of digits denotes, and how a number is written.

use vstd::prelude::*;

verus! {

/// `c` is one of the ASCII digits `0` to `9`.
pub open spec fn is_digit(c: char) -> bool {
    '0' <= c && c <= '9'
}

/// The number that the digit `c` stands for.
pub open spec fn digit_value(c: char) -> nat
    recommends
        is_digit(c),
{
    (c as int - '0' as int) as nat
}

/// The digit that stands for `d`.
pub open spec fn digit_char(d: nat) -> char
    recommends
        d < 10,
{
    ('0' as int + d) as char
}

/// Every character of `s` is a digit.
pub open spec fn all_digits(s: Seq<char>) -> bool {
    forall|i: int| 0 <= i < s.len() ==> is_digit(#[trigger] s[i])
}

/// The number that a run of digits denotes, most significant digit first.
/// Leading zeros do not change it; the empty run denotes zero.
pub open spec fn decimal_value(s: Seq<char>) -> nat
    decreases s.len(),
{
    if s.len() == 0 {
        0
    } else {
        10 * decimal_value(s.drop_last()) + digit_value(s.last())
    }
}

/// How many digits the shortest decimal form of `n` has.
pub open spec fn digit_count(n: nat) -> nat
    decreases n,
{
    if n < 10 {
        1
    } else {
        1 + digit_count(n / 10)
    }
}

/// The shortest decimal form of `n`: no leading zeros, `"0"` for zero.
pub open spec fn decimal_text(n: nat) -> Seq<char>
    decreases n,
{
    if n < 10 {
        seq![digit_char(n)]
    } else {
        decimal_text(n / 10).push(digit_char(n % 10))
    }
}

/// `k` zeros.
pub open spec fn zeros(k: nat) -> Seq<char> {
    Seq::new(k, |i: int| '0')
}

/// `value` written with at least `width` characters, filled up with zeros
/// on the left. A value with more digits than `width` is written in full.
pub open spec fn padded_text(value: nat, width: nat) -> Seq<char> {
    let count = digit_count(value);
    let fill = if width > count { (width - count) as nat } else { 0 };
    zeros(fill) + decimal_text(value)
}

/// A signed number in decimal: a minus sign before the digits of a negative one.
pub open spec fn signed_text(n: int) -> Seq<char> {
    if n < 0 {
        seq!['-'] + decimal_text((-n) as nat)
    } else {
        decimal_text(n as nat)
    }
}

/// The digits of an unsigned number token: the token without one leading `+`.
pub open spec fn unsigned_digits(s: Seq<char>) -> Seq<char> {
    if s.len() > 0 && s[0] == '+' {
        s.skip(1)
    } else {
        s
    }
}

/// What a token denotes as an unsigned 32-bit number: an optional `+`, then
/// one or more digits whose value fits. Anything else denotes nothing.
pub open spec fn unsigned_value(s: Seq<char>) -> Option<u32> {
    let digits = unsigned_digits(s);
    if digits.len() > 0 && all_digits(digits) && decimal_value(digits) <= u32::MAX {
        Some(decimal_value(digits) as u32)
    } else {
        None
    }
}

/// What a token denotes as a signed 32-bit number: an optional `+` or `-`,
/// then one or more digits, the signed value within range.
pub open spec fn signed_value(s: Seq<char>) -> Option<i32> {
    let negative = s.len() > 0 && s[0] == '-';
    let digits = if s.len() > 0 && (s[0] == '+' || s[0] == '-') {
        s.skip(1)
    } else {
        s
    };
    let magnitude = decimal_value(digits);
    if digits.len() == 0 || !all_digits(digits) {
        None
    } else if negative {
        if magnitude <= 0x8000_0000 {
            Some((-magnitude) as i32)
        } else {
            None
        }
    } else {
        if magnitude <= i32::MAX {
            Some(magnitude as i32)
        } else {
            None
        }
    }
}

/// The value of a prefix never exceeds the value of the whole run.
pub proof fn lemma_value_of_prefix(s: Seq<char>, k: int)
    requires
        0 <= k <= s.len(),
    ensures
        decimal_value(s.take(k)) <= decimal_value(s),
    decreases s.len(),
{
    if k == s.len() {
        assert(s.take(k) =~= s);
    } else {
        assert(s.drop_last().take(k) =~= s.take(k));
        lemma_value_of_prefix(s.drop_last(), k);
    }
}

/// One more digit: ten times the value so far, plus the digit.
pub proof fn lemma_value_step(s: Seq<char>, k: int)
    requires
        0 <= k < s.len(),
    ensures
        decimal_value(s.take(k + 1)) == 10 * decimal_value(s.take(k)) + digit_value(s[k]),
{
    assert(s.take(k + 1).drop_last() =~= s.take(k));
}

/// The shortest decimal form is made of digits, as many as `digit_count`
/// says, and denotes the number it was made from.
pub proof fn lemma_decimal_text(n: nat)
    ensures
        all_digits(decimal_text(n)),
        decimal_text(n).len() == digit_count(n),
        decimal_value(decimal_text(n)) == n,
        n > 0 ==> decimal_text(n)[0] != '0',
    decreases n,
{
    if n < 10 {
        let text = decimal_text(n);
        assert(text.drop_last() =~= Seq::<char>::empty());
        assert(decimal_value(text.drop_last()) == 0);
    } else {
        lemma_decimal_text(n / 10);
        let front = decimal_text(n / 10);
        let text = front.push(digit_char(n % 10));
        assert(text.drop_last() =~= front);
        assert forall|i: int| 0 <= i < text.len() implies is_digit(#[trigger] text[i]) by {
            if i < front.len() {
                assert(text[i] == front[i]);
            }
        }
        assert(text[0] == front[0]);
    }
}

/// Zeros in front do not change what a run of characters denotes.
pub proof fn lemma_value_after_zeros(k: nat, s: Seq<char>)
    ensures
        decimal_value(zeros(k) + s) == decimal_value(s),
    decreases s.len(), k,
{
    if s.len() > 0 {
        assert((zeros(k) + s).drop_last() =~= zeros(k) + s.drop_last());
        lemma_value_after_zeros(k, s.drop_last());
    } else if k > 0 {
        assert(zeros(k) + s =~= zeros(k));
        assert(zeros(k).drop_last() =~= zeros((k - 1) as nat) + s);
        lemma_value_after_zeros((k - 1) as nat, s);
    } else {
        assert(zeros(k) + s =~= s);
    }
}

/// A padded number is made of digits, has the width asked for unless its
/// digits need more, and denotes the number it was made from.
pub proof fn lemma_padded_text(value: nat, width: nat)
    ensures
        all_digits(padded_text(value, width)),
        padded_text(value, width).len() == if width > digit_count(value) {
            width
        } else {
            digit_count(value)
        },
        decimal_value(padded_text(value, width)) == value,
{
    lemma_decimal_text(value);
    let count = digit_count(value);
    let fill = if width > count {
        (width - count) as nat
    } else {
        0
    };
    lemma_value_after_zeros(fill, decimal_text(value));
    let text = padded_text(value, width);
    assert forall|i: int| 0 <= i < text.len() implies is_digit(#[trigger] text[i]) by {
        if i >= fill {
            assert(text[i] == decimal_text(value)[i - fill]);
        }
    }
}

/// Writing the value of a run of digits with the length of the run as its
/// width gives the run back, leading zeros and all.
pub proof fn lemma_padded_text_of_digits(s: Seq<char>)
    requires
        s.len() > 0,
        all_digits(s),
    ensures
        digit_count(decimal_value(s)) <= s.len(),
        padded_text(decimal_value(s), s.len()) == s,
    decreases s.len(),
{
    let front = s.drop_last();
    let last = s.last();
    let value = decimal_value(s);
    assert(is_digit(last));
    assert(digit_char(digit_value(last)) == last);
    if front.len() == 0 {
        assert(decimal_value(front) == 0);
        assert(padded_text(value, s.len()) =~= s);
    } else {
        assert forall|i: int| 0 <= i < front.len() implies is_digit(#[trigger] front[i]) by {
            assert(front[i] == s[i]);
        }
        lemma_padded_text_of_digits(front);
        let front_value = decimal_value(front);
        if front_value == 0 {
            assert(front =~= zeros(front.len()));
            assert(padded_text(value, s.len()) =~= s);
        } else {
            assert(value / 10 == front_value);
            assert(value % 10 == digit_value(last));
            assert(padded_text(value, s.len()) =~= padded_text(front_value, front.len()).push(
                last,
            ));
            assert(front.push(last) =~= s);
        }
    }
}

/// The value of the digits of `token` from position `start` on, where every
/// character there is a digit and the value is at most `limit`.
fn digits_from(token: &Vec<char>, start: usize, limit: u64) -> (r: Option<u64>)
    requires
        start <= token.len(),
        limit <= 0x1_0000_0000,
    ensures
        r == if all_digits(token@.skip(start as int)) && decimal_value(token@.skip(start as int))
            <= limit {
            Some(decimal_value(token@.skip(start as int)) as u64)
        } else {
            None
        },
{
    let n = token.len();
    let ghost digits = token@.skip(start as int);
    let mut acc: u64 = 0;
    let mut i: usize = start;
    while i < n
        invariant
            start <= i <= n,
            n == token.len(),
            limit <= 0x1_0000_0000,
            digits == token@.skip(start as int),
            forall|j: int| 0 <= j < i - start ==> is_digit(#[trigger] digits[j]),
            acc == decimal_value(digits.take(i - start)),
            acc <= limit,
        decreases n - i,
    {
        let c = token[i];
        if !('0' <= c && c <= '9') {
            assert(!is_digit(digits[i - start]));
            return None;
        }
        let d: u64 = (c as u32 - '0' as u32) as u64;
        proof {
            lemma_value_step(digits, i - start);
        }
        let next: u64 = acc * 10 + d;
        if next > limit {
            proof {
                lemma_value_of_prefix(digits, i - start + 1);
            }
            return None;
        }
        acc = next;
        i += 1;
    }
    assert(digits.take(n - start) =~= digits);
    Some(acc)
}

/// Reads a token as an unsigned 32-bit number.
pub fn parse_unsigned(token: &Vec<char>) -> (r: Option<u32>)
    ensures
        r == unsigned_value(token@),
{
    let n = token.len();
    let start: usize = if n > 0 && token[0] == '+' {
        1
    } else {
        0
    };
    if start == n {
        return None;
    }
    assert(token@.skip(0) =~= token@);
    match digits_from(token, start, 0xffff_ffff) {
        Some(v) => Some(v as u32),
        None => None,
    }
}

/// Reads a token as a signed 32-bit number.
pub fn parse_signed(token: &Vec<char>) -> (r: Option<i32>)
    ensures
        r == signed_value(token@),
{
    let n = token.len();
    let negative = n > 0 && token[0] == '-';
    let start: usize = if n > 0 && (token[0] == '+' || token[0] == '-') {
        1
    } else {
        0
    };
    if start == n {
        return None;
    }
    assert(token@.skip(0) =~= token@);
    if negative {
        match digits_from(token, start, 0x8000_0000) {
            Some(v) => Some((-(v as i64)) as i32),
            None => None,
        }
    } else {
        match digits_from(token, start, 0x7fff_ffff) {
            Some(v) => Some(v as i32),
            None => None,
        }
    }
}

/// The text of one digit.
fn digit_str(d: u32) -> (r: &'static str)
    requires
        d < 10,
    ensures
        r@ == seq![digit_char(d as nat)],
{
    proof {
        reveal_strlit("0");
        reveal_strlit("1");
        reveal_strlit("2");
        reveal_strlit("3");
        reveal_strlit("4");
        reveal_strlit("5");
        reveal_strlit("6");
        reveal_strlit("7");
        reveal_strlit("8");
        reveal_strlit("9");
    }
    let r = match d {
        0 => "0",
        1 => "1",
        2 => "2",
        3 => "3",
        4 => "4",
        5 => "5",
        6 => "6",
        7 => "7",
        8 => "8",
        _ => "9",
    };
    assert(r@ =~= seq![digit_char(d as nat)]);
    r
}

/// Appends the shortest decimal form of `n` to `out`.
pub fn push_decimal(out: &mut String, n: u32)
    ensures
        final(out)@ == old(out)@ + decimal_text(n as nat),
    decreases n,
{
    if n < 10 {
        out.append(digit_str(n));
    } else {
        push_decimal(out, n / 10);
        out.append(digit_str(n % 10));
        assert(out@ =~= old(out)@ + decimal_text(n as nat));
    }
}

/// A 32-bit number has at most ten digits.
pub proof fn lemma_digit_count_u32(n: nat)
    requires
        n <= u32::MAX,
    ensures
        1 <= digit_count(n) <= 10,
{
    reveal_with_fuel(digit_count, 11);
}

/// Counts the digits of the shortest decimal form of `n`.
pub fn count_digits(n: u32) -> (count: usize)
    ensures
        count == digit_count(n as nat),
        1 <= count <= 10,
{
    proof {
        lemma_digit_count_u32(n as nat);
    }
    let mut count: usize = 1;
    let mut rest: u32 = n;
    while rest >= 10
        invariant
            digit_count(n as nat) == (count - 1) + digit_count(rest as nat),
            1 <= count,
            count - 1 + digit_count(rest as nat) <= 10,
        decreases rest,
    {
        rest = rest / 10;
        count += 1;
    }
    count
}

/// Appends `value`, filled up with zeros on the left to `width` characters.
pub fn push_padded(out: &mut String, value: u32, width: usize)
    ensures
        final(out)@ == old(out)@ + padded_text(value as nat, width as nat),
{
    let count = count_digits(value);
    let mut k: usize = 0;
    if width > count {
        let fill = width - count;
        while k < fill
            invariant
                k <= fill,
                out@ == old(out)@ + zeros(k as nat),
            decreases fill - k,
        {
            proof {
                reveal_strlit("0");
            }
            out.append("0");
            k += 1;
            assert(out@ =~= old(out)@ + zeros(k as nat));
        }
    }
    assert(out@ =~= old(out)@ + zeros(k as nat));
    push_decimal(out, value);
    assert(out@ =~= old(out)@ + padded_text(value as nat, width as nat));
}

/// Appends a signed number in decimal.
pub fn push_signed(out: &mut String, n: i32)
    ensures
        final(out)@ == old(out)@ + signed_text(n as int),
{
    if n < 0 {
        proof {
            reveal_strlit("-");
        }
        out.append("-");
        let magnitude: u32 = (-(n as i64)) as u32;
        push_decimal(out, magnitude);
        assert(out@ =~= old(out)@ + signed_text(n as int));
    } else {
        push_decimal(out, n as u32);
    }
}

} // verus!
