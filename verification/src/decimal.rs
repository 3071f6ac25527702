//! Decimal text of block heights.
//!
//! A height is written in object keys and file names as decimal digits. This
//! module says which texts stand for a height, what number a text stands for,
//! and what the text of a number is, and proves that reading and writing agree.

use vstd::prelude::*;
use vstd::string::*;

verus! {

/// `c` is one of the ASCII digits `0` to `9`.
pub open spec fn is_digit(c: char) -> bool {
    '0' <= c && c <= '9'
}

/// The number that the digit `c` stands for.
pub open spec fn digit_value(c: char) -> nat
    recommends
        is_digit(c),
{
    (c as int - '0' as int) as nat
}

/// The digit that stands for `d`.
pub open spec fn digit_char(d: nat) -> char
    recommends
        d < 10,
{
    if d == 0 {
        '0'
    } else if d == 1 {
        '1'
    } else if d == 2 {
        '2'
    } else if d == 3 {
        '3'
    } else if d == 4 {
        '4'
    } else if d == 5 {
        '5'
    } else if d == 6 {
        '6'
    } else if d == 7 {
        '7'
    } else if d == 8 {
        '8'
    } else {
        '9'
    }
}

/// Every character of `s` is a digit.
pub open spec fn all_digits(s: Seq<char>) -> bool {
    forall|i: int| 0 <= i < s.len() ==> is_digit(#[trigger] s[i])
}

/// The number that a run of digits stands for, most significant digit
/// first; the empty run stands for 0.
pub open spec fn digits_value(s: Seq<char>) -> nat
    decreases s.len(),
{
    if s.len() == 0 {
        0
    } else {
        10 * digits_value(s.drop_last()) + digit_value(s.last())
    }
}

/// The decimal text of `n`: no sign, and no leading zero but for 0 itself.
pub open spec fn decimal_text(n: nat) -> Seq<char>
    decreases n,
{
    if n < 10 {
        seq![digit_char(n)]
    } else {
        decimal_text(n / 10).push(digit_char(n % 10))
    }
}

/// The digits of a height text: the text without its leading `+`, if it
/// has one.
pub open spec fn height_digits(s: Seq<char>) -> Seq<char> {
    if s.len() > 0 && s[0] == '+' {
        s.subrange(1, s.len() as int)
    } else {
        s
    }
}

/// `s` is the text of a height: an optional `+`, then at least one digit
/// and nothing but digits, and the number fits in 32 bits.
pub open spec fn is_height_text(s: Seq<char>) -> bool {
    &&& height_digits(s).len() > 0
    &&& all_digits(height_digits(s))
    &&& digits_value(height_digits(s)) <= u32::MAX
}

/// The height that the text `s` stands for.
pub open spec fn height_value(s: Seq<char>) -> nat
    recommends
        is_height_text(s),
{
    digits_value(height_digits(s))
}

/// `s` is written as `decimal_text` writes: digits only, at least one, and
/// no leading zero but for the single digit `0`.
pub open spec fn is_canonical(s: Seq<char>) -> bool {
    &&& s.len() > 0
    &&& all_digits(s)
    &&& (s.len() == 1 || s[0] != '0')
}

/// The one-character text of the digit that stands for `d`.
fn digit_text(d: u64) -> (r: &'static str)
    requires
        d < 10,
    ensures
        r@ == seq![digit_char(d as nat)],
{
    proof {
        reveal_strlit("0");
        reveal_strlit("1");
        reveal_strlit("2");
        reveal_strlit("3");
        reveal_strlit("4");
        reveal_strlit("5");
        reveal_strlit("6");
        reveal_strlit("7");
        reveal_strlit("8");
        reveal_strlit("9");
    }
    let r = if d == 0 {
        "0"
    } else if d == 1 {
        "1"
    } else if d == 2 {
        "2"
    } else if d == 3 {
        "3"
    } else if d == 4 {
        "4"
    } else if d == 5 {
        "5"
    } else if d == 6 {
        "6"
    } else if d == 7 {
        "7"
    } else if d == 8 {
        "8"
    } else {
        "9"
    };
    assert(r@ =~= seq![digit_char(d as nat)]);
    r
}

/// Writes `n` in decimal.
pub fn render_height(n: u64) -> (r: String)
    ensures
        r@ == decimal_text(n as nat),
    decreases n,
{
    if n < 10 {
        String::from_str(digit_text(n))
    } else {
        let mut r = render_height(n / 10);
        r.append(digit_text(n % 10));
        r
    }
}

/// The value of the digit `c`, or `None` where `c` is no digit.
pub fn read_digit(c: char) -> (r: Option<u64>)
    ensures
        r is Some <==> is_digit(c),
        r is Some ==> r.unwrap() == digit_value(c),
{
    if c >= '0' && c <= '9' {
        Some((c as u64) - ('0' as u64))
    } else {
        None
    }
}

/// Reads the characters of `text` from `from` up to `to` as a height.
///
/// Returns the height where that stretch is the text of one, and `None`
/// where it is not: where it is empty or a lone `+`, holds anything but
/// digits after an optional `+`, or stands for more than 32 bits hold.
pub fn read_height(text: &Vec<char>, from: usize, to: usize) -> (r: Option<u32>)
    requires
        from <= to <= text.len(),
    ensures
        r is Some <==> is_height_text(text@.subrange(from as int, to as int)),
        r is Some ==> r.unwrap() == height_value(text@.subrange(from as int, to as int)),
{
    let ghost whole = text@.subrange(from as int, to as int);
    let first: usize = if from < to && text[from] == '+' {
        from + 1
    } else {
        from
    };
    let ghost digits = text@.subrange(first as int, to as int);
    assert(digits =~= height_digits(whole));
    if first == to {
        return None;
    }
    let mut value: u64 = 0;
    let mut i: usize = first;
    while i < to
        invariant
            from <= first <= i <= to <= text.len(),
            digits == text@.subrange(first as int, to as int),
            digits == height_digits(text@.subrange(from as int, to as int)),
            all_digits(digits.take(i - first)),
            value == digits_value(digits.take(i - first)),
            value <= u32::MAX,
        decreases to - i,
    {
        let ghost before = digits.take(i - first);
        let ghost after = digits.take(i - first + 1);
        assert(after.drop_last() =~= before);
        assert(after.last() == text@[i as int]);
        match read_digit(text[i]) {
            None => {
                assert(!is_digit(digits[i - first]));
                return None;
            },
            Some(d) => {
                value = value * 10 + d;
                assert(value == digits_value(after));
                assert forall|k: int| 0 <= k < after.len() implies is_digit(#[trigger] after[k]) by {
                    if k < before.len() {
                        assert(after[k] == before[k]);
                    }
                }
                if value > u32::MAX as u64 {
                    proof {
                        lemma_prefix_value_le(digits, i - first + 1);
                    }
                    return None;
                }
            },
        }
        i = i + 1;
    }
    assert(digits.take(i - first) =~= digits);
    Some(value as u32)
}

/// A digit and its value determine each other.
pub proof fn lemma_digit_roundtrip(d: nat)
    requires
        d < 10,
    ensures
        is_digit(digit_char(d)),
        digit_value(digit_char(d)) == d,
{
}

/// The digit of a digit's value is the digit itself.
pub proof fn lemma_digit_char_of_value(c: char)
    requires
        is_digit(c),
    ensures
        digit_value(c) < 10,
        digit_char(digit_value(c)) == c,
{
}

/// A run of digits stands for at least what any of its prefixes stands for.
pub proof fn lemma_prefix_value_le(s: Seq<char>, k: int)
    requires
        0 <= k <= s.len(),
    ensures
        digits_value(s.take(k)) <= digits_value(s),
    decreases s.len() - k,
{
    if k == s.len() {
        assert(s.take(k) =~= s);
    } else {
        lemma_prefix_value_le(s.drop_last(), k);
        assert(s.drop_last().take(k) =~= s.take(k));
    }
}

/// The decimal text of a number is canonical and stands for that number.
pub proof fn lemma_decimal_text_value(n: nat)
    ensures
        is_canonical(decimal_text(n)),
        digits_value(decimal_text(n)) == n,
        n > 0 ==> decimal_text(n)[0] != '0',
    decreases n,
{
    if n < 10 {
        lemma_digit_roundtrip(n);
        let s = decimal_text(n);
        assert(s.drop_last() =~= Seq::<char>::empty());
        assert(digits_value(s.drop_last()) == 0);
    } else {
        lemma_decimal_text_value(n / 10);
        lemma_digit_roundtrip(n % 10);
        let p = decimal_text(n / 10);
        let s = decimal_text(n);
        assert(s.drop_last() =~= p);
        assert(s[0] == p[0]);
    }
}

/// A canonical run of digits is the decimal text of the number it stands
/// for.
pub proof fn lemma_canonical_is_decimal_text(s: Seq<char>)
    requires
        is_canonical(s),
    ensures
        decimal_text(digits_value(s)) == s,
    decreases s.len(),
{
    let last = s.last();
    lemma_digit_char_of_value(last);
    if s.len() == 1 {
        assert(s.drop_last() =~= Seq::<char>::empty());
        assert(digits_value(s.drop_last()) == 0);
        assert(decimal_text(digits_value(s)) =~= s);
    } else {
        let p = s.drop_last();
        assert(p[0] == s[0]);
        lemma_canonical_is_decimal_text(p);
        lemma_canonical_positive(p);
        let v = digits_value(s);
        assert(v == 10 * digits_value(p) + digit_value(last));
        assert(v / 10 == digits_value(p));
        assert(v % 10 == digit_value(last));
        assert(decimal_text(v) =~= s);
    }
}

/// A canonical run of digits that does not start with `0` stands for a
/// number above 0.
pub proof fn lemma_canonical_positive(s: Seq<char>)
    requires
        s.len() > 0,
        all_digits(s),
        s[0] != '0',
    ensures
        digits_value(s) > 0,
    decreases s.len(),
{
    if s.len() == 1 {
        assert(s.last() == s[0]);
    } else {
        let p = s.drop_last();
        assert(p[0] == s[0]);
        lemma_canonical_positive(p);
    }
}

/// The decimal text of a number that fits in 32 bits is the text of a
/// height, and of that height.
pub proof fn lemma_decimal_text_is_height_text(n: nat)
    requires
        n <= u32::MAX,
    ensures
        is_height_text(decimal_text(n)),
        height_value(decimal_text(n)) == n,
{
    lemma_decimal_text_value(n);
    let s = decimal_text(n);
    assert(is_digit(s[0]));
}

} // verus!
