//! Decimal numerals: writing integers as text and reading them back.

use vstd::prelude::*;
use vstd::string::*;

use crate::text::{chars_of, string_of};

verus! {

/// The character for a digit below ten.
pub open spec fn digit_char(d: int) -> char {
    (0x30 + d) as char
}

/// The decimal numeral of a natural number, without leading zeros.
pub open spec fn numeral(n: nat) -> Seq<char>
    decreases n,
{
    if n < 10 {
        seq![digit_char(n as int)]
    } else {
        numeral(n / 10).push(digit_char((n % 10) as int))
    }
}

/// The decimal numeral of an integer, with a leading `-` where it is negative.
pub open spec fn decimal(i: int) -> Seq<char> {
    if i < 0 {
        seq!['-'] + numeral((-i) as nat)
    } else {
        numeral(i as nat)
    }
}

fn digit_of(d: u8) -> (c: char)
    requires
        d < 10,
    ensures
        c == digit_char(d as int),
{
    (0x30u8 + d) as char
}

/// `n` in decimal.
pub fn unsigned_text(n: u64) -> (s: String)
    ensures
        s@ == numeral(n as nat),
{
    let v = numeral_chars(n);
    string_of(&v)
}

fn numeral_chars(n: u64) -> (v: Vec<char>)
    ensures
        v@ == numeral(n as nat),
    decreases n,
{
    let d = digit_of((n % 10) as u8);
    if n < 10 {
        let mut v: Vec<char> = Vec::new();
        v.push(d);
        assert(v@ =~= seq![digit_char(n as int)]);
        v
    } else {
        let mut v = numeral_chars(n / 10);
        v.push(d);
        v
    }
}

/// `n` in decimal.
pub fn count_text(n: usize) -> (s: String)
    ensures
        s@ == numeral(n as nat),
{
    unsigned_text(n as u64)
}

/// `n` in decimal, with a sign where it is negative.
pub fn integer_text(n: i64) -> (s: String)
    ensures
        s@ == decimal(n as int),
{
    if n < 0 {
        let magnitude: u64 = (-(n as i128)) as u64;
        let digits = unsigned_text(magnitude);
        let mut s = String::from_str("-");
        s.append(digits.as_str());
        proof {
            reveal_strlit("-");
            assert("-"@ =~= seq!['-']);
        }
        s
    } else {
        unsigned_text(n as u64)
    }
}

/// The octal numeral of a natural number, without leading zeros.
pub open spec fn octal(n: nat) -> Seq<char>
    decreases n,
{
    if n < 8 {
        seq![digit_char(n as int)]
    } else {
        octal(n / 8).push(digit_char((n % 8) as int))
    }
}

fn octal_chars(n: u32) -> (v: Vec<char>)
    ensures
        v@ == octal(n as nat),
    decreases n,
{
    let d = digit_of((n % 8) as u8);
    if n < 8 {
        let mut v: Vec<char> = Vec::new();
        v.push(d);
        assert(v@ =~= seq![digit_char(n as int)]);
        v
    } else {
        let mut v = octal_chars(n / 8);
        v.push(d);
        v
    }
}

/// `n` in octal, as file modes are written.
pub fn octal_text(n: u32) -> (s: String)
    ensures
        s@ == octal(n as nat),
{
    let v = octal_chars(n);
    string_of(&v)
}

// ---------------------------------------------------------------- reading

/// Whether `c` is one of the ten ASCII digits.
pub open spec fn is_digit(c: char) -> bool {
    '0' <= c <= '9'
}

/// Whether every character of `s` is an ASCII digit and there is at least one.
pub open spec fn all_digits(s: Seq<char>) -> bool {
    s.len() > 0 && forall|i: int| 0 <= i < s.len() ==> is_digit(s[i])
}

/// The number that a row of digits denotes.
pub open spec fn digits_value(s: Seq<char>) -> int
    decreases s.len(),
{
    if s.len() == 0 {
        0
    } else {
        10 * digits_value(s.drop_last()) + (s.last() as int - 0x30)
    }
}

/// The natural number that `s` denotes: an optional `+`, then digits.
pub open spec fn natural_of(s: Seq<char>) -> Option<int> {
    let body = if s.len() > 0 && s[0] == '+' {
        s.skip(1)
    } else {
        s
    };
    if all_digits(body) {
        Some(digits_value(body))
    } else {
        None
    }
}

/// The integer that `s` denotes: an optional `+` or `-`, then digits.
pub open spec fn integer_of(s: Seq<char>) -> Option<int> {
    if s.len() > 0 && s[0] == '-' {
        if all_digits(s.skip(1)) {
            Some(-digits_value(s.skip(1)))
        } else {
            None
        }
    } else {
        natural_of(s)
    }
}

proof fn lemma_digits_monotone(s: Seq<char>, i: int)
    requires
        forall|j: int| 0 <= j < s.len() ==> is_digit(s[j]),
        0 <= i <= s.len(),
    ensures
        0 <= digits_value(s.take(i)) <= digits_value(s),
    decreases s.len(),
{
    if i == s.len() {
        assert(s.take(i) =~= s);
        if s.len() > 0 {
            lemma_digits_monotone(s.drop_last(), s.len() - 1);
            assert(s.drop_last().take(s.len() - 1) =~= s.drop_last());
        }
    } else {
        lemma_digits_monotone(s.drop_last(), i);
        assert(s.drop_last().take(i) =~= s.take(i));
    }
}

/// The value of the digits of `v` from `from` on, where they fit a `u64`.
fn digits_from(v: &Vec<char>, from: usize) -> (r: Option<u64>)
    requires
        from <= v@.len(),
    ensures
        ({
            let body = v@.skip(from as int);
            match r {
                Some(n) => all_digits(body) && digits_value(body) == n,
                None => !all_digits(body) || digits_value(body) > u64::MAX,
            }
        }),
{
    let ghost body = v@.skip(from as int);
    if from == v.len() {
        return None;
    }
    let mut acc: u64 = 0;
    let mut i: usize = from;
    assert(body.take(0) =~= Seq::<char>::empty());
    let mut k: usize = from;
    while k < v.len()
        invariant
            from <= k <= v@.len(),
            body == v@.skip(from as int),
            forall|j: int| from <= j < k ==> is_digit(v@[j]),
        decreases v@.len() - k,
    {
        if !('0' <= v[k] && v[k] <= '9') {
            assert(body[k - from] == v@[k as int]);
            return None;
        }
        k = k + 1;
    }
    assert forall|j: int| 0 <= j < body.len() implies is_digit(body[j]) by {
        assert(body[j] == v@[from + j]);
    }
    while i < v.len()
        invariant
            from <= i <= v@.len(),
            from < v@.len(),
            body == v@.skip(from as int),
            forall|j: int| 0 <= j < body.len() ==> is_digit(body[j]),
            acc == digits_value(body.take(i - from)),
        decreases v@.len() - i,
    {
        assert(body[i - from] == v@[i as int] && is_digit(v@[i as int]));
        let d: u64 = (v[i] as u32 - 0x30) as u64;
        proof {
            let now = body.take(i - from + 1);
            assert(now.drop_last() =~= body.take(i - from));
            assert(now.last() == v@[i as int]);
            lemma_digits_monotone(body, i - from + 1);
        }
        if acc > u64::MAX / 10 {
            return None;
        }
        let tens: u64 = acc * 10;
        if d > u64::MAX - tens {
            return None;
        }
        acc = tens + d;
        i = i + 1;
    }
    assert(body.take(i - from) =~= body);
    Some(acc)
}

/// Reads a natural number that fits a `u64`.
pub fn parse_unsigned(s: &str) -> (r: Option<u64>)
    ensures
        match r {
            Some(n) => natural_of(s@) == Some(n as int),
            None => natural_of(s@) is None || natural_of(s@)->0 > u64::MAX,
        },
{
    let v = chars_of(s);
    let from: usize = if v.len() > 0 && v[0] == '+' {
        1
    } else {
        0
    };
    assert(v@.skip(0) =~= v@);
    digits_from(&v, from)
}

/// Reads an integer that fits an `i64`.
pub fn parse_integer(s: &str) -> (r: Option<i64>)
    ensures
        match r {
            Some(n) => integer_of(s@) == Some(n as int),
            None => integer_of(s@) is None || integer_of(s@)->0 < i64::MIN || integer_of(s@)->0
                > i64::MAX,
        },
{
    let v = chars_of(s);
    if v.len() > 0 && v[0] == '-' {
        match digits_from(&v, 1) {
            Some(n) => {
                if n <= 9223372036854775808u64 {
                    Some((-(n as i128)) as i64)
                } else {
                    None
                }
            },
            None => None,
        }
    } else {
        match parse_unsigned(s) {
            Some(n) => {
                if n <= 9223372036854775807u64 {
                    Some(n as i64)
                } else {
                    None
                }
            },
            None => None,
        }
    }
}

// ---------------------------------------------------------------- laws

pub proof fn lemma_numeral_digits(n: nat)
    ensures
        all_digits(numeral(n)),
        digits_value(numeral(n)) == n,
    decreases n,
{
    if n < 10 {
        let s = numeral(n);
        assert(s.drop_last() =~= Seq::<char>::empty());
        assert(digits_value(s.drop_last()) == 0);
    } else {
        lemma_numeral_digits(n / 10);
        assert(numeral(n).drop_last() =~= numeral(n / 10));
    }
}

/// Reading back what was written gives the same integer.
pub proof fn law_decimal_round_trip(i: int)
    ensures
        integer_of(decimal(i)) == Some(i),
{
    if i < 0 {
        lemma_numeral_digits((-i) as nat);
        assert(decimal(i).skip(1) =~= numeral((-i) as nat));
    } else {
        lemma_numeral_digits(i as nat);
        assert(is_digit(numeral(i as nat)[0]));
    }
}

} // verus!
