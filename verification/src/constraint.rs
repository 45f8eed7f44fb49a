//! The value of a `length` constraint, and numbers as decimal text.

use crate::text::{is_space, to_chars, trim, trimmed, trimmed_end, trimmed_start};
use vstd::prelude::*;
use vstd::string::*;

verus! {

/// Whether `c` is a decimal digit.
pub open spec fn is_digit(c: char) -> bool {
    '0' <= c && c <= '9'
}

/// The value of the decimal digit `c`.
pub open spec fn digit_value(c: char) -> nat {
    if is_digit(c) {
        (c as u32 - '0' as u32) as nat
    } else {
        0
    }
}

/// Whether `s` holds decimal digits only.
pub open spec fn all_digits(s: Seq<char>) -> bool {
    forall|i: int| 0 <= i < s.len() ==> is_digit(#[trigger] s[i])
}

/// The number that the decimal digits `s` write.
pub open spec fn digits_value(s: Seq<char>) -> nat
    decreases s.len(),
{
    if s.len() == 0 {
        0
    } else {
        digits_value(s.drop_last()) * 10 + digit_value(s.last())
    }
}

/// The limit that the constraint text `c` sets: `c` is `<` and a whole number
/// of at most `u64::MAX`, with or without whitespace around the number.
pub open spec fn length_limit(c: Seq<char>) -> Option<nat> {
    if c.len() > 0 && c[0] == '<' {
        let digits = trimmed(c.drop_first());
        if digits.len() > 0 && all_digits(digits) && digits_value(digits) <= u64::MAX {
            Some(digits_value(digits))
        } else {
            None
        }
    } else {
        None
    }
}

/// The decimal digit of value `d`.
pub open spec fn digit_char(d: nat) -> char {
    if d == 0 {
        '0'
    } else if d == 1 {
        '1'
    } else if d == 2 {
        '2'
    } else if d == 3 {
        '3'
    } else if d == 4 {
        '4'
    } else if d == 5 {
        '5'
    } else if d == 6 {
        '6'
    } else if d == 7 {
        '7'
    } else if d == 8 {
        '8'
    } else {
        '9'
    }
}

/// The decimal text of `n`, without leading zeros.
pub open spec fn decimal_of(n: nat) -> Seq<char>
    decreases n,
{
    if n < 10 {
        seq![digit_char(n)]
    } else {
        decimal_of(n / 10).push(digit_char(n % 10))
    }
}

/// A prefix of a number's digits writes a number that is not larger.
pub proof fn lemma_digits_prefix(s: Seq<char>, i: int)
    requires
        0 <= i <= s.len(),
    ensures
        digits_value(s.take(i)) <= digits_value(s),
    decreases s.len() - i,
{
    if i == s.len() {
        assert(s.take(i) =~= s);
    } else {
        lemma_digits_prefix(s, i + 1);
        assert(s.take(i + 1).drop_last() =~= s.take(i));
    }
}

/// The decimal text of a number holds digits only, at least one, and writes
/// that number.
pub proof fn lemma_decimal_round_trip(n: nat)
    ensures
        decimal_of(n).len() > 0,
        all_digits(decimal_of(n)),
        digits_value(decimal_of(n)) == n,
    decreases n,
{
    if n < 10 {
        let d = decimal_of(n);
        assert(d.drop_last() =~= Seq::empty());
        assert(digits_value(d.drop_last()) == 0);
        assert(d.last() == digit_char(n));
        assert(digit_value(digit_char(n)) == n);
    } else {
        lemma_decimal_round_trip(n / 10);
        let front = decimal_of(n / 10);
        let d = decimal_of(n);
        assert(d.drop_last() =~= front);
        assert(d.last() == digit_char(n % 10));
        assert(digit_value(digit_char(n % 10)) == n % 10);
        assert forall|i: int| 0 <= i < d.len() implies is_digit(#[trigger] d[i]) by {
            if i < front.len() {
                assert(d[i] == front[i]);
            }
        }
    }
}

/// The constraint text `< N`, with `N` the decimal text of a number of at
/// most `u64::MAX`, sets that number as the limit.
pub proof fn lemma_limit_of_decimal(n: nat)
    requires
        n <= u64::MAX,
    ensures
        length_limit("< "@ + decimal_of(n)) == Some(n),
{
    reveal_strlit("< ");
    lemma_decimal_round_trip(n);
    let d = decimal_of(n);
    let c = "< "@ + d;
    assert(c[0] == '<');
    assert(c.drop_first() =~= seq![' '] + d);
    let t = seq![' '] + d;
    assert(t.drop_first() =~= d);
    assert(is_digit(d[0]) && !is_space(d[0]));
    assert(is_digit(d.last()) && !is_space(d.last()));
    assert(is_space(t[0]));
    assert(trimmed_start(d) == d);
    assert(trimmed_start(t) == d);
    assert(trimmed_end(d) == d);
    assert(trimmed(t) == d);
}

/// Reads the limit that the constraint text `c` sets, if it sets one.
pub fn read_length_limit(c: &str) -> (r: Option<u64>)
    ensures
        match r {
            Some(n) => length_limit(c@) == Some(n as nat),
            None => length_limit(c@) is None,
        },
{
    let v = to_chars(c);
    if v.len() == 0 || v[0] != '<' {
        return None;
    }
    assert(c@.drop_first() =~= c@.subrange(1, c@.len() as int));
    let digits = trim(c.substring_char(1, v.len()));
    let d = to_chars(digits);
    let n = d.len();
    if n == 0 {
        return None;
    }
    let mut value: u64 = 0;
    let mut i: usize = 0;
    assert(d@.take(0) =~= Seq::empty());
    while i < n
        invariant
            i <= n,
            0 < n == d@.len(),
            c@.len() > 0 && c@[0] == '<',
            d@ == trimmed(c@.drop_first()),
            value == digits_value(d@.take(i as int)),
            all_digits(d@.take(i as int)),
        decreases n - i,
    {
        let ch = d[i];
        if ch < '0' || ch > '9' {
            assert(!is_digit(d@[i as int]));
            return None;
        }
        let digit: u64 = (ch as u32 - '0' as u32) as u64;
        proof {
            assert(d@.take(i + 1).drop_last() =~= d@.take(i as int));
            assert(d@.take(i + 1).last() == ch);
            assert(digit == digit_value(ch));
            lemma_digits_prefix(d@, i + 1);
        }
        if value > (u64::MAX - digit) / 10 {
            assert(digits_value(d@.take(i + 1)) > u64::MAX);
            return None;
        }
        value = value * 10 + digit;
        assert forall|j: int| 0 <= j < i + 1 implies is_digit(#[trigger] d@.take(i + 1)[j]) by {
            if j < i {
                assert(d@.take(i as int)[j] == d@.take(i + 1)[j]);
            }
        }
        i = i + 1;
    }
    assert(d@.take(n as int) =~= d@);
    Some(value)
}

/// The text of one decimal digit.
fn digit_text(d: u64) -> (r: &'static str)
    requires
        d < 10,
    ensures
        r@ == seq![digit_char(d as nat)],
{
    proof {
        reveal_strlit("0");
        reveal_strlit("1");
        reveal_strlit("2");
        reveal_strlit("3");
        reveal_strlit("4");
        reveal_strlit("5");
        reveal_strlit("6");
        reveal_strlit("7");
        reveal_strlit("8");
        reveal_strlit("9");
    }
    let r = if d == 0 {
        "0"
    } else if d == 1 {
        "1"
    } else if d == 2 {
        "2"
    } else if d == 3 {
        "3"
    } else if d == 4 {
        "4"
    } else if d == 5 {
        "5"
    } else if d == 6 {
        "6"
    } else if d == 7 {
        "7"
    } else if d == 8 {
        "8"
    } else {
        "9"
    };
    assert(r@ =~= seq![digit_char(d as nat)]);
    r
}

/// The decimal text of `n`.
pub fn decimal(n: u64) -> (r: String)
    ensures
        r@ == decimal_of(n as nat),
    decreases n,
{
    if n < 10 {
        String::from_str(digit_text(n))
    } else {
        let mut s = decimal(n / 10);
        s.append(digit_text(n % 10));
        assert(s@ =~= decimal_of(n as nat / 10).push(digit_char(n as nat % 10)));
        s
    }
}

} // verus!
