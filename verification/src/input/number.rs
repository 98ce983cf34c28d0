//! Reading unsigned decimal numbers.

use vstd::prelude::*;
use vstd::string::*;

verus! {

/// Whether the character is a decimal digit.
pub open spec fn is_digit(c: char) -> bool {
    '0' <= c && c <= '9'
}

/// The value of a decimal digit.
pub open spec fn digit_value(c: char) -> nat {
    (c as int - '0' as int) as nat
}

/// Whether every character is a decimal digit.
pub open spec fn all_digits(s: Seq<char>) -> bool {
    forall|i: int| 0 <= i < s.len() ==> is_digit(#[trigger] s[i])
}

/// The number that a sequence of digits writes.
pub open spec fn decimal(s: Seq<char>) -> nat
    decreases s.len(),
{
    if s.len() == 0 {
        0
    } else {
        decimal(s.drop_last()) * 10 + digit_value(s.last())
    }
}

/// The text without a plus sign in front.
pub open spec fn unsigned_part(s: Seq<char>) -> Seq<char> {
    if s.len() > 0 && s[0] == '+' {
        s.subrange(1, s.len() as int)
    } else {
        s
    }
}

/// The number that a text writes, if it writes one that is at most `max`: an
/// optional plus sign, then one decimal digit or more.
pub open spec fn number_of(s: Seq<char>, max: nat) -> Option<nat> {
    let body = unsigned_part(s);
    if body.len() > 0 && all_digits(body) && decimal(body) <= max {
        Some(decimal(body))
    } else {
        None
    }
}

/// A number is at least as large as what any of its beginnings writes.
pub proof fn lemma_decimal_grows(s: Seq<char>, n: int)
    requires
        0 <= n <= s.len(),
    ensures
        decimal(s.take(n)) <= decimal(s),
    decreases s.len() - n,
{
    if n < s.len() {
        lemma_decimal_grows(s, n + 1);
        assert(s.take(n + 1).drop_last() =~= s.take(n));
    } else {
        assert(s.take(n) =~= s);
    }
}

/// Reads an unsigned decimal number that is at most `max`.
pub fn parse_number(s: &str, max: u64) -> (r: Option<u64>)
    ensures
        r.is_some() == number_of(s@, max as nat).is_some(),
        r.is_some() ==> r.unwrap() as nat == number_of(s@, max as nat).unwrap(),
{
    let len: usize = s.unicode_len();
    if len == 0 {
        return None;
    }
    let first: usize = if s.get_char(0) == '+' {
        1
    } else {
        0
    };
    if first == len {
        return None;
    }
    let ghost body = unsigned_part(s@);
    let mut value: u64 = 0;
    let mut i: usize = first;
    while i < len
        invariant
            len == s@.len(),
            first <= i <= len,
            first == 0 || first == 1,
            body == unsigned_part(s@),
            body.len() == len - first,
            forall|j: int| 0 <= j < body.len() ==> body[j] == s@[first + j],
            all_digits(body.take(i - first)),
            value as nat == decimal(body.take(i - first)),
            value <= max,
        decreases len - i,
    {
        let c: char = s.get_char(i);
        proof {
            assert(body.take(i - first + 1).drop_last() =~= body.take(i - first));
            assert(body.take(i - first + 1).last() == c);
        }
        if c < '0' || c > '9' {
            assert(!is_digit(body[i - first]));
            return None;
        }
        let digit: u64 = (c as u64) - ('0' as u64);
        proof {
            lemma_decimal_grows(body, i - first + 1);
        }
        if max < digit {
            return None;
        }
        if value > (max - digit) / 10 {
            assert(value * 10 + digit > max);
            return None;
        }
        value = value * 10 + digit;
        proof {
            assert forall|j: int| 0 <= j < i - first + 1 implies is_digit(
                #[trigger] body.take(i - first + 1)[j],
            ) by {
                if j < i - first {
                    assert(body.take(i - first)[j] == body[j]);
                }
            }
        }
        i += 1;
    }
    proof {
        assert(body.take(len - first) =~= body);
    }
    Some(value)
}

} // verus!
