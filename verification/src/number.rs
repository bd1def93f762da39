//! Numbers written in decimal and read back.
use vstd::prelude::*;

use crate::text::{chars_of, digit, is_digit};

verus! {

/// The digit that stands for `n`.
pub open spec fn digit_char(n: int) -> char {
    if n == 0 {
        '0'
    } else if n == 1 {
        '1'
    } else if n == 2 {
        '2'
    } else if n == 3 {
        '3'
    } else if n == 4 {
        '4'
    } else if n == 5 {
        '5'
    } else if n == 6 {
        '6'
    } else if n == 7 {
        '7'
    } else if n == 8 {
        '8'
    } else {
        '9'
    }
}

/// The value of a digit.
pub open spec fn digit_value(c: char) -> int {
    c as u32 - '0' as u32
}

/// `n` in decimal, without leading zeros.
pub open spec fn decimal_of(n: nat) -> Seq<char>
    decreases n,
{
    if n < 10 {
        seq![digit_char(n as int)]
    } else {
        decimal_of(n / 10).push(digit_char((n % 10) as int))
    }
}

/// The number that a run of digits stands for.
pub open spec fn digits_value(s: Seq<char>) -> nat
    decreases s.len(),
{
    if s.len() == 0 {
        0
    } else {
        (10 * digits_value(s.drop_last()) + digit_value(s.last())) as nat
    }
}

/// Nothing but digits.
pub open spec fn all_digits(s: Seq<char>) -> bool {
    forall|i: int| 0 <= i < s.len() ==> digit(#[trigger] s[i])
}

/// The digits of a number: what follows an optional plus sign.
pub open spec fn unsigned_part(s: Seq<char>) -> Seq<char> {
    if s.len() > 0 && s[0] == '+' {
        s.skip(1)
    } else {
        s
    }
}

/// The number up to `max` that a text stands for: digits, at least one, with a
/// plus sign before them or none.
pub open spec fn parse_unsigned(s: Seq<char>, max: nat) -> Option<nat> {
    let body = unsigned_part(s);
    if body.len() > 0 && all_digits(body) && digits_value(body) <= max {
        Some(digits_value(body))
    } else {
        None
    }
}

fn digit_to_char(n: u64) -> (r: char)
    requires
        n < 10,
    ensures
        r == digit_char(n as int),
{
    if n == 0 {
        '0'
    } else if n == 1 {
        '1'
    } else if n == 2 {
        '2'
    } else if n == 3 {
        '3'
    } else if n == 4 {
        '4'
    } else if n == 5 {
        '5'
    } else if n == 6 {
        '6'
    } else if n == 7 {
        '7'
    } else if n == 8 {
        '8'
    } else {
        '9'
    }
}

/// `n` in decimal.
pub fn decimal(n: u64) -> (r: String)
    ensures
        r@ == decimal_of(n as nat),
    decreases n,
{
    if n < 10 {
        let mut r = String::new();
        r.push(digit_to_char(n));
        proof {
            assert(r@ =~= seq![digit_char(n as int)]);
        }
        r
    } else {
        let mut r = decimal(n / 10);
        r.push(digit_to_char(n % 10));
        r
    }
}

/// A longer run of digits is worth at least as much.
proof fn lemma_prefix_value(s: Seq<char>, k: int)
    requires
        0 <= k <= s.len(),
        all_digits(s),
    ensures
        digits_value(s.take(k)) <= digits_value(s),
    decreases s.len() - k,
{
    if k < s.len() {
        lemma_prefix_value(s, k + 1);
        assert(s.take(k + 1).drop_last() =~= s.take(k));
        assert(digit(s[k]));
    } else {
        assert(s.take(k) =~= s);
    }
}

/// The number up to `max` that a text stands for.
pub fn parse_up_to(s: &str, max: u64) -> (r: Option<u64>)
    ensures
        match r {
            Some(n) => parse_unsigned(s@, max as nat) == Some(n as nat),
            None => parse_unsigned(s@, max as nat) is None,
        },
{
    let v = chars_of(s);
    let start: usize = if v.len() > 0 && v[0] == '+' {
        1
    } else {
        0
    };
    let ghost body = unsigned_part(s@);
    proof {
        assert(body =~= v@.skip(start as int));
    }
    if start == v.len() {
        return None;
    }
    let mut total: u64 = 0;
    let mut i: usize = start;
    while i < v.len()
        invariant
            start <= i <= v@.len(),
            body == v@.skip(start as int),
            v@ == s@,
            body == unsigned_part(s@),
            body.len() > 0,
            all_digits(body.take(i - start)),
            total == digits_value(body.take(i - start)),
            total <= max,
        decreases v@.len() - i,
    {
        let c = v[i];
        proof {
            assert(body[i - start] == c);
            assert(body.take(i - start + 1).drop_last() =~= body.take(i - start));
            assert(body.take(i - start + 1).last() == c);
        }
        if !is_digit(c) {
            return None;
        }
        let d: u64 = (c as u32 - '0' as u32) as u64;
        let ghost upto = body.take(i - start + 1);
        proof {
            assert forall|k: int| 0 <= k < upto.len() implies digit(#[trigger] upto[k]) by {
                if k < i - start {
                    assert(upto[k] == body.take(i - start)[k]);
                }
            }
        }
        if d > max || total > (max - d) / 10 {
            proof {
                if all_digits(body) {
                    lemma_prefix_value(body, i - start + 1);
                }
            }
            return None;
        }
        total = total * 10 + d;
        i += 1;
    }
    proof {
        assert(body.take(v@.len() - start) =~= body);
    }
    Some(total)
}

/// The number that fits `usize` that a text stands for.
pub fn parse_usize(s: &str) -> (r: Option<usize>)
    ensures
        match r {
            Some(n) => parse_unsigned(s@, usize::MAX as nat) == Some(n as nat),
            None => parse_unsigned(s@, usize::MAX as nat) is None,
        },
{
    match parse_up_to(s, usize::MAX as u64) {
        Some(n) => Some(n as usize),
        None => None,
    }
}

proof fn lemma_decimal_digits(n: nat)
    ensures
        decimal_of(n).len() > 0,
        all_digits(decimal_of(n)),
        digits_value(decimal_of(n)) == n,
    decreases n,
{
    if n < 10 {
        assert(decimal_of(n).drop_last() =~= Seq::<char>::empty());
        assert(digits_value(Seq::<char>::empty()) == 0);
        assert(digit_value(digit_char(n as int)) == n);
    } else {
        assert(digit_value(digit_char((n % 10) as int)) == n % 10);
        lemma_decimal_digits(n / 10);
        assert(decimal_of(n).drop_last() =~= decimal_of(n / 10));
        assert forall|i: int| 0 <= i < decimal_of(n).len() implies digit(
            #[trigger] decimal_of(n)[i],
        ) by {
            if i < decimal_of(n / 10).len() {
                assert(decimal_of(n)[i] == decimal_of(n / 10)[i]);
            }
        }
    }
}

/// A number written in decimal is read back as itself.
pub proof fn law_decimal_is_read_back(n: nat, max: nat)
    requires
        n <= max,
    ensures
        parse_unsigned(decimal_of(n), max) == Some(n),
{
    lemma_decimal_digits(n);
    assert(digit(decimal_of(n)[0]));
    assert(unsigned_part(decimal_of(n)) == decimal_of(n));
}

/// Different numbers are written differently.
pub proof fn law_decimal_tells_numbers_apart(a: nat, b: nat)
    requires
        decimal_of(a) == decimal_of(b),
    ensures
        a == b,
{
    lemma_decimal_digits(a);
    lemma_decimal_digits(b);
}

// ---------------------------------------------------------------------------
// What holds of it
// ---------------------------------------------------------------------------

/// A number is written in decimal digits, without a zero in front of others.
pub proof fn law_decimal_digits(n: nat)
    ensures
        decimal_of(n).len() > 0,
        forall|i: int| 0 <= i < decimal_of(n).len() ==> '0' <= #[trigger] decimal_of(n)[i] <= '9',
        forall|i: int| 0 <= i < decimal_of(n).len() ==> digit(#[trigger] decimal_of(n)[i]),
        n > 0 ==> decimal_of(n)[0] != '0',
    decreases n,
{
    if n >= 10 {
        law_decimal_digits(n / 10);
        let head = decimal_of(n / 10);
        assert(decimal_of(n)[0] == head[0]);
        assert forall|i: int| 0 <= i < decimal_of(n).len() implies '0' <= #[trigger] decimal_of(
            n,
        )[i] <= '9' by {
            if i < head.len() {
                assert(decimal_of(n)[i] == head[i]);
            }
        }
    }
}

/// The digits of a text make its value, each ten times what it is worth one place later;
/// a sign in front changes nothing, and nothing but digits is read.
pub proof fn law_numbers_are_read(head: Seq<char>, d: char, max: nat)
    ensures
        '0' <= d <= '9' ==> digits_value(head.push(d)) == 10 * digits_value(head) + (d as u32
            - '0' as u32) || !all_digits(head),
        parse_unsigned(Seq::empty(), max) is None,
        parse_unsigned(head, max) matches Some(n) ==> n <= max,
        !('0' <= d <= '9') ==> parse_unsigned(head.push(d), max) is None || head.len() == 0,
        head.len() > 0 && head[0] != '+' ==> parse_unsigned(seq!['+'] + head, max)
            == parse_unsigned(head, max),
        parse_unsigned(seq!['-'] + head, max) is None,
{
    assert(head.push(d).drop_last() =~= head);
    if all_digits(head) && '0' <= d <= '9' {
        lemma_value_not_negative(head);
    }
    if !('0' <= d <= '9') && head.len() > 0 {
        let all = head.push(d);
        let body = unsigned_part(all);
        assert(body[body.len() - 1] == d);
        assert(!digit(body[body.len() - 1]));
    }
    assert((seq!['+'] + head).skip(1) =~= head);
    let minus = seq!['-'] + head;
    assert(minus[0] == '-');
    assert(!digit(minus[0]));
}

proof fn lemma_value_not_negative(s: Seq<char>)
    requires
        all_digits(s),
    ensures
        s.len() > 0 ==> digits_value(s) == 10 * digits_value(s.drop_last()) + digit_value(s.last()),
{
    if s.len() > 0 {
        assert(digit(s[s.len() - 1]));
    }
}

} // verus!
