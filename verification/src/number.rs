//! Numbers in decimal.
use vstd::prelude::*;
use vstd::string::*;

use crate::text::chars_of;

verus! {

/// The character of a decimal digit.
pub open spec fn digit(d: int) -> char {
    if d == 0 {
        '0'
    } else if d == 1 {
        '1'
    } else if d == 2 {
        '2'
    } else if d == 3 {
        '3'
    } else if d == 4 {
        '4'
    } else if d == 5 {
        '5'
    } else if d == 6 {
        '6'
    } else if d == 7 {
        '7'
    } else if d == 8 {
        '8'
    } else {
        '9'
    }
}

/// A number in decimal, without leading zeros.
pub open spec fn digits(n: nat) -> Seq<char>
    decreases n,
{
    if n < 10 {
        seq![digit(n as int)]
    } else {
        digits(n / 10).push(digit((n % 10) as int))
    }
}

fn digit_char(d: u64) -> (r: char)
    requires
        d < 10,
    ensures
        r == digit(d as int),
{
    if d == 0 {
        '0'
    } else if d == 1 {
        '1'
    } else if d == 2 {
        '2'
    } else if d == 3 {
        '3'
    } else if d == 4 {
        '4'
    } else if d == 5 {
        '5'
    } else if d == 6 {
        '6'
    } else if d == 7 {
        '7'
    } else if d == 8 {
        '8'
    } else {
        '9'
    }
}

/// A number in decimal.
pub fn decimal(n: u64) -> (r: String)
    ensures
        r@ == digits(n as nat),
    decreases n,
{
    if n < 10 {
        let mut out = String::new();
        out.push(digit_char(n));
        assert(out@ =~= seq![digit(n as int)]);
        out
    } else {
        let mut out = decimal(n / 10);
        out.push(digit_char(n % 10));
        out
    }
}

/// The value of a decimal digit.
pub open spec fn digit_value(c: char) -> Option<int> {
    if '0' <= c <= '9' {
        Some(c as int - '0' as int)
    } else {
        None
    }
}

/// The number that decimal digits, and nothing else, stand for.
pub open spec fn digits_value(s: Seq<char>) -> Option<nat>
    decreases s.len(),
{
    if s.len() == 0 {
        Some(0)
    } else {
        match (digits_value(s.drop_last()), digit_value(s.last())) {
            (Some(n), Some(d)) => Some((10 * n + d) as nat),
            _ => None,
        }
    }
}

/// The number that a text stands for: decimal digits, at least one, and a plus sign before them if
/// need be.
pub open spec fn number_of(s: Seq<char>) -> Option<nat> {
    let d = if s.len() > 0 && s[0] == '+' {
        s.skip(1)
    } else {
        s
    };
    if d.len() == 0 {
        None
    } else {
        digits_value(d)
    }
}

/// Reads a port number. What is no number, or too large for a port, is none.
pub fn parse_port(s: &str) -> (r: Option<u16>)
    ensures
        match number_of(s@) {
            Some(n) => if n <= 65535 {
                r == Some(n as u16)
            } else {
                r is None
            },
            None => r is None,
        },
{
    let x = chars_of(s);
    let start: usize = if x.len() > 0 && x[0] == '+' {
        1
    } else {
        0
    };
    let ghost d = x@.skip(start as int);
    proof {
        if start == 0 {
            assert(d =~= x@);
        }
    }
    if start == x.len() {
        return None;
    }
    let mut n: u32 = 0;
    let mut i: usize = start;
    assert(d.take(0) =~= Seq::<char>::empty());
    while i < x.len()
        invariant
            start <= i <= x@.len(),
            d == x@.skip(start as int),
            number_of(s@) == digits_value(d),
            n <= 65535,
            digits_value(d.take(i - start)) == Some(n as nat),
        decreases x@.len() - i,
    {
        let c = x[i];
        assert(d.take(i + 1 - start).drop_last() =~= d.take(i - start));
        assert(d.take(i + 1 - start).last() == c);
        if !('0' <= c && c <= '9') {
            proof {
                not_a_number(d, i + 1 - start);
            }
            return None;
        }
        let v: u32 = c as u32 - '0' as u32;
        n = 10 * n + v;
        if n > 65535 {
            proof {
                only_grows(d, i + 1 - start);
            }
            return None;
        }
        i += 1;
    }
    assert(d.take(i - start) =~= d);
    Some(n as u16)
}

proof fn not_a_number(d: Seq<char>, k: int)
    requires
        0 <= k <= d.len(),
        digits_value(d.take(k)) is None,
    ensures
        digits_value(d) is None,
    decreases d.len() - k,
{
    if k < d.len() {
        assert(d.take(k + 1).drop_last() =~= d.take(k));
        not_a_number(d, k + 1);
    } else {
        assert(d.take(k) =~= d);
    }
}

proof fn only_grows(d: Seq<char>, k: int)
    requires
        0 <= k <= d.len(),
        digits_value(d.take(k)) is Some,
    ensures
        match digits_value(d) {
            Some(n) => n >= digits_value(d.take(k))->0,
            None => true,
        },
    decreases d.len() - k,
{
    if k < d.len() {
        assert(d.take(k + 1).drop_last() =~= d.take(k));
        if digits_value(d.take(k + 1)) is Some {
            only_grows(d, k + 1);
        } else {
            not_a_number(d, k + 1);
        }
    } else {
        assert(d.take(k) =~= d);
    }
}

proof fn one_more(s: Seq<char>, c: char)
    ensures
        digits_value(s.push(c)) == match (digits_value(s), digit_value(c)) {
            (Some(n), Some(d)) => Some((10 * n + d) as nat),
            _ => None,
        },
{
    assert(s.push(c).drop_last() =~= s);
}

/// A number written in decimal reads back as itself.
pub proof fn digits_read_back(n: nat)
    ensures
        digits_value(digits(n)) == Some(n),
        digits(n).len() > 0,
    decreases n,
{
    if n < 10 {
        one_more(seq![], digit(n as int));
        assert(Seq::<char>::empty().push(digit(n as int)) =~= digits(n));
    } else {
        digits_read_back(n / 10);
        one_more(digits(n / 10), digit((n % 10) as int));
    }
}

/// How a number is written: the decimal digits of its tenth, without those of zero, and the digit that is
/// left, as the character of that digit.
pub proof fn how_a_number_is_written(n: nat, d: nat)
    requires
        d < 10,
    ensures
        digits(d).len() == 1,
        digits(d)[0] as u32 == 48 + d,
        n > 0 ==> digits(10 * n + d) == digits(n) + digits(d),
        n > 0 ==> digits(n)[0] != '0',
        forall|i: int| 0 <= i < digits(n).len() ==> '0' <= #[trigger] digits(n)[i] <= '9',
    decreases n,
{
    if n > 0 {
        assert((10 * n + d) / 10 == n);
        assert((10 * n + d) % 10 == d);
        assert(digits(n) + digits(d) =~= digits(n).push(digit(d as int)));
    }
    if n >= 10 {
        how_a_number_is_written(n / 10, d);
        assert(digits(n)[0] == digits(n / 10)[0]) by {
            digits_read_back(n / 10);
        }
        assert forall|i: int| 0 <= i < digits(n).len() implies '0' <= #[trigger] digits(n)[i] <= '9' by {
            if i < digits(n / 10).len() {
                assert(digits(n)[i] == digits(n / 10)[i]);
            }
        }
    }
}

/// How a number is read: one digit more is ten times what was there, and the digit; a text with anything
/// else in it, or with no digit at all, is no number, except for one plus sign in front.
pub proof fn how_a_number_is_read(s: Seq<char>, c: char)
    ensures
        digits_value(Seq::<char>::empty()) == Some(0nat),
        '0' <= c <= '9' ==> match digits_value(s) {
            Some(n) => digits_value(s.push(c)) == Some((10 * n + (c as u32 - 48)) as nat),
            None => digits_value(s.push(c)) is None,
        },
        !('0' <= c <= '9') ==> digits_value(s.push(c)) is None,
        number_of(Seq::<char>::empty()) is None,
        number_of(seq!['+']) is None,
        s.len() > 0 ==> number_of(seq!['+'] + s) == digits_value(s),
        s.len() > 0 && s[0] != '+' ==> number_of(s) == digits_value(s),
{
    one_more(s, c);
    assert((seq!['+'] + s).skip(1) =~= s);
}

} // verus!
