//! Decimal rendering and parsing of port numbers, and hex rendering of
//! timestamps.

use vstd::prelude::*;
use crate::fingerprint::hex_digit;

verus! {

/// Whether `c` is an ASCII decimal digit.
pub open spec fn is_digit(c: char) -> bool {
    '0' <= c && c <= '9'
}

/// The value of an ASCII decimal digit.
pub open spec fn digit_value(c: char) -> int {
    c as int - '0' as int
}

/// The character of a decimal digit below 10.
pub open spec fn digit_char(v: int) -> char {
    ((v + 48) as u8) as char
}

/// Whether every character of `s` is a decimal digit.
pub open spec fn all_digits(s: Seq<char>) -> bool {
    forall|i: int| 0 <= i < s.len() ==> is_digit(#[trigger] s[i])
}

/// The number written by a string of decimal digits, most significant first.
pub open spec fn decimal_value(s: Seq<char>) -> nat
    decreases s.len(),
{
    if s.len() == 0 {
        0
    } else {
        (decimal_value(s.drop_last()) * 10 + digit_value(s.last())) as nat
    }
}

/// The digits of `s` once an optional leading `+` is removed.
pub open spec fn unsigned_digits(s: Seq<char>) -> Seq<char> {
    if s.len() > 0 && s[0] == '+' {
        s.drop_first()
    } else {
        s
    }
}

/// What `u16::from_str` accepts: an optional `+` followed by at least one
/// decimal digit and nothing else, whose value fits in 16 bits.
pub open spec fn parse_u16_spec(s: Seq<char>) -> Option<u16> {
    let d = unsigned_digits(s);
    if d.len() > 0 && all_digits(d) && decimal_value(d) <= u16::MAX {
        Some(decimal_value(d) as u16)
    } else {
        None
    }
}

/// The shortest decimal rendering of `n` (`"0"` for zero).
pub open spec fn decimal_chars(n: nat) -> Seq<char>
    decreases n,
{
    if n < 10 {
        seq![digit_char(n as int)]
    } else {
        decimal_chars(n / 10).push(digit_char((n % 10) as int))
    }
}

/// Extending a string of digits never lowers the number it writes.
pub proof fn lemma_decimal_value_prefix(d: Seq<char>, k: int)
    requires
        0 <= k <= d.len(),
        all_digits(d),
    ensures
        decimal_value(d.subrange(0, k)) <= decimal_value(d),
    decreases d.len() - k,
{
    if k < d.len() {
        lemma_decimal_value_prefix(d, k + 1);
        let p = d.subrange(0, k + 1);
        assert(p.drop_last() =~= d.subrange(0, k));
        assert(is_digit(d[k]));
    } else {
        assert(d.subrange(0, k) =~= d);
    }
}

/// Parses a port number the way `u16::from_str` does.
pub fn parse_u16(s: &str) -> (res: Option<u16>)
    ensures
        res == parse_u16_spec(s@),
{
    let ghost start: int = if s@.len() > 0 && s@[0] == '+' { 1 } else { 0 };
    let ghost d = unsigned_digits(s@);
    assert(d =~= s@.subrange(start, s@.len() as int));
    let mut value: u32 = 0;
    let mut seen = false;
    let mut first = true;
    for c in it: s.chars()
        invariant
            first == (it.index() == 0),
            it.seq() == s@,
            start == (if s@.len() > 0 && s@[0] == '+' { 1int } else { 0int }),
            d == s@.subrange(start, s@.len() as int),
            d == unsigned_digits(s@),
            it.index() <= s@.len(),
            it.index() >= start ==> {
                let done = s@.subrange(start, it.index() as int);
                &&& all_digits(done)
                &&& value == decimal_value(done)
                &&& seen == (done.len() > 0)
            },
            it.index() < start ==> value == 0 && !seen,
            value <= u16::MAX,
    {
        let ghost i = it.index();
        if first && c == '+' {
            assert(start == 1);
        } else {
            assert(i >= start);
            let ghost done = s@.subrange(start, i as int);
            let ghost next = s@.subrange(start, i + 1);
            assert(next.drop_last() =~= done);
            assert(d[i - start] == c);
            if c < '0' || c > '9' {
                assert(!is_digit(d[i - start]));
                return None;
            }
            value = value * 10 + (c as u32 - '0' as u32);
            seen = true;
            assert(next.last() == c);
            assert(value == decimal_value(next));
            assert(all_digits(next));
            if value > 65535 {
                proof {
                    if all_digits(d) {
                        lemma_decimal_value_prefix(d, i + 1 - start);
                        assert(d.subrange(0, i + 1 - start) =~= next);
                    }
                }
                return None;
            }
        }
        first = false;
    }
    if !seen {
        assert(d.len() == 0);
        return None;
    }
    assert(s@.subrange(start, s@.len() as int) =~= d);
    Some(value as u16)
}

/// The shortest lowercase hex rendering of `n` (`"0"` for zero).
pub open spec fn hex_number_chars(n: nat) -> Seq<char>
    decreases n,
{
    if n < 16 {
        seq![hex_digit(n as int)]
    } else {
        hex_number_chars(n / 16).push(hex_digit((n % 16) as int))
    }
}

/// Appends one character to a string; calls `String::push`.
#[verifier::external_body]
pub(crate) fn string_push(s: &mut String, c: char)
    ensures
        final(s)@ == old(s)@.push(c),
{
    s.push(c);
}

fn push_decimal(s: &mut String, n: u64)
    ensures
        final(s)@ == old(s)@ + decimal_chars(n as nat),
    decreases n,
{
    if n >= 10 {
        push_decimal(s, n / 10);
    }
    let d = (n % 10) as u8;
    let c = (d + 48) as char;
    string_push(s, c);
    proof {
        if n >= 10 {
            assert(decimal_chars(n as nat) == decimal_chars((n / 10) as nat).push(c));
        }
    }
}

/// The decimal rendering of `n`, as `n.to_string()` writes it.
pub fn decimal_string(n: u64) -> (res: String)
    ensures
        res@ == decimal_chars(n as nat),
{
    let mut s = String::new();
    push_decimal(&mut s, n);
    assert(s@ =~= decimal_chars(n as nat));
    s
}

fn push_hex(s: &mut String, n: u128)
    ensures
        final(s)@ == old(s)@ + hex_number_chars(n as nat),
    decreases n,
{
    if n >= 16 {
        push_hex(s, n / 16);
    }
    let d = (n % 16) as u8;
    let c = if d < 10 { (d + 48) as char } else { (d + 87) as char };
    string_push(s, c);
    proof {
        if n >= 16 {
            assert(hex_number_chars(n as nat) == hex_number_chars((n / 16) as nat).push(c));
        }
    }
}

/// The lowercase hex rendering of `n`, as `format!("{:x}", n)` writes it.
pub fn hex_number_string(n: u128) -> (res: String)
    ensures
        res@ == hex_number_chars(n as nat),
{
    let mut s = String::new();
    push_hex(&mut s, n);
    assert(s@ =~= hex_number_chars(n as nat));
    s
}

/// The decimal rendering of a number is a string of digits that writes it
/// and does not start with a sign.
pub proof fn lemma_decimal_chars(n: nat)
    ensures
        decimal_chars(n).len() > 0,
        all_digits(decimal_chars(n)),
        decimal_value(decimal_chars(n)) == n,
        is_digit(decimal_chars(n)[0]),
    decreases n,
{
    if n >= 10 {
        lemma_decimal_chars(n / 10);
        let s = decimal_chars(n);
        assert(s.drop_last() =~= decimal_chars(n / 10));
        assert(s[0] == decimal_chars(n / 10)[0]);
        assert(s.last() == digit_char((n % 10) as int));
        assert(digit_value(digit_char((n % 10) as int)) == n % 10);
        assert(n == (n / 10) * 10 + n % 10);
        assert(decimal_value(s) == decimal_value(s.drop_last()) * 10 + digit_value(s.last()));
    } else {
        assert(digit_value(digit_char(n as int)) == n);
        assert(decimal_value(decimal_chars(n).drop_last()) == 0);
        assert(decimal_chars(n).drop_last() =~= Seq::<char>::empty());
    }
}

/// Parsing the decimal rendering of a port gives the port back.
pub proof fn lemma_parse_decimal_roundtrip(port: u16)
    ensures
        parse_u16_spec(decimal_chars(port as nat)) == Some(port),
{
    lemma_decimal_chars(port as nat);
}

} // verus!
