//! Decimal integers: `str::parse` for unsigned integers and `to_string`.
use vstd::prelude::*;

verus! {

/// Why a string is not an unsigned integer (the kinds of `std::num::IntErrorKind`).
#[derive(Clone, Copy, Debug, PartialEq, Eq)]
pub enum IntErrorKind {
    Empty,
    InvalidDigit,
    PosOverflow,
}

pub open spec fn is_digit(c: char) -> bool {
    '0' <= c && c <= '9'
}

pub open spec fn digit_value(c: char) -> nat {
    (c as int - '0' as int) as nat
}

pub open spec fn digit_char(d: nat) -> char {
    (d + '0' as int) as char
}

/// Reads the digits of `s` from left to right; the first failure wins.
pub open spec fn parse_digits(s: Seq<char>, max: nat) -> Result<nat, IntErrorKind>
    decreases s.len(),
{
    if s.len() == 0 {
        Ok(0)
    } else {
        match parse_digits(s.drop_last(), max) {
            Err(e) => Err(e),
            Ok(v) => if !is_digit(s.last()) {
                Err(IntErrorKind::InvalidDigit)
            } else if v * 10 + digit_value(s.last()) > max {
                Err(IntErrorKind::PosOverflow)
            } else {
                Ok(v * 10 + digit_value(s.last()))
            },
        }
    }
}

/// What `str::parse` gives for an unsigned integer type whose largest value is `max`:
/// an optional `+`, then one or more ASCII digits.
pub open spec fn parse_unsigned(s: Seq<char>, max: nat) -> Result<nat, IntErrorKind> {
    if s.len() == 0 {
        Err(IntErrorKind::Empty)
    } else if s.len() == 1 && (s[0] == '+' || s[0] == '-') {
        Err(IntErrorKind::InvalidDigit)
    } else if s[0] == '+' {
        parse_digits(s.drop_first(), max)
    } else {
        parse_digits(s, max)
    }
}

/// The decimal digits of `n`, without leading zeros (`u64::to_string`).
pub open spec fn dec_string(n: nat) -> Seq<char>
    decreases n,
{
    if n < 10 {
        seq![digit_char(n)]
    } else {
        dec_string(n / 10).push(digit_char(n % 10))
    }
}

proof fn lemma_parse_digits_bounded(s: Seq<char>, max: nat)
    ensures
        parse_digits(s, max) matches Ok(v) ==> v <= max,
    decreases s.len(),
{
    if s.len() > 0 {
        lemma_parse_digits_bounded(s.drop_last(), max);
    }
}

/// Parses `v[lo..hi]` as an unsigned integer no larger than `max`.
pub fn parse_unsigned_chars(v: &Vec<char>, lo: usize, hi: usize, max: u64) -> (r: Result<
    u64,
    IntErrorKind,
>)
    requires
        lo <= hi <= v.len(),
    ensures
        match (r, parse_unsigned(v@.subrange(lo as int, hi as int), max as nat)) {
            (Ok(x), Ok(y)) => x == y,
            (Err(e), Err(f)) => e == f,
            _ => false,
        },
{
    let ghost s = v@.subrange(lo as int, hi as int);
    if lo == hi {
        return Err(IntErrorKind::Empty);
    }
    if hi - lo == 1 && (v[lo] == '+' || v[lo] == '-') {
        return Err(IntErrorKind::InvalidDigit);
    }
    let start = if v[lo] == '+' {
        lo + 1
    } else {
        lo
    };
    let ghost body = v@.subrange(start as int, hi as int);
    assert(v[lo as int] == '+' ==> body == s.drop_first());
    assert(v[lo as int] != '+' ==> body == s);
    assert(parse_unsigned(s, max as nat) == parse_digits(body, max as nat));
    let mut acc: u64 = 0;
    let mut i = start;
    while i < hi
        invariant
            start <= i <= hi <= v.len(),
            body == v@.subrange(start as int, hi as int),
            s == v@.subrange(lo as int, hi as int),
            parse_unsigned(s, max as nat) == parse_digits(body, max as nat),
            parse_digits(v@.subrange(start as int, i as int), max as nat) == Ok::<
                nat,
                IntErrorKind,
            >(acc as nat),
        decreases hi - i,
    {
        let c = v[i];
        let ghost pre = v@.subrange(start as int, i as int);
        let ghost next = v@.subrange(start as int, i + 1);
        assert(next.drop_last() == pre);
        assert(next.last() == c);
        assert(body.take((i + 1 - start) as int) == next);
        if !('0' <= c && c <= '9') {
            proof {
                lemma_parse_digits_prefix_err(body, (i - start) as nat, max as nat);
            }
            return Err(IntErrorKind::InvalidDigit);
        }
        let d: u64 = (c as u32 - '0' as u32) as u64;
        assert(d == digit_value(c));
        if d > max || acc > (max - d) / 10 {
            assert(acc * 10 + d > max) by (nonlinear_arith)
                requires
                    d > max || acc > (max - d) / 10,
            ;
            proof {
                lemma_parse_digits_prefix_err(body, (i - start) as nat, max as nat);
            }
            return Err(IntErrorKind::PosOverflow);
        }
        assert(acc * 10 + d <= max) by (nonlinear_arith)
            requires
                d <= max,
                acc <= (max - d) / 10,
        ;
        acc = acc * 10 + d;
        i = i + 1;
    }
    Ok(acc)
}

/// Once a prefix of the digits fails, the whole string fails the same way.
proof fn lemma_parse_digits_prefix_err(s: Seq<char>, k: nat, max: nat)
    requires
        k < s.len(),
        parse_digits(s.take((k + 1) as int), max) is Err,
    ensures
        parse_digits(s, max) == parse_digits(s.take((k + 1) as int), max),
    decreases s.len(),
{
    if k + 1 == s.len() {
        assert(s.take((k + 1) as int) == s);
    } else {
        assert(s.drop_last().take((k + 1) as int) == s.take((k + 1) as int));
        lemma_parse_digits_prefix_err(s.drop_last(), k, max);
    }
}

/// Appends the decimal digits of `n` to `out`.
pub fn push_decimal(out: &mut Vec<char>, n: u64)
    ensures
        final(out)@ == old(out)@ + dec_string(n as nat),
    decreases n,
{
    if n >= 10 {
        push_decimal(out, n / 10);
    }
    let d: u8 = (n % 10) as u8;
    let c: char = (d + 48u8) as char;
    assert(c == digit_char((n % 10) as nat));
    out.push(c);
    proof {
        if n >= 10 {
            assert(dec_string(n as nat) == dec_string((n / 10) as nat).push(
                digit_char((n % 10) as nat),
            ));
        }
    }
}

/// The decimal digits of `n`.
pub fn decimal_chars(n: u64) -> (out: Vec<char>)
    ensures
        out@ == dec_string(n as nat),
{
    let mut out: Vec<char> = Vec::new();
    push_decimal(&mut out, n);
    assert(out@ == Seq::<char>::empty() + dec_string(n as nat));
    out
}

} // verus!

verus! {

pub proof fn lemma_parse_unsigned_bounded(s: Seq<char>, max: nat)
    ensures
        parse_unsigned(s, max) matches Ok(v) ==> v <= max,
{
    if s.len() > 0 {
        lemma_parse_digits_bounded(s, max);
        lemma_parse_digits_bounded(s.drop_first(), max);
    }
}

} // verus!

verus! {

/// Every character of a decimal numeral is an ASCII digit, and there is at least one.
pub proof fn lemma_dec_string_digits(n: nat)
    ensures
        dec_string(n).len() >= 1,
        forall|i: int| 0 <= i < dec_string(n).len() ==> is_digit(#[trigger] dec_string(n)[i]),
    decreases n,
{
    if n >= 10 {
        lemma_dec_string_digits(n / 10);
        let s = dec_string(n);
        assert forall|i: int| 0 <= i < s.len() implies is_digit(#[trigger] s[i]) by {
            if i < s.len() - 1 {
                assert(s[i] == dec_string(n / 10)[i]);
            }
        }
    }
}

proof fn lemma_parse_digits_dec_string(n: nat, max: nat)
    requires
        n <= max,
    ensures
        parse_digits(dec_string(n), max) == Ok::<nat, IntErrorKind>(n),
    decreases n,
{
    lemma_dec_string_digits(n);
    let s = dec_string(n);
    assert(is_digit(s[s.len() - 1]));
    assert(s.last() == s[s.len() - 1]);
    if n < 10 {
        assert(s.drop_last() == Seq::<char>::empty());
        assert(parse_digits(Seq::<char>::empty(), max) == Ok::<nat, IntErrorKind>(0));
        assert(s.last() == digit_char(n));
        assert(digit_value(digit_char(n)) == n);
        assert(0 * 10 + digit_value(s.last()) == n);
    } else {
        assert(n / 10 * 10 + n % 10 == n) by (nonlinear_arith);
        assert(n / 10 <= n) by (nonlinear_arith);
        lemma_parse_digits_dec_string(n / 10, max);
        assert(dec_string(n).drop_last() == dec_string(n / 10));
        assert(n % 10 < 10);
        assert(digit_value(digit_char(n % 10)) == n % 10);
        assert(s.last() == digit_char(n % 10));
        assert((n / 10) * 10 + digit_value(s.last()) == n);
    }
}

/// Reading a decimal numeral gives back its number, whenever the number fits.
pub proof fn lemma_parse_dec_string(n: nat, max: nat)
    requires
        n <= max,
    ensures
        parse_unsigned(dec_string(n), max) == Ok::<nat, IntErrorKind>(n),
{
    lemma_dec_string_digits(n);
    lemma_parse_digits_dec_string(n, max);
    assert(is_digit(dec_string(n)[0]));
}

} // verus!
