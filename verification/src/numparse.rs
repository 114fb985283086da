//! Number literals as the tools accept them: decimal, or hexadecimal behind `0x`, `0X` or `$`.
use vstd::prelude::*;
use crate::text::{chars_of, trim, trim_bounds};

verus! {

/// The value of digit `c` in base `radix` (10 or 16), if `c` is one.
pub open spec fn digit_value(c: char, radix: nat) -> Option<nat> {
    if '0' <= c && c <= '9' {
        Some((c as nat - '0' as nat) as nat)
    } else if radix == 16 && 'a' <= c && c <= 'f' {
        Some((c as nat - 'a' as nat + 10) as nat)
    } else if radix == 16 && 'A' <= c && c <= 'F' {
        Some((c as nat - 'A' as nat + 10) as nat)
    } else {
        None
    }
}

/// Reads the digits of `d` in base `radix`, skipping `_` separators.
/// Gives whether every other character is a digit, how many digits there are, and their value.
pub open spec fn digits(d: Seq<char>, radix: nat) -> (bool, nat, nat)
    decreases d.len(),
{
    if d.len() == 0 {
        (true, 0, 0)
    } else {
        let (ok, n, v) = digits(d.drop_last(), radix);
        let c = d.last();
        if c == '_' {
            (ok, n, v)
        } else {
            match digit_value(c, radix) {
                Some(x) => (ok, n + 1, v * radix + x),
                None => (false, n, v),
            }
        }
    }
}

/// The number that the digits `d` spell in base `radix`, if it is one and fits in a `u64`.
pub open spec fn digits_number(d: Seq<char>, radix: nat) -> Option<u64> {
    let (ok, n, v) = digits(d, radix);
    if ok && n > 0 && v <= u64::MAX {
        Some(v as u64)
    } else {
        None
    }
}

/// `t` without one pair of surrounding double quotes.
pub open spec fn strip_quotes(t: Seq<char>) -> Seq<char> {
    if t.len() >= 2 && t[0] == '"' && t.last() == '"' {
        t.subrange(1, t.len() - 1)
    } else {
        t
    }
}

/// `t` without one leading `+`.
pub open spec fn strip_plus(t: Seq<char>) -> Seq<char> {
    if t.len() >= 1 && t[0] == '+' {
        t.drop_first()
    } else {
        t
    }
}

/// The number that the literal `s` denotes: surrounding whitespace and one pair of double quotes
/// are ignored, then an optional `+`; `0x`, `0X` or `$` selects hexadecimal, else decimal;
/// `_` may separate digits.
pub open spec fn number_literal(s: Seq<char>) -> Option<u64> {
    let t = strip_plus(strip_quotes(trim(s)));
    if t.len() >= 2 && t[0] == '0' && (t[1] == 'x' || t[1] == 'X') {
        digits_number(t.skip(2), 16)
    } else if t.len() >= 1 && t[0] == '$' {
        digits_number(t.skip(1), 16)
    } else {
        digits_number(t, 10)
    }
}

fn digit_of(c: char, radix: u64) -> (r: Option<u64>)
    requires
        radix == 10 || radix == 16,
    ensures
        match digit_value(c, radix as nat) {
            Some(x) => r == Some(x as u64),
            None => r is None,
        },
{
    if '0' <= c && c <= '9' {
        Some((c as u32 - '0' as u32) as u64)
    } else if radix == 16 && 'a' <= c && c <= 'f' {
        Some((c as u32 - 'a' as u32 + 10) as u64)
    } else if radix == 16 && 'A' <= c && c <= 'F' {
        Some((c as u32 - 'A' as u32 + 10) as u64)
    } else {
        None
    }
}

proof fn lemma_digits_grow(d: Seq<char>, radix: nat, i: int)
    requires
        0 <= i <= d.len(),
        radix >= 1,
    ensures
        digits(d, radix).2 >= digits(d.take(i), radix).2,
        digits(d, radix).0 ==> digits(d.take(i), radix).0,
    decreases d.len() - i,
{
    if i < d.len() {
        lemma_digits_grow(d.drop_last(), radix, i);
        assert(d.drop_last().take(i) =~= d.take(i));
        let (ok, n, v) = digits(d.drop_last(), radix);
        assert(v * radix >= v) by (nonlinear_arith)
            requires
                radix >= 1,
                v >= 0,
        ;
    } else {
        assert(d.take(i) =~= d);
    }
}

/// Reads digits `v[from..to]` in base `radix`.
fn read_digits(v: &Vec<char>, from: usize, to: usize, radix: u64) -> (r: Option<u64>)
    requires
        from <= to <= v.len(),
        radix == 10 || radix == 16,
    ensures
        r == digits_number(v@.subrange(from as int, to as int), radix as nat),
{
    let ghost d = v@.subrange(from as int, to as int);
    let mut val: u64 = 0;
    let mut count: u64 = 0;
    let mut i = from;
    while i < to
        invariant
            from <= i <= to <= v.len(),
            radix == 10 || radix == 16,
            d == v@.subrange(from as int, to as int),
            digits(d.take(i - from), radix as nat) == (true, count as nat, val as nat),
            count <= i - from,
        decreases to - i,
    {
        let c = v[i];
        proof {
            assert(d.take(i - from + 1).drop_last() =~= d.take(i - from));
            assert(d.take(i - from + 1).last() == c);
        }
        if c != '_' {
            match digit_of(c, radix) {
                Some(x) => {
                    let m = val.checked_mul(radix);
                    let s = match m {
                        Some(m) => m.checked_add(x),
                        None => None,
                    };
                    match s {
                        Some(s) => {
                            val = s;
                            count = count + 1;
                        },
                        None => {
                            proof {
                                lemma_digits_grow(d, radix as nat, i - from + 1);
                            }
                            return None;
                        },
                    }
                },
                None => {
                    proof {
                        lemma_digits_grow(d, radix as nat, i - from + 1);
                    }
                    return None;
                },
            }
        }
        i = i + 1;
    }
    proof {
        assert(d.take(to - from) =~= d);
    }
    if count > 0 {
        Some(val)
    } else {
        None
    }
}

/// The bounds of `strip_plus(strip_quotes(trim(v@)))` inside `v`.
fn literal_bounds(v: &Vec<char>) -> (r: (usize, usize))
    ensures
        r.0 <= r.1 <= v.len(),
        v@.subrange(r.0 as int, r.1 as int) == strip_plus(strip_quotes(trim(v@))),
{
    let (mut lo, mut hi) = trim_bounds(v);
    let ghost t0 = v@.subrange(lo as int, hi as int);
    if hi - lo >= 2 && v[lo] == '"' && v[hi - 1] == '"' {
        lo = lo + 1;
        hi = hi - 1;
    }
    proof {
        assert(v@.subrange(lo as int, hi as int) =~= strip_quotes(t0));
    }
    let ghost t1 = v@.subrange(lo as int, hi as int);
    if hi - lo >= 1 && v[lo] == '+' {
        lo = lo + 1;
    }
    proof {
        assert(v@.subrange(lo as int, hi as int) =~= strip_plus(t1));
    }
    (lo, hi)
}

/// The number that `v` spells, as [`number_literal`] reads it.
fn literal_value(v: &Vec<char>) -> (r: Option<u64>)
    ensures
        r == number_literal(v@),
{
    let (lo, hi) = literal_bounds(v);
    let ghost t = v@.subrange(lo as int, hi as int);
    if hi - lo >= 2 && v[lo] == '0' && (v[lo + 1] == 'x' || v[lo + 1] == 'X') {
        proof {
            assert(v@.subrange(lo + 2, hi as int) =~= t.skip(2));
        }
        read_digits(v, lo + 2, hi, 16)
    } else if hi - lo >= 1 && v[lo] == '$' {
        proof {
            assert(v@.subrange(lo + 1, hi as int) =~= t.skip(1));
        }
        read_digits(v, lo + 1, hi, 16)
    } else {
        read_digits(v, lo, hi, 10)
    }
}

/// Parses a number literal (see [`number_literal`]); fails on anything else, on a literal
/// without digits, and on a value beyond `u64::MAX`.
pub fn parse_num_str(s: &str) -> (r: Result<u64, String>)
    ensures
        match number_literal(s@) {
            Some(n) => r == Ok::<u64, String>(n),
            None => r matches Err(m) && m@ == "invalid number: "@ + s@,
        },
{
    let v = chars_of(s);
    match literal_value(&v) {
        Some(n) => Ok(n),
        None => {
            let mut msg = String::from_str("invalid number: ");
            msg.append(s);
            Err(msg)
        },
    }
}

/// Parses decimal digits (with `_` separators) and nothing else.
pub fn parse_decimal(s: &str) -> (r: Result<u64, String>)
    ensures
        match digits_number(s@, 10) {
            Some(n) => r == Ok::<u64, String>(n),
            None => r matches Err(m) && m@ == "invalid decimal number: "@ + s@,
        },
{
    let v = chars_of(s);
    proof {
        assert(v@.subrange(0, v.len() as int) =~= v@);
    }
    match read_digits(&v, 0, v.len(), 10) {
        Some(n) => Ok(n),
        None => {
            let mut msg = String::from_str("invalid decimal number: ");
            msg.append(s);
            Err(msg)
        },
    }
}

} // verus!
