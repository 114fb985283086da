//! Decimal and hexadecimal renderings of numbers, as `format!` gives them.
use vstd::prelude::*;

verus! {

/// The digit character for `d` in base 16 (`d < 16`), lower or upper case.
pub open spec fn digit_char(d: nat, upper: bool) -> char {
    if d < 10 {
        ((48 + d) as u32) as char
    } else if upper {
        ((55 + d) as u32) as char
    } else {
        ((87 + d) as u32) as char
    }
}

/// The digits of `n` in base `radix` (10 or 16), most significant first, without leading zeros
/// (`0` is one digit).
pub open spec fn radix_digits(n: nat, radix: nat, upper: bool) -> Seq<char>
    decreases n,
{
    if radix < 2 || n < radix {
        seq![digit_char(n, upper)]
    } else {
        proof {
            assert(n / radix < n) by (nonlinear_arith)
                requires
                    radix >= 2,
                    n >= radix,
            ;
        }
        radix_digits(n / radix, radix, upper) + seq![digit_char(n % radix, upper)]
    }
}

/// `n` in decimal, as `{}` renders it.
pub open spec fn decimal(n: nat) -> Seq<char> {
    radix_digits(n, 10, false)
}

/// `n` in lower-case hexadecimal, as `{:x}` renders it.
pub open spec fn hex_lower(n: nat) -> Seq<char> {
    radix_digits(n, 16, false)
}

/// `n` in upper-case hexadecimal, as `{:X}` renders it.
pub open spec fn hex_upper(n: nat) -> Seq<char> {
    radix_digits(n, 16, true)
}

/// The one-character text of digit `d`.
fn digit_str(d: u64, upper: bool) -> (r: &'static str)
    requires
        d < 16,
    ensures
        r@ == seq![digit_char(d as nat, upper)],
{
    let lower = "0123456789abcdef";
    let upper_digits = "0123456789ABCDEF";
    proof {
        reveal_strlit("0123456789abcdef");
        reveal_strlit("0123456789ABCDEF");
    }
    let s = if upper { upper_digits } else { lower };
    let r = s.substring_char(d as usize, d as usize + 1);
    proof {
        assert(r@ =~= seq![s@[d as int]]);
    }
    r
}

/// Appends `n` in base `radix` (10 or 16) to `out`.
pub fn push_radix(out: &mut String, n: u64, radix: u64, upper: bool)
    requires
        radix == 10 || radix == 16,
    ensures
        final(out)@ == old(out)@ + radix_digits(n as nat, radix as nat, upper),
    decreases n,
{
    if n < radix {
        out.append(digit_str(n, upper));
    } else {
        push_radix(out, n / radix, radix, upper);
        out.append(digit_str(n % radix, upper));
    }
}

/// `n` in decimal.
pub fn decimal_string(n: u64) -> (r: String)
    ensures
        r@ == decimal(n as nat),
{
    let mut s = String::new();
    push_radix(&mut s, n, 10, false);
    s
}

} // verus!
