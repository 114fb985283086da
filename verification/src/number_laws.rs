//! How the renderings of numbers and the number parser fit together.
use vstd::prelude::*;
use crate::fmt::{decimal, digit_char, hex_lower, radix_digits};
use crate::numparse::{digit_value, digits, digits_number, number_literal, strip_plus, strip_quotes};
use crate::text::{is_ws, trim, trim_end, trim_start};

verus! {

proof fn lemma_digit_roundtrip(d: nat, radix: nat)
    requires
        radix == 10 || radix == 16,
        d < radix,
    ensures
        digit_value(digit_char(d, false), radix) == Some(d),
        !is_ws(digit_char(d, false)),
        digit_char(d, false) != '_',
        digit_char(d, false) != '"',
        digit_char(d, false) != '+',
        digit_char(d, false) != '$',
        digit_char(d, false) != 'x',
        digit_char(d, false) != 'X',
{
}

proof fn lemma_digits_of_rendering(n: nat, radix: nat)
    requires
        radix == 10 || radix == 16,
    ensures
        digits(radix_digits(n, radix, false), radix) == (true, radix_digits(n, radix, false).len(), n),
        radix_digits(n, radix, false).len() > 0,
        forall|i: int|
            0 <= i < radix_digits(n, radix, false).len() ==> {
                let c = #[trigger] radix_digits(n, radix, false)[i];
                &&& !is_ws(c)
                &&& c != '"' && c != '+' && c != '$' && c != 'x' && c != 'X'
            },
    decreases n,
{
    let s = radix_digits(n, radix, false);
    if n < radix {
        lemma_digit_roundtrip(n, radix);
        assert(s.drop_last() =~= Seq::<char>::empty());
        assert(digits(Seq::<char>::empty(), radix) == (true, 0nat, 0nat));
        assert(s.last() == digit_char(n, false));
        assert(0 * radix + n == n);
    } else {
        assert(n / radix < n) by (nonlinear_arith)
            requires
                radix >= 2,
                n >= radix,
        ;
        lemma_digits_of_rendering(n / radix, radix);
        let q = radix_digits(n / radix, radix, false);
        lemma_digit_roundtrip(n % radix, radix);
        assert(s.drop_last() =~= q);
        assert(s.last() == digit_char(n % radix, false));
        assert(n / radix * radix + n % radix == n) by (nonlinear_arith)
            requires
                radix >= 2,
        ;
        assert forall|i: int| 0 <= i < s.len() implies {
            let c = #[trigger] s[i];
            &&& !is_ws(c)
            &&& c != '"' && c != '+' && c != '$' && c != 'x' && c != 'X'
        } by {
            if i < q.len() {
                assert(s[i] == q[i]);
            }
        }
    }
}

proof fn lemma_trim_plain(s: Seq<char>)
    requires
        s.len() > 0,
        !is_ws(s[0]),
        !is_ws(s.last()),
    ensures
        trim(s) == s,
{
}

/// A number printed in decimal reads back as itself.
pub proof fn decimal_reads_back(n: u64)
    ensures
        number_literal(decimal(n as nat)) == Some(n),
{
    let s = decimal(n as nat);
    lemma_digits_of_rendering(n as nat, 10);
    assert(!is_ws(s[0]) && !is_ws(s[s.len() - 1]));
    lemma_trim_plain(s);
    assert(strip_quotes(s) == s);
    assert(strip_plus(s) == s);
    assert(digits_number(s, 10) == Some(n));
}

/// A number printed as `0x` and lower-case hexadecimal, the way error messages show offsets,
/// reads back as itself.
pub proof fn hex_reads_back(n: u64)
    ensures
        number_literal(seq!['0', 'x'] + hex_lower(n as nat)) == Some(n),
{
    let h = hex_lower(n as nat);
    let s = seq!['0', 'x'] + h;
    lemma_digits_of_rendering(n as nat, 16);
    assert(s[0] == '0');
    assert(s.last() == h.last());
    assert(!is_ws(s.last())) by {
        assert(h.last() == h[h.len() - 1]);
    }
    lemma_trim_plain(s);
    assert(strip_quotes(s) == s);
    assert(strip_plus(s) == s);
    assert(s.skip(2) =~= h);
    assert(digits_number(h, 16) == Some(n));
}

} // verus!
