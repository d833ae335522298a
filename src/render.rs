use vstd::prelude::*;
use crate::rational::{Rational, abs};

verus! {

/// Digits shown after the point at most; the rest are cut off.
pub const MAX_FRACTION_DIGITS: usize = 16;

pub open spec fn digit_char(d: int) -> char {
    if 0 <= d < 10 {
        seq!['0', '1', '2', '3', '4', '5', '6', '7', '8', '9'][d]
    } else {
        '0'
    }
}

/// The decimal digits of `n`.
pub open spec fn int_text(n: nat) -> Seq<char>
    decreases n,
{
    if n < 10 {
        seq![digit_char(n as int)]
    } else {
        int_text(n / 10).push(digit_char((n % 10) as int))
    }
}

/// The first `k` digits of the fraction `rem / den` (`rem < den`), stopping where it ends.
pub open spec fn frac_text(rem: nat, den: nat, k: nat) -> Seq<char>
    decreases k,
{
    if k == 0 || rem == 0 || den == 0 {
        seq![]
    } else {
        seq![digit_char(((rem * 10) / den) as int)] + frac_text((rem * 10) % den, den, (k - 1) as nat)
    }
}

pub open spec fn strip_zeros(s: Seq<char>) -> Seq<char>
    decreases s.len(),
{
    if s.len() > 0 && s.last() == '0' {
        strip_zeros(s.drop_last())
    } else {
        s
    }
}

/// Plain decimal text: an optional minus sign, the integer part, and the fraction
/// cut to `MAX_FRACTION_DIGITS` digits without trailing zeros (`14`, `-1.5`, `0.3333333333333333`).
pub open spec fn text_of(r: Rational) -> Seq<char> {
    let m = abs(r.num as int);
    let d = r.den as nat;
    let ip = m / d;
    let fp = strip_zeros(frac_text(m % d, d, MAX_FRACTION_DIGITS as nat));
    let body = if fp.len() == 0 {
        int_text(ip)
    } else {
        int_text(ip) + seq!['.'] + fp
    };
    if r.num < 0 && (ip > 0 || fp.len() > 0) {
        seq!['-'] + body
    } else {
        body
    }
}

/// Relies on `String::push`: the character is added at the end.
#[verifier::external_body]
pub(crate) fn push_char(s: &mut String, c: char)
    ensures
        final(s)@ == old(s)@.push(c),
{
    s.push(c);
}

/// Relies on `String::push_str`: the text is added at the end.
#[verifier::external_body]
pub(crate) fn push_text(s: &mut String, t: &String)
    ensures
        final(s)@ == old(s)@ + t@,
{
    s.push_str(t);
}

pub(crate) fn push_all(s: &mut String, t: &Vec<char>)
    ensures
        final(s)@ == old(s)@ + t@,
{
    let mut j: usize = 0;
    while j < t.len()
        invariant
            j <= t.len(),
            s@ == old(s)@ + t@.subrange(0, j as int),
        decreases t.len() - j,
    {
        push_char(s, t[j]);
        proof {
            assert(t@.subrange(0, j + 1) =~= t@.subrange(0, j as int).push(t@[j as int]));
        }
        j = j + 1;
    }
    proof {
        assert(t@.subrange(0, t.len() as int) =~= t@);
    }
}

pub(crate) fn digit_of(d: u128) -> (c: char)
    requires
        d < 10,
    ensures
        c == digit_char(d as int),
{
    if d == 0 {
        '0'
    } else if d == 1 {
        '1'
    } else if d == 2 {
        '2'
    } else if d == 3 {
        '3'
    } else if d == 4 {
        '4'
    } else if d == 5 {
        '5'
    } else if d == 6 {
        '6'
    } else if d == 7 {
        '7'
    } else if d == 8 {
        '8'
    } else {
        '9'
    }
}

fn push_int(s: &mut String, n: u128)
    ensures
        final(s)@ == old(s)@ + int_text(n as nat),
    decreases n,
{
    if n >= 10 {
        push_int(s, n / 10);
    }
    push_char(s, digit_of(n % 10));
    proof {
        if n >= 10 {
            assert(old(s)@ + int_text(n as nat) =~= old(s)@ + int_text((n / 10) as nat) + seq![
                digit_char((n % 10) as int),
            ]);
        } else {
            assert(s@ =~= old(s)@ + int_text(n as nat));
        }
    }
}

/// The next digit of `rem / den` and the remainder after it: `(10 * rem) / den`
/// and `(10 * rem) % den`, without forming `10 * rem`.
fn next_digit(rem: u128, den: u128) -> (r: (u128, u128))
    requires
        rem < den,
        den <= i128::MAX as u128,
    ensures
        r.0 == (rem * 10) / (den as int),
        r.1 == (rem * 10) % (den as int),
        r.0 < 10,
{
    let mut t: u128 = 0;
    let mut q: u128 = 0;
    let mut j: u128 = 0;
    while j < 10
        invariant
            j <= 10,
            rem < den,
            t < den,
            q <= j,
            t + q * den == rem * j,
        decreases 10 - j,
    {
        proof {
            assert((q + 1) * den == q * den + den) by (nonlinear_arith);
            assert(rem * (j + 1) == rem * j + rem) by (nonlinear_arith);
        }
        if t >= den - rem {
            t = t - (den - rem);
            q = q + 1;
        } else {
            t = t + rem;
        }
        j = j + 1;
    }
    proof {
        assert(q < 10) by (nonlinear_arith)
            requires
                t + q * den == rem * 10,
                rem < den,
        ;
        vstd::arithmetic::div_mod::lemma_fundamental_div_mod_converse(
            (rem * 10) as int,
            den as int,
            q as int,
            t as int,
        );
    }
    (q, t)
}

fn strip_trailing_zeros(v: &mut Vec<char>)
    ensures
        final(v)@ == strip_zeros(old(v)@),
{
    while v.len() > 0 && v[v.len() - 1] == '0'
        invariant
            strip_zeros(v@) == strip_zeros(old(v)@),
        decreases v.len(),
    {
        v.pop();
    }
}

/// Appends the plain decimal text of `r`.
pub(crate) fn push_rational(s: &mut String, r: &Rational)
    requires
        r.wf(),
    ensures
        final(s)@ == old(s)@ + text_of(*r),
{
    let m: u128 = if r.num >= 0 {
        r.num as u128
    } else {
        (-(r.num + 1)) as u128 + 1
    };
    let d = r.den as u128;
    let ip = m / d;
    let mut rem = m % d;
    let mut fp: Vec<char> = Vec::new();
    let mut k: usize = 0;
    let ghost m0 = m % d;
    while k < MAX_FRACTION_DIGITS && rem != 0
        invariant
            k <= MAX_FRACTION_DIGITS,
            rem < d,
            d == r.den,
            fp@ + frac_text(rem as nat, d as nat, (MAX_FRACTION_DIGITS - k) as nat) == frac_text(
                m0 as nat,
                d as nat,
                MAX_FRACTION_DIGITS as nat,
            ),
        decreases MAX_FRACTION_DIGITS - k,
    {
        let (q, t) = next_digit(rem, d);
        let c = digit_of(q);
        proof {
            let rest = frac_text(t as nat, d as nat, (MAX_FRACTION_DIGITS - k - 1) as nat);
            assert(frac_text(rem as nat, d as nat, (MAX_FRACTION_DIGITS - k) as nat) == seq![c]
                + rest);
            assert(fp@.push(c) + rest =~= fp@ + (seq![c] + rest));
        }
        fp.push(c);
        rem = t;
        k = k + 1;
    }
    proof {
        assert(frac_text(rem as nat, d as nat, (MAX_FRACTION_DIGITS - k) as nat) =~= seq![]);
        assert(fp@ =~= frac_text(m0 as nat, d as nat, MAX_FRACTION_DIGITS as nat));
    }
    strip_trailing_zeros(&mut fp);
    if r.num < 0 && (ip > 0 || fp.len() > 0) {
        push_char(s, '-');
    }
    push_int(s, ip);
    if fp.len() > 0 {
        push_char(s, '.');
        push_all(s, &fp);
    }
    proof {
        let body = if fp@.len() == 0 {
            int_text(ip as nat)
        } else {
            int_text(ip as nat) + seq!['.'] + fp@
        };
        if r.num < 0 && (ip > 0 || fp.len() > 0) {
            assert(s@ =~= old(s)@ + (seq!['-'] + body));
        } else {
            assert(s@ =~= old(s)@ + body);
        }
    }
}

} // verus!
