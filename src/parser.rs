use vstd::prelude::*;
use crate::rational::{Rational, fits, lemma_pow10_positive, make, power_of_ten, checked_fraction, pow10, spec_add, spec_div, spec_mul, spec_sub};

verus! {

/// Why an expression has no value.
#[derive(Clone, Copy, Debug, PartialEq, Eq, Structural)]
pub enum ParseError {
    /// The text does not follow the grammar.
    SyntaxError,
    /// A divisor evaluated to zero.
    DivisionByZero,
    /// A number or an intermediate result does not fit in an `i128` fraction.
    Overflow,
}

pub open spec fn is_digit(c: char) -> bool {
    '0' <= c <= '9'
}

pub open spec fn numeral_char(c: char) -> bool {
    is_digit(c) || c == '.'
}

pub open spec fn digit_value(c: char) -> int {
    (c as u32) as int - ('0' as u32) as int
}

/// The end of the run of digits and points that starts at `i`.
pub open spec fn run_end(s: Seq<char>, i: int) -> int
    decreases s.len() - i,
{
    if 0 <= i < s.len() && numeral_char(s[i]) {
        run_end(s, i + 1)
    } else {
        i
    }
}

pub open spec fn dots(t: Seq<char>) -> nat
    decreases t.len(),
{
    if t.len() == 0 {
        0
    } else {
        dots(t.drop_last()) + if t.last() == '.' {
            1nat
        } else {
            0nat
        }
    }
}

/// The digits of a numeral read as one integer, the point left out.
pub open spec fn digits_value(t: Seq<char>) -> int
    decreases t.len(),
{
    if t.len() == 0 {
        0
    } else if t.last() == '.' {
        digits_value(t.drop_last())
    } else {
        digits_value(t.drop_last()) * 10 + digit_value(t.last())
    }
}

/// How many digits follow the point.
pub open spec fn fraction_digits(t: Seq<char>) -> nat
    decreases t.len(),
{
    if t.len() == 0 {
        0
    } else if t.last() != '.' && dots(t.drop_last()) > 0 {
        fraction_digits(t.drop_last()) + 1
    } else {
        fraction_digits(t.drop_last())
    }
}

/// A numeral holds at most one point and at least one digit (`1`, `1.5`, `1.`, `.5`).
pub open spec fn numeral_ok(t: Seq<char>) -> bool {
    dots(t) <= 1 && dots(t) < t.len()
}

/// The value of a run of digits and points, with the position after it.
pub open spec fn number_at(s: Seq<char>, i: int) -> Result<(Rational, int), ParseError> {
    let j = run_end(s, i);
    let t = s.subrange(i, j);
    if !numeral_ok(t) {
        Err(ParseError::SyntaxError)
    } else {
        match checked_fraction(digits_value(t), pow10(fraction_digits(t))) {
            Some(v) => Ok((v, j)),
            None => Err(ParseError::Overflow),
        }
    }
}

/// Each step of a chain goes forward and stays inside the text.
pub open spec fn advanced(i: int, q: int, len: int) -> bool {
    i < q <= len
}

/// `factor := "(" expr ")" | number`, after any spaces.
pub open spec fn factor(s: Seq<char>, i: int) -> Result<(Rational, int), ParseError>
    decreases s.len() - i, 0int,
{
    if !(0 <= i < s.len()) {
        Err(ParseError::SyntaxError)
    } else if s[i] == ' ' {
        factor(s, i + 1)
    } else if s[i] == '(' {
        match expr(s, i + 1) {
            Ok((v, q)) => if 0 <= q < s.len() && s[q] == ')' {
                Ok((v, q + 1))
            } else {
                Err(ParseError::SyntaxError)
            },
            Err(e) => Err(e),
        }
    } else if numeral_char(s[i]) {
        number_at(s, i)
    } else {
        Err(ParseError::SyntaxError)
    }
}

/// The rest of a product or quotient chain, with `acc` the value so far.
pub open spec fn term_rest(s: Seq<char>, i: int, acc: Rational) -> Result<
    (Rational, int),
    ParseError,
>
    decreases s.len() - i, 1int,
{
    if !(0 <= i < s.len()) {
        Ok((acc, i))
    } else if s[i] == ' ' {
        term_rest(s, i + 1, acc)
    } else if s[i] == '*' || s[i] == '/' {
        match factor(s, i + 1) {
            Ok((v, q)) => if !advanced(i, q, s.len() as int) {
                Err(ParseError::SyntaxError)
            } else if s[i] == '*' {
                match spec_mul(acc, v) {
                    Some(r) => term_rest(s, q, r),
                    None => Err(ParseError::Overflow),
                }
            } else if v.num == 0 {
                Err(ParseError::DivisionByZero)
            } else {
                match spec_div(acc, v) {
                    Some(r) => term_rest(s, q, r),
                    None => Err(ParseError::Overflow),
                }
            },
            Err(e) => Err(e),
        }
    } else {
        Ok((acc, i))
    }
}

/// `term := factor (("*" | "/") factor)*`
pub open spec fn term(s: Seq<char>, i: int) -> Result<(Rational, int), ParseError>
    decreases s.len() - i, 1int,
{
    match factor(s, i) {
        Ok((v, q)) => if advanced(i, q, s.len() as int) {
            term_rest(s, q, v)
        } else {
            Err(ParseError::SyntaxError)
        },
        Err(e) => Err(e),
    }
}

/// The rest of a sum or difference chain, with `acc` the value so far.
pub open spec fn expr_rest(s: Seq<char>, i: int, acc: Rational) -> Result<
    (Rational, int),
    ParseError,
>
    decreases s.len() - i, 2int,
{
    if !(0 <= i < s.len()) {
        Ok((acc, i))
    } else if s[i] == ' ' {
        expr_rest(s, i + 1, acc)
    } else if s[i] == '+' || s[i] == '-' {
        match term(s, i + 1) {
            Ok((v, q)) => if !advanced(i, q, s.len() as int) {
                Err(ParseError::SyntaxError)
            } else {
                let r = if s[i] == '+' {
                    spec_add(acc, v)
                } else {
                    spec_sub(acc, v)
                };
                match r {
                    Some(r) => expr_rest(s, q, r),
                    None => Err(ParseError::Overflow),
                }
            },
            Err(e) => Err(e),
        }
    } else {
        Ok((acc, i))
    }
}

/// `expr := term (("+" | "-") term)*`
pub open spec fn expr(s: Seq<char>, i: int) -> Result<(Rational, int), ParseError>
    decreases s.len() - i, 2int,
{
    match term(s, i) {
        Ok((v, q)) => if advanced(i, q, s.len() as int) {
            expr_rest(s, q, v)
        } else {
            Err(ParseError::SyntaxError)
        },
        Err(e) => Err(e),
    }
}

/// The value of a whole text: one expression and nothing after it.
pub open spec fn evaluation(s: Seq<char>) -> Result<Rational, ParseError> {
    match expr(s, 0) {
        Ok((v, q)) => if q == s.len() {
            Ok(v)
        } else {
            Err(ParseError::SyntaxError)
        },
        Err(e) => Err(e),
    }
}

/// A parse result with the position as a mathematical integer.
pub open spec fn at_int(r: Result<(Rational, usize), ParseError>) -> Result<(Rational, int), ParseError> {
    match r {
        Ok((v, q)) => Ok((v, q as int)),
        Err(e) => Err(e),
    }
}

/// A successful step yields a well-formed value and moves past `i`.
pub open spec fn sound_step(r: Result<(Rational, usize), ParseError>, i: int, len: int) -> bool {
    r matches Ok((v, q)) ==> v.wf() && i < q <= len
}

proof fn lemma_digits_value_nonneg(t: Seq<char>)
    requires
        forall|k: int| 0 <= k < t.len() ==> numeral_char(#[trigger] t[k]),
    ensures
        digits_value(t) >= 0,
    decreases t.len(),
{
    if t.len() > 0 {
        lemma_digits_value_nonneg(t.drop_last());
    }
}

fn parse_number(s: &Vec<char>, i: usize) -> (r: Result<(Rational, usize), ParseError>)
    requires
        i < s.len(),
        numeral_char(s@[i as int]),
    ensures
        at_int(r) == number_at(s@, i as int),
        sound_step(r, i as int, s.len() as int),
{
    let mut k = i;
    let mut n_dots: usize = 0;
    let mut n_frac: usize = 0;
    let mut acc: i128 = 0;
    let mut overflow = false;
    while k < s.len() && (('0' <= s[k] && s[k] <= '9') || s[k] == '.')
        invariant
            i <= k <= s.len(),
            run_end(s@, i as int) == run_end(s@, k as int),
            n_dots == dots(s@.subrange(i as int, k as int)),
            n_frac == fraction_digits(s@.subrange(i as int, k as int)),
            n_dots <= k - i,
            n_frac <= k - i,
            forall|m: int| i <= m < k ==> numeral_char(#[trigger] s@[m]),
            !overflow ==> acc == digits_value(s@.subrange(i as int, k as int)),
            overflow ==> !fits(digits_value(s@.subrange(i as int, k as int))),
        decreases s.len() - k,
    {
        let c = s[k];
        let ghost t = s@.subrange(i as int, k as int);
        let ghost t2 = s@.subrange(i as int, k + 1);
        proof {
            assert(t2.drop_last() =~= t);
            assert(t2.last() == c);
            assert forall|m: int| 0 <= m < t.len() implies numeral_char(#[trigger] t[m]) by {
                assert(t[m] == s@[i + m]);
            }
            lemma_digits_value_nonneg(t);
        }
        if c == '.' {
            n_dots = n_dots + 1;
        } else {
            if n_dots > 0 {
                n_frac = n_frac + 1;
            }
            if !overflow {
                let d = (c as u32 - '0' as u32) as i128;
                match acc.checked_mul(10) {
                    Some(x) => match x.checked_add(d) {
                        Some(y) => {
                            acc = y;
                        },
                        None => {
                            overflow = true;
                        },
                    },
                    None => {
                        overflow = true;
                    },
                }
            }
        }
        k = k + 1;
    }
    let ghost t = s@.subrange(i as int, k as int);
    proof {
        assert(t.len() >= 1);
    }
    if n_dots > 1 || n_dots >= k - i {
        return Err(ParseError::SyntaxError);
    }
    if overflow {
        return Err(ParseError::Overflow);
    }
    match power_of_ten(n_frac) {
        Some(p) => {
            proof {
                lemma_pow10_positive(n_frac as nat);
            }
            Ok((make(acc, p), k))
        },
        None => Err(ParseError::Overflow),
    }
}

fn parse_factor(s: &Vec<char>, i: usize) -> (r: Result<(Rational, usize), ParseError>)
    requires
        i <= s.len(),
    ensures
        at_int(r) == factor(s@, i as int),
        sound_step(r, i as int, s.len() as int),
    decreases s.len() - i, 0int,
{
    let mut p = i;
    while p < s.len() && s[p] == ' '
        invariant
            i <= p <= s.len(),
            factor(s@, i as int) == factor(s@, p as int),
        decreases s.len() - p,
    {
        p = p + 1;
    }
    if p >= s.len() {
        Err(ParseError::SyntaxError)
    } else if s[p] == '(' {
        match parse_expr(s, p + 1) {
            Ok((v, q)) => {
                if q < s.len() && s[q] == ')' {
                    Ok((v, q + 1))
                } else {
                    Err(ParseError::SyntaxError)
                }
            },
            Err(e) => Err(e),
        }
    } else if ('0' <= s[p] && s[p] <= '9') || s[p] == '.' {
        parse_number(s, p)
    } else {
        Err(ParseError::SyntaxError)
    }
}

fn parse_term(s: &Vec<char>, i: usize) -> (r: Result<(Rational, usize), ParseError>)
    requires
        i <= s.len(),
    ensures
        at_int(r) == term(s@, i as int),
        sound_step(r, i as int, s.len() as int),
    decreases s.len() - i, 1int,
{
    let (mut acc, mut pos) = match parse_factor(s, i) {
        Ok(x) => x,
        Err(e) => {
            return Err(e);
        },
    };
    loop
        invariant
            i < pos <= s.len(),
            acc.wf(),
            term(s@, i as int) == term_rest(s@, pos as int, acc),
        decreases s.len() - pos,
    {
        if pos >= s.len() {
            return Ok((acc, pos));
        }
        let c = s[pos];
        if c == ' ' {
            pos = pos + 1;
        } else if c == '*' || c == '/' {
            let (v, q) = match parse_factor(s, pos + 1) {
                Ok(x) => x,
                Err(e) => {
                    return Err(e);
                },
            };
            if c == '*' {
                match acc.mul(&v) {
                    Some(r) => {
                        acc = r;
                    },
                    None => {
                        return Err(ParseError::Overflow);
                    },
                }
            } else {
                if v.is_zero() {
                    return Err(ParseError::DivisionByZero);
                }
                match acc.div(&v) {
                    Some(r) => {
                        acc = r;
                    },
                    None => {
                        return Err(ParseError::Overflow);
                    },
                }
            }
            pos = q;
        } else {
            return Ok((acc, pos));
        }
    }
}

fn parse_expr(s: &Vec<char>, i: usize) -> (r: Result<(Rational, usize), ParseError>)
    requires
        i <= s.len(),
    ensures
        at_int(r) == expr(s@, i as int),
        sound_step(r, i as int, s.len() as int),
    decreases s.len() - i, 2int,
{
    let (mut acc, mut pos) = match parse_term(s, i) {
        Ok(x) => x,
        Err(e) => {
            return Err(e);
        },
    };
    loop
        invariant
            i < pos <= s.len(),
            acc.wf(),
            expr(s@, i as int) == expr_rest(s@, pos as int, acc),
        decreases s.len() - pos,
    {
        if pos >= s.len() {
            return Ok((acc, pos));
        }
        let c = s[pos];
        if c == ' ' {
            pos = pos + 1;
        } else if c == '+' || c == '-' {
            let (v, q) = match parse_term(s, pos + 1) {
                Ok(x) => x,
                Err(e) => {
                    return Err(e);
                },
            };
            let r = if c == '+' {
                acc.add(&v)
            } else {
                acc.sub(&v)
            };
            match r {
                Some(r) => {
                    acc = r;
                },
                None => {
                    return Err(ParseError::Overflow);
                },
            }
            pos = q;
        } else {
            return Ok((acc, pos));
        }
    }
}

/// Relies on `str::chars`: the characters of the text, in order.
#[verifier::external_body]
pub(crate) fn chars_of(text: &str) -> (r: Vec<char>)
    ensures
        r@ == text@,
{
    text.chars().collect()
}

/// Evaluates an infix expression of `+ - * /`, parentheses and decimal numerals,
/// with the usual precedence and left associativity; spaces may stand between tokens.
pub fn parse_expression(text: &str) -> (r: Result<Rational, ParseError>)
    ensures
        r == evaluation(text@),
        r matches Ok(v) ==> v.wf(),
{
    let s = chars_of(text);
    match parse_expr(&s, 0) {
        Ok((v, q)) => {
            if q == s.len() {
                Ok(v)
            } else {
                Err(ParseError::SyntaxError)
            }
        },
        Err(e) => Err(e),
    }
}

} // verus!
