use vstd::prelude::*;
use crate::parser::{
    ParseError,
    digits_value,
    expr,
    expr_rest,
    factor,
    fraction_digits,
    numeral_char,
    numeral_ok,
    number_at,
    run_end,
    term,
    term_rest,
    evaluation,
};
use crate::rational::{
    Rational,
    fits,
    lemma_normalized_value,
    lemma_operations_exact,
    lemma_pow10_positive,
    pow10,
    spec_add,
    spec_div,
    spec_mul,
    spec_sub,
};

verus! {

/// A fraction over unbounded integers, `(numerator, denominator)`, denominator positive.
pub type Frac = (int, int);

pub open spec fn frac_add(a: Frac, b: Frac) -> Frac {
    (a.0 * b.1 + b.0 * a.1, a.1 * b.1)
}

pub open spec fn frac_sub(a: Frac, b: Frac) -> Frac {
    (a.0 * b.1 - b.0 * a.1, a.1 * b.1)
}

pub open spec fn frac_mul(a: Frac, b: Frac) -> Frac {
    (a.0 * b.0, a.1 * b.1)
}

pub open spec fn frac_div(a: Frac, b: Frac) -> Frac {
    if b.0 < 0 {
        (-(a.0 * b.1), a.1 * (-b.0))
    } else {
        (a.0 * b.1, a.1 * b.0)
    }
}

/// `r` and `x` denote the same number.
pub open spec fn same_value(r: Rational, x: Frac) -> bool {
    r.num * x.1 == x.0 * r.den
}

/// The value of a numeral in unbounded arithmetic.
pub open spec fn exact_number(s: Seq<char>, i: int) -> Result<(Frac, int), ParseError> {
    let j = run_end(s, i);
    let t = s.subrange(i, j);
    if !numeral_ok(t) {
        Err(ParseError::SyntaxError)
    } else {
        Ok(((digits_value(t), pow10(fraction_digits(t))), j))
    }
}

/// The grammar of `parser::factor`, evaluated in unbounded arithmetic.
pub open spec fn exact_factor(s: Seq<char>, i: int) -> Result<(Frac, int), ParseError>
    decreases s.len() - i, 0int,
{
    if !(0 <= i < s.len()) {
        Err(ParseError::SyntaxError)
    } else if s[i] == ' ' {
        exact_factor(s, i + 1)
    } else if s[i] == '(' {
        match exact_expr(s, i + 1) {
            Ok((v, q)) => if 0 <= q < s.len() && s[q] == ')' {
                Ok((v, q + 1))
            } else {
                Err(ParseError::SyntaxError)
            },
            Err(e) => Err(e),
        }
    } else if numeral_char(s[i]) {
        exact_number(s, i)
    } else {
        Err(ParseError::SyntaxError)
    }
}

pub open spec fn exact_term_rest(s: Seq<char>, i: int, acc: Frac) -> Result<(Frac, int), ParseError>
    decreases s.len() - i, 1int,
{
    if !(0 <= i < s.len()) {
        Ok((acc, i))
    } else if s[i] == ' ' {
        exact_term_rest(s, i + 1, acc)
    } else if s[i] == '*' || s[i] == '/' {
        match exact_factor(s, i + 1) {
            Ok((v, q)) => if !(i < q <= s.len()) {
                Err(ParseError::SyntaxError)
            } else if s[i] == '*' {
                exact_term_rest(s, q, frac_mul(acc, v))
            } else if v.0 == 0 {
                Err(ParseError::DivisionByZero)
            } else {
                exact_term_rest(s, q, frac_div(acc, v))
            },
            Err(e) => Err(e),
        }
    } else {
        Ok((acc, i))
    }
}

pub open spec fn exact_term(s: Seq<char>, i: int) -> Result<(Frac, int), ParseError>
    decreases s.len() - i, 1int,
{
    match exact_factor(s, i) {
        Ok((v, q)) => if i < q <= s.len() {
            exact_term_rest(s, q, v)
        } else {
            Err(ParseError::SyntaxError)
        },
        Err(e) => Err(e),
    }
}

pub open spec fn exact_expr_rest(s: Seq<char>, i: int, acc: Frac) -> Result<(Frac, int), ParseError>
    decreases s.len() - i, 2int,
{
    if !(0 <= i < s.len()) {
        Ok((acc, i))
    } else if s[i] == ' ' {
        exact_expr_rest(s, i + 1, acc)
    } else if s[i] == '+' || s[i] == '-' {
        match exact_term(s, i + 1) {
            Ok((v, q)) => if !(i < q <= s.len()) {
                Err(ParseError::SyntaxError)
            } else if s[i] == '+' {
                exact_expr_rest(s, q, frac_add(acc, v))
            } else {
                exact_expr_rest(s, q, frac_sub(acc, v))
            },
            Err(e) => Err(e),
        }
    } else {
        Ok((acc, i))
    }
}

pub open spec fn exact_expr(s: Seq<char>, i: int) -> Result<(Frac, int), ParseError>
    decreases s.len() - i, 2int,
{
    match exact_term(s, i) {
        Ok((v, q)) => if i < q <= s.len() {
            exact_expr_rest(s, q, v)
        } else {
            Err(ParseError::SyntaxError)
        },
        Err(e) => Err(e),
    }
}

/// The value of a whole text in unbounded arithmetic.
pub open spec fn exact_evaluation(s: Seq<char>) -> Result<Frac, ParseError> {
    match exact_expr(s, 0) {
        Ok((v, q)) => if q == s.len() {
            Ok(v)
        } else {
            Err(ParseError::SyntaxError)
        },
        Err(e) => Err(e),
    }
}

/// A result of the `i128` grammar agrees with one of the unbounded grammar: a
/// value of the first is a value of the second, at the same position, and the
/// first fails where the second succeeds only by overflow.
pub open spec fn agrees(r: Result<(Rational, int), ParseError>, x: Result<(Frac, int), ParseError>) -> bool {
    &&& (r matches Ok((v, q)) ==> (x matches Ok((w, p)) && p == q && v.wf() && w.1 > 0
        && same_value(v, w)))
    &&& (x is Ok ==> (r is Ok || r == Err::<(Rational, int), ParseError>(ParseError::Overflow)))
}

proof fn cancel(z: int, w: int, k: int)
    requires
        z * k == w * k,
        k != 0,
    ensures
        z == w,
{
    assert(z == w) by (nonlinear_arith)
        requires
            z * k == w * k,
            k != 0,
    ;
}

proof fn lemma_positive_product(a: int, b: int)
    requires
        a > 0,
        b > 0,
    ensures
        a * b > 0,
{
    assert(a * b > 0) by (nonlinear_arith)
        requires
            a > 0,
            b > 0,
    ;
}

/// The same number is zero in both forms.
proof fn lemma_zero_agrees(v: Rational, w: Frac)
    requires
        v.wf(),
        w.1 > 0,
        same_value(v, w),
    ensures
        v.num == 0 <==> w.0 == 0,
{
    assert(v.num == 0 <==> w.0 == 0) by (nonlinear_arith)
        requires
            v.num * w.1 == w.0 * v.den,
            v.den > 0,
            w.1 > 0,
    ;
}

proof fn lemma_chain(rn: int, rd: int, s: int, t: int, u: int, v: int)
    requires
        rn * v == s * rd,
        s * u == t * v,
        v != 0,
    ensures
        rn * u == t * rd,
{
    assert(rn * u * v == t * rd * v) by (nonlinear_arith)
        requires
            rn * v == s * rd,
            s * u == t * v,
    ;
    cancel(rn * u, t * rd, v);
}

proof fn lemma_cross_term(a: int, x: int, x0: int, p: int, q: int, y: int)
    requires
        a * x == x0 * p,
    ensures
        a * q * (x * y) == x0 * y * (p * q),
{
    assert(a * q * (x * y) == (a * x) * (q * y)) by (nonlinear_arith);
    assert((x0 * p) * (q * y) == x0 * y * (p * q)) by (nonlinear_arith);
}

/// Each `i128` operation agrees with the unbounded one on agreeing operands.
proof fn lemma_step_agrees(a: Rational, x: Frac, b: Rational, y: Frac)
    requires
        a.wf(),
        b.wf(),
        x.1 > 0,
        y.1 > 0,
        same_value(a, x),
        same_value(b, y),
    ensures
        spec_add(a, b) matches Some(r) ==> r.wf() && same_value(r, frac_add(x, y)),
        spec_sub(a, b) matches Some(r) ==> r.wf() && same_value(r, frac_sub(x, y)),
        spec_mul(a, b) matches Some(r) ==> r.wf() && same_value(r, frac_mul(x, y)),
        b.num != 0 ==> (spec_div(a, b) matches Some(r) ==> r.wf() && same_value(r, frac_div(x, y))),
        frac_add(x, y).1 > 0,
        frac_sub(x, y).1 > 0,
        frac_mul(x, y).1 > 0,
        b.num != 0 ==> frac_div(x, y).1 > 0,
{
    lemma_operations_exact(a, b);
    lemma_positive_product(x.1, y.1);
    let pq = a.den * b.den;
    lemma_positive_product(a.den as int, b.den as int);
    let (aa, bb) = (a.num as int, b.num as int);
    let (p, q) = (a.den as int, b.den as int);
    let (x0, xx, y0, yy) = (x.0, x.1, y.0, y.1);
    lemma_cross_term(aa, xx, x0, p, q, yy);
    lemma_cross_term(bb, yy, y0, q, p, xx);
    assert((aa * q + bb * p) * (xx * yy) == aa * q * (xx * yy) + bb * p * (xx * yy))
        by (nonlinear_arith);
    assert((aa * q - bb * p) * (xx * yy) == aa * q * (xx * yy) - bb * p * (xx * yy))
        by (nonlinear_arith);
    assert(x0 * yy * (p * q) + y0 * xx * (q * p) == (x0 * yy + y0 * xx) * (p * q))
        by (nonlinear_arith);
    assert(x0 * yy * (p * q) - y0 * xx * (q * p) == (x0 * yy - y0 * xx) * (p * q))
        by (nonlinear_arith);
    if let Some(r) = spec_add(a, b) {
        lemma_chain(r.num as int, r.den as int, aa * q + bb * p, x0 * yy + y0 * xx, xx * yy, p * q);
    }
    if let Some(r) = spec_sub(a, b) {
        lemma_chain(r.num as int, r.den as int, aa * q - bb * p, x0 * yy - y0 * xx, xx * yy, p * q);
    }
    if let Some(r) = spec_mul(a, b) {
        assert((aa * bb) * (xx * yy) == (aa * xx) * (bb * yy)) by (nonlinear_arith);
        assert((x0 * p) * (y0 * q) == (x0 * y0) * (p * q)) by (nonlinear_arith);
        lemma_chain(r.num as int, r.den as int, aa * bb, x0 * y0, xx * yy, p * q);
    }
    if b.num != 0 {
        lemma_zero_agrees(b, y);
        assert(y0 < 0 ==> xx * (-y0) > 0) by (nonlinear_arith)
            requires
                xx > 0,
        ;
        assert(y0 > 0 ==> xx * y0 > 0) by (nonlinear_arith)
            requires
                xx > 0,
        ;
        if let Some(r) = spec_div(a, b) {
            let (rn, rd) = (r.num as int, r.den as int);
            assert((aa * q) * (xx * y0) == (aa * xx) * (q * y0)) by (nonlinear_arith);
            assert((x0 * p) * (q * y0) == (x0 * yy) * (p * bb)) by (nonlinear_arith)
                requires
                    bb * yy == y0 * q,
            ;
            assert(p * bb != 0) by (nonlinear_arith)
                requires
                    p > 0,
                    bb != 0,
            ;
            lemma_chain(rn, rd, aa * q, x0 * yy, xx * y0, p * bb);
            if y0 < 0 {
                assert(rn * (xx * (-y0)) == (-(x0 * yy)) * rd) by (nonlinear_arith)
                    requires
                        rn * (xx * y0) == (x0 * yy) * rd,
                ;
            }
        }
    }
}

proof fn lemma_number_agrees(s: Seq<char>, i: int)
    ensures
        agrees(number_at(s, i), exact_number(s, i)),
{
    let j = run_end(s, i);
    let t = s.subrange(i, j);
    if numeral_ok(t) {
        lemma_pow10_positive(fraction_digits(t));
        if fits(digits_value(t)) && fits(pow10(fraction_digits(t))) {
            lemma_normalized_value(digits_value(t), pow10(fraction_digits(t)));
        }
    }
}

proof fn lemma_factor_agrees(s: Seq<char>, i: int)
    ensures
        agrees(factor(s, i), exact_factor(s, i)),
    decreases s.len() - i, 0int,
{
    if !(0 <= i < s.len()) {
    } else if s[i] == ' ' {
        lemma_factor_agrees(s, i + 1);
    } else if s[i] == '(' {
        lemma_expr_agrees(s, i + 1);
    } else if numeral_char(s[i]) {
        lemma_number_agrees(s, i);
    }
}

proof fn lemma_term_rest_agrees(s: Seq<char>, i: int, acc: Rational, xacc: Frac)
    requires
        acc.wf(),
        xacc.1 > 0,
        same_value(acc, xacc),
    ensures
        agrees(term_rest(s, i, acc), exact_term_rest(s, i, xacc)),
    decreases s.len() - i, 1int,
{
    if !(0 <= i < s.len()) {
    } else if s[i] == ' ' {
        lemma_term_rest_agrees(s, i + 1, acc, xacc);
    } else if s[i] == '*' || s[i] == '/' {
        lemma_factor_agrees(s, i + 1);
        match (factor(s, i + 1), exact_factor(s, i + 1)) {
            (Ok((v, q)), Ok((w, p))) => {
                if i < q <= s.len() {
                    lemma_step_agrees(acc, xacc, v, w);
                    lemma_zero_agrees(v, w);
                    if s[i] == '*' {
                        if let Some(r) = spec_mul(acc, v) {
                            lemma_term_rest_agrees(s, q, r, frac_mul(xacc, w));
                        }
                    } else if v.num != 0 {
                        if let Some(r) = spec_div(acc, v) {
                            lemma_term_rest_agrees(s, q, r, frac_div(xacc, w));
                        }
                    }
                }
            },
            _ => {},
        }
    }
}

proof fn lemma_term_agrees(s: Seq<char>, i: int)
    ensures
        agrees(term(s, i), exact_term(s, i)),
    decreases s.len() - i, 1int,
{
    lemma_factor_agrees(s, i);
    match (factor(s, i), exact_factor(s, i)) {
        (Ok((v, q)), Ok((w, p))) => {
            if i < q <= s.len() {
                lemma_term_rest_agrees(s, q, v, w);
            }
        },
        _ => {},
    }
}

proof fn lemma_expr_rest_agrees(s: Seq<char>, i: int, acc: Rational, xacc: Frac)
    requires
        acc.wf(),
        xacc.1 > 0,
        same_value(acc, xacc),
    ensures
        agrees(expr_rest(s, i, acc), exact_expr_rest(s, i, xacc)),
    decreases s.len() - i, 2int,
{
    if !(0 <= i < s.len()) {
    } else if s[i] == ' ' {
        lemma_expr_rest_agrees(s, i + 1, acc, xacc);
    } else if s[i] == '+' || s[i] == '-' {
        lemma_term_agrees(s, i + 1);
        match (term(s, i + 1), exact_term(s, i + 1)) {
            (Ok((v, q)), Ok((w, p))) => {
                if i < q <= s.len() {
                    lemma_step_agrees(acc, xacc, v, w);
                    if s[i] == '+' {
                        if let Some(r) = spec_add(acc, v) {
                            lemma_expr_rest_agrees(s, q, r, frac_add(xacc, w));
                        }
                    } else {
                        if let Some(r) = spec_sub(acc, v) {
                            lemma_expr_rest_agrees(s, q, r, frac_sub(xacc, w));
                        }
                    }
                }
            },
            _ => {},
        }
    }
}

proof fn lemma_expr_agrees(s: Seq<char>, i: int)
    ensures
        agrees(expr(s, i), exact_expr(s, i)),
    decreases s.len() - i, 2int,
{
    lemma_term_agrees(s, i);
    match (term(s, i), exact_term(s, i)) {
        (Ok((v, q)), Ok((w, p))) => {
            if i < q <= s.len() {
                lemma_expr_rest_agrees(s, q, v, w);
            }
        },
        _ => {},
    }
}

/// The evaluator is exact: every value it yields for a text is the value of
/// the expression in unbounded rational arithmetic, and wherever that value
/// exists (the text is well formed and divides by no zero) the evaluator
/// yields it or reports that it does not fit in `i128`.
pub proof fn lemma_evaluation_exact(s: Seq<char>)
    ensures
        evaluation(s) matches Ok(v) ==> (exact_evaluation(s) matches Ok(w) && w.1 > 0 && same_value(
            v,
            w,
        )),
        exact_evaluation(s) is Ok ==> (evaluation(s) is Ok || evaluation(s) == Err::<
            Rational,
            ParseError,
        >(ParseError::Overflow)),
{
    lemma_expr_agrees(s, 0);
}

} // verus!
