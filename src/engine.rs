use vstd::prelude::*;
use crate::parser::{ParseError, chars_of, evaluation, parse_expression};
use crate::rational::{
    Rational,
    fits,
    normalized,
    pow10,
    power_of_ten,
    spec_add,
    spec_div,
    spec_mul,
    spec_neg,
    spec_rem,
    spec_round_to,
    spec_sub,
};
use crate::render::{push_char, push_rational, push_text, text_of};

verus! {

/// A value on the display: an exact fraction, or the error marker that every
/// failed step (a bad expression, a division by zero, an overflow) leaves behind.
#[derive(Clone, Copy, Debug, PartialEq, Eq, Structural)]
pub enum Number {
    Exact(Rational),
    Error,
}

impl Number {
    pub open spec fn wf(self) -> bool {
        self matches Number::Exact(r) ==> r.wf()
    }
}

/// A function without exact rational values; the caller evaluates it and hands
/// the result to `Calculator::apply_function`.
#[derive(Clone, Copy, Debug, PartialEq, Eq, Structural)]
pub enum Function {
    Sqrt,
    Exp,
    Ln,
    Log,
}

pub open spec fn number_of(o: Option<Rational>) -> Number {
    match o {
        Some(r) => Number::Exact(r),
        None => Number::Error,
    }
}

pub open spec fn from_evaluation(r: Result<Rational, ParseError>) -> Number {
    match r {
        Ok(v) => Number::Exact(v),
        Err(_) => Number::Error,
    }
}

pub open spec fn int_value(n: int) -> Rational {
    Rational { num: n as i128, den: 1 }
}

/// The result of the pending binary operation `op` on the stored value `a` and
/// the current value `b`. An unknown operator leaves `b` as it is.
pub open spec fn binary_result(op: Seq<char>, a: Number, b: Number) -> Number {
    let known = op == seq!['+'] || op == seq!['-'] || op == seq!['*'] || op == seq!['/'];
    if !known {
        b
    } else {
        match (a, b) {
            (Number::Exact(x), Number::Exact(y)) => if op == seq!['+'] {
                number_of(spec_add(x, y))
            } else if op == seq!['-'] {
                number_of(spec_sub(x, y))
            } else if op == seq!['*'] {
                number_of(spec_mul(x, y))
            } else if y.num == 0 {
                Number::Error
            } else {
                number_of(spec_div(x, y))
            },
            _ => Number::Error,
        }
    }
}

/// The value after digit `d` is typed: `10 * v + d` before the point, and
/// `v + d / 10^k` for the `k`-th digit after it.
pub open spec fn with_digit(v: Number, d: int, after_point: bool, k: nat) -> Number {
    match v {
        Number::Error => Number::Error,
        Number::Exact(c) => if !after_point {
            match spec_mul(c, int_value(10)) {
                Some(x) => number_of(spec_add(x, int_value(d))),
                None => Number::Error,
            }
        } else if fits(pow10(k)) {
            number_of(spec_add(c, normalized(d, pow10(k))))
        } else {
            Number::Error
        },
    }
}

pub open spec fn negated(v: Number) -> Number {
    match v {
        Number::Exact(c) => number_of(spec_neg(c)),
        Number::Error => Number::Error,
    }
}

pub open spec fn squared(v: Number) -> Number {
    match v {
        Number::Exact(c) => number_of(spec_mul(c, c)),
        Number::Error => Number::Error,
    }
}

pub open spec fn hundredth(v: Number) -> Number {
    match v {
        Number::Exact(c) => number_of(spec_div(c, int_value(100))),
        Number::Error => Number::Error,
    }
}

/// `a` modulo `b`, with the sign of `a`; modulo zero is an error.
pub open spec fn modulo(a: Number, b: Number) -> Number {
    match (a, b) {
        (Number::Exact(x), Number::Exact(y)) => if y.num == 0 {
            Number::Error
        } else {
            number_of(spec_rem(x, y))
        },
        _ => Number::Error,
    }
}

/// What the session shows as its value.
pub open spec fn number_text(v: Number) -> Seq<char> {
    match v {
        Number::Exact(c) => text_of(c),
        Number::Error => seq!['E', 'r', 'r', 'o', 'r'],
    }
}

/// The trace after a function is applied to it.
pub open spec fn wrapped(f: Function, e: Seq<char>) -> Seq<char> {
    match f {
        Function::Sqrt => seq!['√', '('] + e + seq![')'],
        Function::Exp => seq!['e', '^', '('] + e + seq![')'],
        Function::Ln => seq!['l', 'n', '('] + e + seq![')'],
        Function::Log => seq!['l', 'o', 'g', '('] + e + seq![')'],
    }
}

pub open spec fn function_of(op: Seq<char>) -> Option<Function> {
    if op == seq!['s', 'q', 'r', 't'] {
        Some(Function::Sqrt)
    } else if op == seq!['e', 'x', 'p'] {
        Some(Function::Exp)
    } else if op == seq!['l', 'n'] {
        Some(Function::Ln)
    } else if op == seq!['l', 'o', 'g'] {
        Some(Function::Log)
    } else {
        None
    }
}

/// What the session holds, as mathematical values.
pub struct CalculatorView {
    pub current: Number,
    pub stored: Option<Number>,
    pub pending: Option<Seq<char>>,
    pub has_decimal: bool,
    pub decimal_places: nat,
    pub expression: Seq<char>,
}

/// The state of a fresh or cleared session.
pub open spec fn idle() -> CalculatorView {
    CalculatorView {
        current: Number::Exact(int_value(0)),
        stored: None,
        pending: None,
        has_decimal: false,
        decimal_places: 0,
        expression: seq![],
    }
}

/// The state after a clear: idle, whatever came before.
pub open spec fn cleared(v: CalculatorView) -> CalculatorView {
    idle()
}

/// Clearing twice in a row leaves the same state as clearing once.
pub proof fn lemma_clear_idempotent(v: CalculatorView)
    ensures
        cleared(cleared(v)) == cleared(v),
{
}

/// Resolving with nothing pending changes nothing.
pub proof fn lemma_calculate_without_pending(v: CalculatorView)
    requires
        v.stored is None,
    ensures
        resolved(v) == v,
{
}

/// Switching the sign twice gives back the current value, unless the numerator
/// is `i128::MIN`, whose negation cannot be held.
pub proof fn lemma_toggle_twice(v: CalculatorView)
    requires
        v.current matches Number::Exact(c) ==> c.num != i128::MIN,
    ensures
        toggled(toggled(v)).current == v.current,
{
}

/// The state after the pending operation, if any, is resolved.
pub open spec fn resolved(v: CalculatorView) -> CalculatorView {
    match (v.stored, v.pending) {
        (Some(a), Some(op)) => CalculatorView {
            current: binary_result(op, a, v.current),
            stored: None,
            pending: None,
            ..v
        },
        _ => v,
    }
}

/// The state after the sign is switched.
pub open spec fn toggled(v: CalculatorView) -> CalculatorView {
    CalculatorView {
        current: negated(v.current),
        expression: seq!['(', '-'] + v.expression + seq![')'],
        ..v
    }
}

/// The state after the operator key `op` is pressed (any key but a function of
/// `function_of`, which leaves the state to `Calculator::apply_function`).
pub open spec fn operation_step(v: CalculatorView, op: Seq<char>) -> CalculatorView {
    if op == seq!['='] {
        let m = resolved(v);
        CalculatorView { expression: number_text(m.current), ..m }
    } else if function_of(op) is Some {
        v
    } else if op == seq!['s', 'q', 'u', 'a', 'r', 'e'] {
        CalculatorView {
            current: squared(v.current),
            expression: seq!['('] + v.expression + seq![')', '²'],
            ..v
        }
    } else if op == seq!['m', 'o', 'd'] {
        match v.stored {
            Some(a) => CalculatorView {
                current: modulo(a, v.current),
                stored: None,
                pending: None,
                ..v
            },
            None => v,
        }
    } else {
        let m = if v.pending is Some {
            resolved(v)
        } else {
            v
        };
        CalculatorView {
            current: Number::Exact(int_value(0)),
            stored: Some(m.current),
            pending: Some(op),
            has_decimal: false,
            decimal_places: 0,
            expression: m.expression + seq![' '] + op + seq![' '],
        }
    }
}

/// The value as displayed: rounded to the typed fraction digits once a point
/// was typed (where the rounding can be done in `i128`).
pub open spec fn shown(v: CalculatorView) -> Number {
    match v.current {
        Number::Exact(c) => if v.has_decimal {
            match spec_round_to(c, v.decimal_places) {
                Some(x) => Number::Exact(x),
                None => Number::Exact(c),
            }
        } else {
            Number::Exact(c)
        },
        Number::Error => Number::Error,
    }
}

pub open spec fn fib(n: nat) -> nat
    decreases n,
{
    if n <= 1 {
        n
    } else {
        fib((n - 1) as nat) + fib((n - 2) as nat)
    }
}

proof fn lemma_fib_grows(i: nat, j: nat)
    requires
        i <= j,
    ensures
        fib(i) <= fib(j),
    decreases j,
{
    if i < j {
        lemma_fib_grows(i, (j - 1) as nat);
        if j >= 2 {
            assert(fib(j) == fib((j - 1) as nat) + fib((j - 2) as nat));
        } else {
            assert(fib(0) == 0);
        }
    }
}

fn fib_of(n: u32) -> (r: u32)
    requires
        fib(n as nat) <= u32::MAX,
    ensures
        r == fib(n as nat),
    decreases n,
{
    if n <= 1 {
        n
    } else {
        proof {
            lemma_fib_grows((n - 1) as nat, n as nat);
            lemma_fib_grows((n - 2) as nat, n as nat);
        }
        fib_of(n - 1) + fib_of(n - 2)
    }
}

fn same_chars(a: &Vec<char>, b: &Vec<char>) -> (r: bool)
    ensures
        r == (a@ == b@),
{
    if a.len() != b.len() {
        return false;
    }
    let mut i: usize = 0;
    while i < a.len()
        invariant
            a.len() == b.len(),
            i <= a.len(),
            forall|k: int| 0 <= k < i ==> a@[k] == b@[k],
        decreases a.len() - i,
    {
        if a[i] != b[i] {
            return false;
        }
        i = i + 1;
    }
    proof {
        assert(a@ =~= b@);
    }
    true
}

fn push_error(s: &mut String)
    ensures
        final(s)@ == old(s)@ + seq!['E', 'r', 'r', 'o', 'r'],
{
    push_char(s, 'E');
    push_char(s, 'r');
    push_char(s, 'r');
    push_char(s, 'o');
    push_char(s, 'r');
    proof {
        assert(s@ =~= old(s)@ + seq!['E', 'r', 'r', 'o', 'r']);
    }
}

fn push_number(s: &mut String, v: Number)
    requires
        v.wf(),
    ensures
        final(s)@ == old(s)@ + number_text(v),
{
    match v {
        Number::Exact(c) => push_rational(s, &c),
        Number::Error => push_error(s),
    }
}

/// An interactive calculator session: typed digits, pending binary operations
/// resolved left to right, and a text trace of the keys pressed.
pub struct Calculator {
    current_value: Number,
    stored_value: Option<Number>,
    pending_operation: Option<String>,
    has_decimal: bool,
    decimal_places: u32,
    expression: String,
}

impl View for Calculator {
    type V = CalculatorView;

    closed spec fn view(&self) -> CalculatorView {
        CalculatorView {
            current: self.current_value,
            stored: self.stored_value,
            pending: match self.pending_operation {
                Some(s) => Some(s@),
                None => None,
            },
            has_decimal: self.has_decimal,
            decimal_places: self.decimal_places as nat,
            expression: self.expression@,
        }
    }
}

impl Calculator {
    /// The session's invariant: values are well formed, a stored value and a
    /// pending operator come and go together, and no fraction digits are counted
    /// before a point is typed.
    pub open spec fn wf(&self) -> bool {
        &&& self@.current.wf()
        &&& (self@.stored matches Some(a) ==> a.wf())
        &&& (self@.stored is Some <==> self@.pending is Some)
        &&& (!self@.has_decimal ==> self@.decimal_places == 0)
    }

    pub fn new() -> (r: Calculator)
        ensures
            r.wf(),
            r@ == idle(),
    {
        Calculator {
            current_value: Number::Exact(Rational::integer(0)),
            stored_value: None,
            pending_operation: None,
            has_decimal: false,
            decimal_places: 0,
            expression: String::new(),
        }
    }

    /// Sets the current value to the value of an infix expression, or to the
    /// error marker where it has none.
    pub fn evaluate_expression(&mut self, expr: &str)
        requires
            old(self).wf(),
        ensures
            final(self).wf(),
            final(self)@ == (CalculatorView {
                current: from_evaluation(evaluation(expr@)),
                ..old(self)@
            }),
    {
        match parse_expression(expr) {
            Ok(v) => {
                self.current_value = Number::Exact(v);
            },
            Err(_) => {
                self.current_value = Number::Error;
            },
        }
    }

    /// Types a digit; values above 9 count as 9.
    pub fn input_digit(&mut self, digit: u8)
        requires
            old(self).wf(),
        ensures
            final(self).wf(),
            ({
                let d = if digit > 9 {
                    9int
                } else {
                    digit as int
                };
                let o = old(self)@;
                let k = if o.has_decimal && o.decimal_places < u32::MAX {
                    o.decimal_places + 1
                } else {
                    o.decimal_places
                };
                final(self)@ == CalculatorView {
                    current: with_digit(o.current, d, o.has_decimal, k),
                    decimal_places: k,
                    expression: o.expression.push(crate::render::digit_char(d)),
                    ..o
                }
            }),
    {
        let d: u8 = if digit > 9 {
            9
        } else {
            digit
        };
        if self.has_decimal {
            if self.decimal_places < u32::MAX {
                self.decimal_places = self.decimal_places + 1;
            }
            self.current_value = match self.current_value {
                Number::Exact(c) => match power_of_ten(self.decimal_places as usize) {
                    Some(p) => {
                        proof {
                            crate::rational::lemma_pow10_positive(self.decimal_places as nat);
                        }
                        match Rational::ratio(d as i128, p) {
                            Some(f) => match c.add(&f) {
                                Some(r) => Number::Exact(r),
                                None => Number::Error,
                            },
                            None => Number::Error,
                        }
                    },
                    None => Number::Error,
                },
                Number::Error => Number::Error,
            };
        } else {
            self.current_value = match self.current_value {
                Number::Exact(c) => match c.mul(&Rational::integer(10)) {
                    Some(x) => match x.add(&Rational::integer(d as i128)) {
                        Some(r) => Number::Exact(r),
                        None => Number::Error,
                    },
                    None => Number::Error,
                },
                Number::Error => Number::Error,
            };
        }
        push_char(&mut self.expression, crate::render::digit_of(d as u128));
    }

    /// Starts the fraction part; a second point before the next operator does nothing.
    pub fn input_decimal(&mut self)
        requires
            old(self).wf(),
        ensures
            final(self).wf(),
            old(self)@.has_decimal ==> final(self)@ == old(self)@,
            !old(self)@.has_decimal ==> final(self)@ == (CalculatorView {
                has_decimal: true,
                decimal_places: 0,
                expression: old(self)@.expression.push('.'),
                ..old(self)@
            }),
    {
        if !self.has_decimal {
            self.has_decimal = true;
            self.decimal_places = 0;
            push_char(&mut self.expression, '.');
        }
    }

    /// Returns the session to its idle state.
    pub fn clear(&mut self)
        ensures
            final(self).wf(),
            final(self)@ == cleared(old(self)@),
    {
        self.current_value = Number::Exact(Rational::integer(0));
        self.stored_value = None;
        self.pending_operation = None;
        self.has_decimal = false;
        self.decimal_places = 0;
        self.expression = String::new();
    }

    /// Negates the current value and wraps the trace as `(-...)`.
    pub fn toggle_sign(&mut self)
        requires
            old(self).wf(),
        ensures
            final(self).wf(),
            final(self)@ == toggled(old(self)@),
    {
        self.current_value = match self.current_value {
            Number::Exact(c) => match c.neg() {
                Some(r) => Number::Exact(r),
                None => Number::Error,
            },
            Number::Error => Number::Error,
        };
        let mut e = String::new();
        push_char(&mut e, '(');
        push_char(&mut e, '-');
        push_text(&mut e, &self.expression);
        push_char(&mut e, ')');
        self.expression = e;
        proof {
            assert(self.expression@ =~= seq!['(', '-'] + old(self).expression@ + seq![')']);
        }
    }

    /// Divides the current value by 100 and appends `%` to the trace.
    pub fn percent(&mut self)
        requires
            old(self).wf(),
        ensures
            final(self).wf(),
            final(self)@ == (CalculatorView {
                current: hundredth(old(self)@.current),
                expression: old(self)@.expression.push('%'),
                ..old(self)@
            }),
    {
        self.current_value = match self.current_value {
            Number::Exact(c) => match c.div(&Rational::integer(100)) {
                Some(r) => Number::Exact(r),
                None => Number::Error,
            },
            Number::Error => Number::Error,
        };
        push_char(&mut self.expression, '%');
    }

    /// Resolves the pending binary operation, if any, into the current value.
    pub fn calculate(&mut self)
        requires
            old(self).wf(),
        ensures
            final(self).wf(),
            final(self)@ == resolved(old(self)@),
            old(self)@.stored is None ==> final(self)@ == old(self)@,
    {
        match (self.stored_value, &self.pending_operation) {
            (Some(a), Some(op)) => {
                let w = chars_of(op.as_str());
                let r = if w.len() == 1 && (w[0] == '+' || w[0] == '-' || w[0] == '*' || w[0]
                    == '/') {
                    proof {
                        assert(w@ =~= seq![w@[0]]);
                    }
                    match (a, self.current_value) {
                        (Number::Exact(x), Number::Exact(y)) => {
                            let o = if w[0] == '+' {
                                x.add(&y)
                            } else if w[0] == '-' {
                                x.sub(&y)
                            } else if w[0] == '*' {
                                x.mul(&y)
                            } else if y.is_zero() {
                                None
                            } else {
                                x.div(&y)
                            };
                            match o {
                                Some(v) => Number::Exact(v),
                                None => Number::Error,
                            }
                        },
                        _ => Number::Error,
                    }
                } else {
                    proof {
                        if w@.len() == 1 {
                            assert(w@ != seq!['+']);
                        }
                    }
                    self.current_value
                };
                self.current_value = r;
                self.stored_value = None;
                self.pending_operation = None;
            },
            _ => {},
        }
    }

    /// Presses an operator or function key: `=` resolves the pending operation and
    /// shows the result as the trace; `square` and `mod` act at once; `sqrt`,
    /// `exp`, `ln` and `log` are returned for the caller to evaluate and hand to
    /// `apply_function`; any other token becomes the pending binary operator,
    /// after a pending one is resolved.
    pub fn perform_operation(&mut self, op: &str) -> (r: Option<Function>)
        requires
            old(self).wf(),
        ensures
            final(self).wf(),
            final(self)@ == operation_step(old(self)@, op@),
            r == function_of(op@),
    {
        let w = chars_of(op);
        let equals = vec!['='];
        let sqrt = vec!['s', 'q', 'r', 't'];
        let exp = vec!['e', 'x', 'p'];
        let ln = vec!['l', 'n'];
        let log = vec!['l', 'o', 'g'];
        let square = vec!['s', 'q', 'u', 'a', 'r', 'e'];
        let modulus = vec!['m', 'o', 'd'];
        proof {
            assert(equals@ =~= seq!['=']);
            assert(sqrt@ =~= seq!['s', 'q', 'r', 't']);
            assert(exp@ =~= seq!['e', 'x', 'p']);
            assert(ln@ =~= seq!['l', 'n']);
            assert(log@ =~= seq!['l', 'o', 'g']);
            assert(square@ =~= seq!['s', 'q', 'u', 'a', 'r', 'e']);
            assert(modulus@ =~= seq!['m', 'o', 'd']);
        }
        if same_chars(&w, &equals) {
            self.calculate();
            let mut e = String::new();
            push_number(&mut e, self.current_value);
            self.expression = e;
            proof {
                assert(self.expression@ =~= number_text(self.current_value));
            }
            return None;
        }
        if same_chars(&w, &sqrt) {
            return Some(Function::Sqrt);
        }
        if same_chars(&w, &exp) {
            return Some(Function::Exp);
        }
        if same_chars(&w, &ln) {
            return Some(Function::Ln);
        }
        if same_chars(&w, &log) {
            return Some(Function::Log);
        }
        if same_chars(&w, &square) {
            self.current_value = match self.current_value {
                Number::Exact(c) => match c.mul(&c) {
                    Some(v) => Number::Exact(v),
                    None => Number::Error,
                },
                Number::Error => Number::Error,
            };
            let mut e = String::new();
            push_char(&mut e, '(');
            push_text(&mut e, &self.expression);
            push_char(&mut e, ')');
            push_char(&mut e, '²');
            self.expression = e;
            proof {
                assert(self.expression@ =~= seq!['('] + old(self).expression@ + seq![')', '²']);
            }
            return None;
        }
        if same_chars(&w, &modulus) {
            if let Some(a) = self.stored_value {
                self.current_value = match (a, self.current_value) {
                    (Number::Exact(x), Number::Exact(y)) => {
                        if y.is_zero() {
                            Number::Error
                        } else {
                            match x.rem(&y) {
                                Some(v) => Number::Exact(v),
                                None => Number::Error,
                            }
                        }
                    },
                    _ => Number::Error,
                };
                self.stored_value = None;
                self.pending_operation = None;
            }
            return None;
        }
        if self.pending_operation.is_some() {
            self.calculate();
        }
        self.stored_value = Some(self.current_value);
        let token = op.to_owned();
        push_char(&mut self.expression, ' ');
        push_text(&mut self.expression, &token);
        push_char(&mut self.expression, ' ');
        self.pending_operation = Some(token);
        self.current_value = Number::Exact(Rational::integer(0));
        self.has_decimal = false;
        self.decimal_places = 0;
        proof {
            let m = if old(self)@.pending is Some {
                resolved(old(self)@)
            } else {
                old(self)@
            };
            assert(self.expression@ =~= m.expression + seq![' '] + op@ + seq![' ']);
        }
        None
    }

    /// Records the value of a function of the current value, evaluated by the
    /// caller, and wraps the trace in the function's name.
    pub fn apply_function(&mut self, f: Function, result: Number)
        requires
            old(self).wf(),
            result.wf(),
        ensures
            final(self).wf(),
            final(self)@ == (CalculatorView {
                current: result,
                expression: wrapped(f, old(self)@.expression),
                ..old(self)@
            }),
    {
        self.current_value = result;
        let mut e = String::new();
        match f {
            Function::Sqrt => {
                push_char(&mut e, '√');
            },
            Function::Exp => {
                push_char(&mut e, 'e');
                push_char(&mut e, '^');
            },
            Function::Ln => {
                push_char(&mut e, 'l');
                push_char(&mut e, 'n');
            },
            Function::Log => {
                push_char(&mut e, 'l');
                push_char(&mut e, 'o');
                push_char(&mut e, 'g');
            },
        }
        push_char(&mut e, '(');
        push_text(&mut e, &self.expression);
        push_char(&mut e, ')');
        self.expression = e;
        proof {
            assert(self.expression@ =~= wrapped(f, old(self).expression@));
        }
    }

    /// The current value as text, or `Error`.
    pub fn get_value(&self) -> (r: String)
        requires
            self.wf(),
        ensures
            r@ == number_text(shown(self@)),
    {
        let v = match self.current_value {
            Number::Exact(c) => {
                if self.has_decimal {
                    match c.round_to(self.decimal_places) {
                        Some(x) => Number::Exact(x),
                        None => Number::Exact(c),
                    }
                } else {
                    Number::Exact(c)
                }
            },
            Number::Error => Number::Error,
        };
        let mut s = String::new();
        push_number(&mut s, v);
        proof {
            assert(s@ =~= number_text(shown(self@)));
        }
        s
    }

    /// The current value as a number.
    pub fn get_number(&self) -> (r: Number)
        ensures
            r == self@.current,
    {
        self.current_value
    }

    /// The trace of the keys pressed.
    pub fn get_expression(&self) -> (r: String)
        ensures
            r@ == self@.expression,
    {
        self.expression.clone()
    }

    /// The `n`-th Fibonacci number, by the doubly recursive definition.
    pub fn fib_recursive(&self, n: u32) -> (r: u32)
        requires
            fib(n as nat) <= u32::MAX,
        ensures
            r == fib(n as nat),
    {
        fib_of(n)
    }
}

} // verus!
