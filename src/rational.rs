use vstd::prelude::*;

verus! {

/// Whether an integer can be held in an `i128`.
pub open spec fn fits(x: int) -> bool {
    i128::MIN <= x <= i128::MAX
}

pub open spec fn abs(x: int) -> nat {
    if x < 0 {
        (-x) as nat
    } else {
        x as nat
    }
}

/// Greatest common divisor, by Euclid's recursion.
pub open spec fn gcd(a: nat, b: nat) -> nat
    decreases b,
{
    if b == 0 {
        a
    } else {
        gcd(b, a % b)
    }
}

/// An exact fraction `num / den` with a positive denominator.
#[derive(Clone, Copy, Debug, PartialEq, Eq, Structural)]
pub struct Rational {
    pub num: i128,
    pub den: i128,
}

/// The fraction `n / d` (with `d > 0`) in lowest terms.
pub open spec fn normalized(n: int, d: int) -> Rational {
    let g = gcd(abs(n), abs(d)) as int;
    let m = abs(n) as int / g;
    Rational { num: (if n < 0 { -m } else { m }) as i128, den: (d / g) as i128 }
}

/// A fraction whose numerator and denominator must both fit in `i128`.
pub open spec fn checked_fraction(n: int, d: int) -> Option<Rational> {
    if fits(n) && fits(d) {
        Some(normalized(n, d))
    } else {
        None
    }
}

pub open spec fn spec_add(a: Rational, b: Rational) -> Option<Rational> {
    let x = a.num * b.den;
    let y = b.num * a.den;
    if fits(x) && fits(y) {
        checked_fraction(x + y, a.den * b.den)
    } else {
        None
    }
}

pub open spec fn spec_sub(a: Rational, b: Rational) -> Option<Rational> {
    let x = a.num * b.den;
    let y = b.num * a.den;
    if fits(x) && fits(y) {
        checked_fraction(x - y, a.den * b.den)
    } else {
        None
    }
}

pub open spec fn spec_mul(a: Rational, b: Rational) -> Option<Rational> {
    checked_fraction(a.num * b.num, a.den * b.den)
}

/// `a / b` for `b != 0`: the signs are moved to the numerator.
pub open spec fn spec_div(a: Rational, b: Rational) -> Option<Rational> {
    let n = a.num * b.den;
    let d = a.den * b.num;
    if !fits(n) || !fits(d) {
        None
    } else if d < 0 {
        checked_fraction(-n, -d)
    } else {
        Some(normalized(n, d))
    }
}

/// Truncated remainder: the sign of the dividend, as with `%` on floats.
pub open spec fn trunc_rem(x: int, y: int) -> int {
    let r = abs(x) as int % abs(y) as int;
    if x < 0 {
        -r
    } else {
        r
    }
}

/// `a - trunc(a / b) * b` for `b != 0`.
pub open spec fn spec_rem(a: Rational, b: Rational) -> Option<Rational> {
    let x = a.num * b.den;
    let y = b.num * a.den;
    if fits(x) && fits(y) {
        checked_fraction(trunc_rem(x, y), a.den * b.den)
    } else {
        None
    }
}

pub open spec fn spec_neg(a: Rational) -> Option<Rational> {
    if a.num == i128::MIN {
        None
    } else {
        Some(Rational { num: (-a.num) as i128, den: a.den })
    }
}

pub open spec fn pow10(k: nat) -> int
    decreases k,
{
    if k == 0 {
        1
    } else {
        10 * pow10((k - 1) as nat)
    }
}

/// The integer nearest to `n / d` (`d > 0`), halves rounded away from zero.
pub open spec fn round_half_away(n: int, d: int) -> int {
    let m = abs(n) as int;
    let q = m / d;
    let r = m % d;
    let k = if 2 * r >= d { q + 1 } else { q };
    if n < 0 {
        -k
    } else {
        k
    }
}

/// `a` rounded to `p` fractional digits; `None` where the scaled values leave `i128`.
pub open spec fn spec_round_to(a: Rational, p: nat) -> Option<Rational> {
    let s = pow10(p);
    if fits(s) && fits(a.num * s) {
        checked_fraction(round_half_away(a.num * s, a.den as int), s)
    } else {
        None
    }
}

pub proof fn lemma_gcd_bounds(a: nat, b: nat)
    requires
        b > 0,
    ensures
        0 < gcd(a, b) <= b,
    decreases b,
{
    if a % b != 0 {
        lemma_gcd_bounds(b, a % b);
    } else {
        assert(gcd(b, 0) == b);
    }
}

pub proof fn lemma_pow10_positive(k: nat)
    ensures
        pow10(k) >= 1,
    decreases k,
{
    if k > 0 {
        lemma_pow10_positive((k - 1) as nat);
    }
}

proof fn positive_product(a: int, b: int)
    requires
        a > 0,
        b > 0,
    ensures
        a * b > 0,
{
    assert(a * b > 0) by (nonlinear_arith)
        requires
            a > 0,
            b > 0,
    ;
}

fn gcd_u128(a: u128, b: u128) -> (g: u128)
    ensures
        g == gcd(a as nat, b as nat),
{
    let mut x = a;
    let mut y = b;
    while y != 0
        invariant
            gcd(x as nat, y as nat) == gcd(a as nat, b as nat),
        decreases y,
    {
        let r = x % y;
        x = y;
        y = r;
    }
    x
}

fn magnitude(x: i128) -> (r: u128)
    ensures
        r == abs(x as int),
{
    if x >= 0 {
        x as u128
    } else {
        (-(x + 1)) as u128 + 1
    }
}

/// `n / d` in lowest terms.
pub(crate) fn make(n: i128, d: i128) -> (r: Rational)
    requires
        d > 0,
    ensures
        r == normalized(n as int, d as int),
        r.wf(),
{
    let m = magnitude(n);
    let g = gcd_u128(m, d as u128);
    proof {
        lemma_gcd_bounds(m as nat, d as nat);
        assert((d as u128) / g >= 1) by (nonlinear_arith)
            requires
                0 < g <= d,
        ;
    }
    let q = m / g;
    let num: i128 = if n >= 0 {
        q as i128
    } else if q == 0 {
        0
    } else {
        -1 - ((q - 1) as i128)
    };
    Rational { num, den: ((d as u128) / g) as i128 }
}

impl Rational {
    pub open spec fn wf(self) -> bool {
        self.den > 0
    }

    /// The whole number `n`.
    pub fn integer(n: i128) -> (r: Rational)
        ensures
            r.wf(),
            r.num == n,
            r.den == 1,
    {
        Rational { num: n, den: 1 }
    }

    /// `n / d` in lowest terms; `None` when `d` is zero or the fraction cannot be held.
    pub fn ratio(n: i128, d: i128) -> (r: Option<Rational>)
        ensures
            d == 0 ==> r is None,
            d > 0 ==> r == Some(normalized(n as int, d as int)),
            d < 0 ==> r == checked_fraction(-n, -d),
            r matches Some(v) ==> v.wf(),
    {
        if d == 0 {
            None
        } else if d > 0 {
            Some(make(n, d))
        } else if n == i128::MIN || d == i128::MIN {
            None
        } else {
            Some(make(-n, -d))
        }
    }

    pub fn is_zero(&self) -> (r: bool)
        ensures
            r == (self.num == 0),
    {
        self.num == 0
    }

    pub fn add(&self, b: &Rational) -> (r: Option<Rational>)
        requires
            self.wf(),
            b.wf(),
        ensures
            r == spec_add(*self, *b),
            r matches Some(v) ==> v.wf(),
    {
        let x = self.num.checked_mul(b.den)?;
        let y = b.num.checked_mul(self.den)?;
        let n = x.checked_add(y)?;
        let d = self.den.checked_mul(b.den)?;
        proof {
            positive_product(self.den as int, b.den as int);
        }
        Some(make(n, d))
    }

    pub fn sub(&self, b: &Rational) -> (r: Option<Rational>)
        requires
            self.wf(),
            b.wf(),
        ensures
            r == spec_sub(*self, *b),
            r matches Some(v) ==> v.wf(),
    {
        let x = self.num.checked_mul(b.den)?;
        let y = b.num.checked_mul(self.den)?;
        let n = x.checked_sub(y)?;
        let d = self.den.checked_mul(b.den)?;
        proof {
            positive_product(self.den as int, b.den as int);
        }
        Some(make(n, d))
    }

    pub fn mul(&self, b: &Rational) -> (r: Option<Rational>)
        requires
            self.wf(),
            b.wf(),
        ensures
            r == spec_mul(*self, *b),
            r matches Some(v) ==> v.wf(),
    {
        let n = self.num.checked_mul(b.num)?;
        let d = self.den.checked_mul(b.den)?;
        proof {
            positive_product(self.den as int, b.den as int);
        }
        Some(make(n, d))
    }

    /// Division by a nonzero fraction.
    pub fn div(&self, b: &Rational) -> (r: Option<Rational>)
        requires
            self.wf(),
            b.wf(),
            b.num != 0,
        ensures
            r == spec_div(*self, *b),
            r matches Some(v) ==> v.wf(),
    {
        let n = self.num.checked_mul(b.den)?;
        let d = self.den.checked_mul(b.num)?;
        proof {
            nonzero_product(self.den as int, b.num as int);
        }
        if d < 0 {
            let n2 = 0i128.checked_sub(n)?;
            let d2 = 0i128.checked_sub(d)?;
            Some(make(n2, d2))
        } else {
            Some(make(n, d))
        }
    }

    /// The remainder of a truncated division by a nonzero fraction.
    pub fn rem(&self, b: &Rational) -> (r: Option<Rational>)
        requires
            self.wf(),
            b.wf(),
            b.num != 0,
        ensures
            r == spec_rem(*self, *b),
            r matches Some(v) ==> v.wf(),
    {
        let x = self.num.checked_mul(b.den)?;
        let y = b.num.checked_mul(self.den)?;
        let d = self.den.checked_mul(b.den)?;
        proof {
            positive_product(self.den as int, b.den as int);
            nonzero_product(b.num as int, self.den as int);
        }
        let m = magnitude(x) % magnitude(y);
        let n: i128 = if x < 0 {
            -(m as i128)
        } else {
            m as i128
        };
        Some(make(n, d))
    }

    pub fn neg(&self) -> (r: Option<Rational>)
        requires
            self.wf(),
        ensures
            r == spec_neg(*self),
            r matches Some(v) ==> v.wf(),
    {
        if self.num == i128::MIN {
            None
        } else {
            Some(Rational { num: -self.num, den: self.den })
        }
    }

    /// The value rounded to `p` fractional digits, halves away from zero.
    pub fn round_to(&self, p: u32) -> (r: Option<Rational>)
        requires
            self.wf(),
        ensures
            r == spec_round_to(*self, p as nat),
            r matches Some(v) ==> v.wf(),
    {
        let s = power_of_ten(p as usize)?;
        let n = self.num.checked_mul(s)?;
        let m = magnitude(n);
        let d = self.den as u128;
        let q = m / d;
        let rm = m % d;
        let k: u128 = if 2 * rm >= d {
            q + 1
        } else {
            q
        };
        proof {
            lemma_pow10_positive(p as nat);
        }
        let rounded: i128 = if n >= 0 {
            if k > i128::MAX as u128 {
                return None;
            }
            k as i128
        } else {
            if k > i128::MAX as u128 + 1 {
                return None;
            }
            if k == 0 {
                0
            } else {
                -1 - ((k - 1) as i128)
            }
        };
        Some(make(rounded, s))
    }
}

proof fn nonzero_product(a: int, b: int)
    requires
        a != 0,
        b != 0,
    ensures
        a * b != 0,
{
    assert(a * b != 0) by (nonlinear_arith)
        requires
            a != 0,
            b != 0,
    ;
}

/// `gcd(a, b)` divides both `a` and `b`.
pub proof fn lemma_gcd_divides(a: nat, b: nat)
    requires
        a > 0 || b > 0,
    ensures
        gcd(a, b) > 0,
        (a / gcd(a, b)) * gcd(a, b) == a,
        (b / gcd(a, b)) * gcd(a, b) == b,
    decreases b,
{
    if b == 0 {
        vstd::arithmetic::div_mod::lemma_div_by_self(a as int);
        vstd::arithmetic::div_mod::lemma_div_of0(a as int);
    } else {
        lemma_gcd_divides(b, a % b);
        let g = gcd(b, a % b) as int;
        let x = (b / g as nat) as int;
        let y = ((a % b) / g as nat) as int;
        vstd::arithmetic::div_mod::lemma_fundamental_div_mod(a as int, b as int);
        let q = (a / b) as int;
        let k = x * q + y;
        assert(a == k * g) by (nonlinear_arith)
            requires
                a == b * q + (a % b),
                x * g == b,
                y * g == a % b,
                k == x * q + y,
        ;
        vstd::arithmetic::div_mod::lemma_fundamental_div_mod_converse(a as int, g, k, 0);
    }
}

/// `normalized(n, d)` is a fraction of the same value as `n / d`.
pub proof fn lemma_normalized_value(n: int, d: int)
    requires
        fits(n),
        fits(d),
        d > 0,
    ensures
        normalized(n, d).num * d == n * normalized(n, d).den,
        normalized(n, d).wf(),
        normalized(n, d).num == 0 <==> n == 0,
{
    let g = gcd(abs(n), abs(d)) as int;
    lemma_gcd_divides(abs(n), abs(d));
    lemma_gcd_bounds(abs(n), abs(d));
    let m = abs(n) as int / g;
    let e = d / g;
    assert(0 <= m <= abs(n)) by (nonlinear_arith)
        requires
            m * g == abs(n),
            g > 0,
    ;
    assert(0 < e <= d) by (nonlinear_arith)
        requires
            e * g == d,
            g > 0,
            d > 0,
    ;
    assert(m == 0 <==> n == 0) by (nonlinear_arith)
        requires
            m * g == abs(n),
            g > 0,
    ;
    assert(m * d == abs(n) * e) by (nonlinear_arith)
        requires
            m * g == abs(n),
            e * g == d,
    ;
    if n < 0 {
        assert((-m) * d == n * e) by (nonlinear_arith)
            requires
                m * d == abs(n) * e,
                abs(n) == -n,
        ;
    }
}

/// Each arithmetic step yields exactly the fraction that the field operations
/// on `a` and `b` define, where it yields one.
pub proof fn lemma_operations_exact(a: Rational, b: Rational)
    requires
        a.wf(),
        b.wf(),
    ensures
        spec_add(a, b) matches Some(r) ==> r.num * (a.den * b.den) == (a.num * b.den + b.num
            * a.den) * r.den,
        spec_sub(a, b) matches Some(r) ==> r.num * (a.den * b.den) == (a.num * b.den - b.num
            * a.den) * r.den,
        spec_mul(a, b) matches Some(r) ==> r.num * (a.den * b.den) == (a.num * b.num) * r.den,
        b.num != 0 ==> (spec_div(a, b) matches Some(r) ==> r.num * (a.den * b.num) == (a.num
            * b.den) * r.den),
        spec_neg(a) matches Some(r) ==> r.num == -a.num && r.den == a.den,
        spec_add(a, b) matches Some(r) ==> r.wf(),
        spec_sub(a, b) matches Some(r) ==> r.wf(),
        spec_mul(a, b) matches Some(r) ==> r.wf(),
        b.num != 0 ==> (spec_div(a, b) matches Some(r) ==> r.wf()),
{
    let d = a.den * b.den;
    positive_product(a.den as int, b.den as int);
    if let Some(r) = spec_add(a, b) {
        lemma_normalized_value(a.num * b.den + b.num * a.den, d);
    }
    if let Some(r) = spec_sub(a, b) {
        lemma_normalized_value(a.num * b.den - b.num * a.den, d);
    }
    if let Some(r) = spec_mul(a, b) {
        lemma_normalized_value(a.num * b.num, d);
    }
    if b.num != 0 {
        if let Some(r) = spec_div(a, b) {
            let n = a.num * b.den;
            let e = a.den * b.num;
            nonzero_product(a.den as int, b.num as int);
            if e < 0 {
                lemma_normalized_value(-n, -e);
                assert(r.num * e == n * r.den) by (nonlinear_arith)
                    requires
                        r.num * (-e) == (-n) * r.den,
                ;
            } else {
                lemma_normalized_value(n, e);
            }
        }
    }
}

proof fn lemma_pow10_grows(i: nat, j: nat)
    requires
        i <= j,
    ensures
        pow10(i) <= pow10(j),
    decreases j - i,
{
    if i < j {
        lemma_pow10_grows(i, (j - 1) as nat);
        lemma_pow10_positive((j - 1) as nat);
    }
}

/// `10^p`, when it fits in `i128`.
pub(crate) fn power_of_ten(p: usize) -> (r: Option<i128>)
    ensures
        r == (if fits(pow10(p as nat)) {
            Some(pow10(p as nat) as i128)
        } else {
            None
        }),
{
    let mut acc: i128 = 1;
    let mut i: usize = 0;
    while i < p
        invariant
            i <= p,
            acc as int == pow10(i as nat),
        decreases p - i,
    {
        match acc.checked_mul(10) {
            Some(v) => {
                acc = v;
            },
            None => {
                proof {
                    lemma_pow10_grows((i + 1) as nat, p as nat);
                    lemma_pow10_positive(i as nat);
                }
                return None;
            },
        }
        i = i + 1;
    }
    proof {
        lemma_pow10_positive(p as nat);
    }
    Some(acc)
}

} // verus!
