//! Rational time bases and timestamps.
use vstd::prelude::*;
use num_rational::Ratio;
use num_traits::{CheckedDiv, CheckedMul};

verus! {

/// A time base `num/den` seconds per tick.
#[derive(Debug, Clone, Copy, PartialEq, Eq, Structural)]
pub struct TimeBase {
    pub num: u32,
    pub den: u32,
}

/// `a / b` rounded toward zero, for a positive `b`.
pub open spec fn trunc_div(a: int, b: int) -> int {
    if a >= 0 { a / b } else { -((-a) / b) }
}

/// `|x|`.
pub open spec fn abs_int(x: int) -> int {
    if x >= 0 { x } else { -x }
}

/// Calls `Ratio::new` of `num_rational` on `i64`: the fraction `n / d` in lowest
/// terms with a positive denominator, as `(numerator, denominator)`. The contract
/// claims that it is the same fraction, with a positive denominator, and that
/// reducing it makes neither part larger.
#[verifier::external_body]
fn ratio_new(n: i64, d: i64) -> (r: (i64, i64))
    requires
        0 <= n,
        0 < d,
    ensures
        0 <= r.0 <= n,
        0 < r.1 <= d,
        r.0 * d == n * r.1,
{
    let q = Ratio::new(n, d);
    (*q.numer(), *q.denom())
}

/// Calls `CheckedDiv::checked_div` of `num_rational` on the `i64` ratios `a` and
/// `b` (given as numerator and denominator): `None` when `b` is zero or a product
/// overflows. The contract claims `None` for a zero `b`; a quotient where `b` is
/// not zero and the cross products `a.0 * b.1` and `a.1 * b.0` fit `i64` (the
/// products it forms are these divided by common factors); and that a quotient is
/// `a / b` with a positive denominator, its parts no larger than those cross
/// products.
#[verifier::external_body]
fn ratio_checked_div(a: (i64, i64), b: (i64, i64)) -> (r: Option<(i64, i64)>)
    requires
        0 <= a.0,
        0 < a.1,
        0 <= b.0,
        0 < b.1,
    ensures
        b.0 == 0 ==> r is None,
        b.0 > 0 && a.0 * b.1 <= i64::MAX && a.1 * b.0 <= i64::MAX ==> r is Some,
        r matches Some(q) ==> 0 < q.1 && q.0 * a.1 * b.0 == a.0 * b.1 * q.1
            && 0 <= q.0 <= a.0 * b.1 && q.1 <= a.1 * b.0,
{
    match Ratio::new_raw(a.0, a.1).checked_div(&Ratio::new_raw(b.0, b.1)) {
        Some(q) => Some((*q.numer(), *q.denom())),
        None => None,
    }
}

/// Calls `CheckedMul::checked_mul` of `num_rational` on the `i64` ratios `a` and
/// `b`: `None` when a product overflows. The contract claims a product where
/// `|a.0| * b.0` and `a.1 * b.1` fit `i64` (the products it forms are these divided
/// by common factors), and that a product is `a * b` with a positive denominator.
#[verifier::external_body]
fn ratio_checked_mul(a: (i64, i64), b: (i64, i64)) -> (r: Option<(i64, i64)>)
    requires
        0 < a.1,
        0 <= b.0,
        0 < b.1,
    ensures
        abs_int(a.0 as int) * b.0 <= i64::MAX && a.1 * b.1 <= i64::MAX ==> r is Some,
        r matches Some(p) ==> 0 < p.1 && p.0 * a.1 * b.1 == a.0 * b.0 * p.1,
{
    match Ratio::new_raw(a.0, a.1).checked_mul(&Ratio::new_raw(b.0, b.1)) {
        Some(p) => Some((*p.numer(), *p.denom())),
        None => None,
    }
}

/// Calls `Ratio::to_integer` of `num_rational` on the `i64` ratio `p`: the
/// numerator divided by the denominator, rounded toward zero.
#[verifier::external_body]
fn ratio_to_integer(p: (i64, i64)) -> (r: i64)
    requires
        0 < p.1,
    ensures
        r == trunc_div(p.0 as int, p.1 as int),
{
    Ratio::new_raw(p.0, p.1).to_integer()
}

/// Chaining the ratios of a rescale: the product `p` equals
/// `value * num * tden / (den * tnum)`.
proof fn lemma_rescale_chain(value: int, num: int, den: int, tnum: int, tden: int,
    a0: int, a1: int, b0: int, b1: int, q0: int, q1: int, p0: int, p1: int)
    requires
        den > 0, tden > 0, tnum > 0, num >= 0,
        a1 > 0, b1 > 0, q1 > 0, p1 > 0, a0 >= 0, b0 >= 0,
        a0 * den == num * a1,
        b0 * tden == tnum * b1,
        q0 * a1 * b0 == a0 * b1 * q1,
        p0 * 1 * q1 == value * q0 * p1,
    ensures
        p0 * (den * tnum) == (value * num * tden) * p1,
{
    let x = p0 * q1;
    let y = q0 * a1 * b0;
    assert(p0 * a1 * b0 * q1 == x * (a1 * b0)) by (nonlinear_arith) requires x == p0 * q1;
    assert(x == value * q0 * p1) by (nonlinear_arith) requires x == p0 * q1, p0 * 1 * q1 == value * q0 * p1;
    assert(x * (a1 * b0) == value * p1 * y) by (nonlinear_arith) requires x == value * q0 * p1, y == q0 * a1 * b0;
    assert(value * p1 * y == value * p1 * (a0 * b1) * q1) by (nonlinear_arith) requires y == a0 * b1 * q1;
    let e = p0 * a1 * b0;
    let f = value * p1 * a0 * b1;
    assert(e * q1 == f * q1) by (nonlinear_arith)
        requires e == p0 * a1 * b0, f == value * p1 * a0 * b1,
            p0 * a1 * b0 * q1 == value * p1 * (a0 * b1) * q1;
    assert(e == f) by (nonlinear_arith) requires e * q1 == f * q1, q1 > 0;
    let g = b0 * tden;
    let h = a0 * den;
    assert(e * den * tden == p0 * a1 * den * g) by (nonlinear_arith) requires e == p0 * a1 * b0, g == b0 * tden;
    assert(f * den * tden == value * p1 * h * b1 * tden) by (nonlinear_arith) requires f == value * p1 * a0 * b1, h == a0 * den;
    assert(p0 * a1 * den * g == p0 * (den * tnum) * (a1 * b1)) by (nonlinear_arith) requires g == tnum * b1;
    let vp = value * p1;
    assert(vp * h * b1 * tden == vp * (num * a1) * b1 * tden) by { assert(h == num * a1); }
    assert(vp * (num * a1) * b1 * tden == (value * num * tden) * p1 * (a1 * b1)) by (nonlinear_arith)
        requires vp == value * p1;
    assert(value * p1 * h * b1 * tden == vp * h * b1 * tden);
    assert(e * den * tden == f * den * tden) by (nonlinear_arith) requires e == f;
    let lhs = p0 * (den * tnum);
    let rhs = (value * num * tden) * p1;
    let k = a1 * b1;
    assert(k > 0) by (nonlinear_arith) requires a1 > 0, b1 > 0, k == a1 * b1;
    assert(lhs * k == rhs * k);
    assert(lhs == rhs) by (nonlinear_arith) requires lhs * k == rhs * k, k > 0;
}

/// Equal fractions with positive denominators have the same quotient rounded
/// toward zero.
proof fn lemma_trunc_div_equal(x: int, b: int, y: int, d: int)
    requires
        b > 0,
        d > 0,
        x * d == y * b,
    ensures
        trunc_div(x, b) == trunc_div(y, d),
{
    assert(x >= 0 <==> y >= 0) by (nonlinear_arith)
        requires b > 0, d > 0, x * d == y * b;
    let ax = if x >= 0 { x } else { -x };
    let ay = if y >= 0 { y } else { -y };
    assert(ax * d == ay * b) by (nonlinear_arith)
        requires x * d == y * b, ax == (if x >= 0 { x } else { -x }), ay == (if y >= 0 { y } else { -y }),
            x >= 0 <==> y >= 0;
    let q = ax / b;
    let r = ax % b;
    vstd::arithmetic::div_mod::lemma_fundamental_div_mod(ax, b);
    assert(0 <= r < b);
    assert(ay * b == q * d * b + r * d) by (nonlinear_arith)
        requires ax * d == ay * b, ax == b * q + r;
    assert(q * d <= ay) by (nonlinear_arith)
        requires ay * b == q * d * b + r * d, r >= 0, d > 0, b > 0;
    assert(ay < q * d + d) by (nonlinear_arith)
        requires ay * b == q * d * b + r * d, r < b, d > 0, b > 0;
    vstd::arithmetic::div_mod::lemma_fundamental_div_mod_converse_div(ay, d, q, ay - q * d);
}

impl Default for TimeBase {
    /// The default time base, microseconds (1/1000000).
    fn default() -> (tb: TimeBase)
        ensures
            tb.num == 1,
            tb.den == 1_000_000,
    {
        TimeBase::new(1, 1_000_000)
    }
}

/// The decimal digits of `n`, most significant first, without leading zeros
/// (`"0"` for zero).
pub open spec fn decimal_digits(n: nat) -> Seq<char>
    decreases n,
{
    if n < 10 {
        seq![digit_char(n)]
    } else {
        decimal_digits(n / 10).push(digit_char(n % 10))
    }
}

/// The ASCII character of a decimal digit.
pub open spec fn digit_char(d: nat) -> char {
    ((48 + d) as u8) as char
}

/// `String::push` from std: appends one character.
#[verifier::external_body]
pub(crate) fn string_push(s: &mut String, c: char)
    ensures
        final(s)@ == old(s)@.push(c),
{
    s.push(c);
}

/// The decimal representation of `n`.
pub fn u32_to_decimal(n: u32) -> (s: String)
    ensures
        s@ == decimal_digits(n as nat),
    decreases n,
{
    if n < 10 {
        let mut s = String::new();
        string_push(&mut s, ((48 + n) as u8) as char);
        s
    } else {
        let mut s = u32_to_decimal(n / 10);
        string_push(&mut s, ((48 + n % 10) as u8) as char);
        s
    }
}

/// The decimal representation of `n`.
pub fn usize_to_decimal(n: usize) -> (s: String)
    ensures
        s@ == decimal_digits(n as nat),
    decreases n,
{
    if n < 10 {
        let mut s = String::new();
        string_push(&mut s, ((48 + n) as u8) as char);
        s
    } else {
        let mut s = usize_to_decimal(n / 10);
        string_push(&mut s, ((48 + n % 10) as u8) as char);
        s
    }
}

impl TimeBase {
    /// A time base with a positive denominator.
    pub fn new(num: u32, den: u32) -> (tb: TimeBase)
        requires
            den > 0,
        ensures
            tb.num == num,
            tb.den == den,
    {
        TimeBase { num, den }
    }

    /// The time base written as `num/den`, such as `1/90000`.
    pub fn to_display_string(&self) -> (s: String)
        ensures
            s@ == decimal_digits(self.num as nat) + seq!['/'] + decimal_digits(self.den as nat),
    {
        let mut s = u32_to_decimal(self.num);
        string_push(&mut s, '/');
        let d = u32_to_decimal(self.den);
        s.append(d.as_str());
        s
    }
    /// Rescale a timestamp from this time base into `target` with rational
    /// arithmetic: `value * (num / den) / (tnum / tden)`, rounded toward zero. `None`
    /// where the target ratio is zero, or where an intermediate product of the
    /// rational arithmetic overflows `i64`; a value where the target ratio is not
    /// zero and `|value| * num * tden`, `num * tden` and `den * tnum` fit `i64`.
    pub fn convert(&self, value: i64, target: TimeBase) -> (r: Option<i64>)
        requires
            self.den > 0,
            target.den > 0,
        ensures
            target.num == 0 ==> r is None,
            target.num > 0 && abs_int(value as int) * self.num * target.den <= i64::MAX
                && self.num * target.den <= i64::MAX && self.den * target.num <= i64::MAX ==> r is Some,
            r matches Some(v) ==> v == trunc_div(value * self.num * target.den, self.den * target.num),
    {
        let a = ratio_new(self.num as i64, self.den as i64);
        let b = ratio_new(target.num as i64, target.den as i64);
        proof {
            if target.num == 0 {
                assert(b.0 == 0) by (nonlinear_arith)
                    requires b.0 * (target.den as int) == (target.num as int) * b.1, target.num == 0, target.den > 0;
            }
        }
        let ghost fits = target.num > 0 && abs_int(value as int) * self.num * target.den <= i64::MAX
            && self.num * target.den <= i64::MAX && self.den * target.num <= i64::MAX;
        proof {
            if fits {
                assert(b.0 > 0) by (nonlinear_arith)
                    requires b.0 * (target.den as int) == (target.num as int) * b.1, target.num > 0, target.den > 0,
                        b.1 > 0, b.0 >= 0;
                assert(a.0 * b.1 <= self.num * target.den) by (nonlinear_arith)
                    requires 0 <= a.0 <= self.num, 0 < b.1 <= target.den;
                assert(a.1 * b.0 <= self.den * target.num) by (nonlinear_arith)
                    requires 0 < a.1 <= self.den, 0 <= b.0 <= target.num;
            }
        }
        let q = match ratio_checked_div(a, b) {
            Some(q) => q,
            None => return None,
        };
        proof {
            if fits {
                assert(abs_int(value as int) * q.0 <= abs_int(value as int) * self.num * target.den) by (nonlinear_arith)
                    requires 0 <= q.0 <= a.0 * b.1, a.0 * b.1 <= self.num * target.den, abs_int(value as int) >= 0;
                assert(1 * q.1 <= i64::MAX) by (nonlinear_arith)
                    requires q.1 <= a.1 * b.0, a.1 * b.0 <= self.den * target.num, self.den * target.num <= i64::MAX;
            }
        }
        let p = match ratio_checked_mul((value, 1), q) {
            Some(p) => p,
            None => return None,
        };
        let v = ratio_to_integer(p);
        proof {
            lemma_rescale_chain(value as int, self.num as int, self.den as int, target.num as int, target.den as int,
                a.0 as int, a.1 as int, b.0 as int, b.1 as int, q.0 as int, q.1 as int, p.0 as int, p.1 as int);
            assert(self.den * target.num > 0) by (nonlinear_arith) requires self.den > 0, target.num > 0;
            lemma_trunc_div_equal(p.0 as int, p.1 as int, value * self.num * target.den, self.den * target.num);
        }
        Some(v)
    }
}

/// Presentation timestamp, in ticks of a time base.
#[derive(Debug, Clone, Copy, PartialEq, Eq, PartialOrd, Ord, Structural)]
pub struct Pts(pub i64);

impl Pts {
    pub fn new(value: i64) -> (p: Pts)
        ensures
            p.0 == value,
    {
        Pts(value)
    }

    /// This timestamp moved forward by `duration` ticks.
    pub fn add(&self, duration: i64) -> (p: Pts)
        requires
            i64::MIN <= self.0 + duration <= i64::MAX,
        ensures
            p.0 == self.0 + duration,
    {
        Pts(self.0 + duration)
    }
}

/// Decode timestamp, in ticks of a time base.
#[derive(Debug, Clone, Copy, PartialEq, Eq, PartialOrd, Ord, Structural)]
pub struct Dts(pub i64);

impl Dts {
    pub fn new(value: i64) -> (d: Dts)
        ensures
            d.0 == value,
    {
        Dts(value)
    }
}

} // verus!
