use vstd::prelude::*;
use crate::util::error::{Error, Result, msg};
use crate::util::mathematics::{spec_gcd, abs, divides, multiple, lemma_gcd_divides, lemma_gcd_le};
use crate::util::text::{decimal_text, push_signed_decimal};
use vstd::std_specs::cmp::{PartialEqSpecImpl, PartialOrdSpecImpl};
use vstd::std_specs::ops::{NegSpecImpl, AddSpecImpl, SubSpecImpl, MulSpecImpl, DivSpecImpl};
use core::cmp::Ordering;
use core::ops::{Add, Div, Mul, Neg, Sub};

verus! {

/// A rational number represented as numerator / denominator.
///
/// Used for timestamps, frame rates, sample aspect ratios, and time bases.
/// Zero denominator is allowed only as a sentinel ("unknown" / invalid).
#[derive(Clone, Copy, Eq, Debug)]
pub struct Rational {
    pub num: i32,
    pub den: i32,
}

pub open spec fn fits_i32(x: int) -> bool {
    i32::MIN <= x <= i32::MAX
}

/// The gcd by which [`Rational::reduce`] divides, for a nonzero numerator.
pub open spec fn common_divisor(n: int, d: int) -> int {
    let g = spec_gcd(abs(n), abs(d));
    if g == 0 { 1 } else { g as int }
}

/// `n/d` in lowest terms with a positive denominator, or `None` when a
/// component does not fit in `i32` (only possible when negating `i32::MIN`).
pub open spec fn reduced(n: int, d: int) -> Option<Rational> {
    if n == 0 {
        Some(Rational { num: 0, den: 1 })
    } else {
        let g = common_divisor(n, d);
        let n1 = n / g;
        let d1 = d / g;
        let (n2, d2) = if d1 < 0 { (-n1, -d1) } else { (n1, d1) };
        if fits_i32(n2) && fits_i32(d2) {
            Some(Rational { num: n2 as i32, den: d2 as i32 })
        } else {
            None
        }
    }
}

/// The outcome of an arithmetic operation whose exact result is `n/d`:
/// divide by the common divisor, check that both parts fit in `i32`, then reduce.
pub open spec fn arith_result(n: int, d: int) -> Option<Rational> {
    let g = common_divisor(n, d);
    let n1 = n / g;
    let d1 = d / g;
    if fits_i32(n1) && fits_i32(d1) { reduced(n1, d1) } else { None }
}

/// Turns an optional arithmetic outcome into the operation's result.
pub open spec fn overflow_or(o: Option<Rational>) -> Result<Rational> {
    match o {
        Some(r) => Ok(r),
        None => Err(Error::Overflow),
    }
}

impl Rational {
    /// The value is defined (denominator not zero).
    pub open spec fn valid(self) -> bool {
        self.den != 0
    }

    /// `self` and `other` denote the same number (cross products agree).
    pub open spec fn same_value(self, other: Rational) -> bool {
        self.num * other.den == other.num * self.den
    }

    /// Create a new rational. Denominator of 0 represents "unknown".
    pub fn new(num: i32, den: i32) -> (r: Self)
        ensures r.num == num && r.den == den,
    {
        Self { num, den }
    }

    /// The zero rational (0/1).
    pub fn zero() -> (r: Self)
        ensures r.num == 0 && r.den == 1,
    {
        Self { num: 0, den: 1 }
    }

    /// An "unknown" / invalid rational (0/0).
    pub fn unknown() -> (r: Self)
        ensures r.num == 0 && r.den == 0,
    {
        Self { num: 0, den: 0 }
    }

    /// Returns true if this rational is valid (denominator != 0).
    pub fn is_valid(&self) -> (r: bool)
        ensures r == self.valid(),
    {
        self.den != 0
    }

    /// Reduce this rational to lowest terms with a positive denominator.
    ///
    /// Returns `Error::InvalidArgument` if denominator is 0, and
    /// `Error::Overflow` when the sign change does not fit (`i32::MIN`).
    pub fn reduce(&self) -> (r: Result<Self>)
        ensures
            self.den == 0 <==> r matches Err(Error::InvalidArgument(_)),
            self.den != 0 ==> r == overflow_or(reduced(self.num as int, self.den as int)),
    {
        if self.den == 0 {
            return Err(Error::InvalidArgument(msg("denominator is zero")));
        }
        match reduce_parts(self.num as i64, self.den as i64) {
            Some(r) => Ok(r),
            None => Err(Error::Overflow),
        }
    }

    /// Invert (swap numerator and denominator).
    ///
    /// Returns `Error::InvalidArgument` if numerator is 0.
    pub fn invert(&self) -> (r: Result<Self>)
        ensures
            self.num == 0 <==> r matches Err(Error::InvalidArgument(_)),
            self.num != 0 ==> r == Ok::<Rational, Error>(Rational { num: self.den, den: self.num }),
    {
        if self.num == 0 {
            return Err(Error::InvalidArgument(msg("cannot invert zero rational")));
        }
        Ok(Self::new(self.den, self.num))
    }

    /// Text form `num/den`.
    pub fn to_string(&self) -> (r: String)
        ensures r@ == decimal_text(self.num as int) + seq!['/'] + decimal_text(self.den as int),
    {
        let mut s = String::new();
        push_signed_decimal(&mut s, self.num as i64);
        proof { reveal_strlit("/"); }
        s.append("/");
        push_signed_decimal(&mut s, self.den as i64);
        s
    }
}

/// Exact division of `x` by a positive divisor of it.
fn div_exact(x: i128, g: i128) -> (r: i128)
    requires g >= 1, divides(g as int, x as int), -0x1_0000_0000_0000_0000 < x < 0x1_0000_0000_0000_0000,
    ensures r == x as int / g as int, r * g == x, abs(r as int) <= abs(x as int),
{
    let ghost k = choose|k: int| multiple(g as int, k) == x as int;
    proof {
        vstd::arithmetic::div_mod::lemma_div_multiples_vanish(k, g as int);
        assert(k * g == x) by(nonlinear_arith) requires multiple(g as int, k) == x as int;
        if k > 0 {
            assert(k <= x) by(nonlinear_arith) requires k * g == x, g >= 1, k > 0;
        } else if k < 0 {
            assert(-k <= -x) by(nonlinear_arith) requires k * g == x, g >= 1, k < 0;
        }
    }
    if x < 0 {
        let m = 0 - x;
        proof {
            vstd::arithmetic::div_mod::lemma_div_multiples_vanish(-k, g as int);
            assert(m == g * (-k)) by(nonlinear_arith) requires k * g == x, m == -x;
        }
        let q = m / g;
        0 - q
    } else {
        x / g
    }
}

proof fn lemma_divisor_bounds(n: int, d: int)
    requires n != 0,
    ensures
        spec_gcd(abs(n), abs(d)) == common_divisor(n, d),
        common_divisor(n, d) >= 1,
        divides(common_divisor(n, d), n),
        divides(common_divisor(n, d), d),
        common_divisor(n, d) <= abs(n),
{
    lemma_gcd_le(abs(n), abs(d));
    lemma_gcd_divides(abs(n), abs(d));
    let g = spec_gcd(abs(n), abs(d)) as int;
    let k1 = choose|k: int| multiple(g, k) == abs(n) as int;
    if g == 0 {
        assert(g * k1 == 0) by(nonlinear_arith) requires g == 0;
    }
    let k2 = choose|k: int| multiple(g, k) == abs(d) as int;
    if n < 0 { assert(n == g * (-k1)) by(nonlinear_arith) requires -n == g * k1; assert(multiple(g, -k1) == n); }
    if d < 0 { assert(d == g * (-k2)) by(nonlinear_arith) requires -d == g * k2; assert(multiple(g, -k2) == d); }
}

fn gcd_i128(a: i128, b: i128) -> (r: i128)
    requires -0x1_0000_0000_0000_0000 < a < 0x1_0000_0000_0000_0000,
        -0x1_0000_0000_0000_0000 < b < 0x1_0000_0000_0000_0000,
    ensures r == spec_gcd(abs(a as int), abs(b as int)),
{
    let mut x: u128 = if a < 0 { (0 - a) as u128 } else { a as u128 };
    let mut y: u128 = if b < 0 { (0 - b) as u128 } else { b as u128 };
    let ghost x0 = x;
    let ghost y0 = y;
    while y != 0
        invariant spec_gcd(x as nat, y as nat) == spec_gcd(x0 as nat, y0 as nat),
            x0 == abs(a as int), y0 == abs(b as int), x <= 0x1_0000_0000_0000_0000 || y != 0,
            x <= 0x1_0000_0000_0000_0000, y <= 0x1_0000_0000_0000_0000,
        decreases y,
    {
        let t = y;
        y = x % y;
        x = t;
    }
    x as i128
}

/// The reduction of `n/d` for a nonzero `d`, computed exactly.
fn reduce_parts(n: i64, d: i64) -> (r: Option<Rational>)
    requires d != 0,
    ensures r == reduced(n as int, d as int),
{
    if n == 0 {
        return Some(Rational { num: 0, den: 1 });
    }
    let g = gcd_i128(n as i128, d as i128);
    proof { lemma_divisor_bounds(n as int, d as int); }
    let n1 = div_exact(n as i128, g);
    let d1 = div_exact(d as i128, g);
    let (n2, d2) = if d1 < 0 { (0 - n1, 0 - d1) } else { (n1, d1) };
    if -0x8000_0000 <= n2 && n2 <= 0x7FFF_FFFF && -0x8000_0000 <= d2 && d2 <= 0x7FFF_FFFF {
        Some(Rational { num: n2 as i32, den: d2 as i32 })
    } else {
        None
    }
}

/// The outcome of an operation whose exact result is `n/d`, `d` nonzero.
fn arith_parts(n: i128, d: i128) -> (r: Option<Rational>)
    requires d != 0,
        -0x1_0000_0000_0000_0000 < n < 0x1_0000_0000_0000_0000,
        -0x1_0000_0000_0000_0000 < d < 0x1_0000_0000_0000_0000,
    ensures r == arith_result(n as int, d as int),
{
    if n == 0 {
        proof {
            let ad = abs(d as int);
            assert(spec_gcd(0, ad) == spec_gcd(ad, 0nat % ad));
            vstd::arithmetic::div_mod::lemma_small_mod(0, ad);
            assert(common_divisor(0, d as int) == ad);
            vstd::arithmetic::div_mod::lemma_div_multiples_vanish(0, ad as int);
            assert(0int / ad as int == 0) by(nonlinear_arith) requires (ad as int * 0) / ad as int == 0;
            if d > 0 {
                vstd::arithmetic::div_mod::lemma_div_multiples_vanish(1, ad as int);
                assert(d as int / ad as int == 1) by(nonlinear_arith) requires (ad as int * 1) / ad as int == 1, d == ad;
            } else {
                vstd::arithmetic::div_mod::lemma_div_multiples_vanish(-1, ad as int);
                assert(d as int / ad as int == -1) by(nonlinear_arith) requires (ad as int * -1) / ad as int == -1, d == -ad;
            }
        }
        return Some(Rational { num: 0, den: 1 });
    }
    let g = gcd_i128(n, d);
    proof { lemma_divisor_bounds(n as int, d as int); }
    let n1 = div_exact(n, g);
    let d1 = div_exact(d, g);
    if -0x8000_0000 <= n1 && n1 <= 0x7FFF_FFFF && -0x8000_0000 <= d1 && d1 <= 0x7FFF_FFFF {
        proof {
            if d1 == 0 {
                assert(d1 * g == 0) by(nonlinear_arith) requires d1 == 0;
            }
        }
        reduce_parts(n1 as i64, d1 as i64)
    } else {
        None
    }
}

/// `v` held to the range of `i64`.
pub open spec fn clamp_i64(v: int) -> int {
    if v > i64::MAX { i64::MAX as int } else if v < i64::MIN { i64::MIN as int } else { v }
}

/// `a * b`, saturating at the bounds of `i64`.
fn saturating_mul_i64(a: i64, b: i64) -> (r: i64)
    ensures r == clamp_i64(a * b),
{
    assert(-0x4000_0000_0000_0000_0000_0000_0000_0000 <= a * b <= 0x4000_0000_0000_0000_0000_0000_0000_0000)
        by(nonlinear_arith)
        requires i64::MIN <= a <= i64::MAX, i64::MIN <= b <= i64::MAX;
    let p = (a as i128) * (b as i128);
    if p > i64::MAX as i128 {
        i64::MAX
    } else if p < i64::MIN as i128 {
        i64::MIN
    } else {
        p as i64
    }
}

/// `a + b`, saturating at the bounds of `i64`.
fn saturating_add_i64(a: i64, b: i64) -> (r: i64)
    ensures r == clamp_i64(a + b),
{
    let s = (a as i128) + (b as i128);
    if s > i64::MAX as i128 {
        i64::MAX
    } else if s < i64::MIN as i128 {
        i64::MIN
    } else {
        s as i64
    }
}

/// The numerator and denominator of the convergent that follows `p0/q0`
/// and `p1/q1` for the partial quotient `a`: `a·p1 + p0` over `a·q1 + q0`,
/// each product and sum saturating at the bounds of `i64`.
pub open spec fn convergent(a: i64, p0: i64, q0: i64, p1: i64, q1: i64) -> (int, int) {
    (clamp_i64(clamp_i64(a * p1) + p0), clamp_i64(clamp_i64(a * q1) + q0))
}

/// One step of a continued-fraction approximation: the next convergent
/// (see [`convergent`]), or `None` when its denominator exceeds `max_den`.
pub fn next_convergent(a: i64, p0: i64, q0: i64, p1: i64, q1: i64, max_den: i64) -> (r: Option<(i64, i64)>)
    ensures
        convergent(a, p0, q0, p1, q1).1 > max_den ==> r is None,
        convergent(a, p0, q0, p1, q1).1 <= max_den ==> (r matches Some(c)
            && c.0 == convergent(a, p0, q0, p1, q1).0 && c.1 == convergent(a, p0, q0, p1, q1).1),
{
    let p2 = saturating_add_i64(saturating_mul_i64(a, p1), p0);
    let q2 = saturating_add_i64(saturating_mul_i64(a, q1), q0);
    if q2 > max_den {
        None
    } else {
        Some((p2, q2))
    }
}

/// The rational `p/q`, negated when `neg`; `Overflow` when the numerator
/// or the denominator leaves the range of `i32`.
pub fn rational_of_convergent(neg: bool, p: i64, q: i64) -> (r: Result<Rational>)
    requires p > i64::MIN,
    ensures
        ({
            let n = if neg { -p } else { p as int };
            &&& (fits_i32(n) && fits_i32(q as int)) ==> r == Ok::<Rational, Error>(Rational { num: n as i32, den: q as i32 })
            &&& !(fits_i32(n) && fits_i32(q as int)) ==> r == Err::<Rational, Error>(Error::Overflow)
        }),
{
    let n = if neg { -p } else { p };
    if -0x8000_0000 <= n && n <= 0x7FFF_FFFF && -0x8000_0000 <= q && q <= 0x7FFF_FFFF {
        Ok(Rational::new(n as i32, q as i32))
    } else {
        Err(Error::Overflow)
    }
}

/// The product of two `i32`s, exactly.
pub fn mul_i32(a: i32, b: i32) -> (r: i64)
    ensures r == a * b, -0x4000_0000_0000_0000 <= r <= 0x4000_0000_0000_0000,
{
    assert(-0x4000_0000_0000_0000 <= a * b <= 0x4000_0000_0000_0000) by(nonlinear_arith)
        requires -0x8000_0000 <= a <= 0x7FFF_FFFF, -0x8000_0000 <= b <= 0x7FFF_FFFF;
    (a as i64) * (b as i64)
}

fn cross(a: Rational, b: Rational) -> (r: (i64, i64))
    ensures r.0 == a.num * b.den, r.1 == b.num * a.den,
        -0x4000_0000_0000_0000 <= r.0 <= 0x4000_0000_0000_0000,
        -0x4000_0000_0000_0000 <= r.1 <= 0x4000_0000_0000_0000,
{
    (mul_i32(a.num, b.den), mul_i32(b.num, a.den))
}

/// What `==` means on rationals: both valid and denoting the same number.
pub open spec fn equal_values(a: Rational, b: Rational) -> bool {
    a.valid() && b.valid() && a.same_value(b)
}

impl PartialEq for Rational {
    fn eq(&self, other: &Self) -> (r: bool) {
        if !self.is_valid() || !other.is_valid() {
            return false;
        }
        let c = cross(*self, *other);
        c.0 == c.1
    }
}

impl PartialEqSpecImpl for Rational {
    open spec fn obeys_eq_spec() -> bool {
        true
    }

    open spec fn eq_spec(&self, other: &Rational) -> bool {
        equal_values(*self, *other)
    }
}

/// The exact result of `a + b` before reduction: numerator and denominator.
pub open spec fn sum_parts(a: Rational, b: Rational) -> (int, int) {
    (a.num * b.den + b.num * a.den, a.den * b.den)
}

/// The exact result of `a - b` before reduction.
pub open spec fn difference_parts(a: Rational, b: Rational) -> (int, int) {
    (a.num * b.den - b.num * a.den, a.den * b.den)
}

/// The exact result of `a * b` before reduction.
pub open spec fn product_parts(a: Rational, b: Rational) -> (int, int) {
    (a.num * b.num, a.den * b.den)
}

/// The exact result of `a / b` before reduction.
pub open spec fn quotient_parts(a: Rational, b: Rational) -> (int, int) {
    (a.num * b.den, a.den * b.num)
}

/// What an arithmetic operator returns for operands it accepts.
pub open spec fn operation_result(parts: (int, int)) -> Result<Rational> {
    overflow_or(arith_result(parts.0, parts.1))
}

fn result_of(o: Option<Rational>) -> (r: Result<Rational>)
    ensures r == overflow_or(o),
{
    match o {
        Some(x) => Ok(x),
        None => Err(Error::Overflow),
    }
}

impl AddSpecImpl for Rational {
    /// The operator's result is stated by its own `ensures`; an invalid
    /// operand gives an error whose message no spec names.
    open spec fn obeys_add_spec() -> bool {
        false
    }

    open spec fn add_req(self, rhs: Rational) -> bool {
        true
    }

    open spec fn add_spec(self, rhs: Rational) -> Result<Rational> {
        operation_result(sum_parts(self, rhs))
    }
}

impl Add for Rational {
    type Output = Result<Rational>;

    fn add(self, rhs: Rational) -> (r: Result<Rational>)
        ensures
            !self.valid() || !rhs.valid() <==> r matches Err(Error::InvalidArgument(_)),
            self.valid() && rhs.valid() ==> r == operation_result(sum_parts(self, rhs)),
    {
        if !self.is_valid() || !rhs.is_valid() {
            return Err(Error::InvalidArgument(msg("cannot add invalid rationals")));
        }
        let c = cross(self, rhs);
        let n = (c.0 as i128) + (c.1 as i128);
        let d = mul_i32(self.den, rhs.den) as i128;
        proof { assert(d != 0) by(nonlinear_arith) requires d == self.den * rhs.den, self.den != 0, rhs.den != 0; }
        result_of(arith_parts(n, d))
    }
}

impl SubSpecImpl for Rational {
    /// The operator's result is stated by its own `ensures`; an invalid
    /// operand gives an error whose message no spec names.
    open spec fn obeys_sub_spec() -> bool {
        false
    }

    open spec fn sub_req(self, rhs: Rational) -> bool {
        true
    }

    open spec fn sub_spec(self, rhs: Rational) -> Result<Rational> {
        operation_result(difference_parts(self, rhs))
    }
}

impl Sub for Rational {
    type Output = Result<Rational>;

    fn sub(self, rhs: Rational) -> (r: Result<Rational>)
        ensures
            !self.valid() || !rhs.valid() <==> r matches Err(Error::InvalidArgument(_)),
            self.valid() && rhs.valid() ==> r == operation_result(difference_parts(self, rhs)),
    {
        if !self.is_valid() || !rhs.is_valid() {
            return Err(Error::InvalidArgument(msg("cannot add invalid rationals")));
        }
        let c = cross(self, rhs);
        let n = (c.0 as i128) - (c.1 as i128);
        let d = mul_i32(self.den, rhs.den) as i128;
        proof { assert(d != 0) by(nonlinear_arith) requires d == self.den * rhs.den, self.den != 0, rhs.den != 0; }
        result_of(arith_parts(n, d))
    }
}

impl MulSpecImpl for Rational {
    /// The operator's result is stated by its own `ensures`; an invalid
    /// operand gives an error whose message no spec names.
    open spec fn obeys_mul_spec() -> bool {
        false
    }

    open spec fn mul_req(self, rhs: Rational) -> bool {
        true
    }

    open spec fn mul_spec(self, rhs: Rational) -> Result<Rational> {
        operation_result(product_parts(self, rhs))
    }
}

impl Mul for Rational {
    type Output = Result<Rational>;

    fn mul(self, rhs: Rational) -> (r: Result<Rational>)
        ensures
            !self.valid() || !rhs.valid() <==> r matches Err(Error::InvalidArgument(_)),
            self.valid() && rhs.valid() ==> r == operation_result(product_parts(self, rhs)),
    {
        if !self.is_valid() || !rhs.is_valid() {
            return Err(Error::InvalidArgument(msg("cannot multiply invalid rationals")));
        }
        let n = mul_i32(self.num, rhs.num) as i128;
        let d = mul_i32(self.den, rhs.den) as i128;
        proof { assert(d != 0) by(nonlinear_arith) requires d == self.den * rhs.den, self.den != 0, rhs.den != 0; }
        result_of(arith_parts(n, d))
    }
}

impl DivSpecImpl for Rational {
    /// The operator's result is stated by its own `ensures`; an invalid
    /// operand gives an error whose message no spec names.
    open spec fn obeys_div_spec() -> bool {
        false
    }

    open spec fn div_req(self, rhs: Rational) -> bool {
        true
    }

    open spec fn div_spec(self, rhs: Rational) -> Result<Rational> {
        operation_result(quotient_parts(self, rhs))
    }
}

impl Div for Rational {
    type Output = Result<Rational>;

    /// Division; a zero divisor, or an invalid dividend, is an invalid argument.
    fn div(self, rhs: Rational) -> (r: Result<Rational>)
        ensures
            rhs.num == 0 || !self.valid() <==> r matches Err(Error::InvalidArgument(_)),
            rhs.num != 0 && self.valid() ==> r == operation_result(quotient_parts(self, rhs)),
    {
        if rhs.num == 0 {
            return Err(Error::InvalidArgument(msg("division by zero")));
        }
        if !self.is_valid() {
            return Err(Error::InvalidArgument(msg("cannot multiply invalid rationals")));
        }
        let n = mul_i32(self.num, rhs.den) as i128;
        let d = mul_i32(self.den, rhs.num) as i128;
        proof { assert(d != 0) by(nonlinear_arith) requires d == self.den * rhs.num, self.den != 0, rhs.num != 0; }
        result_of(arith_parts(n, d))
    }
}

impl Neg for Rational {
    type Output = Rational;

    fn neg(self) -> (r: Rational)
        ensures r.num == -self.num, r.den == self.den,
    {
        Self::new(-self.num, self.den)
    }
}

impl NegSpecImpl for Rational {
    open spec fn obeys_neg_spec() -> bool {
        true
    }

    open spec fn neg_req(self) -> bool {
        self.num != i32::MIN
    }

    open spec fn neg_spec(self) -> Rational {
        Rational { num: -self.num as i32, den: self.den }
    }
}

/// The ordering of two valid rationals, by their cross products and the
/// signs of the denominators.
pub open spec fn order_of(a: Rational, b: Rational) -> Option<Ordering> {
    if !a.valid() || !b.valid() {
        None
    } else {
        let lhs = a.num * b.den;
        let rhs = b.num * a.den;
        let (x, y) = if (a.den > 0) == (b.den > 0) { (lhs, rhs) } else { (rhs, lhs) };
        if x < y { Some(Ordering::Less) } else if x == y { Some(Ordering::Equal) } else { Some(Ordering::Greater) }
    }
}

impl PartialOrd for Rational {
    fn partial_cmp(&self, other: &Self) -> (r: Option<Ordering>) {
        if !self.is_valid() || !other.is_valid() {
            return None;
        }
        let c = cross(*self, *other);
        let (x, y) = if (self.den > 0) == (other.den > 0) { (c.0, c.1) } else { (c.1, c.0) };
        if x < y {
            Some(Ordering::Less)
        } else if x == y {
            Some(Ordering::Equal)
        } else {
            Some(Ordering::Greater)
        }
    }
}

impl PartialOrdSpecImpl for Rational {
    open spec fn obeys_partial_cmp_spec() -> bool {
        true
    }

    open spec fn partial_cmp_spec(&self, other: &Rational) -> Option<Ordering> {
        order_of(*self, *other)
    }
}

proof fn lemma_reduced_value(n: int, d: int)
    requires d != 0,
    ensures reduced(n, d) matches Some(r) ==> r.num * d == n * r.den && r.den > 0,
{
    if n != 0 {
        lemma_divisor_bounds(n, d);
        let g = common_divisor(n, d);
        let k1 = choose|k: int| multiple(g, k) == n;
        let k2 = choose|k: int| multiple(g, k) == d;
        vstd::arithmetic::div_mod::lemma_div_multiples_vanish(k1, g);
        vstd::arithmetic::div_mod::lemma_div_multiples_vanish(k2, g);
        let n1 = n / g;
        let d1 = d / g;
        assert(n1 == k1 && d1 == k2);
        assert(n1 * d == n * d1) by(nonlinear_arith) requires n == g * n1, d == g * d1;
        if d1 == 0 {
            assert(g * d1 == 0) by(nonlinear_arith) requires d1 == 0;
        }
        if d1 < 0 {
            assert((-n1) * d == n * (-d1)) by(nonlinear_arith) requires n1 * d == n * d1;
        }
    }
}

/// Reducing a valid rational keeps its value and makes the denominator positive.
pub proof fn law_reduce_keeps_value(x: Rational)
    requires x.valid(),
    ensures reduced(x.num as int, x.den as int) matches Some(r) ==> r.same_value(x) && r.den > 0,
{
    lemma_reduced_value(x.num as int, x.den as int);
}

/// The rational that an arithmetic operation returns denotes the exact
/// result `n/d` of the operation.
pub proof fn law_arith_result_is_exact(n: int, d: int)
    requires d != 0,
    ensures arith_result(n, d) matches Some(r) ==> r.num * d == n * r.den && r.den > 0,
{
    if n == 0 {
        let ad = abs(d);
        assert(spec_gcd(0, ad) == spec_gcd(ad, 0nat % ad));
        vstd::arithmetic::div_mod::lemma_small_mod(0, ad);
        vstd::arithmetic::div_mod::lemma_div_multiples_vanish(0, ad as int);
        assert(0int / ad as int == 0) by(nonlinear_arith) requires (ad as int * 0) / ad as int == 0;
        assert(common_divisor(0, d) == ad);
        lemma_divisor_zero(d);
        assert(0 * d == 0 * 1);
    } else {
        lemma_divisor_bounds(n, d);
        let g = common_divisor(n, d);
        let k1 = choose|k: int| multiple(g, k) == n;
        let k2 = choose|k: int| multiple(g, k) == d;
        vstd::arithmetic::div_mod::lemma_div_multiples_vanish(k1, g);
        vstd::arithmetic::div_mod::lemma_div_multiples_vanish(k2, g);
        let n1 = n / g;
        let d1 = d / g;
        assert(n == g * n1 && d == g * d1);
        if d1 == 0 {
            assert(g * d1 == 0) by(nonlinear_arith) requires d1 == 0;
        }
        lemma_reduced_value(n1, d1);
        if arith_result(n, d) is Some {
            let r = arith_result(n, d).unwrap();
            assert(r.num * d == n * r.den) by(nonlinear_arith)
                requires r.num * d1 == n1 * r.den, n == g * n1, d == g * d1;
        }
    }
}

proof fn lemma_divisor_zero(d: int)
    requires d != 0,
    ensures d / (abs(d) as int) == 1 || d / (abs(d) as int) == -1,
{
    let ad = abs(d) as int;
    if d > 0 {
        vstd::arithmetic::div_mod::lemma_div_multiples_vanish(1, ad);
        assert(d / ad == 1) by(nonlinear_arith) requires (ad * 1) / ad == 1, d == ad;
    } else {
        vstd::arithmetic::div_mod::lemma_div_multiples_vanish(-1, ad);
        assert(d / ad == -1) by(nonlinear_arith) requires (ad * -1) / ad == -1, d == -ad;
    }
}

/// The sum that `+` returns is the exact sum of the operands.
pub proof fn law_sum_is_exact(a: Rational, b: Rational)
    requires a.valid(), b.valid(),
    ensures
        operation_result(sum_parts(a, b)) matches Ok(r) ==>
            r.num * (a.den * b.den) == (a.num * b.den + b.num * a.den) * r.den && r.den > 0,
{
    assert(a.den * b.den != 0) by(nonlinear_arith) requires a.den != 0, b.den != 0;
    law_arith_result_is_exact(sum_parts(a, b).0, sum_parts(a, b).1);
}

/// The product that `*` returns is the exact product of the operands.
pub proof fn law_product_is_exact(a: Rational, b: Rational)
    requires a.valid(), b.valid(),
    ensures
        operation_result(product_parts(a, b)) matches Ok(r) ==>
            r.num * (a.den * b.den) == (a.num * b.num) * r.den && r.den > 0,
{
    assert(a.den * b.den != 0) by(nonlinear_arith) requires a.den != 0, b.den != 0;
    law_arith_result_is_exact(product_parts(a, b).0, product_parts(a, b).1);
}

/// Equality of rationals is symmetric (and never holds for an invalid one).
pub proof fn law_eq_symmetric(a: Rational, b: Rational)
    ensures equal_values(a, b) == equal_values(b, a), !a.valid() ==> !equal_values(a, b),
{
}

/// Equality of valid rationals with positive denominators is transitive.
pub proof fn law_eq_transitive(a: Rational, b: Rational, c: Rational)
    requires equal_values(a, b), equal_values(b, c), a.den > 0, b.den > 0, c.den > 0,
    ensures equal_values(a, c),
{
    assert(a.num * c.den * b.den == c.num * a.den * b.den) by(nonlinear_arith)
        requires a.num * b.den == b.num * a.den, b.num * c.den == c.num * b.den;
    assert(a.num * c.den == c.num * a.den) by(nonlinear_arith)
        requires a.num * c.den * b.den == c.num * a.den * b.den, b.den > 0;
}

} // verus!
