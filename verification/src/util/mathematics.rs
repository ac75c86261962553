use vstd::prelude::*;
use crate::util::error::{Error, Result, msg};
use crate::util::rational::Rational;
use core::cmp::Ordering;

verus! {


/// Rounding modes for rescale operations.
#[derive(Debug, Clone, Copy, PartialEq, Eq, Structural)]
pub enum Rounding {
    /// Round toward zero.
    Zero,
    /// Round away from zero.
    Inf,
    /// Round toward negative infinity.
    Down,
    /// Round toward positive infinity.
    Up,
    /// Round to nearest, ties away from zero.
    NearInf,
}

/// Greatest common divisor by Euclid's algorithm, on natural numbers.
pub open spec fn spec_gcd(a: nat, b: nat) -> nat
    decreases b,
{
    if b == 0 { a } else { spec_gcd(b, a % b) }
}

pub open spec fn abs(x: int) -> nat {
    if x < 0 { (-x) as nat } else { x as nat }
}

/// `d` divides `n`.
pub open spec fn divides(d: int, n: int) -> bool {
    exists|k: int| #[trigger] multiple(d, k) == n
}

/// `d * k`, the term by which [`divides`] is instantiated.
pub open spec fn multiple(d: int, k: int) -> int {
    d * k
}

/// The value that `gcd` returns: the gcd of the magnitudes, or 1 when both are zero.
pub open spec fn gcd_result(a: int, b: int) -> int {
    let g = spec_gcd(abs(a), abs(b));
    if g == 0 { 1 } else { g as int }
}

proof fn lemma_mod_mul_identity(a: nat, b: nat)
    requires b > 0,
    ensures a == b * (a / b) + a % b,
{
    vstd::arithmetic::div_mod::lemma_fundamental_div_mod(a as int, b as int);
}

/// The gcd divides both arguments.
pub proof fn lemma_gcd_divides(a: nat, b: nat)
    ensures
        divides(spec_gcd(a, b) as int, a as int),
        divides(spec_gcd(a, b) as int, b as int),
    decreases b,
{
    if b == 0 {
        assert(multiple(a as int, 1) == a as int);
        assert(multiple(a as int, 0) == b as int);
    } else {
        lemma_gcd_divides(b, a % b);
        let g = spec_gcd(b, a % b) as int;
        let k1 = choose|k: int| multiple(g, k) == (b as int);
        let k2 = choose|k: int| multiple(g, k) == ((a % b) as int);
        lemma_mod_mul_identity(a, b);
        let q = (a / b) as int;
        assert(a as int == g * (k1 * q + k2)) by(nonlinear_arith)
            requires a as int == (b as int) * q + (a % b) as int, (b as int) == g * k1,
                ((a % b) as int) == g * k2;
        assert(multiple(g, k1 * q + k2) == a as int);
    }
}

/// Every common divisor of the arguments divides their gcd.
pub proof fn lemma_gcd_greatest(a: nat, b: nat, d: int)
    requires divides(d, a as int), divides(d, b as int),
    ensures divides(d, spec_gcd(a, b) as int),
    decreases b,
{
    if b > 0 {
        let k1 = choose|k: int| multiple(d, k) == (a as int);
        let k2 = choose|k: int| multiple(d, k) == (b as int);
        lemma_mod_mul_identity(a, b);
        let q = (a / b) as int;
        assert(((a % b) as int) == d * (k1 - k2 * q)) by(nonlinear_arith)
            requires a as int == (b as int) * q + (a % b) as int, (a as int) == d * k1,
                (b as int) == d * k2;
        assert(multiple(d, k1 - k2 * q) == (a % b) as int);
        lemma_gcd_greatest(b, a % b, d);
    }
}

fn gcd_u128(a: u128, b: u128) -> (r: u128)
    ensures r == spec_gcd(a as nat, b as nat),
{
    let mut x = a;
    let mut y = b;
    while y != 0
        invariant spec_gcd(x as nat, y as nat) == spec_gcd(a as nat, b as nat),
        decreases y,
    {
        let t = y;
        y = x % y;
        x = t;
    }
    x
}

pub proof fn lemma_gcd_le(a: nat, b: nat)
    ensures a > 0 ==> spec_gcd(a, b) <= a, b > 0 ==> spec_gcd(a, b) <= b,
    decreases b,
{
    if b > 0 {
        lemma_gcd_le(b, a % b);
        if a > 0 && a < b {
            vstd::arithmetic::div_mod::lemma_small_mod(a, b);
        }
        if a % b == 0 {
            assert(spec_gcd(a % b, 0) == 0);
        }
    }
}

pub(crate) fn magnitude(x: i64) -> (r: u128)
    ensures r == abs(x as int),
{
    if x < 0 { (0i128 - (x as i128)) as u128 } else { x as u128 }
}

/// Compute the greatest common divisor of two values.
///
/// Both zero gives 1. The gcd of the magnitudes can be 2^63 (for
/// `i64::MIN`), which wraps when it is returned as an `i64`.
pub fn gcd(a: i64, b: i64) -> (r: i64)
    ensures r == gcd_result(a as int, b as int) as i64,
{
    let g = gcd_u128(magnitude(a), magnitude(b));
    proof { lemma_gcd_le(abs(a as int), abs(b as int)); }
    let g = if g == 0 { 1 } else { g };
    g as i64
}

/// Whether `value * src / dst` is negative.
pub open spec fn rescale_negative(value: int, src: int, dst: int) -> bool {
    ((value < 0) != (src < 0)) != (dst < 0)
}

/// The magnitude of `value * src / dst` rounded as `rnd` says.
pub open spec fn rescale_magnitude(value: int, src: int, dst: int, rnd: Rounding) -> nat {
    let p = abs(value) * abs(src);
    let d = abs(dst);
    let q = p / d;
    let r = p % d;
    let neg = rescale_negative(value, src, dst);
    let up = match rnd {
        Rounding::Zero => false,
        Rounding::Inf => r > 0,
        Rounding::Down => neg && r > 0,
        Rounding::Up => !neg && r > 0,
        Rounding::NearInf => r * 2 >= d,
    };
    if up { q + 1 } else { q }
}

/// What `rescale_rnd` returns for arguments with a nonzero `dst` and `src`.
pub open spec fn rescale_spec(value: int, src: int, dst: int, rnd: Rounding) -> Result<i64> {
    let m = rescale_magnitude(value, src, dst, rnd);
    if m > i64::MAX {
        Err(Error::Overflow)
    } else if rescale_negative(value, src, dst) {
        Ok((-m) as i64)
    } else {
        Ok(m as i64)
    }
}

/// Rescale a value from one timebase to another: `value * src / dst`.
///
/// Uses 128-bit intermediate arithmetic to avoid overflow.
pub fn rescale(value: i64, src: i64, dst: i64) -> (r: Result<i64>)
    ensures
        dst == 0 <==> r matches Err(Error::InvalidArgument(_)),
        dst != 0 && src == 0 ==> r == Ok::<i64, Error>(0),
        dst != 0 && src != 0 ==> r == rescale_spec(value as int, src as int, dst as int, Rounding::NearInf),
{
    rescale_rnd(value, src, dst, Rounding::NearInf)
}

/// Rescale a value: `value * src / dst` with the given rounding mode.
pub fn rescale_rnd(value: i64, src: i64, dst: i64, rnd: Rounding) -> (r: Result<i64>)
    ensures
        dst == 0 <==> r matches Err(Error::InvalidArgument(_)),
        dst != 0 && src == 0 ==> r == Ok::<i64, Error>(0),
        dst != 0 && src != 0 ==> r == rescale_spec(value as int, src as int, dst as int, rnd),
{
    if dst == 0 {
        return Err(Error::InvalidArgument(msg("rescale destination is zero")));
    }
    if src == 0 {
        return Ok(0);
    }
    let neg = ((value < 0) != (src < 0)) != (dst < 0);
    let v = magnitude(value);
    let s = magnitude(src);
    let d = magnitude(dst);
    assert(v <= 0x8000_0000_0000_0000 && s <= 0x8000_0000_0000_0000);
    assert(v * s <= 0x4000_0000_0000_0000_0000_0000_0000_0000) by(nonlinear_arith)
        requires v <= 0x8000_0000_0000_0000, s <= 0x8000_0000_0000_0000;
    let product = v * s;
    let mut result = product / d;
    let remainder = product % d;
    assert(result <= product) by(nonlinear_arith) requires d >= 1, result == product / d;
    match rnd {
        Rounding::Zero => {}
        Rounding::Inf => {
            if remainder > 0 {
                result += 1;
            }
        }
        Rounding::Down => {
            if neg && remainder > 0 {
                result += 1;
            }
        }
        Rounding::Up => {
            if !neg && remainder > 0 {
                result += 1;
            }
        }
        Rounding::NearInf => {
            if remainder * 2 >= d {
                result += 1;
            }
        }
    }
    if result > 0x7FFF_FFFF_FFFF_FFFF {
        return Err(Error::Overflow);
    }
    let result = result as i64;
    Ok(if neg { -result } else { result })
}

/// Rescale using two `Rational` time bases: `value * src_tb / dst_tb`.
pub fn rescale_q(value: i64, src_tb: Rational, dst_tb: Rational) -> (r: Result<i64>)
    ensures
        !src_tb.valid() || !dst_tb.valid() || src_tb.den * dst_tb.num == 0
            <==> r matches Err(Error::InvalidArgument(_)),
        src_tb.valid() && dst_tb.valid() && src_tb.den * dst_tb.num != 0 ==>
            r == rescale_q_spec(value, src_tb, dst_tb, Rounding::NearInf),
{
    rescale_q_rnd(value, src_tb, dst_tb, Rounding::NearInf)
}

/// What `rescale_q_rnd` returns for valid time bases whose quotient is defined.
pub open spec fn rescale_q_spec(value: i64, src_tb: Rational, dst_tb: Rational, rnd: Rounding) -> Result<i64> {
    let src = src_tb.num * dst_tb.den;
    let dst = src_tb.den * dst_tb.num;
    if src == 0 { Ok(0) } else { rescale_spec(value as int, src, dst, rnd) }
}

/// Rescale using two `Rational` time bases with explicit rounding.
pub fn rescale_q_rnd(value: i64, src_tb: Rational, dst_tb: Rational, rnd: Rounding) -> (r: Result<i64>)
    ensures
        !src_tb.valid() || !dst_tb.valid() || src_tb.den * dst_tb.num == 0
            <==> r matches Err(Error::InvalidArgument(_)),
        src_tb.valid() && dst_tb.valid() && src_tb.den * dst_tb.num != 0 ==>
            r == rescale_q_spec(value, src_tb, dst_tb, rnd),
{
    if !src_tb.is_valid() || !dst_tb.is_valid() {
        return Err(Error::InvalidArgument(msg("invalid timebase")));
    }
    let src = crate::util::rational::mul_i32(src_tb.num, dst_tb.den);
    let dst = crate::util::rational::mul_i32(src_tb.den, dst_tb.num);
    rescale_rnd(value, src, dst, rnd)
}

/// Where two timestamps stand relative to each other, as the cross products
/// `ts_a * tb_a.num * tb_b.den` and `ts_b * tb_b.num * tb_a.den` compare.
pub open spec fn ts_order(ts_a: i64, tb_a: Rational, ts_b: i64, tb_b: Rational) -> Ordering {
    let lhs = ts_a * tb_a.num * tb_b.den;
    let rhs = ts_b * tb_b.num * tb_a.den;
    if lhs < rhs { Ordering::Less } else if lhs == rhs { Ordering::Equal } else { Ordering::Greater }
}

pub(crate) fn ts_cross(ts_a: i64, tb_a: Rational, ts_b: i64, tb_b: Rational) -> (r: (i128, i128))
    ensures r.0 == ts_a * tb_a.num * tb_b.den, r.1 == ts_b * tb_b.num * tb_a.den,
{
    let a = ts_a as i128;
    let an = tb_a.num as i128;
    let bd = tb_b.den as i128;
    let b = ts_b as i128;
    let bn = tb_b.num as i128;
    let ad = tb_a.den as i128;
    assert(-0x8000_0000_0000_0000_0000_0000 <= a * an <= 0x8000_0000_0000_0000_0000_0000) by(nonlinear_arith)
        requires -0x8000_0000_0000_0000 <= a <= 0x8000_0000_0000_0000, -0x8000_0000 <= an <= 0x8000_0000;
    assert(-0x8000_0000_0000_0000_0000_0000 <= b * bn <= 0x8000_0000_0000_0000_0000_0000) by(nonlinear_arith)
        requires -0x8000_0000_0000_0000 <= b <= 0x8000_0000_0000_0000, -0x8000_0000 <= bn <= 0x8000_0000;
    let p = a * an;
    let q = b * bn;
    assert(-0x4000_0000_0000_0000_0000_0000_0000_0000 <= p * bd <= 0x4000_0000_0000_0000_0000_0000_0000_0000) by(nonlinear_arith)
        requires -0x8000_0000_0000_0000_0000_0000 <= p <= 0x8000_0000_0000_0000_0000_0000, -0x8000_0000 <= bd <= 0x8000_0000;
    assert(-0x4000_0000_0000_0000_0000_0000_0000_0000 <= q * ad <= 0x4000_0000_0000_0000_0000_0000_0000_0000) by(nonlinear_arith)
        requires -0x8000_0000_0000_0000_0000_0000 <= q <= 0x8000_0000_0000_0000_0000_0000, -0x8000_0000 <= ad <= 0x8000_0000;
    (p * bd, q * ad)
}

/// Compare two timestamps expressed in different time bases.
///
/// Returns `Error` if either timebase is invalid.
pub fn compare_ts(ts_a: i64, tb_a: Rational, ts_b: i64, tb_b: Rational) -> (r: Result<Ordering>)
    ensures
        !tb_a.valid() || !tb_b.valid() <==> r matches Err(Error::InvalidArgument(_)),
        tb_a.valid() && tb_b.valid() ==> r == Ok::<Ordering, Error>(ts_order(ts_a, tb_a, ts_b, tb_b)),
{
    if !tb_a.is_valid() || !tb_b.is_valid() {
        return Err(Error::InvalidArgument(msg("invalid timebase")));
    }
    let (lhs, rhs) = ts_cross(ts_a, tb_a, ts_b, tb_b);
    if lhs < rhs {
        Ok(Ordering::Less)
    } else if lhs == rhs {
        Ok(Ordering::Equal)
    } else {
        Ok(Ordering::Greater)
    }
}

} // verus!
