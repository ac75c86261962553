use vstd::prelude::*;
use crate::util::error::{Error, Result, msg};
use crate::util::mathematics::{rescale_q, rescale_q_rnd, rescale_q_spec, Rounding, ts_cross, ts_order};
use crate::util::rational::Rational;
use vstd::std_specs::cmp::{PartialEqSpecImpl, PartialOrdSpecImpl};
use core::cmp::Ordering;

verus! {

/// Sentinel value meaning "no presentation timestamp".
pub const NOPTS: i64 = i64::MIN;

/// A timestamp with its associated time base.
///
/// Wraps a raw `i64` value and its [`Rational`] time base, providing
/// conversion and comparison across time bases.
#[derive(Clone, Copy, Eq, Debug)]
pub struct Timestamp {
    /// Raw timestamp value in time_base units. [`NOPTS`] means unset.
    pub value: i64,
    /// Time base (e.g. 1/90000 for MPEG-TS, 1/48000 for audio).
    pub time_base: Rational,
}

impl Timestamp {
    /// A set value with a defined time base.
    pub open spec fn valid(self) -> bool {
        self.value != NOPTS && self.time_base.den != 0
    }

    /// Create a new timestamp.
    pub fn new(value: i64, time_base: Rational) -> (r: Self)
        ensures r.value == value, r.time_base == time_base,
    {
        Self { value, time_base }
    }

    /// An unset / unknown timestamp.
    pub fn none() -> (r: Self)
        ensures r.value == NOPTS, r.time_base.num == 0, r.time_base.den == 0,
    {
        Self { value: NOPTS, time_base: Rational::unknown() }
    }

    /// Returns true if this timestamp has a valid value (not NOPTS).
    pub fn is_valid(&self) -> (r: bool)
        ensures r == self.valid(),
    {
        self.value != NOPTS && self.time_base.den != 0
    }

    /// Convert this timestamp to a different time base.
    pub fn rescale(&self, dst_tb: Rational) -> (r: Result<Self>)
        ensures
            !self.valid() || !dst_tb.valid() || dst_tb.num == 0
                <==> r matches Err(Error::InvalidArgument(_)),
            self.valid() && dst_tb.valid() && dst_tb.num != 0 ==> match rescale_q_spec(self.value, self.time_base, dst_tb, Rounding::NearInf) {
                Ok(v) => r == Ok::<Timestamp, Error>(Timestamp { value: v, time_base: dst_tb }),
                Err(e) => r == Err::<Timestamp, Error>(e),
            },
    {
        self.rescale_rnd(dst_tb, Rounding::NearInf)
    }

    /// Convert with explicit rounding.
    pub fn rescale_rnd(&self, dst_tb: Rational, rnd: Rounding) -> (r: Result<Self>)
        ensures
            !self.valid() || !dst_tb.valid() || dst_tb.num == 0
                <==> r matches Err(Error::InvalidArgument(_)),
            self.valid() && dst_tb.valid() && dst_tb.num != 0 ==> match rescale_q_spec(self.value, self.time_base, dst_tb, rnd) {
                Ok(v) => r == Ok::<Timestamp, Error>(Timestamp { value: v, time_base: dst_tb }),
                Err(e) => r == Err::<Timestamp, Error>(e),
            },
    {
        if !self.is_valid() {
            return Err(Error::InvalidArgument(msg("cannot rescale invalid timestamp")));
        }
        proof {
            if dst_tb.valid() {
                assert((self.time_base.den * dst_tb.num == 0) == (dst_tb.num == 0)) by(nonlinear_arith)
                    requires self.time_base.den != 0;
            }
        }
        let value = rescale_q_rnd(self.value, self.time_base, dst_tb, rnd)?;
        Ok(Self::new(value, dst_tb))
    }
}

/// Two timestamps are equal when both are valid and denote the same instant.
pub open spec fn same_instant(a: Timestamp, b: Timestamp) -> bool {
    a.valid() && b.valid() && ts_order(a.value, a.time_base, b.value, b.time_base) == Ordering::Equal
}

impl PartialEq for Timestamp {
    fn eq(&self, other: &Self) -> (r: bool) {
        if !self.is_valid() || !other.is_valid() {
            return false;
        }
        let c = ts_cross(self.value, self.time_base, other.value, other.time_base);
        c.0 == c.1
    }
}

impl PartialEqSpecImpl for Timestamp {
    open spec fn obeys_eq_spec() -> bool {
        true
    }

    open spec fn eq_spec(&self, other: &Timestamp) -> bool {
        same_instant(*self, *other)
    }
}

/// The order of two valid timestamps across time bases.
pub open spec fn instant_order(a: Timestamp, b: Timestamp) -> Option<Ordering> {
    if !a.valid() || !b.valid() {
        None
    } else {
        Some(ts_order(a.value, a.time_base, b.value, b.time_base))
    }
}

impl PartialOrd for Timestamp {
    fn partial_cmp(&self, other: &Self) -> (r: Option<Ordering>) {
        if !self.is_valid() || !other.is_valid() {
            return None;
        }
        let c = ts_cross(self.value, self.time_base, other.value, other.time_base);
        if c.0 < c.1 {
            Some(Ordering::Less)
        } else if c.0 == c.1 {
            Some(Ordering::Equal)
        } else {
            Some(Ordering::Greater)
        }
    }
}

impl PartialOrdSpecImpl for Timestamp {
    open spec fn obeys_partial_cmp_spec() -> bool {
        true
    }

    open spec fn partial_cmp_spec(&self, other: &Timestamp) -> Option<Ordering> {
        instant_order(*self, *other)
    }
}

} // verus!
