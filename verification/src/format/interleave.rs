use vstd::prelude::*;
use core::cmp::Ordering;
use crate::util::rational::{Rational, equal_values};
use crate::util::mathematics::{rescale_q, rescale_q_spec, rescale_spec, rescale_magnitude, Rounding};
use crate::codec::packet::Packet;

verus! {

/// Interleaving mode for muxing.
#[derive(Debug, Clone, Copy, PartialEq, Eq, Structural)]
pub enum InterleaveMode {
    /// Sort packets by DTS across all streams.
    Dts,
    /// Write packets in the order they arrive (no reordering).
    Passthrough,
}

impl Default for InterleaveMode {
    /// Sorting by DTS is the default.
    fn default() -> (r: Self)
        ensures r == InterleaveMode::Dts,
    {
        InterleaveMode::Dts
    }
}

/// The packet's decoding time: its DTS, else its PTS, else the largest
/// time.
pub open spec fn first_ts(p: Packet) -> i64 {
    match p.dts {
        Some(d) => d,
        None => match p.pts { Some(x) => x, None => i64::MAX },
    }
}

/// The packet's decoding time in microseconds (the largest time when it
/// cannot be rescaled).
pub open spec fn micros(p: Packet) -> i64 {
    if p.time_base.valid() {
        match rescale_q_spec(first_ts(p), p.time_base, Rational { num: 1, den: 1000000 }, Rounding::NearInf) {
            Ok(v) => v,
            Err(_) => i64::MAX,
        }
    } else {
        i64::MAX
    }
}

/// The times by which two packets are ordered: their decoding times when
/// their time bases are equal, else those times in microseconds.
pub open spec fn order_keys(a: Packet, b: Packet) -> (i64, i64) {
    if equal_values(a.time_base, b.time_base) { (first_ts(a), first_ts(b)) } else { (micros(a), micros(b)) }
}

/// Whether `a` comes after `b` in decoding order.
pub open spec fn dts_after(a: Packet, b: Packet) -> bool {
    order_keys(a, b).0 > order_keys(a, b).1
}

fn first_ts_exec(p: &Packet) -> (r: i64)
    ensures r == first_ts(*p),
{
    match p.dts {
        Some(d) => d,
        None => match p.pts { Some(x) => x, None => i64::MAX },
    }
}

fn micros_exec(p: &Packet) -> (r: i64)
    ensures r == micros(*p),
{
    let common = Rational::new(1, 1000000);
    match rescale_q(first_ts_exec(p), p.time_base, common) {
        Ok(v) => v,
        Err(_) => i64::MAX,
    }
}

fn order_keys_exec(a: &Packet, b: &Packet) -> (r: (i64, i64))
    ensures r == order_keys(*a, *b),
{
    if a.time_base == b.time_base {
        (first_ts_exec(a), first_ts_exec(b))
    } else {
        (micros_exec(a), micros_exec(b))
    }
}

/// Compare two packets for DTS-based interleaving: `Less` when `a` should
/// be written before `b`.
pub fn compare_dts(a: &Packet, b: &Packet) -> (r: Ordering)
    ensures
        r == Ordering::Less <==> order_keys(*a, *b).0 < order_keys(*a, *b).1,
        r == Ordering::Equal <==> order_keys(*a, *b).0 == order_keys(*a, *b).1,
        r == Ordering::Greater <==> order_keys(*a, *b).0 > order_keys(*a, *b).1,
{
    let (x, y) = order_keys_exec(a, b);
    if x < y {
        Ordering::Less
    } else if x == y {
        Ordering::Equal
    } else {
        Ordering::Greater
    }
}

/// Index of the packet written next among the first `k`: the first packet
/// that no later one precedes (scanning left to right, a packet replaces
/// the one kept when the kept one comes after it).
pub open spec fn next_index(s: Seq<Packet>, k: int) -> int
    decreases k,
{
    if k <= 1 { 0 } else {
        let m = next_index(s, k - 1);
        if dts_after(s[m], s[k - 1]) { k - 1 } else { m }
    }
}

/// The order in which DTS interleaving hands out the packets.
pub open spec fn dts_order(s: Seq<Packet>) -> Seq<Packet>
    decreases s.len(),
{
    if s.len() == 0 {
        Seq::empty()
    } else {
        let m = next_index(s, s.len() as int);
        if 0 <= m < s.len() { seq![s[m]] + dts_order(s.remove(m)) } else { Seq::empty() }
    }
}

proof fn lemma_next_index_bounds(s: Seq<Packet>, k: int)
    requires 1 <= k <= s.len(),
    ensures 0 <= next_index(s, k) < k,
    decreases k,
{
    if k > 1 { lemma_next_index_bounds(s, k - 1); }
}

/// A simple interleaving buffer: collects packets from several streams and
/// yields them in DTS order (or in arrival order).
pub struct InterleaveBuffer {
    packets: Vec<Packet>,
    mode: InterleaveMode,
}

impl InterleaveBuffer {
    /// The buffered packets, in arrival order.
    pub closed spec fn spec_packets(&self) -> Seq<Packet> { self.packets@ }
    /// The interleaving mode.
    pub closed spec fn spec_mode(&self) -> InterleaveMode { self.mode }

    /// An empty buffer.
    pub fn new(mode: InterleaveMode) -> (r: Self)
        ensures r.spec_packets().len() == 0, r.spec_mode() == mode,
    {
        InterleaveBuffer { packets: Vec::new(), mode }
    }

    /// Add a packet to the buffer.
    pub fn push(&mut self, packet: Packet)
        ensures final(self).spec_packets() == old(self).spec_packets().push(packet),
            final(self).spec_mode() == old(self).spec_mode(),
    {
        self.packets.push(packet);
    }

    /// The index of the next packet in DTS order.
    fn next_dts_index(&self) -> (r: usize)
        requires self.packets@.len() > 0,
        ensures r == next_index(self.packets@, self.packets@.len() as int), r < self.packets@.len(),
    {
        let mut m: usize = 0;
        let mut i: usize = 1;
        while i < self.packets.len()
            invariant 1 <= i <= self.packets@.len(), m == next_index(self.packets@, i as int), m < i,
            decreases self.packets.len() - i,
        {
            let (x, y) = order_keys_exec(&self.packets[m], &self.packets[i]);
            if x > y {
                m = i;
            }
            i += 1;
        }
        m
    }

    /// Take the next packet to write: the first in arrival order, or the
    /// next in DTS order; `None` when the buffer is empty.
    pub fn pop(&mut self) -> (r: Option<Packet>)
        ensures
            old(self).spec_packets().len() == 0 ==> r is None && *final(self) == *old(self),
            old(self).spec_packets().len() > 0 ==> ({
                let i = if old(self).spec_mode() == InterleaveMode::Passthrough { 0 }
                    else { next_index(old(self).spec_packets(), old(self).spec_packets().len() as int) };
                &&& r == Some(old(self).spec_packets()[i])
                &&& final(self).spec_packets() == old(self).spec_packets().remove(i)
            }),
            final(self).spec_mode() == old(self).spec_mode(),
    {
        if self.packets.len() == 0 {
            return None;
        }
        match self.mode {
            InterleaveMode::Passthrough => Some(self.packets.remove(0)),
            InterleaveMode::Dts => {
                let idx = self.next_dts_index();
                Some(self.packets.remove(idx))
            }
        }
    }

    /// Number of buffered packets.
    pub fn len(&self) -> (r: usize)
        ensures r == self.spec_packets().len(),
    {
        self.packets.len()
    }

    /// Whether the buffer is empty.
    pub fn is_empty(&self) -> (r: bool)
        ensures r == (self.spec_packets().len() == 0),
    {
        self.packets.len() == 0
    }

    /// Drain all remaining packets in the order they are to be written.
    pub fn drain(&mut self) -> (r: Vec<Packet>)
        ensures
            final(self).spec_packets().len() == 0,
            final(self).spec_mode() == old(self).spec_mode(),
            old(self).spec_mode() == InterleaveMode::Passthrough ==> r@ == old(self).spec_packets(),
            old(self).spec_mode() == InterleaveMode::Dts ==> r@ == dts_order(old(self).spec_packets()),
    {
        match self.mode {
            InterleaveMode::Passthrough => {
                let mut taken: Vec<Packet> = Vec::new();
                std::mem::swap(&mut taken, &mut self.packets);
                taken
            }
            InterleaveMode::Dts => {
                let mut result: Vec<Packet> = Vec::new();
                loop
                    invariant
                        self.mode == InterleaveMode::Dts, self.mode == old(self).mode,
                        result@ + dts_order(self.packets@) == dts_order(old(self).packets@),
                    ensures
                        self.packets@.len() == 0, self.mode == old(self).mode,
                        result@ == dts_order(old(self).packets@),
                    decreases self.packets@.len(),
                {
                    let ghost before = self.packets@;
                    if self.packets.len() == 0 {
                        assert(dts_order(self.packets@) == Seq::<Packet>::empty());
                        assert(result@ + Seq::<Packet>::empty() =~= result@);
                        break;
                    }
                    proof { lemma_next_index_bounds(before, before.len() as int); }
                    match self.pop() {
                        Some(pkt) => {
                            let ghost r0 = result@;
                            result.push(pkt);
                            assert(r0 + (seq![pkt] + dts_order(self.packets@)) =~= result@ + dts_order(self.packets@));
                        }
                        None => { break; }
                    }
                }
                result
            }
        }
    }
}

/// With one valid time base, the packet written next has the earliest
/// decoding time among the first `k`.
proof fn lemma_next_is_earliest(s: Seq<Packet>, t: Rational, k: int)
    requires
        1 <= k <= s.len(), t.valid(),
        forall|i: int| 0 <= i < s.len() ==> #[trigger] s[i].time_base == t,
    ensures
        0 <= next_index(s, k) < k,
        forall|j: int| 0 <= j < k ==> first_ts(s[next_index(s, k)]) <= #[trigger] first_ts(s[j]),
    decreases k,
{
    if k > 1 {
        lemma_next_is_earliest(s, t, k - 1);
        let m = next_index(s, k - 1);
        assert(equal_values(s[m].time_base, s[k - 1].time_base));
    } else {
        assert(equal_values(s[0].time_base, s[0].time_base));
    }
}

/// What DTS interleaving hands out is what was buffered: as many packets,
/// each one of them.
proof fn lemma_dts_order_from(s: Seq<Packet>)
    ensures
        dts_order(s).len() == s.len(),
        forall|i: int| 0 <= i < dts_order(s).len() ==> s.contains(#[trigger] dts_order(s)[i]),
    decreases s.len(),
{
    if s.len() > 0 {
        lemma_next_index_bounds(s, s.len() as int);
        let m = next_index(s, s.len() as int);
        let rest = s.remove(m);
        lemma_dts_order_from(rest);
        assert forall|i: int| 0 <= i < dts_order(s).len() implies s.contains(#[trigger] dts_order(s)[i]) by {
            if i == 0 {
                assert(s[m] == dts_order(s)[0]);
            } else {
                assert(dts_order(s)[i] == dts_order(rest)[i - 1]);
                let x = dts_order(rest)[i - 1];
                assert(rest.contains(x));
                let k = choose|k: int| 0 <= k < rest.len() && rest[k] == x;
                if k < m { assert(s[k] == x); } else { assert(s[k + 1] == x); }
            }
        }
    }
}

/// Packets of one stream come out of DTS interleaving in order of decoding
/// time, every buffered packet once: with one valid time base, the order is
/// sorted by DTS (PTS when there is none; packets without either last).
pub proof fn law_dts_order_sorted(s: Seq<Packet>, t: Rational)
    requires
        t.valid(),
        forall|i: int| 0 <= i < s.len() ==> #[trigger] s[i].time_base == t,
    ensures
        dts_order(s).len() == s.len(),
        forall|i: int, j: int| 0 <= i <= j < dts_order(s).len()
            ==> first_ts(#[trigger] dts_order(s)[i]) <= first_ts(#[trigger] dts_order(s)[j]),
    decreases s.len(),
{
    lemma_dts_order_from(s);
    if s.len() > 0 {
        lemma_next_is_earliest(s, t, s.len() as int);
        let m = next_index(s, s.len() as int);
        let rest = s.remove(m);
        assert forall|i: int| 0 <= i < rest.len() implies #[trigger] rest[i].time_base == t by {
            if i < m { assert(rest[i] == s[i]); } else { assert(rest[i] == s[i + 1]); }
        }
        law_dts_order_sorted(rest, t);
        lemma_dts_order_from(rest);
        let out = dts_order(s);
        assert forall|i: int, j: int| 0 <= i <= j < out.len()
            implies first_ts(#[trigger] out[i]) <= first_ts(#[trigger] out[j]) by {
            if i == 0 {
                if j > 0 {
                    let x = dts_order(rest)[j - 1];
                    assert(out[j] == x);
                    assert(rest.contains(x));
                    let k = choose|k: int| 0 <= k < rest.len() && rest[k] == x;
                    if k < m { assert(s[k] == x); } else { assert(s[k + 1] == x); }
                }
            } else {
                assert(out[i] == dts_order(rest)[i - 1]);
                assert(out[j] == dts_order(rest)[j - 1]);
            }
        }
    }
}

/// The magnitude of a non-negative value rescaled by `s / d` (both
/// positive), rounded to nearest with halves away from zero.
proof fn lemma_magnitude_closed(v: int, s: int, d: int)
    requires v >= 0, s > 0, d > 0,
    ensures rescale_magnitude(v, s, d, Rounding::NearInf) == (2 * (v * s) + d) / (2 * d),
{
    let p = v * s;
    assert(v * s >= 0) by (nonlinear_arith) requires v >= 0, s > 0;
    let q = p / d;
    let r = p % d;
    vstd::arithmetic::div_mod::lemma_fundamental_div_mod(p, d);
    vstd::arithmetic::div_mod::lemma_mod_bound(p, d);
    assert(crate::util::mathematics::abs(v) * crate::util::mathematics::abs(s) == p);
    if r * 2 >= d {
        assert(2 * p + d == (q + 1) * (2 * d) + (2 * r - d)) by (nonlinear_arith)
            requires p == d * q + r;
        vstd::arithmetic::div_mod::lemma_fundamental_div_mod_converse(2 * p + d, 2 * d, q + 1, 2 * r - d);
    } else {
        assert(2 * p + d == q * (2 * d) + (2 * r + d)) by (nonlinear_arith)
            requires p == d * q + r;
        vstd::arithmetic::div_mod::lemma_fundamental_div_mod_converse(2 * p + d, 2 * d, q, 2 * r + d);
    }
}

proof fn lemma_magnitude_monotone(v1: int, v2: int, s: int, d: int)
    requires 0 <= v1 <= v2, s > 0, d > 0,
    ensures rescale_magnitude(v1, s, d, Rounding::NearInf) <= rescale_magnitude(v2, s, d, Rounding::NearInf),
{
    lemma_magnitude_closed(v1, s, d);
    lemma_magnitude_closed(v2, s, d);
    assert(2 * (v1 * s) + d <= 2 * (v2 * s) + d) by (nonlinear_arith) requires v1 <= v2, s > 0;
    vstd::arithmetic::div_mod::lemma_div_is_ordered(2 * (v1 * s) + d, 2 * (v2 * s) + d, 2 * d);
}

/// Rescaling by a positive factor keeps the order of values.
proof fn lemma_rescale_monotone(v1: int, v2: int, s: int, d: int)
    requires
        v1 <= v2, s > 0, d > 0,
        rescale_spec(v1, s, d, Rounding::NearInf) is Ok, rescale_spec(v2, s, d, Rounding::NearInf) is Ok,
    ensures rescale_spec(v1, s, d, Rounding::NearInf)->Ok_0 <= rescale_spec(v2, s, d, Rounding::NearInf)->Ok_0,
{
    let a1 = crate::util::mathematics::abs(v1) as int;
    let a2 = crate::util::mathematics::abs(v2) as int;
    if v1 >= 0 {
        lemma_magnitude_monotone(v1, v2, s, d);
    } else if v2 < 0 {
        lemma_magnitude_monotone(a2, a1, s, d);
        assert(rescale_magnitude(v1, s, d, Rounding::NearInf) == rescale_magnitude(a1, s, d, Rounding::NearInf));
        assert(rescale_magnitude(v2, s, d, Rounding::NearInf) == rescale_magnitude(a2, s, d, Rounding::NearInf));
    }
}

/// The time base is positive: both its terms are.
pub open spec fn positive_tb(t: Rational) -> bool {
    t.num > 0 && t.den > 0
}

/// The packet's decoding time can be rescaled to microseconds.
pub open spec fn micros_fit(p: Packet) -> bool {
    rescale_q_spec(first_ts(p), p.time_base, Rational { num: 1, den: 1000000 }, Rounding::NearInf) is Ok
}

/// Packets whose decoding times interleaving can compare across time
/// bases: positive time bases, written the same way when equal, and
/// decoding times that fit in microseconds.
pub open spec fn comparable(s: Seq<Packet>) -> bool {
    &&& forall|i: int| 0 <= i < s.len() ==> positive_tb(#[trigger] s[i].time_base) && micros_fit(s[i])
    &&& forall|i: int, j: int| 0 <= i < s.len() && 0 <= j < s.len()
        && equal_values(#[trigger] s[i].time_base, #[trigger] s[j].time_base) ==> s[i].time_base == s[j].time_base
}

proof fn lemma_micros_monotone(a: Packet, b: Packet)
    requires
        a.time_base == b.time_base, positive_tb(a.time_base), micros_fit(a), micros_fit(b),
        first_ts(a) <= first_ts(b),
    ensures micros(a) <= micros(b),
{
    let t = a.time_base;
    let us = Rational { num: 1, den: 1000000 };
    assert(t.num * us.den > 0) by (nonlinear_arith) requires t.num > 0, us.den == 1000000;
    assert(t.den * us.num > 0) by (nonlinear_arith) requires t.den > 0, us.num == 1;
    lemma_rescale_monotone(first_ts(a) as int, first_ts(b) as int, t.num * us.den, t.den * us.num);
}

proof fn lemma_next_is_earliest_us(s: Seq<Packet>, k: int)
    requires 1 <= k <= s.len(), comparable(s),
    ensures
        0 <= next_index(s, k) < k,
        forall|j: int| 0 <= j < k ==> micros(s[next_index(s, k)]) <= #[trigger] micros(s[j]),
    decreases k,
{
    if k > 1 {
        lemma_next_is_earliest_us(s, k - 1);
        let m = next_index(s, k - 1);
        let a = s[m];
        let b = s[k - 1];
        assert(positive_tb(a.time_base) && micros_fit(a));
        assert(positive_tb(b.time_base) && micros_fit(b));
        if equal_values(a.time_base, b.time_base) {
            assert(a.time_base == b.time_base);
            if first_ts(a) > first_ts(b) {
                lemma_micros_monotone(b, a);
            } else {
                lemma_micros_monotone(a, b);
            }
        }
    }
}

/// Packets come out of DTS interleaving in order of decoding time across
/// time bases, every buffered packet once: with positive time bases,
/// written the same way when equal, and decoding times that fit in
/// microseconds, the order is sorted by decoding time in microseconds.
pub proof fn law_dts_order_sorted_across(s: Seq<Packet>)
    requires comparable(s),
    ensures
        dts_order(s).len() == s.len(),
        forall|i: int, j: int| 0 <= i <= j < dts_order(s).len()
            ==> micros(#[trigger] dts_order(s)[i]) <= micros(#[trigger] dts_order(s)[j]),
    decreases s.len(),
{
    lemma_dts_order_from(s);
    if s.len() > 0 {
        lemma_next_is_earliest_us(s, s.len() as int);
        let m = next_index(s, s.len() as int);
        let rest = s.remove(m);
        assert(comparable(rest)) by {
            assert forall|i: int| 0 <= i < rest.len() implies positive_tb(#[trigger] rest[i].time_base) && micros_fit(rest[i]) by {
                if i < m { assert(rest[i] == s[i]); } else { assert(rest[i] == s[i + 1]); }
            }
            assert forall|i: int, j: int| 0 <= i < rest.len() && 0 <= j < rest.len()
                && equal_values(#[trigger] rest[i].time_base, #[trigger] rest[j].time_base)
                implies rest[i].time_base == rest[j].time_base by {
                let i2 = if i < m { i } else { i + 1 };
                let j2 = if j < m { j } else { j + 1 };
                assert(rest[i] == s[i2] && rest[j] == s[j2]);
            }
        }
        law_dts_order_sorted_across(rest);
        lemma_dts_order_from(rest);
        let out = dts_order(s);
        assert forall|i: int, j: int| 0 <= i <= j < out.len()
            implies micros(#[trigger] out[i]) <= micros(#[trigger] out[j]) by {
            if i == 0 {
                if j > 0 {
                    let x = dts_order(rest)[j - 1];
                    assert(out[j] == x);
                    assert(rest.contains(x));
                    let k = choose|k: int| 0 <= k < rest.len() && rest[k] == x;
                    if k < m { assert(s[k] == x); } else { assert(s[k + 1] == x); }
                }
            } else {
                assert(out[i] == dts_order(rest)[i - 1]);
                assert(out[j] == dts_order(rest)[j - 1]);
            }
        }
    }
}

} // verus!
