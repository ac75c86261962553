use vstd::prelude::*;
use crate::util::error::{Error, Result, msg};
use crate::codec::codec::CodecId;
use crate::codec::codec_par::{CodecParameters, blank_params};
use crate::util::frame::MediaType;

verus! {

/// H.264 NAL unit types (ITU-T H.264 Table 7-1).
#[derive(Debug, Clone, Copy, PartialEq, Eq, Structural)]
#[non_exhaustive]
pub enum NalType {
    /// Non-IDR slice (P/B frame).
    Slice,
    /// Slice data partition A.
    SlicePartA,
    /// Slice data partition B.
    SlicePartB,
    /// Slice data partition C.
    SlicePartC,
    /// IDR slice (keyframe).
    SliceIdr,
    /// Supplemental enhancement information.
    Sei,
    /// Sequence parameter set.
    Sps,
    /// Picture parameter set.
    Pps,
    /// Access unit delimiter.
    Aud,
    /// End of sequence.
    EndSequence,
    /// End of stream.
    EndStream,
    /// Filler data.
    Filler,
    /// SPS extension.
    SpsExt,
    /// Coded slice of an auxiliary coded picture.
    AuxSlice,
    /// Coded slice extension (SVC/MVC).
    SliceExt,
    /// Unknown / reserved type.
    Unknown(u8),
}

/// The NAL type that the low five bits of a header byte name.
pub open spec fn nal_type_of(b: u8) -> NalType {
    let t = b & 0x1F;
    if t == 1 { NalType::Slice }
    else if t == 2 { NalType::SlicePartA }
    else if t == 3 { NalType::SlicePartB }
    else if t == 4 { NalType::SlicePartC }
    else if t == 5 { NalType::SliceIdr }
    else if t == 6 { NalType::Sei }
    else if t == 7 { NalType::Sps }
    else if t == 8 { NalType::Pps }
    else if t == 9 { NalType::Aud }
    else if t == 10 { NalType::EndSequence }
    else if t == 11 { NalType::EndStream }
    else if t == 12 { NalType::Filler }
    else if t == 13 { NalType::SpsExt }
    else if t == 19 { NalType::AuxSlice }
    else if t == 20 { NalType::SliceExt }
    else { NalType::Unknown(t) }
}

impl NalType {
    /// The type named by the low five bits of a NAL header byte.
    pub fn from_byte(b: u8) -> (r: Self)
        ensures r == nal_type_of(b),
    {
        match b & 0x1F {
            1 => Self::Slice,
            2 => Self::SlicePartA,
            3 => Self::SlicePartB,
            4 => Self::SlicePartC,
            5 => Self::SliceIdr,
            6 => Self::Sei,
            7 => Self::Sps,
            8 => Self::Pps,
            9 => Self::Aud,
            10 => Self::EndSequence,
            11 => Self::EndStream,
            12 => Self::Filler,
            13 => Self::SpsExt,
            19 => Self::AuxSlice,
            20 => Self::SliceExt,
            other => Self::Unknown(other),
        }
    }

    /// True if this NAL is a VCL (video coding layer) unit.
    pub fn is_vcl(&self) -> (r: bool)
        ensures r == matches!(*self, Self::Slice | Self::SlicePartA | Self::SlicePartB
            | Self::SlicePartC | Self::SliceIdr | Self::AuxSlice | Self::SliceExt),
    {
        matches!(self, Self::Slice | Self::SlicePartA | Self::SlicePartB
            | Self::SlicePartC | Self::SliceIdr | Self::AuxSlice | Self::SliceExt)
    }

    /// True if this is a keyframe NAL.
    pub fn is_idr(&self) -> (r: bool)
        ensures r == (*self == Self::SliceIdr),
    {
        matches!(self, Self::SliceIdr)
    }
}

/// A parsed NAL unit.
#[derive(Debug, Clone)]
pub struct NalUnit {
    /// NAL type.
    pub nal_type: NalType,
    /// NAL reference IDC (0-3).
    pub nal_ref_idc: u8,
    /// Raw RBSP data (without start code or length prefix, including NAL header byte).
    pub data: Vec<u8>,
}

/// A NAL unit describes the bytes `d`: its type and reference IDC come from
/// the header byte.
pub open spec fn unit_of(u: NalUnit, d: Seq<u8>) -> bool {
    &&& d.len() > 0
    &&& u.data@ == d
    &&& u.nal_type == nal_type_of(d[0])
    &&& u.nal_ref_idc == (d[0] >> 5) & 3
}

/// The units describe the byte strings, one for one.
pub open spec fn units_of(us: Seq<NalUnit>, ds: Seq<Seq<u8>>) -> bool {
    us.len() == ds.len() && forall|i: int| 0 <= i < us.len() ==> #[trigger] unit_of(us[i], ds[i])
}

fn make_unit(data: &[u8], start: usize, end: usize) -> (r: NalUnit)
    requires start < end <= data@.len(),
    ensures unit_of(r, data@.subrange(start as int, end as int)),
{
    let header = data[start];
    let mut v: Vec<u8> = Vec::new();
    let mut i = start;
    while i < end
        invariant start <= i <= end, end <= data@.len(), v@ == data@.subrange(start as int, i as int),
        decreases end - i,
    {
        v.push(data[i]);
        i += 1;
        assert(v@ =~= data@.subrange(start as int, i as int));
    }
    NalUnit { nal_type: NalType::from_byte(header), nal_ref_idc: (header >> 5) & 0x03, data: v }
}

/// Where the data after the next start code (`00 00 01` or `00 00 00 01`)
/// at or after `pos` begins.
pub open spec fn next_start(d: Seq<u8>, pos: nat) -> Option<nat>
    decreases d.len() - pos,
{
    if pos + 2 >= d.len() {
        None
    } else if d[pos as int] == 0 && d[pos as int + 1] == 0 && d[pos as int + 2] == 1 {
        Some(pos + 3)
    } else if d[pos as int] == 0 && d[pos as int + 1] == 0 && pos + 3 < d.len() && d[pos as int + 2] == 0 && d[pos as int + 3] == 1 {
        Some(pos + 4)
    } else {
        next_start(d, pos + 1)
    }
}

proof fn lemma_next_start_after(d: Seq<u8>, pos: nat)
    ensures next_start(d, pos) matches Some(s) ==> pos < s <= d.len(),
    decreases d.len() - pos,
{
    if pos + 2 < d.len() {
        lemma_next_start_after(d, pos + 1);
    }
}

/// The data starts of all start codes from `pos` on, each search resuming
/// where the previous data began.
pub open spec fn start_positions(d: Seq<u8>, pos: nat) -> Seq<nat>
    decreases d.len() - pos,
{
    match next_start(d, pos) {
        Some(s) => {
            if pos < s <= d.len() { seq![s] + start_positions(d, s) } else { Seq::empty() }
        }
        None => Seq::empty(),
    }
}

/// Where a NAL unit whose successor's data starts at `next` ends: before
/// that successor's start code.
pub open spec fn unit_end(d: Seq<u8>, next: nat) -> nat {
    if next >= 4 && d[next - 4] == 0 && d[next - 3] == 0 && d[next - 2] == 0 && d[next - 1] == 1 {
        (next - 4) as nat
    } else if next >= 3 && d[next - 3] == 0 && d[next - 2] == 0 && d[next - 1] == 1 {
        (next - 3) as nat
    } else {
        next
    }
}

/// The NAL unit bytes of an Annex B stream from start position `i` on:
/// each runs from its data start to the start code of the next, the last to
/// the end; empty ones are skipped.
pub open spec fn annex_b_units(d: Seq<u8>, ps: Seq<nat>, i: int) -> Seq<Seq<u8>>
    decreases ps.len() - i,
{
    if i < 0 || i >= ps.len() {
        Seq::empty()
    } else {
        let start = ps[i];
        let end = if i + 1 < ps.len() { unit_end(d, ps[i + 1]) } else { d.len() };
        let rest = annex_b_units(d, ps, i + 1);
        if start < end { seq![d.subrange(start as int, end as int)] + rest } else { rest }
    }
}

fn find_start_code(data: &[u8], pos: usize) -> (r: Option<usize>)
    requires pos <= data@.len(),
    ensures
        r matches Some(s) ==> next_start(data@, pos as nat) == Some(s as nat) && pos < s <= data@.len(),
        r is None ==> next_start(data@, pos as nat) is None,
{
    proof { lemma_next_start_after(data@, pos as nat); }
    let mut p = pos;
    while p < data.len() && data.len() - p > 2
        invariant pos <= p <= data@.len(), next_start(data@, pos as nat) == next_start(data@, p as nat),
        decreases data.len() - p,
    {
        proof { lemma_next_start_after(data@, p as nat); }
        if data[p] == 0 && data[p + 1] == 0 {
            if data[p + 2] == 1 {
                return Some(p + 3);
            }
            if p + 3 < data.len() && data[p + 2] == 0 && data[p + 3] == 1 {
                return Some(p + 4);
            }
        }
        p += 1;
    }
    None
}

/// Split an Annex B byte stream into NAL units: the data after each start
/// code (`00 00 01` or `00 00 00 01`) up to the next one.
pub fn split_annex_b(data: &[u8]) -> (r: Vec<NalUnit>)
    ensures units_of(r@, annex_b_units(data@, start_positions(data@, 0), 0)),
{
    let mut positions: Vec<usize> = Vec::new();
    let mut search: usize = 0;
    let ghost all = start_positions(data@, 0);
    loop
        invariant
            search <= data@.len(),
            all == positions@.map_values(|p: usize| p as nat) + start_positions(data@, search as nat),
            forall|k: int| 0 <= k < positions@.len() ==> #[trigger] positions@[k] <= data@.len(),
        ensures
            all == positions@.map_values(|p: usize| p as nat),
            forall|k: int| 0 <= k < positions@.len() ==> #[trigger] positions@[k] <= data@.len(),
        decreases data@.len() - search,
    {
        match find_start_code(data, search) {
            Some(s) => {
                let ghost before = positions@;
                positions.push(s);
                proof {
                    assert(next_start(data@, search as nat) == Some(s as nat));
                    assert(start_positions(data@, search as nat) == seq![s as nat] + start_positions(data@, s as nat));
                    assert(positions@.map_values(|p: usize| p as nat) =~= before.map_values(|p: usize| p as nat).push(s as nat));
                    assert(all =~= positions@.map_values(|p: usize| p as nat) + start_positions(data@, s as nat));
                }
                search = s;
            }
            None => {
                assert(start_positions(data@, search as nat) =~= Seq::<nat>::empty());
                assert(all =~= positions@.map_values(|p: usize| p as nat));
                break;
            }
        }
    }
    let ghost ps = all;
    let n = positions.len();
    let mut nals: Vec<NalUnit> = Vec::new();
    let mut i: usize = 0;
    let ghost mut seen: Seq<Seq<u8>> = Seq::empty();
    while i < n
        invariant
            i <= n, n == positions@.len(), ps.len() == n,
            forall|k: int| 0 <= k < n ==> ps[k] == positions@[k] as nat,
            forall|k: int| 0 <= k < n ==> #[trigger] positions@[k] <= data@.len(),
            seen + annex_b_units(data@, ps, i as int) == annex_b_units(data@, ps, 0),
            units_of(nals@, seen),
        decreases n - i,
    {
        let start = positions[i];
        let end = if i + 1 < n {
            let e = positions[i + 1];
            if e >= 4 && data[e - 4] == 0 && data[e - 3] == 0 && data[e - 2] == 0 && data[e - 1] == 1 {
                e - 4
            } else if e >= 3 && data[e - 3] == 0 && data[e - 2] == 0 && data[e - 1] == 1 {
                e - 3
            } else {
                e
            }
        } else {
            data.len()
        };
        proof {
            assert(ps[i as int] == start as nat);
            if i + 1 < n { assert(ps[i + 1] == positions@[i + 1] as nat); }
            assert(end == (if i + 1 < ps.len() { unit_end(data@, ps[i + 1]) } else { data@.len() }));
        }
        if start < end {
            let u = make_unit(data, start, end);
            nals.push(u);
            proof {
                let piece = data@.subrange(start as int, end as int);
                assert(annex_b_units(data@, ps, i as int) == seq![piece] + annex_b_units(data@, ps, i + 1));
                assert(seen + (seq![piece] + annex_b_units(data@, ps, i + 1)) =~= seen.push(piece) + annex_b_units(data@, ps, i + 1));
                seen = seen.push(piece);
            }
        }
        i += 1;
    }
    assert(annex_b_units(data@, ps, n as int) =~= Seq::<Seq<u8>>::empty());
    assert(seen + Seq::<Seq<u8>>::empty() =~= seen);
    nals
}

/// Big-endian value of `n` bytes from `pos`.
pub open spec fn be_value(d: Seq<u8>, pos: int, n: nat) -> nat
    decreases n,
{
    if n == 0 { 0 } else { be_value(d, pos, (n - 1) as nat) * 256 + d[pos + n - 1] as nat }
}

/// The NAL unit bytes of an AVCC stream from `pos` on: each unit follows a
/// big-endian length of `ls` bytes; units of length zero are skipped and a
/// length prefix that does not fit ends the stream. `None` when a unit runs
/// past the end.
pub open spec fn avcc_units(d: Seq<u8>, ls: nat, pos: nat) -> Option<Seq<Seq<u8>>>
    decreases d.len() - pos,
{
    if ls == 0 || pos + ls > d.len() {
        Some(Seq::empty())
    } else {
        let n = be_value(d, pos as int, ls);
        let start = pos + ls;
        if start + n > d.len() {
            None
        } else if n == 0 {
            avcc_units(d, ls, start)
        } else {
            match avcc_units(d, ls, start + n) {
                Some(rest) => Some(seq![d.subrange(start as int, (start + n) as int)] + rest),
                None => None,
            }
        }
    }
}

/// Split AVCC (length-prefixed) NAL units; `length_size` is the number of
/// bytes of each big-endian length prefix (1 to 4).
pub fn split_avcc(data: &[u8], length_size: usize) -> (r: Result<Vec<NalUnit>>)
    ensures
        length_size == 0 || length_size > 4 ==> r matches Err(Error::InvalidArgument(_)),
        1 <= length_size <= 4 ==> (r is Ok <==> avcc_units(data@, length_size as nat, 0) is Some),
        1 <= length_size <= 4 && r is Err ==> r matches Err(Error::InvalidData(_)),
        r matches Ok(v) ==> units_of(v@, avcc_units(data@, length_size as nat, 0)->0),
{
    if length_size == 0 || length_size > 4 {
        return Err(Error::InvalidArgument(msg("invalid AVCC length_size")));
    }
    let mut nals: Vec<NalUnit> = Vec::new();
    let mut pos: usize = 0;
    let dl = data.len();
    let ghost mut seen: Seq<Seq<u8>> = Seq::empty();
    while length_size <= data.len() - pos
        invariant
            1 <= length_size <= 4, pos <= data@.len(), units_of(nals@, seen), dl == data@.len(),
            avcc_units(data@, length_size as nat, 0) == match avcc_units(data@, length_size as nat, pos as nat) {
                Some(rest) => Some(seen + rest),
                None => None::<Seq<Seq<u8>>>,
            },
        decreases data@.len() - pos,
    {
        let mut nal_len: u32 = 0;
        let mut j: usize = 0;
        while j < length_size
            invariant j <= length_size <= 4, pos + length_size <= data@.len(), dl == data@.len(),
                nal_len == be_value(data@, pos as int, j as nat),
                j == 0 ==> nal_len == 0, j == 1 ==> nal_len < 0x100,
                j == 2 ==> nal_len < 0x1_0000, j == 3 ==> nal_len < 0x100_0000,
            decreases length_size - j,
        {
            let b = data[pos + j] as u32;
            assert(nal_len < 0x100_0000);
            assert((nal_len << 8u32) | b == nal_len * 256 + b) by (bit_vector)
                requires nal_len < 0x100_0000, b < 256;
            nal_len = (nal_len << 8) | b;
            j += 1;
        }
        let start = pos + length_size;
        let n = nal_len as usize;
        if n > data.len() - start {
            return Err(Error::InvalidData(msg("AVCC NAL length exceeds remaining data")));
        }
        if n > 0 {
            let u = make_unit(data, start, start + n);
            nals.push(u);
            proof {
                let piece = data@.subrange(start as int, (start + n) as int);
                assert(avcc_units(data@, length_size as nat, pos as nat) == match avcc_units(data@, length_size as nat, (start + n) as nat) {
                    Some(rest) => Some(seq![piece] + rest),
                    None => None::<Seq<Seq<u8>>>,
                });
                match avcc_units(data@, length_size as nat, (start + n) as nat) {
                    Some(rest) => { assert(seen + (seq![piece] + rest) =~= seen.push(piece) + rest); }
                    None => {}
                }
                seen = seen.push(piece);
            }
        }
        pos = start + n;
    }
    assert(avcc_units(data@, length_size as nat, pos as nat) == Some(Seq::<Seq<u8>>::empty()));
    assert(seen + Seq::<Seq<u8>>::empty() =~= seen);
    Ok(nals)
}

/// Minimal SPS info extracted from parsing.
#[derive(Debug, Clone, PartialEq, Eq)]
pub struct SpsInfo {
    pub profile_idc: u8,
    pub level_idc: u8,
    pub sps_id: u32,
    pub width: u32,
    pub height: u32,
}

impl SpsInfo {
    /// Video codec parameters for H.264 with the SPS dimensions.
    pub fn to_codec_parameters(&self) -> (r: Result<CodecParameters>)
        ensures
            self.width == 0 || self.height == 0 <==> r matches Err(Error::InvalidArgument(_)),
            self.width != 0 && self.height != 0 ==> r is Ok,
            r matches Ok(p) ==> blank_params(p) && p.codec_id == CodecId::H264
                && p.media_type == MediaType::Video && p.width == self.width && p.height == self.height,
    {
        let mut par = match CodecParameters::new_video(CodecId::H264, self.width, self.height) {
            Ok(p) => p,
            Err(e) => { return Err(e); }
        };
        par.codec_id = CodecId::H264;
        Ok(par)
    }
}

/// The outcome of reading from a bit position: a value and the position
/// after it, running out of data, or malformed data.
pub enum Parse<T> {
    Done(T, int),
    Eof,
    Bad,
}

/// Continue a parse with what the first step read.
pub open spec fn and_then<A, B>(s: Parse<A>, f: spec_fn(A, int) -> Parse<B>) -> Parse<B> {
    match s {
        Parse::Done(v, q) => f(v, q),
        Parse::Eof => Parse::Eof,
        Parse::Bad => Parse::Bad,
    }
}

/// Bit `p` of `d`, most significant bit of each byte first.
pub open spec fn bit_at(d: Seq<u8>, p: int) -> int {
    ((d[p / 8] >> ((7 - p % 8) as u8)) & 1u8) as int
}

/// Value of the `n` bits from `p`, most significant first.
pub open spec fn bits_value(d: Seq<u8>, p: int, n: nat) -> int
    decreases n,
{
    if n == 0 { 0 } else { 2 * bits_value(d, p, (n - 1) as nat) + bit_at(d, p + n - 1) }
}

/// Reading `n` bits from `p`.
pub open spec fn read_bits_at(d: Seq<u8>, p: int, n: nat) -> Parse<int> {
    if p + n > 8 * d.len() { Parse::Eof } else { Parse::Done(bits_value(d, p, n), p + n) }
}

/// The zero bits from `p`, at most `fuel` of them and within the data.
pub open spec fn zero_run(d: Seq<u8>, p: int, fuel: nat) -> nat
    decreases fuel,
{
    if fuel == 0 || p < 0 || p >= 8 * d.len() || bit_at(d, p) == 1 { 0 } else { 1 + zero_run(d, p + 1, (fuel - 1) as nat) }
}

/// Reading an unsigned Exp-Golomb value from `p`: `z` zero bits, a one bit
/// and `z` more bits `v` give `2^z - 1 + v`; 32 zero bits are malformed.
pub open spec fn read_ue_at(d: Seq<u8>, p: int) -> Parse<int> {
    let z = zero_run(d, p, 32);
    if z == 32 {
        Parse::Bad
    } else if p + z >= 8 * d.len() {
        Parse::Eof
    } else if z == 0 {
        Parse::Done(0, p + 1)
    } else {
        and_then(read_bits_at(d, p + z + 1, z), |v: int, q: int|
            Parse::Done(vstd::arithmetic::power2::pow2(z) - 1 + v, q))
    }
}

/// Reading a signed Exp-Golomb value: unsigned `u` maps to `(u + 1) / 2`,
/// negated when `u` is even.
pub open spec fn read_se_at(d: Seq<u8>, p: int) -> Parse<int> {
    and_then(read_ue_at(d, p), |u: int, q: int|
        Parse::Done(if u % 2 == 0 { -((u + 1) / 2) } else { (u + 1) / 2 }, q))
}

/// A read result agrees with a parse step.
pub open spec fn agrees(r: Result<u32>, s: Parse<int>, pos: int) -> bool {
    match s {
        Parse::Done(v, q) => r == Ok::<u32, Error>(v as u32) && 0 <= v <= u32::MAX && pos == q,
        Parse::Eof => r == Err::<u32, Error>(Error::Eof),
        Parse::Bad => r matches Err(Error::InvalidData(_)),
    }
}

/// A signed read result agrees with a parse step.
pub open spec fn agrees_signed(r: Result<i32>, s: Parse<int>, pos: int) -> bool {
    match s {
        Parse::Done(v, q) => r == Ok::<i32, Error>(v as i32) && i32::MIN <= v <= i32::MAX && pos == q,
        Parse::Eof => r == Err::<i32, Error>(Error::Eof),
        Parse::Bad => r matches Err(Error::InvalidData(_)),
    }
}

proof fn lemma_bits_value_bound(d: Seq<u8>, p: int, n: nat)
    ensures 0 <= bits_value(d, p, n) < vstd::arithmetic::power2::pow2(n),
    decreases n,
{
    if n > 0 {
        lemma_bits_value_bound(d, p, (n - 1) as nat);
        vstd::arithmetic::power2::lemma_pow2_unfold(n);
        let b = d[(p + n - 1) / 8] >> ((7 - (p + n - 1) % 8) as u8);
        assert(b & 1u8 <= 1) by (bit_vector);
    } else {
        vstd::arithmetic::power2::lemma2_to64();
    }
}

proof fn lemma_one_bit(d: Seq<u8>, p: int)
    ensures bits_value(d, p, 1) == bit_at(d, p), 0 <= bit_at(d, p) <= 1,
{
    assert(bits_value(d, p, 0) == 0);
    let b = d[p / 8] >> ((7 - p % 8) as u8);
    assert(b & 1u8 <= 1u8) by (bit_vector);
}

/// A reader of bits and Exp-Golomb coded values, most significant bit first.
pub struct ExpGolombReader<'a> {
    data: &'a [u8],
    byte_pos: usize,
    bit_pos: u8,
}

impl<'a> ExpGolombReader<'a> {
    /// The bit position.
    pub closed spec fn pos(&self) -> int {
        self.byte_pos * 8 + self.bit_pos
    }

    /// The bytes read.
    pub closed spec fn bytes(&self) -> Seq<u8> {
        self.data@
    }

    /// Well-formedness: the position lies within the data.
    pub closed spec fn wf(&self) -> bool {
        &&& self.bit_pos < 8
        &&& self.byte_pos <= self.data@.len()
        &&& self.byte_pos == self.data@.len() ==> self.bit_pos == 0
    }

    /// A reader at the first bit of `data`.
    pub fn new(data: &'a [u8]) -> (r: Self)
        ensures r.wf(), r.pos() == 0, r.bytes() == data@,
    {
        ExpGolombReader { data, byte_pos: 0, bit_pos: 0 }
    }

    /// Read one bit.
    pub fn read_bit(&mut self) -> (r: Result<u32>)
        requires old(self).wf(),
        ensures final(self).wf(), final(self).bytes() == old(self).bytes(),
            agrees(r, read_bits_at(old(self).bytes(), old(self).pos(), 1), final(self).pos()),
    {
        if self.byte_pos >= self.data.len() {
            return Err(Error::Eof);
        }
        let byte = self.data[self.byte_pos];
        let sh = 7 - self.bit_pos;
        let bit = (byte >> sh) & 1;
        proof {
            let p = old(self).pos();
            assert(p / 8 == self.byte_pos && p % 8 == self.bit_pos) by (nonlinear_arith)
                requires p == self.byte_pos * 8 + self.bit_pos, 0 <= self.bit_pos < 8, self.byte_pos >= 0;
            lemma_one_bit(self.data@, p);
            assert(bit <= 1) by (bit_vector) requires bit == (byte >> sh) & 1;
        }
        self.bit_pos += 1;
        if self.bit_pos >= 8 {
            self.bit_pos = 0;
            self.byte_pos += 1;
        }
        Ok(bit as u32)
    }

    /// Read `n` bits, most significant first.
    pub fn read_bits(&mut self, n: u32) -> (r: Result<u32>)
        requires old(self).wf(), n <= 32,
        ensures final(self).wf(), final(self).bytes() == old(self).bytes(),
            agrees(r, read_bits_at(old(self).bytes(), old(self).pos(), n as nat), final(self).pos()),
    {
        let ghost p = self.pos();
        let mut val: u32 = 0;
        let mut k: u32 = 0;
        while k < n
            invariant
                self.wf(), self.bytes() == old(self).bytes(), k <= n, n <= 32, p == old(self).pos(),
                self.pos() == p + k, p + k <= 8 * self.bytes().len(),
                val == bits_value(self.bytes(), p, k as nat),
            decreases n - k,
        {
            proof { lemma_bits_value_bound(self.bytes(), p, k as nat); vstd::arithmetic::power2::lemma2_to64(); }
            let b = match self.read_bit() {
                Ok(b) => b,
                Err(e) => {
                    assert(p + n > 8 * self.bytes().len());
                    return Err(e);
                }
            };
            proof { lemma_one_bit(self.bytes(), p + k); }
            assert(val < 0x8000_0000);
            assert((val << 1u32) | b == 2 * val + b) by (bit_vector) requires val < 0x8000_0000, b <= 1;
            val = (val << 1) | b;
            k += 1;
        }
        proof { lemma_bits_value_bound(self.bytes(), p, n as nat); vstd::arithmetic::power2::lemma2_to64(); }
        Ok(val)
    }

    /// Skip `n` bits.
    pub fn skip_bits(&mut self, n: u32) -> (r: Result<()>)
        requires old(self).wf(), n <= 32,
        ensures final(self).wf(), final(self).bytes() == old(self).bytes(),
            match read_bits_at(old(self).bytes(), old(self).pos(), n as nat) {
                Parse::Done(_, q) => r is Ok && final(self).pos() == q,
                _ => r == Err::<(), Error>(Error::Eof),
            },
    {
        match self.read_bits(n) {
            Ok(_) => Ok(()),
            Err(e) => Err(e),
        }
    }

    /// Read an unsigned Exp-Golomb coded value.
    pub fn read_ue(&mut self) -> (r: Result<u32>)
        requires old(self).wf(),
        ensures final(self).wf(), final(self).bytes() == old(self).bytes(),
            agrees(r, read_ue_at(old(self).bytes(), old(self).pos()), final(self).pos()),
            r matches Ok(v) ==> v < u32::MAX,
    {
        let ghost p = self.pos();
        let ghost d = self.bytes();
        let mut zeros: u32 = 0;
        loop
            invariant_except_break
                self.pos() == p + zeros,
            invariant
                self.wf(), self.bytes() == d, d == old(self).bytes(), p == old(self).pos(), p >= 0,
                zeros < 32,
                forall|k: int| 0 <= k < zeros ==> #[trigger] bit_at(d, p + k) == 0 && p + k < 8 * d.len(),
                zero_run(d, p, 32) >= zeros,
            ensures
                self.wf(), self.bytes() == d, zeros < 32, zero_run(d, p, 32) == zeros,
                p + zeros < 8 * d.len(), self.pos() == p + zeros + 1,
            decreases 32 - zeros,
        {
            let ghost before = self.pos();
            let bit = match self.read_bit() {
                Ok(b) => b,
                Err(e) => {
                    proof {
                        lemma_zero_run_from(d, p, zeros as nat);
                    }
                    return Err(e);
                }
            };
            proof { lemma_zero_run_from(d, p, zeros as nat); lemma_one_bit(d, p + zeros); }
            if bit == 1 {
                break;
            }
            zeros += 1;
            if zeros > 31 {
                proof { lemma_zero_run_from(d, p, 32); }
                return Err(Error::InvalidData(msg("Exp-Golomb overflow")));
            }
        }
        if zeros == 0 {
            return Ok(0);
        }
        let v = match self.read_bits(zeros) {
            Ok(v) => v,
            Err(e) => { return Err(e); }
        };
        proof {
            vstd::arithmetic::power2::lemma2_to64();
            vstd::arithmetic::power2::lemma_pow2_strictly_increases(zeros as nat, 32);
            lemma_bits_value_bound(d, p + zeros + 1, zeros as nat);
            assert(1u32 << zeros == vstd::arithmetic::power2::pow2(zeros as nat)) by {
                vstd::arithmetic::power2::lemma_pow2(zeros as nat);
                vstd::bits::lemma_u32_shl_is_mul(1, zeros);
            }
        }
        Ok((1u32 << zeros) - 1 + v)
    }

    /// Read a signed Exp-Golomb coded value.
    pub fn read_se(&mut self) -> (r: Result<i32>)
        requires old(self).wf(),
        ensures final(self).wf(), final(self).bytes() == old(self).bytes(),
            agrees_signed(r, read_se_at(old(self).bytes(), old(self).pos()), final(self).pos()),
    {
        let ue = match self.read_ue() {
            Ok(u) => u,
            Err(e) => { return Err(e); }
        };
        let half = (ue / 2 + ue % 2) as i32;
        assert(ue / 2 + ue % 2 == (ue + 1) / 2);
        if ue % 2 == 0 { Ok(-half) } else { Ok(half) }
    }
}

/// How the zero run from `p` relates to what a bit-by-bit reader sees after
/// `k` zero bits.
proof fn lemma_zero_run_from(d: Seq<u8>, p: int, k: nat)
    requires p >= 0, k <= 32,
        forall|j: int| 0 <= j < k ==> #[trigger] bit_at(d, p + j) == 0 && p + j < 8 * d.len(),
    ensures
        zero_run(d, p, 32) >= k,
        k < 32 && p + k >= 8 * d.len() ==> zero_run(d, p, 32) == k,
        k < 32 && p + k < 8 * d.len() && bit_at(d, p + k) == 1 ==> zero_run(d, p, 32) == k,
        k < 32 && p + k < 8 * d.len() && bit_at(d, p + k) != 1 ==> zero_run(d, p, 32) >= k + 1,
        k == 32 ==> zero_run(d, p, 32) == 32,
{
    assert forall|j: int| 0 <= j < k implies #[trigger] bit_at(d, p + j) == 0 && p + j < 8 * d.len() by {}
    lemma_zero_run_shift(d, p, 32, k);
    if k < 32 && p + k < 8 * d.len() {
        lemma_one_bit(d, p + k);
    }
}

proof fn lemma_zero_run_shift(d: Seq<u8>, p: int, fuel: nat, k: nat)
    requires p >= 0, k <= fuel,
        forall|j: int| 0 <= j < k ==> #[trigger] bit_at(d, p + j) == 0 && p + j < 8 * d.len(),
    ensures
        zero_run(d, p, fuel) == k + zero_run(d, p + k, (fuel - k) as nat),
    decreases k,
{
    if k > 0 {
        assert(bit_at(d, p + 0) == 0);
        assert forall|j: int| 0 <= j < k - 1 implies #[trigger] bit_at(d, (p + 1) + j) == 0 && (p + 1) + j < 8 * d.len() by {
            assert((p + 1) + j == p + (j + 1));
            assert(bit_at(d, p + (j + 1)) == 0);
        }
        lemma_zero_run_shift(d, p + 1, (fuel - 1) as nat, (k - 1) as nat);
    }
}

/// Profiles whose SPS carries chroma format, bit depth and scaling lists.
pub open spec fn high_profile(profile: u8) -> bool {
    profile == 100 || profile == 110 || profile == 122 || profile == 244 || profile == 44
        || profile == 83 || profile == 86 || profile == 118 || profile == 128 || profile == 138
        || profile == 139 || profile == 134 || profile == 135
}

/// Skipping the `k` remaining entries of a scaling list whose last and next
/// scale are `last` and `next`: a delta is read while the next scale is
/// nonzero.
pub open spec fn scaling_list_at(d: Seq<u8>, p: int, k: nat, last: int, next: int) -> Parse<int>
    decreases k,
{
    if k == 0 {
        Parse::Done(0, p)
    } else if next != 0 {
        match read_se_at(d, p) {
            Parse::Done(delta, q) => {
                let n2 = (last + delta + 256) % 256;
                scaling_list_at(d, q, (k - 1) as nat, if n2 == 0 { last } else { n2 }, n2)
            }
            Parse::Eof => Parse::Eof,
            Parse::Bad => Parse::Bad,
        }
    } else {
        scaling_list_at(d, p, (k - 1) as nat, last, next)
    }
}

/// Skipping `count` optional scaling lists, each announced by a flag bit.
pub open spec fn scaling_lists_at(d: Seq<u8>, p: int, count: nat, total: nat) -> Parse<int>
    decreases count,
{
    if count == 0 {
        Parse::Done(0, p)
    } else {
        match read_bits_at(d, p, 1) {
            Parse::Done(f, q) => {
                let size: nat = if total < 6 { 16 } else { 64 };
                match (if f != 0 { scaling_list_at(d, q, size, 8, 8) } else { Parse::Done(0, q) }) {
                    Parse::Done(_, q2) => scaling_lists_at(d, q2, (count - 1) as nat, total),
                    Parse::Eof => Parse::Eof,
                    Parse::Bad => Parse::Bad,
                }
            }
            Parse::Eof => Parse::Eof,
            Parse::Bad => Parse::Bad,
        }
    }
}

/// The fields of high profiles: chroma format (with the separate colour
/// plane flag for 4:4:4), two bit depths, the transform bypass flag and the
/// optional scaling matrix.
pub open spec fn high_fields_at(d: Seq<u8>, p: int) -> Parse<int> {
    and_then(read_ue_at(d, p), |c: int, p1: int|
    and_then(if c == 3 { read_bits_at(d, p1, 1) } else { Parse::Done(0, p1) }, |_s: int, p2: int|
    and_then(read_ue_at(d, p2), |_l: int, p3: int|
    and_then(read_ue_at(d, p3), |_c2: int, p4: int|
    and_then(read_bits_at(d, p4, 1), |_b: int, p5: int|
    and_then(read_bits_at(d, p5, 1), |m: int, p6: int| {
        let count: nat = if c != 3 { 8 } else { 12 };
        if m != 0 { scaling_lists_at(d, p6, count, count) } else { Parse::Done(0, p6) }
    }))))))
}

/// Skipping `n` signed values.
pub open spec fn se_list_at(d: Seq<u8>, p: int, n: nat) -> Parse<int>
    decreases n,
{
    if n == 0 {
        Parse::Done(0, p)
    } else {
        match read_se_at(d, p) {
            Parse::Done(_, q) => se_list_at(d, q, (n - 1) as nat),
            Parse::Eof => Parse::Eof,
            Parse::Bad => Parse::Bad,
        }
    }
}

/// The picture order count fields of type `t`: the LSB size for type 0, the
/// offsets and reference frame cycle for type 1, nothing otherwise. The
/// value is the LSB size field for type 0.
pub open spec fn poc_fields_at(d: Seq<u8>, p: int, t: int) -> Parse<int> {
    if t == 0 {
        read_ue_at(d, p)
    } else if t == 1 {
        and_then(read_bits_at(d, p, 1), |_a: int, p1: int|
        and_then(read_se_at(d, p1), |_b: int, p2: int|
        and_then(read_se_at(d, p2), |_c: int, p3: int|
        and_then(read_ue_at(d, p3), |n: int, p4: int|
        and_then(se_list_at(d, p4, n as nat), |_e: int, p5: int| Parse::Done(0, p5))))))
    } else {
        Parse::Done(0, p)
    }
}

/// The Exp-Golomb coded fields of an SPS that the parser reads.
pub struct SpsFields {
    pub sps_id: int,
    pub log2_max_frame_num_minus4: int,
    pub pic_order_cnt_type: int,
    pub poc_value: int,
    pub width_in_mbs_minus1: int,
    pub height_in_map_units_minus1: int,
    pub frame_mbs_only: int,
}

/// Parsing the SPS fields after the profile, constraint and level bytes.
pub open spec fn sps_fields_at(d: Seq<u8>, profile: u8) -> Parse<SpsFields> {
    and_then(read_ue_at(d, 0), |id: int, p1: int|
    and_then(if high_profile(profile) { high_fields_at(d, p1) } else { Parse::Done(0, p1) }, |_h: int, p2: int|
    and_then(read_ue_at(d, p2), |lf: int, p3: int|
    and_then(read_ue_at(d, p3), |t: int, p4: int|
    and_then(poc_fields_at(d, p4, t), |pv: int, p5: int|
    and_then(read_ue_at(d, p5), |_r: int, p6: int|
    and_then(read_bits_at(d, p6, 1), |_g: int, p7: int|
    and_then(read_ue_at(d, p7), |w: int, p8: int|
    and_then(read_ue_at(d, p8), |h: int, p9: int|
    and_then(read_bits_at(d, p9, 1), |f: int, p10: int|
        Parse::Done(SpsFields {
            sps_id: id, log2_max_frame_num_minus4: lf, pic_order_cnt_type: t, poc_value: pv,
            width_in_mbs_minus1: w, height_in_map_units_minus1: h, frame_mbs_only: f,
        }, p10)))))))))))
}

/// The bits of `d1` from `p1` to its end are bits of `d2` from
/// `p1 + delta` on.
pub open spec fn bits_agree(d1: Seq<u8>, p1: int, d2: Seq<u8>, delta: int) -> bool {
    &&& 0 <= p1 && 0 <= p1 + delta
    &&& 8 * d1.len() + delta <= 8 * d2.len()
    &&& forall|q: int| p1 <= q < 8 * d1.len() ==> #[trigger] bit_at(d1, q) == bit_at(d2, q + delta)
}

/// A parse result with its end position moved by `delta`.
pub open spec fn shifted<T>(r: Parse<T>, delta: int) -> Parse<T> {
    match r {
        Parse::Done(v, q) => Parse::Done(v, q + delta),
        Parse::Eof => Parse::Eof,
        Parse::Bad => Parse::Bad,
    }
}

/// A parse result that, when done, ends at `q` or later.
pub open spec fn ends_from<T>(r: Parse<T>, q: int) -> bool {
    r matches Parse::Done(_, e) ==> e >= q
}

proof fn lemma_zero_run_agree(d1: Seq<u8>, p1: int, d2: Seq<u8>, delta: int, q: int, fuel: nat)
    requires bits_agree(d1, p1, d2, delta), q >= p1,
    ensures
        zero_run(d1, q, fuel) == fuel || q + zero_run(d1, q, fuel) < 8 * d1.len()
            ==> zero_run(d1, q, fuel) == zero_run(d2, q + delta, fuel),
    decreases fuel,
{
    if fuel > 0 && q < 8 * d1.len() {
        assert(bit_at(d1, q) == bit_at(d2, q + delta));
        lemma_zero_run_agree(d1, p1, d2, delta, q + 1, (fuel - 1) as nat);
        assert(q + 1 + delta == q + delta + 1);
    }
}

proof fn lemma_bits_value_agree(d1: Seq<u8>, p1: int, d2: Seq<u8>, delta: int, q: int, n: nat)
    requires bits_agree(d1, p1, d2, delta), q >= p1, q + n <= 8 * d1.len(),
    ensures bits_value(d1, q, n) == bits_value(d2, q + delta, n),
    decreases n,
{
    if n > 0 {
        lemma_bits_value_agree(d1, p1, d2, delta, q, (n - 1) as nat);
        assert(bit_at(d1, q + n - 1) == bit_at(d2, q + n - 1 + delta));
        assert(q + delta + n - 1 == q + n - 1 + delta);
    }
}

proof fn lemma_read_bits_agree(d1: Seq<u8>, p1: int, d2: Seq<u8>, delta: int, q: int, n: nat)
    requires bits_agree(d1, p1, d2, delta), q >= p1,
    ensures
        read_bits_at(d1, q, n) is Done ==> read_bits_at(d2, q + delta, n) == shifted(read_bits_at(d1, q, n), delta),
        ends_from(read_bits_at(d1, q, n), q),
{
    if q + n <= 8 * d1.len() {
        lemma_bits_value_agree(d1, p1, d2, delta, q, n);
    }
}

proof fn lemma_read_ue_agree(d1: Seq<u8>, p1: int, d2: Seq<u8>, delta: int, q: int)
    requires bits_agree(d1, p1, d2, delta), q >= p1,
    ensures
        read_ue_at(d1, q) is Done ==> read_ue_at(d2, q + delta) == shifted(read_ue_at(d1, q), delta),
        ends_from(read_ue_at(d1, q), q + 1),
{
    lemma_zero_run_agree(d1, p1, d2, delta, q, 32);
    let z = zero_run(d1, q, 32);
    if z != 32 && q + z < 8 * d1.len() && z != 0 {
        lemma_read_bits_agree(d1, p1, d2, delta, q + z + 1, z);
        assert(q + z + 1 + delta == q + delta + z + 1);
    }
}

proof fn lemma_read_se_agree(d1: Seq<u8>, p1: int, d2: Seq<u8>, delta: int, q: int)
    requires bits_agree(d1, p1, d2, delta), q >= p1,
    ensures
        read_se_at(d1, q) is Done ==> read_se_at(d2, q + delta) == shifted(read_se_at(d1, q), delta),
        ends_from(read_se_at(d1, q), q),
{
    lemma_read_ue_agree(d1, p1, d2, delta, q);
}

proof fn lemma_se_list_agree(d1: Seq<u8>, p1: int, d2: Seq<u8>, delta: int, q: int, n: nat)
    requires bits_agree(d1, p1, d2, delta), q >= p1,
    ensures
        se_list_at(d1, q, n) is Done ==> se_list_at(d2, q + delta, n) == shifted(se_list_at(d1, q, n), delta),
        ends_from(se_list_at(d1, q, n), q),
    decreases n,
{
    if n > 0 {
        lemma_read_se_agree(d1, p1, d2, delta, q);
        match read_se_at(d1, q) {
            Parse::Done(_, r) => {
                lemma_se_list_agree(d1, p1, d2, delta, r, (n - 1) as nat);
            }
            _ => {}
        }
    }
}

proof fn lemma_poc_fields_agree(d1: Seq<u8>, p1: int, d2: Seq<u8>, delta: int, q: int, t: int)
    requires bits_agree(d1, p1, d2, delta), q >= p1,
    ensures
        poc_fields_at(d1, q, t) is Done ==> poc_fields_at(d2, q + delta, t) == shifted(poc_fields_at(d1, q, t), delta),
        ends_from(poc_fields_at(d1, q, t), q),
{
    if t == 0 {
        lemma_read_ue_agree(d1, p1, d2, delta, q);
    } else if t == 1 {
        lemma_read_bits_agree(d1, p1, d2, delta, q, 1);
        let q1 = q + 1;
        if q + 1 <= 8 * d1.len() {
            lemma_read_se_agree(d1, p1, d2, delta, q1);
            if let Parse::Done(_, q2) = read_se_at(d1, q1) {
                lemma_read_se_agree(d1, p1, d2, delta, q2);
                if let Parse::Done(_, q3) = read_se_at(d1, q2) {
                    lemma_read_ue_agree(d1, p1, d2, delta, q3);
                    if let Parse::Done(n, q4) = read_ue_at(d1, q3) {
                        lemma_se_list_agree(d1, p1, d2, delta, q4, n as nat);
                    }
                }
            }
        }
    }
}

/// The SPS fields after the sps id (and, for high profiles, the fields
/// that come next), read from `p` on.
pub open spec fn sps_tail_at(d: Seq<u8>, p: int, id: int) -> Parse<SpsFields> {
    and_then(read_ue_at(d, p), |lf: int, p3: int|
    and_then(read_ue_at(d, p3), |t: int, p4: int|
    and_then(poc_fields_at(d, p4, t), |pv: int, p5: int|
    and_then(read_ue_at(d, p5), |_r: int, p6: int|
    and_then(read_bits_at(d, p6, 1), |_g: int, p7: int|
    and_then(read_ue_at(d, p7), |w: int, p8: int|
    and_then(read_ue_at(d, p8), |h: int, p9: int|
    and_then(read_bits_at(d, p9, 1), |f: int, p10: int|
        Parse::Done(SpsFields {
            sps_id: id, log2_max_frame_num_minus4: lf, pic_order_cnt_type: t, poc_value: pv,
            width_in_mbs_minus1: w, height_in_map_units_minus1: h, frame_mbs_only: f,
        }, p10)))))))))
}

proof fn lemma_sps_tail_agree(d1: Seq<u8>, p1: int, d2: Seq<u8>, delta: int, id: int)
    requires bits_agree(d1, p1, d2, delta),
    ensures sps_tail_at(d1, p1, id) is Done ==> sps_tail_at(d2, p1 + delta, id) == shifted(sps_tail_at(d1, p1, id), delta),
{
    lemma_read_ue_agree(d1, p1, d2, delta, p1);
    if let Parse::Done(_lf, p3) = read_ue_at(d1, p1) {
        lemma_read_ue_agree(d1, p1, d2, delta, p3);
        if let Parse::Done(t, p4) = read_ue_at(d1, p3) {
            lemma_poc_fields_agree(d1, p1, d2, delta, p4, t);
            if let Parse::Done(_pv, p5) = poc_fields_at(d1, p4, t) {
                lemma_read_ue_agree(d1, p1, d2, delta, p5);
                if let Parse::Done(_r, p6) = read_ue_at(d1, p5) {
                    lemma_read_bits_agree(d1, p1, d2, delta, p6, 1);
                    if let Parse::Done(_g, p7) = read_bits_at(d1, p6, 1) {
                        lemma_read_ue_agree(d1, p1, d2, delta, p7);
                        if let Parse::Done(_w, p8) = read_ue_at(d1, p7) {
                            lemma_read_ue_agree(d1, p1, d2, delta, p8);
                            if let Parse::Done(_h, p9) = read_ue_at(d1, p8) {
                                lemma_read_bits_agree(d1, p1, d2, delta, p9, 1);
                            }
                        }
                    }
                }
            }
        }
    }
}

/// High-profile SPS fields are skipped before the rest is read: an SPS of
/// profile 100 (High) whose bits after the sps id are chroma format 1
/// (`010`), two bit depths of 8 (`1`, `1`), no transform bypass (`0`) and
/// no scaling matrix (`0`), followed by the bits of a Baseline (profile 66)
/// SPS after the same sps id, gives the same fields as that Baseline SPS:
/// the same log2 frame number size, picture order count fields, picture
/// size in macroblocks and frame flag, each read 7 bits later.
pub proof fn law_sps_high_fields_skipped(d1: Seq<u8>, d2: Seq<u8>, id: int, k: int)
    requires
        read_ue_at(d1, 0) == Parse::Done(id, k),
        read_ue_at(d2, 0) == Parse::Done(id, k),
        k + 7 <= 8 * d2.len(),
        sps_fields_at(d1, 66) is Done,
        bit_at(d2, k) == 0, bit_at(d2, k + 1) == 1, bit_at(d2, k + 2) == 0,
        bit_at(d2, k + 3) == 1, bit_at(d2, k + 4) == 1, bit_at(d2, k + 5) == 0, bit_at(d2, k + 6) == 0,
        bits_agree(d1, k, d2, 7),
    ensures sps_fields_at(d2, 100) == shifted(sps_fields_at(d1, 66), 7),
{
    // The high-profile fields of d2 end 7 bits after the sps id.
    reveal_with_fuel(zero_run, 3);
    assert(zero_run(d2, k, 32) == 1);
    assert(bits_value(d2, k + 2, 1) == 0) by { reveal_with_fuel(bits_value, 2); }
    vstd::arithmetic::power2::lemma2_to64();
    assert(read_ue_at(d2, k) == Parse::<int>::Done(1, k + 3));
    assert(zero_run(d2, k + 3, 32) == 0);
    assert(read_ue_at(d2, k + 3) == Parse::<int>::Done(0, k + 4));
    assert(zero_run(d2, k + 4, 32) == 0);
    assert(read_ue_at(d2, k + 4) == Parse::<int>::Done(0, k + 5));
    assert(bits_value(d2, k + 5, 1) == 0) by { reveal_with_fuel(bits_value, 2); }
    assert(bits_value(d2, k + 6, 1) == 0) by { reveal_with_fuel(bits_value, 2); }
    assert(high_fields_at(d2, k) == Parse::<int>::Done(0, k + 7));
    lemma_sps_tail_agree(d1, k, d2, 7, id);
    assert(sps_fields_at(d2, 100) == sps_tail_at(d2, k + 7, id));
    assert(sps_fields_at(d1, 66) == sps_tail_at(d1, k, id));
}

/// The picture size of an SPS in pixels: 16 pixels per macroblock across,
/// and 16 rows per map unit down, twice that when frames may be coded as
/// field pairs (frame_mbs_only clear); profile and level are bytes 1 and 3.
pub proof fn law_sps_picture_size(data: Seq<u8>, f: SpsFields)
    requires
        sps_values_fit(f), f.frame_mbs_only == 0 || f.frame_mbs_only == 1, data.len() >= 4,
        f.width_in_mbs_minus1 >= 0, f.height_in_map_units_minus1 >= 0,
    ensures ({
        let info = sps_info_of(data, f);
        &&& info.width == 16 * (f.width_in_mbs_minus1 + 1)
        &&& info.height == (if f.frame_mbs_only == 1 { 16 * (f.height_in_map_units_minus1 + 1) }
            else { 32 * (f.height_in_map_units_minus1 + 1) })
        &&& info.profile_idc == data[1] && info.level_idc == data[3]
    }),
{
    let w = f.width_in_mbs_minus1;
    let h = f.height_in_map_units_minus1;
    assert((w + 1) * 16 == 16 * (w + 1)) by (nonlinear_arith);
    assert((w + 1) * 16 >= 0) by (nonlinear_arith) requires w >= 0;
    assert((2 - f.frame_mbs_only) * (h + 1) * 16 == (if f.frame_mbs_only == 1 { 16 * (h + 1) } else { 32 * (h + 1) }))
        by (nonlinear_arith) requires f.frame_mbs_only == 0 || f.frame_mbs_only == 1;
    assert((2 - f.frame_mbs_only) * (h + 1) * 16 >= 0) by (nonlinear_arith)
        requires h >= 0, f.frame_mbs_only == 0 || f.frame_mbs_only == 1;
}

/// Every high profile of the standard (100, 110, 122, 244, 44, 83, 86,
/// 118, 128, 138, 139, 134, 135) reads an SPS as High (100) does, and every
/// other profile as Baseline (66) does.
pub proof fn law_sps_profiles_alike(d: Seq<u8>, profile: u8)
    ensures
        (profile == 100 || profile == 110 || profile == 122 || profile == 244 || profile == 44
            || profile == 83 || profile == 86 || profile == 118 || profile == 128 || profile == 138
            || profile == 139 || profile == 134 || profile == 135) ==> sps_fields_at(d, profile) == sps_fields_at(d, 100),
        !(profile == 100 || profile == 110 || profile == 122 || profile == 244 || profile == 44
            || profile == 83 || profile == 86 || profile == 118 || profile == 128 || profile == 138
            || profile == 139 || profile == 134 || profile == 135) ==> sps_fields_at(d, profile) == sps_fields_at(d, 66),
{
}

/// The SPS values stay within 32 bits: the log2 sizes plus four and the
/// picture dimensions in pixels.
pub open spec fn sps_values_fit(f: SpsFields) -> bool {
    &&& f.log2_max_frame_num_minus4 + 4 <= u32::MAX
    &&& f.pic_order_cnt_type == 0 ==> f.poc_value + 4 <= u32::MAX
    &&& (f.width_in_mbs_minus1 + 1) * 16 <= u32::MAX
    &&& (2 - f.frame_mbs_only) * (f.height_in_map_units_minus1 + 1) * 16 <= u32::MAX
}

/// What parsing an SPS gives: its profile and level bytes, its id, and the
/// width and height in pixels from its macroblock counts.
pub open spec fn sps_info_of(data: Seq<u8>, f: SpsFields) -> SpsInfo {
    SpsInfo {
        profile_idc: data[1],
        level_idc: data[3],
        sps_id: f.sps_id as u32,
        width: ((f.width_in_mbs_minus1 + 1) * 16) as u32,
        height: ((2 - f.frame_mbs_only) * (f.height_in_map_units_minus1 + 1) * 16) as u32,
    }
}

/// A result without a value agrees with a parse step.
pub open spec fn agrees_unit(r: Result<()>, s: Parse<int>, pos: int) -> bool {
    match s {
        Parse::Done(_, q) => r is Ok && pos == q,
        Parse::Eof => r == Err::<(), Error>(Error::Eof),
        Parse::Bad => r matches Err(Error::InvalidData(_)),
    }
}

fn skip_scaling_list(reader: &mut ExpGolombReader, size: u32) -> (r: Result<()>)
    requires old(reader).wf(),
    ensures final(reader).wf(), final(reader).bytes() == old(reader).bytes(),
        agrees_unit(r, scaling_list_at(old(reader).bytes(), old(reader).pos(), size as nat, 8, 8), final(reader).pos()),
{
    let ghost d = reader.bytes();
    let mut last: u64 = 8;
    let mut next: u64 = 8;
    let mut k: u32 = 0;
    while k < size
        invariant
            reader.wf(), reader.bytes() == d, d == old(reader).bytes(), k <= size, last < 256, next < 256,
            scaling_list_at(d, old(reader).pos(), size as nat, 8, 8)
                == scaling_list_at(d, reader.pos(), (size - k) as nat, last as int, next as int),
        decreases size - k,
    {
        if next != 0 {
            let delta = match reader.read_se() {
                Ok(v) => v,
                Err(e) => { return Err(e); }
            };
            let dm: u64 = if delta >= 0 { (delta as u64) % 256 } else { (256 - ((0 - delta as i64) as u64) % 256) % 256 };
            let n2: u64 = (last + dm) % 256;
            assert(n2 == (last + delta + 256) % 256) by (nonlinear_arith)
                requires n2 == (last + dm) % 256, dm == (if delta >= 0 { (delta as int) % 256 } else { (256 - (-(delta as int)) % 256) % 256 }),
                    last < 256;
            last = if n2 == 0 { last } else { n2 };
            next = n2;
        }
        k += 1;
    }
    Ok(())
}

fn skip_scaling_lists(reader: &mut ExpGolombReader, count: u32) -> (r: Result<()>)
    requires old(reader).wf(),
    ensures final(reader).wf(), final(reader).bytes() == old(reader).bytes(),
        agrees_unit(r, scaling_lists_at(old(reader).bytes(), old(reader).pos(), count as nat, count as nat), final(reader).pos()),
{
    let ghost d = reader.bytes();
    let mut i: u32 = 0;
    while i < count
        invariant
            reader.wf(), reader.bytes() == d, d == old(reader).bytes(), i <= count,
            scaling_lists_at(d, old(reader).pos(), count as nat, count as nat)
                == scaling_lists_at(d, reader.pos(), (count - i) as nat, count as nat),
        decreases count - i,
    {
        let present = match reader.read_bits(1) { Ok(v) => v, Err(e) => { return Err(e); } };
        if present != 0 {
            let size: u32 = if count < 6 { 16 } else { 64 };
            match skip_scaling_list(reader, size) { Ok(()) => {}, Err(e) => { return Err(e); } }
        }
        i += 1;
    }
    Ok(())
}

fn skip_high_fields(reader: &mut ExpGolombReader) -> (r: Result<()>)
    requires old(reader).wf(),
    ensures final(reader).wf(), final(reader).bytes() == old(reader).bytes(),
        agrees_unit(r, high_fields_at(old(reader).bytes(), old(reader).pos()), final(reader).pos()),
{
    let chroma = match reader.read_ue() { Ok(v) => v, Err(e) => { return Err(e); } };
    if chroma == 3 {
        match reader.skip_bits(1) { Ok(()) => {}, Err(e) => { return Err(e); } }
    }
    match reader.read_ue() { Ok(_) => {}, Err(e) => { return Err(e); } }
    match reader.read_ue() { Ok(_) => {}, Err(e) => { return Err(e); } }
    match reader.skip_bits(1) { Ok(()) => {}, Err(e) => { return Err(e); } }
    let matrix = match reader.read_bits(1) { Ok(v) => v, Err(e) => { return Err(e); } };
    if matrix != 0 {
        let count: u32 = if chroma != 3 { 8 } else { 12 };
        return skip_scaling_lists(reader, count);
    }
    Ok(())
}

fn skip_se_list(reader: &mut ExpGolombReader, n: u32) -> (r: Result<()>)
    requires old(reader).wf(),
    ensures final(reader).wf(), final(reader).bytes() == old(reader).bytes(),
        agrees_unit(r, se_list_at(old(reader).bytes(), old(reader).pos(), n as nat), final(reader).pos()),
{
    let ghost d = reader.bytes();
    let mut i: u32 = 0;
    while i < n
        invariant
            reader.wf(), reader.bytes() == d, d == old(reader).bytes(), i <= n,
            se_list_at(d, old(reader).pos(), n as nat) == se_list_at(d, reader.pos(), (n - i) as nat),
        decreases n - i,
    {
        match reader.read_se() { Ok(_) => {}, Err(e) => { return Err(e); } }
        i += 1;
    }
    Ok(())
}

fn read_poc_fields(reader: &mut ExpGolombReader, t: u32) -> (r: Result<u32>)
    requires old(reader).wf(),
    ensures final(reader).wf(), final(reader).bytes() == old(reader).bytes(),
        agrees(r, poc_fields_at(old(reader).bytes(), old(reader).pos(), t as int), final(reader).pos()),
{
    if t == 0 {
        reader.read_ue()
    } else if t == 1 {
        match reader.skip_bits(1) { Ok(()) => {}, Err(e) => { return Err(e); } }
        match reader.read_se() { Ok(_) => {}, Err(e) => { return Err(e); } }
        match reader.read_se() { Ok(_) => {}, Err(e) => { return Err(e); } }
        let n = match reader.read_ue() { Ok(v) => v, Err(e) => { return Err(e); } };
        match skip_se_list(reader, n) { Ok(()) => {}, Err(e) => { return Err(e); } }
        Ok(0)
    } else {
        Ok(0)
    }
}

/// The SPS of these field values: invalid data when one of them does not
/// fit in 32 bits.
fn sps_result(profile_idc: u8, level_idc: u8, sps_id: u32, log2_frame: u32, poc_type: u32, poc_value: u32,
    w1: u32, h1: u32, frame_mbs_only: u32) -> (r: Result<SpsInfo>)
    requires frame_mbs_only <= 1,
    ensures ({
        let f = SpsFields {
            sps_id: sps_id as int, log2_max_frame_num_minus4: log2_frame as int, pic_order_cnt_type: poc_type as int,
            poc_value: poc_value as int, width_in_mbs_minus1: w1 as int, height_in_map_units_minus1: h1 as int,
            frame_mbs_only: frame_mbs_only as int,
        };
        if sps_values_fit(f) {
            r == Ok::<SpsInfo, Error>(SpsInfo {
                profile_idc, level_idc, sps_id,
                width: ((f.width_in_mbs_minus1 + 1) * 16) as u32,
                height: ((2 - f.frame_mbs_only) * (f.height_in_map_units_minus1 + 1) * 16) as u32,
            })
        } else {
            r matches Err(Error::InvalidData(_))
        }
    }),
{
    let width64: u64 = (w1 as u64 + 1) * 16;
    let rows: u64 = (h1 as u64 + 1) * 16;
    let height64: u64 = if frame_mbs_only == 0 { rows * 2 } else { rows };
    assert(height64 == (2 - frame_mbs_only) * (h1 + 1) * 16) by (nonlinear_arith)
        requires rows == (h1 + 1) * 16, frame_mbs_only <= 1,
            height64 == (if frame_mbs_only == 0 { rows * 2 } else { rows as int });
    if log2_frame as u64 + 4 > 0xFFFF_FFFF || (poc_type == 0 && poc_value as u64 + 4 > 0xFFFF_FFFF)
        || width64 > 0xFFFF_FFFF || height64 > 0xFFFF_FFFF {
        return Err(Error::InvalidData(msg("SPS values out of range")));
    }
    Ok(SpsInfo { profile_idc, level_idc, sps_id, width: width64 as u32, height: height64 as u32 })
}

/// Parse the basic SPS fields: profile, level, SPS id and the picture size.
///
/// The fixed bytes after the NAL header give profile and level; the
/// Exp-Golomb coded fields that follow are read up to the frame_mbs_only
/// flag. Width is the macroblock count times 16; height is the map unit
/// count times 16, doubled when frames may be field pairs. Values past
/// 32 bits are invalid data.
#[verifier::spinoff_prover]
pub fn parse_sps_basic(data: &[u8]) -> (r: Result<SpsInfo>)
    ensures
        data@.len() < 4 ==> r matches Err(Error::InvalidData(_)),
        data@.len() >= 4 ==> match sps_fields_at(data@.skip(4), data@[1]) {
            Parse::Done(f, _) => if sps_values_fit(f) {
                r == Ok::<SpsInfo, Error>(sps_info_of(data@, f))
            } else {
                r matches Err(Error::InvalidData(_))
            },
            Parse::Eof => r == Err::<SpsInfo, Error>(Error::Eof),
            Parse::Bad => r matches Err(Error::InvalidData(_)),
        },
{
    if data.len() < 4 {
        return Err(Error::InvalidData(msg("SPS too short")));
    }
    let profile_idc = data[1];
    let level_idc = data[3];
    let body = vstd::slice::slice_subrange(data, 4, data.len());
    assert(body@ =~= data@.skip(4));
    let mut reader = ExpGolombReader::new(body);
    let sps_id = match reader.read_ue() { Ok(v) => v, Err(e) => { return Err(e); } };
    if profile_idc == 100 || profile_idc == 110 || profile_idc == 122 || profile_idc == 244
        || profile_idc == 44 || profile_idc == 83 || profile_idc == 86 || profile_idc == 118
        || profile_idc == 128 || profile_idc == 138 || profile_idc == 139 || profile_idc == 134
        || profile_idc == 135 {
        match skip_high_fields(&mut reader) { Ok(()) => {}, Err(e) => { return Err(e); } }
    }
    let log2_frame = match reader.read_ue() { Ok(v) => v, Err(e) => { return Err(e); } };
    let poc_type = match reader.read_ue() { Ok(v) => v, Err(e) => { return Err(e); } };
    let poc_value = match read_poc_fields(&mut reader, poc_type) { Ok(v) => v, Err(e) => { return Err(e); } };
    match reader.read_ue() { Ok(_) => {}, Err(e) => { return Err(e); } }
    match reader.skip_bits(1) { Ok(()) => {}, Err(e) => { return Err(e); } }
    let w1 = match reader.read_ue() { Ok(v) => v, Err(e) => { return Err(e); } };
    let h1 = match reader.read_ue() { Ok(v) => v, Err(e) => { return Err(e); } };
    let frame_mbs_only = match reader.read_bits(1) { Ok(v) => v, Err(e) => { return Err(e); } };
    proof {
        lemma_bits_value_bound(body@, reader.pos() - 1, 1);
        vstd::arithmetic::power2::lemma2_to64();
    }
    let ghost f = SpsFields {
        sps_id: sps_id as int, log2_max_frame_num_minus4: log2_frame as int, pic_order_cnt_type: poc_type as int,
        poc_value: poc_value as int, width_in_mbs_minus1: w1 as int, height_in_map_units_minus1: h1 as int,
        frame_mbs_only: frame_mbs_only as int,
    };
    assert(sps_fields_at(data@.skip(4), data@[1]) == Parse::Done(f, reader.pos()));
    let r = sps_result(profile_idc, level_idc, sps_id, log2_frame, poc_type, poc_value, w1, h1, frame_mbs_only);
    assert(sps_values_fit(f) ==> r == Ok::<SpsInfo, Error>(sps_info_of(data@, f)));
    r
}

} // verus!
