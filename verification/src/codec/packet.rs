use vstd::prelude::*;
use crate::util::buffer::Buffer;
use crate::util::error::{Error, Result, msg};
use crate::util::mathematics::{rescale_q, rescale_q_spec, Rounding};
use crate::util::rational::Rational;

verus! {

/// Types of side data that can be attached to a packet.
#[derive(Debug, Clone, Copy, PartialEq, Eq, Hash, Structural)]
#[non_exhaustive]
pub enum PacketSideDataType {
    /// Palette for indexed-color video.
    Palette,
    /// New extradata (codec-specific header update).
    NewExtradata,
    /// Parameter change (sample rate, channel layout, etc.).
    ParamChange,
    /// Skip samples at start/end of packet.
    SkipSamples,
    /// Mastering display metadata.
    MasteringDisplayMetadata,
    /// Content light level.
    ContentLightLevel,
    /// Encryption initialization info.
    EncryptionInitInfo,
    /// Encryption info for this specific packet.
    EncryptionInfo,
}

/// A single piece of side data attached to a packet.
#[derive(Debug, Clone, PartialEq, Eq)]
pub struct PacketSideData {
    pub data_type: PacketSideDataType,
    pub data: Buffer,
}

/// Packet flags.
#[derive(Debug, Clone, Copy, PartialEq, Eq, Default, Structural)]
pub struct PacketFlags {
    /// This packet contains a keyframe.
    pub keyframe: bool,
    /// This packet is corrupt (but may still be decodable).
    pub corrupt: bool,
    /// This packet should be discarded after decoding.
    pub discard: bool,
}

/// No flag set.
pub open spec fn no_flags() -> PacketFlags {
    PacketFlags { keyframe: false, corrupt: false, discard: false }
}

/// An encoded media packet — the unit of data passed between
/// demuxer/decoder and encoder/muxer.
#[derive(Debug, Clone)]
pub struct Packet {
    /// The encoded data.
    pub data: Buffer,
    /// Presentation timestamp in `time_base` units.
    pub pts: Option<i64>,
    /// Decompression timestamp in `time_base` units.
    pub dts: Option<i64>,
    /// Duration in `time_base` units.
    pub duration: Option<i64>,
    /// Time base for pts/dts/duration.
    pub time_base: Rational,
    /// Stream index this packet belongs to.
    pub stream_index: u32,
    /// Flags.
    pub flags: PacketFlags,
    /// Byte position of this packet in the stream (-1 if unknown).
    pub pos: i64,
    /// Attached side data, in order of addition; use the side data methods.
    pub side_data: Vec<PacketSideData>,
}

/// The side data list without entries of type `t`.
pub open spec fn without_type(s: Seq<PacketSideData>, t: PacketSideDataType) -> Seq<PacketSideData> {
    s.filter(|sd: PacketSideData| sd.data_type != t)
}

/// The first entry of type `t`, if any.
pub open spec fn first_of_type(s: Seq<PacketSideData>, t: PacketSideDataType) -> Option<PacketSideData>
    decreases s.len(),
{
    if s.len() == 0 { None }
    else if s[0].data_type == t { Some(s[0]) }
    else { first_of_type(s.drop_first(), t) }
}

/// A timestamp after rescaling between time bases: `Some(None)` for no
/// timestamp, `None` when rescaling fails.
pub open spec fn ts_rescaled(o: Option<i64>, src: Rational, dst: Rational) -> Option<Option<i64>> {
    match o {
        None => Some(None),
        Some(v) => {
            if src.den * dst.num == 0 {
                None
            } else {
                match rescale_q_spec(v, src, dst, Rounding::NearInf) {
                    Ok(x) => Some(Some(x)),
                    Err(_) => None,
                }
            }
        }
    }
}

/// The packet's fields other than its timestamps and time base agree.
pub open spec fn same_but_timing(a: Packet, b: Packet) -> bool {
    &&& a.data == b.data && a.stream_index == b.stream_index && a.flags == b.flags
    &&& a.pos == b.pos && a.side_data@ == b.side_data@
}

fn rescale_opt(o: Option<i64>, src: Rational, dst: Rational) -> (r: Result<Option<i64>>)
    requires src.valid(), dst.valid(),
    ensures
        r is Ok <==> ts_rescaled(o, src, dst) is Some,
        r matches Ok(x) ==> ts_rescaled(o, src, dst) == Some(x),
        r is Err ==> r matches Err(Error::InvalidArgument(_)) || r == Err::<Option<i64>, Error>(Error::Overflow),
{
    match o {
        None => Ok(None),
        Some(v) => {
            match rescale_q(v, src, dst) {
                Ok(x) => Ok(Some(x)),
                Err(e) => Err(e),
            }
        }
    }
}

impl Packet {
    /// A copy of this packet whose buffers share the bytes (what `clone`
    /// does).
    pub fn duplicate(&self) -> (r: Packet)
        ensures r.data == self.data && r.pts == self.pts && r.dts == self.dts
            && r.duration == self.duration && r.time_base == self.time_base
            && r.stream_index == self.stream_index && r.flags == self.flags && r.pos == self.pos
            && r.side_data@ == self.side_data@,
    {
        let mut sd: Vec<PacketSideData> = Vec::new();
        let mut i: usize = 0;
        while i < self.side_data.len()
            invariant i <= self.side_data@.len(), sd@ == self.side_data@.take(i as int),
            decreases self.side_data.len() - i,
        {
            let e = &self.side_data[i];
            sd.push(PacketSideData { data_type: e.data_type, data: e.data.share() });
            i += 1;
            assert(sd@ =~= self.side_data@.take(i as int));
        }
        assert(self.side_data@.take(self.side_data@.len() as int) =~= self.side_data@);
        Packet {
            data: self.data.share(), pts: self.pts, dts: self.dts, duration: self.duration,
            time_base: self.time_base, stream_index: self.stream_index, flags: self.flags,
            pos: self.pos, side_data: sd,
        }
    }

    /// Create a packet holding `data`, with no timestamps, an unknown time
    /// base, stream 0, no flags, position -1 and no side data.
    pub fn new(data: Buffer) -> (r: Packet)
        ensures
            r.data == data, r.pts is None, r.dts is None, r.duration is None,
            r.time_base.num == 0 && r.time_base.den == 0, r.stream_index == 0,
            r.flags == no_flags(), r.pos == -1, r.side_data@.len() == 0,
    {
        Packet {
            data, pts: None, dts: None, duration: None, time_base: Rational::unknown(),
            stream_index: 0, flags: PacketFlags { keyframe: false, corrupt: false, discard: false },
            pos: -1, side_data: Vec::new(),
        }
    }

    /// Create an empty packet (e.g. for flush signaling).
    pub fn empty() -> (r: Packet)
        ensures
            r.data.view().len() == 0, r.pts is None, r.dts is None, r.duration is None,
            r.time_base.num == 0 && r.time_base.den == 0, r.stream_index == 0,
            r.flags == no_flags(), r.pos == -1, r.side_data@.len() == 0,
    {
        Self::new(Buffer::from_vec(Vec::new()))
    }

    /// Size of the packet data in bytes.
    pub fn size(&self) -> (r: usize)
        ensures r == self.data.view().len(),
    {
        self.data.len()
    }

    /// Returns true if the packet has no data.
    pub fn is_empty(&self) -> (r: bool)
        ensures r == (self.data.view().len() == 0),
    {
        self.data.is_empty()
    }

    /// Returns true if this is a keyframe packet.
    pub fn is_keyframe(&self) -> (r: bool)
        ensures r == self.flags.keyframe,
    {
        self.flags.keyframe
    }

    /// Rescale the timestamps from the current time base to `dst_tb`.
    ///
    /// Fails on an invalid time base. Otherwise pts, dts and duration are
    /// rescaled in that order; the first that cannot be rescaled stops it,
    /// with the ones before it already changed and the time base unchanged.
    pub fn rescale_ts(&mut self, dst_tb: Rational) -> (r: Result<()>)
        ensures
            same_but_timing(*final(self), *old(self)),
            !old(self).time_base.valid() || !dst_tb.valid() ==>
                (r matches Err(Error::InvalidArgument(_)) && *final(self) == *old(self)),
            r is Err ==> r matches Err(Error::InvalidArgument(_)) || r == Err::<(), Error>(Error::Overflow),
            ({
                let tb = old(self).time_base;
                let a = ts_rescaled(old(self).pts, tb, dst_tb);
                let b = ts_rescaled(old(self).dts, tb, dst_tb);
                let c = ts_rescaled(old(self).duration, tb, dst_tb);
                tb.valid() && dst_tb.valid() ==> {
                    &&& r is Ok <==> a is Some && b is Some && c is Some
                    &&& final(self).pts == (if a is Some { a->0 } else { old(self).pts })
                    &&& final(self).dts == (if a is Some && b is Some { b->0 } else { old(self).dts })
                    &&& final(self).duration == (if a is Some && b is Some && c is Some { c->0 } else { old(self).duration })
                    &&& final(self).time_base == (if r is Ok { dst_tb } else { tb })
                }
            }),
    {
        if !self.time_base.is_valid() || !dst_tb.is_valid() {
            return Err(Error::InvalidArgument(msg("invalid time base")));
        }
        let tb = self.time_base;
        match rescale_opt(self.pts, tb, dst_tb) {
            Ok(x) => { self.pts = x; }
            Err(e) => { return Err(e); }
        }
        match rescale_opt(self.dts, tb, dst_tb) {
            Ok(x) => { self.dts = x; }
            Err(e) => { return Err(e); }
        }
        match rescale_opt(self.duration, tb, dst_tb) {
            Ok(x) => { self.duration = x; }
            Err(e) => { return Err(e); }
        }
        self.time_base = dst_tb;
        Ok(())
    }

    /// Add side data, replacing existing data of the same type.
    pub fn add_side_data(&mut self, data_type: PacketSideDataType, data: Buffer)
        ensures
            final(self).side_data@ == with_side_data(old(self).side_data@, data_type, data),
            final(self).data == old(self).data,
    {
        let mut kept = retain_other_types(&self.side_data, data_type);
        kept.push(PacketSideData { data_type, data });
        self.side_data = kept;
    }

    /// The first side data entry of the given type.
    pub fn get_side_data(&self, data_type: PacketSideDataType) -> (r: Option<&PacketSideData>)
        ensures
            r is None ==> first_of_type(self.side_data@, data_type) is None,
            r matches Some(sd) ==> first_of_type(self.side_data@, data_type) == Some(*sd),
    {
        let mut i: usize = 0;
        assert(self.side_data@.skip(0) =~= self.side_data@);
        while i < self.side_data.len()
            invariant i <= self.side_data@.len(),
                first_of_type(self.side_data@, data_type) == first_of_type(self.side_data@.skip(i as int), data_type),
            decreases self.side_data.len() - i,
        {
            assert(self.side_data@.skip(i as int).drop_first() =~= self.side_data@.skip(i + 1));
            if self.side_data[i].data_type == data_type {
                return Some(&self.side_data[i]);
            }
            i += 1;
        }
        None
    }

    /// Remove side data of the given type; true if there was any.
    pub fn remove_side_data(&mut self, data_type: PacketSideDataType) -> (r: bool)
        ensures
            final(self).side_data@ == without_type(old(self).side_data@, data_type),
            r == (without_type(old(self).side_data@, data_type).len() < old(self).side_data@.len()),
            final(self).data == old(self).data,
    {
        let before = self.side_data.len();
        let kept = retain_other_types(&self.side_data, data_type);
        self.side_data = kept;
        self.side_data.len() < before
    }

    /// Number of side data entries.
    pub fn side_data_count(&self) -> (r: usize)
        ensures r == self.side_data@.len(),
    {
        self.side_data.len()
    }

    /// Clear all fields: no data, no timestamps, unknown time base, stream 0,
    /// no flags, position -1, no side data.
    pub fn reset(&mut self)
        ensures
            final(self).data.view().len() == 0, final(self).pts is None, final(self).dts is None,
            final(self).duration is None, final(self).time_base.num == 0 && final(self).time_base.den == 0,
            final(self).stream_index == 0, final(self).flags == no_flags(), final(self).pos == -1,
            final(self).side_data@.len() == 0,
    {
        self.data = Buffer::from_vec(Vec::new());
        self.pts = None;
        self.dts = None;
        self.duration = None;
        self.time_base = Rational::unknown();
        self.stream_index = 0;
        self.flags = PacketFlags { keyframe: false, corrupt: false, discard: false };
        self.pos = -1;
        self.side_data = Vec::new();
    }
}

fn retain_other_types(s: &Vec<PacketSideData>, t: PacketSideDataType) -> (r: Vec<PacketSideData>)
    ensures r@ == without_type(s@, t),
{
    let mut out: Vec<PacketSideData> = Vec::new();
    let mut i: usize = 0;
    while i < s.len()
        invariant i <= s@.len(), out@ == without_type(s@.take(i as int), t),
        decreases s.len() - i,
    {
        proof {
            reveal(Seq::filter);
            assert(s@.take(i + 1).drop_last() =~= s@.take(i as int));
        }
        if s[i].data_type != t {
            out.push(PacketSideData { data_type: s[i].data_type, data: s[i].data.share() });
        }
        i += 1;
    }
    assert(s@.take(i as int) =~= s@);
    out
}

/// The side data after adding `data` of type `t` (see [`Packet::add_side_data`]).
pub open spec fn with_side_data(s: Seq<PacketSideData>, t: PacketSideDataType, data: Buffer) -> Seq<PacketSideData> {
    without_type(s, t).push(PacketSideData { data_type: t, data })
}

/// No two entries have the same type.
pub open spec fn one_per_type(s: Seq<PacketSideData>) -> bool {
    forall|i: int, j: int| 0 <= i < j < s.len() ==> #[trigger] s[i].data_type != #[trigger] s[j].data_type
}

proof fn lemma_first_push(w: Seq<PacketSideData>, e: PacketSideData, u: PacketSideDataType)
    ensures first_of_type(w.push(e), u) == (match first_of_type(w, u) {
        Some(x) => Some(x),
        None => if e.data_type == u { Some(e) } else { None },
    }),
    decreases w.len(),
{
    if w.len() > 0 {
        assert(w.push(e).drop_first() =~= w.drop_first().push(e));
        lemma_first_push(w.drop_first(), e, u);
    } else {
        assert(w.push(e).drop_first() =~= Seq::<PacketSideData>::empty());
        assert(first_of_type(Seq::<PacketSideData>::empty(), u) is None);
    }
}

proof fn lemma_first_without(s: Seq<PacketSideData>, t: PacketSideDataType, u: PacketSideDataType)
    ensures first_of_type(without_type(s, t), u) == (if u == t { None } else { first_of_type(s, u) }),
    decreases s.len(),
{
    let pred = |sd: PacketSideData| sd.data_type != t;
    if s.len() == 0 {
        assert(without_type(s, t) =~= s);
    } else {
        let head = seq![s[0]];
        let rest = s.drop_first();
        assert(s =~= head + rest);
        Seq::filter_distributes_over_add(head, rest, pred);
        reveal_with_fuel(Seq::filter, 2);
        assert(head.drop_last() =~= Seq::<PacketSideData>::empty());
        lemma_first_without(rest, t, u);
        if s[0].data_type == t {
            assert(head.filter(pred) =~= Seq::<PacketSideData>::empty());
            assert(without_type(s, t) =~= without_type(rest, t));
        } else {
            assert(head.filter(pred) =~= head);
            assert(without_type(s, t) =~= head + without_type(rest, t));
            assert((head + without_type(rest, t)).drop_first() =~= without_type(rest, t));
        }
    }
}

proof fn lemma_first_some(w: Seq<PacketSideData>, u: PacketSideDataType)
    ensures
        first_of_type(w, u) is None ==> forall|i: int| 0 <= i < w.len() ==> #[trigger] w[i].data_type != u,
        first_of_type(w, u) is Some ==> exists|i: int| 0 <= i < w.len() && #[trigger] w[i].data_type == u,
    decreases w.len(),
{
    if w.len() > 0 {
        lemma_first_some(w.drop_first(), u);
        if first_of_type(w, u) is None {
            assert forall|i: int| 0 <= i < w.len() implies #[trigger] w[i].data_type != u by {
                if i > 0 { assert(w[i] == w.drop_first()[i - 1]); }
            }
        } else if w[0].data_type != u {
            let k = choose|k: int| 0 <= k < w.drop_first().len() && #[trigger] w.drop_first()[k].data_type == u;
            assert(w[k + 1] == w.drop_first()[k]);
        }
    }
}

proof fn lemma_without_len(s: Seq<PacketSideData>, t: PacketSideDataType)
    requires one_per_type(s),
    ensures without_type(s, t).len() == s.len() - (if first_of_type(s, t) is Some { 1int } else { 0int }),
    decreases s.len(),
{
    let pred = |sd: PacketSideData| sd.data_type != t;
    if s.len() == 0 {
        assert(without_type(s, t) =~= s);
    } else {
        let head = seq![s[0]];
        let rest = s.drop_first();
        assert(s =~= head + rest);
        Seq::filter_distributes_over_add(head, rest, pred);
        reveal_with_fuel(Seq::filter, 2);
        assert(head.drop_last() =~= Seq::<PacketSideData>::empty());
        assert(one_per_type(rest)) by {
            assert forall|i: int, j: int| 0 <= i < j < rest.len() implies
                #[trigger] rest[i].data_type != #[trigger] rest[j].data_type by {
                assert(rest[i] == s[i + 1] && rest[j] == s[j + 1]);
            }
        }
        lemma_without_len(rest, t);
        if s[0].data_type == t {
            assert(head.filter(pred) =~= Seq::<PacketSideData>::empty());
            lemma_first_some(rest, t);
            if first_of_type(rest, t) is Some {
                let k = choose|k: int| 0 <= k < rest.len() && #[trigger] rest[k].data_type == t;
                assert(rest[k] == s[k + 1]);
                assert(s[0].data_type != s[k + 1].data_type);
            }
        } else {
            assert(head.filter(pred) =~= head);
        }
    }
}

/// Side data just added is what a lookup of its type finds, and lookups of
/// other types find what they found before.
pub proof fn law_get_after_add_side_data(s: Seq<PacketSideData>, t: PacketSideDataType, data: Buffer,
    u: PacketSideDataType)
    ensures
        first_of_type(with_side_data(s, t, data), t) == Some(PacketSideData { data_type: t, data }),
        u != t ==> first_of_type(with_side_data(s, t, data), u) == first_of_type(s, u),
{
    let e = PacketSideData { data_type: t, data };
    lemma_first_push(without_type(s, t), e, t);
    lemma_first_without(s, t, t);
    lemma_first_push(without_type(s, t), e, u);
    lemma_first_without(s, t, u);
}

/// Removing a type just added leaves the side data as it was with that
/// type removed.
pub proof fn law_remove_after_add_side_data(s: Seq<PacketSideData>, t: PacketSideDataType, data: Buffer)
    ensures without_type(with_side_data(s, t, data), t) == without_type(s, t),
{
    let pred = |sd: PacketSideData| sd.data_type != t;
    let w = without_type(s, t);
    let e = PacketSideData { data_type: t, data };
    reveal_with_fuel(Seq::filter, 1);
    assert(w.push(e).drop_last() =~= w);
    assert(without_type(w.push(e), t) == without_type(w, t));
    lemma_without_twice(s, t);
}

proof fn lemma_without_twice(s: Seq<PacketSideData>, t: PacketSideDataType)
    ensures without_type(without_type(s, t), t) == without_type(s, t),
    decreases s.len(),
{
    let pred = |sd: PacketSideData| sd.data_type != t;
    if s.len() > 0 {
        let head = seq![s[0]];
        let rest = s.drop_first();
        assert(s =~= head + rest);
        Seq::filter_distributes_over_add(head, rest, pred);
        reveal_with_fuel(Seq::filter, 2);
        assert(head.drop_last() =~= Seq::<PacketSideData>::empty());
        lemma_without_twice(rest, t);
        if s[0].data_type == t {
            assert(head.filter(pred) =~= Seq::<PacketSideData>::empty());
            assert(without_type(s, t) =~= without_type(rest, t));
        } else {
            assert(head.filter(pred) =~= head);
            assert(without_type(s, t) =~= head + without_type(rest, t));
            Seq::filter_distributes_over_add(head, without_type(rest, t), pred);
        }
    } else {
        assert(without_type(s, t) =~= s);
    }
}

proof fn lemma_without_one_per_type(s: Seq<PacketSideData>, t: PacketSideDataType)
    requires one_per_type(s),
    ensures
        one_per_type(without_type(s, t)),
        forall|i: int| 0 <= i < without_type(s, t).len() ==> (#[trigger] without_type(s, t)[i]).data_type != t,
    decreases s.len(),
{
    let pred = |sd: PacketSideData| sd.data_type != t;
    let w = without_type(s, t);
    assert forall|i: int| 0 <= i < w.len() implies (#[trigger] w[i]).data_type != t by {
        s.lemma_filter_pred(pred, i);
    }
    if s.len() == 0 {
        assert(w =~= s);
    } else {
        let head = seq![s[0]];
        let rest = s.drop_first();
        assert(s =~= head + rest);
        Seq::filter_distributes_over_add(head, rest, pred);
        reveal_with_fuel(Seq::filter, 2);
        assert(head.drop_last() =~= Seq::<PacketSideData>::empty());
        assert(one_per_type(rest)) by {
            assert forall|i: int, j: int| 0 <= i < j < rest.len() implies
                #[trigger] rest[i].data_type != #[trigger] rest[j].data_type by {
                assert(rest[i] == s[i + 1] && rest[j] == s[j + 1]);
            }
        }
        lemma_without_one_per_type(rest, t);
        let wr = without_type(rest, t);
        if s[0].data_type == t {
            assert(head.filter(pred) =~= Seq::<PacketSideData>::empty());
            assert(w =~= wr);
        } else {
            assert(head.filter(pred) =~= head);
            assert(w =~= head + wr);
            assert forall|i: int, j: int| 0 <= i < j < w.len() implies
                #[trigger] w[i].data_type != #[trigger] w[j].data_type by {
                assert(w[j] == wr[j - 1]);
                if i > 0 {
                    assert(w[i] == wr[i - 1]);
                } else {
                    rest.lemma_filter_contains_rev(pred, wr[j - 1]);
                    assert(wr.contains(wr[j - 1]));
                    let k = choose|k: int| 0 <= k < rest.len() && rest[k] == wr[j - 1];
                    assert(rest[k] == s[k + 1]);
                }
            }
        }
    }
}

/// With at most one entry per type, adding side data keeps one entry per
/// type: the count grows by one for a new type and stays for a type already
/// present.
pub proof fn law_count_after_add_side_data(s: Seq<PacketSideData>, t: PacketSideDataType, data: Buffer)
    requires one_per_type(s),
    ensures
        one_per_type(with_side_data(s, t, data)),
        with_side_data(s, t, data).len() == s.len() + (if first_of_type(s, t) is Some { 0int } else { 1int }),
{
    lemma_without_len(s, t);
    lemma_without_one_per_type(s, t);
    let w = without_type(s, t);
    let r = with_side_data(s, t, data);
    assert forall|i: int, j: int| 0 <= i < j < r.len() implies
        #[trigger] r[i].data_type != #[trigger] r[j].data_type by {
        assert(r[i] == w[i]);
        if j < w.len() { assert(r[j] == w[j]); }
    }
}

} // verus!
