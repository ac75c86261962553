use vstd::prelude::*;
use crate::util::text::str_eq;

verus! {

/// Individual audio channel identifiers.
#[derive(Debug, Clone, Copy, PartialEq, Eq, Hash, Structural)]
#[non_exhaustive]
pub enum Channel {
    FrontLeft,
    FrontRight,
    FrontCenter,
    Lfe,
    BackLeft,
    BackRight,
    FrontLeftOfCenter,
    FrontRightOfCenter,
    BackCenter,
    SideLeft,
    SideRight,
    TopCenter,
    TopFrontLeft,
    TopFrontCenter,
    TopFrontRight,
    TopBackLeft,
    TopBackCenter,
    TopBackRight,
}

impl Channel {
    /// Short name of a channel.
    pub open spec fn spec_name(self) -> Seq<char> {
        match self {
            Self::FrontLeft => "FL"@,
            Self::FrontRight => "FR"@,
            Self::FrontCenter => "FC"@,
            Self::Lfe => "LFE"@,
            Self::BackLeft => "BL"@,
            Self::BackRight => "BR"@,
            Self::FrontLeftOfCenter => "FLC"@,
            Self::FrontRightOfCenter => "FRC"@,
            Self::BackCenter => "BC"@,
            Self::SideLeft => "SL"@,
            Self::SideRight => "SR"@,
            Self::TopCenter => "TC"@,
            Self::TopFrontLeft => "TFL"@,
            Self::TopFrontCenter => "TFC"@,
            Self::TopFrontRight => "TFR"@,
            Self::TopBackLeft => "TBL"@,
            Self::TopBackCenter => "TBC"@,
            Self::TopBackRight => "TBR"@,
        }
    }

    /// Short name for this channel.
    pub fn name(&self) -> (r: &'static str)
        ensures r@ == self.spec_name(),
    {
        match self {
            Self::FrontLeft => "FL",
            Self::FrontRight => "FR",
            Self::FrontCenter => "FC",
            Self::Lfe => "LFE",
            Self::BackLeft => "BL",
            Self::BackRight => "BR",
            Self::FrontLeftOfCenter => "FLC",
            Self::FrontRightOfCenter => "FRC",
            Self::BackCenter => "BC",
            Self::SideLeft => "SL",
            Self::SideRight => "SR",
            Self::TopCenter => "TC",
            Self::TopFrontLeft => "TFL",
            Self::TopFrontCenter => "TFC",
            Self::TopFrontRight => "TFR",
            Self::TopBackLeft => "TBL",
            Self::TopBackCenter => "TBC",
            Self::TopBackRight => "TBR",
        }
    }
}

/// Describes the speaker layout for an audio stream: a well-known layout
/// (stereo, 5.1, ...) or a custom list of channels. Its view is that list.
#[derive(Debug, Clone, PartialEq, Eq)]
pub struct ChannelLayout {
    channels: Vec<Channel>,
}

/// Mono: front center.
pub open spec fn mono_channels() -> Seq<Channel> { seq![Channel::FrontCenter] }
/// Stereo: front left and right.
pub open spec fn stereo_channels() -> Seq<Channel> { seq![Channel::FrontLeft, Channel::FrontRight] }
/// 2.1: stereo and LFE.
pub open spec fn channels_2point1() -> Seq<Channel> {
    seq![Channel::FrontLeft, Channel::FrontRight, Channel::Lfe]
}
/// 3.0: stereo and front center.
pub open spec fn surround_channels() -> Seq<Channel> {
    seq![Channel::FrontLeft, Channel::FrontRight, Channel::FrontCenter]
}
/// 4.0: front and back pairs.
pub open spec fn quad_channels() -> Seq<Channel> {
    seq![Channel::FrontLeft, Channel::FrontRight, Channel::BackLeft, Channel::BackRight]
}
/// 5.0: 3.0 and the back pair.
pub open spec fn channels_5point0() -> Seq<Channel> {
    seq![Channel::FrontLeft, Channel::FrontRight, Channel::FrontCenter, Channel::BackLeft, Channel::BackRight]
}
/// 5.1: 5.0 with LFE after front center.
pub open spec fn channels_5point1() -> Seq<Channel> {
    seq![Channel::FrontLeft, Channel::FrontRight, Channel::FrontCenter, Channel::Lfe,
        Channel::BackLeft, Channel::BackRight]
}
/// 7.1: 5.1 and the side pair.
pub open spec fn channels_7point1() -> Seq<Channel> {
    seq![Channel::FrontLeft, Channel::FrontRight, Channel::FrontCenter, Channel::Lfe,
        Channel::BackLeft, Channel::BackRight, Channel::SideLeft, Channel::SideRight]
}

/// The name of a standard layout, or "custom".
pub open spec fn layout_name(c: Seq<Channel>) -> Seq<char> {
    if c == mono_channels() { "mono"@ }
    else if c == stereo_channels() { "stereo"@ }
    else if c == channels_2point1() { "2.1"@ }
    else if c == surround_channels() { "3.0"@ }
    else if c == quad_channels() { "quad"@ }
    else if c == channels_5point0() { "5.0"@ }
    else if c == channels_5point1() { "5.1"@ }
    else if c == channels_7point1() { "7.1"@ }
    else { "custom"@ }
}

/// The layout that a name denotes, if any.
pub open spec fn layout_of_name(n: Seq<char>) -> Option<Seq<Channel>> {
    if n == "mono"@ { Some(mono_channels()) }
    else if n == "stereo"@ { Some(stereo_channels()) }
    else if n == "2.1"@ { Some(channels_2point1()) }
    else if n == "3.0"@ || n == "surround"@ { Some(surround_channels()) }
    else if n == "quad"@ || n == "4.0"@ { Some(quad_channels()) }
    else if n == "5.0"@ { Some(channels_5point0()) }
    else if n == "5.1"@ { Some(channels_5point1()) }
    else if n == "7.1"@ { Some(channels_7point1()) }
    else { None }
}

/// Channel names joined by `+`.
pub open spec fn joined_names(c: Seq<Channel>) -> Seq<char>
    decreases c.len(),
{
    if c.len() == 0 { Seq::empty() }
    else if c.len() == 1 { c[0].spec_name() }
    else { joined_names(c.drop_last()) + "+"@ + c.last().spec_name() }
}

/// Text of a layout: its standard name, or its channel names joined by `+`.
pub open spec fn layout_text(c: Seq<Channel>) -> Seq<char> {
    if layout_name(c) == "custom"@ { joined_names(c) } else { layout_name(c) }
}

fn same_channels(a: &[Channel], b: &[Channel]) -> (r: bool)
    ensures r == (a@ == b@),
{
    if a.len() != b.len() {
        return false;
    }
    let mut i: usize = 0;
    while i < a.len()
        invariant a@.len() == b@.len(), i <= a@.len(), forall|j: int| 0 <= j < i ==> a@[j] == b@[j],
        decreases a.len() - i,
    {
        if a[i] != b[i] {
            return false;
        }
        i += 1;
    }
    assert(a@ =~= b@);
    true
}

impl ChannelLayout {
    /// The channels, in order.
    pub closed spec fn view(&self) -> Seq<Channel> {
        self.channels@
    }

    /// Mono (front center).
    pub fn mono() -> (r: Self)
        ensures r.view() == mono_channels(),
    {
        let r = Self { channels: vec![Channel::FrontCenter] };
        assert(r.view() =~= mono_channels());
        r
    }

    /// Stereo (front left + front right).
    pub fn stereo() -> (r: Self)
        ensures r.view() == stereo_channels(),
    {
        let r = Self { channels: vec![Channel::FrontLeft, Channel::FrontRight] };
        assert(r.view() =~= stereo_channels());
        r
    }

    /// 2.1 (stereo + LFE).
    pub fn layout_2point1() -> (r: Self)
        ensures r.view() == channels_2point1(),
    {
        let r = Self { channels: vec![Channel::FrontLeft, Channel::FrontRight, Channel::Lfe] };
        assert(r.view() =~= channels_2point1());
        r
    }

    /// Surround 3.0 (FL + FR + FC).
    pub fn surround() -> (r: Self)
        ensures r.view() == surround_channels(),
    {
        let r = Self { channels: vec![Channel::FrontLeft, Channel::FrontRight, Channel::FrontCenter] };
        assert(r.view() =~= surround_channels());
        r
    }

    /// Quad 4.0 (FL + FR + BL + BR).
    pub fn quad() -> (r: Self)
        ensures r.view() == quad_channels(),
    {
        let r = Self { channels: vec![Channel::FrontLeft, Channel::FrontRight, Channel::BackLeft, Channel::BackRight] };
        assert(r.view() =~= quad_channels());
        r
    }

    /// 5.0 (FL + FR + FC + BL + BR).
    pub fn layout_5point0() -> (r: Self)
        ensures r.view() == channels_5point0(),
    {
        let r = Self { channels: vec![Channel::FrontLeft, Channel::FrontRight, Channel::FrontCenter,
            Channel::BackLeft, Channel::BackRight] };
        assert(r.view() =~= channels_5point0());
        r
    }

    /// 5.1 (FL + FR + FC + LFE + BL + BR).
    pub fn layout_5point1() -> (r: Self)
        ensures r.view() == channels_5point1(),
    {
        let r = Self { channels: vec![Channel::FrontLeft, Channel::FrontRight, Channel::FrontCenter,
            Channel::Lfe, Channel::BackLeft, Channel::BackRight] };
        assert(r.view() =~= channels_5point1());
        r
    }

    /// 7.1 (FL + FR + FC + LFE + BL + BR + SL + SR).
    pub fn layout_7point1() -> (r: Self)
        ensures r.view() == channels_7point1(),
    {
        let r = Self { channels: vec![Channel::FrontLeft, Channel::FrontRight, Channel::FrontCenter,
            Channel::Lfe, Channel::BackLeft, Channel::BackRight, Channel::SideLeft, Channel::SideRight] };
        assert(r.view() =~= channels_7point1());
        r
    }

    /// Create a layout from an explicit list of channels.
    pub fn from_channels(channels: Vec<Channel>) -> (r: Self)
        ensures r.view() == channels@,
    {
        Self { channels }
    }

    /// A copy of this layout.
    pub fn duplicate(&self) -> (r: Self)
        ensures r.view() == self.view(),
    {
        let mut c: Vec<Channel> = Vec::new();
        let mut i: usize = 0;
        while i < self.channels.len()
            invariant i <= self.channels@.len(), c@ == self.channels@.take(i as int),
            decreases self.channels.len() - i,
        {
            c.push(self.channels[i]);
            i += 1;
            assert(c@ =~= self.channels@.take(i as int));
        }
        assert(self.channels@.take(i as int) =~= self.channels@);
        Self { channels: c }
    }

    /// Number of channels in this layout, truncated to 16 bits.
    pub fn nb_channels(&self) -> (r: u16)
        ensures r == self.view().len() as u16,
    {
        self.channels.len() as u16
    }

    /// The channel at a given index, if there is one.
    pub fn channel(&self, index: usize) -> (r: Option<Channel>)
        ensures
            index < self.view().len() ==> r == Some(self.view()[index as int]),
            index >= self.view().len() ==> r is None,
    {
        if index < self.channels.len() { Some(self.channels[index]) } else { None }
    }

    /// All channels, in order.
    pub fn channels(&self) -> (r: &[Channel])
        ensures r@ == self.view(),
    {
        self.channels.as_slice()
    }

    /// Returns true if this layout contains the given channel.
    pub fn contains(&self, ch: Channel) -> (r: bool)
        ensures r == self.view().contains(ch),
    {
        let mut i: usize = 0;
        while i < self.channels.len()
            invariant i <= self.channels@.len(), forall|j: int| 0 <= j < i ==> self.channels@[j] != ch,
            decreases self.channels.len() - i,
        {
            if self.channels[i] == ch {
                return true;
            }
            i += 1;
        }
        false
    }

    /// Returns true if this is a mono layout.
    pub fn is_mono(&self) -> (r: bool)
        ensures r == (self.view() == mono_channels()),
    {
        let r = self.channels.len() == 1 && self.channels[0] == Channel::FrontCenter;
        assert(r ==> self.view() =~= mono_channels());
        r
    }

    /// Returns true if this is a stereo layout.
    pub fn is_stereo(&self) -> (r: bool)
        ensures r == (self.view() == stereo_channels()),
    {
        let r = self.channels.len() == 2 && self.channels[0] == Channel::FrontLeft
            && self.channels[1] == Channel::FrontRight;
        assert(r ==> self.view() =~= stereo_channels());
        r
    }

    /// The standard layout name, if this matches one, else "custom".
    pub fn name(&self) -> (r: &'static str)
        ensures r@ == layout_name(self.view()),
    {
        let c = self.channels.as_slice();
        if same_channels(c, Self::mono().channels()) { return "mono"; }
        if same_channels(c, Self::stereo().channels()) { return "stereo"; }
        if same_channels(c, Self::layout_2point1().channels()) { return "2.1"; }
        if same_channels(c, Self::surround().channels()) { return "3.0"; }
        if same_channels(c, Self::quad().channels()) { return "quad"; }
        if same_channels(c, Self::layout_5point0().channels()) { return "5.0"; }
        if same_channels(c, Self::layout_5point1().channels()) { return "5.1"; }
        if same_channels(c, Self::layout_7point1().channels()) { return "7.1"; }
        proof { reveal_strlit("custom"); }
        "custom"
    }

    /// Parse a channel layout from a well-known name.
    pub fn from_name(name: &str) -> (r: Option<Self>)
        ensures
            r is Some <==> layout_of_name(name@) is Some,
            r matches Some(l) ==> layout_of_name(name@) == Some(l.view()),
    {
        if str_eq(name, "mono") { Some(Self::mono()) }
        else if str_eq(name, "stereo") { Some(Self::stereo()) }
        else if str_eq(name, "2.1") { Some(Self::layout_2point1()) }
        else if str_eq(name, "3.0") || str_eq(name, "surround") { Some(Self::surround()) }
        else if str_eq(name, "quad") || str_eq(name, "4.0") { Some(Self::quad()) }
        else if str_eq(name, "5.0") { Some(Self::layout_5point0()) }
        else if str_eq(name, "5.1") { Some(Self::layout_5point1()) }
        else if str_eq(name, "7.1") { Some(Self::layout_7point1()) }
        else { None }
    }

    /// Text of the layout: its standard name, or, for a custom layout, the
    /// channel names joined by '+'.
    pub fn to_string(&self) -> (r: String)
        ensures r@ == layout_text(self.view()),
    {
        let name = self.name();
        if !str_eq(name, "custom") {
            return String::from_str(name);
        }
        let mut out = String::new();
        let mut i: usize = 0;
        while i < self.channels.len()
            invariant
                i <= self.channels@.len(),
                out@ == joined_names(self.channels@.take(i as int)),
            decreases self.channels.len() - i,
        {
            let ghost before = out@;
            if i > 0 {
                out.append("+");
            }
            out.append(self.channels[i].name());
            proof {
                let t = self.channels@.take(i + 1);
                assert(t.drop_last() =~= self.channels@.take(i as int));
                if i == 0 {
                    assert(out@ =~= joined_names(t));
                } else {
                    assert(out@ =~= joined_names(t));
                }
            }
            i += 1;
        }
        assert(self.channels@.take(i as int) =~= self.channels@);
        out
    }
}

/// A standard layout's name maps back to that layout.
pub proof fn law_standard_name_roundtrip(c: Seq<Channel>)
    requires layout_name(c) != "custom"@,
    ensures layout_of_name(layout_name(c)) == Some(c),
{
    reveal_strlit("mono"); reveal_strlit("stereo"); reveal_strlit("2.1"); reveal_strlit("3.0");
    reveal_strlit("quad"); reveal_strlit("5.0"); reveal_strlit("5.1"); reveal_strlit("7.1");
    reveal_strlit("custom"); reveal_strlit("surround"); reveal_strlit("4.0");
    let n = layout_name(c);
    assert(n.len() > 0);
    assert(n == "quad"@ ==> n[0] != "mono"@[0]);
    assert(n == "5.0"@ || n == "5.1"@ || n == "7.1"@ ==> n[0] != "2.1"@[0] || n[2] != "2.1"@[2]);
    assert(n == "5.0"@ || n == "5.1"@ || n == "7.1"@ ==> n[0] != "3.0"@[0] || n[2] != "3.0"@[2]);
    assert(n == "5.1"@ || n == "7.1"@ ==> n[2] != "5.0"@[2] || n[0] != "5.0"@[0]);
    assert(n == "7.1"@ ==> n[0] != "5.1"@[0]);
    assert(n == "3.0"@ ==> n[0] != "2.1"@[0]);
    assert(n == "2.1"@ ==> n[0] != "4.0"@[0]);
}

} // verus!
