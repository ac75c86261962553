use vstd::prelude::*;
use crate::util::buffer::Buffer;
use crate::util::error::{Error, Result, msg};
use crate::util::rational::Rational;

verus! {

/// Maximum number of planes in a frame (video or audio).
pub const MAX_PLANES: usize = 8;

/// Types of side data that can be attached to a frame.
#[derive(Debug, Clone, Copy, PartialEq, Eq, Hash, Structural)]
pub enum SideDataType {
    /// Display transformation matrix (rotation, flip).
    DisplayMatrix,
    /// HDR10+ dynamic metadata.
    DynamicHdr10Plus,
    /// HDR Vivid dynamic metadata.
    DynamicHdrVivid,
    /// Dolby Vision metadata.
    DoviMetadata,
    /// Mastering display colour volume (HDR).
    MasteringDisplayMetadata,
    /// Content light level information (HDR).
    ContentLightLevel,
    /// Motion vectors.
    MotionVectors,
    /// Regions of interest.
    RegionsOfInterest,
    /// Encoder quantization parameters.
    QpTable,
    /// ICC color profile.
    IccProfile,
    /// Closed captions (e.g. CEA-608, CEA-708).
    ClosedCaptions,
}

/// A single piece of side data attached to a frame.
#[derive(Debug, Clone, PartialEq, Eq)]
pub struct SideData {
    pub data_type: SideDataType,
    pub data: Buffer,
}

/// The kind of media stored in a frame.
#[derive(Debug, Clone, Copy, PartialEq, Eq, Structural)]
pub enum MediaType {
    Video,
    Audio,
}

/// The side data list without entries of type `t`.
pub open spec fn without_type(s: Seq<SideData>, t: SideDataType) -> Seq<SideData> {
    s.filter(|sd: SideData| sd.data_type != t)
}

/// The first entry of type `t`, if any.
pub open spec fn first_of_type(s: Seq<SideData>, t: SideDataType) -> Option<SideData>
    decreases s.len(),
{
    if s.len() == 0 { None }
    else if s[0].data_type == t { Some(s[0]) }
    else { first_of_type(s.drop_first(), t) }
}

/// Copies `s` without the entries of type `t`.
pub(crate) fn retain_other_types(s: &Vec<SideData>, t: SideDataType) -> (r: Vec<SideData>)
    ensures r@ == without_type(s@, t),
{
    let mut out: Vec<SideData> = Vec::new();
    let mut i: usize = 0;
    while i < s.len()
        invariant i <= s@.len(), out@ == without_type(s@.take(i as int), t),
        decreases s.len() - i,
    {
        proof {
            reveal(Seq::filter);
            assert(s@.take(i + 1).drop_last() =~= s@.take(i as int));
        }
        if s[i].data_type != t {
            out.push(s[i].clone_entry());
        }
        i += 1;
    }
    assert(s@.take(i as int) =~= s@);
    out
}

/// The index of the first entry of type `t`, if any.
pub(crate) fn find_type(s: &Vec<SideData>, t: SideDataType) -> (r: Option<usize>)
    ensures
        r is None ==> first_of_type(s@, t) is None,
        r matches Some(i) ==> i < s@.len() && first_of_type(s@, t) == Some(s@[i as int]),
{
    let mut i: usize = 0;
    assert(s@.skip(0) =~= s@);
    while i < s.len()
        invariant i <= s@.len(), first_of_type(s@, t) == first_of_type(s@.skip(i as int), t),
        decreases s.len() - i,
    {
        assert(s@.skip(i as int).drop_first() =~= s@.skip(i + 1));
        if s[i].data_type == t {
            return Some(i);
        }
        i += 1;
    }
    None
}

impl SideData {
    /// A copy of this entry: the same type, and a buffer sharing the bytes.
    pub fn clone_entry(&self) -> (r: SideData)
        ensures r == *self,
    {
        SideData { data_type: self.data_type, data: self.data.share() }
    }
}

/// An audio/video frame — the fundamental unit of decoded media.
///
/// For video: contains pixel data across up to [`MAX_PLANES`] planes.
/// For audio: contains sample data (interleaved or planar).
#[derive(Debug, Clone)]
pub struct Frame {
    /// The media type of this frame.
    pub media_type: MediaType,
    pub width: u32,
    pub height: u32,
    pub sample_rate: u32,
    pub nb_samples: u32,
    pub channels: u16,
    /// Presentation timestamp in time_base units.
    pub pts: Option<i64>,
    /// Duration in time_base units.
    pub duration: Option<i64>,
    /// Time base for pts/duration.
    pub time_base: Rational,
    /// Whether this is a key frame.
    pub key_frame: bool,
    /// Plane data buffers: for video typically Y/U/V or R/G/B, for planar
    /// audio one per channel, for interleaved audio one at index 0.
    pub planes: Vec<Option<Buffer>>,
    /// Byte stride (line size) for each plane. Relevant for video.
    pub linesize: [u32; 8],
    /// Attached side data.
    pub side_data: Vec<SideData>,
}

/// Eight empty planes.
fn no_planes() -> (r: Vec<Option<Buffer>>)
    ensures r@.len() == MAX_PLANES, forall|i: int| 0 <= i < MAX_PLANES ==> #[trigger] r@[i] is None,
{
    let mut v: Vec<Option<Buffer>> = Vec::new();
    let mut i: usize = 0;
    while i < MAX_PLANES
        invariant i <= MAX_PLANES, v@.len() == i, forall|j: int| 0 <= j < i ==> #[trigger] v@[j] is None,
        decreases MAX_PLANES - i,
    {
        v.push(None);
        i += 1;
    }
    v
}

/// `a` and `b` agree in media type, dimensions, audio layout, timing and
/// key-frame flag.
pub open spec fn same_header(a: Frame, b: Frame) -> bool {
    &&& a.media_type == b.media_type && a.width == b.width && a.height == b.height
    &&& a.sample_rate == b.sample_rate && a.nb_samples == b.nb_samples && a.channels == b.channels
    &&& a.pts == b.pts && a.duration == b.duration && a.time_base == b.time_base
    &&& a.key_frame == b.key_frame
}

/// Number of set planes among the first `n`.
pub open spec fn set_planes(p: Seq<Option<Buffer>>, n: int) -> nat
    decreases n,
{
    if n <= 0 { 0 } else { set_planes(p, n - 1) + if p[n - 1] is Some { 1nat } else { 0nat } }
}

impl Frame {
    /// Well-formedness: there are exactly [`MAX_PLANES`] plane slots.
    pub open spec fn wf(&self) -> bool {
        self.planes@.len() == MAX_PLANES
    }

    /// The plane slots.
    pub open spec fn spec_planes(&self) -> Seq<Option<Buffer>> {
        self.planes@
    }

    /// The attached side data, in order of addition.
    pub open spec fn spec_side_data(&self) -> Seq<SideData> {
        self.side_data@
    }

    /// The state of a fresh frame apart from its media fields.
    pub open spec fn is_blank(&self) -> bool {
        &&& self.wf()
        &&& self.pts is None && self.duration is None && !self.key_frame
        &&& forall|i: int| 0 <= i < MAX_PLANES ==> #[trigger] self.spec_planes()[i] is None
        &&& forall|i: int| 0 <= i < MAX_PLANES ==> #[trigger] self.linesize[i] == 0
        &&& self.spec_side_data().len() == 0
    }

    /// Create an empty video frame.
    pub fn new_video(width: u32, height: u32) -> (r: Result<Frame>)
        ensures
            width == 0 || height == 0 <==> r matches Err(Error::InvalidArgument(_)),
            width != 0 && height != 0 <==> r is Ok,
            r matches Ok(f) ==> f.is_blank() && f.media_type == MediaType::Video && f.width == width
                && f.height == height && f.sample_rate == 0 && f.nb_samples == 0 && f.channels == 0
                && f.time_base.num == 0 && f.time_base.den == 0,
    {
        if width == 0 || height == 0 {
            return Err(Error::InvalidArgument(msg("video frame dimensions must be > 0")));
        }
        Ok(Frame {
            media_type: MediaType::Video, width, height, sample_rate: 0, nb_samples: 0, channels: 0,
            pts: None, duration: None, time_base: Rational::unknown(), key_frame: false,
            planes: no_planes(), linesize: [0; 8], side_data: Vec::new(),
        })
    }

    /// Create an empty audio frame.
    pub fn new_audio(sample_rate: u32, channels: u16, nb_samples: u32) -> (r: Result<Frame>)
        ensures
            sample_rate == 0 || channels == 0 <==> r matches Err(Error::InvalidArgument(_)),
            sample_rate != 0 && channels != 0 <==> r is Ok,
            r matches Ok(f) ==> f.is_blank() && f.media_type == MediaType::Audio && f.width == 0
                && f.height == 0 && f.sample_rate == sample_rate && f.nb_samples == nb_samples
                && f.channels == channels && f.time_base.num == 0 && f.time_base.den == 0,
    {
        if sample_rate == 0 {
            return Err(Error::InvalidArgument(msg("sample_rate must be > 0")));
        }
        if channels == 0 {
            return Err(Error::InvalidArgument(msg("channels must be > 0")));
        }
        Ok(Frame {
            media_type: MediaType::Audio, width: 0, height: 0, sample_rate, nb_samples, channels,
            pts: None, duration: None, time_base: Rational::unknown(), key_frame: false,
            planes: no_planes(), linesize: [0; 8], side_data: Vec::new(),
        })
    }

    /// Set the data buffer and line size of a plane.
    pub fn set_plane(&mut self, index: usize, buf: Buffer, linesize: u32) -> (r: Result<()>)
        requires old(self).wf(),
        ensures
            final(self).wf(),
            index >= MAX_PLANES <==> r matches Err(Error::InvalidArgument(_)),
            index < MAX_PLANES <==> r is Ok,
            r is Err ==> *final(self) == *old(self),
            r is Ok ==> same_header(*final(self), *old(self)),
            r is Ok ==> final(self).spec_planes() == old(self).spec_planes().update(index as int, Some(buf))
                && final(self).linesize@ == old(self).linesize@.update(index as int, linesize)
                && final(self).spec_side_data() == old(self).spec_side_data()
                && final(self).pts == old(self).pts && final(self).duration == old(self).duration,
    {
        if index >= MAX_PLANES {
            return Err(Error::InvalidArgument(msg("plane index out of range")));
        }
        self.planes.set(index, Some(buf));
        self.linesize.set(index, linesize);
        Ok(())
    }

    /// The data of a plane, if it is set.
    pub fn plane(&self, index: usize) -> (r: Option<&[u8]>)
        requires self.wf(),
        ensures
            index < MAX_PLANES && self.spec_planes()[index as int] is Some
                ==> (r matches Some(d) && d@ == self.spec_planes()[index as int]->0.view()),
            index >= MAX_PLANES || self.spec_planes()[index as int] is None ==> r is None,
    {
        if index >= self.planes.len() {
            return None;
        }
        match &self.planes[index] {
            Some(b) => Some(b.data()),
            None => None,
        }
    }

    /// The data of a plane for writing (copied first if shared); what is
    /// written there becomes the plane's contents.
    pub fn plane_mut(&mut self, index: usize) -> (r: Result<&mut [u8]>)
        requires old(self).wf(),
        ensures
            final(self).wf(),
            index >= MAX_PLANES ==> r matches Err(Error::InvalidArgument(_)),
            index < MAX_PLANES && old(self).spec_planes()[index as int] is None
                ==> r matches Err(Error::NotFound(_)),
            r is Err ==> *final(self) == *old(self),
            r matches Ok(d) ==> (index < MAX_PLANES && old(self).spec_planes()[index as int] is Some
                && d@ == old(self).spec_planes()[index as int]->0.view()
                && final(self).spec_planes()[index as int] is Some
                && final(self).spec_planes()[index as int]->0.view() == final(d)@),
            r is Ok ==> forall|j: int| 0 <= j < MAX_PLANES && j != index
                ==> #[trigger] final(self).spec_planes()[j] == old(self).spec_planes()[j],
    {
        if index >= MAX_PLANES {
            return Err(Error::InvalidArgument(msg("plane index out of range")));
        }
        if self.planes[index].is_none() {
            return Err(Error::NotFound(msg("plane not set")));
        }
        let slot = vec_index_mut(&mut self.planes, index);
        match slot {
            Some(buf) => Ok(buf.make_writable()),
            None => Err(Error::NotFound(msg("plane not set"))),
        }
    }

    /// Returns the number of planes that have data set.
    pub fn plane_count(&self) -> (r: usize)
        requires self.wf(),
        ensures r == set_planes(self.spec_planes(), MAX_PLANES as int),
    {
        let mut n: usize = 0;
        let mut i: usize = 0;
        while i < MAX_PLANES
            invariant i <= MAX_PLANES, self.planes@.len() == MAX_PLANES,
                n == set_planes(self.planes@, i as int), n <= i,
            decreases MAX_PLANES - i,
        {
            if self.planes[i].is_some() {
                n += 1;
            }
            i += 1;
        }
        n
    }

    /// Add side data, replacing existing data of the same type.
    pub fn add_side_data(&mut self, data_type: SideDataType, data: Buffer)
        ensures
            final(self).spec_side_data() == without_type(old(self).spec_side_data(), data_type)
                .push(SideData { data_type, data }),
            final(self).spec_planes() == old(self).spec_planes(),
    {
        let mut kept = retain_other_types(&self.side_data, data_type);
        kept.push(SideData { data_type, data });
        self.side_data = kept;
    }

    /// The first side data entry of the given type.
    pub fn get_side_data(&self, data_type: SideDataType) -> (r: Option<&SideData>)
        ensures
            r is None ==> first_of_type(self.spec_side_data(), data_type) is None,
            r matches Some(sd) ==> first_of_type(self.spec_side_data(), data_type) == Some(*sd),
    {
        match find_type(&self.side_data, data_type) {
            Some(i) => Some(&self.side_data[i]),
            None => None,
        }
    }

    /// Remove side data of the given type; true if there was any.
    pub fn remove_side_data(&mut self, data_type: SideDataType) -> (r: bool)
        ensures
            final(self).spec_side_data() == without_type(old(self).spec_side_data(), data_type),
            r == (without_type(old(self).spec_side_data(), data_type).len() < old(self).spec_side_data().len()),
            final(self).spec_planes() == old(self).spec_planes(),
    {
        let before = self.side_data.len();
        let kept = retain_other_types(&self.side_data, data_type);
        self.side_data = kept;
        self.side_data.len() < before
    }

    /// Returns the number of side data entries.
    pub fn side_data_count(&self) -> (r: usize)
        ensures r == self.spec_side_data().len(),
    {
        self.side_data.len()
    }

    /// Reset the frame to an empty state, keeping the media type and the
    /// media fields.
    pub fn reset(&mut self)
        ensures
            final(self).is_blank(),
            final(self).media_type == old(self).media_type,
            final(self).width == old(self).width && final(self).height == old(self).height,
            final(self).sample_rate == old(self).sample_rate && final(self).nb_samples == old(self).nb_samples,
            final(self).channels == old(self).channels && final(self).time_base == old(self).time_base,
    {
        self.pts = None;
        self.duration = None;
        self.key_frame = false;
        self.planes = no_planes();
        self.linesize = [0; 8];
        self.side_data = Vec::new();
    }
}

/// A mutable reference to element `i` of `v`.
pub(crate) fn vec_index_mut<T>(v: &mut Vec<T>, i: usize) -> (r: &mut T)
    requires i < old(v)@.len(),
    ensures *r == old(v)@[i as int], final(v)@ == old(v)@.update(i as int, *final(r)),
{
    &mut v[i]
}

} // verus!
