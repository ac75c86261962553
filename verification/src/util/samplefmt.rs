use vstd::prelude::*;
use crate::util::text::str_eq;

verus! {

/// Audio sample formats.
///
/// Describes the data type and layout (interleaved vs planar) of audio samples.
#[derive(Debug, Clone, Copy, PartialEq, Eq, Hash, Structural)]
#[non_exhaustive]
pub enum SampleFormat {
    /// Unsigned 8-bit, interleaved.
    U8,
    /// Signed 16-bit, interleaved.
    S16,
    /// Signed 32-bit, interleaved.
    S32,
    /// 32-bit float, interleaved.
    F32,
    /// 64-bit float, interleaved.
    F64,
    /// Unsigned 8-bit, planar (one buffer per channel).
    U8p,
    /// Signed 16-bit, planar.
    S16p,
    /// Signed 32-bit, planar.
    S32p,
    /// 32-bit float, planar.
    F32p,
    /// 64-bit float, planar.
    F64p,
}

/// All defined sample formats, for iteration / lookup.
pub const ALL_SAMPLE_FORMATS: [SampleFormat; 10] = [
    SampleFormat::U8, SampleFormat::S16, SampleFormat::S32,
    SampleFormat::F32, SampleFormat::F64,
    SampleFormat::U8p, SampleFormat::S16p, SampleFormat::S32p,
    SampleFormat::F32p, SampleFormat::F64p,
];

impl SampleFormat {
    pub open spec fn spec_bytes_per_sample(self) -> nat {
        match self {
            Self::U8 | Self::U8p => 1,
            Self::S16 | Self::S16p => 2,
            Self::S32 | Self::S32p | Self::F32 | Self::F32p => 4,
            Self::F64 | Self::F64p => 8,
        }
    }

    pub open spec fn spec_is_planar(self) -> bool {
        matches!(self, Self::U8p | Self::S16p | Self::S32p | Self::F32p | Self::F64p)
    }

    /// The format's name.
    pub open spec fn spec_name(self) -> Seq<char> {
        match self {
            Self::U8 => "u8"@, Self::S16 => "s16"@, Self::S32 => "s32"@,
            Self::F32 => "flt"@, Self::F64 => "dbl"@,
            Self::U8p => "u8p"@, Self::S16p => "s16p"@, Self::S32p => "s32p"@,
            Self::F32p => "fltp"@, Self::F64p => "dblp"@,
        }
    }

    /// Bytes of one sample: one channel's value for interleaved formats, or
    /// the per-plane bytes for planar ones, times `nb_samples`.
    pub open spec fn spec_buffer_size(self, nb_samples: nat, channels: nat) -> nat {
        if self.spec_is_planar() {
            self.spec_bytes_per_sample() * nb_samples
        } else {
            self.spec_bytes_per_sample() * nb_samples * channels
        }
    }

    /// Bytes per sample for a single channel.
    pub fn bytes_per_sample(&self) -> (r: usize)
        ensures r == self.spec_bytes_per_sample(),
    {
        match self {
            Self::U8 | Self::U8p => 1,
            Self::S16 | Self::S16p => 2,
            Self::S32 | Self::S32p | Self::F32 | Self::F32p => 4,
            Self::F64 | Self::F64p => 8,
        }
    }

    /// True if samples are stored in separate per-channel buffers.
    pub fn is_planar(&self) -> (r: bool)
        ensures r == self.spec_is_planar(),
    {
        matches!(self, Self::U8p | Self::S16p | Self::S32p | Self::F32p | Self::F64p)
    }

    /// True if samples are interleaved in a single buffer.
    pub fn is_interleaved(&self) -> (r: bool)
        ensures r == !self.spec_is_planar(),
    {
        !self.is_planar()
    }

    /// True if samples are floating-point.
    pub fn is_float(&self) -> (r: bool)
        ensures r == matches!(*self, Self::F32 | Self::F64 | Self::F32p | Self::F64p),
    {
        matches!(self, Self::F32 | Self::F64 | Self::F32p | Self::F64p)
    }

    /// Get the planar counterpart (returns self if already planar).
    pub fn to_planar(&self) -> (r: Self)
        ensures
            r.spec_is_planar(),
            r.spec_bytes_per_sample() == self.spec_bytes_per_sample(),
            self.spec_is_planar() ==> r == *self,
            r.to_interleaved_spec() == self.to_interleaved_spec(),
    {
        match self {
            Self::U8 => Self::U8p,
            Self::S16 => Self::S16p,
            Self::S32 => Self::S32p,
            Self::F32 => Self::F32p,
            Self::F64 => Self::F64p,
            other => *other,
        }
    }

    pub open spec fn to_interleaved_spec(self) -> Self {
        match self {
            Self::U8p => Self::U8,
            Self::S16p => Self::S16,
            Self::S32p => Self::S32,
            Self::F32p => Self::F32,
            Self::F64p => Self::F64,
            other => other,
        }
    }

    /// Get the interleaved counterpart (returns self if already interleaved).
    pub fn to_interleaved(&self) -> (r: Self)
        ensures
            r == self.to_interleaved_spec(),
            !r.spec_is_planar(),
            r.spec_bytes_per_sample() == self.spec_bytes_per_sample(),
            !self.spec_is_planar() ==> r == *self,
    {
        match self {
            Self::U8p => Self::U8,
            Self::S16p => Self::S16,
            Self::S32p => Self::S32,
            Self::F32p => Self::F32,
            Self::F64p => Self::F64,
            other => *other,
        }
    }

    /// Format name as a string.
    pub fn name(&self) -> (r: &'static str)
        ensures r@ == self.spec_name(),
    {
        match self {
            Self::U8 => "u8", Self::S16 => "s16", Self::S32 => "s32",
            Self::F32 => "flt", Self::F64 => "dbl",
            Self::U8p => "u8p", Self::S16p => "s16p", Self::S32p => "s32p",
            Self::F32p => "fltp", Self::F64p => "dblp",
        }
    }

    /// Parse from name string.
    pub fn from_name(name: &str) -> (r: Option<Self>)
        ensures
            r matches Some(f) ==> f.spec_name() == name@,
            r is None ==> forall|f: SampleFormat| f.spec_name() != name@,
    {
        let mut i: usize = 0;
        while i < 10
            invariant
                i <= 10,
                forall|j: int| 0 <= j < i ==> (#[trigger] ALL_SAMPLE_FORMATS[j]).spec_name() != name@,
            decreases 10 - i,
        {
            let f = ALL_SAMPLE_FORMATS[i];
            if str_eq(f.name(), name) {
                return Some(f);
            }
            i += 1;
        }
        assert forall|f: SampleFormat| f.spec_name() != name@ by {
            match f {
                Self::U8 => assert(ALL_SAMPLE_FORMATS[0] == f),
                Self::S16 => assert(ALL_SAMPLE_FORMATS[1] == f),
                Self::S32 => assert(ALL_SAMPLE_FORMATS[2] == f),
                Self::F32 => assert(ALL_SAMPLE_FORMATS[3] == f),
                Self::F64 => assert(ALL_SAMPLE_FORMATS[4] == f),
                Self::U8p => assert(ALL_SAMPLE_FORMATS[5] == f),
                Self::S16p => assert(ALL_SAMPLE_FORMATS[6] == f),
                Self::S32p => assert(ALL_SAMPLE_FORMATS[7] == f),
                Self::F32p => assert(ALL_SAMPLE_FORMATS[8] == f),
                Self::F64p => assert(ALL_SAMPLE_FORMATS[9] == f),
            }
        }
        None
    }

    /// Compute the buffer size needed for `nb_samples` samples across
    /// `channels` channels. For interleaved, this is a single buffer size.
    /// For planar, this is the size of one per-channel buffer.
    pub fn buffer_size(&self, nb_samples: u32, channels: u16) -> (r: usize)
        requires self.spec_buffer_size(nb_samples as nat, channels as nat) <= usize::MAX,
        ensures r == self.spec_buffer_size(nb_samples as nat, channels as nat),
    {
        let sample_bytes = self.bytes_per_sample();
        assert(sample_bytes * nb_samples <= 8 * 0xFFFF_FFFF) by(nonlinear_arith)
            requires sample_bytes <= 8, nb_samples <= 0xFFFF_FFFF;
        assert(sample_bytes * nb_samples * channels <= 8 * 0xFFFF_FFFF * 0xFFFF) by(nonlinear_arith)
            requires sample_bytes * nb_samples <= 8 * 0xFFFF_FFFF, channels <= 0xFFFF;
        if self.is_planar() {
            sample_bytes * nb_samples as usize
        } else {
            if channels == 0 {
                assert(sample_bytes * nb_samples * channels == 0) by(nonlinear_arith) requires channels == 0;
                return 0;
            }
            assert(sample_bytes * nb_samples <= sample_bytes * nb_samples * channels) by(nonlinear_arith)
                requires channels >= 1;
            sample_bytes * nb_samples as usize * channels as usize
        }
    }
}

/// Distinct formats have distinct names, so `from_name` of a format's name
/// gives back that format.
pub proof fn law_names_distinct(a: SampleFormat, b: SampleFormat)
    ensures a.spec_name() == b.spec_name() ==> a == b,
{
    reveal_strlit("u8"); reveal_strlit("s16"); reveal_strlit("s32"); reveal_strlit("flt");
    reveal_strlit("dbl"); reveal_strlit("u8p"); reveal_strlit("s16p"); reveal_strlit("s32p");
    reveal_strlit("fltp"); reveal_strlit("dblp");
    let x = a.spec_name();
    let y = b.spec_name();
    if x == y {
        assert(x.len() == y.len());
        assert(x[0] == y[0]);
        assert(x[1] == y[1]);
        if x.len() > 2 { assert(x[2] == y[2]); }
        if x.len() > 3 { assert(x[3] == y[3]); }
    }
}

} // verus!
