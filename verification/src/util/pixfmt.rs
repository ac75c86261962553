use vstd::prelude::*;
use crate::util::text::str_eq;

verus! {

/// Pixel formats for video frames.
///
/// Each variant describes how pixel data is laid out in memory.
/// Use [`PixelFormat::descriptor`] to get detailed properties.
#[derive(Debug, Clone, Copy, PartialEq, Eq, Hash, Structural)]
#[non_exhaustive]
pub enum PixelFormat {
    /// YUV 4:2:0 planar, 12 bpp.
    Yuv420p,
    /// YUV 4:2:2 planar, 16 bpp.
    Yuv422p,
    /// YUV 4:4:4 planar, 24 bpp.
    Yuv444p,
    /// YUV 4:2:0 planar 10-bit, 15 bpp.
    Yuv420p10Le,
    /// YUV 4:2:0 planar 10-bit BE, 15 bpp.
    Yuv420p10Be,
    /// YUV 4:2:2 planar 10-bit LE, 20 bpp.
    Yuv422p10Le,
    /// YUV 4:4:4 planar 10-bit LE, 30 bpp.
    Yuv444p10Le,
    /// YUVA 4:2:0 planar, 20 bpp.
    Yuva420p,
    /// Y plane + interleaved UV, 12 bpp (common HW format).
    Nv12,
    /// Y plane + interleaved VU, 12 bpp.
    Nv21,
    /// Packed RGB 8:8:8, 24 bpp.
    Rgb24,
    /// Packed BGR 8:8:8, 24 bpp.
    Bgr24,
    /// Packed RGBA 8:8:8:8, 32 bpp.
    Rgba,
    /// Packed BGRA 8:8:8:8, 32 bpp.
    Bgra,
    /// Packed ARGB 8:8:8:8, 32 bpp.
    Argb,
    /// Packed ABGR 8:8:8:8, 32 bpp.
    Abgr,
    /// Planar GBR 8-bit, 24 bpp.
    Gbrp,
    /// Grayscale 8-bit, 8 bpp.
    Gray8,
    /// Grayscale 16-bit LE, 16 bpp.
    Gray16Le,
    /// Packed YUV 4:2:2, 16 bpp (YUYV).
    Yuyv422,
    /// Packed YUV 4:2:2, 16 bpp (UYVY).
    Uyvy422,
    /// VAAPI hardware surface.
    Vaapi,
    /// D3D11 hardware surface.
    D3d11,
    /// VideoToolbox hardware surface.
    VideoToolbox,
    /// CUDA hardware surface.
    Cuda,
}

/// Descriptor for a pixel format, providing detailed properties.
#[derive(Debug, Clone, Copy)]
pub struct PixelFormatDescriptor {
    /// Human-readable name.
    pub name: &'static str,
    /// Number of components (e.g. 3 for YUV, 4 for RGBA).
    pub nb_components: u8,
    /// Bits per pixel (average for planar formats).
    pub bits_per_pixel: u8,
    /// Number of planes.
    pub nb_planes: u8,
    /// log2 of horizontal chroma subsampling (0 = no subsampling).
    pub log2_chroma_w: u8,
    /// log2 of vertical chroma subsampling (0 = no subsampling).
    pub log2_chroma_h: u8,
    /// True if data is stored in separate planes.
    pub is_planar: bool,
    /// True if format has an alpha channel.
    pub has_alpha: bool,
    /// True if this is a hardware surface format (opaque, no CPU access).
    pub is_hwaccel: bool,
    /// Bits per component (0 for mixed or HW formats).
    pub bits_per_component: u8,
}

/// The numeric and flag properties of a format, in the order of the
/// descriptor's fields after the name: components, bits per pixel, planes,
/// log2 chroma width, log2 chroma height, planar, alpha, hardware, bits per
/// component.
pub struct PixelLayout {
    pub nb_components: u8,
    pub bits_per_pixel: u8,
    pub nb_planes: u8,
    pub log2_chroma_w: u8,
    pub log2_chroma_h: u8,
    pub is_planar: bool,
    pub has_alpha: bool,
    pub is_hwaccel: bool,
    pub bits_per_component: u8,
}

impl PixelFormat {
    /// The format's name.
    pub open spec fn spec_name(self) -> Seq<char> {
        match self {
            Self::Yuv420p => "yuv420p"@,
            Self::Yuv422p => "yuv422p"@,
            Self::Yuv444p => "yuv444p"@,
            Self::Yuv420p10Le => "yuv420p10le"@,
            Self::Yuv420p10Be => "yuv420p10be"@,
            Self::Yuv422p10Le => "yuv422p10le"@,
            Self::Yuv444p10Le => "yuv444p10le"@,
            Self::Yuva420p => "yuva420p"@,
            Self::Nv12 => "nv12"@,
            Self::Nv21 => "nv21"@,
            Self::Rgb24 => "rgb24"@,
            Self::Bgr24 => "bgr24"@,
            Self::Rgba => "rgba"@,
            Self::Bgra => "bgra"@,
            Self::Argb => "argb"@,
            Self::Abgr => "abgr"@,
            Self::Gbrp => "gbrp"@,
            Self::Gray8 => "gray"@,
            Self::Gray16Le => "gray16le"@,
            Self::Yuyv422 => "yuyv422"@,
            Self::Uyvy422 => "uyvy422"@,
            Self::Vaapi => "vaapi"@,
            Self::D3d11 => "d3d11"@,
            Self::VideoToolbox => "videotoolbox"@,
            Self::Cuda => "cuda"@,
        }
    }

    /// The format's properties.
    pub open spec fn spec_layout(self) -> PixelLayout {
        match self {
            Self::Yuv420p => PixelLayout { nb_components: 3, bits_per_pixel: 12, nb_planes: 3, log2_chroma_w: 1, log2_chroma_h: 1, is_planar: true, has_alpha: false, is_hwaccel: false, bits_per_component: 8 },
            Self::Yuv422p => PixelLayout { nb_components: 3, bits_per_pixel: 16, nb_planes: 3, log2_chroma_w: 1, log2_chroma_h: 0, is_planar: true, has_alpha: false, is_hwaccel: false, bits_per_component: 8 },
            Self::Yuv444p => PixelLayout { nb_components: 3, bits_per_pixel: 24, nb_planes: 3, log2_chroma_w: 0, log2_chroma_h: 0, is_planar: true, has_alpha: false, is_hwaccel: false, bits_per_component: 8 },
            Self::Yuv420p10Le => PixelLayout { nb_components: 3, bits_per_pixel: 15, nb_planes: 3, log2_chroma_w: 1, log2_chroma_h: 1, is_planar: true, has_alpha: false, is_hwaccel: false, bits_per_component: 10 },
            Self::Yuv420p10Be => PixelLayout { nb_components: 3, bits_per_pixel: 15, nb_planes: 3, log2_chroma_w: 1, log2_chroma_h: 1, is_planar: true, has_alpha: false, is_hwaccel: false, bits_per_component: 10 },
            Self::Yuv422p10Le => PixelLayout { nb_components: 3, bits_per_pixel: 20, nb_planes: 3, log2_chroma_w: 1, log2_chroma_h: 0, is_planar: true, has_alpha: false, is_hwaccel: false, bits_per_component: 10 },
            Self::Yuv444p10Le => PixelLayout { nb_components: 3, bits_per_pixel: 30, nb_planes: 3, log2_chroma_w: 0, log2_chroma_h: 0, is_planar: true, has_alpha: false, is_hwaccel: false, bits_per_component: 10 },
            Self::Yuva420p => PixelLayout { nb_components: 4, bits_per_pixel: 20, nb_planes: 4, log2_chroma_w: 1, log2_chroma_h: 1, is_planar: true, has_alpha: true, is_hwaccel: false, bits_per_component: 8 },
            Self::Nv12 => PixelLayout { nb_components: 3, bits_per_pixel: 12, nb_planes: 2, log2_chroma_w: 1, log2_chroma_h: 1, is_planar: true, has_alpha: false, is_hwaccel: false, bits_per_component: 8 },
            Self::Nv21 => PixelLayout { nb_components: 3, bits_per_pixel: 12, nb_planes: 2, log2_chroma_w: 1, log2_chroma_h: 1, is_planar: true, has_alpha: false, is_hwaccel: false, bits_per_component: 8 },
            Self::Rgb24 => PixelLayout { nb_components: 3, bits_per_pixel: 24, nb_planes: 1, log2_chroma_w: 0, log2_chroma_h: 0, is_planar: false, has_alpha: false, is_hwaccel: false, bits_per_component: 8 },
            Self::Bgr24 => PixelLayout { nb_components: 3, bits_per_pixel: 24, nb_planes: 1, log2_chroma_w: 0, log2_chroma_h: 0, is_planar: false, has_alpha: false, is_hwaccel: false, bits_per_component: 8 },
            Self::Rgba => PixelLayout { nb_components: 4, bits_per_pixel: 32, nb_planes: 1, log2_chroma_w: 0, log2_chroma_h: 0, is_planar: false, has_alpha: true, is_hwaccel: false, bits_per_component: 8 },
            Self::Bgra => PixelLayout { nb_components: 4, bits_per_pixel: 32, nb_planes: 1, log2_chroma_w: 0, log2_chroma_h: 0, is_planar: false, has_alpha: true, is_hwaccel: false, bits_per_component: 8 },
            Self::Argb => PixelLayout { nb_components: 4, bits_per_pixel: 32, nb_planes: 1, log2_chroma_w: 0, log2_chroma_h: 0, is_planar: false, has_alpha: true, is_hwaccel: false, bits_per_component: 8 },
            Self::Abgr => PixelLayout { nb_components: 4, bits_per_pixel: 32, nb_planes: 1, log2_chroma_w: 0, log2_chroma_h: 0, is_planar: false, has_alpha: true, is_hwaccel: false, bits_per_component: 8 },
            Self::Gbrp => PixelLayout { nb_components: 3, bits_per_pixel: 24, nb_planes: 3, log2_chroma_w: 0, log2_chroma_h: 0, is_planar: true, has_alpha: false, is_hwaccel: false, bits_per_component: 8 },
            Self::Gray8 => PixelLayout { nb_components: 1, bits_per_pixel: 8, nb_planes: 1, log2_chroma_w: 0, log2_chroma_h: 0, is_planar: false, has_alpha: false, is_hwaccel: false, bits_per_component: 8 },
            Self::Gray16Le => PixelLayout { nb_components: 1, bits_per_pixel: 16, nb_planes: 1, log2_chroma_w: 0, log2_chroma_h: 0, is_planar: false, has_alpha: false, is_hwaccel: false, bits_per_component: 16 },
            Self::Yuyv422 => PixelLayout { nb_components: 3, bits_per_pixel: 16, nb_planes: 1, log2_chroma_w: 1, log2_chroma_h: 0, is_planar: false, has_alpha: false, is_hwaccel: false, bits_per_component: 8 },
            Self::Uyvy422 => PixelLayout { nb_components: 3, bits_per_pixel: 16, nb_planes: 1, log2_chroma_w: 1, log2_chroma_h: 0, is_planar: false, has_alpha: false, is_hwaccel: false, bits_per_component: 8 },
            Self::Vaapi => PixelLayout { nb_components: 0, bits_per_pixel: 0, nb_planes: 0, log2_chroma_w: 0, log2_chroma_h: 0, is_planar: false, has_alpha: false, is_hwaccel: true, bits_per_component: 0 },
            Self::D3d11 => PixelLayout { nb_components: 0, bits_per_pixel: 0, nb_planes: 0, log2_chroma_w: 0, log2_chroma_h: 0, is_planar: false, has_alpha: false, is_hwaccel: true, bits_per_component: 0 },
            Self::VideoToolbox => PixelLayout { nb_components: 0, bits_per_pixel: 0, nb_planes: 0, log2_chroma_w: 0, log2_chroma_h: 0, is_planar: false, has_alpha: false, is_hwaccel: true, bits_per_component: 0 },
            Self::Cuda => PixelLayout { nb_components: 0, bits_per_pixel: 0, nb_planes: 0, log2_chroma_w: 0, log2_chroma_h: 0, is_planar: false, has_alpha: false, is_hwaccel: true, bits_per_component: 0 },
        }
    }

    /// Get the descriptor for this pixel format.
    pub fn descriptor(&self) -> (d: PixelFormatDescriptor)
        ensures
            d.name@ == self.spec_name(),
            d.nb_components == self.spec_layout().nb_components,
            d.bits_per_pixel == self.spec_layout().bits_per_pixel,
            d.nb_planes == self.spec_layout().nb_planes,
            d.log2_chroma_w == self.spec_layout().log2_chroma_w,
            d.log2_chroma_h == self.spec_layout().log2_chroma_h,
            d.is_planar == self.spec_layout().is_planar,
            d.has_alpha == self.spec_layout().has_alpha,
            d.is_hwaccel == self.spec_layout().is_hwaccel,
            d.bits_per_component == self.spec_layout().bits_per_component,
    {
        match self {
            Self::Yuv420p => PixelFormatDescriptor {
                name: "yuv420p", nb_components: 3, bits_per_pixel: 12,
                nb_planes: 3, log2_chroma_w: 1, log2_chroma_h: 1,
                is_planar: true, has_alpha: false, is_hwaccel: false, bits_per_component: 8,
            },
            Self::Yuv422p => PixelFormatDescriptor {
                name: "yuv422p", nb_components: 3, bits_per_pixel: 16,
                nb_planes: 3, log2_chroma_w: 1, log2_chroma_h: 0,
                is_planar: true, has_alpha: false, is_hwaccel: false, bits_per_component: 8,
            },
            Self::Yuv444p => PixelFormatDescriptor {
                name: "yuv444p", nb_components: 3, bits_per_pixel: 24,
                nb_planes: 3, log2_chroma_w: 0, log2_chroma_h: 0,
                is_planar: true, has_alpha: false, is_hwaccel: false, bits_per_component: 8,
            },
            Self::Yuv420p10Le => PixelFormatDescriptor {
                name: "yuv420p10le", nb_components: 3, bits_per_pixel: 15,
                nb_planes: 3, log2_chroma_w: 1, log2_chroma_h: 1,
                is_planar: true, has_alpha: false, is_hwaccel: false, bits_per_component: 10,
            },
            Self::Yuv420p10Be => PixelFormatDescriptor {
                name: "yuv420p10be", nb_components: 3, bits_per_pixel: 15,
                nb_planes: 3, log2_chroma_w: 1, log2_chroma_h: 1,
                is_planar: true, has_alpha: false, is_hwaccel: false, bits_per_component: 10,
            },
            Self::Yuv422p10Le => PixelFormatDescriptor {
                name: "yuv422p10le", nb_components: 3, bits_per_pixel: 20,
                nb_planes: 3, log2_chroma_w: 1, log2_chroma_h: 0,
                is_planar: true, has_alpha: false, is_hwaccel: false, bits_per_component: 10,
            },
            Self::Yuv444p10Le => PixelFormatDescriptor {
                name: "yuv444p10le", nb_components: 3, bits_per_pixel: 30,
                nb_planes: 3, log2_chroma_w: 0, log2_chroma_h: 0,
                is_planar: true, has_alpha: false, is_hwaccel: false, bits_per_component: 10,
            },
            Self::Yuva420p => PixelFormatDescriptor {
                name: "yuva420p", nb_components: 4, bits_per_pixel: 20,
                nb_planes: 4, log2_chroma_w: 1, log2_chroma_h: 1,
                is_planar: true, has_alpha: true, is_hwaccel: false, bits_per_component: 8,
            },
            Self::Nv12 => PixelFormatDescriptor {
                name: "nv12", nb_components: 3, bits_per_pixel: 12,
                nb_planes: 2, log2_chroma_w: 1, log2_chroma_h: 1,
                is_planar: true, has_alpha: false, is_hwaccel: false, bits_per_component: 8,
            },
            Self::Nv21 => PixelFormatDescriptor {
                name: "nv21", nb_components: 3, bits_per_pixel: 12,
                nb_planes: 2, log2_chroma_w: 1, log2_chroma_h: 1,
                is_planar: true, has_alpha: false, is_hwaccel: false, bits_per_component: 8,
            },
            Self::Rgb24 => PixelFormatDescriptor {
                name: "rgb24", nb_components: 3, bits_per_pixel: 24,
                nb_planes: 1, log2_chroma_w: 0, log2_chroma_h: 0,
                is_planar: false, has_alpha: false, is_hwaccel: false, bits_per_component: 8,
            },
            Self::Bgr24 => PixelFormatDescriptor {
                name: "bgr24", nb_components: 3, bits_per_pixel: 24,
                nb_planes: 1, log2_chroma_w: 0, log2_chroma_h: 0,
                is_planar: false, has_alpha: false, is_hwaccel: false, bits_per_component: 8,
            },
            Self::Rgba => PixelFormatDescriptor {
                name: "rgba", nb_components: 4, bits_per_pixel: 32,
                nb_planes: 1, log2_chroma_w: 0, log2_chroma_h: 0,
                is_planar: false, has_alpha: true, is_hwaccel: false, bits_per_component: 8,
            },
            Self::Bgra => PixelFormatDescriptor {
                name: "bgra", nb_components: 4, bits_per_pixel: 32,
                nb_planes: 1, log2_chroma_w: 0, log2_chroma_h: 0,
                is_planar: false, has_alpha: true, is_hwaccel: false, bits_per_component: 8,
            },
            Self::Argb => PixelFormatDescriptor {
                name: "argb", nb_components: 4, bits_per_pixel: 32,
                nb_planes: 1, log2_chroma_w: 0, log2_chroma_h: 0,
                is_planar: false, has_alpha: true, is_hwaccel: false, bits_per_component: 8,
            },
            Self::Abgr => PixelFormatDescriptor {
                name: "abgr", nb_components: 4, bits_per_pixel: 32,
                nb_planes: 1, log2_chroma_w: 0, log2_chroma_h: 0,
                is_planar: false, has_alpha: true, is_hwaccel: false, bits_per_component: 8,
            },
            Self::Gbrp => PixelFormatDescriptor {
                name: "gbrp", nb_components: 3, bits_per_pixel: 24,
                nb_planes: 3, log2_chroma_w: 0, log2_chroma_h: 0,
                is_planar: true, has_alpha: false, is_hwaccel: false, bits_per_component: 8,
            },
            Self::Gray8 => PixelFormatDescriptor {
                name: "gray", nb_components: 1, bits_per_pixel: 8,
                nb_planes: 1, log2_chroma_w: 0, log2_chroma_h: 0,
                is_planar: false, has_alpha: false, is_hwaccel: false, bits_per_component: 8,
            },
            Self::Gray16Le => PixelFormatDescriptor {
                name: "gray16le", nb_components: 1, bits_per_pixel: 16,
                nb_planes: 1, log2_chroma_w: 0, log2_chroma_h: 0,
                is_planar: false, has_alpha: false, is_hwaccel: false, bits_per_component: 16,
            },
            Self::Yuyv422 => PixelFormatDescriptor {
                name: "yuyv422", nb_components: 3, bits_per_pixel: 16,
                nb_planes: 1, log2_chroma_w: 1, log2_chroma_h: 0,
                is_planar: false, has_alpha: false, is_hwaccel: false, bits_per_component: 8,
            },
            Self::Uyvy422 => PixelFormatDescriptor {
                name: "uyvy422", nb_components: 3, bits_per_pixel: 16,
                nb_planes: 1, log2_chroma_w: 1, log2_chroma_h: 0,
                is_planar: false, has_alpha: false, is_hwaccel: false, bits_per_component: 8,
            },
            Self::Vaapi => PixelFormatDescriptor {
                name: "vaapi", nb_components: 0, bits_per_pixel: 0,
                nb_planes: 0, log2_chroma_w: 0, log2_chroma_h: 0,
                is_planar: false, has_alpha: false, is_hwaccel: true, bits_per_component: 0,
            },
            Self::D3d11 => PixelFormatDescriptor {
                name: "d3d11", nb_components: 0, bits_per_pixel: 0,
                nb_planes: 0, log2_chroma_w: 0, log2_chroma_h: 0,
                is_planar: false, has_alpha: false, is_hwaccel: true, bits_per_component: 0,
            },
            Self::VideoToolbox => PixelFormatDescriptor {
                name: "videotoolbox", nb_components: 0, bits_per_pixel: 0,
                nb_planes: 0, log2_chroma_w: 0, log2_chroma_h: 0,
                is_planar: false, has_alpha: false, is_hwaccel: true, bits_per_component: 0,
            },
            Self::Cuda => PixelFormatDescriptor {
                name: "cuda", nb_components: 0, bits_per_pixel: 0,
                nb_planes: 0, log2_chroma_w: 0, log2_chroma_h: 0,
                is_planar: false, has_alpha: false, is_hwaccel: true, bits_per_component: 0,
            },
        }
    }

    /// Get the format name as a string.
    pub fn name(&self) -> (r: &'static str)
        ensures r@ == self.spec_name(),
    {
        self.descriptor().name
    }

    /// Text of the format: its name.
    pub fn to_string(&self) -> (r: String)
        ensures r@ == self.spec_name(),
    {
        String::from_str(self.name())
    }

    /// Parse a pixel format from its name string.
    pub fn from_name(name: &str) -> (r: Option<Self>)
        ensures
            r matches Some(f) ==> f.spec_name() == name@,
            r is None ==> forall|f: PixelFormat| f.spec_name() != name@,
    {
        let mut i: usize = 0;
        while i < 25
            invariant
                i <= 25,
                forall|j: int| 0 <= j < i ==> (#[trigger] ALL_PIXEL_FORMATS[j]).spec_name() != name@,
            decreases 25 - i,
        {
            let f = ALL_PIXEL_FORMATS[i];
            if str_eq(f.name(), name) {
                return Some(f);
            }
            i += 1;
        }
        assert forall|f: PixelFormat| f.spec_name() != name@ by {
            match f {
                Self::Yuv420p => assert(ALL_PIXEL_FORMATS[0] == f),
                Self::Yuv422p => assert(ALL_PIXEL_FORMATS[1] == f),
                Self::Yuv444p => assert(ALL_PIXEL_FORMATS[2] == f),
                Self::Yuv420p10Le => assert(ALL_PIXEL_FORMATS[3] == f),
                Self::Yuv420p10Be => assert(ALL_PIXEL_FORMATS[4] == f),
                Self::Yuv422p10Le => assert(ALL_PIXEL_FORMATS[5] == f),
                Self::Yuv444p10Le => assert(ALL_PIXEL_FORMATS[6] == f),
                Self::Yuva420p => assert(ALL_PIXEL_FORMATS[7] == f),
                Self::Nv12 => assert(ALL_PIXEL_FORMATS[8] == f),
                Self::Nv21 => assert(ALL_PIXEL_FORMATS[9] == f),
                Self::Rgb24 => assert(ALL_PIXEL_FORMATS[10] == f),
                Self::Bgr24 => assert(ALL_PIXEL_FORMATS[11] == f),
                Self::Rgba => assert(ALL_PIXEL_FORMATS[12] == f),
                Self::Bgra => assert(ALL_PIXEL_FORMATS[13] == f),
                Self::Argb => assert(ALL_PIXEL_FORMATS[14] == f),
                Self::Abgr => assert(ALL_PIXEL_FORMATS[15] == f),
                Self::Gbrp => assert(ALL_PIXEL_FORMATS[16] == f),
                Self::Gray8 => assert(ALL_PIXEL_FORMATS[17] == f),
                Self::Gray16Le => assert(ALL_PIXEL_FORMATS[18] == f),
                Self::Yuyv422 => assert(ALL_PIXEL_FORMATS[19] == f),
                Self::Uyvy422 => assert(ALL_PIXEL_FORMATS[20] == f),
                Self::Vaapi => assert(ALL_PIXEL_FORMATS[21] == f),
                Self::D3d11 => assert(ALL_PIXEL_FORMATS[22] == f),
                Self::VideoToolbox => assert(ALL_PIXEL_FORMATS[23] == f),
                Self::Cuda => assert(ALL_PIXEL_FORMATS[24] == f),
            }
        }
        None
    }
}

/// All defined pixel formats, for iteration / lookup.
pub const ALL_PIXEL_FORMATS: [PixelFormat; 25] = [
    PixelFormat::Yuv420p, PixelFormat::Yuv422p, PixelFormat::Yuv444p, PixelFormat::Yuv420p10Le, PixelFormat::Yuv420p10Be, PixelFormat::Yuv422p10Le, PixelFormat::Yuv444p10Le, PixelFormat::Yuva420p, PixelFormat::Nv12, PixelFormat::Nv21, PixelFormat::Rgb24, PixelFormat::Bgr24, PixelFormat::Rgba, PixelFormat::Bgra, PixelFormat::Argb, PixelFormat::Abgr, PixelFormat::Gbrp, PixelFormat::Gray8, PixelFormat::Gray16Le, PixelFormat::Yuyv422, PixelFormat::Uyvy422, PixelFormat::Vaapi, PixelFormat::D3d11, PixelFormat::VideoToolbox, PixelFormat::Cuda,
];

/// Distinct formats have distinct names, so `from_name` of a format's name
/// gives back that format.
pub proof fn law_pixel_names_distinct(a: PixelFormat, b: PixelFormat)
    ensures a.spec_name() == b.spec_name() ==> a == b,
{
    reveal_strlit("yuv420p"); reveal_strlit("yuv422p"); reveal_strlit("yuv444p"); reveal_strlit("yuv420p10le"); reveal_strlit("yuv420p10be"); reveal_strlit("yuv422p10le"); reveal_strlit("yuv444p10le"); reveal_strlit("yuva420p"); reveal_strlit("nv12"); reveal_strlit("nv21"); reveal_strlit("rgb24"); reveal_strlit("bgr24"); reveal_strlit("rgba"); reveal_strlit("bgra"); reveal_strlit("argb"); reveal_strlit("abgr"); reveal_strlit("gbrp"); reveal_strlit("gray"); reveal_strlit("gray16le"); reveal_strlit("yuyv422"); reveal_strlit("uyvy422"); reveal_strlit("vaapi"); reveal_strlit("d3d11"); reveal_strlit("videotoolbox"); reveal_strlit("cuda");
    let x = a.spec_name();
    let y = b.spec_name();
    if x == y {
        assert(x.len() == y.len());
        assert(forall|i: int| 0 <= i < x.len() ==> x[i] == y[i]);
        assert(x[0] == y[0]);
        assert(x[1] == y[1]);
        assert(x[2] == y[2]);
        assert(x[3] == y[3]);
        if x.len() > 4 { assert(x[4] == y[4]); }
        if x.len() > 5 { assert(x[5] == y[5]); }
        if x.len() > 6 { assert(x[6] == y[6]); }
        if x.len() > 7 { assert(x[7] == y[7]); }
        if x.len() > 8 { assert(x[8] == y[8]); }
        if x.len() > 9 { assert(x[9] == y[9]); }
        if x.len() > 10 { assert(x[10] == y[10]); }
    }
}

} // verus!
