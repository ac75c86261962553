use vstd::prelude::*;
use crate::util::error::{Error, Result};
use crate::util::text::utf8_text;
use crate::format::io::{IOContext, be_value};

verus! {

/// A parsed MP4 box header.
#[derive(Debug, Clone, Copy)]
pub struct BoxHeader {
    /// Four-character box type (e.g. "ftyp", "moov").
    pub box_type: [u8; 4],
    /// Total box size including header (0 = extends to EOF).
    pub size: u64,
    /// Offset where the box payload starts.
    pub payload_offset: u64,
    /// Payload size (size - header_size).
    pub payload_size: u64,
}

/// The header of the box at `p`, in data `d` of recorded size `io_size`:
/// a 32-bit big-endian size and a type; size 1 means a 64-bit size
/// follows, size 0 that the box runs to the end of the data (0 when the
/// size is unknown). `None` when the data ends first.
pub open spec fn box_at(d: Seq<u8>, p: int, io_size: i64) -> Option<BoxHeader> {
    if p + 8 > d.len() {
        None
    } else {
        let size32 = be_value(d.subrange(p, p + 4));
        let t = d.subrange(p + 4, p + 8);
        if size32 == 1 && p + 16 > d.len() {
            None
        } else {
            let size: int = if size32 == 1 { be_value(d.subrange(p + 8, p + 16)) as int }
                else if size32 == 0 { if io_size > 0 { (io_size - p) % 18446744073709551616 } else { 0 } }
                else { size32 as int };
            let header: int = if size32 == 1 { 16 } else { 8 };
            Some(BoxHeader {
                box_type: [t[0], t[1], t[2], t[3]],
                size: size as u64,
                payload_offset: (p + header) as u64,
                payload_size: (if size > header { size - header } else { 0 }) as u64,
            })
        }
    }
}

impl BoxHeader {
    /// Four-char type as text ("????" when it is not UTF-8).
    pub fn type_str(&self) -> (r: String)
        ensures
            vstd::utf8::valid_utf8(self.box_type@) ==> r@ == vstd::utf8::decode_utf8(self.box_type@),
            !vstd::utf8::valid_utf8(self.box_type@) ==> r@ == "????"@,
    {
        match utf8_text(&self.box_type) {
            Some(s) => String::from_str(s),
            None => String::from_str("????"),
        }
    }

    /// Check if this box matches a given type.
    pub fn is_type(&self, t: &[u8; 4]) -> (r: bool)
        ensures r == (self.box_type@ == t@),
    {
        let r = self.box_type[0] == t[0] && self.box_type[1] == t[1]
            && self.box_type[2] == t[2] && self.box_type[3] == t[3];
        proof { if r { assert(self.box_type@ =~= t@); } }
        r
    }
}

/// Read a box header from the current IO position.
pub fn read_box_header(io: &mut IOContext) -> (r: Result<BoxHeader>)
    ensures
        box_at(old(io).spec_data(), old(io).spec_pos() as int, old(io).spec_size()) matches Some(h)
            ==> r == Ok::<BoxHeader, Error>(h) && final(io).spec_pos() == h.payload_offset,
        box_at(old(io).spec_data(), old(io).spec_pos() as int, old(io).spec_size()) is None
            ==> r == Err::<BoxHeader, Error>(Error::Eof) && final(io).spec_pos() == old(io).spec_data().len(),
        r matches Ok(h) ==> old(io).spec_pos() + 8 <= h.payload_offset <= old(io).spec_data().len(),
        final(io).spec_data() == old(io).spec_data(),
        final(io).spec_seekable() == old(io).spec_seekable(),
        final(io).spec_size() == old(io).spec_size(),
{
    let start = io.position()?;
    let size32 = io.read_u32_be()?;
    let mut box_type = [0u8; 4];
    io.read_exact(&mut box_type)?;
    let ghost b = io.spec_data().subrange(start + 4, start + 8);
    assert(box_type@ == b);
    assert(box_type == [b[0], b[1], b[2], b[3]]) by {
        assert(box_type@ =~= [b[0], b[1], b[2], b[3]]@);
    }
    let (size, header_size): (u64, u64) = if size32 == 1 {
        let size64 = io.read_u64_be()?;
        (size64, 16u64)
    } else if size32 == 0 {
        let total = io.total_size();
        let remaining: u64 = if total > 0 { (total as u64).wrapping_sub(start) } else { 0 };
        (remaining, 8u64)
    } else {
        (size32 as u64, 8u64)
    };
    let payload_offset = start + header_size;
    let payload_size = if size > header_size { size - header_size } else { 0 };
    Ok(BoxHeader { box_type, size, payload_offset, payload_size })
}

/// Skip the payload of a box: move to its end, which is refused when it is
/// past the largest position.
pub fn skip_box(io: &mut IOContext, header: &BoxHeader) -> (r: Result<()>)
    ensures
        header.payload_offset + header.payload_size > u64::MAX ==> (r matches Err(Error::InvalidData(_)))
            && *final(io) == *old(io),
        header.payload_offset + header.payload_size <= u64::MAX && !old(io).spec_seekable()
            ==> (r matches Err(Error::Unsupported(_))) && *final(io) == *old(io),
        header.payload_offset + header.payload_size <= u64::MAX && old(io).spec_seekable()
            ==> r is Ok && final(io).spec_pos() == header.payload_offset + header.payload_size
                && final(io).spec_data() == old(io).spec_data() && final(io).spec_seekable()
                && final(io).spec_size() == old(io).spec_size(),
{
    let end = match header.payload_offset.checked_add(header.payload_size) {
        Some(e) => e,
        None => { return Err(Error::InvalidData(crate::util::error::msg("box extends past the largest position"))); }
    };
    io.seek(end)?;
    Ok(())
}

/// Read a full box header (version + flags, used by many MP4 boxes): the
/// top byte of a 32-bit big-endian word and its low 24 bits.
pub fn read_full_box_header(io: &mut IOContext) -> (r: Result<(u8, u32)>)
    ensures
        old(io).read_step(&*final(io), 4),
        old(io).spec_read(4) matches Some(b) ==> r == Ok::<(u8, u32), Error>(
            ((be_value(b) / 16777216) as u8, (be_value(b) % 16777216) as u32)),
        old(io).spec_read(4) is None ==> r == Err::<(u8, u32), Error>(Error::Eof),
{
    let vf = io.read_u32_be()?;
    let version = (vf / 16777216) as u8;
    let flags = vf % 16777216;
    Ok((version, flags))
}

/// The four-character types of boxes that hold other boxes.
pub open spec fn container_types() -> Seq<Seq<u8>> {
    seq![
        seq![0x6du8, 0x6f, 0x6f, 0x76], seq![0x74u8, 0x72, 0x61, 0x6b], seq![0x6du8, 0x64, 0x69, 0x61],
        seq![0x6du8, 0x69, 0x6e, 0x66], seq![0x73u8, 0x74, 0x62, 0x6c], seq![0x64u8, 0x69, 0x6e, 0x66],
        seq![0x65u8, 0x64, 0x74, 0x73], seq![0x75u8, 0x64, 0x74, 0x61], seq![0x6du8, 0x76, 0x65, 0x78],
        seq![0x6du8, 0x6f, 0x6f, 0x66], seq![0x74u8, 0x72, 0x61, 0x66]
    ]
}

/// Container boxes that hold other boxes: moov, trak, mdia, minf, stbl,
/// dinf, edts, udta, mvex, moof, traf.
pub fn is_container_box(box_type: &[u8; 4]) -> (r: bool)
    ensures r == container_types().contains(box_type@),
{
    let types: [[u8; 4]; 11] = [
        [0x6d, 0x6f, 0x6f, 0x76], [0x74, 0x72, 0x61, 0x6b], [0x6d, 0x64, 0x69, 0x61],
        [0x6d, 0x69, 0x6e, 0x66], [0x73, 0x74, 0x62, 0x6c], [0x64, 0x69, 0x6e, 0x66],
        [0x65, 0x64, 0x74, 0x73], [0x75, 0x64, 0x74, 0x61], [0x6d, 0x76, 0x65, 0x78],
        [0x6d, 0x6f, 0x6f, 0x66], [0x74, 0x72, 0x61, 0x66],
    ];
    let ghost ts = container_types();
    assert forall|k: int| 0 <= k < 11 implies #[trigger] types@[k]@ == ts[k] by {
        assert(types@[k]@ =~= ts[k]);
    }
    let mut i: usize = 0;
    while i < 11
        invariant
            i <= 11, ts == container_types(), ts.len() == 11,
            forall|k: int| 0 <= k < 11 ==> #[trigger] types@[k]@ == ts[k],
            forall|k: int| 0 <= k < i ==> ts[k] != box_type@,
        decreases 11 - i,
    {
        let t = &types[i];
        if t[0] == box_type[0] && t[1] == box_type[1] && t[2] == box_type[2] && t[3] == box_type[3] {
            assert(t@ =~= box_type@);
            assert(ts[i as int] == box_type@);
            return true;
        }
        proof {
            if ts[i as int] == box_type@ {
                assert(t@[0] == box_type@[0]);
            }
        }
        i += 1;
    }
    false
}

} // verus!
