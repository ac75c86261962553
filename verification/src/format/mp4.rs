//! The MP4 (ISO base media) container: boxes, the sample table, the
//! demuxer and the muxer.

pub mod boxes;
pub mod table;
pub mod demux;
pub mod mux;

use vstd::prelude::*;

verus! {

/// How much the first bytes look like MP4: 95 for an `ftyp` box first, 50
/// for a `moov`, `free` or `mdat` box, else 0.
pub open spec fn mp4_probe_score(d: Seq<u8>) -> u32 {
    if d.len() < 8 { 0 }
    else if d.subrange(4, 8) == seq![0x66u8, 0x74, 0x79, 0x70] { 95 }
    else if d.subrange(4, 8) == seq![0x6du8, 0x6f, 0x6f, 0x76] || d.subrange(4, 8) == seq![0x66u8, 0x72, 0x65, 0x65]
        || d.subrange(4, 8) == seq![0x6du8, 0x64, 0x61, 0x74] { 50 }
    else { 0 }
}

fn type_at_4(data: &[u8], a: u8, b: u8, c: u8, d: u8) -> (r: bool)
    requires data@.len() >= 8,
    ensures r == (data@.subrange(4, 8) == seq![a, b, c, d]),
{
    let r = data[4] == a && data[5] == b && data[6] == c && data[7] == d;
    proof {
        if r { assert(data@.subrange(4, 8) =~= seq![a, b, c, d]); }
        if data@.subrange(4, 8) == seq![a, b, c, d] { assert(data@.subrange(4, 8)[0] == a); }
    }
    r
}

/// MP4 format probe function (see [`mp4_probe_score`]).
pub fn probe(data: &[u8]) -> (r: u32)
    ensures r == mp4_probe_score(data@),
{
    if data.len() < 8 {
        return 0;
    }
    if type_at_4(data, 0x66, 0x74, 0x79, 0x70) {
        return 95;
    }
    if type_at_4(data, 0x6d, 0x6f, 0x6f, 0x76) || type_at_4(data, 0x66, 0x72, 0x65, 0x65)
        || type_at_4(data, 0x6d, 0x64, 0x61, 0x74) {
        return 50;
    }
    0
}

} // verus!
