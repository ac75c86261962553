use vstd::prelude::*;
use crate::util::error::{Error, Result, msg};
use crate::util::text::{
    chars_of, utf8_text, trim, trim_indices, u64_of, parse_u64, split_pieces, split_arrow, first_arrow,
    find_arrow, join_lines, string_of, split_step, lemma_split_nonempty, spec_is_whitespace, is_whitespace,
    text_lines,
};
use crate::codec::codec::CodecId;
use crate::codec::subtitle::{
    SubtitleDecoder, SubtitleEntry, SubtitleFrame, Cue, frame_holds, clock_ms, clock_ms_exec, cue_text,
    lemma_cue_text_next, lines_view, strip_tags, strip_tags_exec, starts_with, starts_with_exec,
    collect_cue_text, is_blank, lines_vec,
};

verus! {

/// The text of `s` up to its first whitespace character.
pub open spec fn first_word(s: Seq<char>) -> Seq<char>
    decreases s.len(),
{
    if s.len() == 0 || spec_is_whitespace(s[0]) { Seq::empty() } else { seq![s[0]] + first_word(s.drop_first()) }
}

/// A WebVTT clock time `HH:MM:SS.mmm` or `MM:SS.mmm`; the fraction is read
/// as its first three digits, padded with zeros.
pub open spec fn webvtt_time(s: Seq<char>) -> Option<u64> {
    let parts = split_pieces(s, ':');
    if parts.len() == 2 {
        webvtt_clock(Some(0u64), parts[0], parts[1])
    } else if parts.len() == 3 {
        webvtt_clock(u64_of(parts[0]), parts[1], parts[2])
    } else {
        None
    }
}

/// A WebVTT clock time from its hours (if they parsed), minutes and seconds text.
pub open spec fn webvtt_clock(h: Option<u64>, m: Seq<char>, sm: Seq<char>) -> Option<u64> {
    let sp = split_pieces(sm, '.');
    match (h, u64_of(m), u64_of(sp[0])) {
        (Some(h), Some(m), Some(s)) => {
            if sp.len() > 1 {
                match u64_of((sp[1] + seq!['0', '0', '0']).take(3)) {
                    Some(ms) => Some(clock_ms(h, m, s, ms as int)),
                    None => None,
                }
            } else {
                Some(clock_ms(h, m, s, 0))
            }
        }
        _ => None,
    }
}

/// The start and end of a WebVTT timing line: two clock times around one
/// `-->`, the end followed by optional cue settings.
pub open spec fn webvtt_timing(l: Seq<char>) -> Option<(u64, u64)> {
    match split_arrow(l) {
        Some((a, b)) => match (webvtt_time(trim(a)), webvtt_time(first_word(trim(b)))) {
            (Some(x), Some(y)) => Some((x, y)),
            _ => None,
        },
        None => None,
    }
}

/// The first line at or after `i` that is not blank.
pub open spec fn skip_blank(ls: Seq<Seq<char>>, i: int) -> int
    decreases ls.len() - i,
{
    if i < 0 || i >= ls.len() || trim(ls[i]).len() != 0 { i } else { skip_blank(ls, i + 1) }
}

pub proof fn lemma_skip_blank(ls: Seq<Seq<char>>, i: int)
    requires 0 <= i,
    ensures skip_blank(ls, i) >= i, i <= ls.len() ==> skip_blank(ls, i) <= ls.len(),
    decreases ls.len() - i,
{
    if i < ls.len() && trim(ls[i]).len() == 0 {
        lemma_skip_blank(ls, i + 1);
    }
}

/// The cues of a WebVTT body from line `i` on: blank lines are skipped; a
/// cue is an optional identifier line, a timing line (one holding `-->`)
/// and text lines up to a blank line; an identifier not followed by a
/// timing line is dropped with the line after it; a malformed timing line
/// is dropped alone; a cue without text gives no entry. Tags are removed
/// from the text.
pub open spec fn webvtt_cues(ls: Seq<Seq<char>>, i: int) -> Seq<Cue>
    decreases ls.len() - i,
{
    if i < 0 || i >= ls.len() {
        Seq::empty()
    } else {
        let j = skip_blank(ls, i);
        proof { lemma_skip_blank(ls, i); }
        if j >= ls.len() {
            Seq::empty()
        } else {
            let (t, after) = if first_arrow(ls[j]) is Some {
                (Some(ls[j]), j + 1)
            } else if j + 1 < ls.len() && first_arrow(ls[j + 1]) is Some {
                (Some(ls[j + 1]), j + 2)
            } else if j + 1 < ls.len() {
                (None::<Seq<char>>, j + 2)
            } else {
                (None::<Seq<char>>, j + 1)
            };
            match t {
                None => webvtt_cues(ls, after),
                Some(tl) => match webvtt_timing(tl) {
                    None => webvtt_cues(ls, after),
                    Some((s, e)) => {
                        let (text, next) = cue_text(ls, after);
                        proof { lemma_cue_text_next(ls, after); }
                        let rest = webvtt_cues(ls, next);
                        if text.len() > 0 {
                            seq![(s, e, strip_tags(join_lines(text), '<', '>', false))] + rest
                        } else {
                            rest
                        }
                    }
                },
            }
        }
    }
}

/// `s` without its leading byte order marks.
pub open spec fn strip_bom(s: Seq<char>) -> Seq<char>
    decreases s.len(),
{
    if s.len() > 0 && s[0] == '\u{FEFF}' { strip_bom(s.drop_first()) } else { s }
}

/// What decoding WebVTT bytes gives: `None` for invalid UTF-8, no lines, or
/// a first line (after byte order marks) not starting with "WEBVTT"; else
/// the cues after the header block.
pub open spec fn webvtt_decode(data: Seq<u8>) -> Option<Seq<Cue>> {
    if !vstd::utf8::valid_utf8(data) {
        None
    } else {
        let ls = text_lines(vstd::utf8::decode_utf8(data));
        if ls.len() == 0 || !starts_with(strip_bom(ls[0]), "WEBVTT"@) {
            None
        } else {
            Some(webvtt_cues(ls, cue_text(ls, 1).1))
        }
    }
}

/// The first word of `cs[start..end]`: where it ends.
fn first_word_end(cs: &[char], start: usize, end: usize) -> (r: usize)
    requires start <= end <= cs@.len(),
    ensures start <= r <= end,
        cs@.subrange(start as int, r as int) == first_word(cs@.subrange(start as int, end as int)),
{
    let mut i = start;
    while i < end && !is_whitespace(cs[i])
        invariant start <= i <= end, end <= cs@.len(),
            cs@.subrange(start as int, i as int) + first_word(cs@.subrange(i as int, end as int))
                == first_word(cs@.subrange(start as int, end as int)),
        decreases end - i,
    {
        proof {
            let s = cs@.subrange(i as int, end as int);
            assert(s.drop_first() =~= cs@.subrange(i + 1, end as int));
            assert(cs@.subrange(start as int, i as int) + (seq![s[0]] + first_word(s.drop_first()))
                =~= cs@.subrange(start as int, i + 1) + first_word(cs@.subrange(i + 1, end as int)));
        }
        i += 1;
    }
    proof {
        let s = cs@.subrange(i as int, end as int);
        assert(first_word(s) =~= Seq::<char>::empty());
        assert(cs@.subrange(start as int, i as int) + Seq::<char>::empty() =~= cs@.subrange(start as int, i as int));
    }
    i
}

/// Parse a WebVTT clock time from `cs[start..end]` (see [`webvtt_time`]).
fn time_at(cs: &[char], start: usize, end: usize) -> (r: Option<u64>)
    requires start <= end <= cs@.len(),
    ensures r == webvtt_time(cs@.subrange(start as int, end as int)),
{
    let a = split_step(cs, start, end, ':');
    if a >= end {
        return None;
    }
    let b = split_step(cs, a + 1, end, ':');
    if b >= end {
        proof { lemma_split_nonempty(cs@.subrange(a + 1, end as int), ':'); }
        return clock_at(cs, None, start, a, a + 1, end);
    }
    let c = split_step(cs, b + 1, end, ':');
    if c < end {
        proof { lemma_split_nonempty(cs@.subrange(c + 1, end as int), ':'); }
        return None;
    }
    let h = parse_u64(cs, start, a);
    match h {
        Some(h) => clock_at(cs, Some(h), a + 1, b, b + 1, end),
        None => None,
    }
}

/// A clock time from hours (if `hours` is `None`, zero), minutes in
/// `cs[m0..m1]` and seconds in `cs[s0..s1]`.
fn clock_at(cs: &[char], hours: Option<u64>, m0: usize, m1: usize, s0: usize, s1: usize) -> (r: Option<u64>)
    requires m0 <= m1 <= cs@.len(), s0 <= s1 <= cs@.len(),
    ensures r == webvtt_clock(
        match hours { Some(h) => Some(h), None => Some(0u64) },
        cs@.subrange(m0 as int, m1 as int), cs@.subrange(s0 as int, s1 as int)),
{
    let h: u64 = match hours { Some(h) => h, None => 0 };
    let m = parse_u64(cs, m0, m1);
    let d = split_step(cs, s0, s1, '.');
    let sec = parse_u64(cs, s0, d);
    proof { lemma_split_nonempty(cs@.subrange(s0 as int, s1 as int), '.'); }
    match (m, sec) {
        (Some(m), Some(sec)) => {
            if d < s1 {
                let e = split_step(cs, d + 1, s1, '.');
                proof { if e < s1 { lemma_split_nonempty(cs@.subrange(e + 1, s1 as int), '.'); } }
                let mut frac: Vec<char> = Vec::new();
                let mut k = d + 1;
                while k < e && frac.len() < 3
                    invariant d + 1 <= k <= e, e <= cs@.len(), frac@.len() <= 3,
                        frac@ == cs@.subrange(d + 1, k as int), frac@.len() == k - (d + 1),
                    decreases e - k,
                {
                    frac.push(cs[k]);
                    k += 1;
                    assert(frac@ =~= cs@.subrange(d + 1, k as int));
                }
                let ghost got = frac@;
                while frac.len() < 3
                    invariant frac@.len() <= 3, got.len() <= frac@.len(),
                        frac@ == got + Seq::new((frac@.len() - got.len()) as nat, |_i: int| '0'),
                    decreases 3 - frac@.len(),
                {
                    frac.push('0');
                    assert(frac@ =~= got + Seq::new((frac@.len() - got.len()) as nat, |_i: int| '0'));
                }
                proof {
                    let piece = cs@.subrange(d + 1, e as int);
                    assert(frac@ =~= (piece + seq!['0', '0', '0']).take(3));
                }
                match parse_u64(frac.as_slice(), 0, 3) {
                    Some(ms) => {
                        proof { assert(frac@.subrange(0, 3) =~= frac@); }
                        Some(clock_ms_exec(h, m, sec, ms))
                    }
                    None => {
                        proof { assert(frac@.subrange(0, 3) =~= frac@); }
                        None
                    }
                }
            } else {
                Some(clock_ms_exec(h, m, sec, 0))
            }
        }
        _ => None,
    }
}

/// Parse a WebVTT clock time: `HH:MM:SS.mmm` or `MM:SS.mmm` to milliseconds.
pub fn parse_webvtt_time(s: &str) -> (r: Result<u64>)
    ensures
        webvtt_time(s@) matches Some(v) ==> r == Ok::<u64, Error>(v),
        webvtt_time(s@) is None ==> r matches Err(Error::InvalidData(_)),
{
    let cs = chars_of(s);
    assert(cs@.subrange(0, cs@.len() as int) =~= s@);
    match time_at(cs.as_slice(), 0, cs.len()) {
        Some(v) => Ok(v),
        None => Err(Error::InvalidData(msg("invalid WebVTT time"))),
    }
}

/// The start and end of a timing line `cs[start..end]` (see [`webvtt_timing`]).
fn timing_at(cs: &[char], start: usize, end: usize) -> (r: Option<(u64, u64)>)
    requires start <= end <= cs@.len(),
    ensures r == webvtt_timing(cs@.subrange(start as int, end as int)),
{
    let ghost s = cs@.subrange(start as int, end as int);
    let a = find_arrow(cs, start, end);
    if a >= end {
        return None;
    }
    let b = find_arrow(cs, a + 3, end);
    proof {
        assert(s.skip(a - start + 3) =~= cs@.subrange(a + 3, end as int));
        assert(s.take(a - start) =~= cs@.subrange(start as int, a as int));
    }
    if b < end {
        return None;
    }
    let (x0, x1) = trim_indices(cs, start, a);
    let (y0, y1) = trim_indices(cs, a + 3, end);
    let w = first_word_end(cs, y0, y1);
    let x = time_at(cs, x0, x1);
    let y = time_at(cs, y0, w);
    match (x, y) {
        (Some(x), Some(y)) => Some((x, y)),
        _ => None,
    }
}

/// Remove WebVTT tags such as `<b>`, `</b>` or `<c.classname>` from text.
pub fn strip_webvtt_tags(text: &str) -> (r: String)
    ensures r@ == strip_tags(text@, '<', '>', false),
{
    let cs = chars_of(text);
    let out = strip_tags_exec(cs.as_slice(), '<', '>');
    string_of(out.as_slice())
}

/// Whether a line holds `-->`.
fn has_arrow(line: &Vec<char>) -> (r: bool)
    ensures r == first_arrow(line@) is Some,
{
    let a = find_arrow(line.as_slice(), 0, line.len());
    assert(line@.subrange(0, line@.len() as int) =~= line@);
    a < line.len()
}

/// WebVTT subtitle decoder: cues with timing, optional identifiers and text.
pub struct WebVttDecoder;

impl WebVttDecoder {
    /// A new WebVTT decoder.
    pub fn new() -> (r: Self)
        ensures true,
    {
        WebVttDecoder
    }
}

impl Default for WebVttDecoder {
    fn default() -> Self {
        WebVttDecoder
    }
}

impl SubtitleDecoder for WebVttDecoder {
    fn codec_id(&self) -> (r: CodecId)
        ensures r == CodecId::WebVtt,
    {
        CodecId::WebVtt
    }

    /// Decode WebVTT text: a "WEBVTT" header line and its block, then cues
    /// (see [`webvtt_cues`]).
    fn decode(&mut self, data: &[u8]) -> (r: Result<SubtitleFrame>)
        ensures
            r is Ok <==> webvtt_decode(data@) is Some,
            r is Err ==> r matches Err(Error::InvalidData(_)),
            r matches Ok(f) ==> frame_holds(f, webvtt_decode(data@)->0),
    {
        let text = match utf8_text(data) {
            Some(t) => t,
            None => { return Err(Error::InvalidData(msg("invalid UTF-8"))); }
        };
        let lines = lines_vec(text);
        let ghost ls = lines_view(lines@);
        let n = lines.len();
        if n == 0 {
            return Err(Error::InvalidData(msg("empty WebVTT file")));
        }
        let header = &lines[0];
        assert(ls[0] == header@);
        let mut h0: usize = 0;
        assert(header@.skip(0) =~= header@);
        while h0 < header.len() && header[h0] == '\u{FEFF}'
            invariant h0 <= header@.len(), strip_bom(header@.skip(h0 as int)) == strip_bom(header@),
            decreases header@.len() - h0,
        {
            assert(header@.skip(h0 as int).drop_first() =~= header@.skip(h0 + 1));
            h0 += 1;
        }
        assert(header@.skip(h0 as int) =~= header@.subrange(h0 as int, header@.len() as int));
        let magic: [char; 6] = ['W', 'E', 'B', 'V', 'T', 'T'];
        proof { reveal_strlit("WEBVTT"); assert(magic@ =~= "WEBVTT"@); }
        if !starts_with_exec(header.as_slice(), h0, header.len(), &magic) {
            return Err(Error::InvalidData(msg("missing WEBVTT header")));
        }
        assert(starts_with(strip_bom(ls[0]), "WEBVTT"@));
        let (_, start) = collect_cue_text(&lines, 1);
        proof { lemma_cue_text_next(ls, 1); }
        let mut entries: Vec<SubtitleEntry> = Vec::new();
        let mut i: usize = start;
        let ghost mut seen: Seq<Cue> = Seq::empty();
        while i < n
            invariant
                i <= n, n == lines@.len(), ls == lines_view(lines@), ls == text_lines(text@),
                text@ == vstd::utf8::decode_utf8(data@), vstd::utf8::valid_utf8(data@),
                ls.len() > 0, starts_with(strip_bom(ls[0]), "WEBVTT"@), start == cue_text(ls, 1).1,
                frame_holds(SubtitleFrame { entries }, seen),
                webvtt_cues(ls, start as int) == seen + webvtt_cues(ls, i as int),
            decreases n - i,
        {
            let ghost i0 = i;
            let mut j = i;
            while j < n && is_blank(&lines[j])
                invariant i0 <= j <= n, n == lines@.len(), ls == lines_view(lines@),
                    skip_blank(ls, i0 as int) == skip_blank(ls, j as int),
                decreases n - j,
            {
                assert(ls[j as int] == lines@[j as int]@);
                j += 1;
            }
            proof {
                if j < n { assert(ls[j as int] == lines@[j as int]@); }
                lemma_skip_blank(ls, i0 as int);
            }
            if j >= n {
                assert(webvtt_cues(ls, i as int) =~= Seq::<Cue>::empty());
                assert(seen + Seq::<Cue>::empty() =~= seen);
                return Ok(SubtitleFrame { entries });
            }
            let timing_index: Option<usize>;
            let after: usize;
            if has_arrow(&lines[j]) {
                timing_index = Some(j);
                after = j + 1;
            } else if j + 1 < n && has_arrow(&lines[j + 1]) {
                timing_index = Some(j + 1);
                after = j + 2;
            } else if j + 1 < n {
                timing_index = None;
                after = j + 2;
            } else {
                timing_index = None;
                after = j + 1;
            }
            proof { if j + 1 < n { assert(ls[j + 1] == lines@[j + 1]@); } }
            let timing = match timing_index {
                Some(t) => {
                    let tl = &lines[t];
                    assert(tl@.subrange(0, tl@.len() as int) =~= tl@);
                    timing_at(tl.as_slice(), 0, tl.len())
                }
                None => None,
            };
            match timing {
                None => {
                    i = after;
                }
                Some((start_ms, end_ms)) => {
                    let (cue, next) = collect_cue_text(&lines, after);
                    proof { lemma_cue_text_next(ls, after as int); }
                    if cue.len() > 0 {
                        let clean = strip_tags_exec(cue.as_slice(), '<', '>');
                        let ghost before = seen;
                        entries.push(SubtitleEntry { start_ms, end_ms, text: string_of(clean.as_slice()) });
                        proof {
                            let tl = cue_text(ls, after as int).0;
                            crate::codec::subtitle::lemma_join_nonempty(tl);
                            seen = seen.push((start_ms, end_ms, strip_tags(join_lines(tl), '<', '>', false)));
                            assert(before + (seq![(start_ms, end_ms, strip_tags(join_lines(tl), '<', '>', false))] + webvtt_cues(ls, next as int))
                                =~= seen + webvtt_cues(ls, next as int));
                        }
                    } else {
                        proof { crate::codec::subtitle::lemma_join_nonempty(cue_text(ls, after as int).0); }
                    }
                    i = next;
                }
            }
        }
        assert(webvtt_cues(ls, i as int) =~= Seq::<Cue>::empty());
        assert(seen + Seq::<Cue>::empty() =~= seen);
        Ok(SubtitleFrame { entries })
    }
}

} // verus!
