use vstd::prelude::*;
use crate::util::error::{Error, Result, msg};
use crate::util::text::{
    chars_of, utf8_text, lines_of, text_lines, trim, trim_indices, u64_of, parse_u64, split_pieces,
    first_index, lemma_first_index, find_char, split_arrow, first_arrow, find_arrow, join_lines,
    push_char, string_of, slice_range_vec, split_step, lemma_split_nonempty,
};
use crate::codec::codec::CodecId;

verus! {

/// A single subtitle entry with timing and text.
#[derive(Debug, Clone, PartialEq, Eq)]
pub struct SubtitleEntry {
    /// Start time in milliseconds.
    pub start_ms: u64,
    /// End time in milliseconds.
    pub end_ms: u64,
    /// The text content (may contain style tags for ASS/WebVTT).
    pub text: String,
}

/// A decoded subtitle frame containing one or more entries.
#[derive(Debug, Clone, Default)]
pub struct SubtitleFrame {
    pub entries: Vec<SubtitleEntry>,
}

/// An entry as values: start, end and text.
pub type Cue = (u64, u64, Seq<char>);

/// The frame holds the cues, one entry each, in order.
pub open spec fn frame_holds(f: SubtitleFrame, cues: Seq<Cue>) -> bool {
    &&& f.entries@.len() == cues.len()
    &&& forall|i: int| 0 <= i < cues.len() ==> (#[trigger] f.entries@[i]).start_ms == cues[i].0
        && f.entries@[i].end_ms == cues[i].1 && f.entries@[i].text@ == cues[i].2
}

/// A subtitle decoder.
pub trait SubtitleDecoder: Send {
    /// The codec this decoder handles.
    fn codec_id(&self) -> CodecId;

    /// Decode a packet of subtitle text into entries.
    fn decode(&mut self, data: &[u8]) -> Result<SubtitleFrame>;
}

/// Milliseconds of a clock time, wrapping at 2^64 as unchecked 64-bit
/// arithmetic does.
pub open spec fn clock_ms(h: u64, m: u64, s: u64, frac_ms: int) -> u64 {
    ((h * 3_600_000 + m * 60_000 + s * 1000 + frac_ms) % 0x1_0000_0000_0000_0000) as u64
}

pub(crate) fn clock_ms_exec(h: u64, m: u64, s: u64, frac_ms: u64) -> (r: u64)
    ensures r == clock_ms(h, m, s, frac_ms as int),
{
    let total: u128 = h as u128 * 3_600_000 + m as u128 * 60_000 + s as u128 * 1000 + frac_ms as u128;
    (total % 0x1_0000_0000_0000_0000) as u64
}

/// An SRT clock time `HH:MM:SS,mmm` (or with `.`): three colon-separated
/// parts; the last split at `.`, its second piece (if any) the milliseconds.
pub open spec fn srt_time(t: Seq<char>) -> Option<u64> {
    srt_time_parts(split_pieces(t.map_values(|c: char| if c == ',' { '.' } else { c }), ':'))
}

/// An SRT clock time from its colon-separated parts.
pub open spec fn srt_time_parts(parts: Seq<Seq<char>>) -> Option<u64> {
    if parts.len() != 3 {
        None
    } else {
        match (u64_of(parts[0]), u64_of(parts[1]), u64_of(split_pieces(parts[2], '.')[0])) {
            (Some(h), Some(m), Some(s)) => {
                let sp = split_pieces(parts[2], '.');
                if sp.len() > 1 {
                    match u64_of(sp[1]) {
                        Some(ms) => Some(clock_ms(h, m, s, ms as int)),
                        None => None,
                    }
                } else {
                    Some(clock_ms(h, m, s, 0))
                }
            }
            _ => None,
        }
    }
}

/// The start and end of an SRT timing line: two clock times around one `-->`.
pub open spec fn srt_timing(l: Seq<char>) -> Option<(u64, u64)> {
    match split_arrow(l) {
        Some((a, b)) => match (srt_time(trim(a)), srt_time(trim(b))) {
            (Some(x), Some(y)) => Some((x, y)),
            _ => None,
        },
        None => None,
    }
}

/// The text lines of a cue from line `k`: up to the first blank line (which
/// is consumed) or the end. Gives the lines and where reading resumes.
pub open spec fn cue_text(ls: Seq<Seq<char>>, k: int) -> (Seq<Seq<char>>, int)
    decreases ls.len() - k,
{
    if k < 0 || k >= ls.len() {
        (Seq::empty(), ls.len() as int)
    } else if trim(ls[k]).len() == 0 {
        (Seq::empty(), k + 1)
    } else {
        let (rest, next) = cue_text(ls, k + 1);
        (seq![ls[k]] + rest, next)
    }
}

pub proof fn lemma_cue_text_next(ls: Seq<Seq<char>>, k: int)
    requires 0 <= k <= ls.len(),
    ensures cue_text(ls, k).1 > k || (k == ls.len() && cue_text(ls, k).1 == ls.len()),
        cue_text(ls, k).1 <= ls.len(),
    decreases ls.len() - k,
{
    if k < ls.len() && trim(ls[k]).len() != 0 {
        lemma_cue_text_next(ls, k + 1);
    }
}

/// The SRT cues from line `i` on: a line that is a sequence number starts a
/// cue, the next line is its timing and the lines up to a blank line its
/// text; other lines are skipped; a cue without text gives no entry.
/// `None` when a timing line is malformed.
pub open spec fn srt_cues(ls: Seq<Seq<char>>, i: int) -> Option<Seq<Cue>>
    decreases ls.len() - i,
{
    if i < 0 || i >= ls.len() {
        Some(Seq::empty())
    } else if trim(ls[i]).len() == 0 || u64_of(trim(ls[i])) is None {
        srt_cues(ls, i + 1)
    } else if i + 1 >= ls.len() {
        Some(Seq::empty())
    } else {
        match srt_timing(trim(ls[i + 1])) {
            None => None,
            Some((s, e)) => {
                let (tl, next) = cue_text(ls, i + 2);
                proof { lemma_cue_text_next(ls, i + 2); }
                match srt_cues(ls, next) {
                    None => None,
                    Some(rest) => Some(if tl.len() > 0 { seq![(s, e, join_lines(tl))] + rest } else { rest }),
                }
            }
        }
    }
}

/// What decoding SRT bytes gives: `None` for invalid UTF-8 or a malformed
/// timing line.
pub open spec fn srt_decode(data: Seq<u8>) -> Option<Seq<Cue>> {
    if vstd::utf8::valid_utf8(data) { srt_cues(text_lines(vstd::utf8::decode_utf8(data)), 0) } else { None }
}

/// Seconds and optional fraction of `cs[start..end]`, the text of the
/// last clock part: the first two pieces of its split at `.`.
fn seconds_parts(cs: &[char], start: usize, end: usize) -> (r: (usize, usize))
    requires start <= end <= cs@.len(),
    ensures
        start <= r.0 <= end,
        split_pieces(cs@.subrange(start as int, end as int), '.')[0] == cs@.subrange(start as int, r.0 as int),
        r.0 == end <==> split_pieces(cs@.subrange(start as int, end as int), '.').len() == 1,
        r.0 < end ==> r.0 + 1 <= r.1 <= end
            && split_pieces(cs@.subrange(start as int, end as int), '.')[1] == cs@.subrange(r.0 + 1, r.1 as int),
{
    let d = split_step(cs, start, end, '.');
    if d >= end {
        return (d, d);
    }
    let e = split_step(cs, d + 1, end, '.');
    proof {
        lemma_split_nonempty(cs@.subrange(d + 1, end as int), '.');
        if e < end { lemma_split_nonempty(cs@.subrange(e + 1, end as int), '.'); }
    }
    (d, e)
}

/// The three colon-separated parts of `t`, if there are exactly three: the
/// two colons' positions.
fn three_parts(t: &[char]) -> (r: Option<(usize, usize)>)
    ensures
        r is None ==> split_pieces(t@, ':').len() != 3,
        r matches Some((a, b)) ==> a < b < t@.len() && split_pieces(t@, ':')
            == seq![t@.subrange(0, a as int), t@.subrange(a + 1, b as int), t@.subrange(b + 1, t@.len() as int)],
{
    let n = t.len();
    assert(t@.subrange(0, n as int) =~= t@);
    let a = split_step(t, 0, n, ':');
    if a >= n {
        return None;
    }
    let b = split_step(t, a + 1, n, ':');
    if b >= n {
        return None;
    }
    let c = split_step(t, b + 1, n, ':');
    if c < n {
        proof { lemma_split_nonempty(t@.subrange(c + 1, n as int), ':'); }
        return None;
    }
    Some((a, b))
}

/// An SRT clock time from text whose fraction separator is already `.`.
fn clock_from_parts(t: &[char]) -> (r: Option<u64>)
    ensures r == srt_time_parts(split_pieces(t@, ':')),
{
    let n = t.len();
    let (a, b) = match three_parts(t) {
        Some(p) => p,
        None => { return None; }
    };
    let h = parse_u64(t, 0, a);
    let m = parse_u64(t, a + 1, b);
    let (d, e) = seconds_parts(t, b + 1, n);
    let s = parse_u64(t, b + 1, d);
    match (h, m, s) {
        (Some(h), Some(m), Some(s)) => {
            if d < n {
                match parse_u64(t, d + 1, e) {
                    Some(ms) => Some(clock_ms_exec(h, m, s, ms)),
                    None => None,
                }
            } else {
                Some(clock_ms_exec(h, m, s, 0))
            }
        }
        _ => None,
    }
}

/// Parse an SRT clock time from `cs[start..end]` (see [`srt_time`]).
fn srt_time_at(cs: &[char], start: usize, end: usize) -> (r: Option<u64>)
    requires start <= end <= cs@.len(),
    ensures r == srt_time(cs@.subrange(start as int, end as int)),
{
    let mut t: Vec<char> = Vec::new();
    let mut i = start;
    while i < end
        invariant start <= i <= end, end <= cs@.len(),
            t@ == cs@.subrange(start as int, i as int).map_values(|c: char| if c == ',' { '.' } else { c }),
        decreases end - i,
    {
        let c = cs[i];
        t.push(if c == ',' { '.' } else { c });
        i += 1;
        assert(t@ =~= cs@.subrange(start as int, i as int).map_values(|c: char| if c == ',' { '.' } else { c }));
    }
    clock_from_parts(t.as_slice())
}

/// The start and end of a timing line `cs[start..end]` (see [`srt_timing`]).
fn srt_timing_at(cs: &[char], start: usize, end: usize) -> (r: Option<(u64, u64)>)
    requires start <= end <= cs@.len(),
    ensures r == srt_timing(cs@.subrange(start as int, end as int)),
{
    let ghost s = cs@.subrange(start as int, end as int);
    let a = find_arrow(cs, start, end);
    if a >= end {
        return None;
    }
    let b = find_arrow(cs, a + 3, end);
    proof {
        assert(s.skip(a - start + 3) =~= cs@.subrange(a + 3, end as int));
        assert(s.take(a - start) =~= cs@.subrange(start as int, a as int));
    }
    if b < end {
        return None;
    }
    let (x0, x1) = trim_indices(cs, start, a);
    let (y0, y1) = trim_indices(cs, a + 3, end);
    let x = srt_time_at(cs, x0, x1);
    let y = srt_time_at(cs, y0, y1);
    match (x, y) {
        (Some(x), Some(y)) => Some((x, y)),
        _ => None,
    }
}

/// Parse an SRT clock time `HH:MM:SS,mmm` (or with `.`) into milliseconds.
pub fn parse_srt_time(s: &str) -> (r: Result<u64>)
    ensures
        srt_time(s@) matches Some(v) ==> r == Ok::<u64, Error>(v),
        srt_time(s@) is None ==> r matches Err(Error::InvalidData(_)),
{
    let cs = chars_of(s);
    assert(cs@.subrange(0, cs@.len() as int) =~= s@);
    match srt_time_at(cs.as_slice(), 0, cs.len()) {
        Some(v) => Ok(v),
        None => Err(Error::InvalidData(msg("invalid SRT time"))),
    }
}

/// Parse an SRT timing line `start --> end` into its two times.
pub fn parse_srt_timing(line: &str) -> (r: Result<(u64, u64)>)
    ensures
        srt_timing(line@) matches Some(v) ==> r == Ok::<(u64, u64), Error>(v),
        srt_timing(line@) is None ==> r matches Err(Error::InvalidData(_)),
{
    let cs = chars_of(line);
    assert(cs@.subrange(0, cs@.len() as int) =~= line@);
    match srt_timing_at(cs.as_slice(), 0, cs.len()) {
        Some(v) => Ok(v),
        None => Err(Error::InvalidData(msg("invalid SRT timing"))),
    }
}

/// The views of a list of lines.
pub open spec fn lines_view(v: Seq<Vec<char>>) -> Seq<Seq<char>> {
    Seq::new(v.len(), |i: int| v[i]@)
}

/// Whether `line` is blank once trimmed.
pub(crate) fn is_blank(line: &Vec<char>) -> (r: bool)
    ensures r == (trim(line@).len() == 0),
{
    let (b, e) = trim_indices(line.as_slice(), 0, line.len());
    assert(line@.subrange(0, line@.len() as int) =~= line@);
    b == e
}

/// Collect the text lines of a cue from line `k` (see [`cue_text`]): the
/// lines joined with line feeds, and where reading resumes.
pub(crate) fn collect_cue_text(lines: &Vec<Vec<char>>, k: usize) -> (r: (Vec<char>, usize))
    requires k <= lines@.len(),
    ensures
        r.0@ == join_lines(cue_text(lines_view(lines@), k as int).0),
        r.1 == cue_text(lines_view(lines@), k as int).1,
{
    let ghost ls = lines_view(lines@);
    let mut text: Vec<char> = Vec::new();
    let mut j = k;
    let ghost mut acc: Seq<Seq<char>> = Seq::empty();
    while j < lines.len() && !is_blank(&lines[j])
        invariant
            k <= j <= lines@.len(), ls == lines_view(lines@),
            cue_text(ls, k as int) == (acc + cue_text(ls, j as int).0, cue_text(ls, j as int).1),
            text@ == join_lines(acc), acc.len() == j - k,
        decreases lines@.len() - j,
    {
        assert(ls[j as int] == lines@[j as int]@);
        let ghost before = acc;
        if j > k {
            text.push('\n');
        }
        let line = &lines[j];
        let mut q: usize = 0;
        let ghost base = text@;
        while q < line.len()
            invariant q <= line@.len(), text@ == base + line@.take(q as int),
            decreases line@.len() - q,
        {
            text.push(line[q]);
            q += 1;
            assert(text@ =~= base + line@.take(q as int));
        }
        proof {
            acc = acc.push(line@);
            assert(line@.take(q as int) =~= line@);
            assert(acc.drop_last() =~= before);
            if before.len() == 0 {
                assert(j == k);
                assert(text@ =~= join_lines(acc));
            } else {
                assert(j > k);
                assert(text@ =~= join_lines(acc));
            }
            assert(cue_text(ls, j as int).0 =~= seq![line@] + cue_text(ls, j + 1).0);
            assert(acc + cue_text(ls, j + 1).0 =~= before + cue_text(ls, j as int).0);
        }
        j += 1;
    }
    proof {
        assert(acc + Seq::<Seq<char>>::empty() =~= acc);
    }
    if j < lines.len() {
        (text, j + 1)
    } else {
        (text, j)
    }
}

/// SRT (SubRip) subtitle parser.
pub struct SrtDecoder;

impl SrtDecoder {
    /// A new SRT decoder.
    pub fn new() -> (r: Self)
        ensures true,
    {
        SrtDecoder
    }
}

impl Default for SrtDecoder {
    fn default() -> Self {
        SrtDecoder
    }
}

/// The views of the lines of a text.
pub(crate) fn lines_vec(text: &str) -> (r: Vec<Vec<char>>)
    ensures lines_view(r@) == text_lines(text@),
{
    let cs = chars_of(text);
    let r = lines_of(cs.as_slice());
    assert(lines_view(r@) =~= text_lines(text@));
    r
}

impl SubtitleDecoder for SrtDecoder {
    fn codec_id(&self) -> (r: CodecId)
        ensures r == CodecId::Srt,
    {
        CodecId::Srt
    }

    /// Decode SRT text: numbered cues, each a timing line and text lines up
    /// to a blank line (see [`srt_cues`]).
    fn decode(&mut self, data: &[u8]) -> (r: Result<SubtitleFrame>)
        ensures
            r is Ok <==> srt_decode(data@) is Some,
            r is Err ==> r matches Err(Error::InvalidData(_)),
            r matches Ok(f) ==> frame_holds(f, srt_decode(data@)->0),
    {
        let text = match utf8_text(data) {
            Some(t) => t,
            None => { return Err(Error::InvalidData(msg("invalid UTF-8"))); }
        };
        let lines = lines_vec(text);
        let ghost ls = lines_view(lines@);
        let n = lines.len();
        let mut entries: Vec<SubtitleEntry> = Vec::new();
        let mut i: usize = 0;
        let ghost mut seen: Seq<Cue> = Seq::empty();
        while i < n
            invariant
                i <= n, n == lines@.len(), ls == lines_view(lines@), ls == text_lines(text@),
                text@ == vstd::utf8::decode_utf8(data@), vstd::utf8::valid_utf8(data@),
                frame_holds(SubtitleFrame { entries }, seen),
                srt_cues(ls, 0) == match srt_cues(ls, i as int) {
                    Some(rest) => Some(seen + rest),
                    None => None::<Seq<Cue>>,
                },
            decreases n - i,
        {
            assert(ls[i as int] == lines@[i as int]@);
            let line = &lines[i];
            let (b, e) = trim_indices(line.as_slice(), 0, line.len());
            assert(line@.subrange(0, line@.len() as int) =~= line@);
            let number = if b < e { parse_u64(line.as_slice(), b, e) } else { None };
            if number.is_none() {
                i += 1;
                continue;
            }
            if i + 1 >= n {
                assert(srt_cues(ls, i as int) == Some(Seq::<Cue>::empty()));
                assert(seen + Seq::<Cue>::empty() =~= seen);
                return Ok(SubtitleFrame { entries });
            }
            let tline = &lines[i + 1];
            assert(ls[i + 1] == tline@);
            let (tb, te) = trim_indices(tline.as_slice(), 0, tline.len());
            assert(tline@.subrange(0, tline@.len() as int) =~= tline@);
            let (start_ms, end_ms) = match srt_timing_at(tline.as_slice(), tb, te) {
                Some(t) => t,
                None => { return Err(Error::InvalidData(msg("invalid SRT timing"))); }
            };
            let (cue, next) = collect_cue_text(&lines, i + 2);
            proof { lemma_cue_text_next(ls, i + 2); }
            if cue.len() > 0 {
                let ghost before = seen;
                entries.push(SubtitleEntry { start_ms, end_ms, text: string_of(cue.as_slice()) });
                proof {
                    let tl = cue_text(ls, i + 2).0;
                    lemma_join_nonempty(tl);
                    seen = seen.push((start_ms, end_ms, join_lines(tl)));
                    match srt_cues(ls, next as int) {
                        Some(rest) => { assert(before + (seq![(start_ms, end_ms, join_lines(tl))] + rest) =~= seen + rest); }
                        None => {}
                    }
                }
            } else {
                proof { lemma_join_nonempty(cue_text(ls, i + 2).0); }
            }
            i = next;
        }
        assert(srt_cues(ls, i as int) == Some(Seq::<Cue>::empty()));
        assert(seen + Seq::<Cue>::empty() =~= seen);
        Ok(SubtitleFrame { entries })
    }
}

/// Joined lines are empty only when there are no lines or one empty line.
pub(crate) proof fn lemma_join_nonempty(ls: Seq<Seq<char>>)
    ensures join_lines(ls).len() == 0 ==> ls.len() == 0 || (ls.len() == 1 && ls[0].len() == 0),
        ls.len() > 1 ==> join_lines(ls).len() > 0,
    decreases ls.len(),
{
    if ls.len() > 1 {
        lemma_join_nonempty(ls.drop_last());
    }
}

/// `s` without the tags between `open` and `close` (the marks included):
/// after `open` characters are dropped until a `close`.
pub open spec fn strip_tags(s: Seq<char>, open: char, close: char, in_tag: bool) -> Seq<char>
    decreases s.len(),
{
    if s.len() == 0 {
        Seq::empty()
    } else if s[0] == open {
        strip_tags(s.drop_first(), open, close, true)
    } else if s[0] == close {
        strip_tags(s.drop_first(), open, close, false)
    } else if in_tag {
        strip_tags(s.drop_first(), open, close, true)
    } else {
        seq![s[0]] + strip_tags(s.drop_first(), open, close, false)
    }
}

/// Drop tags from `cs` (see [`strip_tags`]).
pub fn strip_tags_exec(cs: &[char], open: char, close: char) -> (r: Vec<char>)
    ensures r@ == strip_tags(cs@, open, close, false),
{
    let mut out: Vec<char> = Vec::new();
    let mut in_tag = false;
    let mut i: usize = 0;
    assert(cs@.skip(0) =~= cs@);
    while i < cs.len()
        invariant i <= cs@.len(),
            out@ + strip_tags(cs@.skip(i as int), open, close, in_tag) == strip_tags(cs@, open, close, false),
        decreases cs.len() - i,
    {
        let c = cs[i];
        let ghost rest = cs@.skip(i as int);
        assert(rest.drop_first() =~= cs@.skip(i + 1));
        let ghost before = out@;
        if c == open {
            in_tag = true;
        } else if c == close {
            in_tag = false;
        } else if !in_tag {
            out.push(c);
            assert(before + (seq![c] + strip_tags(cs@.skip(i + 1), open, close, false)) =~= out@ + strip_tags(cs@.skip(i + 1), open, close, false));
        }
        i += 1;
    }
    assert(cs@.skip(i as int) =~= Seq::<char>::empty());
    assert(out@ + Seq::<char>::empty() =~= out@);
    out
}

/// Whether `s` begins with `p`.
pub open spec fn starts_with(s: Seq<char>, p: Seq<char>) -> bool {
    p.len() <= s.len() && s.take(p.len() as int) == p
}

/// Whether `cs[start..end]` begins with `p`.
pub fn starts_with_exec(cs: &[char], start: usize, end: usize, p: &[char]) -> (r: bool)
    requires start <= end <= cs@.len(),
    ensures r == starts_with(cs@.subrange(start as int, end as int), p@),
{
    if p.len() > end - start {
        return false;
    }
    let mut k: usize = 0;
    while k < p.len()
        invariant k <= p@.len(), p@.len() <= end - start, end <= cs@.len(),
            forall|j: int| 0 <= j < k ==> cs@[start + j] == p@[j],
        decreases p.len() - k,
    {
        if cs[start + k] != p[k] {
            assert(cs@.subrange(start as int, end as int).take(p@.len() as int)[k as int] != p@[k as int]);
            return false;
        }
        k += 1;
    }
    assert(cs@.subrange(start as int, end as int).take(p@.len() as int) =~= p@);
    true
}

} // verus!
