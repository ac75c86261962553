use vstd::prelude::*;
use crate::util::error::{Error, Result, msg};
use crate::util::text::{
    chars_of, utf8_text, trim, trim_indices, u64_of, parse_u64, split_pieces, first_index, string_of,
    split_step, lemma_split_nonempty, text_lines,
};
use crate::codec::codec::CodecId;
use crate::codec::subtitle::{
    SubtitleDecoder, SubtitleEntry, SubtitleFrame, Cue, frame_holds, clock_ms, clock_ms_exec,
    lines_view, strip_tags, strip_tags_exec, starts_with, starts_with_exec, lines_vec,
};

verus! {

/// The pieces of `s` between the first `n - 1` occurrences of `c` (what
/// `str::splitn` gives): the last piece keeps any further `c`.
pub open spec fn splitn_pieces(s: Seq<char>, c: char, n: nat) -> Seq<Seq<char>>
    decreases n,
{
    if n <= 1 {
        seq![s]
    } else {
        match first_index(s, c) {
            Some(i) => {
                if i < s.len() { seq![s.take(i as int)] + splitn_pieces(s.skip(i as int + 1), c, (n - 1) as nat) }
                else { seq![s] }
            }
            None => seq![s],
        }
    }
}

/// `s` with each `\` followed by `x` replaced by a line feed, scanning from
/// the left without overlap (what `str::replace` does).
pub open spec fn replace_escape(s: Seq<char>, x: char) -> Seq<char>
    decreases s.len(),
{
    if s.len() == 0 {
        Seq::empty()
    } else if s.len() >= 2 && s[0] == '\\' && s[1] == x {
        seq!['\n'] + replace_escape(s.skip(2), x)
    } else {
        seq![s[0]] + replace_escape(s.drop_first(), x)
    }
}

/// An ASS clock time `H:MM:SS.cc`: the fraction is centiseconds, read as
/// its first two characters, or its one character followed by a zero.
pub open spec fn ass_time(s: Seq<char>) -> Option<u64> {
    let parts = split_pieces(s, ':');
    if parts.len() != 3 {
        None
    } else {
        let sp = split_pieces(parts[2], '.');
        match (u64_of(parts[0]), u64_of(parts[1]), u64_of(sp[0])) {
            (Some(h), Some(m), Some(sec)) => {
                if sp.len() > 1 {
                    let x = sp[1];
                    let digits = if x.len() == 1 { x + seq!['0'] } else { x.take(if x.len() < 2 { x.len() as int } else { 2 }) };
                    match u64_of(digits) {
                        Some(cs) => Some(clock_ms(h, m, sec, cs * 10)),
                        None => None,
                    }
                } else {
                    Some(clock_ms(h, m, sec, 0))
                }
            }
            _ => None,
        }
    }
}

/// An ASS dialogue line after its `Dialogue:` prefix: ten comma-separated
/// fields, the second and third the start and end times, the last the
/// text; override tags `{...}` are removed and `\N`, `\n` become line feeds.
pub open spec fn dialogue(line: Seq<char>) -> Option<Cue> {
    let parts = splitn_pieces(line, ',', 10);
    if parts.len() < 10 {
        None
    } else {
        match (ass_time(trim(parts[1])), ass_time(trim(parts[2]))) {
            (Some(s), Some(e)) => Some((s, e,
                replace_escape(replace_escape(strip_tags(parts[9], '{', '}', false), 'N'), 'n'))),
            _ => None,
        }
    }
}

/// The cue of a line: a trimmed line starting with `Dialogue:` whose rest,
/// trimmed, is a well-formed dialogue.
pub open spec fn ass_line(l: Seq<char>) -> Option<Cue> {
    let t = trim(l);
    if starts_with(t, "Dialogue:"@) { dialogue(trim(t.skip(9))) } else { None }
}

/// The cues of lines `i` on.
pub open spec fn ass_cues(ls: Seq<Seq<char>>, i: int) -> Seq<Cue>
    decreases ls.len() - i,
{
    if i < 0 || i >= ls.len() {
        Seq::empty()
    } else {
        match ass_line(ls[i]) {
            Some(c) => seq![c] + ass_cues(ls, i + 1),
            None => ass_cues(ls, i + 1),
        }
    }
}

/// What decoding ASS bytes gives: `None` for invalid UTF-8.
pub open spec fn ass_decode(data: Seq<u8>) -> Option<Seq<Cue>> {
    if vstd::utf8::valid_utf8(data) { Some(ass_cues(text_lines(vstd::utf8::decode_utf8(data)), 0)) } else { None }
}

/// A clock time from `cs[start..end]` (see [`ass_time`]).
fn ass_time_at(cs: &[char], start: usize, end: usize) -> (r: Option<u64>)
    requires start <= end <= cs@.len(),
    ensures r == ass_time(cs@.subrange(start as int, end as int)),
{
    let a = split_step(cs, start, end, ':');
    if a >= end {
        return None;
    }
    let b = split_step(cs, a + 1, end, ':');
    if b >= end {
        proof { lemma_split_nonempty(cs@.subrange(a + 1, end as int), ':'); }
        return None;
    }
    let c = split_step(cs, b + 1, end, ':');
    if c < end {
        proof { lemma_split_nonempty(cs@.subrange(c + 1, end as int), ':'); }
        return None;
    }
    let h = parse_u64(cs, start, a);
    let m = parse_u64(cs, a + 1, b);
    let d = split_step(cs, b + 1, end, '.');
    proof { lemma_split_nonempty(cs@.subrange(b + 1, end as int), '.'); }
    let sec = parse_u64(cs, b + 1, d);
    match (h, m, sec) {
        (Some(h), Some(m), Some(sec)) => {
            if d < end {
                let e = split_step(cs, d + 1, end, '.');
                proof { if e < end { lemma_split_nonempty(cs@.subrange(e + 1, end as int), '.'); } }
                let len = e - (d + 1);
                let mut digits: Vec<char> = Vec::new();
                if len == 1 {
                    digits.push(cs[d + 1]);
                    digits.push('0');
                    proof { assert(digits@ =~= cs@.subrange(d + 1, e as int) + seq!['0']); }
                } else {
                    let take = if len < 2 { len } else { 2 };
                    let mut k: usize = 0;
                    while k < take
                        invariant k <= take, take <= len, len == e - (d + 1), e <= cs@.len(),
                            digits@ == cs@.subrange(d + 1, d + 1 + k),
                        decreases take - k,
                    {
                        digits.push(cs[d + 1 + k]);
                        k += 1;
                        assert(digits@ =~= cs@.subrange(d + 1, d + 1 + k));
                    }
                    proof { assert(digits@ =~= cs@.subrange(d + 1, e as int).take(take as int)); }
                }
                let n = digits.len();
                proof { assert(digits@.subrange(0, n as int) =~= digits@); }
                match parse_u64(digits.as_slice(), 0, n) {
                    Some(cs_val) => {
                        proof {
                            assert(cs_val <= 99) by {
                                assert(digits@.len() <= 2);
                                crate::util::text::lemma_small_u64(digits@);
                            }
                        }
                        Some(clock_ms_exec(h, m, sec, cs_val * 10))
                    }
                    None => None,
                }
            } else {
                Some(clock_ms_exec(h, m, sec, 0))
            }
        }
        _ => None,
    }
}

/// Parse an ASS clock time `H:MM:SS.cc` into milliseconds.
pub fn parse_ass_time(s: &str) -> (r: Result<u64>)
    ensures
        ass_time(s@) matches Some(v) ==> r == Ok::<u64, Error>(v),
        ass_time(s@) is None ==> r matches Err(Error::InvalidData(_)),
{
    let cs = chars_of(s);
    assert(cs@.subrange(0, cs@.len() as int) =~= s@);
    match ass_time_at(cs.as_slice(), 0, cs.len()) {
        Some(v) => Ok(v),
        None => Err(Error::InvalidData(msg("invalid ASS time"))),
    }
}

/// Remove ASS override tags `{...}` from text.
pub fn strip_ass_tags(text: &str) -> (r: String)
    ensures r@ == strip_tags(text@, '{', '}', false),
{
    let cs = chars_of(text);
    let out = strip_tags_exec(cs.as_slice(), '{', '}');
    string_of(out.as_slice())
}

fn replace_escape_exec(cs: &[char], x: char) -> (r: Vec<char>)
    ensures r@ == replace_escape(cs@, x),
{
    let mut out: Vec<char> = Vec::new();
    let mut i: usize = 0;
    assert(cs@.skip(0) =~= cs@);
    while i < cs.len()
        invariant i <= cs@.len(), out@ + replace_escape(cs@.skip(i as int), x) == replace_escape(cs@, x),
        decreases cs.len() - i,
    {
        let ghost rest = cs@.skip(i as int);
        let ghost before = out@;
        if i + 1 < cs.len() && cs[i] == '\\' && cs[i + 1] == x {
            out.push('\n');
            assert(rest.skip(2) =~= cs@.skip(i + 2));
            assert(before + (seq!['\n'] + replace_escape(cs@.skip(i + 2), x)) =~= out@ + replace_escape(cs@.skip(i + 2), x));
            i += 2;
        } else {
            out.push(cs[i]);
            assert(rest.drop_first() =~= cs@.skip(i + 1));
            assert(before + (seq![cs@[i as int]] + replace_escape(cs@.skip(i + 1), x)) =~= out@ + replace_escape(cs@.skip(i + 1), x));
            i += 1;
        }
    }
    assert(cs@.skip(i as int) =~= Seq::<char>::empty());
    assert(out@ + Seq::<char>::empty() =~= out@);
    out
}

/// The cue of a dialogue `cs[start..end]` (see [`dialogue`]).
fn dialogue_at(cs: &[char], start: usize, end: usize) -> (r: Option<(u64, u64, Vec<char>)>)
    requires start <= end <= cs@.len(),
    ensures
        r is Some <==> dialogue(cs@.subrange(start as int, end as int)) is Some,
        r matches Some(t) ==> dialogue(cs@.subrange(start as int, end as int)) == Some((t.0, t.1, t.2@)),
{
    let ghost s = cs@.subrange(start as int, end as int);
    let mut bounds: Vec<usize> = Vec::new();
    let mut pos = start;
    let mut k: usize = 0;
    while k < 9
        invariant
            k <= 9, start <= pos <= end, end <= cs@.len(), bounds@.len() == k,
            s == cs@.subrange(start as int, end as int),
            forall|j: int| 0 <= j < k ==> start <= #[trigger] bounds@[j] < end,
            forall|j: int| 0 < j < k ==> bounds@[j - 1] < #[trigger] bounds@[j],
            k > 0 ==> pos == bounds@[k - 1] + 1,
            k == 0 ==> pos == start,
            splitn_pieces(s, ',', 10) == Seq::new(k as nat, |j: int| if j == 0 { cs@.subrange(start as int, bounds@[0] as int) }
                    else { cs@.subrange(bounds@[j - 1] + 1, bounds@[j] as int) })
                + splitn_pieces(cs@.subrange(pos as int, end as int), ',', (10 - k) as nat),
        decreases 9 - k,
    {
        let c = split_step(cs, pos, end, ',');
        if c >= end {
            proof {
                let rest = cs@.subrange(pos as int, end as int);
                crate::util::text::lemma_first_index(rest, ',', rest.len() as int);
                assert(splitn_pieces(rest, ',', (10 - k) as nat) == seq![rest]);
                assert(splitn_pieces(s, ',', 10).len() == k + 1);
            }
            return None;
        }
        proof {
            let rest = cs@.subrange(pos as int, end as int);
            crate::util::text::lemma_first_index(rest, ',', c - pos);
            assert(rest.take(c - pos) =~= cs@.subrange(pos as int, c as int));
            assert(rest.skip(c - pos + 1) =~= cs@.subrange(c + 1, end as int));
        }
        bounds.push(c);
        proof {
            let old_pieces = Seq::new(k as nat, |j: int| if j == 0 { cs@.subrange(start as int, bounds@[0] as int) }
                    else { cs@.subrange(bounds@[j - 1] + 1, bounds@[j] as int) });
            let new_pieces = Seq::new((k + 1) as nat, |j: int| if j == 0 { cs@.subrange(start as int, bounds@[0] as int) }
                    else { cs@.subrange(bounds@[j - 1] + 1, bounds@[j] as int) });
            assert(new_pieces =~= old_pieces.push(cs@.subrange(pos as int, c as int)));
        }
        pos = c + 1;
        k += 1;
    }
    proof {
        assert(splitn_pieces(cs@.subrange(pos as int, end as int), ',', 1) == seq![cs@.subrange(pos as int, end as int)]);
    }
    let b0 = bounds[0];
    let b1 = bounds[1];
    let b2 = bounds[2];
    let (s0, s1) = trim_indices(cs, b0 + 1, b1);
    let (e0, e1) = trim_indices(cs, b1 + 1, b2);
    let st = ass_time_at(cs, s0, s1);
    let en = ass_time_at(cs, e0, e1);
    match (st, en) {
        (Some(st), Some(en)) => {
            let mut raw: Vec<char> = Vec::new();
            let mut q = pos;
            while q < end
                invariant pos <= q <= end, end <= cs@.len(), raw@ == cs@.subrange(pos as int, q as int),
                decreases end - q,
            {
                raw.push(cs[q]);
                q += 1;
                assert(raw@ =~= cs@.subrange(pos as int, q as int));
            }
            let stripped = strip_tags_exec(raw.as_slice(), '{', '}');
            let t1 = replace_escape_exec(stripped.as_slice(), 'N');
            let t2 = replace_escape_exec(t1.as_slice(), 'n');
            Some((st, en, t2))
        }
        _ => None,
    }
}

/// Parse an ASS dialogue line (the text after `Dialogue:`).
pub fn parse_dialogue_line(line: &str) -> (r: Result<SubtitleEntry>)
    ensures
        dialogue(line@) matches Some(c) ==> r matches Ok(e) && e.start_ms == c.0 && e.end_ms == c.1 && e.text@ == c.2,
        dialogue(line@) is None ==> r matches Err(Error::InvalidData(_)),
{
    let cs = chars_of(line);
    assert(cs@.subrange(0, cs@.len() as int) =~= line@);
    match dialogue_at(cs.as_slice(), 0, cs.len()) {
        Some((s, e, t)) => Ok(SubtitleEntry { start_ms: s, end_ms: e, text: string_of(t.as_slice()) }),
        None => Err(Error::InvalidData(msg("malformed ASS dialogue"))),
    }
}

/// ASS/SSA subtitle decoder: the timing and text of `Dialogue:` lines.
pub struct AssDecoder;

impl AssDecoder {
    /// A new ASS decoder.
    pub fn new() -> (r: Self)
        ensures true,
    {
        AssDecoder
    }
}

impl Default for AssDecoder {
    fn default() -> Self {
        AssDecoder
    }
}

impl SubtitleDecoder for AssDecoder {
    fn codec_id(&self) -> (r: CodecId)
        ensures r == CodecId::Ass,
    {
        CodecId::Ass
    }

    /// Decode ASS text: one entry per well-formed `Dialogue:` line.
    fn decode(&mut self, data: &[u8]) -> (r: Result<SubtitleFrame>)
        ensures
            r is Ok <==> ass_decode(data@) is Some,
            r is Err ==> r matches Err(Error::InvalidData(_)),
            r matches Ok(f) ==> frame_holds(f, ass_decode(data@)->0),
    {
        let text = match utf8_text(data) {
            Some(t) => t,
            None => { return Err(Error::InvalidData(msg("invalid UTF-8"))); }
        };
        let lines = lines_vec(text);
        let ghost ls = lines_view(lines@);
        let n = lines.len();
        let prefix: [char; 9] = ['D', 'i', 'a', 'l', 'o', 'g', 'u', 'e', ':'];
        proof { reveal_strlit("Dialogue:"); assert(prefix@ =~= "Dialogue:"@); }
        let mut entries: Vec<SubtitleEntry> = Vec::new();
        let mut i: usize = 0;
        let ghost mut seen: Seq<Cue> = Seq::empty();
        while i < n
            invariant
                i <= n, n == lines@.len(), ls == lines_view(lines@), ls == text_lines(text@),
                text@ == vstd::utf8::decode_utf8(data@), vstd::utf8::valid_utf8(data@),
                prefix@ == "Dialogue:"@,
                frame_holds(SubtitleFrame { entries }, seen),
                ass_cues(ls, 0) == seen + ass_cues(ls, i as int),
            decreases n - i,
        {
            let line = &lines[i];
            assert(ls[i as int] == line@);
            assert(line@.subrange(0, line@.len() as int) =~= line@);
            let (b, e) = trim_indices(line.as_slice(), 0, line.len());
            if starts_with_exec(line.as_slice(), b, e, &prefix) {
                let (d0, d1) = trim_indices(line.as_slice(), b + 9, e);
                proof {
                    let t = line@.subrange(b as int, e as int);
                    assert(t.skip(9) =~= line@.subrange(b + 9, e as int));
                }
                match dialogue_at(line.as_slice(), d0, d1) {
                    Some((s, en, t)) => {
                        let ghost before = seen;
                        entries.push(SubtitleEntry { start_ms: s, end_ms: en, text: string_of(t.as_slice()) });
                        proof {
                            seen = seen.push((s, en, t@));
                            assert(before + (seq![(s, en, t@)] + ass_cues(ls, i + 1)) =~= seen + ass_cues(ls, i + 1));
                        }
                    }
                    None => {}
                }
            }
            i += 1;
        }
        assert(ass_cues(ls, i as int) =~= Seq::<Cue>::empty());
        assert(seen + Seq::<Cue>::empty() =~= seen);
        Ok(SubtitleFrame { entries })
    }
}

} // verus!
