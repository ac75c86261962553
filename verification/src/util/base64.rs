use vstd::prelude::*;
use crate::util::error::{Error, Result, msg};
use crate::util::text::{chars_of, string_of};

verus! {

/// The Base64 alphabet: the character for a 6-bit value.
pub open spec fn b64_char(x: u8) -> char {
    if x < 26 { (65 + x) as char }
    else if x < 52 { (97 + (x - 26)) as char }
    else if x < 62 { (48 + (x - 52)) as char }
    else if x == 62 { '+' }
    else { '/' }
}

/// The 6-bit value of an alphabet character, if it is one.
pub open spec fn b64_value(c: char) -> Option<u8> {
    if 'A' <= c <= 'Z' { Some((c as u32 - 65) as u8) }
    else if 'a' <= c <= 'z' { Some((c as u32 - 97 + 26) as u8) }
    else if '0' <= c <= '9' { Some((c as u32 - 48 + 52) as u8) }
    else if c == '+' { Some(62u8) }
    else if c == '/' { Some(63u8) }
    else { None }
}

/// The whitespace that decoding skips.
pub open spec fn b64_skipped(c: char) -> bool {
    c == ' ' || c == '\n' || c == '\r' || c == '\t'
}

/// The four 6-bit values of a full group of three bytes.
pub open spec fn sextet0(b0: u8) -> u8 { b0 >> 2 }
pub open spec fn sextet1(b0: u8, b1: u8) -> u8 { ((b0 & 3) << 4) | (b1 >> 4) }
pub open spec fn sextet2(b1: u8, b2: u8) -> u8 { ((b1 & 15) << 2) | (b2 >> 6) }
pub open spec fn sextet3(b2: u8) -> u8 { b2 & 63 }

/// Base64 text of `d`: each group of three bytes becomes four characters; a
/// last group of one or two bytes is padded with `=` to four characters.
pub open spec fn b64_encode(d: Seq<u8>) -> Seq<char>
    decreases d.len(),
{
    if d.len() == 0 {
        Seq::empty()
    } else if d.len() == 1 {
        seq![b64_char(sextet0(d[0])), b64_char(sextet1(d[0], 0)), '=', '=']
    } else if d.len() == 2 {
        seq![b64_char(sextet0(d[0])), b64_char(sextet1(d[0], d[1])), b64_char(sextet2(d[1], 0)), '=']
    } else {
        seq![b64_char(sextet0(d[0])), b64_char(sextet1(d[0], d[1])), b64_char(sextet2(d[1], d[2])),
            b64_char(sextet3(d[2]))] + b64_encode(d.skip(3))
    }
}

/// `s` without its trailing `=` characters.
pub open spec fn trim_padding(s: Seq<char>) -> Seq<char>
    decreases s.len(),
{
    if s.len() > 0 && s.last() == '=' { trim_padding(s.drop_last()) } else { s }
}

/// The 6-bit values of the alphabet characters of `s`, skipping whitespace;
/// `None` when `s` holds any other character.
pub open spec fn b64_sextets(s: Seq<char>) -> Option<Seq<u8>>
    decreases s.len(),
{
    if s.len() == 0 {
        Some(Seq::empty())
    } else if b64_skipped(s[0]) {
        b64_sextets(s.drop_first())
    } else {
        match (b64_value(s[0]), b64_sextets(s.drop_first())) {
            (Some(v), Some(rest)) => Some(seq![v] + rest),
            _ => None,
        }
    }
}

/// Bytes from 6-bit values: four values give three bytes; a last group of
/// three gives two, of two gives one, of one gives none.
pub open spec fn b64_bytes(v: Seq<u8>) -> Seq<u8>
    decreases v.len(),
{
    if v.len() <= 1 {
        Seq::empty()
    } else if v.len() == 2 {
        seq![(v[0] << 2) | (v[1] >> 4)]
    } else if v.len() == 3 {
        seq![(v[0] << 2) | (v[1] >> 4), (v[1] << 4) | (v[2] >> 2)]
    } else {
        seq![(v[0] << 2) | (v[1] >> 4), (v[1] << 4) | (v[2] >> 2), (v[2] << 6) | v[3]]
            + b64_bytes(v.skip(4))
    }
}

/// What decoding `s` gives: `None` when `s` holds a character that is neither
/// of the alphabet nor skipped whitespace, after trailing `=` are removed.
pub open spec fn b64_decode(s: Seq<char>) -> Option<Seq<u8>> {
    match b64_sextets(trim_padding(s)) {
        Some(v) => Some(b64_bytes(v)),
        None => None,
    }
}

fn alphabet(x: u8) -> (c: char)
    requires x < 64,
    ensures c == b64_char(x),
{
    if x < 26 { (65u8 + x) as char }
    else if x < 52 { (97u8 + (x - 26)) as char }
    else if x < 62 { (48u8 + (x - 52)) as char }
    else if x == 62 { '+' }
    else { '/' }
}

proof fn lemma_sextets_small(b0: u8, b1: u8, b2: u8)
    ensures
        sextet0(b0) < 64, sextet1(b0, b1) < 64, sextet2(b1, b2) < 64, sextet3(b2) < 64,
{
    assert(b0 >> 2 < 64) by (bit_vector);
    assert(((b0 & 3) << 4) | (b1 >> 4) < 64) by (bit_vector);
    assert(((b1 & 15) << 2) | (b2 >> 6) < 64) by (bit_vector);
    assert(b2 & 63 < 64) by (bit_vector);
}

/// Encode bytes to Base64 text.
pub fn encode(data: &[u8]) -> (r: String)
    ensures r@ == b64_encode(data@),
{
    let mut out: Vec<char> = Vec::new();
    let mut i: usize = 0;
    assert(data@.skip(0) =~= data@);
    assert(out@ + b64_encode(data@) =~= b64_encode(data@));
    while i < data.len()
        invariant
            i <= data@.len(),
            out@ + b64_encode(data@.skip(i as int)) == b64_encode(data@),
        decreases data.len() - i,
    {
        let rest = data.len() - i;
        let b0 = data[i];
        let b1: u8 = if rest > 1 { data[i + 1] } else { 0 };
        let b2: u8 = if rest > 2 { data[i + 2] } else { 0 };
        proof { lemma_sextets_small(b0, b1, b2); }
        let ghost before = out@;
        let ghost tail = data@.skip(i as int);
        out.push(alphabet(b0 >> 2));
        out.push(alphabet(((b0 & 3) << 4) | (b1 >> 4)));
        if rest > 1 {
            out.push(alphabet(((b1 & 15) << 2) | (b2 >> 6)));
        } else {
            out.push('=');
        }
        if rest > 2 {
            out.push(alphabet(b2 & 63));
        } else {
            out.push('=');
        }
        let step: usize = if rest > 3 { 3 } else { rest };
        proof {
            if rest > 2 {
                assert(tail.skip(3) =~= data@.skip(i + 3));
            } else {
                assert(data@.skip(i + step) =~= Seq::<u8>::empty());
            }
            assert(out@ =~= before + b64_encode(tail).subrange(0, 4));
            assert(b64_encode(tail) =~= b64_encode(tail).subrange(0, 4) + b64_encode(data@.skip(i + step)));
        }
        i += step;
    }
    assert(data@.skip(i as int) =~= Seq::<u8>::empty());
    assert(out@ =~= b64_encode(data@));
    string_of(out.as_slice())
}

fn value_of(c: char) -> (r: Option<u8>)
    ensures r == b64_value(c),
{
    if 'A' <= c && c <= 'Z' { Some((c as u32 - 65) as u8) }
    else if 'a' <= c && c <= 'z' { Some((c as u32 - 97 + 26) as u8) }
    else if '0' <= c && c <= '9' { Some((c as u32 - 48 + 52) as u8) }
    else if c == '+' { Some(62u8) }
    else if c == '/' { Some(63u8) }
    else { None }
}

/// Prefixes `p` to the sequence that `o` holds, if any.
pub open spec fn prepend(p: Seq<u8>, o: Option<Seq<u8>>) -> Option<Seq<u8>> {
    match o {
        Some(r) => Some(p + r),
        None => None,
    }
}

/// Decode Base64 text to bytes; fails on a character that is neither of the
/// alphabet nor whitespace (space, tab, CR, LF), trailing `=` aside.
pub fn decode(input: &str) -> (r: Result<Vec<u8>>)
    ensures
        r is Err <==> b64_decode(input@) is None,
        r is Err ==> r matches Err(Error::InvalidData(_)),
        r matches Ok(v) ==> b64_decode(input@) == Some(v@),
{
    let cs = chars_of(input);
    let mut end = cs.len();
    assert(cs@.take(end as int) =~= cs@);
    while end > 0 && cs[end - 1] == '='
        invariant
            end <= cs@.len(),
            trim_padding(cs@.take(end as int)) == trim_padding(cs@),
        decreases end,
    {
        assert(cs@.take(end as int).drop_last() =~= cs@.take(end - 1));
        end -= 1;
    }
    let ghost t = cs@.take(end as int);
    assert(trim_padding(t) == t);
    assert(trim_padding(input@) == t);
    let mut vals: Vec<u8> = Vec::new();
    let mut i: usize = 0;
    assert(t.skip(0) =~= t);
    proof {
        match b64_sextets(t) {
            Some(x) => { assert(vals@ + x =~= x); }
            None => {}
        }
    }
    while i < end
        invariant
            end <= cs@.len(), i <= end, t == cs@.take(end as int), trim_padding(input@) == t,
            b64_sextets(t) == prepend(vals@, b64_sextets(t.skip(i as int))),
            forall|k: int| 0 <= k < vals@.len() ==> #[trigger] vals@[k] < 64,
        decreases end - i,
    {
        let c = cs[i];
        let ghost rest = t.skip(i as int);
        assert(rest.drop_first() =~= t.skip(i + 1));
        assert(rest[0] == c);
        if c == ' ' || c == '\n' || c == '\r' || c == '\t' {
        } else {
            match value_of(c) {
                Some(v) => {
                    let ghost before = vals@;
                    vals.push(v);
                    proof {
                        match b64_sextets(t.skip(i + 1)) {
                            Some(tail) => { assert(before + (seq![v] + tail) =~= vals@ + tail); }
                            None => {}
                        }
                    }
                }
                None => {
                    return Err(Error::InvalidData(msg("invalid base64 char")));
                }
            }
        }
        i += 1;
    }
    assert(t.skip(end as int) =~= Seq::<char>::empty());
    assert(vals@ + Seq::<u8>::empty() =~= vals@);
    let mut out: Vec<u8> = Vec::new();
    let mut k: usize = 0;
    assert(vals@.skip(0) =~= vals@);
    assert(out@ + b64_bytes(vals@) =~= b64_bytes(vals@));
    while k < vals.len()
        invariant
            k <= vals@.len(),
            b64_bytes(vals@) == out@ + b64_bytes(vals@.skip(k as int)),
        decreases vals.len() - k,
    {
        let rest = vals.len() - k;
        if rest == 1 {
            assert(vals@.skip(k + 1) =~= Seq::<u8>::empty());
            k += 1;
        } else {
            let ghost tail = vals@.skip(k as int);
            let ghost before = out@;
            let v0 = vals[k];
            let v1 = vals[k + 1];
            out.push((v0 << 2) | (v1 >> 4));
            if rest >= 3 {
                let v2 = vals[k + 2];
                out.push((v1 << 4) | (v2 >> 2));
                if rest >= 4 {
                    let v3 = vals[k + 3];
                    out.push((v2 << 6) | v3);
                }
            }
            let step: usize = if rest >= 4 { 4 } else { rest };
            proof {
                if rest >= 4 {
                    assert(tail.skip(4) =~= vals@.skip(k + 4));
                    assert(out@ =~= before + b64_bytes(tail).subrange(0, 3));
                    assert(b64_bytes(tail) =~= b64_bytes(tail).subrange(0, 3) + b64_bytes(vals@.skip(k + step)));
                } else {
                    assert(vals@.skip(k + step) =~= Seq::<u8>::empty());
                    assert(out@ =~= before + b64_bytes(tail));
                }
            }
            k += step;
        }
    }
    assert(vals@.skip(k as int) =~= Seq::<u8>::empty());
    assert(out@ =~= b64_bytes(vals@));
    Ok(out)
}

/// The 6-bit values that encoding `d` writes, padding aside.
pub open spec fn b64_sextets_of(d: Seq<u8>) -> Seq<u8>
    decreases d.len(),
{
    if d.len() == 0 {
        Seq::empty()
    } else if d.len() == 1 {
        seq![sextet0(d[0]), sextet1(d[0], 0)]
    } else if d.len() == 2 {
        seq![sextet0(d[0]), sextet1(d[0], d[1]), sextet2(d[1], 0)]
    } else {
        seq![sextet0(d[0]), sextet1(d[0], d[1]), sextet2(d[1], d[2]), sextet3(d[2])]
            + b64_sextets_of(d.skip(3))
    }
}

/// The `=` characters that end the text of `n` bytes.
pub open spec fn b64_padding(n: nat) -> Seq<char> {
    if n % 3 == 1 { seq!['=', '='] } else if n % 3 == 2 { seq!['='] } else { Seq::empty() }
}

proof fn lemma_sextets_of_small(d: Seq<u8>)
    ensures forall|k: int| 0 <= k < b64_sextets_of(d).len() ==> #[trigger] b64_sextets_of(d)[k] < 64,
    decreases d.len(),
{
    if d.len() == 0 {
    } else if d.len() == 1 {
        lemma_sextets_small(d[0], 0, 0);
    } else if d.len() == 2 {
        lemma_sextets_small(d[0], d[1], 0);
    } else {
        lemma_sextets_small(d[0], d[1], d[2]);
        lemma_sextets_of_small(d.skip(3));
        let head = seq![sextet0(d[0]), sextet1(d[0], d[1]), sextet2(d[1], d[2]), sextet3(d[2])];
        let rest = b64_sextets_of(d.skip(3));
        assert forall|k: int| 0 <= k < b64_sextets_of(d).len() implies #[trigger] b64_sextets_of(d)[k] < 64 by {
            if k >= 4 { assert(b64_sextets_of(d)[k] == rest[k - 4]); }
        }
    }
}

proof fn lemma_encode_split(d: Seq<u8>)
    ensures b64_encode(d) == b64_sextets_of(d).map_values(|x: u8| b64_char(x)) + b64_padding(d.len()),
    decreases d.len(),
{
    if d.len() >= 3 {
        lemma_encode_split(d.skip(3));
        assert(b64_padding(d.len()) == b64_padding(d.skip(3).len()));
        let head = seq![sextet0(d[0]), sextet1(d[0], d[1]), sextet2(d[1], d[2]), sextet3(d[2])];
        assert((head + b64_sextets_of(d.skip(3))).map_values(|x: u8| b64_char(x))
            =~= head.map_values(|x: u8| b64_char(x)) + b64_sextets_of(d.skip(3)).map_values(|x: u8| b64_char(x)));
        assert(b64_encode(d) =~= b64_sextets_of(d).map_values(|x: u8| b64_char(x)) + b64_padding(d.len()));
    } else {
        assert(b64_encode(d) =~= b64_sextets_of(d).map_values(|x: u8| b64_char(x)) + b64_padding(d.len()));
    }
}

proof fn lemma_char_value(x: u8)
    requires x < 64,
    ensures b64_value(b64_char(x)) == Some(x), !b64_skipped(b64_char(x)), b64_char(x) != '=',
{
}

proof fn lemma_sextets_of_chars(v: Seq<u8>)
    requires forall|k: int| 0 <= k < v.len() ==> #[trigger] v[k] < 64,
    ensures b64_sextets(v.map_values(|x: u8| b64_char(x))) == Some(v),
    decreases v.len(),
{
    if v.len() > 0 {
        let m = v.map_values(|x: u8| b64_char(x));
        assert(m.drop_first() =~= v.drop_first().map_values(|x: u8| b64_char(x)));
        lemma_sextets_of_chars(v.drop_first());
        lemma_char_value(v[0]);
        assert(seq![v[0]] + v.drop_first() =~= v);
    } else {
        assert(v.map_values(|x: u8| b64_char(x)) =~= Seq::<char>::empty());
        assert(v =~= Seq::<u8>::empty());
    }
}

proof fn lemma_bytes_of_sextets(d: Seq<u8>)
    ensures b64_bytes(b64_sextets_of(d)) == d,
    decreases d.len(),
{
    if d.len() == 0 {
    } else {
        let b0 = d[0];
        assert(((b0 >> 2) << 2) | ((((b0 & 3) << 4) | (0u8 >> 4)) >> 4) == b0) by (bit_vector);
        if d.len() == 1 {
            assert(b64_bytes(b64_sextets_of(d)) =~= d);
        } else {
            let b1 = d[1];
            assert(((b0 >> 2) << 2) | ((((b0 & 3) << 4) | (b1 >> 4)) >> 4) == b0) by (bit_vector);
            assert(((((b0 & 3) << 4) | (b1 >> 4)) << 4) | ((((b1 & 15) << 2) | (0u8 >> 6)) >> 2) == b1)
                by (bit_vector);
            if d.len() == 2 {
                assert(b64_bytes(b64_sextets_of(d)) =~= d);
            } else {
                let b2 = d[2];
                assert(((((b0 & 3) << 4) | (b1 >> 4)) << 4) | ((((b1 & 15) << 2) | (b2 >> 6)) >> 2) == b1)
                    by (bit_vector);
                assert(((((b1 & 15) << 2) | (b2 >> 6)) << 6) | (b2 & 63) == b2) by (bit_vector);
                lemma_bytes_of_sextets(d.skip(3));
                let head = seq![sextet0(b0), sextet1(b0, b1), sextet2(b1, b2), sextet3(b2)];
                assert((head + b64_sextets_of(d.skip(3))).skip(4) =~= b64_sextets_of(d.skip(3)));
                assert(b64_bytes(b64_sextets_of(d)) =~= d);
            }
        }
    }
}

/// Decoding the Base64 text of any bytes gives those bytes back.
pub proof fn law_decode_inverts_encode(d: Seq<u8>)
    ensures b64_decode(b64_encode(d)) == Some(d),
{
    lemma_encode_split(d);
    lemma_sextets_of_small(d);
    let v = b64_sextets_of(d);
    let body = v.map_values(|x: u8| b64_char(x));
    let pad = b64_padding(d.len());
    assert(trim_padding(body + pad) == body) by {
        if body.len() > 0 {
            lemma_char_value(v[v.len() - 1]);
            assert(body.last() != '=');
        }
        assert(trim_padding(body) == body);
        if pad.len() == 2 {
            assert((body + pad).drop_last() =~= body + seq!['=']);
            assert((body + seq!['=']).drop_last() =~= body);
            assert((body + pad).last() == '=');
            assert((body + seq!['=']).last() == '=');
            assert(trim_padding(body + seq!['=']) == trim_padding(body));
            assert(trim_padding(body + pad) == trim_padding(body + seq!['=']));
        } else if pad.len() == 1 {
            assert((body + pad).drop_last() =~= body);
            assert((body + pad).last() == '=');
            assert(trim_padding(body + pad) == trim_padding(body));
        } else {
            assert(body + pad =~= body);
        }
    }
    lemma_sextets_of_chars(v);
    lemma_bytes_of_sextets(d);
}

} // verus!
