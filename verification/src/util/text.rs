use vstd::prelude::*;
use vstd::utf8::*;
use vstd::string::*;

verus! {

/// The character of a decimal digit.
pub open spec fn digit_char(d: nat) -> char {
    if d == 0 { '0' } else if d == 1 { '1' } else if d == 2 { '2' } else if d == 3 { '3' }
    else if d == 4 { '4' } else if d == 5 { '5' } else if d == 6 { '6' } else if d == 7 { '7' }
    else if d == 8 { '8' } else { '9' }
}

/// Decimal digits of a natural number, most significant first, no leading zeros.
pub open spec fn decimal_digits(n: nat) -> Seq<char>
    decreases n,
{
    if n < 10 { seq![digit_char(n)] } else { decimal_digits(n / 10).push(digit_char(n % 10)) }
}

/// Decimal text of an integer, with a leading '-' for negative values.
pub open spec fn decimal_text(v: int) -> Seq<char> {
    if v < 0 { seq!['-'] + decimal_digits((-v) as nat) } else { decimal_digits(v as nat) }
}

fn digit_str(d: u64) -> (r: &'static str)
    requires d < 10,
    ensures r@ == seq![digit_char(d as nat)],
{
    proof {
        reveal_strlit("0"); reveal_strlit("1"); reveal_strlit("2"); reveal_strlit("3");
        reveal_strlit("4"); reveal_strlit("5"); reveal_strlit("6"); reveal_strlit("7");
        reveal_strlit("8"); reveal_strlit("9");
    }
    if d == 0 { "0" } else if d == 1 { "1" } else if d == 2 { "2" } else if d == 3 { "3" }
    else if d == 4 { "4" } else if d == 5 { "5" } else if d == 6 { "6" } else if d == 7 { "7" }
    else if d == 8 { "8" } else { "9" }
}

/// Appends the decimal digits of `n` to `s`.
pub fn push_decimal(s: &mut String, n: u64)
    ensures final(s)@ == old(s)@ + decimal_digits(n as nat),
    decreases n,
{
    if n >= 10 {
        push_decimal(s, n / 10);
    }
    s.append(digit_str(n % 10));
    proof {
        if n >= 10 {
            assert(old(s)@ + decimal_digits(n as nat) =~= old(s)@ + decimal_digits((n / 10) as nat)
                + seq![digit_char((n % 10) as nat)]);
        } else {
            assert(n % 10 == n);
        }
    }
}

/// Appends the decimal text of `v` to `s`.
pub fn push_signed_decimal(s: &mut String, v: i64)
    ensures final(s)@ == old(s)@ + decimal_text(v as int),
{
    if v < 0 {
        proof { reveal_strlit("-"); }
        s.append("-");
        let m: u64 = (0i128 - (v as i128)) as u64;
        push_decimal(s, m);
        assert(old(s)@ + decimal_text(v as int) =~= old(s)@ + seq!['-'] + decimal_digits(m as nat));
    } else {
        push_decimal(s, v as u64);
    }
}

proof fn lemma_bytes_eq_views(a: &str, b: &str)
    ensures a.spec_bytes() == b.spec_bytes() <==> a@ == b@,
{
    broadcast use encode_utf8_decode_utf8;
    if a.spec_bytes() == b.spec_bytes() {
        assert(decode_utf8(encode_utf8(a@)) == decode_utf8(encode_utf8(b@)));
    }
}

/// Byte-wise equality of two byte slices.
pub fn bytes_eq(a: &[u8], b: &[u8]) -> (r: bool)
    ensures r == (a@ == b@),
{
    if a.len() != b.len() {
        return false;
    }
    let mut i: usize = 0;
    while i < a.len()
        invariant
            a.len() == b.len(),
            i <= a.len(),
            forall|j: int| 0 <= j < i ==> a@[j] == b@[j],
        decreases a.len() - i,
    {
        if a[i] != b[i] {
            return false;
        }
        i += 1;
    }
    assert(a@ =~= b@);
    true
}

/// String equality.
pub fn str_eq(a: &str, b: &str) -> (r: bool)
    ensures r == (a@ == b@),
{
    let ab = a.as_bytes();
    let bb = b.as_bytes();
    proof { lemma_bytes_eq_views(a, b); }
    bytes_eq(ab, bb)
}

/// Appends one character to a string.
///
/// Wraps `String::push`, which appends the character to the end of the string;
/// the contract claims just that of the string's characters.
#[verifier::external_body]
pub(crate) fn push_char(s: &mut String, c: char)
    ensures final(s)@ == old(s)@.push(c),
{
    s.push(c);
}

/// The characters of a string slice, in order.
pub fn chars_of(s: &str) -> (r: Vec<char>)
    ensures r@ == s@,
{
    broadcast use vstd::string::group_string_axioms;
    let mut out: Vec<char> = Vec::new();
    for c in it: s.chars()
        invariant out@ == it.seq().take(it.index() as int), it.seq() == s@,
    {
        out.push(c);
        assert(out@ =~= it.seq().take(it.index() + 1));
    }
    assert(out@ =~= s@);
    out
}

/// A string made of the characters of `cs`.
pub fn string_of(cs: &[char]) -> (r: String)
    ensures r@ == cs@,
{
    let mut out = String::new();
    let mut i: usize = 0;
    while i < cs.len()
        invariant i <= cs@.len(), out@ == cs@.take(i as int),
        decreases cs.len() - i,
    {
        push_char(&mut out, cs[i]);
        i += 1;
        assert(out@ =~= cs@.take(i as int));
    }
    assert(out@ =~= cs@);
    out
}

/// The Unicode `White_Space` property.
pub open spec fn spec_is_whitespace(c: char) -> bool {
    let v = c as u32;
    (0x09 <= v <= 0x0d) || v == 0x20 || v == 0x85 || v == 0xa0 || v == 0x1680
        || (0x2000 <= v <= 0x200a) || v == 0x2028 || v == 0x2029 || v == 0x202f
        || v == 0x205f || v == 0x3000
}

/// Whether `c` has the Unicode `White_Space` property.
pub fn is_whitespace(c: char) -> (r: bool)
    ensures r == spec_is_whitespace(c),
{
    let v = c as u32;
    (0x09 <= v && v <= 0x0d) || v == 0x20 || v == 0x85 || v == 0xa0 || v == 0x1680
        || (0x2000 <= v && v <= 0x200a) || v == 0x2028 || v == 0x2029 || v == 0x202f
        || v == 0x205f || v == 0x3000
}

/// `s` without its leading whitespace.
pub open spec fn trim_start(s: Seq<char>) -> Seq<char>
    decreases s.len(),
{
    if s.len() > 0 && spec_is_whitespace(s[0]) { trim_start(s.drop_first()) } else { s }
}

/// `s` without its trailing whitespace.
pub open spec fn trim_end(s: Seq<char>) -> Seq<char>
    decreases s.len(),
{
    if s.len() > 0 && spec_is_whitespace(s.last()) { trim_end(s.drop_last()) } else { s }
}

/// `s` without leading and trailing whitespace (what `str::trim` gives).
pub open spec fn trim(s: Seq<char>) -> Seq<char> {
    trim_start(trim_end(s))
}

/// The bounds of `cs[start..end]` with its trailing whitespace removed.
pub fn trim_end_index(cs: &[char], start: usize, end: usize) -> (r: usize)
    requires start <= end <= cs@.len(),
    ensures start <= r <= end, cs@.subrange(start as int, r as int) == trim_end(cs@.subrange(start as int, end as int)),
{
    let mut e = end;
    while e > start && is_whitespace(cs[e - 1])
        invariant
            start <= e <= end, end <= cs@.len(),
            trim_end(cs@.subrange(start as int, e as int)) == trim_end(cs@.subrange(start as int, end as int)),
        decreases e,
    {
        assert(cs@.subrange(start as int, e as int).drop_last() =~= cs@.subrange(start as int, e - 1));
        e -= 1;
    }
    e
}

/// The bounds of `cs[start..end]` with its leading whitespace removed.
pub fn trim_start_index(cs: &[char], start: usize, end: usize) -> (r: usize)
    requires start <= end <= cs@.len(),
    ensures start <= r <= end, cs@.subrange(r as int, end as int) == trim_start(cs@.subrange(start as int, end as int)),
{
    let mut b = start;
    while b < end && is_whitespace(cs[b])
        invariant
            start <= b <= end, end <= cs@.len(),
            trim_start(cs@.subrange(b as int, end as int)) == trim_start(cs@.subrange(start as int, end as int)),
        decreases end - b,
    {
        assert(cs@.subrange(b as int, end as int).drop_first() =~= cs@.subrange(b + 1, end as int));
        b += 1;
    }
    b
}

/// The bounds of `cs[start..end]` trimmed of whitespace at both ends.
pub fn trim_indices(cs: &[char], start: usize, end: usize) -> (r: (usize, usize))
    requires start <= end <= cs@.len(),
    ensures start <= r.0 <= r.1 <= end,
        cs@.subrange(r.0 as int, r.1 as int) == trim(cs@.subrange(start as int, end as int)),
{
    let e = trim_end_index(cs, start, end);
    let b = trim_start_index(cs, start, e);
    (b, e)
}

/// The string made of `cs[start..end]`.
pub fn string_of_range(cs: &[char], start: usize, end: usize) -> (r: String)
    requires start <= end <= cs@.len(),
    ensures r@ == cs@.subrange(start as int, end as int),
{
    let mut out = String::new();
    let mut i = start;
    while i < end
        invariant start <= i <= end, end <= cs@.len(), out@ == cs@.subrange(start as int, i as int),
        decreases end - i,
    {
        push_char(&mut out, cs[i]);
        i += 1;
        assert(out@ =~= cs@.subrange(start as int, i as int));
    }
    out
}

/// The index of the first `c` in `cs[start..end]`, or `end` when there is none.
pub fn find_char(cs: &[char], start: usize, end: usize, c: char) -> (r: usize)
    requires start <= end <= cs@.len(),
    ensures
        start <= r <= end,
        forall|k: int| start <= k < r ==> cs@[k] != c,
        r < end ==> cs@[r as int] == c,
{
    let mut i = start;
    while i < end && cs[i] != c
        invariant start <= i <= end, end <= cs@.len(), forall|k: int| start <= k < i ==> cs@[k] != c,
        decreases end - i,
    {
        i += 1;
    }
    i
}

/// Position of the first occurrence of `c` in `s`.
pub open spec fn first_index(s: Seq<char>, c: char) -> Option<nat>
    decreases s.len(),
{
    if s.len() == 0 {
        None
    } else if s[0] == c {
        Some(0)
    } else {
        match first_index(s.drop_first(), c) {
            Some(i) => Some(i + 1),
            None => None,
        }
    }
}

/// The pieces of `s` between occurrences of `c` (what `str::split` gives).
pub open spec fn split_pieces(s: Seq<char>, c: char) -> Seq<Seq<char>>
    decreases s.len(),
{
    match first_index(s, c) {
        Some(i) => {
            if i < s.len() {
                seq![s.take(i as int)] + split_pieces(s.skip(i as int + 1), c)
            } else {
                seq![s]
            }
        }
        None => seq![s],
    }
}

pub proof fn lemma_first_index(s: Seq<char>, c: char, q: int)
    requires
        0 <= q <= s.len(),
        forall|k: int| 0 <= k < q ==> s[k] != c,
        q < s.len() ==> s[q] == c,
    ensures
        q < s.len() ==> first_index(s, c) == Some(q as nat),
        q == s.len() ==> first_index(s, c) is None,
    decreases q,
{
    if q > 0 {
        lemma_first_index(s.drop_first(), c, q - 1);
    } else if s.len() > 0 {
    }
}

/// `s` without one trailing carriage return.
pub open spec fn strip_cr(s: Seq<char>) -> Seq<char> {
    if s.len() > 0 && s.last() == '\r' { s.drop_last() } else { s }
}

/// The lines of `s` (what `str::lines` gives): pieces between line feeds,
/// those ended by a line feed without a carriage return before it, and no
/// empty last line after a final line feed.
pub open spec fn text_lines(s: Seq<char>) -> Seq<Seq<char>> {
    Seq::new(line_count(split_pieces(s, '\n')), |i: int| line_at(split_pieces(s, '\n'), i))
}

/// Number of lines from the pieces between line feeds: an empty last piece
/// is no line.
pub open spec fn line_count(ps: Seq<Seq<char>>) -> nat {
    if ps.len() > 0 && ps.last().len() == 0 { (ps.len() - 1) as nat } else { ps.len() }
}

/// Line `i` from the pieces between line feeds: a carriage return before a
/// line feed is dropped.
pub open spec fn line_at(ps: Seq<Seq<char>>, i: int) -> Seq<char> {
    if i < ps.len() - 1 { strip_cr(ps[i]) } else { ps[i] }
}

proof fn lemma_split_pieces_nonempty(s: Seq<char>, c: char)
    ensures split_pieces(s, c).len() >= 1,
    decreases s.len(),
{
    match first_index(s, c) {
        Some(i) => {
            if i < s.len() { lemma_split_pieces_nonempty(s.skip(i as int + 1), c); }
        }
        None => {}
    }
}

/// The lines of `cs` (see [`text_lines`]).
pub fn lines_of(cs: &[char]) -> (r: Vec<Vec<char>>)
    ensures r@.len() == text_lines(cs@).len(),
        forall|i: int| 0 <= i < r@.len() ==> #[trigger] r@[i]@ == text_lines(cs@)[i],
{
    let n = cs.len();
    let mut pieces: Vec<Vec<char>> = Vec::new();
    let mut pos: usize = 0;
    let ghost mut seen: Seq<Seq<char>> = Seq::empty();
    proof { lemma_split_pieces_nonempty(cs@, '\n'); }
    assert(cs@.subrange(0, n as int) =~= cs@);
    loop
        invariant_except_break
            seen + split_pieces(cs@.subrange(pos as int, n as int), '\n') == split_pieces(cs@, '\n'),
        invariant
            pos <= n, n == cs@.len(),
            pieces@.len() == seen.len(),
            forall|k: int| 0 <= k < pieces@.len() ==> #[trigger] pieces@[k]@ == seen[k],
        ensures
            pieces@.len() == split_pieces(cs@, '\n').len(),
            forall|k: int| 0 <= k < pieces@.len() ==> #[trigger] pieces@[k]@ == split_pieces(cs@, '\n')[k],
        decreases n - pos,
    {
        let ghost rest = cs@.subrange(pos as int, n as int);
        let end = find_char(cs, pos, n, '\n');
        proof {
            lemma_first_index(rest, '\n', end - pos);
            assert(rest.take(end - pos) =~= cs@.subrange(pos as int, end as int));
            if end < n {
                assert(rest.skip(end - pos + 1) =~= cs@.subrange(end + 1, n as int));
            }
        }
        let piece = slice_range_vec(cs, pos, end);
        pieces.push(piece);
        proof { seen = seen.push(cs@.subrange(pos as int, end as int)); }
        if end >= n {
            assert(split_pieces(rest, '\n') =~= seq![rest]);
            assert(seen =~= split_pieces(cs@, '\n'));
            break;
        }
        assert(split_pieces(rest, '\n') =~= seq![cs@.subrange(pos as int, end as int)] + split_pieces(cs@.subrange(end + 1, n as int), '\n'));
        pos = end + 1;
    }
    let ghost ps = split_pieces(cs@, '\n');
    let count = pieces.len();
    let keep = if count > 0 && pieces[count - 1].len() == 0 { count - 1 } else { count };
    let mut out: Vec<Vec<char>> = Vec::new();
    let mut i: usize = 0;
    while i < keep
        invariant
            i <= keep, keep <= count, count == pieces@.len(), count == ps.len(),
            keep == line_count(ps), ps == split_pieces(cs@, '\n'),
            forall|k: int| 0 <= k < pieces@.len() ==> #[trigger] pieces@[k]@ == ps[k],
            out@.len() == i,
            forall|k: int| 0 <= k < i ==> #[trigger] out@[k]@ == text_lines(cs@)[k],
        decreases keep - i,
    {
        let p = &pieces[i];
        let line = if i + 1 < count && p.len() > 0 && p[p.len() - 1] == '\r' {
            slice_range_vec(p.as_slice(), 0, p.len() - 1)
        } else {
            slice_range_vec(p.as_slice(), 0, p.len())
        };
        proof {
            assert(p@.subrange(0, p@.len() as int) =~= p@);
            assert(p@.subrange(0, p@.len() - 1) =~= p@.drop_last());
            assert(text_lines(cs@)[i as int] == line_at(ps, i as int));
            assert(line@ == text_lines(cs@)[i as int]);
        }
        out.push(line);
        i += 1;
    }
    out
}

/// A copy of `cs[start..end]`.
pub fn slice_range_vec(cs: &[char], start: usize, end: usize) -> (r: Vec<char>)
    requires start <= end <= cs@.len(),
    ensures r@ == cs@.subrange(start as int, end as int),
{
    let mut v: Vec<char> = Vec::new();
    let mut i = start;
    while i < end
        invariant start <= i <= end, end <= cs@.len(), v@ == cs@.subrange(start as int, i as int),
        decreases end - i,
    {
        v.push(cs[i]);
        i += 1;
        assert(v@ =~= cs@.subrange(start as int, i as int));
    }
    v
}

/// Whether `c` is an ASCII decimal digit.
pub open spec fn is_digit(c: char) -> bool {
    '0' <= c <= '9'
}

/// Value of a string of decimal digits.
pub open spec fn digits_value(s: Seq<char>) -> nat
    decreases s.len(),
{
    if s.len() == 0 { 0 } else { digits_value(s.drop_last()) * 10 + (s.last() as nat - 48) as nat }
}

/// An unsigned 64-bit integer in decimal text (what `u64::from_str`
/// accepts): an optional `+`, then at least one digit, the value fitting.
pub open spec fn u64_of(s: Seq<char>) -> Option<u64> {
    if strip_plus(s).len() > 0 && all_digits(strip_plus(s)) && digits_value(strip_plus(s)) <= u64::MAX {
        Some(digits_value(strip_plus(s)) as u64)
    } else {
        None
    }
}

/// `s` without one leading `+`.
pub open spec fn strip_plus(s: Seq<char>) -> Seq<char> {
    if s.len() > 0 && s[0] == '+' { s.drop_first() } else { s }
}

/// Every character of `d` is a decimal digit.
pub open spec fn all_digits(d: Seq<char>) -> bool {
    forall|i: int| 0 <= i < d.len() ==> #[trigger] is_digit(d[i])
}

proof fn lemma_digits_value_grows(s: Seq<char>, k: int)
    requires 0 <= k <= s.len(), forall|i: int| 0 <= i < s.len() ==> #[trigger] is_digit(s[i]),
    ensures digits_value(s.take(k)) <= digits_value(s),
    decreases s.len() - k,
{
    if k < s.len() {
        lemma_digits_value_grows(s, k + 1);
        assert(s.take(k + 1).drop_last() =~= s.take(k));
    } else {
        assert(s.take(k) =~= s);
    }
}

/// Parse an unsigned 64-bit decimal integer from `cs[start..end]` (see [`u64_of`]).
pub fn parse_u64(cs: &[char], start: usize, end: usize) -> (r: Option<u64>)
    requires start <= end <= cs@.len(),
    ensures r == u64_of(cs@.subrange(start as int, end as int)),
{
    let ghost s = cs@.subrange(start as int, end as int);
    let mut b = start;
    if b < end && cs[b] == '+' {
        b += 1;
    }
    let ghost d = cs@.subrange(b as int, end as int);
    assert(d =~= strip_plus(s));
    if b >= end {
        return None;
    }
    let mut v: u128 = 0;
    let mut i = b;
    while i < end
        invariant
            b <= i <= end, end <= cs@.len(), d == cs@.subrange(b as int, end as int),
            s == cs@.subrange(start as int, end as int),
            d == strip_plus(s),
            forall|k: int| b <= k < i ==> #[trigger] is_digit(cs@[k]),
            v == digits_value(cs@.subrange(b as int, i as int)), v <= u64::MAX,
        decreases end - i,
    {
        let c = cs[i];
        assert(cs@.subrange(b as int, i + 1).drop_last() =~= cs@.subrange(b as int, i as int));
        if !('0' <= c && c <= '9') {
            assert(!is_digit(d[i - b]));
            return None;
        }
        v = v * 10 + (c as u32 - 48) as u128;
        i += 1;
        if v > u64::MAX as u128 {
            proof {
                assert forall|k: int| 0 <= k < d.len() implies #[trigger] is_digit(d[k]) || k >= i - b by {}
                if all_digits(d) {
                    assert(d.take(i - b) =~= cs@.subrange(b as int, i as int));
                    lemma_digits_value_grows(d, i - b);
                }
            }
            return None;
        }
    }
    assert(cs@.subrange(b as int, i as int) =~= d);
    Some(v as u64)
}

/// Whether `-->` begins at `k` in `s`.
pub open spec fn arrow_at(s: Seq<char>, k: int) -> bool {
    s[k] == '-' && s[k + 1] == '-' && s[k + 2] == '>'
}

/// Where the first `-->` in `s` begins.
pub open spec fn first_arrow(s: Seq<char>) -> Option<nat>
    decreases s.len(),
{
    if s.len() < 3 {
        None
    } else if s[0] == '-' && s[1] == '-' && s[2] == '>' {
        Some(0)
    } else {
        match first_arrow(s.drop_first()) {
            Some(i) => Some(i + 1),
            None => None,
        }
    }
}

/// The two sides of the one `-->` in `s`: `None` unless it occurs exactly
/// once (what splitting on it into exactly two parts requires).
pub open spec fn split_arrow(s: Seq<char>) -> Option<(Seq<char>, Seq<char>)> {
    match first_arrow(s) {
        Some(i) => {
            let rest = s.skip(i as int + 3);
            if first_arrow(rest) is None { Some((s.take(i as int), rest)) } else { None }
        }
        None => None,
    }
}

proof fn lemma_first_arrow(s: Seq<char>, q: int)
    requires
        0 <= q, q + 3 <= s.len() || q == s.len(),
        forall|k: int| 0 <= k < q && k + 3 <= s.len() ==> !#[trigger] arrow_at(s, k),
        q + 3 <= s.len() ==> arrow_at(s, q),
    ensures
        q + 3 <= s.len() ==> first_arrow(s) == Some(q as nat),
        q == s.len() ==> first_arrow(s) is None,
    decreases q,
{
    if s.len() >= 3 && q > 0 {
        assert forall|k: int| 0 <= k < q - 1 && k + 3 <= s.drop_first().len() implies
            !#[trigger] arrow_at(s.drop_first(), k) by {
            assert(!arrow_at(s, k + 1));
        }
        assert(!arrow_at(s, 0));
        lemma_first_arrow(s.drop_first(), q - 1);
    }
}

/// Where the first `-->` in `cs[start..end]` begins, or `end` when none does.
pub fn find_arrow(cs: &[char], start: usize, end: usize) -> (r: usize)
    requires start <= end <= cs@.len(),
    ensures
        r == end || (start <= r && r + 3 <= end),
        r + 3 <= end ==> first_arrow(cs@.subrange(start as int, end as int)) == Some((r - start) as nat),
        r == end ==> first_arrow(cs@.subrange(start as int, end as int)) is None,
{
    let ghost s = cs@.subrange(start as int, end as int);
    let mut i = start;
    while i < end && end - i >= 3
        invariant start <= i <= end, end <= cs@.len(), s == cs@.subrange(start as int, end as int),
            forall|k: int| 0 <= k < i - start && k + 3 <= s.len() ==> !#[trigger] arrow_at(s, k),
        decreases end - i,
    {
        if cs[i] == '-' && cs[i + 1] == '-' && cs[i + 2] == '>' {
            proof { assert(arrow_at(s, i - start)); lemma_first_arrow(s, i - start); }
            return i;
        }
        assert(!arrow_at(s, i - start));
        i += 1;
    }
    proof { lemma_first_arrow(s, s.len() as int); }
    end
}

/// Lines joined with line feeds.
pub open spec fn join_lines(ls: Seq<Seq<char>>) -> Seq<char>
    decreases ls.len(),
{
    if ls.len() == 0 { Seq::empty() }
    else if ls.len() == 1 { ls[0] }
    else { join_lines(ls.drop_last()) + seq!['\n'] + ls.last() }
}

/// The text that `data` encodes as UTF-8, if it is valid UTF-8.
///
/// Wraps `std::str::from_utf8`, which accepts exactly the valid UTF-8 byte
/// strings and then yields the string they encode; the contract says so in
/// terms of vstd's UTF-8 definitions.
#[verifier::external_body]
pub(crate) fn utf8_text(data: &[u8]) -> (r: Option<&str>)
    ensures
        r is Some <==> vstd::utf8::valid_utf8(data@),
        r matches Some(s) ==> s@ == vstd::utf8::decode_utf8(data@),
{
    match std::str::from_utf8(data) {
        Ok(s) => Some(s),
        Err(_) => None,
    }
}

/// Splitting `cs[start..end]` at its first `c`: the index of that `c`, or
/// `end`; the pieces are the text before it and the pieces after it.
pub fn split_step(cs: &[char], start: usize, end: usize, c: char) -> (r: usize)
    requires start <= end <= cs@.len(),
    ensures
        start <= r <= end,
        r < end ==> cs@[r as int] == c && split_pieces(cs@.subrange(start as int, end as int), c)
            == seq![cs@.subrange(start as int, r as int)] + split_pieces(cs@.subrange(r + 1, end as int), c),
        r == end ==> split_pieces(cs@.subrange(start as int, end as int), c) == seq![cs@.subrange(start as int, end as int)],
        forall|k: int| start <= k < r ==> cs@[k] != c,
{
    let r = find_char(cs, start, end, c);
    proof {
        let s = cs@.subrange(start as int, end as int);
        lemma_first_index(s, c, r - start);
        if r < end {
            assert(s.take(r - start) =~= cs@.subrange(start as int, r as int));
            assert(s.skip(r - start + 1) =~= cs@.subrange(r + 1, end as int));
        }
    }
    r
}

/// Every split has at least one piece.
pub proof fn lemma_split_nonempty(s: Seq<char>, c: char)
    ensures split_pieces(s, c).len() >= 1,
    decreases s.len(),
{
    match first_index(s, c) {
        Some(i) => { if i < s.len() { lemma_split_nonempty(s.skip(i as int + 1), c); } }
        None => {}
    }
}

/// A number of at most two digits is at most 99.
pub proof fn lemma_small_u64(s: Seq<char>)
    requires s.len() <= 2,
    ensures u64_of(s) matches Some(v) ==> v <= 99,
{
    let d = strip_plus(s);
    if d.len() > 0 && all_digits(d) {
        assert(is_digit(d[0]));
        if d.len() == 2 {
            assert(is_digit(d[1]));
            let a = d.drop_last();
            assert(a.drop_last() =~= Seq::<char>::empty());
            assert(a.last() == d[0]);
            assert(digits_value(a.drop_last()) == 0);
            assert(digits_value(a) <= 9);
            assert(digits_value(d) == digits_value(a) * 10 + (d.last() as nat - 48) as nat);
        } else if d.len() == 1 {
            assert(d.drop_last() =~= Seq::<char>::empty());
            assert(digits_value(d.drop_last()) == 0);
        }
    }
}

} // verus!
