use vstd::prelude::*;
use crate::util::text::{chars_of, str_eq, trim, trim_indices, string_of_range, find_char, first_index, split_pieces, lemma_first_index};

verus! {

/// Entries of a dictionary as text: key and value, in insertion order.
pub type Entries = Seq<(Seq<char>, Seq<char>)>;

/// Position of the entry with key `k`, the first if there are several.
pub open spec fn key_pos(e: Entries, k: Seq<char>) -> Option<nat>
    decreases e.len(),
{
    if e.len() == 0 {
        None
    } else if e[0].0 == k {
        Some(0)
    } else {
        match key_pos(e.drop_first(), k) {
            Some(i) => Some(i + 1),
            None => None,
        }
    }
}

/// `e` with `k` set to `v`: the value replaced in place when the key is
/// present, else the pair appended.
pub open spec fn dict_set(e: Entries, k: Seq<char>, v: Seq<char>) -> Entries {
    match key_pos(e, k) {
        Some(i) => e.update(i as int, (k, v)),
        None => e.push((k, v)),
    }
}

/// `e` after setting each pair of `o` in turn.
pub open spec fn dict_merge(e: Entries, o: Entries) -> Entries
    decreases o.len(),
{
    if o.len() == 0 { e } else { dict_merge(dict_set(e, o[0].0, o[0].1), o.drop_first()) }
}

/// `e` after one `key<kv>value` piece: the piece is trimmed, skipped when
/// empty or without `kv`, else its trimmed key is set to its trimmed value.
pub open spec fn apply_piece(e: Entries, piece: Seq<char>, kv: char) -> Entries {
    let t = trim(piece);
    if t.len() == 0 {
        e
    } else {
        match first_index(t, kv) {
            Some(q) => dict_set(e, trim(t.take(q as int)), trim(t.skip(q as int + 1))),
            None => e,
        }
    }
}

/// `e` after each piece in turn.
pub open spec fn apply_pieces(e: Entries, pieces: Seq<Seq<char>>, kv: char) -> Entries
    decreases pieces.len(),
{
    if pieces.len() == 0 { e } else { apply_pieces(apply_piece(e, pieces[0], kv), pieces.drop_first(), kv) }
}

/// Text of entries: `key=value` pairs joined by "; ".
pub open spec fn entries_text(e: Entries) -> Seq<char>
    decreases e.len(),
{
    if e.len() == 0 { Seq::empty() }
    else if e.len() == 1 { e[0].0 + "="@ + e[0].1 }
    else { entries_text(e.drop_last()) + "; "@ + e.last().0 + "="@ + e.last().1 }
}

/// No key occurs twice.
pub open spec fn keys_distinct(e: Entries) -> bool {
    forall|i: int, j: int| 0 <= i < j < e.len() ==> e[i].0 != e[j].0
}

proof fn lemma_key_pos(e: Entries, k: Seq<char>)
    ensures
        key_pos(e, k) matches Some(i) ==> i < e.len() && e[i as int].0 == k
            && forall|j: int| 0 <= j < i ==> e[j].0 != k,
        key_pos(e, k) is None ==> forall|j: int| 0 <= j < e.len() ==> e[j].0 != k,
    decreases e.len(),
{
    if e.len() > 0 {
        lemma_key_pos(e.drop_first(), k);
        assert forall|j: int| 1 <= j < e.len() implies e[j] == e.drop_first()[j - 1] by {}
    }
}

proof fn lemma_set_keeps_distinct(e: Entries, k: Seq<char>, v: Seq<char>)
    requires keys_distinct(e),
    ensures keys_distinct(dict_set(e, k, v)),
{
    lemma_key_pos(e, k);
}

/// An ordered key-value metadata dictionary.
///
/// Preserves insertion order. Keys are case-sensitive strings.
/// Used for container metadata (title, artist, etc.) and codec options.
#[derive(Clone, Debug, PartialEq, Eq)]
pub struct Dict {
    entries: Vec<(String, String)>,
}

impl Dict {
    /// The entries as text, in insertion order.
    pub closed spec fn view(&self) -> Entries {
        self.entries@.map_values(|p: (String, String)| (p.0@, p.1@))
    }

    /// Well-formedness: no key occurs twice.
    pub open spec fn wf(&self) -> bool {
        keys_distinct(self.view())
    }

    /// Create an empty dictionary.
    pub fn new() -> (r: Dict)
        ensures r.wf(), r.view() == Seq::<(Seq<char>, Seq<char>)>::empty(),
    {
        let r = Dict { entries: Vec::new() };
        assert(r.view() =~= Seq::<(Seq<char>, Seq<char>)>::empty());
        r
    }

    fn find(&self, key: &str) -> (r: Option<usize>)
        ensures
            r is None ==> key_pos(self.view(), key@) is None,
            r matches Some(i) ==> key_pos(self.view(), key@) == Some(i as nat) && i < self.entries@.len(),
    {
        let ghost v = self.view();
        let mut i: usize = 0;
        assert(v.skip(0) =~= v);
        while i < self.entries.len()
            invariant
                i <= self.entries@.len(), v == self.view(),
                key_pos(v, key@) == match key_pos(v.skip(i as int), key@) {
                    Some(j) => Some((j + i) as nat),
                    None => None::<nat>,
                },
            decreases self.entries.len() - i,
        {
            assert(v.skip(i as int).drop_first() =~= v.skip(i + 1));
            if str_eq(self.entries[i].0.as_str(), key) {
                return Some(i);
            }
            i += 1;
        }
        None
    }

    fn set_owned(&mut self, key: String, value: String)
        requires old(self).wf(),
        ensures final(self).wf(), final(self).view() == dict_set(old(self).view(), key@, value@),
    {
        proof { lemma_set_keeps_distinct(self.view(), key@, value@); }
        match self.find(key.as_str()) {
            Some(i) => {
                self.entries.set(i, (key, value));
            }
            None => {
                self.entries.push((key, value));
            }
        }
        assert(self.view() =~= dict_set(old(self).view(), key@, value@));
    }

    /// Set a key-value pair, replacing the value if the key exists.
    pub fn set(&mut self, key: &str, value: &str)
        requires old(self).wf(),
        ensures final(self).wf(), final(self).view() == dict_set(old(self).view(), key@, value@),
    {
        self.set_owned(String::from_str(key), String::from_str(value));
    }

    /// The value for a key.
    pub fn get(&self, key: &str) -> (r: Option<&str>)
        ensures
            r is None <==> key_pos(self.view(), key@) is None,
            r matches Some(v) ==> v@ == self.view()[key_pos(self.view(), key@)->0 as int].1,
    {
        match self.find(key) {
            Some(i) => Some(self.entries[i].1.as_str()),
            None => None,
        }
    }

    /// Remove a key, returning its value if it existed.
    pub fn remove(&mut self, key: &str) -> (r: Option<String>)
        requires old(self).wf(),
        ensures
            final(self).wf(),
            r is None <==> key_pos(old(self).view(), key@) is None,
            r is None ==> final(self).view() == old(self).view(),
            r matches Some(v) ==> v@ == old(self).view()[key_pos(old(self).view(), key@)->0 as int].1
                && final(self).view() == old(self).view().remove(key_pos(old(self).view(), key@)->0 as int),
    {
        match self.find(key) {
            Some(i) => {
                let (_, v) = self.entries.remove(i);
                assert(self.view() =~= old(self).view().remove(i as int));
                assert(keys_distinct(self.view())) by {
                    let o = old(self).view();
                    assert forall|a: int, b: int| 0 <= a < b < self.view().len() implies
                        self.view()[a].0 != self.view()[b].0 by {
                        let a2 = if a < i { a } else { a + 1 };
                        let b2 = if b < i { b } else { b + 1 };
                        assert(self.view()[a] == o[a2]);
                        assert(self.view()[b] == o[b2]);
                    }
                }
                Some(v)
            }
            None => None,
        }
    }

    /// Returns true if the key exists.
    pub fn contains_key(&self, key: &str) -> (r: bool)
        ensures r == key_pos(self.view(), key@) is Some,
    {
        self.find(key).is_some()
    }

    /// Number of entries.
    pub fn len(&self) -> (r: usize)
        ensures r == self.view().len(),
    {
        self.entries.len()
    }

    /// Returns true if empty.
    pub fn is_empty(&self) -> (r: bool)
        ensures r == (self.view().len() == 0),
    {
        self.entries.len() == 0
    }

    /// Clear all entries.
    pub fn clear(&mut self)
        ensures final(self).wf(), final(self).view() == Seq::<(Seq<char>, Seq<char>)>::empty(),
    {
        self.entries.clear();
        assert(self.view() =~= Seq::<(Seq<char>, Seq<char>)>::empty());
    }

    /// The key-value pairs in insertion order.
    pub fn iter(&self) -> (r: Vec<(&str, &str)>)
        ensures r@.len() == self.view().len(),
            forall|i: int| 0 <= i < r@.len() ==> (#[trigger] r@[i]).0@ == self.view()[i].0
                && r@[i].1@ == self.view()[i].1,
    {
        let mut out: Vec<(&str, &str)> = Vec::new();
        let mut i: usize = 0;
        while i < self.entries.len()
            invariant i <= self.entries@.len(), out@.len() == i,
                forall|j: int| 0 <= j < i ==> (#[trigger] out@[j]).0@ == self.view()[j].0
                    && out@[j].1@ == self.view()[j].1,
            decreases self.entries.len() - i,
        {
            out.push((self.entries[i].0.as_str(), self.entries[i].1.as_str()));
            i += 1;
        }
        out
    }

    /// Copy all entries from `other` into `self`; existing keys are overwritten.
    pub fn merge(&mut self, other: &Dict)
        requires old(self).wf(),
        ensures final(self).wf(), final(self).view() == dict_merge(old(self).view(), other.view()),
    {
        let ghost o = other.view();
        let mut i: usize = 0;
        assert(o.skip(0) =~= o);
        while i < other.entries.len()
            invariant
                i <= other.entries@.len(), o == other.view(), self.wf(),
                dict_merge(self.view(), o.skip(i as int)) == dict_merge(old(self).view(), o),
            decreases other.entries.len() - i,
        {
            assert(o.skip(i as int).drop_first() =~= o.skip(i + 1));
            let k = other.entries[i].0.clone();
            let v = other.entries[i].1.clone();
            self.set_owned(k, v);
            i += 1;
        }
    }

    /// Parse text such as "key1=val1;key2=val2": pieces between `pair_sep`
    /// are trimmed; empty pieces and pieces without `kv_sep` are skipped;
    /// otherwise the trimmed text before the first `kv_sep` is set to the
    /// trimmed text after it.
    pub fn parse(input: &str, pair_sep: char, kv_sep: char) -> (r: Dict)
        ensures
            r.wf(),
            r.view() == apply_pieces(Seq::empty(), split_pieces(input@, pair_sep), kv_sep),
    {
        let cs = chars_of(input);
        let n = cs.len();
        let mut dict = Dict::new();
        let mut pos: usize = 0;
        assert(cs@.subrange(0, n as int) =~= input@);
        loop
            invariant
                pos <= n, n == cs@.len(), dict.wf(),
                apply_pieces(dict.view(), split_pieces(cs@.subrange(pos as int, n as int), pair_sep), kv_sep)
                    == apply_pieces(Seq::empty(), split_pieces(input@, pair_sep), kv_sep),
            decreases n - pos,
        {
            let ghost rest = cs@.subrange(pos as int, n as int);
            let end = find_char(cs.as_slice(), pos, n, pair_sep);
            proof {
                lemma_first_index(rest, pair_sep, end - pos);
                assert(rest.take(end - pos) =~= cs@.subrange(pos as int, end as int));
                if end < n {
                    assert(rest.skip(end - pos + 1) =~= cs@.subrange(end + 1, n as int));
                }
            }
            let ghost piece = cs@.subrange(pos as int, end as int);
            let ghost before = dict.view();
            let (b, e) = trim_indices(cs.as_slice(), pos, end);
            if b < e {
                let q = find_char(cs.as_slice(), b, e, kv_sep);
                proof {
                    let t = cs@.subrange(b as int, e as int);
                    lemma_first_index(t, kv_sep, q - b);
                    if q < e {
                        assert(t.take(q - b) =~= cs@.subrange(b as int, q as int));
                        assert(t.skip(q - b + 1) =~= cs@.subrange(q + 1, e as int));
                    }
                }
                if q < e {
                    let (kb, ke) = trim_indices(cs.as_slice(), b, q);
                    let (vb, ve) = trim_indices(cs.as_slice(), q + 1, e);
                    let k = string_of_range(cs.as_slice(), kb, ke);
                    let v = string_of_range(cs.as_slice(), vb, ve);
                    dict.set_owned(k, v);
                }
            }
            assert(dict.view() == apply_piece(before, piece, kv_sep));
            if end >= n {
                assert(split_pieces(rest, pair_sep) =~= seq![piece]);
                assert(seq![piece].drop_first() =~= Seq::<Seq<char>>::empty());
                assert(apply_pieces(dict.view(), Seq::<Seq<char>>::empty(), kv_sep) == dict.view());
                assert(apply_pieces(before, seq![piece], kv_sep) == dict.view());
                return dict;
            }
            assert(split_pieces(rest, pair_sep).drop_first() =~= split_pieces(cs@.subrange(end + 1, n as int), pair_sep));
            pos = end + 1;
        }
    }

    /// Text of the dictionary: `key=value` pairs joined by "; ".
    pub fn to_string(&self) -> (r: String)
        ensures r@ == entries_text(self.view()),
    {
        let mut out = String::new();
        let mut i: usize = 0;
        while i < self.entries.len()
            invariant i <= self.entries@.len(), out@ == entries_text(self.view().take(i as int)),
            decreases self.entries.len() - i,
        {
            proof { reveal_strlit("; "); reveal_strlit("="); }
            if i > 0 {
                out.append("; ");
            }
            out.append(self.entries[i].0.as_str());
            out.append("=");
            out.append(self.entries[i].1.as_str());
            proof {
                let t = self.view().take(i + 1);
                assert(t.drop_last() =~= self.view().take(i as int));
                assert(out@ =~= entries_text(t));
            }
            i += 1;
        }
        assert(self.view().take(i as int) =~= self.view());
        out
    }
}

/// After setting a key, reading it gives the value that was set.
pub proof fn law_get_after_set(e: Entries, k: Seq<char>, v: Seq<char>)
    ensures
        key_pos(dict_set(e, k, v), k) matches Some(i) && dict_set(e, k, v)[i as int] == (k, v),
{
    lemma_key_pos(e, k);
    let s = dict_set(e, k, v);
    lemma_key_pos(s, k);
    match key_pos(e, k) {
        Some(i) => {
            assert(s[i as int].0 == k);
        }
        None => {
            assert(s[e.len() as int].0 == k);
        }
    }
}

/// Setting a key leaves every other key's entry where it was.
pub proof fn law_set_keeps_other_keys(e: Entries, k: Seq<char>, v: Seq<char>, other: Seq<char>)
    requires other != k,
    ensures key_pos(dict_set(e, k, v), other) == key_pos(e, other),
        key_pos(e, other) matches Some(i) ==> dict_set(e, k, v)[i as int] == e[i as int],
{
    lemma_key_pos(e, k);
    lemma_key_pos(e, other);
    let s = dict_set(e, k, v);
    lemma_key_pos(s, other);
    match key_pos(e, other) {
        Some(i) => {
            match key_pos(s, other) {
                Some(j) => { assert(s[i as int].0 == other); assert(e[j as int].0 == other); }
                None => { assert(s[i as int].0 == other); }
            }
        }
        None => {
            match key_pos(s, other) {
                Some(j) => { assert(e[j as int].0 == other); }
                None => {}
            }
        }
    }
}

} // verus!
