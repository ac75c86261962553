use vstd::prelude::*;

verus! {

/// Seek flags.
#[derive(Debug, Clone, Copy, PartialEq, Eq, Structural)]
pub enum SeekFlag {
    /// Seek to the nearest keyframe before the target.
    Backward,
    /// Seek to any frame (not just keyframes).
    Any,
    /// Seek by byte position instead of timestamp.
    Byte,
}

/// An index entry for fast seeking.
#[derive(Debug, Clone, Copy, PartialEq, Eq, Structural)]
pub struct IndexEntry {
    /// Timestamp in stream time_base units.
    pub timestamp: i64,
    /// Byte position in the file.
    pub pos: u64,
    /// Size of the packet at this position.
    pub size: u32,
    /// True if this is a keyframe.
    pub keyframe: bool,
}

/// The entries are in order of timestamp.
pub open spec fn sorted_by_time(s: Seq<IndexEntry>) -> bool {
    forall|i: int, j: int| 0 <= i <= j < s.len() ==> s[i].timestamp <= s[j].timestamp
}

/// The last of the first `k` entries at or before time `t`, or -1.
pub open spec fn last_at_or_before(s: Seq<IndexEntry>, t: i64, k: int) -> int
    decreases k,
{
    if k <= 0 { -1 } else if s[k - 1].timestamp <= t { k - 1 } else { last_at_or_before(s, t, k - 1) }
}

/// The last keyframe among entries `0..=k`, if any.
pub open spec fn last_keyframe(s: Seq<IndexEntry>, k: int) -> Option<int>
    decreases k + 1,
{
    if k < 0 { None } else if s[k].keyframe { Some(k) } else { last_keyframe(s, k - 1) }
}

/// The last entry at or before byte position `p` among the first `k`.
pub open spec fn last_at_or_before_pos(s: Seq<IndexEntry>, p: u64, k: int) -> Option<int>
    decreases k,
{
    if k <= 0 { None } else if s[k - 1].pos <= p { Some(k - 1) } else { last_at_or_before_pos(s, p, k - 1) }
}

/// A seek index for a single stream.
#[derive(Debug, Clone)]
pub struct SeekIndex {
    entries: Vec<IndexEntry>,
}

impl SeekIndex {
    /// The entries, in order of addition.
    pub closed spec fn view(&self) -> Seq<IndexEntry> {
        self.entries@
    }

    /// An empty index.
    pub fn new() -> (r: Self)
        ensures r@ == Seq::<IndexEntry>::empty(),
    {
        SeekIndex { entries: Vec::new() }
    }

    /// Add an entry to the index.
    pub fn add(&mut self, entry: IndexEntry)
        ensures final(self)@ == old(self)@.push(entry),
    {
        self.entries.push(entry);
    }

    /// Number of entries.
    pub fn len(&self) -> (r: usize)
        ensures r == self@.len(),
    {
        self.entries.len()
    }

    /// Whether the index is empty.
    pub fn is_empty(&self) -> (r: bool)
        ensures r == (self@.len() == 0),
    {
        self.entries.len() == 0
    }

    /// Find the entry for `timestamp` by binary search, for entries in
    /// order of time: the last one at or before it (the first entry when
    /// none is). With `keyframe_only`, the last keyframe at or before that
    /// entry instead.
    pub fn find(&self, timestamp: i64, keyframe_only: bool) -> (r: Option<&IndexEntry>)
        ensures
            self@.len() == 0 ==> r is None,
            self@.len() > 0 && sorted_by_time(self@) ==> ({
                let f = last_at_or_before(self@, timestamp, self@.len() as int);
                let idx = if f >= 0 { f } else { 0 };
                &&& !keyframe_only ==> r == Some(&self@[idx])
                &&& keyframe_only ==> match last_keyframe(self@, idx) {
                    Some(k) => r == Some(&self@[k]),
                    None => r is None,
                }
            }),
            r matches Some(e) ==> self@.contains(*e),
    {
        let n = self.entries.len();
        if n == 0 {
            return None;
        }
        let ghost s = self.entries@;
        // Count the entries at or before the time.
        let mut lo: usize = 0;
        let mut hi: usize = n;
        while lo < hi
            invariant
                lo <= hi <= n, n == s.len(), s == self.entries@,
                sorted_by_time(s) ==> forall|i: int| 0 <= i < lo ==> #[trigger] s[i].timestamp <= timestamp,
                sorted_by_time(s) ==> forall|i: int| hi <= i < n ==> #[trigger] s[i].timestamp > timestamp,
            decreases hi - lo,
        {
            let mid = lo + (hi - lo) / 2;
            if self.entries[mid].timestamp <= timestamp {
                lo = mid + 1;
            } else {
                hi = mid;
            }
        }
        let idx = if lo > 0 { lo - 1 } else { 0 };
        proof {
            if sorted_by_time(s) {
                lemma_last_at_or_before(s, timestamp, lo as int, n as int);
            }
        }
        if keyframe_only {
            let mut i = idx + 1;
            while i > 0
                invariant
                    i <= idx + 1, idx < n, n == s.len(), s == self.entries@, keyframe_only,
                    idx == (if lo > 0 { lo - 1 } else { 0 }),
                    sorted_by_time(s) ==> last_at_or_before(s, timestamp, n as int) == lo - 1,
                    last_keyframe(s, idx as int) == last_keyframe(s, i - 1),
                decreases i,
            {
                if self.entries[i - 1].keyframe {
                    return Some(&self.entries[i - 1]);
                }
                i -= 1;
            }
            None
        } else {
            Some(&self.entries[idx])
        }
    }

    /// Find by byte position: the last entry at or before it.
    pub fn find_by_pos(&self, pos: u64) -> (r: Option<&IndexEntry>)
        ensures
            match last_at_or_before_pos(self@, pos, self@.len() as int) {
                Some(k) => r == Some(&self@[k]),
                None => r is None,
            },
    {
        let mut i = self.entries.len();
        while i > 0
            invariant
                i <= self.entries@.len(),
                last_at_or_before_pos(self.entries@, pos, self.entries@.len() as int)
                    == last_at_or_before_pos(self.entries@, pos, i as int),
            decreases i,
        {
            if self.entries[i - 1].pos <= pos {
                return Some(&self.entries[i - 1]);
            }
            i -= 1;
        }
        None
    }
}

impl Default for SeekIndex {
    fn default() -> (r: Self)
        ensures r@ == Seq::<IndexEntry>::empty(),
    {
        Self::new()
    }
}

/// In time order, the entries at or before a time are the first `lo`.
proof fn lemma_last_at_or_before(s: Seq<IndexEntry>, t: i64, lo: int, k: int)
    requires
        0 <= lo <= k <= s.len(),
        forall|i: int| 0 <= i < lo ==> #[trigger] s[i].timestamp <= t,
        forall|i: int| lo <= i < k ==> #[trigger] s[i].timestamp > t,
    ensures last_at_or_before(s, t, k) == lo - 1,
    decreases k,
{
    if k > lo {
        lemma_last_at_or_before(s, t, lo, k - 1);
    } else if k > 0 {
        assert(s[k - 1].timestamp <= t);
    }
}

} // verus!
