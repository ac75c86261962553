use vstd::prelude::*;
use crate::util::error::Result;

verus! {

/// Sample entry from the sample table.
#[derive(Debug, Clone, Copy, PartialEq, Eq, Structural)]
pub struct SampleEntry {
    /// Byte offset of the sample in the file.
    pub offset: u64,
    /// Size of the sample in bytes.
    pub size: u32,
    /// Duration in the track's time scale.
    pub duration: u32,
    /// Whether the sample is a sync sample (key frame).
    pub is_sync: bool,
}

/// The durations of `(count, delta)` runs, one per sample.
pub open spec fn expand_runs(runs: Seq<(u32, u32)>) -> Seq<u32>
    decreases runs.len(),
{
    if runs.len() == 0 {
        Seq::empty()
    } else {
        Seq::new(runs[0].0 as nat, |_j: int| runs[0].1) + expand_runs(runs.drop_first())
    }
}

/// The duration of sample `i`: from the runs, else that of the last sample
/// the runs give, else 1.
pub open spec fn sample_duration(runs: Seq<(u32, u32)>, i: int) -> u32 {
    let e = expand_runs(runs);
    if i < e.len() { e[i] } else if e.len() > 0 { e.last() } else { 1 }
}

/// Samples per chunk for the (1-based) chunk number `c`: the last entry
/// whose first chunk is at most `c`, else 1.
pub open spec fn spc_for(tab: Seq<(u32, u32)>, c: int) -> u32
    decreases tab.len(),
{
    if tab.len() == 0 { 1 } else if tab.last().0 <= c { tab.last().1 } else { spc_for(tab.drop_last(), c) }
}

/// The 1-based number of chunk `k`, as a 32-bit value.
pub open spec fn chunk_number(k: int) -> int {
    (k + 1) % 4294967296
}

/// (chunk, index within chunk) for each sample of chunks `0..k`.
pub open spec fn chunk_runs(tab: Seq<(u32, u32)>, k: nat) -> Seq<(int, int)>
    decreases k,
{
    if k == 0 {
        Seq::empty()
    } else {
        let c = k - 1;
        chunk_runs(tab, c as nat) + Seq::new(spc_for(tab, chunk_number(c)) as nat, |s: int| (c as int, s))
    }
}

/// (chunk, index within chunk) of the first `n` samples: one sample per
/// chunk (the last chunk for any more) without a sample-to-chunk table or
/// chunk offsets, else from the table, for at most `n` samples.
pub open spec fn chunk_map(n: nat, num_chunks: nat, tab: Seq<(u32, u32)>) -> Seq<(int, int)> {
    if tab.len() == 0 || num_chunks == 0 {
        Seq::new(n, |i: int| (if i < num_chunks - 1 { i } else if num_chunks > 0 { num_chunks - 1 } else { 0 }, 0int))
    } else {
        let f = chunk_runs(tab, num_chunks);
        if f.len() > n { f.take(n as int) } else { f }
    }
}

/// The sum of `sizes[a..b]`.
pub open spec fn sum_sizes(sizes: Seq<u32>, a: int, b: int) -> nat
    decreases b - a,
{
    if b <= a { 0 } else { sum_sizes(sizes, a, b - 1) + sizes[b - 1] as nat }
}

/// Sample `i` of the table: at its chunk's offset plus the sizes of the
/// samples before it in the chunk (modulo 2^64); a sync sample if there is
/// no sync table or the table holds its 1-based number.
pub open spec fn sample_at(sizes: Seq<u32>, offsets: Seq<u64>, runs: Seq<(u32, u32)>,
    tab: Seq<(u32, u32)>, sync: Option<Seq<u32>>, i: int) -> SampleEntry
{
    let map = chunk_map(sizes.len(), offsets.len(), tab);
    let (c, k) = if i < map.len() { map[i] } else { (0int, 0int) };
    let base: int = if 0 <= c < offsets.len() { offsets[c] as int } else { 0 };
    let intra: int = if k > 0 { sum_sizes(sizes, i - k, i) as int } else { 0 };
    SampleEntry {
        offset: ((base + intra) % 18446744073709551616) as u64,
        size: sizes[i],
        duration: sample_duration(runs, i),
        is_sync: match sync {
            Some(v) => v.contains(((i + 1) % 4294967296) as u32),
            None => true,
        },
    }
}

/// The durations of the runs, padded to at least `n` (see [`sample_duration`]).
fn expand_durations(durations: &[(u32, u32)], n: usize) -> (r: Vec<u32>)
    ensures
        r@.len() >= n,
        forall|i: int| 0 <= i < n ==> #[trigger] r@[i] == sample_duration(durations@, i),
{
    let mut out: Vec<u32> = Vec::new();
    let mut k: usize = 0;
    assert(durations@.skip(0) =~= durations@);
    while k < durations.len()
        invariant
            k <= durations@.len(),
            out@ + expand_runs(durations@.skip(k as int)) == expand_runs(durations@),
        decreases durations.len() - k,
    {
        let (count, delta) = durations[k];
        let ghost before = out@;
        let mut j: u32 = 0;
        while j < count
            invariant j <= count, out@ == before + Seq::new(j as nat, |_x: int| delta),
            decreases count - j,
        {
            out.push(delta);
            j += 1;
            assert(out@ =~= before + Seq::new(j as nat, |_x: int| delta));
        }
        proof {
            let rest = durations@.skip(k as int);
            assert(rest.drop_first() =~= durations@.skip(k + 1));
            assert(rest[0] == (count, delta));
            assert(before + (Seq::new(count as nat, |_x: int| delta) + expand_runs(rest.drop_first()))
                =~= out@ + expand_runs(durations@.skip(k + 1)));
        }
        k += 1;
    }
    proof {
        assert(durations@.skip(k as int) =~= Seq::<(u32, u32)>::empty());
        assert(out@ + Seq::<u32>::empty() =~= out@);
    }
    let ghost e = out@;
    while out.len() < n
        invariant
            e == expand_runs(durations@), out@.len() >= e.len(), out@.subrange(0, e.len() as int) == e,
            forall|i: int| e.len() <= i < out@.len() ==> #[trigger] out@[i] == (if e.len() > 0 { e.last() } else { 1u32 }),
        decreases n - out@.len(),
    {
        let v = if out.len() > 0 { out[out.len() - 1] } else { 1 };
        proof {
            if out@.len() > 0 {
                if out@.len() > e.len() {
                    assert(out@[out@.len() - 1] == (if e.len() > 0 { e.last() } else { 1u32 }));
                } else {
                    assert(out@[out@.len() - 1] == out@.subrange(0, e.len() as int)[e.len() - 1]);
                }
            }
        }
        out.push(v);
        assert(out@.subrange(0, e.len() as int) =~= e);
    }
    proof {
        assert forall|i: int| 0 <= i < n implies #[trigger] out@[i] == sample_duration(durations@, i) by {
            if i < e.len() {
                assert(out@[i] == out@.subrange(0, e.len() as int)[i]);
            }
        }
    }
    out
}

/// Samples per chunk for chunk number `c` (see [`spc_for`]).
fn spc_lookup(tab: &[(u32, u32)], c: u32) -> (r: u32)
    ensures r == spc_for(tab@, c as int),
{
    let mut i = tab.len();
    assert(tab@.take(i as int) =~= tab@);
    while i > 0
        invariant i <= tab@.len(), spc_for(tab@, c as int) == spc_for(tab@.take(i as int), c as int),
        decreases i,
    {
        let ghost t = tab@.take(i as int);
        assert(t.drop_last() =~= tab@.take(i - 1));
        if tab[i - 1].0 <= c {
            return tab[i - 1].1;
        }
        i -= 1;
    }
    assert(tab@.take(0) =~= Seq::<(u32, u32)>::empty());
    1
}

/// The chunk map (see [`chunk_map`]), with each sample's index within its
/// chunk at most its own index and below 2^32.
fn build_chunk_map(n: usize, num_chunks: usize, tab: &[(u32, u32)]) -> (r: Vec<(usize, usize)>)
    ensures
        r@.len() == chunk_map(n as nat, num_chunks as nat, tab@).len(),
        r@.len() <= n,
        forall|j: int| #![trigger r@[j]] 0 <= j < r@.len() ==> r@[j].0 as int == chunk_map(n as nat, num_chunks as nat, tab@)[j].0
            && r@[j].1 as int == chunk_map(n as nat, num_chunks as nat, tab@)[j].1
            && r@[j].1 <= j && r@[j].1 < 4294967296,
{
    let ghost m = chunk_map(n as nat, num_chunks as nat, tab@);
    let mut map: Vec<(usize, usize)> = Vec::new();
    if tab.len() == 0 || num_chunks == 0 {
        let mut i: usize = 0;
        while i < n
            invariant
                i <= n, map@.len() == i, m == chunk_map(n as nat, num_chunks as nat, tab@),
                tab@.len() == 0 || num_chunks == 0,
                forall|j: int| #![trigger map@[j]] 0 <= j < i ==> map@[j].0 as int == m[j].0 && map@[j].1 as int == m[j].1
                    && map@[j].1 <= j && map@[j].1 < 4294967296,
            decreases n - i,
        {
            let last = if num_chunks > 0 { num_chunks - 1 } else { 0 };
            let c = if i < last { i } else { last };
            let ghost before = map@;
            map.push((c, 0));
            proof {
                assert(m[i as int] == (if i < num_chunks - 1 { i as int } else if num_chunks > 0 { num_chunks - 1 } else { 0int }, 0int));
                assert forall|j: int| #![trigger map@[j]] 0 <= j < i + 1 implies map@[j].0 as int == m[j].0 && map@[j].1 as int == m[j].1
                    && map@[j].1 <= j && map@[j].1 < 4294967296 by {
                    if j < i { assert(map@[j] == before[j]); } else { assert(map@[j] == (c, 0usize)); }
                }
            }
            i += 1;
        }
        return map;
    }
    let mut sample_idx: usize = 0;
    let mut chunk_idx: usize = 0;
    while chunk_idx < num_chunks
        invariant
            chunk_idx <= num_chunks, m == chunk_map(n as nat, num_chunks as nat, tab@),
            tab@.len() > 0, num_chunks > 0,
            sample_idx == map@.len(), sample_idx <= n,
            sample_idx == (if chunk_runs(tab@, chunk_idx as nat).len() > n { n as int } else { chunk_runs(tab@, chunk_idx as nat).len() as int }),
            forall|j: int| #![trigger map@[j]] 0 <= j < map@.len() ==> map@[j].0 as int == chunk_runs(tab@, chunk_idx as nat)[j].0
                && map@[j].1 as int == chunk_runs(tab@, chunk_idx as nat)[j].1,
            forall|j: int| #![trigger map@[j]] 0 <= j < map@.len() ==> map@[j].1 <= j && map@[j].1 < 4294967296,
        decreases num_chunks - chunk_idx,
    {
        let cu: u32 = (chunk_idx as u64 % 4294967296) as u32;
        let chunk_num = cu.wrapping_add(1);
        assert(chunk_num == chunk_number(chunk_idx as int));
        let spc = spc_lookup(tab, chunk_num);
        let ghost f0 = chunk_runs(tab@, chunk_idx as nat);
        let ghost f1 = chunk_runs(tab@, (chunk_idx + 1) as nat);
        assert(f1 =~= f0 + Seq::new(spc as nat, |s: int| (chunk_idx as int, s)));
        proof {
            assert forall|j: int| #![trigger map@[j]] 0 <= j < map@.len() implies map@[j].0 as int == f1[j].0 && map@[j].1 as int == f1[j].1 by {
                assert(map@[j].0 as int == f0[j].0 && map@[j].1 as int == f0[j].1);
                assert(f1[j] == f0[j]);
            }
        }
        let mut s: u32 = 0;
        while s < spc
            invariant
                s <= spc, sample_idx == map@.len(), sample_idx <= n,
                f1 == f0 + Seq::new(spc as nat, |x: int| (chunk_idx as int, x)),
                f0 == chunk_runs(tab@, chunk_idx as nat), f1 == chunk_runs(tab@, (chunk_idx + 1) as nat),
                chunk_idx < num_chunks,
                sample_idx == (if f0.len() + s > n { n as int } else { f0.len() + s }),
                forall|j: int| #![trigger map@[j]] 0 <= j < map@.len() ==> map@[j].0 as int == f1[j].0 && map@[j].1 as int == f1[j].1,
                forall|j: int| #![trigger map@[j]] 0 <= j < map@.len() ==> map@[j].1 <= j && map@[j].1 < 4294967296,
            ensures
                sample_idx == (if f1.len() > n { n as int } else { f1.len() as int }),
            decreases spc - s,
        {
            if sample_idx >= n {
                break;
            }
            let ghost before = map@;
            map.push((chunk_idx, s as usize));
            proof {
                assert(sample_idx == f0.len() + s);
                assert(f1[sample_idx as int] == (chunk_idx as int, s as int));
                assert(s as int <= sample_idx);
                assert forall|j: int| #![trigger map@[j]] 0 <= j < map@.len() implies map@[j].0 as int == f1[j].0 && map@[j].1 as int == f1[j].1 by {
                    if j < before.len() { assert(map@[j] == before[j]); } else { assert(map@[j] == (chunk_idx, s as usize)); }
                }
                assert forall|j: int| #![trigger map@[j]] 0 <= j < map@.len() implies map@[j].1 <= j && map@[j].1 < 4294967296 by {
                    if j < before.len() { assert(map@[j] == before[j]); } else { assert(map@[j] == (chunk_idx, s as usize)); }
                }
            }
            sample_idx += 1;
            s += 1;
        }
        chunk_idx += 1;
    }
    map
}

/// The sum of `sizes[a..b]` (see [`sum_sizes`]), which has fewer than 2^32
/// terms.
fn sum_range(sizes: &[u32], a: usize, b: usize) -> (r: u64)
    requires a <= b <= sizes@.len(), b - a < 4294967296,
    ensures r == sum_sizes(sizes@, a as int, b as int),
{
    let mut t: u64 = 0;
    let mut j = a;
    while j < b
        invariant a <= j <= b, b <= sizes@.len(), b - a < 4294967296,
            t == sum_sizes(sizes@, a as int, j as int), t <= (j - a) * 4294967295,
        decreases b - j,
    {
        assert((j - a + 1) * 4294967295 <= 4294967296 * 4294967295) by (nonlinear_arith)
            requires j - a + 1 <= 4294967296;
        t = t + sizes[j] as u64;
        j += 1;
    }
    t
}

/// Whether `v` holds `x`.
fn holds(v: &Vec<u32>, x: u32) -> (r: bool)
    ensures r == v@.contains(x),
{
    let mut i: usize = 0;
    while i < v.len()
        invariant i <= v@.len(), forall|j: int| 0 <= j < i ==> v@[j] != x,
        decreases v.len() - i,
    {
        if v[i] == x {
            return true;
        }
        i += 1;
    }
    false
}

/// Build a flat sample table from the MP4 sample table boxes: sample sizes
/// (stsz), chunk offsets (stco/co64), duration runs (stts), the
/// sample-to-chunk table (stsc) and the sync samples (stss).
pub fn build_sample_table(
    sizes: &[u32],
    chunk_offsets: &[u64],
    durations: &[(u32, u32)],
    samples_per_chunk: &[(u32, u32)],
    sync_samples: &Option<Vec<u32>>,
) -> (r: Result<Vec<SampleEntry>>)
    ensures
        r matches Ok(t) && t@.len() == sizes@.len()
            && forall|i: int| 0 <= i < sizes@.len() ==> #[trigger] t@[i] == sample_at(sizes@, chunk_offsets@,
                durations@, samples_per_chunk@, match sync_samples { Some(v) => Some(v@), None => None }, i),
{
    let n = sizes.len();
    let mut samples: Vec<SampleEntry> = Vec::new();
    if n == 0 {
        return Ok(samples);
    }
    let dur = expand_durations(durations, n);
    let map = build_chunk_map(n, chunk_offsets.len(), samples_per_chunk);
    let ghost sync = match sync_samples { Some(v) => Some(v@), None => None::<Seq<u32>> };
    let mut i: usize = 0;
    while i < n
        invariant
            i <= n, n == sizes@.len(), samples@.len() == i, dur@.len() >= n,
            forall|j: int| 0 <= j < n ==> #[trigger] dur@[j] == sample_duration(durations@, j),
            sync == match sync_samples { Some(v) => Some(v@), None => None::<Seq<u32>> },
            map@.len() == chunk_map(n as nat, chunk_offsets@.len(), samples_per_chunk@).len(),
            forall|j: int| #![trigger map@[j]] 0 <= j < map@.len() ==> map@[j].0 as int == chunk_map(n as nat, chunk_offsets@.len(), samples_per_chunk@)[j].0
                && map@[j].1 as int == chunk_map(n as nat, chunk_offsets@.len(), samples_per_chunk@)[j].1
                && map@[j].1 <= j && map@[j].1 < 4294967296,
            forall|j: int| 0 <= j < i ==> #[trigger] samples@[j] == sample_at(sizes@, chunk_offsets@,
                durations@, samples_per_chunk@, sync, j),
        decreases n - i,
    {
        let (chunk_idx, offset_in_chunk) = if i < map.len() { map[i] } else { (0, 0) };
        let chunk_offset: u64 = if chunk_idx < chunk_offsets.len() { chunk_offsets[chunk_idx] } else { 0 };
        let intra: u64 = if offset_in_chunk > 0 {
            sum_range(sizes, i - offset_in_chunk, i)
        } else {
            0
        };
        let is_sync = match sync_samples {
            Some(v) => {
                let num: u32 = ((i as u64 + 1) % 4294967296) as u32;
                holds(v, num)
            }
            None => true,
        };
        let e = SampleEntry {
            offset: chunk_offset.wrapping_add(intra),
            size: sizes[i],
            duration: dur[i],
            is_sync,
        };
        samples.push(e);
        i += 1;
    }
    Ok(samples)
}

} // verus!
