use vstd::prelude::*;

verus! {

/// Result of probing a format.
#[derive(Debug, Clone)]
pub struct ProbeResult {
    /// Name of the matched format.
    pub format_name: String,
    /// Confidence score (0-100). Higher = more confident.
    pub score: u32,
}

/// Maximum bytes to read for probing.
pub const PROBE_BUF_SIZE: usize = 4096;

/// The index of the best score among the first `k`: the first positive
/// score that no earlier one reaches, keeping the earlier one on ties.
pub open spec fn best_among(scores: Seq<u32>, k: int) -> Option<int>
    decreases k,
{
    if k <= 0 {
        None
    } else {
        let b = best_among(scores, k - 1);
        let s = scores[k - 1];
        if s > 0 && match b { Some(i) => s > scores[i], None => true } { Some(k - 1) } else { b }
    }
}

/// The format with the best score: the highest positive score, the first
/// such format on ties; `None` when every score is zero.
pub fn pick_best(names: &[&str], scores: &[u32]) -> (r: Option<ProbeResult>)
    requires names@.len() == scores@.len(),
    ensures
        match best_among(scores@, scores@.len() as int) {
            Some(i) => r matches Some(p) && p.format_name@ == names@[i]@ && p.score == scores@[i],
            None => r is None,
        },
{
    let mut best: Option<usize> = None;
    let mut i: usize = 0;
    while i < scores.len()
        invariant
            i <= scores@.len(), names@.len() == scores@.len(),
            best_among(scores@, i as int) == (match best { Some(b) => Some(b as int), None => None::<int> }),
            best matches Some(b) ==> b < i,
        decreases scores.len() - i,
    {
        let s = scores[i];
        let better = match best { Some(b) => s > scores[b], None => true };
        if s > 0 && better {
            best = Some(i);
        }
        i += 1;
    }
    match best {
        Some(b) => Some(ProbeResult { format_name: String::from_str(names[b]), score: scores[b] }),
        None => None,
    }
}

} // verus!
