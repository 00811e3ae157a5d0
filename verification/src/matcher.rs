//! The matcher's score semantics: a comparison either yields a score or cannot be made, a
//! template's score is the best over its sample pairs, a verify decision compares a score with a
//! threshold, and an identify decision picks the first-best gallery entry above the threshold.

use vstd::prelude::*;

verus! {

/// The outcome of scoring one template against another.
///
/// [`MatchScore::Scored`] with `0` is a real comparison that found nothing in common;
/// [`MatchScore::Incomparable`] means there were no host-side minutiae to compare at all.
#[derive(Clone, Copy, Debug, PartialEq, Eq, Structural)]
#[non_exhaustive]
pub enum MatchScore {
    /// Both templates carried host-side minutiae; the value is the raw score.
    Scored(u32),
    /// At least one template has no host-side minutiae to compare.
    Incomparable,
}

impl MatchScore {
    /// The score if the pair was comparable, else `None`.
    pub fn score(self) -> (r: Option<u32>)
        ensures
            r == match self {
                MatchScore::Scored(s) => Some(s),
                MatchScore::Incomparable => None::<u32>,
            },
    {
        match self {
            MatchScore::Scored(score) => Some(score),
            MatchScore::Incomparable => None,
        }
    }

    /// Whether this outcome clears `threshold`: a score at or above it. An incomparable pair
    /// never accepts.
    pub fn accepts(self, threshold: u32) -> (r: bool)
        ensures
            r == (self matches MatchScore::Scored(s) && s >= threshold),
    {
        match self {
            MatchScore::Scored(score) => score >= threshold,
            MatchScore::Incomparable => false,
        }
    }
}

/// A decision accepts exactly when the pair has a score and it reaches the threshold; lowering
/// the threshold never withdraws an acceptance.
pub proof fn lemma_accepts_is_score_at_threshold(m: MatchScore, t1: u32, t2: u32)
    ensures
        (m matches MatchScore::Scored(s) && s >= t1) <==> (match m {
            MatchScore::Scored(s) => Some(s),
            MatchScore::Incomparable => None::<u32>,
        } matches Some(s) && s >= t1),
        t2 <= t1 && (m matches MatchScore::Scored(s) && s >= t1) ==> (m matches MatchScore::Scored(
            s,
        ) && s >= t2),
{
}

/// The largest of the first `n` scores, `0` for none.
pub open spec fn max_upto(s: Seq<u32>, n: int) -> u32
    decreases n,
{
    if n <= 0 {
        0
    } else {
        let m = max_upto(s, n - 1);
        if s[n - 1] > m {
            s[n - 1]
        } else {
            m
        }
    }
}

/// The best of the scores of every sample pair (`0` when there are none): a template scores as
/// its best-matching pair of captures.
pub fn best_score(pair_scores: &[u32]) -> (best: u32)
    ensures
        best == max_upto(pair_scores@, pair_scores@.len() as int),
        forall|k: int| 0 <= k < pair_scores@.len() ==> pair_scores@[k] <= best,
        pair_scores@.len() > 0 ==> exists|k: int| 0 <= k < pair_scores@.len() && pair_scores@[k] == best,
{
    let mut best: u32 = 0;
    let mut k: usize = 0;
    while k < pair_scores.len()
        invariant
            k <= pair_scores@.len(),
            best == max_upto(pair_scores@, k as int),
            forall|j: int| 0 <= j < k ==> pair_scores@[j] <= best,
            k > 0 ==> exists|j: int| 0 <= j < k && pair_scores@[j] == best,
        decreases pair_scores@.len() - k,
    {
        if pair_scores[k] > best {
            best = pair_scores[k];
        }
        k += 1;
    }
    best
}

/// The outcome of comparing two templates whose sample pairs scored `pair_scores`: the best pair
/// when both templates carry host-side minutiae, incomparable otherwise.
pub fn match_outcome(comparable: bool, pair_scores: &[u32]) -> (m: MatchScore)
    ensures
        comparable ==> m == MatchScore::Scored(max_upto(pair_scores@, pair_scores@.len() as int)),
        !comparable ==> m == MatchScore::Incomparable,
{
    if !comparable {
        return MatchScore::Incomparable;
    }
    MatchScore::Scored(best_score(pair_scores))
}

/// The score of entry `k`, if it is comparable and reaches `threshold`.
pub open spec fn candidate(s: Seq<MatchScore>, k: int, threshold: u32) -> Option<u32> {
    match s[k] {
        MatchScore::Scored(v) => if v >= threshold {
            Some(v)
        } else {
            None
        },
        MatchScore::Incomparable => None,
    }
}

/// The first-best candidate among the first `n` entries: the lowest index whose score is the
/// largest of those reaching the threshold.
pub open spec fn first_best(s: Seq<MatchScore>, n: int, threshold: u32) -> Option<(int, u32)>
    decreases n,
{
    if n <= 0 {
        None
    } else {
        let prev = first_best(s, n - 1, threshold);
        match candidate(s, n - 1, threshold) {
            None => prev,
            Some(v) => match prev {
                None => Some((n - 1, v)),
                Some(p) => if v > p.1 {
                    Some((n - 1, v))
                } else {
                    prev
                },
            },
        }
    }
}

/// Identify (1:N) given each gallery entry's outcome against the probe: the index of the
/// strongest entry that clears `threshold`, ties going to the lowest index, or `None` if none
/// clears it. Incomparable entries are never candidates.
pub fn identify_best(scores: &[MatchScore], threshold: u32) -> (r: Option<usize>)
    ensures
        r matches Some(i) ==> first_best(scores@, scores@.len() as int, threshold) matches Some(p)
            && p.0 == i,
        r is None ==> first_best(scores@, scores@.len() as int, threshold) is None,
{
    let mut best: Option<(usize, u32)> = None;
    let mut i: usize = 0;
    while i < scores.len()
        invariant
            i <= scores@.len(),
            match best {
                None => first_best(scores@, i as int, threshold) is None,
                Some(b) => first_best(scores@, i as int, threshold) == Some((b.0 as int, b.1)),
            },
        decreases scores@.len() - i,
    {
        let score = match scores[i].score() {
            Some(s) => s,
            None => {
                i += 1;
                continue;
            },
        };
        if score >= threshold {
            let better = match best {
                None => true,
                Some((_, b)) => score > b,
            };
            if better {
                best = Some((i, score));
            }
        }
        i += 1;
    }
    match best {
        Some((i, _)) => Some(i),
        None => None,
    }
}

/// What identify picks is a candidate, no candidate beats it, and no earlier candidate equals
/// it; with no pick, no entry is a candidate.
pub proof fn lemma_first_best_is_first_maximum(s: Seq<MatchScore>, n: int, threshold: u32)
    requires
        0 <= n <= s.len(),
    ensures
        first_best(s, n, threshold) matches Some(p) ==> 0 <= p.0 < n && candidate(s, p.0, threshold)
            == Some(p.1) && (forall|k: int|
            0 <= k < n ==> (#[trigger] candidate(s, k, threshold) matches Some(v) ==> v <= p.1))
            && (forall|k: int|
            0 <= k < p.0 ==> !(#[trigger] candidate(s, k, threshold) matches Some(v) && v == p.1)),
        first_best(s, n, threshold) is None ==> forall|k: int|
            0 <= k < n ==> #[trigger] candidate(s, k, threshold) is None,
    decreases n,
{
    if n > 0 {
        lemma_first_best_is_first_maximum(s, n - 1, threshold);
    }
}

} // verus!
