//! Small integer helpers shared across the detector: the wrap-aware distance between two
//! directions, and the relative minima and maxima of an integer sequence.

use vstd::prelude::*;

use crate::contour::INVALID_DIR;

verus! {

/// The shorter way round between two valid directions on a circle of `ndirs`, or
/// [`INVALID_DIR`] when either direction is invalid (negative).
pub open spec fn dir_dist(dir1: int, dir2: int, ndirs: int) -> int {
    if dir1 >= 0 && dir2 >= 0 {
        let d1 = if dir2 >= dir1 {
            dir2 - dir1
        } else {
            dir1 - dir2
        };
        let d2 = ndirs - d1;
        if d1 <= d2 {
            d1
        } else {
            d2
        }
    } else {
        INVALID_DIR as int
    }
}

/// Inner (wrap-aware) distance between two integer directions: the smaller of the direct and the
/// wrap-around distance on a circle of `ndirs`, or [`INVALID_DIR`] if either is invalid.
pub fn closest_dir_dist(dir1: i32, dir2: i32, ndirs: i32) -> (d: i32)
    requires
        0 <= ndirs,
    ensures
        d == dir_dist(dir1 as int, dir2 as int, ndirs as int),
{
    if dir1 >= 0 && dir2 >= 0 {
        let d1 = if dir2 >= dir1 {
            dir2 - dir1
        } else {
            dir1 - dir2
        };
        let d2 = ndirs - d1;
        if d1 <= d2 {
            d1
        } else {
            d2
        }
    } else {
        INVALID_DIR
    }
}

/// The distance between two directions does not depend on their order, and between two valid
/// directions on `0..ndirs` it lies on `0..=ndirs/2`.
pub proof fn lemma_dir_dist_symmetric_and_bounded(dir1: int, dir2: int, ndirs: int)
    requires
        0 <= ndirs,
    ensures
        dir_dist(dir1, dir2, ndirs) == dir_dist(dir2, dir1, ndirs),
        (0 <= dir1 < ndirs && 0 <= dir2 < ndirs) ==> 0 <= dir_dist(dir1, dir2, ndirs) <= ndirs / 2,
        (dir1 < 0 || dir2 < 0) ==> dir_dist(dir1, dir2, ndirs) == INVALID_DIR,
{
}

/// The relative extrema of a sequence: parallel vectors of value, kind (`-1` minimum, `+1`
/// maximum) and index.
pub struct MinMaxs {
    /// The sequence's value at each extremum.
    pub val: Vec<i32>,
    /// `-1` for a minimum, `+1` for a maximum.
    pub kind: Vec<i32>,
    /// Index of each extremum in the sequence.
    pub idx: Vec<i32>,
}

/// The sign of `b - a`: `1` rising, `-1` falling, `0` level.
pub open spec fn trend(a: int, b: int) -> int {
    if b > a {
        1
    } else if b < a {
        -1
    } else {
        0
    }
}

/// The scan over a sequence's steps: the current trend, where the current run started, and the
/// `(index, kind)` of the turning points found so far.
pub struct Scan {
    /// Trend of the current run, `0` until the first rise or fall.
    pub state: int,
    /// Index where the current run started.
    pub start: int,
    /// `(index, kind)` of each turning point, in order.
    pub events: Seq<(int, int)>,
}

/// Fold the step from `s[i]` to `s[i + 1]` into the scan.
///
/// A rise after a fall records a minimum, a fall after a rise a maximum, each at the midpoint of
/// the run that ends; a first rise or fall after a level head records one only when the head is
/// longer than one step. Every rise or fall starts a new run at `i`; level steps change nothing.
pub open spec fn scan_step(s: Seq<i32>, i: int, sc: Scan) -> Scan {
    let t = trend(s[i] as int, s[i + 1] as int);
    let loc = (sc.start + i) / 2;
    if t == 0 {
        sc
    } else if sc.state == t {
        Scan { state: t, start: i, events: sc.events }
    } else if sc.state == -t || i - sc.start > 1 {
        Scan { state: t, start: i, events: sc.events.push((loc, -t)) }
    } else {
        Scan { state: t, start: i, events: sc.events }
    }
}

/// The scan after the steps up to index `i` (`1 <= i`): it starts from the first step's trend at
/// index `0`, then folds in each step from index `1` on.
pub open spec fn scan_upto(s: Seq<i32>, i: int) -> Scan
    decreases i,
{
    if i <= 1 {
        Scan { state: trend(s[0] as int, s[1] as int), start: 0, events: Seq::empty() }
    } else {
        scan_step(s, i - 1, scan_upto(s, i - 1))
    }
}

/// The turning points of `s`, none for fewer than three items.
pub open spec fn extrema(s: Seq<i32>) -> Seq<(int, int)> {
    if s.len() < 3 {
        Seq::empty()
    } else {
        scan_upto(s, s.len() - 1).events
    }
}

/// What the scan keeps true: the run start is behind `i`, the trend is zero only before any
/// turning point, the turning points lie strictly before the run start in increasing order, and
/// the last one is of the kind opposite to the current trend.
pub open spec fn scan_ok(sc: Scan, i: int) -> bool {
    &&& 0 <= sc.start < i
    &&& -1 <= sc.state <= 1
    &&& sc.state == 0 ==> sc.events.len() == 0
    &&& forall|k: int| 0 <= k < sc.events.len() ==> 0 <= #[trigger] sc.events[k].0 < sc.start
    &&& forall|k: int| 0 <= k < sc.events.len() ==> (#[trigger] sc.events[k].1 == 1 || sc.events[k].1 == -1)
    &&& forall|a: int, b: int| 0 <= a < b < sc.events.len() ==> sc.events[a].0 < sc.events[b].0
    &&& forall|k: int| 0 <= k < sc.events.len() - 1 ==> #[trigger] sc.events[k].1 == -sc.events[k + 1].1
    &&& sc.events.len() > 0 ==> sc.events.last().1 == -sc.state
}

/// [`scan_ok`] holds at every step of the scan.
proof fn lemma_scan_ok(s: Seq<i32>, i: int)
    requires
        1 <= i < s.len(),
    ensures
        scan_ok(scan_upto(s, i), i),
    decreases i,
{
    if i > 1 {
        lemma_scan_ok(s, i - 1);
        let sc = scan_upto(s, i - 1);
        let nx = scan_step(s, i - 1, sc);
        assert(nx == scan_upto(s, i));
        let t = trend(s[i - 1] as int, s[i] as int);
        let loc = (sc.start + i - 1) / 2;
        if t != 0 && sc.state != t && (sc.state == -t || i - 1 - sc.start > 1) {
            assert(nx.events == sc.events.push((loc, -t)));
            assert(sc.start <= loc < i - 1);
            assert forall|a: int, b: int| 0 <= a < b < nx.events.len() implies nx.events[a].0
                < nx.events[b].0 by {
                if b == nx.events.len() - 1 {
                    assert(nx.events[a] == sc.events[a]);
                }
            }
            assert forall|k: int| 0 <= k < nx.events.len() - 1 implies #[trigger] nx.events[k].1
                == -nx.events[k + 1].1 by {
                if k + 1 == nx.events.len() - 1 {
                    assert(nx.events[k] == sc.events.last());
                }
            }
        }
    }
}

/// The relative extrema of a sequence lie inside it, strictly in order, each a minimum (`-1`) or
/// a maximum (`+1`), with minima and maxima alternating.
pub proof fn lemma_extrema_well_formed(s: Seq<i32>)
    ensures
        forall|k: int|
            0 <= k < extrema(s).len() ==> 0 <= #[trigger] extrema(s)[k].0 < s.len() - 1,
        forall|k: int|
            0 <= k < extrema(s).len() ==> (#[trigger] extrema(s)[k].1 == 1 || extrema(s)[k].1 == -1),
        forall|a: int, b: int| 0 <= a < b < extrema(s).len() ==> extrema(s)[a].0 < extrema(s)[b].0,
        forall|k: int|
            0 <= k < extrema(s).len() - 1 ==> #[trigger] extrema(s)[k].1 == -extrema(s)[k + 1].1,
{
    if s.len() >= 3 {
        lemma_scan_ok(s, s.len() - 1);
    }
}

/// `s[a + 1..=b]` is level.
pub open spec fn level_run(s: Seq<i32>, a: int, b: int) -> bool {
    forall|j: int| a < j <= b ==> #[trigger] s[j] == s[a + 1]
}

/// `(loc, kind)` marks a turn of `s`: a level run `s[a + 1..=b]` entered by a step of trend
/// `kind` (or, at the head of the sequence, a level start longer than one step) and left by a
/// step of the opposite trend, with `loc` the midpoint of `a` and `b`.
pub open spec fn turn_of(s: Seq<i32>, a: int, b: int, loc: int, kind: int) -> bool {
    &&& 0 <= a < b < s.len() - 1
    &&& (kind == 1 || kind == -1)
    &&& loc == (a + b) / 2
    &&& level_run(s, a, b)
    &&& trend(s[b] as int, s[b + 1] as int) == -kind
    &&& (trend(s[a] as int, s[a + 1] as int) == kind || (a == 0 && b > 1 && s[0] == s[1]))
}

/// `e` marks some turn of `s`.
pub open spec fn marks_turn(s: Seq<i32>, e: (int, int)) -> bool {
    exists|a: int, b: int| #[trigger] turn_of(s, a, b, e.0, e.1)
}

/// What the scan keeps of the runs it has seen: the current run is level since its first step,
/// which had the current trend (or, with no trend yet, the whole head is level), and every
/// turning point found marks a turn.
pub open spec fn runs_ok(s: Seq<i32>, sc: Scan, i: int) -> bool {
    &&& sc.state != 0 ==> trend(s[sc.start] as int, s[sc.start + 1] as int) == sc.state
    &&& sc.state == 0 ==> sc.start == 0 && s[0] == s[1]
    &&& level_run(s, sc.start, i)
    &&& forall|k: int| 0 <= k < sc.events.len() ==> #[trigger] marks_turn(s, sc.events[k])
}

/// [`runs_ok`] holds at every step of the scan.
proof fn lemma_runs_ok(s: Seq<i32>, i: int)
    requires
        1 <= i < s.len(),
    ensures
        runs_ok(s, scan_upto(s, i), i),
    decreases i,
{
    if i > 1 {
        lemma_runs_ok(s, i - 1);
        lemma_scan_ok(s, i - 1);
        let sc = scan_upto(s, i - 1);
        let nx = scan_step(s, i - 1, sc);
        assert(nx == scan_upto(s, i));
        let t = trend(s[i - 1] as int, s[i] as int);
        let loc = (sc.start + i - 1) / 2;
        if t == 0 {
            assert(level_run(s, sc.start, i)) by {
                assert forall|j: int| sc.start < j <= i implies #[trigger] s[j] == s[sc.start + 1] by {
                    if j == i {
                        assert(s[i - 1] == s[sc.start + 1]);
                    }
                }
            }
        }
        let fresh = t != 0 && sc.state != t && (sc.state == -t || i - 1 - sc.start > 1);
        if fresh {
            assert(turn_of(s, sc.start, i - 1, loc, -t));
        } else {
            assert(nx.events == sc.events);
        }
        assert forall|k: int| 0 <= k < nx.events.len() implies #[trigger] marks_turn(s, nx.events[k]) by {
            if fresh && k == nx.events.len() - 1 {
                assert(turn_of(s, sc.start, i - 1, nx.events[k].0, nx.events[k].1));
            } else {
                assert(nx.events[k] == sc.events[k]);
                assert(marks_turn(s, sc.events[k]));
            }
        }
        assert(runs_ok(s, nx, i));
    }
}

/// Each relative extremum of `s` marks a turn: it is the midpoint of a level run that the
/// sequence enters rising and leaves falling (a maximum, `+1`) or enters falling and leaves
/// rising (a minimum, `-1`); a level head longer than one step counts as entered either way.
pub proof fn lemma_extrema_mark_turns(s: Seq<i32>)
    ensures
        forall|k: int| 0 <= k < extrema(s).len() ==> #[trigger] marks_turn(s, extrema(s)[k]),
{
    if s.len() >= 3 {
        lemma_runs_ok(s, s.len() - 1);
        let e = scan_upto(s, s.len() - 1).events;
        assert forall|k: int| 0 <= k < extrema(s).len() implies #[trigger] marks_turn(s, extrema(s)[k]) by {
            assert(extrema(s)[k] == e[k]);
            assert(marks_turn(s, e[k]));
        }
    }
}

/// By index `i` the scan has recorded every turn left before `i`.
proof fn lemma_turns_recorded(s: Seq<i32>, i: int, a: int, b: int, loc: int, kind: int)
    requires
        1 <= i < s.len(),
        turn_of(s, a, b, loc, kind),
        b < i,
    ensures
        scan_upto(s, i).events.contains((loc, kind)),
    decreases i,
{
    let sc = scan_upto(s, i - 1);
    let nx = scan_step(s, i - 1, sc);
    assert(nx == scan_upto(s, i));
    lemma_runs_ok(s, i - 1);
    lemma_scan_ok(s, i - 1);
    let t = trend(s[i - 1] as int, s[i] as int);
    if b < i - 1 {
        lemma_turns_recorded(s, i - 1, a, b, loc, kind);
        let k = choose|k: int| 0 <= k < sc.events.len() && sc.events[k] == (loc, kind);
        assert(nx.events[k] == sc.events[k]);
    } else {
        let st = sc.start;
        if trend(s[a] as int, s[a + 1] as int) == kind {
            if st < a {
                assert(s[a] == s[st + 1] && s[a + 1] == s[st + 1]);
            } else if st > a {
                assert(s[st] == s[a + 1] && s[st + 1] == s[a + 1]);
            }
            assert(st == a);
        } else {
            if sc.state != 0 {
                assert(s[st] == s[1] && s[st + 1] == s[1]);
            }
            assert(sc.state == 0);
        }
        assert(nx.events == sc.events.push((loc, kind)));
        assert(nx.events[nx.events.len() - 1] == (loc, kind));
    }
}

/// Each turn of `s` is one of its relative extrema: the midpoint of a level run the sequence
/// enters rising and leaves falling is a maximum, one entered falling and left rising a minimum,
/// and a level head longer than one step counts as entered either way. With
/// [`lemma_extrema_mark_turns`], the extrema are exactly the turns.
pub proof fn lemma_turns_are_extrema(s: Seq<i32>, a: int, b: int, loc: int, kind: int)
    requires
        turn_of(s, a, b, loc, kind),
    ensures
        extrema(s).contains((loc, kind)),
{
    lemma_turns_recorded(s, s.len() - 1, a, b, loc, kind);
}

/// The extrema vectors hold exactly the turning points of `s`, each with its value.
pub open spec fn minmaxs_of(r: &MinMaxs, s: Seq<i32>) -> bool {
    let e = extrema(s);
    &&& r.val@.len() == e.len() && r.kind@.len() == e.len() && r.idx@.len() == e.len()
    &&& forall|k: int| 0 <= k < e.len() ==> #[trigger] r.idx@[k] == e[k].0
    &&& forall|k: int| 0 <= k < e.len() ==> #[trigger] r.kind@[k] == e[k].1
    &&& forall|k: int| 0 <= k < e.len() ==> #[trigger] r.val@[k] == s[e[k].0]
}

/// Locate the relative minima and maxima of a sequence of integers.
///
/// Walks the runs of the sequence and records each turning point at the midpoint of the run
/// that precedes it: `-1` for a minimum, `+1` for a maximum. Fewer than three items yield none.
pub fn minmaxs(items: &[i32]) -> (r: MinMaxs)
    requires
        items@.len() <= i32::MAX,
    ensures
        minmaxs_of(&r, items@),
{
    let num = items.len();
    let mut val: Vec<i32> = Vec::new();
    let mut kind: Vec<i32> = Vec::new();
    let mut idx: Vec<i32> = Vec::new();
    if num < 3 {
        return MinMaxs { val, kind, idx };
    }
    let ghost s = items@;
    let mut state: i32 = if items[1] > items[0] {
        1
    } else if items[1] < items[0] {
        -1
    } else {
        0
    };
    let mut start: usize = 0;
    let mut i: usize = 1;
    proof {
        lemma_scan_ok(s, 1);
    }
    while i < num - 1
        invariant
            s == items@,
            num == s.len(),
            3 <= num <= i32::MAX,
            1 <= i <= num - 1,
            scan_ok(scan_upto(s, i as int), i as int),
            state == scan_upto(s, i as int).state,
            start == scan_upto(s, i as int).start,
            val@.len() == scan_upto(s, i as int).events.len(),
            kind@.len() == val@.len() && idx@.len() == val@.len(),
            forall|k: int|
                0 <= k < val@.len() ==> #[trigger] idx@[k] == scan_upto(s, i as int).events[k].0,
            forall|k: int|
                0 <= k < val@.len() ==> #[trigger] kind@[k] == scan_upto(s, i as int).events[k].1,
            forall|k: int|
                0 <= k < val@.len() ==> #[trigger] val@[k] == s[scan_upto(s, i as int).events[k].0],
        decreases num - i,
    {
        let ghost sc = scan_upto(s, i as int);
        proof {
            lemma_scan_ok(s, (i + 1) as int);
            assert(scan_upto(s, (i + 1) as int) == scan_step(s, i as int, sc));
        }
        let t: i32 = if items[i + 1] > items[i] {
            1
        } else if items[i + 1] < items[i] {
            -1
        } else {
            0
        };
        if t != 0 {
            if state != t && (state == -t || i - start > 1) {
                let loc = (start + i) / 2;
                val.push(items[loc]);
                kind.push(-t);
                idx.push(loc as i32);
            }
            state = t;
            start = i;
        }
        i += 1;
    }
    MinMaxs { val, kind, idx }
}

} // verus!
