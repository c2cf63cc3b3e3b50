//! Graph search: greedy descent through the upper levels, then a beam
//! search bounded by a width at the target level.
use vstd::prelude::*;

use crate::deletion::PointOffsetType;
use crate::entry_points::{is_first_eligible, none_eligible, EntryPoint, EntryPoints};
use crate::graph_links::{link_ok, links_consistent, GraphLinksView};
use crate::point_filterer::{FilterContext, PointsFilterer, ScoredPointOffset};

verus! {

/// Similarity of points to the query of one search, as order keys: a larger
/// key is a better match.
pub trait RawScorer {
    /// The key of `point_id`.
    spec fn score_of(&self, point_id: PointOffsetType) -> u32;

    fn score_point(&self, point_id: PointOffsetType) -> (r: u32)
        ensures
            r == self.score_of(point_id),
    ;
}

/// Scores looked up in a table of precomputed keys, one per point; a point
/// past the end of the table scores the lowest key.
pub struct ScoreTable {
    pub keys: Vec<u32>,
}

impl RawScorer for ScoreTable {
    open spec fn score_of(&self, point_id: PointOffsetType) -> u32 {
        if (point_id as int) < self.keys@.len() {
            self.keys@[point_id as int]
        } else {
            0
        }
    }

    fn score_point(&self, point_id: PointOffsetType) -> (r: u32) {
        if (point_id as usize) < self.keys.len() {
            self.keys[point_id as usize]
        } else {
            0
        }
    }
}

/// Scores do not increase along `s`.
pub open spec fn sorted_desc(s: Seq<ScoredPointOffset>) -> bool {
    forall|i: int, j: int| 0 <= i < j < s.len() ==> s[i].score >= s[j].score
}

/// No point occurs twice in `s`.
pub open spec fn distinct_points(s: Seq<ScoredPointOffset>) -> bool {
    forall|i: int, j: int| 0 <= i < j < s.len() ==> s[i].idx != s[j].idx
}

/// Every entry of `s` carries the scorer's key of its point.
pub open spec fn scored_by<S: RawScorer>(s: Seq<ScoredPointOffset>, scorer: &S) -> bool {
    forall|i: int| 0 <= i < s.len() ==> (#[trigger] s[i]).score == scorer.score_of(s[i].idx)
}

/// Whether some entry of `s` is for point `q`.
pub open spec fn has_point(s: Seq<ScoredPointOffset>, q: PointOffsetType) -> bool {
    exists|i: int| 0 <= i < s.len() && s[i].idx == q
}

/// Point `q` is in the result `r`, or `r` is full at `bound` entries and
/// `q` scores no better than the worst of them.
pub open spec fn kept_or_outscored<S: RawScorer>(
    r: Seq<ScoredPointOffset>,
    q: PointOffsetType,
    bound: nat,
    scorer: &S,
) -> bool {
    has_point(r, q) || (r.len() == bound && (bound > 0 ==> scorer.score_of(q) <= r.last().score))
}

/// Point `p` could still improve the result `r` of at most `bound` entries:
/// `r` has room, or `p` scores better than the worst kept entry.
pub open spec fn promising<S: RawScorer>(r: Seq<ScoredPointOffset>, p: PointOffsetType, bound: nat, scorer: &S) -> bool {
    r.len() < bound || (r.len() > 0 && scorer.score_of(p) > r.last().score)
}

/// Every neighbor of `p` at `level` is in `visited`.
pub open spec fn expanded<L: GraphLinksView>(
    links: &L,
    visited: Set<PointOffsetType>,
    p: PointOffsetType,
    level: int,
) -> bool {
    forall|k: int|
        0 <= k < links.lists()[p as int][level].len() ==> visited.contains(
            #[trigger] links.lists()[p as int][level][k],
        )
}

/// Inserts `x` into `s`, sorted by descending score, after every entry whose
/// score is not below that of `x`, then keeps at most `bound` entries.
fn insert_bounded(s: &mut Vec<ScoredPointOffset>, x: ScoredPointOffset, bound: usize)
    requires
        sorted_desc(old(s)@),
        old(s)@.len() <= bound,
    ensures
        sorted_desc(final(s)@),
        final(s)@.len() <= bound,
        final(s)@.len() == if old(s)@.len() < bound { old(s)@.len() + 1 } else { bound as nat },
        forall|i: int| 0 <= i < final(s)@.len() ==> #[trigger] final(s)@[i] == x || old(s)@.contains(final(s)@[i]),
        forall|e: ScoredPointOffset|
            (old(s)@.contains(e) || e == x) && !final(s)@.contains(e) ==> final(s)@.len() == bound && (bound > 0
                ==> e.score <= final(s)@.last().score),
        old(s)@.len() == bound && bound > 0 ==> final(s)@.last().score >= old(s)@.last().score,
        distinct_points(old(s)@) && (forall|i: int| 0 <= i < old(s)@.len() ==> (#[trigger] old(s)@[i]).idx != x.idx)
            ==> distinct_points(final(s)@),
{
    let mut pos: usize = 0;
    while pos < s.len() && s[pos].score >= x.score
        invariant
            pos <= s@.len(),
            s@ == old(s)@,
            forall|i: int| 0 <= i < pos ==> #[trigger] s@[i].score >= x.score,
        decreases s@.len() - pos,
    {
        pos = pos + 1;
    }
    let ghost before = s@;
    s.insert(pos, x);
    let ghost ins = s@;
    proof {
        assert(ins == before.insert(pos as int, x));
        assert forall|i: int, j: int| 0 <= i < j < ins.len() implies ins[i].score >= ins[j].score by {
            if j < pos {
            } else if j == pos {
            } else if i < pos {
                assert(ins[j] == before[j - 1]);
                assert(before[i].score >= before[j - 1].score || i == j - 1);
            } else if i == pos {
                assert(ins[j] == before[j - 1]);
                assert(before[pos as int].score < x.score);
                assert(before[pos as int].score >= before[j - 1].score || pos == j - 1);
            } else {
                assert(ins[j] == before[j - 1]);
                assert(ins[i] == before[i - 1]);
            }
        }
        if distinct_points(before) && (forall|i: int| 0 <= i < before.len() ==> (#[trigger] before[i]).idx != x.idx) {
            assert forall|i: int, j: int| 0 <= i < j < ins.len() implies ins[i].idx != ins[j].idx by {
                if i < pos && j > pos {
                    assert(ins[j] == before[j - 1]);
                } else if i > pos {
                    assert(ins[j] == before[j - 1]);
                    assert(ins[i] == before[i - 1]);
                } else if i == pos {
                    assert(ins[j] == before[j - 1]);
                }
            }
        }
        assert forall|i: int| 0 <= i < ins.len() implies #[trigger] ins[i] == x || before.contains(ins[i]) by {
            if i < pos {
                assert(ins[i] == before[i]);
            } else if i > pos {
                assert(ins[i] == before[i - 1]);
            }
        }
        assert forall|e: ScoredPointOffset| before.contains(e) || e == x implies ins.contains(e) by {
            if e == x {
                assert(ins[pos as int] == x);
            } else {
                let i = choose|i: int| 0 <= i < before.len() && before[i] == e;
                if i < pos {
                    assert(ins[i] == e);
                } else {
                    assert(ins[i + 1] == e);
                }
            }
        }
    }
    if s.len() > bound {
        s.truncate(bound);
    }
    proof {
        if ins.len() > bound {
            assert(s@ == ins.take(bound as int));
            assert forall|e: ScoredPointOffset|
                (before.contains(e) || e == x) && !s@.contains(e) implies s@.len() == bound && (bound > 0
                    ==> e.score <= s@.last().score) by {
                let k = choose|k: int| 0 <= k < ins.len() && ins[k] == e;
                if k < bound {
                    assert(s@[k] == e);
                }
                if bound > 0 {
                    assert(s@.last() == ins[bound - 1]);
                }
            }
            if before.len() == bound && bound > 0 {
                assert(s@.last() == ins[bound - 1]);
                if pos < bound {
                    assert(before[pos as int].score < x.score);
                    assert(before[pos as int].score >= before[bound - 1].score || pos == bound - 1);
                    if pos < bound - 1 {
                        assert(ins[bound - 1] == before[bound - 2]);
                    }
                } else {
                    assert(ins[bound - 1] == before[bound - 1]);
                }
            }
        } else {
            assert(s@ == ins);
        }
    }
}

/// Removes and returns the first entry of highest score.
fn pop_best(candidates: &mut Vec<ScoredPointOffset>) -> (r: ScoredPointOffset)
    requires
        old(candidates)@.len() > 0,
    ensures
        exists|i: int| 0 <= i < old(candidates)@.len() && r == old(candidates)@[i] && final(candidates)@ == old(candidates)@.remove(i),
        forall|i: int| 0 <= i < old(candidates)@.len() ==> #[trigger] old(candidates)@[i].score <= r.score,
{
    let mut best: usize = 0;
    let mut i: usize = 1;
    while i < candidates.len()
        invariant
            1 <= i <= candidates@.len(),
            best < i,
            candidates@ == old(candidates)@,
            forall|k: int| 0 <= k < i ==> #[trigger] candidates@[k].score <= candidates@[best as int].score,
        decreases candidates@.len() - i,
    {
        if candidates[i].score > candidates[best].score {
            best = i;
        }
        i = i + 1;
    }
    candidates.remove(best)
}

/// Whether the store holds `point` at `level`.
pub open spec fn at_level<L: GraphLinksView>(links: &L, point: PointOffsetType, level: int) -> bool {
    &&& point < links.lists().len()
    &&& 0 <= level < links.lists()[point as int].len()
}

/// Greedy descent: from `entry_point` at `top_level` down to just above
/// `target_level`, moves at each level to a better-scoring neighbor for as
/// long as one exists. Returns the point reached, held at `target_level`; no
/// neighbor of it on the last level descended scores better.
pub fn search_entry<L: GraphLinksView, S: RawScorer>(
    links: &L,
    entry_point: PointOffsetType,
    top_level: usize,
    target_level: usize,
    scorer: &S,
) -> (r: ScoredPointOffset)
    requires
        links.wf(),
        links_consistent(links.lists()),
        at_level(links, entry_point, top_level as int),
        target_level <= top_level,
    ensures
        at_level(links, r.idx, target_level as int),
        r.score == scorer.score_of(r.idx),
        r.score >= scorer.score_of(entry_point),
        target_level == top_level ==> r.idx == entry_point,
        target_level < top_level ==> forall|k: int|
            0 <= k < links.lists()[r.idx as int][target_level + 1].len() ==> scorer.score_of(
                #[trigger] links.lists()[r.idx as int][target_level + 1][k],
            ) <= r.score,
{
    let mut current = ScoredPointOffset { idx: entry_point, score: scorer.score_point(entry_point) };
    let mut level: usize = top_level;
    while level > target_level
        invariant
            links.wf(),
            links_consistent(links.lists()),
            target_level <= level <= top_level,
            at_level(links, current.idx, level as int),
            current.score == scorer.score_of(current.idx),
            current.score >= scorer.score_of(entry_point),
            target_level == top_level ==> current.idx == entry_point,
            level < top_level ==> forall|k: int|
                0 <= k < links.lists()[current.idx as int][level + 1].len() ==> scorer.score_of(
                    #[trigger] links.lists()[current.idx as int][level + 1][k],
                ) <= current.score,
        decreases level,
    {
        let mut improving = true;
        while improving
            invariant
                links.wf(),
                links_consistent(links.lists()),
                target_level < level,
                at_level(links, current.idx, level as int),
                current.score == scorer.score_of(current.idx),
                current.score >= scorer.score_of(entry_point),
                !improving ==> forall|k: int|
                    0 <= k < links.lists()[current.idx as int][level as int].len() ==> scorer.score_of(
                        #[trigger] links.lists()[current.idx as int][level as int][k],
                    ) <= current.score,
            decreases (if improving { 1int } else { 0int }) + (u32::MAX - current.score),
        {
            let start = current;
            let neighbors = links.links(current.idx, level);
            improving = false;
            let mut k: usize = 0;
            while k < neighbors.len()
                invariant
                    links.wf(),
                    links_consistent(links.lists()),
                    k <= neighbors@.len(),
                    neighbors@ == links.lists()[start.idx as int][level as int],
                    at_level(links, start.idx, level as int),
                    at_level(links, current.idx, level as int),
                    current.score == scorer.score_of(current.idx),
                    current.score >= start.score,
                    start.score >= scorer.score_of(entry_point),
                    improving ==> current.score > start.score,
                    !improving ==> current == start,
                    forall|kk: int| 0 <= kk < k ==> scorer.score_of(#[trigger] neighbors@[kk]) <= current.score,
                decreases neighbors@.len() - k,
            {
                let neighbor = neighbors[k];
                assert(link_ok(links.lists(), start.idx as int, level as int, k as int));
                let score = scorer.score_point(neighbor);
                if score > current.score {
                    current = ScoredPointOffset { idx: neighbor, score };
                    improving = true;
                }
                k = k + 1;
            }
        }
        level = level - 1;
    }
    current
}

/// The number of `false` flags in `s`.
pub open spec fn count_false(s: Seq<bool>) -> nat
    decreases s.len(),
{
    if s.len() == 0 {
        0
    } else {
        count_false(s.drop_last()) + if s.last() { 0nat } else { 1nat }
    }
}

proof fn lemma_count_false_set(s: Seq<bool>, i: int)
    requires
        0 <= i < s.len(),
        !s[i],
    ensures
        count_false(s.update(i, true)) + 1 == count_false(s),
    decreases s.len(),
{
    if i < s.len() - 1 {
        assert(s.update(i, true).drop_last() =~= s.drop_last().update(i, true));
        lemma_count_false_set(s.drop_last(), i);
    } else {
        assert(s.update(i, true).drop_last() =~= s.drop_last());
    }
}

/// Beam search at `level` from `entry`: keeps the `ef` best eligible points
/// found, sorted by descending score (ties in discovery order). Ineligible
/// points are scored and their links followed, but never kept. Expansion
/// stops when the best unexpanded candidate scores below the worst of a
/// full result, or when no candidate is left. Every eligible point that the
/// search visited (the entry among them) is kept, or the result is full and
/// the point scores no better than the worst kept one.
pub fn search_on_level<L: GraphLinksView, F: FilterContext, S: RawScorer>(
    links: &L,
    entry: ScoredPointOffset,
    level: usize,
    ef: usize,
    filterer: &PointsFilterer<F>,
    scorer: &S,
) -> (r: Vec<ScoredPointOffset>)
    requires
        links.wf(),
        links_consistent(links.lists()),
        filterer.covers_all(links.lists().len()),
        at_level(links, entry.idx, level as int),
        entry.score == scorer.score_of(entry.idx),
    ensures
        r@.len() <= ef,
        sorted_desc(r@),
        distinct_points(r@),
        scored_by(r@, scorer),
        forall|i: int| 0 <= i < r@.len() ==> filterer.eligible(#[trigger] r@[i].idx) && r@[i].idx < links.lists().len(),
        exists|visited: Set<PointOffsetType>|
            visited.contains(entry.idx) && (forall|q: PointOffsetType|
                #[trigger] visited.contains(q) && filterer.eligible(q) ==> kept_or_outscored(r@, q, ef as nat, scorer))
                && forall|p: PointOffsetType|
                #[trigger] visited.contains(p) ==> !promising(r@, p, ef as nat, scorer) || expanded(
                    links,
                    visited,
                    p,
                    level as int,
                ),
{
    let n = links.num_points();
    let mut visited: Vec<bool> = Vec::new();
    let mut v: usize = 0;
    while v < n
        invariant
            v <= n,
            visited@ == Seq::new(v as nat, |i: int| false),
        decreases n - v,
    {
        visited.push(false);
        proof {
            assert(visited@ =~= Seq::new((v + 1) as nat, |i: int| false));
        }
        v = v + 1;
    }
    let ghost mut unvisited: nat = count_false(visited@);
    proof {
        lemma_count_false_set(visited@, entry.idx as int);
    }
    visited.set(entry.idx as usize, true);
    let ghost mut vset: Set<PointOffsetType> = Set::empty().insert(entry.idx);
    proof {
        unvisited = (unvisited - 1) as nat;
        assert forall|q: PointOffsetType| #[trigger] vset.contains(q) == (q < n && visited@[q as int]) by {
            if q != entry.idx && q < n {
                assert(visited@[q as int] == Seq::new(n as nat, |i: int| false)[q as int]);
            }
        }
    }
    let mut candidates: Vec<ScoredPointOffset> = Vec::new();
    candidates.push(entry);
    assert(candidates@[0].idx == entry.idx);
    let mut nearest: Vec<ScoredPointOffset> = Vec::new();
    if ef > 0 && filterer.check_vector(entry.idx) {
        nearest.push(entry);
        assert(nearest@[0].idx == entry.idx);
    }
    proof {
        assert forall|q: PointOffsetType| q < n && #[trigger] visited@[q as int] && filterer.eligible(q)
            implies kept_or_outscored(nearest@, q, ef as nat, scorer) by {
            if q != entry.idx {
                assert(visited@[q as int] == Seq::new(n as nat, |i: int| false)[q as int]);
            }
        }
    }
    let mut done = false;
    while !done && candidates.len() > 0
        invariant
            links.wf(),
            links_consistent(links.lists()),
            filterer.covers_all(links.lists().len()),
            n == links.lists().len(),
            visited@.len() == n,
            visited@[entry.idx as int],
            entry.idx < n,
            unvisited == count_false(visited@),
            nearest@.len() <= ef,
            sorted_desc(nearest@),
            distinct_points(nearest@),
            scored_by(nearest@, scorer),
            forall|i: int|
                0 <= i < nearest@.len() ==> filterer.eligible(#[trigger] nearest@[i].idx) && nearest@[i].idx < n
                    && visited@[nearest@[i].idx as int],
            forall|i: int| 0 <= i < candidates@.len() ==> at_level(links, (#[trigger] candidates@[i]).idx, level as int),
            forall|q: PointOffsetType| q < n && #[trigger] visited@[q as int] && filterer.eligible(q)
                ==> kept_or_outscored(nearest@, q, ef as nat, scorer),
            forall|q: PointOffsetType| #[trigger] vset.contains(q) == (q < n && visited@[q as int]),
            scored_by(candidates@, scorer),
            forall|p: PointOffsetType|
                #[trigger] vset.contains(p) ==> !promising(nearest@, p, ef as nat, scorer) || has_point(candidates@, p)
                    || expanded(links, vset, p, level as int),
            done ==> forall|i: int| 0 <= i < candidates@.len() ==> !promising(nearest@, (#[trigger] candidates@[i]).idx, ef as nat, scorer),
        decreases candidates@.len() + unvisited,
    {
        let ghost bound = candidates@.len() + unvisited;
        let ghost cands_before = candidates@;
        let candidate = pop_best(&mut candidates);
        proof {
            let i = choose|i: int| 0 <= i < cands_before.len() && candidate == cands_before[i] && candidates@ == cands_before.remove(i);
            assert forall|j: int| 0 <= j < candidates@.len() implies at_level(links, (#[trigger] candidates@[j]).idx, level as int)
                && candidates@[j].score == scorer.score_of(candidates@[j].idx) by {
                if j < i {
                    assert(candidates@[j] == cands_before[j]);
                } else {
                    assert(candidates@[j] == cands_before[j + 1]);
                }
            }
            assert(candidate.score == scorer.score_of(candidate.idx));
            assert forall|p: PointOffsetType| #[trigger] vset.contains(p) implies !promising(nearest@, p, ef as nat, scorer)
                || has_point(candidates@, p) || expanded(links, vset, p, level as int) || p == candidate.idx by {
                if has_point(cands_before, p) && p != candidate.idx {
                    let j = choose|j: int| 0 <= j < cands_before.len() && cands_before[j].idx == p;
                    if j < i {
                        assert(candidates@[j] == cands_before[j]);
                    } else {
                        assert(candidates@[j - 1] == cands_before[j]);
                    }
                }
            }
        }
        if nearest.len() > 0 && nearest.len() >= ef && candidate.score < nearest[nearest.len() - 1].score {
            done = true;
            proof {
                assert forall|i: int| 0 <= i < candidates@.len() implies !promising(nearest@, (#[trigger] candidates@[i]).idx, ef as nat, scorer) by {
                    assert(cands_before.contains(candidates@[i]));
                }
                assert forall|p: PointOffsetType| #[trigger] vset.contains(p) implies !promising(nearest@, p, ef as nat, scorer)
                    || has_point(candidates@, p) || expanded(links, vset, p, level as int) by {}
            }
        } else {
            let neighbors = links.links(candidate.idx, level);
            let mut k: usize = 0;
            while k < neighbors.len()
                invariant
                    links.wf(),
                    links_consistent(links.lists()),
                    filterer.covers_all(links.lists().len()),
                    n == links.lists().len(),
                    at_level(links, candidate.idx, level as int),
                    neighbors@ == links.lists()[candidate.idx as int][level as int],
                    visited@.len() == n,
                    visited@[entry.idx as int],
                    entry.idx < n,
                    unvisited == count_false(visited@),
                    candidates@.len() + unvisited < bound,
                    nearest@.len() <= ef,
                    sorted_desc(nearest@),
                    distinct_points(nearest@),
                    scored_by(nearest@, scorer),
                    forall|i: int|
                        0 <= i < nearest@.len() ==> filterer.eligible(#[trigger] nearest@[i].idx) && nearest@[i].idx < n
                            && visited@[nearest@[i].idx as int],
                    forall|i: int| 0 <= i < candidates@.len() ==> at_level(links, (#[trigger] candidates@[i]).idx, level as int),
                    forall|q: PointOffsetType| q < n && #[trigger] visited@[q as int] && filterer.eligible(q)
                        ==> kept_or_outscored(nearest@, q, ef as nat, scorer),
                    forall|q: PointOffsetType| #[trigger] vset.contains(q) == (q < n && visited@[q as int]),
                    scored_by(candidates@, scorer),
                    forall|p: PointOffsetType|
                        #[trigger] vset.contains(p) ==> !promising(nearest@, p, ef as nat, scorer) || has_point(candidates@, p)
                            || expanded(links, vset, p, level as int) || p == candidate.idx,
                    forall|kk: int| 0 <= kk < k ==> vset.contains(#[trigger] neighbors@[kk]),
                decreases neighbors@.len() - k,
            {
                let neighbor = neighbors[k];
                assert(link_ok(links.lists(), candidate.idx as int, level as int, k as int));
                if !visited[neighbor as usize] {
                    let ghost visited_before = visited@;
                    proof {
                        lemma_count_false_set(visited@, neighbor as int);
                    }
                    visited.set(neighbor as usize, true);
                    let ghost vset_before = vset;
                    let ghost cands_prev = candidates@;
                    proof {
                        unvisited = (unvisited - 1) as nat;
                        vset = vset.insert(neighbor);
                        assert forall|q: PointOffsetType| #[trigger] vset.contains(q) == (q < n && visited@[q as int]) by {
                            if q != neighbor {
                                assert(vset_before.contains(q) == (q < n && visited_before[q as int]));
                            }
                        }
                    }
                    let score = scorer.score_point(neighbor);
                    let worth = nearest.len() < ef || (nearest.len() > 0 && score > nearest[nearest.len() - 1].score);
                    let ghost old_nearest = nearest@;
                    let ghost mut inserted = false;
                    let found = ScoredPointOffset { idx: neighbor, score };
                    if worth {
                        candidates.push(found);
                        if filterer.check_vector(neighbor) {
                            assert forall|i: int| 0 <= i < old_nearest.len() implies (#[trigger] old_nearest[i]).idx != found.idx by {
                                assert(visited_before[old_nearest[i].idx as int]);
                            }
                            insert_bounded(&mut nearest, found, ef);
                            proof {
                                inserted = true;
                                assert forall|i: int| 0 <= i < nearest@.len() implies filterer.eligible(#[trigger] nearest@[i].idx)
                                    && nearest@[i].idx < n && visited@[nearest@[i].idx as int]
                                    && nearest@[i].score == scorer.score_of(nearest@[i].idx) by {
                                    if nearest@[i] != found {
                                        let j = choose|j: int| 0 <= j < old_nearest.len() && old_nearest[j] == nearest@[i];
                                        assert(filterer.eligible(old_nearest[j].idx));
                                    }
                                }
                            }
                        }
                        proof {
                            assert(at_level(links, candidates@[candidates@.len() - 1].idx, level as int));
                            assert forall|i: int| 0 <= i < candidates@.len() implies at_level(links, (#[trigger] candidates@[i]).idx, level as int) by {
                                if i < candidates@.len() - 1 {
                                    assert(candidates@[i] == candidates@.drop_last()[i]);
                                }
                            }
                        }
                    }
                    proof {
                        assert(candidates@.len() > 0 ==> candidates@[candidates@.len() - 1].score == scorer.score_of(
                            candidates@[candidates@.len() - 1].idx,
                        ));
                        assert forall|i: int| 0 <= i < candidates@.len() implies (#[trigger] candidates@[i]).score
                            == scorer.score_of(candidates@[i].idx) by {
                            if i < cands_prev.len() {
                                assert(candidates@[i] == cands_prev[i]);
                            }
                        }
                        assert forall|p: PointOffsetType| #[trigger] vset.contains(p) implies !promising(nearest@, p, ef as nat, scorer)
                            || has_point(candidates@, p) || expanded(links, vset, p, level as int) || p == candidate.idx by {
                            if p == neighbor {
                                if worth {
                                    assert(candidates@[candidates@.len() - 1].idx == p);
                                }
                            } else {
                                assert(vset_before.contains(p));
                                if promising(nearest@, p, ef as nat, scorer) {
                                    assert(promising(old_nearest, p, ef as nat, scorer));
                                }
                                if has_point(cands_prev, p) {
                                    let j = choose|j: int| 0 <= j < cands_prev.len() && cands_prev[j].idx == p;
                                    assert(candidates@[j] == cands_prev[j]);
                                }
                                if expanded(links, vset_before, p, level as int) {
                                    assert forall|kk: int| 0 <= kk < links.lists()[p as int][level as int].len() implies vset.contains(
                                        #[trigger] links.lists()[p as int][level as int][kk],
                                    ) by {
                                        assert(vset_before.contains(links.lists()[p as int][level as int][kk]));
                                    }
                                }
                            }
                        }
                        assert forall|kk: int| 0 <= kk <= k implies vset.contains(#[trigger] neighbors@[kk]) by {
                            if kk < k {
                                assert(vset_before.contains(neighbors@[kk]));
                            }
                        }
                        assert(!inserted ==> nearest@ == old_nearest);
                        assert forall|q: PointOffsetType| q < n && #[trigger] visited@[q as int] && filterer.eligible(q)
                            implies kept_or_outscored(nearest@, q, ef as nat, scorer) by {
                            if q == neighbor {
                                if !worth {
                                    assert(old_nearest.len() == ef);
                                } else {
                                    assert(inserted);
                                    if nearest@.contains(found) {
                                        let j = choose|j: int| 0 <= j < nearest@.len() && nearest@[j] == found;
                                        assert(nearest@[j].idx == q);
                                    }
                                }
                            } else {
                                assert(visited_before[q as int]);
                                assert(kept_or_outscored(old_nearest, q, ef as nat, scorer));
                                if inserted {
                                    if has_point(old_nearest, q) {
                                        let i = choose|i: int| 0 <= i < old_nearest.len() && old_nearest[i].idx == q;
                                        let e = old_nearest[i];
                                        assert(old_nearest.contains(e));
                                        if nearest@.contains(e) {
                                            let j = choose|j: int| 0 <= j < nearest@.len() && nearest@[j] == e;
                                            assert(nearest@[j].idx == q);
                                        }
                                    }
                                }
                            }
                        }
                    }
                }
                proof {
                    assert(vset.contains(neighbors@[k as int]));
                }
                k = k + 1;
            }
            proof {
                assert(expanded(links, vset, candidate.idx, level as int)) by {
                    assert forall|kk: int| 0 <= kk < links.lists()[candidate.idx as int][level as int].len() implies vset.contains(
                        #[trigger] links.lists()[candidate.idx as int][level as int][kk],
                    ) by {
                        assert(vset.contains(neighbors@[kk]));
                    }
                }
            }
        }
    }
    proof {
        assert(vset.contains(entry.idx));
        assert forall|q: PointOffsetType| #[trigger] vset.contains(q) && filterer.eligible(q)
            implies kept_or_outscored(nearest@, q, ef as nat, scorer) by {
            assert(visited@[q as int]);
        }
        assert forall|p: PointOffsetType| #[trigger] vset.contains(p) implies !promising(nearest@, p, ef as nat, scorer)
            || expanded(links, vset, p, level as int) by {
            if has_point(candidates@, p) && promising(nearest@, p, ef as nat, scorer) {
                let j = choose|j: int| 0 <= j < candidates@.len() && candidates@[j].idx == p;
                assert(!promising(nearest@, candidates@[j].idx, ef as nat, scorer));
            }
        }
    }
    nearest
}

/// Whether every entry of `eps` is held by the store at its recorded level.
pub open spec fn entries_held<L: GraphLinksView>(links: &L, eps: Seq<EntryPoint>) -> bool {
    forall|j: int| 0 <= j < eps.len() ==> at_level(links, (#[trigger] eps[j]).point_id, eps[j].level as int)
}

/// Searches the graph for the `top` best eligible points: selects the first
/// eligible entry point, descends greedily to level zero, then runs a beam
/// search of width `max(top, ef)` there. The result is sorted by descending
/// score and is empty when no entry point is eligible. Every eligible point
/// that the beam search visited, the point the descent reached among them,
/// is returned, or `top` points are returned and it scores no better than
/// the last of them.
pub fn search<L: GraphLinksView, F: FilterContext, S: RawScorer>(
    links: &L,
    entry_points: &EntryPoints,
    top: usize,
    ef: usize,
    filterer: &PointsFilterer<F>,
    scorer: &S,
) -> (r: Vec<ScoredPointOffset>)
    requires
        links.wf(),
        links_consistent(links.lists()),
        entries_held(links, entry_points@),
        filterer.covers_all(links.lists().len()),
    ensures
        r@.len() <= top,
        sorted_desc(r@),
        distinct_points(r@),
        scored_by(r@, scorer),
        forall|i: int| 0 <= i < r@.len() ==> filterer.eligible(#[trigger] r@[i].idx) && r@[i].idx < links.lists().len(),
        none_eligible(entry_points@, filterer) ==> r@.len() == 0,
        (forall|p: PointOffsetType| !#[trigger] filterer.eligible(p)) ==> r@.len() == 0,
        forall|i: int|
            #[trigger] is_first_eligible(entry_points@, i, filterer) ==> exists|visited: Set<PointOffsetType>, start: PointOffsetType|
                visited.contains(start) && at_level(links, start, 0) && scorer.score_of(start) >= scorer.score_of(
                    entry_points@[i].point_id,
                ) && (entry_points@[i].level == 0 ==> start == entry_points@[i].point_id) && forall|q: PointOffsetType|
                    #[trigger] visited.contains(q) && filterer.eligible(q) ==> kept_or_outscored(r@, q, top as nat, scorer),
        forall|i: int|
            is_first_eligible(entry_points@, i, filterer) && entry_points@[i].level == 0 && top > 0 ==> r@.len() > 0,
{
    proof {
        assert forall|j: int| 0 <= j < entry_points@.len() implies filterer.covers(#[trigger] entry_points@[j].point_id) by {
            assert(at_level(links, entry_points@[j].point_id, entry_points@[j].level as int));
        }
    }
    let entry_point = match entry_points.get_entry_point(filterer) {
        None => return Vec::new(),
        Some(ep) => ep,
    };
    let zero_level_entry = search_entry(links, entry_point.point_id, entry_point.level, 0, scorer);
    let width = if top > ef { top } else { ef };
    let nearest = search_on_level(links, zero_level_entry, 0, width, filterer, scorer);
    let mut result = nearest.clone();
    let ghost beam = nearest@;
    assert(result@ =~= beam) by {
        assert forall|i: int| 0 <= i < beam.len() implies result@[i] == beam[i] by {
            assert(cloned::<ScoredPointOffset>(beam[i], result@[i]));
        }
    }
    if result.len() > top {
        result.truncate(top);
    }
    proof {
        let visited = choose|visited: Set<PointOffsetType>|
            visited.contains(zero_level_entry.idx) && forall|q: PointOffsetType|
                #[trigger] visited.contains(q) && filterer.eligible(q) ==> kept_or_outscored(beam, q, width as nat, scorer);
        assert forall|q: PointOffsetType| #[trigger] visited.contains(q) && filterer.eligible(q)
            implies kept_or_outscored(result@, q, top as nat, scorer) by {
            if has_point(beam, q) {
                let k = choose|k: int| 0 <= k < beam.len() && beam[k].idx == q;
                if k < result@.len() {
                    assert(result@[k].idx == q);
                } else {
                    assert(result@.len() == top);
                    if top > 0 {
                        assert(result@.last() == beam[top - 1]);
                    }
                }
            } else {
                if top > 0 {
                    assert(result@.last() == beam[top - 1]);
                    assert(beam.last().score <= beam[top - 1].score);
                }
            }
        }
        if forall|p: PointOffsetType| !#[trigger] filterer.eligible(p) {
            if result@.len() > 0 {
                assert(filterer.eligible(result@[0].idx));
            }
        }
        assert forall|i: int| #[trigger] is_first_eligible(entry_points@, i, filterer) implies exists|
            visited: Set<PointOffsetType>,
            start: PointOffsetType,
        |
            visited.contains(start) && at_level(links, start, 0) && scorer.score_of(start) >= scorer.score_of(
                entry_points@[i].point_id,
            ) && (entry_points@[i].level == 0 ==> start == entry_points@[i].point_id) && forall|q: PointOffsetType|
                #[trigger] visited.contains(q) && filterer.eligible(q) ==> kept_or_outscored(result@, q, top as nat, scorer) by {
            assert(entry_point == entry_points@[i]);
            assert(visited.contains(zero_level_entry.idx));
        }
        assert forall|i: int|
            is_first_eligible(entry_points@, i, filterer) && entry_points@[i].level == 0 && top > 0 implies result@.len() > 0 by {
            assert(entry_point == entry_points@[i]);
            assert(zero_level_entry.idx == entry_point.point_id);
            assert(visited.contains(zero_level_entry.idx));
            assert(filterer.eligible(zero_level_entry.idx));
            if result@.len() == 0 {
                assert(kept_or_outscored(result@, zero_level_entry.idx, top as nat, scorer));
                assert(!has_point(result@, zero_level_entry.idx));
            }
        }
    }
    result
}

} // verus!
