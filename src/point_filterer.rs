//! Point eligibility: deletion state combined with an optional predicate.
use vstd::prelude::*;

use crate::deletion::{check_deleted_condition, live, PointOffsetType};

verus! {

/// A candidate point with its score. The score is an order key, larger for a
/// better match (see `score_key` for keys of floating-point scores);
/// filtering never reads it.
#[derive(Clone, Copy, Debug, PartialEq, Eq, Structural)]
pub struct ScoredPointOffset {
    pub idx: PointOffsetType,
    pub score: u32,
}

/// A per-search predicate on points, supplied by the caller. `check` answers
/// what `admits` states; an implementation outside verified code gives both
/// the same body.
pub trait FilterContext {
    /// Whether the predicate admits `point_id`.
    spec fn admits(&self, point_id: PointOffsetType) -> bool;

    fn check(&self, point_id: PointOffsetType) -> (r: bool)
        ensures
            r == self.admits(point_id),
    ;
}

/// The predicate that admits every point.
#[derive(Clone, Copy, Debug)]
pub struct NoFilter;

impl FilterContext for NoFilter {
    open spec fn admits(&self, point_id: PointOffsetType) -> bool {
        true
    }

    fn check(&self, point_id: PointOffsetType) -> (r: bool) {
        true
    }
}

/// The elements of `s` whose point `keep` accepts, in their order in `s`.
pub open spec fn retain_by(
    s: Seq<ScoredPointOffset>,
    keep: spec_fn(PointOffsetType) -> bool,
) -> Seq<ScoredPointOffset>
    decreases s.len(),
{
    if s.len() == 0 {
        s
    } else {
        let rest = retain_by(s.drop_last(), keep);
        if keep(s.last().idx) {
            rest.push(s.last())
        } else {
            rest
        }
    }
}

/// `s` cut to its first `limit` elements; a `limit` of zero cuts nothing.
pub open spec fn truncated(s: Seq<ScoredPointOffset>, limit: nat) -> Seq<ScoredPointOffset> {
    if limit > 0 && s.len() > limit {
        s.take(limit as int)
    } else {
        s
    }
}

/// Filters by deletion state alone.
#[derive(Clone, Copy)]
pub struct SimplePointsFilterer<'a> {
    pub vec_deleted: &'a [bool],
    pub point_deleted: &'a [bool],
}

impl<'a> SimplePointsFilterer<'a> {
    /// Whether the deletion state keeps `point_id`.
    pub open spec fn is_live(&self, point_id: PointOffsetType) -> bool {
        live(point_id, self.vec_deleted@, self.point_deleted@)
    }

    /// Whether both deletion slices have a flag for `point_id`.
    pub open spec fn covers(&self, point_id: PointOffsetType) -> bool {
        point_id < self.vec_deleted@.len() && point_id < self.point_deleted@.len()
    }

    pub fn new(vec_deleted: &'a [bool], point_deleted: &'a [bool]) -> (r: Self)
        ensures
            r.vec_deleted@ == vec_deleted@,
            r.point_deleted@ == point_deleted@,
    {
        SimplePointsFilterer { vec_deleted, point_deleted }
    }

    pub fn with_context<F: FilterContext>(self, filter_context: Option<&'a F>) -> (r: PointsFilterer<'a, F>)
        ensures
            r.simple() == self,
            r.context() == filter_context,
    {
        PointsFilterer { simple_filterer: self, filter_context }
    }

    pub fn check_vector(&self, point_id: PointOffsetType) -> (r: bool)
        requires
            self.covers(point_id),
        ensures
            r == self.is_live(point_id),
    {
        check_deleted_condition(point_id, self.vec_deleted, self.point_deleted)
    }
}

/// Filters by deletion state and, when present, a per-search predicate.
pub struct PointsFilterer<'a, F: FilterContext> {
    simple_filterer: SimplePointsFilterer<'a>,
    filter_context: Option<&'a F>,
}

impl<'a, F: FilterContext> PointsFilterer<'a, F> {
    /// The deletion-state part of this filterer.
    pub closed spec fn simple(&self) -> SimplePointsFilterer<'a> {
        self.simple_filterer
    }

    /// The per-search predicate, if any.
    pub closed spec fn context(&self) -> Option<&'a F> {
        self.filter_context
    }

    /// Whether `point_id` may appear in a result.
    pub open spec fn eligible(&self, point_id: PointOffsetType) -> bool {
        self.simple().is_live(point_id) && match self.context() {
            None => true,
            Some(f) => f.admits(point_id),
        }
    }

    /// Whether both deletion slices have a flag for `point_id`.
    pub open spec fn covers(&self, point_id: PointOffsetType) -> bool {
        self.simple().covers(point_id)
    }

    /// Whether both deletion slices have a flag for each of the points
    /// `0 .. num_points`.
    pub open spec fn covers_all(&self, num_points: nat) -> bool {
        &&& self.simple().vec_deleted@.len() >= num_points
        &&& self.simple().point_deleted@.len() >= num_points
    }

    /// The eligible candidates, in their order.
    pub open spec fn retained(&self, candidates: Seq<ScoredPointOffset>) -> Seq<ScoredPointOffset> {
        retain_by(candidates, |p: PointOffsetType| self.eligible(p))
    }

    /// What `filter_scores` leaves of `candidates` under `limit`.
    pub open spec fn filtered(&self, candidates: Seq<ScoredPointOffset>, limit: nat) -> Seq<ScoredPointOffset> {
        truncated(self.retained(candidates), limit)
    }

    pub fn new(vec_deleted: &'a [bool], point_deleted: &'a [bool], filter_context: Option<&'a F>) -> (r: Self)
        ensures
            r.simple().vec_deleted@ == vec_deleted@,
            r.simple().point_deleted@ == point_deleted@,
            r.context() == filter_context,
    {
        SimplePointsFilterer::new(vec_deleted, point_deleted).with_context(filter_context)
    }

    /// A filterer for the points `0 .. num_points`; `None` when either
    /// deletion slice is shorter than `num_points`.
    pub fn for_points(
        vec_deleted: &'a [bool],
        point_deleted: &'a [bool],
        filter_context: Option<&'a F>,
        num_points: usize,
    ) -> (r: Option<Self>)
        ensures
            r.is_some() == (vec_deleted@.len() >= num_points && point_deleted@.len() >= num_points),
            r matches Some(f) ==> f.simple().vec_deleted@ == vec_deleted@ && f.simple().point_deleted@
                == point_deleted@ && f.context() == filter_context && f.covers_all(num_points as nat),
    {
        if vec_deleted.len() < num_points || point_deleted.len() < num_points {
            None
        } else {
            Some(Self::new(vec_deleted, point_deleted, filter_context))
        }
    }

    pub fn check_vector(&self, point_id: PointOffsetType) -> (r: bool)
        requires
            self.covers(point_id),
        ensures
            r == self.eligible(point_id),
    {
        match self.filter_context {
            None => self.simple_filterer.check_vector(point_id),
            Some(f) => self.simple_filterer.check_vector(point_id) && f.check(point_id),
        }
    }

    /// Removes the candidates whose point is not eligible, keeping the order
    /// of the rest, then keeps at most `limit` of them from the front
    /// (`limit == 0`: no bound). Scores are left untouched.
    pub fn filter_scores(&self, scores: &mut Vec<ScoredPointOffset>, limit: usize)
        requires
            forall|i: int| 0 <= i < old(scores)@.len() ==> self.covers(#[trigger] old(scores)@[i].idx),
        ensures
            final(scores)@ == self.filtered(old(scores)@, limit as nat),
    {
        let mut kept: Vec<ScoredPointOffset> = Vec::new();
        let mut i: usize = 0;
        while i < scores.len()
            invariant
                i <= scores@.len(),
                scores@ == old(scores)@,
                forall|j: int| 0 <= j < scores@.len() ==> self.covers(#[trigger] scores@[j].idx),
                kept@ == self.retained(scores@.take(i as int)),
            decreases scores@.len() - i,
        {
            let candidate = scores[i];
            if self.check_vector(candidate.idx) {
                kept.push(candidate);
            }
            proof {
                assert(scores@.take(i + 1).drop_last() =~= scores@.take(i as int));
            }
            i = i + 1;
        }
        assert(scores@.take(i as int) =~= scores@);
        *scores = kept;
        if limit != 0 {
            scores.truncate(limit);
        }
    }
}

/// Every element that `retain_by` keeps is accepted by `keep`, and comes from `s`.
pub proof fn lemma_retain_sound(s: Seq<ScoredPointOffset>, keep: spec_fn(PointOffsetType) -> bool)
    ensures
        retain_by(s, keep).len() <= s.len(),
        forall|i: int| 0 <= i < retain_by(s, keep).len() ==> keep(#[trigger] retain_by(s, keep)[i].idx),
        forall|i: int| 0 <= i < retain_by(s, keep).len() ==> s.contains(#[trigger] retain_by(s, keep)[i]),
    decreases s.len(),
{
    if s.len() > 0 {
        lemma_retain_sound(s.drop_last(), keep);
        let rest = retain_by(s.drop_last(), keep);
        assert forall|i: int| 0 <= i < retain_by(s, keep).len() implies s.contains(
            #[trigger] retain_by(s, keep)[i],
        ) by {
            if i < rest.len() {
                let j = choose|j: int| 0 <= j < s.drop_last().len() && s.drop_last()[j] == rest[i];
                assert(s[j] == rest[i]);
            } else {
                assert(s[s.len() - 1] == s.last());
            }
        }
    }
}

/// Every element of `s` that `keep` accepts is kept.
pub proof fn lemma_retain_complete(s: Seq<ScoredPointOffset>, keep: spec_fn(PointOffsetType) -> bool)
    ensures
        forall|j: int| 0 <= j < s.len() && keep(s[j].idx) ==> retain_by(s, keep).contains(#[trigger] s[j]),
    decreases s.len(),
{
    if s.len() > 0 {
        lemma_retain_complete(s.drop_last(), keep);
        let rest = retain_by(s.drop_last(), keep);
        assert forall|j: int| 0 <= j < s.len() && keep(s[j].idx) implies retain_by(s, keep).contains(
            #[trigger] s[j],
        ) by {
            if j < s.len() - 1 {
                assert(s.drop_last()[j] == s[j]);
                let k = choose|k: int| 0 <= k < rest.len() && rest[k] == s[j];
                assert(retain_by(s, keep)[k] == s[j]);
            } else {
                assert(retain_by(s, keep)[rest.len() as int] == s[j]);
            }
        }
    }
}

/// Keeping by `both` is keeping by `first`, then by `second`, when `both`
/// accepts exactly what both of them accept.
pub proof fn lemma_retain_twice(
    s: Seq<ScoredPointOffset>,
    both: spec_fn(PointOffsetType) -> bool,
    first: spec_fn(PointOffsetType) -> bool,
    second: spec_fn(PointOffsetType) -> bool,
)
    requires
        forall|i: int| 0 <= i < s.len() ==> both(#[trigger] s[i].idx) == (first(s[i].idx) && second(s[i].idx)),
    ensures
        retain_by(s, both) == retain_by(retain_by(s, first), second),
    decreases s.len(),
{
    if s.len() > 0 {
        assert forall|i: int| 0 <= i < s.drop_last().len() implies both(#[trigger] s.drop_last()[i].idx) == (first(
            s.drop_last()[i].idx,
        ) && second(s.drop_last()[i].idx)) by {
            assert(s.drop_last()[i] == s[i]);
        }
        assert(both(s[s.len() - 1].idx) == (first(s[s.len() - 1].idx) && second(s[s.len() - 1].idx)));
        lemma_retain_twice(s.drop_last(), both, first, second);
        let mid = retain_by(s.drop_last(), first);
        if first(s.last().idx) {
            assert(mid.push(s.last()).drop_last() =~= mid);
        }
    }
}

/// Nothing is kept when `keep` accepts no point.
pub proof fn lemma_retain_none(s: Seq<ScoredPointOffset>, keep: spec_fn(PointOffsetType) -> bool)
    requires
        forall|p: PointOffsetType| !#[trigger] keep(p),
    ensures
        retain_by(s, keep).len() == 0,
    decreases s.len(),
{
    if s.len() > 0 {
        lemma_retain_none(s.drop_last(), keep);
    }
}

/// Filtering is sound and complete: every point that `filter_scores` returns
/// is eligible and is one of the candidates, and without a limit every
/// eligible candidate is returned.
pub proof fn filter_scores_correct<F: FilterContext>(
    filterer: &PointsFilterer<F>,
    candidates: Seq<ScoredPointOffset>,
    limit: nat,
)
    ensures
        forall|i: int|
            0 <= i < filterer.filtered(candidates, limit).len() ==> filterer.eligible(
                #[trigger] filterer.filtered(candidates, limit)[i].idx,
            ) && candidates.contains(filterer.filtered(candidates, limit)[i]),
        forall|j: int|
            0 <= j < candidates.len() && filterer.eligible(candidates[j].idx) ==> filterer.filtered(
                candidates,
                0,
            ).contains(#[trigger] candidates[j]),
{
    let keep = |p: PointOffsetType| filterer.eligible(p);
    lemma_retain_sound(candidates, keep);
    lemma_retain_complete(candidates, keep);
    let r = filterer.retained(candidates);
    let out = filterer.filtered(candidates, limit);
    assert forall|i: int| 0 <= i < out.len() implies filterer.eligible(#[trigger] out[i].idx)
        && candidates.contains(out[i]) by {
        assert(out[i] == r[i]);
        assert(keep(r[i].idx));
    }
}

/// Truncation: with a limit `k > 0`, `filter_scores` returns at most `k`
/// entries, and they are the front of what an unbounded call returns; with a
/// limit of zero it returns what an unbounded call returns.
pub proof fn filter_scores_truncation<F: FilterContext>(
    filterer: &PointsFilterer<F>,
    candidates: Seq<ScoredPointOffset>,
    limit: nat,
)
    ensures
        limit > 0 ==> filterer.filtered(candidates, limit).len() <= limit,
        filterer.filtered(candidates, limit) == filterer.filtered(candidates, 0).take(
            filterer.filtered(candidates, limit).len() as int,
        ),
        filterer.filtered(candidates, 0) == filterer.retained(candidates),
{
    let r = filterer.retained(candidates);
    assert(r.take(r.len() as int) =~= r);
}

/// Deleting one point: when `after` differs from `before` only in that `p`
/// is now marked point-deleted or vector-deleted, an unbounded filtering of
/// covered candidates never returns `p`, and returns what `before` returned with the entries of
/// `p` removed, the others in the same order.
pub proof fn filter_scores_after_deletion<F: FilterContext>(
    before: &PointsFilterer<F>,
    after: &PointsFilterer<F>,
    p: PointOffsetType,
    candidates: Seq<ScoredPointOffset>,
)
    requires
        after.context() == before.context(),
        (after.simple().vec_deleted@ == before.simple().vec_deleted@ && p < before.simple().point_deleted@.len()
            && after.simple().point_deleted@ == before.simple().point_deleted@.update(p as int, true))
            || (after.simple().point_deleted@ == before.simple().point_deleted@ && p
            < before.simple().vec_deleted@.len() && after.simple().vec_deleted@
            == before.simple().vec_deleted@.update(p as int, true)),
        forall|i: int| 0 <= i < candidates.len() ==> before.covers(#[trigger] candidates[i].idx),
    ensures
        forall|i: int|
            0 <= i < after.filtered(candidates, 0).len() ==> (#[trigger] after.filtered(candidates, 0)[i]).idx
                != p,
        after.filtered(candidates, 0) == retain_by(
            before.filtered(candidates, 0),
            |q: PointOffsetType| q != p,
        ),
{
    let both = |q: PointOffsetType| after.eligible(q);
    let first = |q: PointOffsetType| before.eligible(q);
    let second = |q: PointOffsetType| q != p;
    assert forall|i: int| 0 <= i < candidates.len() implies both(#[trigger] candidates[i].idx) == (first(
        candidates[i].idx,
    ) && second(candidates[i].idx)) by {
        assert(before.covers(candidates[i].idx));
    }
    lemma_retain_twice(candidates, both, first, second);
    lemma_retain_sound(candidates, both);
    assert forall|i: int| 0 <= i < after.filtered(candidates, 0).len() implies (#[trigger] after.filtered(
        candidates,
        0,
    )[i]).idx != p by {
        let j = choose|j: int| 0 <= j < candidates.len() && candidates[j] == after.filtered(candidates, 0)[i];
        assert(before.covers(candidates[j].idx));
    }
}

/// Deleting one point makes exactly that point ineligible: when `after`
/// differs from `before` only in that `p` is now marked point-deleted or
/// vector-deleted, `p` is not eligible under `after`, and every other point
/// that the slices cover is eligible under `after` just when it is under
/// `before`.
pub proof fn deletion_excludes_only_that_point<F: FilterContext>(
    before: &PointsFilterer<F>,
    after: &PointsFilterer<F>,
    p: PointOffsetType,
)
    requires
        after.context() == before.context(),
        (after.simple().vec_deleted@ == before.simple().vec_deleted@ && p < before.simple().point_deleted@.len()
            && after.simple().point_deleted@ == before.simple().point_deleted@.update(p as int, true))
            || (after.simple().point_deleted@ == before.simple().point_deleted@ && p
            < before.simple().vec_deleted@.len() && after.simple().vec_deleted@
            == before.simple().vec_deleted@.update(p as int, true)),
    ensures
        !after.eligible(p),
        forall|q: PointOffsetType| q != p && before.covers(q) ==> #[trigger] after.eligible(q) == before.eligible(q),
{
}

/// A filter that rejects every point leaves nothing, whatever the limit.
pub proof fn filter_scores_rejecting_all<F: FilterContext>(
    filterer: &PointsFilterer<F>,
    candidates: Seq<ScoredPointOffset>,
    limit: nat,
)
    requires
        forall|p: PointOffsetType| !#[trigger] filterer.eligible(p),
    ensures
        filterer.filtered(candidates, limit).len() == 0,
{
    let keep = |p: PointOffsetType| filterer.eligible(p);
    assert forall|p: PointOffsetType| !#[trigger] keep(p) by {}
    lemma_retain_none(candidates, keep);
}

} // verus!
