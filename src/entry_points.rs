//! Entry points: the candidates that seed a graph search.
use vstd::prelude::*;

use crate::deletion::PointOffsetType;
use crate::point_filterer::{FilterContext, PointsFilterer};

verus! {

/// A point together with the highest graph level that it occupies.
#[derive(Clone, Copy, Debug, PartialEq, Eq, Structural)]
pub struct EntryPoint {
    pub point_id: PointOffsetType,
    pub level: usize,
}

/// Whether `i` is the position of the first entry in `eps` whose point the
/// filterer accepts.
pub open spec fn is_first_eligible<F: FilterContext>(
    eps: Seq<EntryPoint>,
    i: int,
    filterer: &PointsFilterer<F>,
) -> bool {
    &&& 0 <= i < eps.len()
    &&& filterer.eligible(eps[i].point_id)
    &&& forall|j: int| 0 <= j < i ==> !filterer.eligible(#[trigger] eps[j].point_id)
}

/// Whether the filterer accepts no entry of `eps`.
pub open spec fn none_eligible<F: FilterContext>(eps: Seq<EntryPoint>, filterer: &PointsFilterer<F>) -> bool {
    forall|j: int| 0 <= j < eps.len() ==> !filterer.eligible(#[trigger] eps[j].point_id)
}

/// Whether the filterer's deletion slices cover every entry of `eps`.
pub open spec fn all_covered<F: FilterContext>(eps: Seq<EntryPoint>, filterer: &PointsFilterer<F>) -> bool {
    forall|j: int| 0 <= j < eps.len() ==> filterer.covers(#[trigger] eps[j].point_id)
}

/// Entry candidates in priority order.
pub struct EntryPoints {
    entry_points: Vec<EntryPoint>,
}

impl View for EntryPoints {
    type V = Seq<EntryPoint>;

    closed spec fn view(&self) -> Seq<EntryPoint> {
        self.entry_points@
    }
}

impl EntryPoints {
    pub fn new() -> (r: Self)
        ensures
            r@ == Seq::<EntryPoint>::empty(),
    {
        EntryPoints { entry_points: Vec::new() }
    }

    /// Position of the first entry that the filterer accepts, if any.
    fn find_eligible<F: FilterContext>(&self, filterer: &PointsFilterer<F>) -> (r: Option<usize>)
        requires
            all_covered(self@, filterer),
        ensures
            match r {
                None => none_eligible(self@, filterer),
                Some(i) => is_first_eligible(self@, i as int, filterer),
            },
    {
        let mut i: usize = 0;
        while i < self.entry_points.len()
            invariant
                i <= self@.len(),
                self@ == self.entry_points@,
                all_covered(self@, filterer),
                forall|j: int| 0 <= j < i ==> !filterer.eligible(#[trigger] self@[j].point_id),
            decreases self@.len() - i,
        {
            if filterer.check_vector(self.entry_points[i].point_id) {
                return Some(i);
            }
            i = i + 1;
        }
        None
    }

    /// Registers a newly inserted point at `level` and returns the entry that
    /// its insertion should start from. That entry is the first one that the
    /// filterer accepts; if it sits lower than `level`, the new point takes
    /// its place. With no accepted entry, the new point is appended and there
    /// is nothing to start from.
    pub fn new_point<F: FilterContext>(
        &mut self,
        new_point: PointOffsetType,
        level: usize,
        filterer: &PointsFilterer<F>,
    ) -> (r: Option<EntryPoint>)
        requires
            all_covered(old(self)@, filterer),
        ensures
            none_eligible(old(self)@, filterer) ==> r.is_none() && final(self)@ == old(self)@.push(
                EntryPoint { point_id: new_point, level },
            ),
            forall|i: int|
                is_first_eligible(old(self)@, i, filterer) ==> r == Some(old(self)@[i]) && (if old(
                    self,
                )@[i].level >= level {
                    final(self)@ == old(self)@
                } else {
                    final(self)@ == old(self)@.update(i, EntryPoint { point_id: new_point, level })
                }),
    {
        match self.find_eligible(filterer) {
            None => {
                self.entry_points.push(EntryPoint { point_id: new_point, level });
                None
            },
            Some(i) => {
                let candidate = self.entry_points[i];
                if candidate.level < level {
                    self.entry_points.set(i, EntryPoint { point_id: new_point, level });
                }
                Some(candidate)
            },
        }
    }

    /// The first entry whose point the filterer accepts; `None` when it
    /// accepts none of them.
    pub fn get_entry_point<F: FilterContext>(&self, filterer: &PointsFilterer<F>) -> (r: Option<EntryPoint>)
        requires
            all_covered(self@, filterer),
        ensures
            r.is_none() <==> none_eligible(self@, filterer),
            forall|i: int| is_first_eligible(self@, i, filterer) ==> r == Some(self@[i]),
            r matches Some(e) ==> exists|i: int| is_first_eligible(self@, i, filterer) && e == self@[i],
    {
        match self.find_eligible(filterer) {
            None => None,
            Some(i) => Some(self.entry_points[i]),
        }
    }
}

/// An entry lookup under a filter that rejects every point finds nothing.
pub proof fn entry_point_rejecting_all<F: FilterContext>(eps: Seq<EntryPoint>, filterer: &PointsFilterer<F>)
    requires
        forall|p: PointOffsetType| !#[trigger] filterer.eligible(p),
    ensures
        none_eligible(eps, filterer),
{
}

} // verus!
