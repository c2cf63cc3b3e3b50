//! The mutable graph of construction time, searchable as it grows and
//! convertible into a link store of either encoding.
use vstd::prelude::*;

use crate::deletion::PointOffsetType;
use crate::entry_points::EntryPoints;
use crate::graph_links::{check_links, layers_view, links_consistent, GraphLinks, GraphLinksFormat, GraphLinksView};

verus! {

proof fn lemma_layers_view_update(v: Seq<Vec<Vec<PointOffsetType>>>, p: int, x: Vec<Vec<PointOffsetType>>)
    requires
        0 <= p < v.len(),
    ensures
        layers_view(v.update(p, x)) == layers_view(v).update(p, Seq::new(x@.len(), |l: int| x@[l]@)),
{
    assert forall|q: int| 0 <= q < v.len() implies #[trigger] layers_view(v.update(p, x))[q]
        =~= layers_view(v).update(p, Seq::new(x@.len(), |l: int| x@[l]@))[q] by {}
    assert(layers_view(v.update(p, x)) =~= layers_view(v).update(p, Seq::new(x@.len(), |l: int| x@[l]@)));
}

/// Neighbor lists held per point and per level, and the entry candidates
/// recorded while points were inserted.
pub struct GraphLayersBuilder {
    pub links_layers: Vec<Vec<Vec<PointOffsetType>>>,
    pub entry_points: EntryPoints,
}

impl GraphLayersBuilder {
    /// `num_points` points, each on level zero only, without links.
    pub fn new(num_points: usize) -> (r: Self)
        ensures
            r.lists() == Seq::new(num_points as nat, |p: int| seq![Seq::<PointOffsetType>::empty()]),
            r.entry_points@ == Seq::<crate::entry_points::EntryPoint>::empty(),
    {
        let mut links_layers: Vec<Vec<Vec<PointOffsetType>>> = Vec::new();
        let mut p: usize = 0;
        while p < num_points
            invariant
                p <= num_points,
                layers_view(links_layers@) == Seq::new(p as nat, |q: int| seq![Seq::<PointOffsetType>::empty()]),
            decreases num_points - p,
        {
            let mut point_layers: Vec<Vec<PointOffsetType>> = Vec::new();
            point_layers.push(Vec::new());
            let ghost before = links_layers@;
            links_layers.push(point_layers);
            proof {
                assert(layers_view(before).len() == before.len());
                assert(before.len() == p);
                assert(links_layers@ == before.push(point_layers));
                assert forall|q: int| 0 <= q <= p implies #[trigger] layers_view(links_layers@)[q]
                    =~= seq![Seq::<PointOffsetType>::empty()] by {
                    if q < p {
                        assert(links_layers@[q] == before[q]);
                        assert(layers_view(before)[q] == seq![Seq::<PointOffsetType>::empty()]);
                        assert(layers_view(links_layers@)[q] =~= layers_view(before)[q]);
                    }
                }
                assert(layers_view(links_layers@) =~= Seq::new(
                    (p + 1) as nat,
                    |q: int| seq![Seq::<PointOffsetType>::empty()],
                ));
            }
            p = p + 1;
        }
        GraphLayersBuilder { links_layers, entry_points: EntryPoints::new() }
    }

    /// Gives `point` the levels `0 ..= level`: lists it already has on those
    /// levels stay, missing ones start empty, higher ones are dropped.
    pub fn set_levels(&mut self, point: PointOffsetType, level: usize)
        requires
            point < old(self).lists().len(),
            level < usize::MAX,
        ensures
            final(self).lists() == old(self).lists().update(
                point as int,
                Seq::new(
                    (level + 1) as nat,
                    |l: int|
                        if l < old(self).lists()[point as int].len() {
                            old(self).lists()[point as int][l]
                        } else {
                            Seq::<PointOffsetType>::empty()
                        },
                ),
            ),
            final(self).entry_points == old(self).entry_points,
    {
        let p = point as usize;
        let ghost old_lists = self.lists();
        let mut point_layers = self.links_layers.remove(p);
        let ghost original = point_layers@;
        while point_layers.len() > level + 1
            invariant
                level < usize::MAX,
                point_layers@ == original.subrange(0, point_layers@.len() as int),
                point_layers@.len() <= original.len(),
                point_layers@.len() >= level + 1 || point_layers@.len() == original.len(),
            decreases point_layers@.len(),
        {
            point_layers.pop();
        }
        while point_layers.len() < level + 1
            invariant
                level < usize::MAX,
                point_layers@.len() <= level + 1,
                point_layers@.len() >= original.len() || point_layers@.len() == level + 1,
                forall|l: int| 0 <= l < point_layers@.len() ==> (#[trigger] point_layers@[l])@ == if l < original.len() {
                    original[l]@
                } else {
                    Seq::<PointOffsetType>::empty()
                },
            decreases level + 1 - point_layers@.len(),
        {
            let ghost before_push = point_layers@;
            point_layers.push(Vec::new());
            proof {
                assert forall|l: int| 0 <= l < point_layers@.len() implies (#[trigger] point_layers@[l])@ == if l
                    < original.len() {
                    original[l]@
                } else {
                    Seq::<PointOffsetType>::empty()
                } by {
                    if l < before_push.len() {
                        assert(point_layers@[l] == before_push[l]);
                    }
                }
            }
        }
        self.links_layers.insert(p, point_layers);
        proof {
            assert(self.links_layers@ =~= old(self).links_layers@.update(p as int, point_layers));
            lemma_layers_view_update(old(self).links_layers@, p as int, point_layers);
            assert(Seq::new(point_layers@.len(), |l: int| point_layers@[l]@) =~= Seq::new(
                (level + 1) as nat,
                |l: int| if l < old_lists[point as int].len() { old_lists[point as int][l] } else { Seq::<PointOffsetType>::empty() },
            ));
            assert(layers_view(self.links_layers@) =~= old_lists.update(
                point as int,
                Seq::new(
                    (level + 1) as nat,
                    |l: int| if l < old_lists[point as int].len() { old_lists[point as int][l] } else { Seq::<PointOffsetType>::empty() },
                ),
            ));
        }
    }

    /// Replaces the neighbors of `point` at `level` by `links`.
    pub fn set_links(&mut self, point: PointOffsetType, level: usize, links: Vec<PointOffsetType>)
        requires
            point < old(self).lists().len(),
            level < old(self).lists()[point as int].len(),
        ensures
            final(self).lists() == old(self).lists().update(
                point as int,
                old(self).lists()[point as int].update(level as int, links@),
            ),
            final(self).entry_points == old(self).entry_points,
    {
        let p = point as usize;
        let ghost old_lists = self.lists();
        let mut point_layers = self.links_layers.remove(p);
        let ghost original = point_layers@;
        point_layers.remove(level);
        point_layers.insert(level, links);
        self.links_layers.insert(p, point_layers);
        proof {
            assert(point_layers@ =~= original.update(level as int, links));
            assert(self.links_layers@ =~= old(self).links_layers@.update(p as int, point_layers));
            lemma_layers_view_update(old(self).links_layers@, p as int, point_layers);
            assert(Seq::new(point_layers@.len(), |l: int| point_layers@[l]@) =~= old_lists[point as int].update(
                level as int,
                links@,
            ));
            assert(layers_view(self.links_layers@) =~= old_lists.update(
                point as int,
                old_lists[point as int].update(level as int, links@),
            ));
        }
    }

    /// Converts the finished graph into a link store in `format`.
    pub fn into_graph_links(self, format: GraphLinksFormat) -> (r: GraphLinks)
        ensures
            r.wf(),
            r.spec_format() == format,
            r.lists() == self.lists(),
    {
        GraphLinks::from_layers(&self.links_layers, format)
    }

    /// Converts the finished graph into a link store in `format`, provided
    /// that every point has a `u32` offset and every link names a point held
    /// at the link's level; `None` otherwise.
    pub fn try_into_graph_links(self, format: GraphLinksFormat) -> (r: Option<GraphLinks>)
        ensures
            r.is_some() == (self.lists().len() <= u32::MAX + 1 && links_consistent(self.lists())),
            r matches Some(g) ==> g.wf() && g.spec_format() == format && g.lists() == self.lists(),
    {
        let n = self.links_layers.len();
        if n > 0 && (n - 1) as u64 > u32::MAX as u64 {
            return None;
        }
        if check_links(&self) {
            Some(self.into_graph_links(format))
        } else {
            None
        }
    }
}

impl GraphLinksView for GraphLayersBuilder {
    open spec fn lists(&self) -> Seq<Seq<Seq<PointOffsetType>>> {
        layers_view(self.links_layers@)
    }

    open spec fn wf(&self) -> bool {
        true
    }

    fn num_points(&self) -> (r: usize) {
        self.links_layers.len()
    }

    fn point_level_count(&self, point: PointOffsetType) -> (r: usize) {
        self.links_layers[point as usize].len()
    }

    fn links(&self, point: PointOffsetType, level: usize) -> (r: Vec<PointOffsetType>) {
        let list = &self.links_layers[point as usize][level];
        let mut out: Vec<PointOffsetType> = Vec::new();
        let mut k: usize = 0;
        while k < list.len()
            invariant
                k <= list@.len(),
                out@ == list@.take(k as int),
            decreases list@.len() - k,
        {
            out.push(list[k]);
            proof {
                assert(list@.take(k + 1) =~= list@.take(k as int).push(list@[k as int]));
            }
            k = k + 1;
        }
        proof {
            assert(list@.take(k as int) =~= list@);
        }
        out
    }
}

} // verus!
