//! Link store: the neighbor lists of every point at every level, in one of
//! two physical encodings that answer lookups identically.
use vstd::prelude::*;

use crate::deletion::PointOffsetType;
use crate::packed_ids::{pack, unpack_at, unpacked, width_for};

verus! {

/// Physical encoding of a link store.
#[derive(Clone, Copy, Debug, PartialEq, Eq, Structural)]
pub enum GraphLinksFormat {
    /// Neighbor ids stored back to back as `u32`.
    Plain,
    /// Neighbor ids stored back to back as little-endian numbers of the
    /// fewest bytes (one to four) that hold the largest id.
    Compressed,
}

/// The neighbor lists held in nested vectors: `layers[p][l]` lists the
/// neighbors of point `p` at level `l`.
pub open spec fn layers_view(layers: Seq<Vec<Vec<PointOffsetType>>>) -> Seq<Seq<Seq<PointOffsetType>>> {
    Seq::new(layers.len(), |p: int| Seq::new(layers[p]@.len(), |l: int| layers[p]@[l]@))
}

/// Whether list `l` of point `p` is stored at positions
/// `offsets[level_start[p] + l] .. offsets[level_start[p] + l + 1]` of `flat`.
pub open spec fn list_stored(
    flat: Seq<PointOffsetType>,
    offsets: Seq<usize>,
    level_start: Seq<usize>,
    nested: Seq<Seq<Seq<PointOffsetType>>>,
    p: int,
    l: int,
) -> bool {
    let j = level_start[p] + l;
    &&& 0 <= j
    &&& j + 1 < offsets.len()
    &&& offsets[j] <= offsets[j + 1] <= flat.len()
    &&& flat.subrange(offsets[j] as int, offsets[j + 1] as int) == nested[p][l]
}

/// Layout of lists back to back: the lists of point `p` are those numbered
/// `level_start[p] .. level_start[p + 1]`, and list `j` takes the positions
/// `offsets[j] .. offsets[j + 1]` of a flat sequence of length `flat_len`.
pub open spec fn layout_ok(offsets: Seq<usize>, level_start: Seq<usize>, flat_len: nat) -> bool {
    &&& level_start.len() >= 1
    &&& forall|p: int| 0 <= p < level_start.len() - 1 ==> #[trigger] level_start[p] <= level_start[p + 1]
    &&& forall|p: int| 0 <= p < level_start.len() ==> #[trigger] level_start[p] <= level_start[level_start.len() - 1]
    &&& level_start[level_start.len() - 1] + 1 == offsets.len()
    &&& forall|j: int| 0 <= j < offsets.len() - 1 ==> #[trigger] offsets[j] <= offsets[j + 1]
    &&& forall|j: int| 0 <= j < offsets.len() ==> #[trigger] offsets[j] <= flat_len
}

/// Appends `list` to `ids`.
fn append_list(ids: &mut Vec<PointOffsetType>, list: &Vec<PointOffsetType>)
    ensures
        final(ids)@ == old(ids)@ + list@,
{
    let mut t: usize = 0;
    while t < list.len()
        invariant
            t <= list@.len(),
            ids@ == old(ids)@ + list@.take(t as int),
        decreases list@.len() - t,
    {
        ids.push(list[t]);
        proof {
            assert(old(ids)@ + list@.take(t + 1) =~= (old(ids)@ + list@.take(t as int)).push(list@[t as int]));
        }
        t = t + 1;
    }
    assert(list@.take(t as int) =~= list@);
}

/// Offsets into a flat sequence of length `flat_len`: nondecreasing, within
/// bounds, the last one at the end.
pub open spec fn offsets_ok(offsets: Seq<usize>, flat_len: nat) -> bool {
    &&& offsets.len() >= 1
    &&& forall|j: int| 0 <= j < offsets.len() - 1 ==> #[trigger] offsets[j] <= offsets[j + 1]
    &&& forall|j: int| 0 <= j < offsets.len() ==> #[trigger] offsets[j] <= flat_len
    &&& offsets[offsets.len() - 1] == flat_len
}

/// Appends the lists of one point to `ids`, one offset for each.
fn append_point(
    ids: &mut Vec<PointOffsetType>,
    offsets: &mut Vec<usize>,
    point_layers: &Vec<Vec<PointOffsetType>>,
)
    requires
        offsets_ok(old(offsets)@, old(ids)@.len()),
    ensures
        offsets_ok(final(offsets)@, final(ids)@.len()),
        final(offsets)@.len() == old(offsets)@.len() + point_layers@.len(),
        final(offsets)@.subrange(0, old(offsets)@.len() as int) == old(offsets)@,
        final(ids)@.subrange(0, old(ids)@.len() as int) == old(ids)@,
        forall|k: int|
            0 <= k < point_layers@.len() ==> final(ids)@.subrange(
                final(offsets)@[old(offsets)@.len() - 1 + k] as int,
                final(offsets)@[old(offsets)@.len() + k] as int,
            ) == (#[trigger] point_layers@[k])@,
{
    let ghost base = old(offsets)@.len() - 1;
    let mut l: usize = 0;
    while l < point_layers.len()
        invariant
            l <= point_layers@.len(),
            base == old(offsets)@.len() - 1,
            old(offsets)@.len() >= 1,
            old(ids)@.len() <= ids@.len(),
            offsets_ok(offsets@, ids@.len()),
            offsets@.len() == old(offsets)@.len() + l,
            offsets@.subrange(0, old(offsets)@.len() as int) == old(offsets)@,
            ids@.subrange(0, old(ids)@.len() as int) == old(ids)@,
            forall|k: int|
                0 <= k < l ==> ids@.subrange(offsets@[base + k] as int, offsets@[base + k + 1] as int)
                    == (#[trigger] point_layers@[k])@,
        decreases point_layers@.len() - l,
    {
        let ghost ids_before = ids@;
        let ghost offsets_before = offsets@;
        append_list(ids, &point_layers[l]);
        offsets.push(ids.len());
        proof {
            assert(offsets@.drop_last() =~= offsets_before);
            assert(ids@.subrange(offsets@[base + l] as int, offsets@[base + l + 1] as int)
                =~= point_layers@[l as int]@);
            assert forall|k: int| 0 <= k <= l implies ids@.subrange(
                offsets@[base + k] as int,
                offsets@[base + k + 1] as int,
            ) == (#[trigger] point_layers@[k])@ by {
                if k < l {
                    assert(offsets@.drop_last()[base + k] == offsets_before[base + k]);
                    assert(offsets@[base + k] == offsets_before[base + k]);
                    assert(offsets@[base + k + 1] == offsets_before[base + k + 1]);
                    assert(ids@.subrange(offsets@[base + k] as int, offsets@[base + k + 1] as int)
                        =~= ids_before.subrange(offsets@[base + k] as int, offsets@[base + k + 1] as int));
                }
            }
            assert(offsets@.subrange(0, old(offsets)@.len() as int) =~= offsets_before.subrange(
                0,
                old(offsets)@.len() as int,
            ));
            assert(ids@.subrange(0, old(ids)@.len() as int) =~= ids_before.subrange(0, old(ids)@.len() as int));
        }
        l = l + 1;
    }
}

/// Lays the lists of `layers` back to back: the flat ids, the list offsets
/// and the first list of each point.
fn flatten(layers: &Vec<Vec<Vec<PointOffsetType>>>) -> (r: (Vec<PointOffsetType>, Vec<usize>, Vec<usize>))
    ensures
        layout_ok(r.1@, r.2@, r.0@.len()),
        r.2@.len() == layers@.len() + 1,
        forall|p: int|
            0 <= p < layers@.len() ==> #[trigger] r.2@[p + 1] - r.2@[p] == layers@[p]@.len(),
        forall|p: int, l: int|
            0 <= p < layers@.len() && 0 <= l < layers@[p]@.len() ==> #[trigger] list_stored(
                r.0@,
                r.1@,
                r.2@,
                layers_view(layers@),
                p,
                l,
            ),
{
    let ghost nested = layers_view(layers@);
    let mut ids: Vec<PointOffsetType> = Vec::new();
    let mut offsets: Vec<usize> = Vec::new();
    let mut level_start: Vec<usize> = Vec::new();
    offsets.push(0);
    level_start.push(0);
    let mut p: usize = 0;
    while p < layers.len()
        invariant
            p <= layers@.len(),
            nested == layers_view(layers@),
            level_start@.len() == p + 1,
            offsets_ok(offsets@, ids@.len()),
            layout_ok(offsets@, level_start@, ids@.len()),
            forall|q: int| 0 <= q < p ==> #[trigger] level_start@[q + 1] - level_start@[q] == nested[q].len(),
            forall|q: int, l: int|
                0 <= q < p && 0 <= l < nested[q].len() ==> #[trigger] list_stored(
                    ids@,
                    offsets@,
                    level_start@,
                    nested,
                    q,
                    l,
                ),
        decreases layers@.len() - p,
    {
        let ghost ids_before = ids@;
        let ghost offsets_before = offsets@;
        let ghost start_before = level_start@;
        append_point(&mut ids, &mut offsets, &layers[p]);
        level_start.push(offsets.len() - 1);
        proof {
            assert(level_start@.drop_last() =~= start_before);
            assert forall|q: int, l: int| 0 <= q <= p && 0 <= l < nested[q].len() implies #[trigger] list_stored(
                ids@,
                offsets@,
                level_start@,
                nested,
                q,
                l,
            ) by {
                if q < p {
                    assert(level_start@[q] == start_before[q]);
                    assert(list_stored(ids_before, offsets_before, start_before, nested, q, l));
                    let j = start_before[q] + l;
                    assert(offsets@.subrange(0, offsets_before.len() as int)[j] == offsets@[j]);
                    assert(offsets@.subrange(0, offsets_before.len() as int)[j + 1] == offsets@[j + 1]);
                    assert(ids@.subrange(0, ids_before.len() as int).subrange(offsets@[j] as int, offsets@[j + 1] as int)
                        =~= ids@.subrange(offsets@[j] as int, offsets@[j + 1] as int));
                } else {
                    assert(nested[q][l] == layers@[p as int]@[l]@);
                }
            }
            assert forall|q: int| 0 <= q < p + 1 implies #[trigger] level_start@[q + 1] - level_start@[q]
                == nested[q].len() by {
                if q < p {
                    assert(level_start@[q] == start_before[q]);
                    assert(level_start@[q + 1] == start_before[q + 1]);
                }
            }
        }
        p = p + 1;
    }
    (ids, offsets, level_start)
}

/// The neighbor lists of every point at every level, in one encoding.
pub struct GraphLinks {
    format: GraphLinksFormat,
    /// Plain: the neighbor ids back to back.
    ids: Vec<PointOffsetType>,
    /// Compressed: the neighbor ids back to back, `width` bytes each.
    bytes: Vec<u8>,
    width: usize,
    /// List `j` takes the flat positions `offsets[j] .. offsets[j + 1]`.
    offsets: Vec<usize>,
    /// The lists of point `p` are those numbered `level_start[p] .. level_start[p + 1]`.
    level_start: Vec<usize>,
}

/// Neighbor lookup over a graph, whatever holds it.
pub trait GraphLinksView {
    /// Neighbor list of each point at each level.
    spec fn lists(&self) -> Seq<Seq<Seq<PointOffsetType>>>;

    /// The store is consistent.
    spec fn wf(&self) -> bool;

    /// Number of points in the graph.
    fn num_points(&self) -> (r: usize)
        requires
            self.wf(),
        ensures
            r == self.lists().len(),
    ;

    /// Number of levels that `point` occupies.
    fn point_level_count(&self, point: PointOffsetType) -> (r: usize)
        requires
            self.wf(),
            point < self.lists().len(),
        ensures
            r == self.lists()[point as int].len(),
    ;

    /// The neighbors of `point` at `level`, in stored order.
    fn links(&self, point: PointOffsetType, level: usize) -> (r: Vec<PointOffsetType>)
        requires
            self.wf(),
            point < self.lists().len(),
            level < self.lists()[point as int].len(),
        ensures
            r@ == self.lists()[point as int][level as int],
    ;
}

impl GraphLinks {
    /// The neighbor ids back to back, as the encoding yields them.
    pub closed spec fn flat(&self) -> Seq<PointOffsetType> {
        match self.format {
            GraphLinksFormat::Plain => self.ids@,
            GraphLinksFormat::Compressed => unpacked(self.bytes@, self.width as nat),
        }
    }

    pub closed spec fn spec_format(&self) -> GraphLinksFormat {
        self.format
    }

    /// Converts the nested lists of a finished graph into `format`.
    pub fn from_layers(layers: &Vec<Vec<Vec<PointOffsetType>>>, format: GraphLinksFormat) -> (r: Self)
        ensures
            r.wf(),
            r.spec_format() == format,
            r.lists() == layers_view(layers@),
    {
        let (ids, offsets, level_start) = flatten(layers);
        let ghost nested = layers_view(layers@);
        let r = match format {
            GraphLinksFormat::Plain => GraphLinks { format, ids, bytes: Vec::new(), width: 1, offsets, level_start },
            GraphLinksFormat::Compressed => {
                let width = width_for(&ids);
                let bytes = pack(&ids, width);
                GraphLinks { format, ids: Vec::new(), bytes, width, offsets, level_start }
            },
        };
        proof {
            assert(r.flat() == ids@);
            assert forall|p: int| 0 <= p < nested.len() implies #[trigger] r.lists()[p] =~= nested[p] by {
                assert forall|l: int| 0 <= l < nested[p].len() implies r.lists()[p][l] == nested[p][l] by {
                    assert(list_stored(ids@, offsets@, level_start@, nested, p, l));
                }
            }
            assert(r.lists() =~= nested);
        }
        r
    }

    pub fn format(&self) -> (r: GraphLinksFormat)
        ensures
            r == self.spec_format(),
    {
        self.format
    }
}

impl GraphLinksView for GraphLinks {
    /// Neighbor list of each point at each level.
    closed spec fn lists(&self) -> Seq<Seq<Seq<PointOffsetType>>> {
        let ls = self.level_start@;
        let os = self.offsets@;
        Seq::new(
            (ls.len() - 1) as nat,
            |p: int|
                Seq::new(
                    (ls[p + 1] - ls[p]) as nat,
                    |l: int| self.flat().subrange(os[ls[p] + l] as int, os[ls[p] + l + 1] as int),
                ),
        )
    }

    /// The encoding is consistent: its layout fits the flat ids.
    closed spec fn wf(&self) -> bool {
        &&& layout_ok(self.offsets@, self.level_start@, self.flat().len())
        &&& self.format == GraphLinksFormat::Compressed ==> 1 <= self.width <= 4
    }

    /// Number of points in the graph.
    fn num_points(&self) -> (r: usize) {
        self.level_start.len() - 1
    }

    /// Number of levels that `point` occupies.
    fn point_level_count(&self, point: PointOffsetType) -> (r: usize) {
        let p = point as usize;
        assert(self.lists().len() == self.level_start@.len() - 1);
        assert(self.level_start@[p as int] <= self.level_start@[p + 1]);
        let n = self.level_start.len();
        assert(p + 1 < n);
        self.level_start[p + 1] - self.level_start[p]
    }

    /// The neighbors of `point` at `level`, in stored order.
    fn links(&self, point: PointOffsetType, level: usize) -> (r: Vec<PointOffsetType>) {
        let p = point as usize;
        assert(self.lists().len() == self.level_start@.len() - 1);
        assert(self.lists()[p as int].len() == self.level_start@[p + 1] - self.level_start@[p as int]);
        assert(self.level_start@[p as int] <= self.level_start@[p + 1]);
        assert(self.level_start@[p + 1] <= self.level_start@[self.level_start@.len() - 1]);
        let j = self.level_start[p] + level;
        assert(self.offsets@[j as int] <= self.offsets@[j + 1]);
        let start = self.offsets[j];
        let end = self.offsets[j + 1];
        let mut out: Vec<PointOffsetType> = Vec::new();
        let mut k: usize = start;
        while k < end
            invariant
                self.wf(),
                start <= k <= end <= self.flat().len(),
                out@ == self.flat().subrange(start as int, k as int),
            decreases end - k,
        {
            let id = match self.format {
                GraphLinksFormat::Plain => self.ids[k],
                GraphLinksFormat::Compressed => unpack_at(&self.bytes, self.width, k),
            };
            out.push(id);
            proof {
                assert(self.flat().subrange(start as int, k + 1) =~= self.flat().subrange(start as int, k as int).push(
                    self.flat()[k as int],
                ));
            }
            k = k + 1;
        }
        out
    }
}

/// Whether the `k`-th neighbor of point `p` at level `l` is itself held at
/// level `l`.
pub open spec fn link_ok(lists: Seq<Seq<Seq<PointOffsetType>>>, p: int, l: int, k: int) -> bool {
    let q = lists[p][l][k];
    q < lists.len() && l < lists[q as int].len()
}

/// Every link names a point that the graph holds at the link's level.
pub open spec fn links_consistent(lists: Seq<Seq<Seq<PointOffsetType>>>) -> bool {
    forall|p: int, l: int, k: int|
        0 <= p < lists.len() && 0 <= l < lists[p].len() && 0 <= k < lists[p][l].len() ==> #[trigger] link_ok(
            lists,
            p,
            l,
            k,
        )
}

/// Whether every link of the store names a point held at the link's level.
pub fn check_links<L: GraphLinksView>(links: &L) -> (r: bool)
    requires
        links.wf(),
        links.lists().len() <= u32::MAX + 1,
    ensures
        r == links_consistent(links.lists()),
{
    let n = links.num_points();
    let mut p: usize = 0;
    while p < n
        invariant
            links.wf(),
            n == links.lists().len(),
            n <= u32::MAX + 1,
            p <= n,
            forall|pp: int, l: int, k: int|
                0 <= pp < p && 0 <= l < links.lists()[pp].len() && 0 <= k < links.lists()[pp][l].len()
                    ==> #[trigger] link_ok(links.lists(), pp, l, k),
        decreases n - p,
    {
        let levels = links.point_level_count(p as PointOffsetType);
        let mut l: usize = 0;
        while l < levels
            invariant
                links.wf(),
                n == links.lists().len(),
                n <= u32::MAX + 1,
                p < n,
                levels == links.lists()[p as int].len(),
                l <= levels,
                forall|pp: int, ll: int, k: int|
                    0 <= pp < p && 0 <= ll < links.lists()[pp].len() && 0 <= k < links.lists()[pp][ll].len()
                        ==> #[trigger] link_ok(links.lists(), pp, ll, k),
                forall|ll: int, k: int|
                    0 <= ll < l && 0 <= k < links.lists()[p as int][ll].len() ==> #[trigger] link_ok(
                        links.lists(),
                        p as int,
                        ll,
                        k,
                    ),
            decreases levels - l,
        {
            let neighbors = links.links(p as PointOffsetType, l);
            let mut k: usize = 0;
            while k < neighbors.len()
                invariant
                    links.wf(),
                    n == links.lists().len(),
                    n <= u32::MAX + 1,
                    p < n,
                    l < links.lists()[p as int].len(),
                    neighbors@ == links.lists()[p as int][l as int],
                    k <= neighbors@.len(),
                    forall|kk: int| 0 <= kk < k ==> #[trigger] link_ok(links.lists(), p as int, l as int, kk),
                decreases neighbors@.len() - k,
            {
                let q = neighbors[k];
                if (q as usize) >= n || l >= links.point_level_count(q) {
                    assert(!link_ok(links.lists(), p as int, l as int, k as int));
                    return false;
                }
                k = k + 1;
            }
            l = l + 1;
        }
        p = p + 1;
    }
    true
}

/// The two encodings answer every lookup alike: link stores converted from
/// the same nested lists hold the same neighbor sequence for every point
/// and level, whatever their formats.
pub proof fn encodings_agree(layers: Seq<Vec<Vec<PointOffsetType>>>, a: &GraphLinks, b: &GraphLinks)
    requires
        a.lists() == layers_view(layers),
        b.lists() == layers_view(layers),
    ensures
        a.lists().len() == layers.len(),
        forall|p: int| 0 <= p < layers.len() ==> #[trigger] a.lists()[p].len() == layers[p]@.len(),
        forall|p: int, l: int|
            0 <= p < layers.len() && 0 <= l < layers[p]@.len() ==> #[trigger] a.lists()[p][l] == b.lists()[p][l]
                && a.lists()[p][l] == layers[p]@[l]@,
{
}

} // verus!
