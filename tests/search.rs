use hnsw_index::graph_layers_builder::GraphLayersBuilder;
use hnsw_index::graph_links::{GraphLinks, GraphLinksFormat, GraphLinksView};
use hnsw_index::graph_search::{search, search_entry, search_on_level, RawScorer, ScoreTable};
use hnsw_index::point_filterer::{FilterContext, NoFilter, PointsFilterer, ScoredPointOffset};

struct Lcg(u64);

impl Lcg {
    fn next(&mut self) -> u64 {
        self.0 = self.0.wrapping_mul(6364136223846793005).wrapping_add(1442695040888963407);
        self.0 >> 33
    }
}

struct RejectAll;

impl FilterContext for RejectAll {
    fn admits(&self, _point_id: u32) -> bool {
        false
    }

    fn check(&self, _point_id: u32) -> bool {
        false
    }
}

/// Scores points by closeness to a query: the key is `u32::MAX` minus the
/// squared distance, so a nearer point has a larger key.
struct L2Scorer<'a> {
    vectors: &'a [Vec<i32>],
    query: Vec<i32>,
}

impl<'a> L2Scorer<'a> {
    fn key(&self, point_id: u32) -> u32 {
        let v = &self.vectors[point_id as usize];
        let d: i64 = v.iter().zip(&self.query).map(|(a, b)| ((a - b) as i64) * ((a - b) as i64)).sum();
        u32::MAX - d as u32
    }
}

impl<'a> RawScorer for L2Scorer<'a> {
    fn score_of(&self, point_id: u32) -> u32 {
        self.key(point_id)
    }

    fn score_point(&self, point_id: u32) -> u32 {
        self.key(point_id)
    }
}

fn random_vectors(n: usize, dim: usize, rng: &mut Lcg) -> Vec<Vec<i32>> {
    (0..n).map(|_| (0..dim).map(|_| (rng.next() % 256) as i32).collect()).collect()
}

fn sq_dist(a: &[i32], b: &[i32]) -> i64 {
    a.iter().zip(b).map(|(x, y)| ((x - y) as i64) * ((x - y) as i64)).sum()
}

/// Builds a layered proximity graph: each point takes a geometric level and
/// links, on each of its levels, to its `m` nearest points on that level
/// (`2 * m` on level zero).
fn build_graph(vectors: &[Vec<i32>], m: usize, rng: &mut Lcg) -> GraphLayersBuilder {
    let n = vectors.len();
    let mut builder = GraphLayersBuilder::new(n);
    let levels: Vec<usize> = (0..n)
        .map(|_| {
            let mut level = 0;
            while rng.next() % (m as u64) == 0 && level < 4 {
                level += 1;
            }
            level
        })
        .collect();
    let all_open = vec![false; n];
    let open: PointsFilterer<NoFilter> = PointsFilterer::new(&all_open, &all_open, None);
    for p in 0..n {
        builder.set_levels(p as u32, levels[p]);
        builder.entry_points.new_point(p as u32, levels[p], &open);
    }
    for p in 0..n {
        for level in 0..=levels[p] {
            let bound = if level == 0 { 2 * m } else { m };
            let mut others: Vec<usize> = (0..n).filter(|&q| q != p && levels[q] >= level).collect();
            others.sort_by_key(|&q| (sq_dist(&vectors[p], &vectors[q]), q));
            let links: Vec<u32> = others.into_iter().take(bound).map(|q| q as u32).collect();
            builder.set_links(p as u32, level, links);
        }
    }
    builder
}

fn check_result(r: &[ScoredPointOffset], top: usize, scorer: &L2Scorer) {
    assert!(r.len() <= top);
    for w in r.windows(2) {
        assert!(w[0].score >= w[1].score);
    }
    for s in r {
        assert_eq!(s.score, scorer.key(s.idx));
    }
    let mut ids: Vec<u32> = r.iter().map(|s| s.idx).collect();
    ids.sort();
    ids.dedup();
    assert_eq!(ids.len(), r.len());
}

#[test]
fn encodings_search_identically() {
    let (num_vectors, num_queries, m, dim, top, ef) = (1000usize, 100usize, 16usize, 8usize, 5usize, 100usize);
    let mut rng = Lcg(42);
    let vectors = random_vectors(num_vectors, dim, &mut rng);
    let builder = build_graph(&vectors, m, &mut rng);
    let queries = random_vectors(num_queries, dim, &mut rng);
    let deleted = vec![false; num_vectors];
    let filterer: PointsFilterer<NoFilter> = PointsFilterer::new(&deleted, &deleted, None);

    let mut builder_results = Vec::new();
    for q in &queries {
        let scorer = L2Scorer { vectors: &vectors, query: q.clone() };
        let r = search(&builder, &builder.entry_points, top, ef, &filterer, &scorer);
        check_result(&r, top, &scorer);
        assert_eq!(r.len(), top);
        builder_results.push(r);
    }
    let entry_points = &builder.entry_points;
    let plain = GraphLinks::from_layers(&builder.links_layers, GraphLinksFormat::Plain);
    let compressed = GraphLinks::from_layers(&builder.links_layers, GraphLinksFormat::Compressed);
    for (i, q) in queries.iter().enumerate() {
        let scorer = L2Scorer { vectors: &vectors, query: q.clone() };
        let a = search(&plain, entry_points, top, ef, &filterer, &scorer);
        let b = search(&compressed, entry_points, top, ef, &filterer, &scorer);
        assert_eq!(a, builder_results[i]);
        assert_eq!(b, builder_results[i]);
    }
}

#[test]
fn search_finds_nearest_with_wide_beam() {
    let mut rng = Lcg(7);
    let vectors = random_vectors(200, 4, &mut rng);
    let builder = build_graph(&vectors, 8, &mut rng);
    let deleted = vec![false; 200];
    let filterer: PointsFilterer<NoFilter> = PointsFilterer::new(&deleted, &deleted, None);
    let query = vectors[17].clone();
    let scorer = L2Scorer { vectors: &vectors, query };
    let r = search(&builder, &builder.entry_points, 3, 200, &filterer, &scorer);
    assert_eq!(r[0].idx, 17);
    assert_eq!(r[0].score, u32::MAX);
}

#[test]
fn rejecting_filter_gives_empty_result() {
    let mut rng = Lcg(3);
    let vectors = random_vectors(100, 4, &mut rng);
    let builder = build_graph(&vectors, 4, &mut rng);
    let deleted = vec![false; 100];
    let ctx = RejectAll;
    let filterer = PointsFilterer::new(&deleted, &deleted, Some(&ctx));
    let scorer = L2Scorer { vectors: &vectors, query: vectors[0].clone() };
    let r = search(&builder, &builder.entry_points, 5, 20, &filterer, &scorer);
    assert!(r.is_empty());
    let all_deleted = vec![true; 100];
    let gone: PointsFilterer<NoFilter> = PointsFilterer::new(&deleted, &all_deleted, None);
    assert!(search(&builder, &builder.entry_points, 5, 20, &gone, &scorer).is_empty());
    assert!(builder.entry_points.get_entry_point(&gone).is_none());
}

#[test]
fn deleted_point_is_not_returned() {
    let mut rng = Lcg(11);
    let vectors = random_vectors(300, 4, &mut rng);
    let builder = build_graph(&vectors, 8, &mut rng);
    let vec_deleted = vec![false; 300];
    let point_deleted = vec![false; 300];
    let filterer: PointsFilterer<NoFilter> = PointsFilterer::new(&vec_deleted, &point_deleted, None);
    let scorer = L2Scorer { vectors: &vectors, query: vectors[42].clone() };
    let before = search(&builder, &builder.entry_points, 10, 300, &filterer, &scorer);
    assert_eq!(before[0].idx, 42);
    let mut deleted_after = point_deleted.clone();
    deleted_after[42] = true;
    let after_filterer: PointsFilterer<NoFilter> = PointsFilterer::new(&vec_deleted, &deleted_after, None);
    let after = search(&builder, &builder.entry_points, 10, 300, &after_filterer, &scorer);
    assert!(after.iter().all(|s| s.idx != 42));
    let mut vdel = vec_deleted.clone();
    vdel[42] = true;
    let vec_filterer: PointsFilterer<NoFilter> = PointsFilterer::new(&vdel, &point_deleted, None);
    let after_vec = search(&builder, &builder.entry_points, 10, 300, &vec_filterer, &scorer);
    assert!(after_vec.iter().all(|s| s.idx != 42));
}

#[test]
fn ef_below_top_is_widened() {
    let mut rng = Lcg(5);
    let vectors = random_vectors(150, 4, &mut rng);
    let builder = build_graph(&vectors, 8, &mut rng);
    let deleted = vec![false; 150];
    let filterer: PointsFilterer<NoFilter> = PointsFilterer::new(&deleted, &deleted, None);
    let scorer = L2Scorer { vectors: &vectors, query: vectors[3].clone() };
    let r = search(&builder, &builder.entry_points, 10, 1, &filterer, &scorer);
    assert_eq!(r.len(), 10);
    check_result(&r, 10, &scorer);
}

#[test]
fn descent_and_level_search_on_a_line() {
    // points 0..5 on a line; level one holds 0 and 4
    let vectors: Vec<Vec<i32>> = (0..5).map(|i| vec![i * 10]).collect();
    let mut builder = GraphLayersBuilder::new(5);
    builder.set_levels(0, 1);
    builder.set_levels(4, 1);
    builder.set_links(0, 1, vec![4]);
    builder.set_links(4, 1, vec![0]);
    for p in 0..5u32 {
        let mut links = Vec::new();
        if p > 0 {
            links.push(p - 1);
        }
        if p < 4 {
            links.push(p + 1);
        }
        builder.set_links(p, 0, links);
    }
    let scorer = L2Scorer { vectors: &vectors, query: vec![31] };
    let entry = search_entry(&builder, 0, 1, 0, &scorer);
    assert_eq!(entry.idx, 4);
    assert_eq!(entry.score, u32::MAX - 81);
    let deleted = vec![false; 5];
    let filterer: PointsFilterer<NoFilter> = PointsFilterer::new(&deleted, &deleted, None);
    let r = search_on_level(&builder, entry, 0, 2, &filterer, &scorer);
    let ids: Vec<u32> = r.iter().map(|s| s.idx).collect();
    assert_eq!(ids, vec![3, 4]);
    assert_eq!(builder.num_points(), 5);
    assert_eq!(builder.point_level_count(4), 2);
    assert_eq!(builder.links(4, 1), vec![0]);
    let links = builder.into_graph_links(GraphLinksFormat::Compressed);
    assert_eq!(links.links(2, 0), vec![1, 3]);
}

#[test]
fn score_table_search() {
    // a ring of six points; the keys favour point 3
    let deleted = vec![false; 6];
    let filterer: PointsFilterer<NoFilter> = PointsFilterer::new(&deleted, &deleted, None);
    let mut builder = GraphLayersBuilder::new(6);
    for p in 0..6u32 {
        builder.set_links(p, 0, vec![(p + 5) % 6, (p + 1) % 6]);
    }
    assert_eq!(builder.entry_points.new_point(0, 0, &filterer), None);
    let scorer = ScoreTable { keys: vec![10, 20, 30, 40, 25, 15] };
    let r = search(&builder, &builder.entry_points, 3, 6, &filterer, &scorer);
    let ids: Vec<u32> = r.iter().map(|s| s.idx).collect();
    assert_eq!(ids, vec![3, 2, 4]);
    assert_eq!(scorer.score_point(9), 0);
}
