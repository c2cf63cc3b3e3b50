use hnsw_index::entry_points::{EntryPoint, EntryPoints};
use hnsw_index::graph_links::{GraphLinks, GraphLinksFormat, GraphLinksView};
use hnsw_index::point_filterer::{FilterContext, NoFilter, PointsFilterer};

struct RejectAll;

impl FilterContext for RejectAll {
    fn admits(&self, _point_id: u32) -> bool {
        false
    }

    fn check(&self, _point_id: u32) -> bool {
        false
    }
}

/// A small deterministic generator (64-bit linear congruential).
struct Lcg(u64);

impl Lcg {
    fn next(&mut self) -> u64 {
        self.0 = self.0.wrapping_mul(6364136223846793005).wrapping_add(1442695040888963407);
        self.0 >> 33
    }
}

/// Nested neighbor lists of `n` points: each point takes a geometric number
/// of levels, up to `m0` neighbors at level 0 and `m` above.
fn random_layers(n: u32, m: usize, m0: usize, id_spread: u32, rng: &mut Lcg) -> Vec<Vec<Vec<u32>>> {
    (0..n)
        .map(|_| {
            let mut levels = 1;
            while rng.next() % 16 == 0 && levels < 5 {
                levels += 1;
            }
            (0..levels)
                .map(|level| {
                    let bound = if level == 0 { m0 } else { m };
                    let count = (rng.next() as usize) % (bound + 1);
                    (0..count).map(|_| (rng.next() as u32) % id_spread).collect()
                })
                .collect()
        })
        .collect()
}

fn assert_store_matches(links: &GraphLinks, layers: &Vec<Vec<Vec<u32>>>) {
    assert_eq!(links.num_points(), layers.len());
    for (p, point_layers) in layers.iter().enumerate() {
        assert_eq!(links.point_level_count(p as u32), point_layers.len());
        for (level, list) in point_layers.iter().enumerate() {
            assert_eq!(&links.links(p as u32, level), list);
        }
    }
}

#[test]
fn plain_and_compressed_lookups_agree() {
    let mut rng = Lcg(42);
    let layers = random_layers(1000, 16, 32, 1000, &mut rng);
    let plain = GraphLinks::from_layers(&layers, GraphLinksFormat::Plain);
    let compressed = GraphLinks::from_layers(&layers, GraphLinksFormat::Compressed);
    assert_eq!(plain.format(), GraphLinksFormat::Plain);
    assert_eq!(compressed.format(), GraphLinksFormat::Compressed);
    assert_store_matches(&plain, &layers);
    assert_store_matches(&compressed, &layers);
    for p in 0..1000u32 {
        for level in 0..plain.point_level_count(p) {
            assert_eq!(plain.links(p, level), compressed.links(p, level));
        }
    }
}

#[test]
fn compressed_handles_every_width() {
    for spread in [200u32, 60_000, 16_000_000, u32::MAX] {
        let mut rng = Lcg(spread as u64);
        let mut layers = random_layers(50, 8, 16, spread, &mut rng);
        layers[0][0] = vec![spread - 1, 0, spread / 2];
        let compressed = GraphLinks::from_layers(&layers, GraphLinksFormat::Compressed);
        assert_store_matches(&compressed, &layers);
    }
}

#[test]
fn small_graph_lookup() {
    let layers = vec![
        vec![vec![1, 2], vec![2]],
        vec![vec![0]],
        vec![vec![1, 0], vec![0], vec![]],
    ];
    for format in [GraphLinksFormat::Plain, GraphLinksFormat::Compressed] {
        let links = GraphLinks::from_layers(&layers, format);
        assert_eq!(links.num_points(), 3);
        assert_eq!(links.point_level_count(2), 3);
        assert_eq!(links.links(0, 0), vec![1, 2]);
        assert_eq!(links.links(0, 1), vec![2]);
        assert_eq!(links.links(2, 0), vec![1, 0]);
        assert_eq!(links.links(2, 2), Vec::<u32>::new());
    }
}

#[test]
fn empty_graph() {
    let layers: Vec<Vec<Vec<u32>>> = Vec::new();
    let links = GraphLinks::from_layers(&layers, GraphLinksFormat::Compressed);
    assert_eq!(links.num_points(), 0);
}

#[test]
fn entry_point_is_first_eligible() {
    let vec_deleted = [false; 8];
    let point_deleted = [true, false, false, false, false, false, false, false];
    let f: PointsFilterer<NoFilter> = PointsFilterer::new(&vec_deleted, &point_deleted, None);
    let mut eps = EntryPoints::new();
    assert_eq!(eps.get_entry_point(&f), None);
    assert_eq!(eps.new_point(0, 3, &f), None);
    // point 0 is deleted, so point 1 is appended after it
    assert_eq!(eps.new_point(1, 2, &f), None);
    assert_eq!(eps.get_entry_point(&f), Some(EntryPoint { point_id: 1, level: 2 }));
    // a lower point starts from the current entry, which stays
    assert_eq!(eps.new_point(2, 1, &f), Some(EntryPoint { point_id: 1, level: 2 }));
    assert_eq!(eps.get_entry_point(&f), Some(EntryPoint { point_id: 1, level: 2 }));
    // a higher point takes the entry's place
    assert_eq!(eps.new_point(3, 4, &f), Some(EntryPoint { point_id: 1, level: 2 }));
    assert_eq!(eps.get_entry_point(&f), Some(EntryPoint { point_id: 3, level: 4 }));
}

#[test]
fn entry_point_under_rejecting_filter() {
    let vec_deleted = [false; 4];
    let point_deleted = [false; 4];
    let open: PointsFilterer<NoFilter> = PointsFilterer::new(&vec_deleted, &point_deleted, None);
    let mut eps = EntryPoints::new();
    eps.new_point(0, 2, &open);
    eps.new_point(1, 3, &open);
    let ctx = RejectAll;
    let closed = PointsFilterer::new(&vec_deleted, &point_deleted, Some(&ctx));
    assert_eq!(eps.get_entry_point(&closed), None);
    assert_eq!(eps.get_entry_point(&open), Some(EntryPoint { point_id: 1, level: 3 }));
}

#[test]
fn consistent_graph_converts() {
    let mut builder = hnsw_index::graph_layers_builder::GraphLayersBuilder::new(3);
    builder.set_levels(1, 1);
    builder.set_levels(2, 1);
    builder.set_links(0, 0, vec![1, 2]);
    builder.set_links(1, 1, vec![2]);
    builder.set_links(2, 1, vec![1]);
    assert!(hnsw_index::graph_links::check_links(&builder));
    let links = builder.try_into_graph_links(GraphLinksFormat::Plain).unwrap();
    assert_eq!(links.links(1, 1), vec![2]);
    assert_eq!(links.links(0, 0), vec![1, 2]);
}

#[test]
fn dangling_links_are_rejected() {
    let mut builder = hnsw_index::graph_layers_builder::GraphLayersBuilder::new(3);
    builder.set_links(0, 0, vec![1, 9]);
    assert!(!hnsw_index::graph_links::check_links(&builder));
    assert!(builder.try_into_graph_links(GraphLinksFormat::Compressed).is_none());

    let mut higher = hnsw_index::graph_layers_builder::GraphLayersBuilder::new(3);
    higher.set_levels(0, 1);
    // point 2 is held on level zero only
    higher.set_links(0, 1, vec![2]);
    assert!(higher.try_into_graph_links(GraphLinksFormat::Plain).is_none());
}

#[test]
fn set_levels_keeps_and_drops_lists() {
    let mut builder = hnsw_index::graph_layers_builder::GraphLayersBuilder::new(2);
    builder.set_levels(0, 2);
    builder.set_links(0, 0, vec![1]);
    builder.set_links(0, 2, vec![1]);
    assert_eq!(builder.point_level_count(0), 3);
    builder.set_levels(0, 1);
    assert_eq!(builder.point_level_count(0), 2);
    assert_eq!(builder.links(0, 0), vec![1]);
    assert_eq!(builder.links(0, 1), Vec::<u32>::new());
}
