use hnsw_index::deletion::check_deleted_condition;
use hnsw_index::point_filterer::{FilterContext, NoFilter, PointsFilterer, ScoredPointOffset, SimplePointsFilterer};

struct EvenOnly;

impl FilterContext for EvenOnly {
    fn admits(&self, point_id: u32) -> bool {
        point_id % 2 == 0
    }

    fn check(&self, point_id: u32) -> bool {
        point_id % 2 == 0
    }
}

struct RejectAll;

impl FilterContext for RejectAll {
    fn admits(&self, _point_id: u32) -> bool {
        false
    }

    fn check(&self, _point_id: u32) -> bool {
        false
    }
}

fn sp(idx: u32, score: f32) -> ScoredPointOffset {
    ScoredPointOffset { idx, score: score.to_bits() }
}

fn ids(v: &[ScoredPointOffset]) -> Vec<u32> {
    v.iter().map(|s| s.idx).collect()
}

#[test]
fn deleted_condition_reads_both_flags() {
    let vec_deleted = [false, true, false, false];
    let point_deleted = [false, false, true, false];
    assert!(check_deleted_condition(0, &vec_deleted, &point_deleted));
    assert!(!check_deleted_condition(1, &vec_deleted, &point_deleted));
    assert!(!check_deleted_condition(2, &vec_deleted, &point_deleted));
    assert!(check_deleted_condition(3, &vec_deleted, &point_deleted));
}

#[test]
fn filterer_for_points_rejects_short_views() {
    let long = [false; 5];
    let short = [false; 3];
    assert!(PointsFilterer::<NoFilter>::for_points(&long, &long, None, 5).is_some());
    assert!(PointsFilterer::<NoFilter>::for_points(&short, &long, None, 5).is_none());
    assert!(PointsFilterer::<NoFilter>::for_points(&long, &short, None, 5).is_none());
    assert!(PointsFilterer::<NoFilter>::for_points(&short, &short, None, 3).is_some());
    let f = PointsFilterer::<NoFilter>::for_points(&long, &long, None, 4).unwrap();
    assert!(f.check_vector(4));
}

#[test]
fn simple_filterer_check_vector() {
    let vec_deleted = [false, false, true];
    let point_deleted = [true, false, false];
    let f = SimplePointsFilterer::new(&vec_deleted, &point_deleted);
    assert!(!f.check_vector(0));
    assert!(f.check_vector(1));
    assert!(!f.check_vector(2));
}

#[test]
fn points_filterer_with_context() {
    let vec_deleted = [false; 6];
    let point_deleted = [false, false, false, false, true, false];
    let ctx = EvenOnly;
    let f = SimplePointsFilterer::new(&vec_deleted, &point_deleted).with_context(Some(&ctx));
    assert!(f.check_vector(0));
    assert!(!f.check_vector(1));
    assert!(f.check_vector(2));
    assert!(!f.check_vector(4));
    let none: PointsFilterer<NoFilter> = PointsFilterer::new(&vec_deleted, &point_deleted, None);
    assert!(none.check_vector(1));
    assert!(!none.check_vector(4));
}

#[test]
fn filter_scores_keeps_order_and_scores() {
    let vec_deleted = [false, true, false, false, false, false, false, false, false, false];
    let point_deleted = [false, false, false, true, false, false, false, false, false, true];
    let f: PointsFilterer<NoFilter> = PointsFilterer::new(&vec_deleted, &point_deleted, None);
    let mut scores = vec![sp(5, 0.9), sp(1, 0.8), sp(0, 0.7), sp(3, 0.6), sp(2, 0.5), sp(9, 0.4)];
    f.filter_scores(&mut scores, 0);
    assert_eq!(scores, vec![sp(5, 0.9), sp(0, 0.7), sp(2, 0.5)]);
}

#[test]
fn filter_scores_truncates_from_front() {
    let vec_deleted = [false; 8];
    let point_deleted = [false; 8];
    let ctx = EvenOnly;
    let f = PointsFilterer::new(&vec_deleted, &point_deleted, Some(&ctx));
    let candidates = vec![sp(7, 1.0), sp(6, 2.0), sp(4, 3.0), sp(3, 4.0), sp(2, 5.0), sp(0, 6.0)];
    let mut unbounded = candidates.clone();
    f.filter_scores(&mut unbounded, 0);
    assert_eq!(ids(&unbounded), vec![6, 4, 2, 0]);
    for k in 1..6usize {
        let mut bounded = candidates.clone();
        f.filter_scores(&mut bounded, k);
        assert!(bounded.len() <= k);
        assert_eq!(bounded[..], unbounded[..bounded.len()]);
    }
    let mut two = candidates.clone();
    f.filter_scores(&mut two, 2);
    assert_eq!(two, vec![sp(6, 2.0), sp(4, 3.0)]);
}

#[test]
fn filter_scores_limit_larger_than_survivors() {
    let vec_deleted = [false; 3];
    let point_deleted = [false; 3];
    let f: PointsFilterer<NoFilter> = PointsFilterer::new(&vec_deleted, &point_deleted, None);
    let mut scores = vec![sp(2, 0.1), sp(1, 0.2)];
    f.filter_scores(&mut scores, 10);
    assert_eq!(ids(&scores), vec![2, 1]);
}

#[test]
fn filter_scores_empty_input() {
    let vec_deleted = [false; 3];
    let point_deleted = [false; 3];
    let f: PointsFilterer<NoFilter> = PointsFilterer::new(&vec_deleted, &point_deleted, None);
    let mut scores: Vec<ScoredPointOffset> = Vec::new();
    f.filter_scores(&mut scores, 3);
    assert!(scores.is_empty());
}

#[test]
fn filter_scores_rejecting_everything() {
    let vec_deleted = [false; 4];
    let point_deleted = [false; 4];
    let ctx = RejectAll;
    let f = PointsFilterer::new(&vec_deleted, &point_deleted, Some(&ctx));
    for limit in [0usize, 1, 5] {
        let mut scores = vec![sp(0, 1.0), sp(1, 2.0), sp(2, 3.0), sp(3, 4.0)];
        f.filter_scores(&mut scores, limit);
        assert!(scores.is_empty());
    }
}

#[test]
fn every_returned_point_is_eligible() {
    let vec_deleted = [false, true, false, false, true, false, false, false, false, false];
    let point_deleted = [false, false, false, true, false, false, true, false, true, false];
    let ctx = EvenOnly;
    let f = PointsFilterer::new(&vec_deleted, &point_deleted, Some(&ctx));
    let candidates: Vec<ScoredPointOffset> = (0..10u32).rev().map(|i| sp(i, i as f32)).collect();
    let mut out = candidates.clone();
    f.filter_scores(&mut out, 0);
    for s in &out {
        assert!(f.check_vector(s.idx));
    }
    for c in &candidates {
        if f.check_vector(c.idx) {
            assert!(out.contains(c));
        }
    }
    assert_eq!(ids(&out), vec![2, 0]);
    assert!(!out.iter().any(|s| s.idx == 8));
}

#[test]
fn deleting_a_point_removes_only_that_point() {
    let vec_deleted = [false; 6];
    let before_flags = [false; 6];
    let mut after_flags = before_flags;
    after_flags[3] = true;
    let before: PointsFilterer<NoFilter> = PointsFilterer::new(&vec_deleted, &before_flags, None);
    let after: PointsFilterer<NoFilter> = PointsFilterer::new(&vec_deleted, &after_flags, None);
    let candidates = vec![sp(4, 0.9), sp(3, 0.8), sp(1, 0.7), sp(3, 0.6), sp(5, 0.5)];
    let mut a = candidates.clone();
    before.filter_scores(&mut a, 0);
    let mut b = candidates.clone();
    after.filter_scores(&mut b, 0);
    let expected: Vec<ScoredPointOffset> = a.iter().copied().filter(|s| s.idx != 3).collect();
    assert_eq!(b, expected);
    assert!(b.iter().all(|s| s.idx != 3));
}

#[test]
fn vector_deletion_removes_only_that_point() {
    let point_deleted = [false; 4];
    let vec_before = [false; 4];
    let vec_after = [true, false, false, false];
    let before: PointsFilterer<NoFilter> = PointsFilterer::new(&vec_before, &point_deleted, None);
    let after: PointsFilterer<NoFilter> = PointsFilterer::new(&vec_after, &point_deleted, None);
    let candidates = vec![sp(0, 3.0), sp(2, 2.0), sp(1, 1.0), sp(0, 0.5)];
    let mut a = candidates.clone();
    before.filter_scores(&mut a, 0);
    let mut b = candidates.clone();
    after.filter_scores(&mut b, 0);
    assert_eq!(ids(&a), vec![0, 2, 1, 0]);
    assert_eq!(ids(&b), vec![2, 1]);
}
