use rand::rngs::StdRng;
use rand::SeedableRng;
use rumple::geo::Rrt;
use rumple::metric::{SquaredEuclidean, WeightedPoseDistance};
use rumple::nn::{KdTreeMap, RangeNearestNeighborsMap};
use rumple::sample::{Rectangle, Sample};
use rumple::space::{Angle, Pose2d, Vector};
use rumple::{AlwaysValid, Metric, NearestNeighborsMap};

fn build_tree<const N: usize>(points: &[[i32; N]]) -> KdTreeMap<Vector<N>, (), SquaredEuclidean> {
    let mut t = KdTreeMap::new(SquaredEuclidean);
    for &point in points {
        t.insert(Vector::new(point), ());
    }
    t
}

fn brute_force_nearest<const N: usize>(points: &[Vector<N>], q: &Vector<N>) -> Option<u128> {
    points.iter().map(|p| SquaredEuclidean.distance(p, q)).min()
}

#[test]
fn make_tree() {
    let points = [[0, 0], [500, 500]];
    let _ = build_tree(&points);
}

#[test]
fn get_empty() {
    let t = build_tree::<2>(&[]);
    assert_eq!(t.nearest(&Vector::new([0, 0])), None);
}

#[test]
fn get_one() {
    let t = build_tree(&[[1000, 1000]]);
    assert_eq!(
        t.nearest(&Vector::new([0, 0])),
        Some((&Vector::new([1000, 1000]), &()))
    );
}

#[test]
fn across_border() {
    let t = build_tree(&[[1000, 1000], [1500, 1100], [-500, 500]]);
    assert_eq!(
        t.nearest(&Vector::new([0, 0])),
        Some((&Vector::new([-500, 500]), &()))
    );
}

#[test]
fn make_rrt() {
    let rrt = Rrt::new(
        Vector::new([0]),
        KdTreeMap::new(SquaredEuclidean),
        &AlwaysValid,
    );
    assert_eq!(rrt.num_nodes(), 1);
}

#[test]
fn randomized_3d() {
    let region = Rectangle {
        min: Vector::new([-10_000; 3]),
        max: Vector::new([10_000; 3]),
    };
    let mut rng = StdRng::seed_from_u64(2707);
    let mut points: Vec<Vector<3>> = Vec::new();
    let mut kdt = KdTreeMap::new(SquaredEuclidean);
    for _ in 0..2_000 {
        let pt: Vector<3> = region.sample(&mut rng);
        points.push(pt);
        kdt.insert(pt, ());
        let q: Vector<3> = region.sample(&mut rng);
        let expected = brute_force_nearest(&points, &q);
        let got = kdt.nearest(&q).map(|(k, _)| SquaredEuclidean.distance(k, &q));
        assert_eq!(expected, got);
    }
}

#[test]
fn nearest_returns_an_inserted_entry() {
    let mut t = KdTreeMap::new(SquaredEuclidean);
    t.insert(Vector::new([3, 4]), 7u32);
    t.insert(Vector::new([-3, 4]), 8u32);
    t.insert(Vector::new([10, -10]), 9u32);
    let (k, v) = t.nearest(&Vector::new([9, -9])).unwrap();
    assert_eq!(*k, Vector::new([10, -10]));
    assert_eq!(*v, 9);
}

#[test]
fn nearest_exact_match_with_duplicates() {
    let t = build_tree(&[[1, 1], [1, 1], [2, 2], [1, 1]]);
    let (k, _) = t.nearest(&Vector::new([1, 1])).unwrap();
    assert_eq!(*k, Vector::new([1, 1]));
}

#[test]
fn nearest_through_trait() {
    let mut t: KdTreeMap<Vector<2>, usize, SquaredEuclidean> = KdTreeMap::new(SquaredEuclidean);
    NearestNeighborsMap::insert(&mut t, Vector::new([5, 5]), 0);
    NearestNeighborsMap::insert(&mut t, Vector::new([-5, -5]), 1);
    let got = NearestNeighborsMap::nearest(&t, &Vector::new([-4, -6]));
    assert_eq!(got, Some((&Vector::new([-5, -5]), &1)));
}

fn collect_range(t: &KdTreeMap<Vector<2>, usize, SquaredEuclidean>, q: &Vector<2>, r: u128) -> Vec<usize> {
    let mut range = t.nearest_within_r(q, r);
    let mut out = Vec::new();
    while let Some(v) = range.next() {
        out.push(*v);
    }
    out.sort();
    out
}

#[test]
fn radius_search_matches_brute_force() {
    let region = Rectangle {
        min: Vector::new([-1_000; 2]),
        max: Vector::new([1_000; 2]),
    };
    let mut rng = StdRng::seed_from_u64(11);
    let mut points: Vec<Vector<2>> = Vec::new();
    let mut t = KdTreeMap::new(SquaredEuclidean);
    for i in 0..500usize {
        let p: Vector<2> = region.sample(&mut rng);
        points.push(p);
        t.insert(p, i);
    }
    for _ in 0..50 {
        let q: Vector<2> = region.sample(&mut rng);
        for &r in &[0u128, 10_000, 90_000, 1_000_000] {
            let mut expected: Vec<usize> = points
                .iter()
                .enumerate()
                .filter(|(_, p)| SquaredEuclidean.distance(*p, &q) <= r)
                .map(|(i, _)| i)
                .collect();
            expected.sort();
            assert_eq!(collect_range(&t, &q, r), expected);
        }
    }
}

#[test]
fn radius_search_on_empty_map() {
    let t: KdTreeMap<Vector<2>, usize, SquaredEuclidean> = KdTreeMap::new(SquaredEuclidean);
    let q = Vector::new([0, 0]);
    let mut range = t.nearest_within_r(&q, 100);
    assert_eq!(range.len(), 0);
    assert!(range.next().is_none());
}

#[test]
fn radius_search_boundary_is_inclusive() {
    let mut t = KdTreeMap::new(SquaredEuclidean);
    t.insert(Vector::new([3, 4]), 1usize);
    t.insert(Vector::new([0, 6]), 2usize);
    let q = Vector::new([0, 0]);
    assert_eq!(collect_range(&t, &q, 25), vec![1]);
    assert_eq!(collect_range(&t, &q, 24), Vec::<usize>::new());
    assert_eq!(collect_range(&t, &q, 36), vec![1, 2]);
    let through_trait = RangeNearestNeighborsMap::nearest_within_r(&t, &q, 36);
    assert_eq!(through_trait.len(), 2);
}

#[test]
fn pose2d() {
    let region = Rectangle {
        min: Vector::new([-10_000; 2]),
        max: Vector::new([10_000; 2]),
    };
    let mut rng = StdRng::seed_from_u64(2707);
    let m = WeightedPoseDistance {
        position_metric: SquaredEuclidean,
        position_weight: 1,
        angle_metric: SquaredEuclidean,
        angle_weight: 1,
    };
    let mut poses: Vec<Pose2d> = Vec::new();
    let mut kdt = KdTreeMap::new(m);
    for _ in 0..2_000 {
        let pt: Pose2d = region.sample(&mut rng);
        poses.push(pt);
        kdt.insert(pt, ());
        let q: Pose2d = region.sample(&mut rng);
        let expected = poses.iter().map(|p| m.distance(p, &q)).min();
        let got = kdt.nearest(&q).map(|(k, _)| m.distance(k, &q));
        assert_eq!(expected, got);
    }
}

#[test]
fn angles_wrap_around() {
    let mut t = KdTreeMap::new(SquaredEuclidean);
    t.insert(Angle::new(100), 0usize);
    t.insert(Angle::new(30_000), 1usize);
    t.insert(Angle::new(65_000), 2usize);
    let (k, v) = t.nearest(&Angle::new(10)).unwrap();
    assert_eq!((*k, *v), (Angle::new(100), 0));
    let (k, v) = t.nearest(&Angle::new(64_900)).unwrap();
    assert_eq!((*k, *v), (Angle::new(65_000), 2));
    let (k, _) = t.nearest(&Angle::new(65_530)).unwrap();
    assert_eq!(*k, Angle::new(100));
    assert_eq!(SquaredEuclidean.distance(&Angle::new(65_530), &Angle::new(100)), 106 * 106);
    assert_eq!(Angle::new(65_536 + 5).get(), 5);
}

#[test]
fn duplicates_are_all_kept() {
    let mut t = KdTreeMap::new(SquaredEuclidean);
    for _ in 0..3 {
        t.insert(Vector::new([2, 2]), 7usize);
    }
    t.insert(Vector::new([50, 50]), 7usize);
    assert_eq!(collect_range(&t, &Vector::new([2, 2]), 0), vec![7, 7, 7]);
    assert_eq!(collect_range(&t, &Vector::new([2, 2]), 10_000), vec![7, 7, 7, 7]);
}
