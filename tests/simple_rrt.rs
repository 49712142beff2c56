use rand::distributions::Bernoulli;
use rand::rngs::StdRng;
use rand::SeedableRng;
use rumple::geo::Rrt;
use rumple::metric::SquaredEuclidean;
use rumple::nn::KdTreeMap;
use rumple::sample::Rectangle;
use rumple::space::Vector;
use rumple::time::{LimitNodes, LimitSamples};
use rumple::{AlwaysValid, Metric, Validate};

#[test]
fn simple_rrt() {
    let mut rrt = Rrt::new(
        Vector::new([0, 0]),
        KdTreeMap::new(SquaredEuclidean),
        &AlwaysValid,
    );
    let radius = 50_000;
    let res = rrt
        .grow_toward(
            &Rectangle {
                min: Vector::new([0, 1_100]),
                max: Vector::new([0, 1_100]),
            },
            &Vector::new([1_000, 1_000]),
            radius,
            &mut LimitNodes::new(10_000),
            &Bernoulli::from_ratio(1, 20).unwrap(),
            &mut StdRng::seed_from_u64(2707),
        )
        .unwrap();

    println!("Created {} nodes", rrt.num_nodes());
    println!("{res:?}");
    assert!(
        res.windows(2)
            .all(|a| SquaredEuclidean.distance(&a[0], &a[1]) <= radius),
        "all transitions must be within growth radius"
    );
    assert!(rrt.num_nodes() <= 10_001);
}

fn run_seeded(seed: u64) -> (Option<Vec<Vector<2>>>, usize, usize) {
    let mut rrt = Rrt::new(
        Vector::new([0, 0]),
        KdTreeMap::new(SquaredEuclidean),
        &AlwaysValid,
    );
    let res = rrt.grow_toward(
        &Rectangle {
            min: Vector::new([-2_000, -2_000]),
            max: Vector::new([2_000, 2_000]),
        },
        &Vector::new([1_500, -1_200]),
        40_000,
        &mut LimitNodes::new(5_000),
        &Bernoulli::from_ratio(1, 10).unwrap(),
        &mut StdRng::seed_from_u64(seed),
    );
    (res, rrt.num_nodes(), rrt.num_samples())
}

#[test]
fn seeded_runs_are_deterministic() {
    let a = run_seeded(42);
    let b = run_seeded(42);
    assert_eq!(a, b);
    assert!(a.0.is_some());
}

#[test]
fn path_runs_from_root_to_goal() {
    let (res, nodes, samples) = run_seeded(7);
    let path = res.unwrap();
    assert_eq!(path[0], Vector::new([0, 0]));
    assert_eq!(*path.last().unwrap(), Vector::new([1_500, -1_200]));
    assert!(path
        .windows(2)
        .all(|a| SquaredEuclidean.distance(&a[0], &a[1]) <= 40_000));
    assert!(nodes <= samples + 1);
}

#[test]
fn path_follows_parent_links() {
    let mut rrt = Rrt::new(
        Vector::new([0, 0]),
        KdTreeMap::new(SquaredEuclidean),
        &AlwaysValid,
    );
    let path = rrt
        .grow_toward(
            &Rectangle {
                min: Vector::new([-500, -500]),
                max: Vector::new([500, 500]),
            },
            &Vector::new([300, 300]),
            10_000,
            &mut LimitNodes::new(2_000),
            &Bernoulli::from_ratio(1, 4).unwrap(),
            &mut StdRng::seed_from_u64(3),
        )
        .unwrap();
    let last = rrt.num_nodes() - 1;
    assert_eq!(rrt.path_to(last), path);
    assert_eq!(rrt.path_to(0), vec![Vector::new([0, 0])]);
}

struct NoTransitions;

impl Validate<Vector<2>> for NoTransitions {
    fn valid_configuration(&self, _c: Vector<2>) -> bool {
        true
    }

    fn valid_transition(&self, _start: Vector<2>, _end: Vector<2>) -> bool {
        false
    }

    fn is_valid_configuration(&self, _c: &Vector<2>) -> bool {
        true
    }

    fn is_valid_transition(&self, _start: &Vector<2>, _end: &Vector<2>) -> bool {
        false
    }
}

#[test]
fn rejecting_validator_adds_nothing() {
    let mut rrt = Rrt::new(
        Vector::new([0, 0]),
        KdTreeMap::new(SquaredEuclidean),
        &NoTransitions,
    );
    let mut timeout = LimitSamples::new(500);
    let res = rrt.grow_toward(
        &Rectangle {
            min: Vector::new([-100, -100]),
            max: Vector::new([100, 100]),
        },
        &Vector::new([10, 10]),
        1_000,
        &mut timeout,
        &Bernoulli::from_ratio(1, 2).unwrap(),
        &mut StdRng::seed_from_u64(1),
    );
    assert!(res.is_none());
    assert_eq!(rrt.num_nodes(), 1);
    assert_eq!(rrt.num_samples(), 500);
}

#[test]
fn samples_count_every_attempt() {
    let mut rrt = Rrt::new(
        Vector::new([0, 0]),
        KdTreeMap::new(SquaredEuclidean),
        &AlwaysValid,
    );
    let res = rrt.grow_toward(
        &Rectangle {
            min: Vector::new([-100_000, -100_000]),
            max: Vector::new([100_000, 100_000]),
        },
        &Vector::new([90_000, 90_000]),
        100,
        &mut LimitSamples::new(300),
        &Bernoulli::from_ratio(0, 1).unwrap(),
        &mut StdRng::seed_from_u64(5),
    );
    assert!(res.is_none());
    assert_eq!(rrt.num_samples(), 300);
    assert_eq!(rrt.num_nodes(), 301);
}

#[test]
fn step_extends_nearest_node() {
    let mut rrt = Rrt::new(
        Vector::new([0, 0]),
        KdTreeMap::new(SquaredEuclidean),
        &AlwaysValid,
    );
    assert_eq!(rrt.step(Vector::new([3, 4]), false, 25), None);
    assert_eq!(rrt.num_nodes(), 2);
    assert_eq!(rrt.path_to(1), vec![Vector::new([0, 0]), Vector::new([3, 4])]);
    let path = rrt.step(Vector::new([3, 9]), true, 25).unwrap();
    assert_eq!(
        path,
        vec![Vector::new([0, 0]), Vector::new([3, 4]), Vector::new([3, 9])]
    );
    assert_eq!(rrt.step(Vector::new([100, 0]), true, 100), None);
    let last = rrt.path_to(3);
    assert_eq!(last[0], Vector::new([0, 0]));
    assert_eq!(last.len(), 3);
    assert_eq!(last[1], Vector::new([3, 4]));
    let end = last[2];
    assert!(SquaredEuclidean.distance(&Vector::new([3, 4]), &end) <= 100);
    assert!(end.get(0) > 3);
}

#[test]
fn step_rejected_adds_nothing() {
    let mut rrt = Rrt::new(
        Vector::new([0, 0]),
        KdTreeMap::new(SquaredEuclidean),
        &NoTransitions,
    );
    assert_eq!(rrt.step(Vector::new([1, 1]), true, 10), None);
    assert_eq!(rrt.num_nodes(), 1);
}

#[test]
fn path_steps_found_by_radius_search() {
    let mut rrt = Rrt::new(
        Vector::new([0, 0]),
        KdTreeMap::new(SquaredEuclidean),
        &AlwaysValid,
    );
    let radius = 40_000;
    let path = rrt
        .grow_toward(
            &Rectangle {
                min: Vector::new([-2_000, -2_000]),
                max: Vector::new([2_000, 2_000]),
            },
            &Vector::new([1_500, -1_200]),
            radius,
            &mut LimitNodes::new(5_000),
            &Bernoulli::from_ratio(1, 10).unwrap(),
            &mut StdRng::seed_from_u64(42),
        )
        .unwrap();
    for pair in path.windows(2) {
        let mut near = rrt.map().nearest_within_r(&pair[1], radius);
        let mut found = false;
        while let Some(&i) = near.next() {
            if rrt.path_to(i).last() == Some(&pair[0]) {
                found = true;
            }
        }
        assert!(found);
    }
}
