use rand::distributions::Bernoulli;
use rand::rngs::StdRng;
use rand::SeedableRng;
use rumple::metric::SquaredEuclidean;
use rumple::nn::{DistanceAabb, KdKey};
use rumple::sample::{Everywhere, Rectangle, Sample};
use rumple::space::Vector;
use rumple::{Interpolate, Metric};

#[test]
fn squared_euclidean_values() {
    let m = SquaredEuclidean;
    assert_eq!(m.distance(&Vector::new([0, 0]), &Vector::new([3, 4])), 25);
    assert_eq!(m.distance(&Vector::new([1, -2, 3]), &Vector::new([1, -2, 3])), 0);
    assert_eq!(
        m.distance(&Vector::new([i32::MIN]), &Vector::new([i32::MAX])),
        (u32::MAX as u128) * (u32::MAX as u128)
    );
    assert!(Metric::<Vector<2>>::is_zero(&m, &0));
    assert!(!Metric::<Vector<2>>::is_zero(&m, &1));
}

#[test]
fn aabb_distance_values() {
    let m = SquaredEuclidean;
    let lo = Vector::new([0, 0]);
    let hi = Vector::new([10, 10]);
    assert_eq!(m.distance_to_aabb(&Vector::new([5, 5]), &lo, &hi), 0);
    assert_eq!(m.distance_to_aabb(&Vector::new([13, 14]), &lo, &hi), 25);
    assert_eq!(m.distance_to_aabb(&Vector::new([-2, 5]), &lo, &hi), 4);
}

#[test]
fn kd_key_capabilities() {
    assert_eq!(<Vector<3> as KdKey>::dimension(), 3);
    let a = Vector::new([1, 5]);
    let b = Vector::new([2, 5]);
    assert_eq!(a.compare(&b, 0), core::cmp::Ordering::Less);
    assert_eq!(a.compare(&b, 1), core::cmp::Ordering::Equal);
    let mut c = a;
    c.assign(&Vector::new([9, 9]), 1);
    assert_eq!(c, Vector::new([1, 9]));
    assert_eq!(<Vector<2> as KdKey>::lower_bound(), Vector::new([i32::MIN; 2]));
    assert_eq!(<Vector<2> as KdKey>::upper_bound(), Vector::new([i32::MAX; 2]));
}

#[test]
fn interpolate_arrives_within_radius() {
    let a = Vector::new([0, 0]);
    let b = Vector::new([3, 4]);
    assert_eq!(a.interpolate(&b, 25), Ok(b));
}

#[test]
fn interpolate_steps_toward_end() {
    let a = Vector::new([0, 0]);
    let b = Vector::new([1_000, 0]);
    let step = a.interpolate(&b, 10_000).unwrap_err();
    assert!(SquaredEuclidean.distance(&a, &step) <= 10_000);
    assert_eq!(step.get(1), 0);
    assert!(step.get(0) > 90 && step.get(0) <= 100);
    assert_eq!(a.toward(&b, 32_768), Vector::new([500, 0]));
}

#[test]
fn rectangle_samples_inside() {
    let mut rng = StdRng::seed_from_u64(9);
    let rect = Rectangle {
        min: Vector::new([-5, 10]),
        max: Vector::new([5, 12]),
    };
    for _ in 0..200 {
        let v: Vector<2> = rect.sample(&mut rng);
        assert!(v.get(0) >= -5 && v.get(0) <= 5);
        assert!(v.get(1) >= 10 && v.get(1) <= 12);
    }
    let point = Rectangle {
        min: Vector::new([7, -7]),
        max: Vector::new([7, -7]),
    };
    let v: Vector<2> = point.sample(&mut rng);
    assert_eq!(v, Vector::new([7, -7]));
    let _anywhere: Vector<3> = Everywhere.sample(&mut rng);
}

#[test]
fn bernoulli_extremes() {
    let mut rng = StdRng::seed_from_u64(4);
    let always = Bernoulli::from_ratio(1, 1).unwrap();
    let never = Bernoulli::from_ratio(0, 1).unwrap();
    for _ in 0..100 {
        assert!(Sample::<bool, StdRng>::sample(&always, &mut rng));
        assert!(!Sample::<bool, StdRng>::sample(&never, &mut rng));
    }
}

#[test]
fn interpolate_makes_progress() {
    let a = Vector::new([10, -20, 30]);
    let b = Vector::new([-500, 700, 90]);
    let step = a.interpolate(&b, 5_000).unwrap_err();
    assert_ne!(step, a);
    assert!(SquaredEuclidean.distance(&step, &b) < SquaredEuclidean.distance(&a, &b));
    assert!(SquaredEuclidean.distance(&a, &step) <= 5_000);
    let stuck = Vector::new([0, 0]).interpolate(&Vector::new([1_000, 0]), 0).unwrap_err();
    assert_eq!(stuck, Vector::new([0, 0]));
}

#[test]
fn pairs_sample_componentwise() {
    let mut rng = StdRng::seed_from_u64(12);
    let rect = Rectangle {
        min: Vector::new([1, 2]),
        max: Vector::new([1, 2]),
    };
    let (v, p): (Vector<2>, rumple::space::Pose2d) = rect.sample(&mut rng);
    assert_eq!(v, Vector::new([1, 2]));
    assert_eq!(p.position, Vector::new([1, 2]));
}
