use std::time::{Duration, Instant};

use rumple::time::{Alarm, Any, Forever, LimitNodes, LimitSamples, Timeout};

#[test]
fn forever_is_never_over() {
    let mut t = Forever;
    t.update_sample_count(usize::MAX);
    t.update_node_count(usize::MAX);
    assert!(!t.is_over());
}

#[test]
fn limit_samples_counts_samples_only() {
    let mut t = LimitSamples::new(3);
    assert!(!t.is_over());
    t.update_node_count(10);
    assert!(!t.is_over());
    t.update_sample_count(2);
    assert!(!t.is_over());
    t.update_sample_count(1);
    assert!(t.is_over());
}

#[test]
fn limit_nodes_counts_nodes_only() {
    let mut t = LimitNodes::new(2);
    t.update_sample_count(10);
    assert!(!t.is_over());
    t.update_node_count(1);
    assert!(!t.is_over());
    t.update_node_count(1);
    assert!(t.is_over());
}

#[test]
fn zero_limit_is_over_at_once() {
    assert!(LimitSamples::new(0).is_over());
    assert!(LimitNodes::new(0).is_over());
}

#[test]
fn counters_saturate() {
    let mut t = LimitSamples::new(usize::MAX);
    t.update_sample_count(usize::MAX - 1);
    assert!(!t.is_over());
    t.update_sample_count(5);
    assert!(t.is_over());
}

#[test]
fn any_is_over_when_one_part_is() {
    let mut t = Any((Forever, LimitSamples::new(1000)));
    assert!(!t.is_over());
    t.update_sample_count(999);
    assert!(!t.is_over());
    t.update_sample_count(1);
    assert!(t.is_over());
}

#[test]
fn any_fans_out_updates() {
    let mut t = Any((LimitNodes::new(100), LimitSamples::new(1000), Forever));
    t.update_node_count(99);
    assert!(!t.is_over());
    t.update_node_count(1);
    assert!(t.is_over());
    let mut single = Any((LimitSamples::new(1),));
    assert!(!single.is_over());
    single.update_sample_count(1);
    assert!(single.is_over());
}

#[test]
fn alarm_in_the_past_is_over() {
    let alarm = Alarm::ending_at(Instant::now());
    assert!(alarm.is_over());
}

#[test]
fn alarm_in_the_future_is_not_over() {
    assert!(!Alarm::secs_from_now(3_600).is_over());
    assert!(!Alarm::from_now(Duration::from_secs(3_600)).is_over());
    assert!(Alarm::from_now(Duration::ZERO).is_over());
}

#[test]
fn bitor_composes_timeouts() {
    let composed = LimitNodes::new(100) | LimitSamples::new(1000);
    assert!(!composed.is_over());
    let mut composed = Forever | LimitSamples::new(2);
    composed.update_sample_count(2);
    assert!(composed.is_over());
    let alarm = Alarm::secs_from_now(3_600) | LimitNodes::new(1);
    assert!(!alarm.is_over());
}

#[test]
fn any_of_many_and_of_none() {
    let empty = Any(());
    assert!(!empty.is_over());
    let mut many = Any((
        Forever,
        Forever,
        Forever,
        Forever,
        Forever,
        Forever,
        Forever,
        Forever,
        Forever,
        LimitNodes::new(1),
    ));
    assert!(!many.is_over());
    many.update_node_count(1);
    assert!(many.is_over());
}
