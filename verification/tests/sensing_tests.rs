use live_sim::scalar::Scalar;
use live_sim::sensing::{closer, select_nearest, Detected};
use live_sim::solver::BodyHandle;

fn at(index: u32, distance: f32) -> Detected {
    Detected {
        target_handle: BodyHandle { index, generation: 0 },
        dist: Scalar::from_bits(distance.to_bits()),
    }
}

#[test]
fn no_candidates_no_choice() {
    assert_eq!(select_nearest(&Vec::new()), None);
}

#[test]
fn the_nearest_candidate_is_chosen() {
    let candidates = vec![at(1, 40.0), at(2, 30.0), at(3, 35.0)];
    assert_eq!(select_nearest(&candidates), Some(at(2, 30.0)));
}

#[test]
fn of_equally_near_candidates_the_first_stays() {
    let candidates = vec![at(1, 40.0), at(2, 30.0), at(3, 30.0), at(4, 30.0)];
    assert_eq!(select_nearest(&candidates), Some(at(2, 30.0)));
}

#[test]
fn a_candidate_at_no_distance_is_passed_over() {
    let candidates = vec![at(1, f32::NAN), at(2, 50.0), at(3, f32::NAN)];
    assert_eq!(select_nearest(&candidates), Some(at(2, 50.0)));
    assert_eq!(select_nearest(&vec![at(1, f32::NAN)]), None);
}

#[test]
fn a_candidate_at_infinity_is_passed_over() {
    assert_eq!(select_nearest(&vec![at(1, f32::INFINITY)]), None);
    assert_eq!(
        select_nearest(&vec![at(1, f32::INFINITY), at(2, f32::MAX)]),
        Some(at(2, f32::MAX))
    );
}

#[test]
fn zero_distance_beats_everything() {
    let candidates = vec![at(1, 1.0), at(2, 0.0), at(3, -0.0)];
    assert_eq!(select_nearest(&candidates), Some(at(2, 0.0)));
}

#[test]
fn closer_replaces_only_when_strictly_nearer() {
    assert_eq!(closer(None, at(1, 10.0)), Some(at(1, 10.0)));
    assert_eq!(closer(Some(at(1, 10.0)), at(2, 10.0)), Some(at(1, 10.0)));
    assert_eq!(closer(Some(at(1, 10.0)), at(2, 9.5)), Some(at(2, 9.5)));
    assert_eq!(closer(Some(at(1, 10.0)), at(2, 11.0)), Some(at(1, 10.0)));
    assert_eq!(closer(None, at(1, f32::INFINITY)), None);
}
