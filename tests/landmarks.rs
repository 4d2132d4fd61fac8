use rust_robotics_algo::landmarks::landmarks_in_range;

const MAX_RANGE: f32 = 20.0;

fn keys(v: &[f32]) -> Vec<u32> {
    v.iter().map(|x| x.to_bits()).collect()
}

#[test]
fn landmark_at_range_is_seen_one_unit_beyond_is_not() {
    let d = keys(&[20.0, 21.0]);
    assert_eq!(landmarks_in_range(&d, MAX_RANGE.to_bits()), vec![0]);
}

#[test]
fn landmarks_in_range_keep_their_order() {
    let d = keys(&[5.0, 25.0, 0.0, 19.999, 20.001, 10.0]);
    assert_eq!(landmarks_in_range(&d, MAX_RANGE.to_bits()), vec![0, 2, 3, 5]);
}

#[test]
fn no_landmarks_no_observations() {
    assert_eq!(landmarks_in_range(&vec![], MAX_RANGE.to_bits()), Vec::<usize>::new());
    assert_eq!(landmarks_in_range(&keys(&[30.0, 40.0]), MAX_RANGE.to_bits()), Vec::<usize>::new());
}
