use rust_robotics_algo::column::ColumnData;

#[test]
fn column_with_name_starts_empty() {
    let c: ColumnData<i32> = ColumnData::with_name("angle".to_string());
    assert_eq!(c.len(), 0);
    assert_eq!(c.name(), Some("angle".to_string()));
    assert_eq!(c.get(0), None);
}

#[test]
fn column_from_vec_has_no_name() {
    let c = ColumnData::from_vec(vec![1, 2, 3]);
    assert_eq!(c.len(), 3);
    assert_eq!(c.name(), None);
    assert_eq!(c.get(1), Some(&2));
    assert_eq!(c.get(3), None);
}

#[test]
fn column_add_and_pop_first() {
    let mut c = ColumnData::with_name("x".to_string());
    c.add(10);
    c.add(20);
    c.add(30);
    c.pop_first();
    assert_eq!(c.iter().copied().collect::<Vec<i32>>(), vec![20, 30]);
    assert_eq!(c.name(), Some("x".to_string()));
}

#[test]
fn column_get_between_is_inclusive() {
    let c = ColumnData::from_vec(vec![0.0_f32, 3.0, 6.0, 9.0, 12.0]);
    assert_eq!(c.get_between(1, 2), &[3.0, 6.0]);
    assert_eq!(c.get_between(1, 3), &[3.0, 6.0, 9.0]);
    assert_eq!(c.get_between(4, 4), &[12.0]);
}

#[test]
fn column_reset_keeps_name() {
    let mut c = ColumnData::with_name("v".to_string());
    c.add(1u8);
    c.reset();
    assert_eq!(c.len(), 0);
    assert_eq!(c.name(), Some("v".to_string()));
}

#[test]
fn column_get_between_empty_range() {
    let c = ColumnData::from_vec(vec![1, 2, 3]);
    assert_eq!(c.get_between(2, 1), &[] as &[i32]);
    assert_eq!(c.get_between(0, 2), &[1, 2, 3]);
}
