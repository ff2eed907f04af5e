use esp_pulser::circ::{wrap_next, Circ};

#[test]
fn wrap_next_steps_and_wraps() {
    assert_eq!(wrap_next::<4>(0), 1);
    assert_eq!(wrap_next::<4>(2), 3);
    assert_eq!(wrap_next::<4>(3), 0);
    assert_eq!(wrap_next::<1>(0), 0);
    assert_eq!(wrap_next::<4>(9), 0);
    assert_eq!(wrap_next::<4>(usize::MAX), 0);
    assert_eq!(wrap_next::<0>(0), 0);
}

#[test]
fn new_buffer_is_filled() {
    let c: Circ<i32, 3> = Circ::new(7);
    assert_eq!(c.next, 0);
    assert_eq!(c.data, [7, 7, 7]);
    assert_eq!(c.to_vec(), vec![7, 7, 7]);
}

#[test]
fn add_overwrites_the_oldest_slot() {
    let mut c: Circ<f32, 3> = Circ::new(0.0);
    c.add(1.0);
    assert_eq!(c.data, [1.0, 0.0, 0.0]);
    assert_eq!(c.next, 1);
    assert_eq!(c.to_vec(), vec![0.0, 0.0, 1.0]);
    c.add(2.0);
    c.add(3.0);
    assert_eq!(c.next, 0);
    assert_eq!(c.to_vec(), vec![1.0, 2.0, 3.0]);
    c.add(4.0);
    assert_eq!(c.data, [4.0, 2.0, 3.0]);
    assert_eq!(c.to_vec(), vec![2.0, 3.0, 4.0]);
}

#[test]
fn full_round_of_distinct_values_comes_out_in_order() {
    let mut c: Circ<u32, 5> = Circ::new(0);
    for v in [10, 11, 12, 13, 14] {
        c.add(v);
    }
    let mut it = c.iter();
    let mut seen = Vec::new();
    while let Some(v) = it.next() {
        seen.push(v);
    }
    assert_eq!(seen, vec![10, 11, 12, 13, 14]);
}

#[test]
fn more_inserts_than_slots_keep_the_last_ones() {
    let mut c: Circ<u32, 4> = Circ::new(0);
    for v in 1..=11u32 {
        c.add(v);
    }
    assert_eq!(c.to_vec(), vec![8, 9, 10, 11]);
}

#[test]
fn iteration_is_finite_and_restartable() {
    let mut c: Circ<u8, 2> = Circ::new(0);
    c.add(5);
    let mut it = c.iter();
    assert_eq!(it.next(), Some(0));
    assert_eq!(it.next(), Some(5));
    assert_eq!(it.next(), None);
    assert_eq!(it.next(), None);
    let mut again = c.into_iter();
    assert_eq!(again.next(), Some(0));
    assert_eq!(again.next(), Some(5));
    assert_eq!(again.next(), None);
}

#[test]
fn single_slot_buffer_holds_the_last_sample() {
    let mut c: Circ<i64, 1> = Circ::new(-1);
    assert_eq!(c.to_vec(), vec![-1]);
    c.add(3);
    c.add(4);
    assert_eq!(c.next, 0);
    assert_eq!(c.to_vec(), vec![4]);
}

#[test]
fn buffer_is_copied_by_value() {
    let mut c: Circ<u8, 2> = Circ::new(1);
    let d = c;
    c.add(9);
    assert_eq!(d.to_vec(), vec![1, 1]);
    assert_eq!(c.to_vec(), vec![1, 9]);
}
