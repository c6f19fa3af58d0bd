use n3::driver::TimeWheel;

/// A millisecond, in microseconds.
const MILLI: u128 = 1_000;

#[test]
fn test_len() {
    let mut time_wheel = TimeWheel::new(MILLI);

    time_wheel.deadline(MILLI, ()).expect("deadline is valid.");

    assert_eq!(time_wheel.len(), 1);

    assert_eq!(time_wheel.spin(MILLI), vec![()]);
}

#[test]
fn test_order() {
    let mut time_wheel = TimeWheel::new(MILLI);

    let deadline = MILLI;

    time_wheel.deadline(deadline, 1).expect("deadline is valid.");

    time_wheel.deadline(deadline, 2).expect("deadline is valid.");

    assert_eq!(time_wheel.spin(MILLI), vec![1, 2]);
}

#[test]
fn test_order2() {
    let mut time_wheel = TimeWheel::new(MILLI);

    time_wheel.deadline(MILLI, 1).expect("deadline is valid.");

    time_wheel.deadline(2 * MILLI, 2).expect("deadline is valid.");

    assert_eq!(time_wheel.spin(MILLI), vec![1]);

    assert_eq!(time_wheel.spin(2 * MILLI), vec![2]);
}

#[test]
fn a_deadline_that_is_reached_is_refused() {
    let mut time_wheel = TimeWheel::new(MILLI);

    assert_eq!(time_wheel.deadline(MILLI - 1, 0), None);
    assert_eq!(time_wheel.deadline(5 * MILLI, 1), Some(5));
    assert_eq!(time_wheel.spin(5 * MILLI), vec![1]);
    assert_eq!(time_wheel.deadline(5 * MILLI, 2), None);
    assert_eq!(time_wheel.len(), 0);
}
