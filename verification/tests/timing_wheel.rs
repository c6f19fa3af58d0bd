use std::time::{Duration, Instant};

use n3::timing_wheel::{PollStep, TimeWheel};

/// Polls until timers have expired, waiting as the wheel says.
fn poll(wheel: &mut TimeWheel<()>, start: Instant, events: &mut Vec<()>) {
    loop {
        match wheel.poll((Instant::now() - start).as_micros(), events) {
            PollStep::Ready => return,
            PollStep::WaitTimeout(micros) => {
                let end = Instant::now() + Duration::from_micros(micros as u64);
                while Instant::now() < end {}
            }
            PollStep::Wait => panic!("no timer is left"),
        }
    }
}

#[test]
fn test_already_expired() {
    let start = Instant::now();
    let mut time_wheel = TimeWheel::<()>::new(Duration::from_millis(200).as_micros());

    let deadline = Instant::now() - Duration::from_millis(200);

    assert!(time_wheel.deadline((deadline - start).as_micros(), ()).is_none());
}

#[test]
fn test_wait2() {
    let start = Instant::now();
    let mut time_wheel = TimeWheel::<()>::new(Duration::from_millis(200).as_micros());

    let deadline = Instant::now() + Duration::from_millis(100);
    assert!(time_wheel.deadline((deadline - start).as_micros(), ()).is_some());

    let deadline = Instant::now() + Duration::from_millis(200);
    assert!(time_wheel.deadline((deadline - start).as_micros(), ()).is_some());

    let mut events = vec![];
    poll(&mut time_wheel, start, &mut events);

    assert_eq!(events, vec![()]);

    poll(&mut time_wheel, start, &mut events);

    assert_eq!(events, vec![(), ()]);
}

#[test]
fn test_poll_notify() {
    let start = Instant::now();
    let mut time_wheel = TimeWheel::<()>::new(Duration::from_millis(200).as_micros());

    let mut events = vec![];
    assert!(matches!(
        time_wheel.poll((Instant::now() - start).as_micros(), &mut events),
        PollStep::Wait
    ));
    assert!(events.is_empty());

    assert!(time_wheel.deadline((Instant::now() - start).as_micros(), ()).is_some());

    poll(&mut time_wheel, start, &mut events);
    assert_eq!(events, vec![()]);
}

#[test]
fn test_wait() {
    let start = Instant::now();
    let mut time_wheel = TimeWheel::<()>::new(Duration::from_millis(200).as_micros());

    assert!(time_wheel.deadline((Instant::now() - start).as_micros(), ()).is_some());

    let mut events = vec![];
    poll(&mut time_wheel, start, &mut events);
    assert_eq!(events, vec![()]);

    let mut events = vec![];
    assert!(matches!(
        time_wheel.poll((Instant::now() - start).as_micros(), &mut events),
        PollStep::Wait
    ));
    assert!(events.is_empty());
}

#[test]
fn timers_fire_in_the_order_of_their_slots() {
    let mut wheel = TimeWheel::<u32>::new(100);
    assert_eq!(wheel.deadline(250, 3), Some(3));
    assert_eq!(wheel.deadline(100, 1), Some(1));
    assert_eq!(wheel.deadline(201, 4), Some(3));
    assert_eq!(wheel.deadline(101, 2), Some(2));
    assert_eq!(wheel.deadline(0, 9), None);

    let mut events = vec![];
    // Nothing fires early.
    assert!(matches!(wheel.poll(99, &mut events), PollStep::WaitTimeout(100)));
    assert!(events.is_empty());
    assert!(matches!(wheel.poll(300, &mut events), PollStep::Ready));
    assert_eq!(events, vec![1, 2, 3, 4]);
    assert!(matches!(wheel.poll(300, &mut events), PollStep::Wait));
}
