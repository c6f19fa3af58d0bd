use n3::errors::ErrorKind;
use n3::reactor::Reactor;
use n3::timeout::{Timeout, TimeoutPoll};

fn noop() -> std::task::Waker {
    futures::task::noop_waker()
}

#[test]
fn deadlines() {
    let mut reactor = Reactor::new(100);
    let timeout = Timeout::timeout_with(50, 150, &mut reactor).unwrap();
    assert!(matches!(
        timeout.poll::<u8>(None, &mut reactor, noop()),
        TimeoutPoll::Pending
    ));
    assert!(matches!(
        timeout.poll(Some(Ok(3)), &mut reactor, noop()),
        TimeoutPoll::Ready(Ok(3))
    ));
    assert!(matches!(
        timeout.poll::<u8>(Some(Err(ErrorKind::Other)), &mut reactor, noop()),
        TimeoutPoll::Ready(Err(ErrorKind::Other))
    ));
    assert_eq!(reactor.timing_wheel_ticks(200).unwrap().len(), 1);
    assert!(matches!(
        timeout.poll::<u8>(None, &mut reactor, noop()),
        TimeoutPoll::Ready(Err(ErrorKind::TimedOut))
    ));
    // A future that is done does not time out.
    assert!(matches!(
        timeout.poll(Some(Ok(3)), &mut reactor, noop()),
        TimeoutPoll::Ready(Ok(3))
    ));
    timeout.cancel(&mut reactor);
}
