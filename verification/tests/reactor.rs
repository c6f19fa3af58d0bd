use std::sync::atomic::{AtomicUsize, Ordering};
use std::sync::Arc;
use std::task::{Wake, Waker};
use std::time::{Duration, Instant};

use n3::errors::ErrorKind;
use n3::reactor::{Event, Interest, Reactor, ReactorError, TimerPoll, WouldBlock};
use n3::token::Token;

/// Counts how often its task is woken up.
struct Task(AtomicUsize);

impl Wake for Task {
    fn wake(self: Arc<Self>) {
        self.0.fetch_add(1, Ordering::SeqCst);
    }
}

fn task() -> (Arc<Task>, Waker) {
    let task = Arc::new(Task(AtomicUsize::new(0)));
    (task.clone(), Waker::from(task))
}

fn wake(wakers: Vec<Waker>) {
    for waker in wakers {
        waker.wake();
    }
}

const READ: Interest = Interest { readable: true, writable: false };
const WRITE: Interest = Interest { readable: false, writable: true };
const BOTH: Interest = Interest { readable: true, writable: true };

const READABLE: Event =
    Event { readable: true, writable: false, read_closed: false, write_closed: false };
const WRITE_CLOSED: Event =
    Event { readable: false, writable: false, read_closed: false, write_closed: true };

#[test]
fn test_deadline() {
    let start = Instant::now();
    let mut reactor = Reactor::new(Duration::from_millis(200).as_micros());
    let ticks = |reactor: &mut Reactor, wait: u64| {
        let end = Instant::now() + Duration::from_millis(wait);
        while Instant::now() < end {}
        wake(reactor.timing_wheel_ticks((Instant::now() - start).as_micros()).unwrap());
    };

    let timer = reactor.deadline((Instant::now() - start).as_micros()).unwrap();

    ticks(&mut reactor, 200);

    assert!(matches!(reactor.poll_timeout(timer, task().1), TimerPoll::Ready(Ok(()))));

    let deadline = Instant::now() + Duration::from_millis(200);
    let timer = reactor.deadline((deadline - start).as_micros()).unwrap();

    assert!(matches!(reactor.poll_timeout(timer, task().1), TimerPoll::Pending));

    ticks(&mut reactor, 400);

    assert!(matches!(reactor.poll_timeout(timer, task().1), TimerPoll::Ready(Ok(()))));
}

#[test]
fn a_task_is_woken_when_its_timer_expires() {
    let mut reactor = Reactor::new(100);
    let timer = reactor.deadline(150).unwrap();
    let (first, waker) = task();
    assert_eq!(reactor.poll_timeout(timer, waker), TimerPoll::Pending);
    let (second, waker) = task();
    assert_eq!(reactor.poll_timeout(timer, waker), TimerPoll::Pending);
    wake(reactor.timing_wheel_ticks(199).unwrap());
    assert_eq!(second.0.load(Ordering::SeqCst), 0);
    wake(reactor.timing_wheel_ticks(200).unwrap());
    assert_eq!(first.0.load(Ordering::SeqCst), 0);
    assert_eq!(second.0.load(Ordering::SeqCst), 1);
    assert_eq!(reactor.poll_timeout(timer, task().1), TimerPoll::Ready(Ok(())));
}

#[test]
fn an_unknown_timer() {
    let mut reactor = Reactor::new(100);
    let timer = reactor.deadline(150).unwrap();
    reactor.deregister_timer(timer);
    assert_eq!(
        reactor.poll_timeout(timer, task().1),
        TimerPoll::Ready(Err(ReactorError::TimerNotFound(timer)))
    );
    assert_eq!(ReactorError::TimerNotFound(timer).kind(), ErrorKind::NotFound);
}

#[test]
fn tokens_in_use_are_skipped() {
    let mut reactor = Reactor::new(100);
    assert_eq!(reactor.next_token(READ), Some(Token(0)));
    assert_eq!(reactor.next_token(WRITE), Some(Token(1)));
    assert_eq!(reactor.deadline(5), Some(Token(2)));
    reactor.drop_token(Token(1), WRITE);
    assert_eq!(reactor.next_token(BOTH), Some(Token(3)));
}

#[test]
fn a_failed_registration_gives_the_token_up() {
    let mut reactor = Reactor::new(100);
    let token = reactor.next_token(BOTH).unwrap();
    assert_eq!(reactor.register(token, BOTH, Ok(())), Ok(token));
    assert_eq!(reactor.poll_io(token, READ), Ok(()));

    let other = reactor.next_token(BOTH).unwrap();
    assert_eq!(
        reactor.register(other, BOTH, Err(ErrorKind::AlreadyExists)),
        Err(ErrorKind::AlreadyExists)
    );
    assert_eq!(reactor.poll_io(other, READ), Err(ReactorError::InvalidState(other)));

    reactor.deregister(token);
    assert_eq!(reactor.poll_io(token, WRITE), Err(ReactorError::InvalidState(token)));
    assert_eq!(ReactorError::InvalidState(token).kind(), ErrorKind::NotFound);
}

#[test]
fn a_parked_task_is_woken_by_an_event() {
    let mut reactor = Reactor::new(100);
    let io = reactor.next_token(BOTH).unwrap();
    let (reader, waker) = task();
    assert_eq!(reactor.poll_io(io, READ), Ok(()));
    assert_eq!(reactor.would_block(io, READ, waker), WouldBlock::Pending);
    let (writer, waker) = task();
    assert_eq!(reactor.poll_io(io, WRITE), Ok(()));
    assert_eq!(reactor.would_block(io, WRITE, waker), WouldBlock::Pending);

    wake(reactor.io_event(io, READABLE));
    assert_eq!(reader.0.load(Ordering::SeqCst), 1);
    assert_eq!(writer.0.load(Ordering::SeqCst), 0);
    wake(reactor.io_event(io, WRITE_CLOSED));
    assert_eq!(writer.0.load(Ordering::SeqCst), 1);
}

#[test]
fn an_event_during_an_attempt_is_not_lost() {
    let mut reactor = Reactor::new(100);
    let io = reactor.next_token(BOTH).unwrap();
    assert_eq!(reactor.poll_io(io, READ), Ok(()));
    assert!(reactor.io_event(io, READABLE).is_empty());
    assert_eq!(reactor.would_block(io, READ, task().1), WouldBlock::Retry);
    assert_eq!(reactor.would_block(io, READ, task().1), WouldBlock::Pending);
}

#[test]
fn shutdown() {
    let mut reactor = Reactor::new(100);
    let io = reactor.next_token(BOTH).unwrap();
    let (reader, waker) = task();
    assert_eq!(reactor.poll_io(io, READ), Ok(()));
    assert_eq!(reactor.would_block(io, READ, waker), WouldBlock::Pending);
    assert_eq!(reactor.poll_io(io, WRITE), Ok(()));

    let (res, wakers) = reactor.shutdown(io, BOTH);
    assert_eq!(res, Ok(()));
    wake(wakers);
    assert_eq!(reader.0.load(Ordering::SeqCst), 1);

    assert!(reactor.io_event(io, READABLE).is_empty());
    assert_eq!(reactor.poll_io(io, READ), Err(ReactorError::ShutdownReadable(io)));
    assert_eq!(
        reactor.would_block(io, WRITE, task().1),
        WouldBlock::Failed(ReactorError::ShutdownWritable(io))
    );
    assert_eq!(ReactorError::ShutdownReadable(io).kind(), ErrorKind::BrokenPipe);
}

#[test]
fn shutdown_of_what_is_not_registered() {
    let mut reactor = Reactor::new(100);
    let io = reactor.next_token(READ).unwrap();
    assert_eq!(reactor.shutdown(io, BOTH).0, Err(ReactorError::InvalidWriteState(io)));
    assert_eq!(reactor.poll_io(io, READ), Err(ReactorError::ShutdownReadable(io)));
    let io = reactor.next_token(WRITE).unwrap();
    assert_eq!(reactor.shutdown(io, BOTH).0, Err(ReactorError::InvalidReadState(io)));
    assert_eq!(reactor.poll_io(io, WRITE), Ok(()));
}

#[test]
fn a_timer_over_time() {
    let mut reactor = Reactor::new(100);
    let timer = reactor.deadline(250).unwrap();
    let other = reactor.deadline(120).unwrap();
    for now in [0, 50, 120, 199, 200, 299] {
        assert_eq!(reactor.poll_timeout(timer, task().1), TimerPoll::Pending);
        reactor.poll_timeout(other, task().1);
        wake(reactor.timing_wheel_ticks(now).unwrap());
        assert_eq!(reactor.poll_timeout(timer, task().1), TimerPoll::Pending);
    }
    for now in [300, 301, 1000] {
        wake(reactor.timing_wheel_ticks(now).unwrap());
        assert_eq!(reactor.poll_timeout(timer, task().1), TimerPoll::Ready(Ok(())));
        assert_eq!(reactor.poll_timeout(timer, task().1), TimerPoll::Ready(Ok(())));
    }
    reactor.deregister_timer(timer);
    for _ in 0..2 {
        assert_eq!(
            reactor.poll_timeout(timer, task().1),
            TimerPoll::Ready(Err(ReactorError::TimerNotFound(timer)))
        );
    }
}

#[test]
fn what_may_be_asked_for() {
    let mut reactor = Reactor::new(100);
    let io = reactor.next_token(BOTH).unwrap();
    let timer = reactor.deadline(150).unwrap();
    let unknown = Token(9);
    assert!(reactor.can_add_timer());
    assert!(!Reactor::new(0).can_add_timer());

    assert!(reactor.can_poll_timer(timer) && reactor.can_poll_timer(unknown));
    assert!(!reactor.can_poll_timer(io));
    assert!(reactor.can_raise(io, READABLE) && reactor.can_raise(unknown, READABLE));
    assert!(!reactor.can_raise(timer, READABLE) && reactor.can_raise(timer, WRITE_CLOSED));
    assert!(reactor.can_poll_io(io, READ) && reactor.can_poll_io(unknown, WRITE));
    assert!(!reactor.can_poll_io(timer, READ));
    assert!(!reactor.can_poll_io(io, Interest { readable: false, writable: false }));
    assert!(reactor.can_block(io, READ) && !reactor.can_block(unknown, READ));
    assert_eq!(reactor.would_block(io, READ, task().1), WouldBlock::Pending);
    assert!(!reactor.can_block(io, READ) && reactor.can_block(io, WRITE));

    // asking changes nothing
    assert_eq!(reactor.io_event(io, READABLE).len(), 1);
    assert_eq!(reactor.poll_timeout(timer, task().1), TimerPoll::Pending);
    assert!(reactor.can_poll_timer(timer));
    assert_eq!(reactor.timing_wheel_ticks(200).unwrap().len(), 1);
}

#[test]
fn an_expired_timer_that_nobody_waits_for() {
    let mut reactor = Reactor::new(100);
    let timer = reactor.deadline(150).unwrap();
    assert_eq!(reactor.poll_timeout(timer, task().1), TimerPoll::Pending);
    // the token is used for something else while the timing wheel still holds the timer
    let _ = reactor.shutdown(timer, READ);
    assert!(reactor.timing_wheel_ticks(200).is_none());
}
