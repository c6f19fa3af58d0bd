use std::sync::atomic::{AtomicUsize, Ordering};
use std::sync::Arc;
use std::task::{Wake, Waker};

use n3::conn::{
    closing_recv, is_bidi, is_local, ConnError, ConnPoll, QuicConnState, QuicStream, SendPoll,
};
use n3::errors::{ErrorKind, QuicheError};
use n3::reactor::{Reactor, TimerPoll};
use n3::token::Token;

/// Counts how often its task is woken up.
struct Task(AtomicUsize);

impl Wake for Task {
    fn wake(self: Arc<Self>) {
        self.0.fetch_add(1, Ordering::SeqCst);
    }
}

fn task() -> (Arc<Task>, Waker) {
    let task = Arc::new(Task(AtomicUsize::new(0)));
    (task.clone(), Waker::from(task))
}

fn woken(task: &Arc<Task>) -> usize {
    task.0.load(Ordering::SeqCst)
}

fn wake(wakers: Vec<Waker>) {
    for waker in wakers {
        waker.wake();
    }
}

fn noop() -> Waker {
    futures::task::noop_waker()
}

/// Asks for the next packet when there is none, so that the task of `waker` waits for one.
fn park_sender(state: &mut QuicConnState, waker: Waker) {
    let mut reactor = Reactor::new(100);
    assert!(matches!(
        state.poll_send::<()>(Err(QuicheError::Done), false, None, &mut reactor, noop(), waker),
        SendPoll::Pending
    ));
}

#[test]
fn stream_kinds() {
    for (id, client, bidi) in [(0, true, true), (1, false, true), (2, true, false), (7, false, false)]
    {
        assert_eq!(is_local(id, false), client);
        assert_eq!(is_local(id, true), !client);
        assert_eq!(is_bidi(id), bidi);
    }
}

#[test]
fn inbound_streams_are_announced_once_and_in_order() {
    let mut state = QuicConnState::new(true);
    let (acceptor, waker) = task();
    assert!(matches!(state.poll_accept(false, waker), ConnPoll::Pending));

    // An unidirectional stream, a local one, and the stream with identifier zero are no news.
    let (wakers, closing) = state.streams_readable(vec![12, 4, 6, 5, 0, 8]);
    assert!(closing.is_empty());
    wake(wakers);
    assert_eq!(woken(&acceptor), 1);

    assert!(state.streams_readable(vec![8, 4]).0.is_empty());
    for id in [4, 8, 12] {
        assert!(matches!(
            state.poll_accept(false, noop()),
            ConnPoll::Ready(Ok(QuicStream(accepted))) if accepted == id
        ));
    }
    assert!(matches!(state.poll_accept(false, noop()), ConnPoll::Pending));
    assert!(matches!(
        state.poll_accept(true, noop()),
        ConnPoll::Ready(Err(ConnError::Closed))
    ));
    assert_eq!(ConnError::Closed.kind(), ErrorKind::BrokenPipe);
}

#[test]
fn readers_and_writers_are_woken() {
    let mut state = QuicConnState::new(false);
    let stream = QuicStream(4);
    let (reader, waker) = task();
    let (poll, sender) = stream.poll_stream_read(&mut state, Err(QuicheError::Done), waker);
    assert!(matches!(poll, ConnPoll::Pending) && sender.is_none());
    let (writer, waker) = task();
    let (poll, sender) = stream.poll_stream_write(&mut state, Err(QuicheError::Done), waker);
    assert!(matches!(poll, ConnPoll::Pending) && sender.is_none());

    wake(state.streams_readable(vec![8]).0);
    assert_eq!(woken(&reader), 0);
    wake(state.streams_readable(vec![8, 4]).0);
    assert_eq!(woken(&reader), 1);
    assert!(state.streams_readable(vec![4]).0.is_empty());

    wake(state.streams_writable(vec![4, 4], 0));
    assert_eq!(woken(&writer), 1);
    assert!(state.streams_writable(vec![4], 0).is_empty());
}

#[test]
fn stream_data() {
    let mut state = QuicConnState::new(false);
    let stream = QuicStream(4);
    let (sender, waker) = task();
    park_sender(&mut state, waker);

    let (poll, waker) = stream.poll_stream_write(&mut state, Ok(5), noop());
    assert!(matches!(poll, ConnPoll::Ready(Ok(5))));
    waker.unwrap().wake();
    assert_eq!(woken(&sender), 1);

    let (poll, waker) = stream.poll_stream_read(&mut state, Ok((7, true)), noop());
    assert!(matches!(poll, ConnPoll::Ready(Ok((7, true)))) && waker.is_none());

    let (poll, _) = stream.poll_stream_write(&mut state, Err(QuicheError::StreamStopped(3)), noop());
    assert!(matches!(
        poll,
        ConnPoll::Ready(Err(ConnError::Stack(QuicheError::StreamStopped(3))))
    ));
    let (poll, _) = stream.poll_stream_read(&mut state, Err(QuicheError::StreamReset(3)), noop());
    assert!(matches!(poll, ConnPoll::Ready(Err(ConnError::Stack(QuicheError::StreamReset(3))))));
    assert_eq!(ConnError::Stack(QuicheError::StreamReset(3)).kind(), ErrorKind::Other);
}

#[test]
fn outbound_streams() {
    let mut state = QuicConnState::new(true);
    assert_eq!(state.outbound_stream_id_next(), 5);
    let (opener, waker) = task();
    assert_eq!(state.poll_stream_open(0, waker), None);
    assert!(state.streams_writable(vec![], 0).is_empty());
    wake(state.streams_writable(vec![], 1));
    assert_eq!(woken(&opener), 1);

    assert_eq!(state.poll_stream_open(1, noop()), Some(5));
    assert_eq!(state.poll_stream_open(1, noop()), Some(9));
    let (sender, waker) = task();
    park_sender(&mut state, waker);
    let (opened, waker) = state.stream_opened(9, Ok(()));
    assert_eq!(opened, Ok(QuicStream(9)));
    waker.unwrap().wake();
    assert_eq!(woken(&sender), 1);
    let (opened, waker) = state.stream_opened(13, Err(QuicheError::StreamLimit));
    assert_eq!(opened, Err(ConnError::Stack(QuicheError::StreamLimit)));
    assert!(waker.is_none());

    assert_eq!(QuicConnState::new(false).outbound_stream_id_next(), 4);
}

#[test]
fn sending() {
    let mut state = QuicConnState::new(false);
    let mut reactor = Reactor::new(100);
    let mut poll = |reactor: &mut Reactor, sent, is_closed, timeout| {
        state.poll_send(sent, is_closed, timeout, reactor, noop(), noop())
    };
    assert!(matches!(poll(&mut reactor, Ok(3), true, None), SendPoll::Ready(Ok(3))));
    assert!(matches!(
        poll(&mut reactor, Err(QuicheError::TlsFail), false, None),
        SendPoll::Ready(Err(ConnError::Stack(QuicheError::TlsFail)))
    ));
    assert!(matches!(
        poll(&mut reactor, Err(QuicheError::Done), true, None),
        SendPoll::Ready(Err(ConnError::Closed))
    ));
    assert!(matches!(poll(&mut reactor, Err(QuicheError::Done), false, None), SendPoll::Pending));
    assert!(matches!(
        poll(&mut reactor, Err(QuicheError::Done), false, Some(0)),
        SendPoll::OnTimeout
    ));
    assert!(matches!(
        poll(&mut reactor, Err(QuicheError::Done), false, Some(500)),
        SendPoll::Pending
    ));
    assert_eq!(reactor.timing_wheel_ticks(500).unwrap().len(), 1);
    assert_eq!(state.on_timeout_timer(), None);
    assert!(!state.poll_send_timer(&mut reactor, noop()));
    // the timers of the two requests stay in the reactor, and have expired
    for timer in [Token(0), Token(1)] {
        assert_eq!(reactor.poll_timeout(timer, noop()), TimerPoll::Ready(Ok(())));
    }
}

#[test]
fn a_packet_wakes_the_sender() {
    let mut state = QuicConnState::new(false);
    let (sender, waker) = task();
    park_sender(&mut state, waker);
    let mut wakers = vec![];
    assert_eq!(
        state.poll_recv(Err(QuicheError::InvalidPacket), &mut wakers),
        Err(ConnError::Stack(QuicheError::InvalidPacket))
    );
    assert!(wakers.is_empty());
    assert_eq!(state.poll_recv(Ok(1200), &mut wakers), Ok(1200));
    wake(wakers);
    assert_eq!(woken(&sender), 1);
}

#[test]
fn closing() {
    let mut state = QuicConnState::new(false);
    let (sender, waker) = task();
    park_sender(&mut state, waker);
    assert!(matches!(state.close(Err(QuicheError::Done)), Ok(None)));
    assert!(matches!(
        state.close(Err(QuicheError::InvalidState)),
        Err(ConnError::Stack(QuicheError::InvalidState))
    ));
    state.close(Ok(())).unwrap().unwrap().wake();
    assert_eq!(woken(&sender), 1);
    assert!(matches!(state.close(Ok(())), Ok(None)));

    let (sender, waker) = task();
    park_sender(&mut state, waker);
    let (drain, waker) = QuicStream(4).close_stream(&mut state, true);
    assert!(drain);
    waker.unwrap().wake();
    assert_eq!(woken(&sender), 1);
    assert!(!QuicStream(4).close_stream(&mut state, false).0);
    assert_eq!(state.streams_readable(vec![4]).1, vec![]);
}

#[test]
fn draining() {
    assert_eq!(closing_recv(Ok((3, false))), None);
    assert_eq!(closing_recv(Ok((3, true))), Some(true));
    assert_eq!(closing_recv(Err(QuicheError::Done)), Some(false));
    assert_eq!(closing_recv(Err(QuicheError::StreamReset(0))), Some(true));
}
