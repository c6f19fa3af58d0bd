use n3::errors::ErrorKind;
use n3::pool::{ConnStat, LimitedOpener, Metrics, Opener, QuicPool};

/// Answers as told, and keeps a record of the connections that were asked.
struct Scripted<F> {
    answer: F,
    asked: Vec<u64>,
}

impl<S, F: FnMut(u64) -> Result<S, ErrorKind>> Opener<S> for Scripted<F> {
    fn try_open(&mut self, number: u64) -> Result<S, ErrorKind> {
        self.asked.push(number);
        (self.answer)(number)
    }
}

fn stat(is_closed: bool, active_outbound_streams: Option<u64>) -> ConnStat {
    ConnStat { is_closed, active_outbound_streams }
}

fn pool(ids: &[&str]) -> QuicPool {
    let mut pool = QuicPool::new();
    for (number, id) in ids.iter().enumerate() {
        pool.insert(id.to_string(), number as u64);
    }
    pool
}

fn ids(pool: &QuicPool) -> Vec<String> {
    pool.conns().iter().map(|conn| conn.trace_id.clone()).collect()
}

#[test]
fn the_first_usable_connection_opens_the_stream() {
    let mut pool = pool(&["closed", "full", "broken", "good", "better"]);
    let stats = vec![
        stat(true, Some(1)),
        stat(false, Some(2)),
        stat(false, None),
        stat(false, Some(4)),
        stat(false, Some(5)),
    ];
    let answer = |number| match number {
        1 => Err(ErrorKind::WouldBlock),
        2 => Err(ErrorKind::BrokenPipe),
        3 => Ok("stream"),
        _ => panic!("connection {number} must not be asked"),
    };
    let mut opener = Scripted { answer, asked: vec![] };
    let (stream, metrics) = pool.connect(&stats, &mut opener);
    assert_eq!(opener.asked, vec![1, 2, 3]);
    assert_eq!(stream, Some(("good".to_string(), "stream")));
    assert_eq!(metrics, Metrics { conns: 5, streams: 13, closed: 1 });
    assert_eq!(ids(&pool), vec!["full", "good", "better"]);
}

#[test]
fn no_usable_connection() {
    let mut pool = pool(&["a", "b"]);
    let stats = vec![stat(false, Some(3)), stat(true, None)];
    let answer = |_| Err::<(), _>(ErrorKind::WouldBlock);
    let mut opener = Scripted { answer, asked: vec![] };
    let (stream, metrics) = pool.connect(&stats, &mut opener);
    assert_eq!(opener.asked, vec![0]);
    assert_eq!(stream, None);
    assert_eq!(metrics, Metrics { conns: 2, streams: 3, closed: 1 });
    assert_eq!(ids(&pool), vec!["a"]);
}

#[test]
fn a_connection_takes_the_place_of_its_namesake() {
    let mut pool = pool(&["a", "b"]);
    pool.insert("a".to_string(), 7);
    assert_eq!(ids(&pool), vec!["a", "b"]);
    assert_eq!(pool.conns()[0].number, 7);
}

#[test]
fn streams_are_opened_up_to_the_limits() {
    let mut opener = LimitedOpener::new(vec![1, 0, 2]);
    let mut pool = pool(&["a", "b", "c", "unknown"]);
    let stats = vec![stat(false, None); 4];
    assert_eq!(pool.connect(&stats, &mut opener).0, Some(("a".to_string(), 0)));
    assert_eq!(pool.connect(&stats, &mut opener).0, Some(("c".to_string(), 0)));
    assert_eq!(pool.connect(&stats, &mut opener).0, Some(("c".to_string(), 1)));
    assert_eq!(ids(&pool), vec!["a", "b", "c", "unknown"]);
    assert_eq!(pool.connect(&stats, &mut opener).0, None);
    assert_eq!(ids(&pool), vec!["a", "b", "c"]);
}
