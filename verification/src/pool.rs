//! The connection pool of an agent.

use crate::errors::ErrorKind;
use vstd::prelude::*;

verus! {

/// A connection of the pool: its trace identifier, and the number under which the caller keeps it.
pub struct PoolConn {
    pub trace_id: String,
    pub number: u64,
}

/// What a connection of the pool says of itself.
#[derive(Clone, Copy, Debug, PartialEq, Eq)]
pub struct ConnStat {
    /// The connection is closed.
    pub is_closed: bool,
    /// The number of its active outbound streams, if known.
    pub active_outbound_streams: Option<u64>,
}

/// What a walk over the pool has seen.
#[derive(Clone, Copy, Debug, PartialEq, Eq, Structural)]
pub struct Metrics {
    pub conns: usize,
    pub streams: u128,
    pub closed: usize,
}

/// What opens streams on the connections of a pool.
///
/// The record of the requests and the answers are for proofs; an opener that no proof speaks of
/// leaves them out.
pub trait Opener<S> {
    /// The requests so far: the number of a connection, and what came of asking it for a stream.
    closed spec fn requests(&self) -> Seq<(u64, Result<S, ErrorKind>)> {
        arbitrary()
    }

    /// What connection `number` answers after the requests `requests`.
    closed spec fn answer(&self, requests: Seq<(u64, Result<S, ErrorKind>)>, number: u64) -> Result<
        S,
        ErrorKind,
    > {
        arbitrary()
    }

    /// Asks connection `number` for a stream.
    fn try_open(&mut self, number: u64) -> (res: Result<S, ErrorKind>)
        ensures
            res == old(self).answer(old(self).requests(), number),
            final(self).requests() == old(self).requests().push((number, res)),
            forall|requests: Seq<(u64, Result<S, ErrorKind>)>, number: u64| #[trigger]
                final(self).answer(requests, number) == old(self).answer(requests, number),
    ;
}

/// From request `start` on, the opener has answered as it answers.
pub open spec fn requests_answered<S, O: Opener<S>>(opener: O, start: int) -> bool {
    forall|i: int|
        start <= i < opener.requests().len() ==> (#[trigger] opener.requests()[i]).1
            == opener.answer(opener.requests().take(i), opener.requests()[i].0)
}

/// One more answer.
proof fn lemma_request_answered<S, O: Opener<S>>(
    opener: O,
    known: Seq<(u64, Result<S, ErrorKind>)>,
    start: int,
)
    requires
        0 <= start <= known.len(),
        opener.requests().len() == known.len() + 1,
        opener.requests().drop_last() == known,
        forall|i: int|
            start <= i < known.len() ==> (#[trigger] known[i]).1 == opener.answer(
                known.take(i),
                known[i].0,
            ),
        opener.requests().last().1 == opener.answer(known, opener.requests().last().0),
    ensures
        requests_answered::<S, O>(opener, start),
{
    assert forall|i: int| start <= i < opener.requests().len() implies (
    #[trigger] opener.requests()[i]).1 == opener.answer(
        opener.requests().take(i),
        opener.requests()[i].0,
    ) by {
        if i < known.len() {
            assert(known[i] == opener.requests()[i]);
            assert(known.take(i) =~= opener.requests().take(i));
        } else {
            assert(known =~= opener.requests().take(i));
        }
    }
}

/// A stream was opened.
pub open spec fn is_opened<S>(outcome: Option<Result<S, ErrorKind>>) -> bool {
    outcome matches Some(Ok(_))
}

/// No stream was opened on any of the first `n` connections.
pub open spec fn none_opened<S>(outcomes: Seq<Option<Result<S, ErrorKind>>>, n: int) -> bool {
    forall|k: int| 0 <= k < n ==> !is_opened(#[trigger] outcomes[k])
}

/// Connection `i` leaves the pool: it is closed, or has refused a stream for good.
pub open spec fn is_dropped<S>(
    stats: Seq<ConnStat>,
    outcomes: Seq<Option<Result<S, ErrorKind>>>,
    i: int,
) -> bool {
    ||| stats[i].is_closed
    ||| outcomes[i] matches Some(Err(err)) && err != ErrorKind::WouldBlock
}

/// Each of the first `n` connections was asked for a stream, with the outcome in `outcomes`, if and
/// only if it is not closed and no connection before it has opened one.
pub open spec fn asked<S>(
    stats: Seq<ConnStat>,
    outcomes: Seq<Option<Result<S, ErrorKind>>>,
    n: int,
) -> bool {
    forall|i: int|
        0 <= i < n ==> ((#[trigger] outcomes[i]) is Some <==> !stats[i].is_closed && none_opened(
            outcomes,
            i,
        ))
}

/// The requests to the first `n` connections, in order: one for each that was asked.
pub open spec fn requests_of<S>(
    conns: Seq<PoolConn>,
    outcomes: Seq<Option<Result<S, ErrorKind>>>,
    n: int,
) -> Seq<(u64, Result<S, ErrorKind>)>
    decreases n,
{
    if n <= 0 {
        Seq::empty()
    } else {
        requests_of(conns, outcomes, n - 1) + match outcomes[n - 1] {
            Some(outcome) => seq![(conns[n - 1].number, outcome)],
            None => Seq::empty(),
        }
    }
}

/// What is appended to the outcomes does not change the earlier requests.
proof fn lemma_earlier_requests<S>(
    conns: Seq<PoolConn>,
    outcomes: Seq<Option<Result<S, ErrorKind>>>,
    outcome: Option<Result<S, ErrorKind>>,
    n: int,
)
    requires
        n <= outcomes.len(),
    ensures
        requests_of(conns, outcomes.push(outcome), n) == requests_of(conns, outcomes, n),
    decreases n,
{
    if n > 0 {
        lemma_earlier_requests(conns, outcomes, outcome, n - 1);
        assert(outcomes.push(outcome)[n - 1] == outcomes[n - 1]);
    }
}

/// Connection `i` has the trace identifier `trace_id` and has opened `stream`.
pub open spec fn opened_on<S>(
    conns: Seq<PoolConn>,
    outcomes: Seq<Option<Result<S, ErrorKind>>>,
    i: int,
    trace_id: String,
    stream: S,
) -> bool {
    outcomes[i] == Some(Ok::<S, ErrorKind>(stream)) && trace_id == conns[i].trace_id
}

/// What is appended to the outcomes does not change the earlier ones.
proof fn lemma_earlier_outcomes<S>(
    outcomes: Seq<Option<Result<S, ErrorKind>>>,
    outcome: Option<Result<S, ErrorKind>>,
    n: int,
)
    requires
        0 <= n <= outcomes.len(),
    ensures
        none_opened(outcomes.push(outcome), n) == none_opened(outcomes, n),
{
    let more = outcomes.push(outcome);
    assert(forall|k: int| 0 <= k < n ==> more[k] == outcomes[k]);
    if none_opened(more, n) {
        assert forall|k: int| 0 <= k < n implies !is_opened(#[trigger] outcomes[k]) by {
            assert(!is_opened(more[k]));
        }
    }
}

/// The connections from `i` on that stay in the pool.
pub open spec fn kept_from<S>(
    conns: Seq<PoolConn>,
    stats: Seq<ConnStat>,
    outcomes: Seq<Option<Result<S, ErrorKind>>>,
    i: int,
) -> Seq<PoolConn>
    decreases conns.len() - i,
{
    if i >= conns.len() {
        Seq::empty()
    } else {
        (if is_dropped(stats, outcomes, i) {
            Seq::empty()
        } else {
            seq![conns[i]]
        }) + kept_from(conns, stats, outcomes, i + 1)
    }
}

/// The number of closed connections among the first `n`.
pub open spec fn closed_count(stats: Seq<ConnStat>, n: int) -> nat
    decreases n,
{
    if n <= 0 {
        0
    } else {
        closed_count(stats, n - 1) + (if stats[n - 1].is_closed {
            1nat
        } else {
            0
        })
    }
}

/// The number of streams that the first `n` connections have been seen with.
pub open spec fn stream_count(stats: Seq<ConnStat>, n: int) -> nat
    decreases n,
{
    if n <= 0 {
        0
    } else {
        stream_count(stats, n - 1) + (match stats[n - 1].active_outbound_streams {
            Some(streams) => streams as nat,
            None => 0,
        })
    }
}

/// The counts are bounded by the number of connections.
proof fn lemma_counts(stats: Seq<ConnStat>, n: int)
    requires
        0 <= n,
    ensures
        closed_count(stats, n) <= n,
        stream_count(stats, n) <= n * u64::MAX,
    decreases n,
{
    if n > 0 {
        lemma_counts(stats, n - 1);
        assert((n - 1) * u64::MAX + u64::MAX == n * u64::MAX) by (nonlinear_arith);
    }
}

/// No two connections have the same trace identifier.
pub open spec fn distinct_ids(conns: Seq<PoolConn>) -> bool {
    forall|i: int, j: int|
        0 <= i < j < conns.len() ==> conns[i].trace_id@ != conns[j].trace_id@
}

/// What stays in the pool stays distinct.
proof fn lemma_kept_distinct<S>(
    conns: Seq<PoolConn>,
    stats: Seq<ConnStat>,
    outcomes: Seq<Option<Result<S, ErrorKind>>>,
    i: int,
)
    requires
        0 <= i <= conns.len(),
        distinct_ids(conns),
    ensures
        distinct_ids(kept_from(conns, stats, outcomes, i)),
    decreases conns.len() - i,
{
    if i < conns.len() {
        lemma_kept_distinct(conns, stats, outcomes, i + 1);
        let kept = kept_from(conns, stats, outcomes, i);
        let rest = kept_from(conns, stats, outcomes, i + 1);
        if !is_dropped(stats, outcomes, i) {
            assert forall|a: int, b: int| 0 <= a < b < kept.len() implies kept[a].trace_id@
                != kept[b].trace_id@ by {
                assert(kept[b] == rest[b - 1]);
                if a == 0 {
                    lemma_kept_position(conns, stats, outcomes, i + 1, b - 1);
                } else {
                    assert(kept[a] == rest[a - 1]);
                }
            }
        } else {
            assert(kept =~= rest);
        }
    }
}

/// Every connection that stays in the pool was there, at a position that is not dropped.
proof fn lemma_kept_position<S>(
    conns: Seq<PoolConn>,
    stats: Seq<ConnStat>,
    outcomes: Seq<Option<Result<S, ErrorKind>>>,
    i: int,
    at: int,
)
    requires
        0 <= i <= conns.len(),
        0 <= at < kept_from(conns, stats, outcomes, i).len(),
    ensures
        exists|k: int|
            i <= k < conns.len() && !is_dropped(stats, outcomes, k) && #[trigger] conns[k]
                == kept_from(conns, stats, outcomes, i)[at],
    decreases conns.len() - i,
{
    if i < conns.len() {
        if is_dropped(stats, outcomes, i) {
            lemma_kept_position(conns, stats, outcomes, i + 1, at);
            assert(kept_from(conns, stats, outcomes, i) =~= kept_from(
                conns,
                stats,
                outcomes,
                i + 1,
            ));
        } else if at > 0 {
            lemma_kept_position(conns, stats, outcomes, i + 1, at - 1);
        } else {
            assert(conns[i] == kept_from(conns, stats, outcomes, i)[0]);
        }
    }
}

/// A walk over the pool keeps a connection if and only if it is neither closed nor has refused a
/// stream for good. In particular it keeps the connection that has opened a stream.
pub proof fn lemma_pool_keeps_usable<S>(
    conns: Seq<PoolConn>,
    stats: Seq<ConnStat>,
    outcomes: Seq<Option<Result<S, ErrorKind>>>,
    i: int,
)
    requires
        0 <= i < conns.len(),
        distinct_ids(conns),
        is_opened(outcomes[i]) ==> !stats[i].is_closed,
    ensures
        kept_from(conns, stats, outcomes, 0).contains(conns[i]) <==> !is_dropped(
            stats,
            outcomes,
            i,
        ),
        is_opened(outcomes[i]) ==> kept_from(conns, stats, outcomes, 0).contains(conns[i]),
{
    let kept = kept_from(conns, stats, outcomes, 0);
    if !is_dropped(stats, outcomes, i) {
        lemma_kept_contains(conns, stats, outcomes, 0, i);
    }
    if kept.contains(conns[i]) {
        let at = choose|at: int| 0 <= at < kept.len() && kept[at] == conns[i];
        lemma_kept_position(conns, stats, outcomes, 0, at);
    }
}

proof fn lemma_kept_contains<S>(
    conns: Seq<PoolConn>,
    stats: Seq<ConnStat>,
    outcomes: Seq<Option<Result<S, ErrorKind>>>,
    from: int,
    i: int,
)
    requires
        0 <= from <= i < conns.len(),
        !is_dropped(stats, outcomes, i),
    ensures
        kept_from(conns, stats, outcomes, from).contains(conns[i]),
    decreases conns.len() - from,
{
    let kept = kept_from(conns, stats, outcomes, from);
    if from == i {
        assert(kept[0] == conns[i]);
    } else {
        lemma_kept_contains(conns, stats, outcomes, from + 1, i);
        let rest = kept_from(conns, stats, outcomes, from + 1);
        let at = choose|at: int| 0 <= at < rest.len() && rest[at] == conns[i];
        assert(kept[at + kept.len() - rest.len()] == conns[i]);
    }
}

/// `conns` with `conn` added, in the place of a connection with the same trace identifier.
pub open spec fn with_conn(conns: Seq<PoolConn>, conn: PoolConn) -> Seq<PoolConn>
    decreases conns.len(),
{
    if conns.len() == 0 {
        seq![conn]
    } else if conns[0].trace_id@ == conn.trace_id@ {
        seq![conn] + conns.skip(1)
    } else {
        seq![conns[0]] + with_conn(conns.skip(1), conn)
    }
}

/// Where a connection is added.
proof fn lemma_with_conn(conns: Seq<PoolConn>, conn: PoolConn, i: int)
    requires
        0 <= i <= conns.len(),
        forall|k: int| 0 <= k < i ==> (#[trigger] conns[k]).trace_id@ != conn.trace_id@,
        i < conns.len() ==> conns[i].trace_id@ == conn.trace_id@,
    ensures
        with_conn(conns, conn) == (if i < conns.len() {
            conns.update(i, conn)
        } else {
            conns.push(conn)
        }),
    decreases conns.len(),
{
    if i > 0 {
        let rest = conns.skip(1);
        assert(conns[0].trace_id@ != conn.trace_id@);
        assert forall|k: int| 0 <= k < i - 1 implies (#[trigger] rest[k]).trace_id@
            != conn.trace_id@ by {
            assert(rest[k] == conns[k + 1]);
        }
        lemma_with_conn(rest, conn, i - 1);
    }
    assert(with_conn(conns, conn) =~= (if i < conns.len() {
        conns.update(i, conn)
    } else {
        conns.push(conn)
    }));
}

/// A pool of connections.
pub struct QuicPool {
    conns: Vec<PoolConn>,
}

impl View for QuicPool {
    type V = Seq<PoolConn>;

    /// The connections, in the order in which they are asked for a stream.
    closed spec fn view(&self) -> Seq<PoolConn> {
        self.conns@
    }
}

impl QuicPool {
    /// Creates an empty pool.
    pub fn new() -> (pool: Self)
        ensures
            distinct_ids(pool@),
            pool@ == Seq::<PoolConn>::empty(),
    {
        QuicPool { conns: Vec::new() }
    }

    /// Returns the connections.
    pub fn conns(&self) -> (conns: &Vec<PoolConn>)
        ensures
            conns@ == self@,
    {
        &self.conns
    }

    /// Opens a stream on the first connection that lets us, given what each connection says of
    /// itself.
    ///
    /// Connections that are closed, or that refuse a stream for another reason than that they have
    /// no room for it, leave the pool. No connection is asked twice, and none once a stream is open.
    /// Returns the trace identifier of the connection and the stream, or `None` if a new connection
    /// has to be opened.
    pub fn connect<S, O: Opener<S>>(&mut self, stats: &Vec<ConnStat>, opener: &mut O) -> (res: (
        Option<(String, S)>,
        Metrics,
    ))
        requires
            distinct_ids(old(self)@),
            stats@.len() == old(self)@.len(),
        ensures
            distinct_ids(final(self)@),
            exists|outcomes: Seq<Option<Result<S, ErrorKind>>>|
                {
                    &&& outcomes.len() == old(self)@.len()
                    &&& #[trigger] asked(stats@, outcomes, outcomes.len() as int)
                    &&& final(opener).requests() == old(opener).requests() + requests_of(
                        old(self)@,
                        outcomes,
                        outcomes.len() as int,
                    )
                    &&& final(self)@ == kept_from(old(self)@, stats@, outcomes, 0)
                    &&& match res.0 {
                        Some((trace_id, stream)) => exists|i: int|
                            0 <= i < outcomes.len() && #[trigger] opened_on(
                                old(self)@,
                                outcomes,
                                i,
                                trace_id,
                                stream,
                            ),
                        None => none_opened(outcomes, outcomes.len() as int),
                    }
                },
            requests_answered::<S, O>(*final(opener), old(opener).requests().len() as int),
            forall|requests: Seq<(u64, Result<S, ErrorKind>)>, number: u64| #[trigger]
                final(opener).answer(requests, number) == old(opener).answer(requests, number),
            res.1.conns == stats@.len(),
            res.1.closed == closed_count(stats@, stats@.len() as int),
            res.1.streams == stream_count(stats@, stats@.len() as int) + (if res.0 is Some {
                1nat
            } else {
                0
            }),
    {
        let ghost conns = self.conns@;
        let ghost mut outcomes: Seq<Option<Result<S, ErrorKind>>> = Seq::empty();
        let mut closed: Vec<bool> = Vec::new();
        let mut stream: Option<(String, S)> = None;
        let mut metrics = Metrics { conns: 0, streams: 0, closed: 0 };
        let mut i: usize = 0;
        let ghost mut at: int = 0;
        assert(opener.requests() =~= old(opener).requests() + requests_of(conns, outcomes, 0));
        while i < stats.len()
            invariant
                i <= stats@.len(),
                stats@.len() == conns.len(),
                conns == old(self)@,
                self.conns@ == conns,
                outcomes.len() == i,
                closed@.len() == i,
                forall|k: int|
                    0 <= k < i ==> #[trigger] closed@[k] == is_dropped(stats@, outcomes, k),
                asked(stats@, outcomes, i as int),
                opener.requests() == old(opener).requests() + requests_of(
                    conns,
                    outcomes,
                    i as int,
                ),
                requests_answered::<S, O>(*opener, old(opener).requests().len() as int),
                forall|requests: Seq<(u64, Result<S, ErrorKind>)>, number: u64| #[trigger]
                    opener.answer(requests, number) == old(opener).answer(requests, number),
                match stream {
                    Some((trace_id, stream)) => 0 <= at < i && opened_on(
                        conns,
                        outcomes,
                        at,
                        trace_id,
                        stream,
                    ),
                    None => none_opened(outcomes, i as int),
                },
                metrics.conns == i,
                metrics.closed == closed_count(stats@, i as int),
                metrics.streams == stream_count(stats@, i as int) + (if stream is Some {
                    1nat
                } else {
                    0
                }),
            decreases stats.len() - i,
        {
            let ghost before = outcomes;
            let stat = stats[i];
            proof {
                lemma_counts(stats@, i + 1);
                assert((i + 1) * u64::MAX + 1 <= u128::MAX) by (nonlinear_arith)
                    requires
                        i < usize::MAX,
                ;
            }
            metrics.conns = metrics.conns + 1;
            let streams: u64 = match stat.active_outbound_streams {
                Some(streams) => streams,
                None => 0,
            };
            metrics.streams = metrics.streams + streams as u128;
            let ghost mut outcome: Option<Result<S, ErrorKind>> = None;
            let mut is_dropped_now = false;
            if stat.is_closed {
                is_dropped_now = true;
                metrics.closed = metrics.closed + 1;
            } else if stream.is_none() {
                let ghost known = opener.requests();
                let opened = opener.try_open(self.conns[i].number);
                proof {
                    outcome = Some(opened);
                    assert(opener.requests().drop_last() =~= known);
                    lemma_request_answered::<S, O>(
                        *opener,
                        known,
                        old(opener).requests().len() as int,
                    );
                }
                match opened {
                    Ok(outbound) => {
                        stream = Some((self.conns[i].trace_id.clone(), outbound));
                        metrics.streams = metrics.streams + 1;
                        proof {
                            at = i as int;
                        }
                    },
                    Err(err) => {
                        if err != ErrorKind::WouldBlock {
                            is_dropped_now = true;
                        }
                    },
                }
            }
            proof {
                outcomes = before.push(outcome);
                assert(forall|k: int| 0 <= k < i ==> #[trigger] outcomes[k] == before[k]);
                assert(outcomes[i as int] == outcome);
                assert forall|n: int| 0 <= n <= i implies #[trigger] none_opened(outcomes, n)
                    == none_opened(before, n) by {
                    lemma_earlier_outcomes(before, outcome, n);
                }
                lemma_earlier_requests(conns, before, outcome, i as int);
                assert(opener.requests() =~= old(opener).requests() + requests_of(
                    conns,
                    outcomes,
                    i + 1,
                ));
            }
            closed.push(is_dropped_now);
            i = i + 1;
        }
        let mut left: usize = self.conns.len();
        while left > 0
            invariant
                left <= conns.len(),
                conns.len() == stats@.len(),
                closed@.len() == conns.len(),
                outcomes.len() == conns.len(),
                forall|k: int|
                    0 <= k < conns.len() ==> #[trigger] closed@[k] == is_dropped(
                        stats@,
                        outcomes,
                        k,
                    ),
                self.conns@ == conns.take(left as int) + kept_from(
                    conns,
                    stats@,
                    outcomes,
                    left as int,
                ),
            decreases left,
        {
            left = left - 1;
            let ghost rest = kept_from(conns, stats@, outcomes, left + 1);
            assert(self.conns@ =~= conns.take(left as int) + seq![conns[left as int]] + rest);
            if closed[left] {
                let _ = self.conns.remove(left);
            }
            assert(self.conns@ =~= conns.take(left as int) + kept_from(
                conns,
                stats@,
                outcomes,
                left as int,
            ));
        }
        assert(self@ =~= kept_from(conns, stats@, outcomes, 0));
        proof {
            lemma_kept_distinct(conns, stats@, outcomes, 0);
        }
        (stream, metrics)
    }

    /// Adds a new connection. It takes the place of one with the same trace identifier.
    pub fn insert(&mut self, trace_id: String, number: u64)
        requires
            distinct_ids(old(self)@),
        ensures
            distinct_ids(final(self)@),
            final(self)@ == with_conn(old(self)@, (PoolConn { trace_id, number })),
            if exists|i: int|
                0 <= i < old(self)@.len() && #[trigger] old(self)@[i].trace_id@ == trace_id@ {
                exists|i: int|
                    0 <= i < old(self)@.len() && #[trigger] old(self)@[i].trace_id@ == trace_id@
                        && final(self)@ == old(self)@.update(i, (PoolConn { trace_id, number }))
            } else {
                final(self)@ == old(self)@.push((PoolConn { trace_id, number }))
            },
    {
        let mut i: usize = 0;
        while i < self.conns.len()
            invariant
                i <= self.conns@.len(),
                self.conns@ == old(self)@,
                distinct_ids(old(self)@),
                forall|k: int| 0 <= k < i ==> (#[trigger] self.conns@[k]).trace_id@ != trace_id@,
            decreases self.conns.len() - i,
        {
            if self.conns[i].trace_id == trace_id {
                proof {
                    assert(old(self)@[i as int].trace_id@ == trace_id@);
                    lemma_with_conn(old(self)@, PoolConn { trace_id, number }, i as int);
                }
                self.conns.set(i, PoolConn { trace_id, number });
                return;
            }
            i = i + 1;
        }
        proof {
            lemma_with_conn(old(self)@, PoolConn { trace_id, number }, i as int);
        }
        self.conns.push(PoolConn { trace_id, number });
    }
}

/// How many streams connection `number` has opened in the requests `requests`.
pub open spec fn opened_count(requests: Seq<(u64, Result<u64, ErrorKind>)>, number: u64) -> nat
    decreases requests.len(),
{
    if requests.len() == 0 {
        0
    } else {
        opened_count(requests.drop_last(), number) + (if requests.last().0 == number
            && requests.last().1 is Ok {
            1nat
        } else {
            0
        })
    }
}

/// How many streams each connection has opened, and by which requests.
struct Used {
    opened: Vec<u64>,
    requests: Ghost<Seq<(u64, Result<u64, ErrorKind>)>>,
}

/// Opens streams on connections that each allow a limited number of them. The streams of a
/// connection are numbered from zero.
pub struct LimitedOpener {
    limits: Vec<u64>,
    used: Used,
}

impl LimitedOpener {
    #[verifier::type_invariant]
    spec fn wf(self) -> bool {
        &&& self.used.opened@.len() == self.limits@.len()
        &&& forall|i: int|
            0 <= i < self.limits@.len() ==> #[trigger] self.used.opened@[i] == opened_count(
                self.used.requests@,
                i as u64,
            )
    }

    /// How many streams each connection allows.
    pub closed spec fn limits(self) -> Seq<u64> {
        self.limits@
    }

    /// Creates an opener for connections that allow `limits` streams.
    pub fn new(limits: Vec<u64>) -> (opener: Self)
        ensures
            opener.limits() == limits@,
            opener.requests() == Seq::<(u64, Result<u64, ErrorKind>)>::empty(),
    {
        let opened: Vec<u64> = vec![0;limits.len()];
        LimitedOpener { limits, used: Used { opened, requests: Ghost(Seq::empty()) } }
    }
}

impl Opener<u64> for LimitedOpener {
    closed spec fn requests(&self) -> Seq<(u64, Result<u64, ErrorKind>)> {
        self.used.requests@
    }

    open spec fn answer(&self, requests: Seq<(u64, Result<u64, ErrorKind>)>, number: u64) -> Result<
        u64,
        ErrorKind,
    > {
        if number >= self.limits().len() {
            Err(ErrorKind::NotFound)
        } else if opened_count(requests, number) < self.limits()[number as int] {
            Ok(opened_count(requests, number) as u64)
        } else {
            Err(ErrorKind::WouldBlock)
        }
    }

    fn try_open(&mut self, number: u64) -> (res: Result<u64, ErrorKind>)
        ensures
            final(self).limits() == old(self).limits(),
    {
        proof {
            use_type_invariant(&*self);
        }
        let mut opened: Vec<u64> = self.used.opened.clone();
        let res: Result<u64, ErrorKind> = if number >= self.limits.len() as u64 {
            Err(ErrorKind::NotFound)
        } else {
            let at: usize = number as usize;
            let stream: u64 = opened[at];
            if stream < self.limits[at] {
                opened.set(at, stream + 1);
                Ok(stream)
            } else {
                Err(ErrorKind::WouldBlock)
            }
        };
        let ghost before = self.used.requests@;
        let ghost after = before.push((number, res));
        assert(after.drop_last() =~= before);
        self.used = Used { opened, requests: Ghost(after) };
        res
    }
}

} // verus!
