//! Which connections a pool asks, and which it keeps.

use crate::errors::ErrorKind;
use crate::pool::{
    asked, closed_count, distinct_ids, is_opened, kept_from, lemma_pool_keeps_usable, none_opened,
    opened_count, opened_on, requests_answered, requests_of, stream_count, with_conn, ConnStat,
    LimitedOpener, Opener, PoolConn,
};
use vstd::prelude::*;

verus! {

/// After a walk over the pool a connection is still there if and only if it is not closed and was
/// either not asked, has opened a stream, or has only no room for one: one that answers with any
/// other error is gone.
pub proof fn lemma_connection_stays<S>(
    conns: Seq<PoolConn>,
    stats: Seq<ConnStat>,
    outcomes: Seq<Option<Result<S, ErrorKind>>>,
    i: int,
)
    requires
        0 <= i < conns.len(),
        stats.len() == conns.len(),
        outcomes.len() == conns.len(),
        forall|i: int, j: int|
            0 <= i < j < conns.len() ==> conns[i].trace_id@ != conns[j].trace_id@,
        stats[i].is_closed ==> outcomes[i] is None,
    ensures
        kept_from(conns, stats, outcomes, 0).contains(conns[i]) <==> {
            &&& !stats[i].is_closed
            &&& {
                ||| outcomes[i] is None
                ||| outcomes[i]->0 is Ok
                ||| outcomes[i] == Some(Err::<S, ErrorKind>(ErrorKind::WouldBlock))
            }
        },
{
    assert(distinct_ids(conns));
    lemma_pool_keeps_usable(conns, stats, outcomes, i);
}

/// The connections that stay keep their order, and no other one joins them.
pub proof fn lemma_connections_stay_in_order<S>(
    conns: Seq<PoolConn>,
    stats: Seq<ConnStat>,
    outcomes: Seq<Option<Result<S, ErrorKind>>>,
    i: int,
)
    requires
        0 <= i < conns.len(),
    ensures
        ({
            let rest = kept_from(conns, stats, outcomes, i + 1);
            let stays = !stats[i].is_closed && (outcomes[i] is None || outcomes[i]->0 is Ok
                || outcomes[i] == Some(Err::<S, ErrorKind>(ErrorKind::WouldBlock)));
            &&& stays ==> kept_from(conns, stats, outcomes, i) == seq![conns[i]] + rest
            &&& !stays ==> kept_from(conns, stats, outcomes, i) == rest
            &&& kept_from(conns, stats, outcomes, conns.len() as int) == Seq::<PoolConn>::empty()
        }),
{
    let rest = kept_from(conns, stats, outcomes, i + 1);
    assert(Seq::<PoolConn>::empty() + rest =~= rest);
}

/// A connection is asked for a stream if and only if it is not closed and no connection before it
/// has opened one. So once a stream is open, no further connection is asked.
pub proof fn lemma_asked_until_a_stream_is_open<S>(
    stats: Seq<ConnStat>,
    outcomes: Seq<Option<Result<S, ErrorKind>>>,
    i: int,
    later: int,
)
    requires
        asked(stats, outcomes, outcomes.len() as int),
        0 <= i < later < outcomes.len(),
    ensures
        outcomes[i] is Some <==> !stats[i].is_closed && (forall|k: int|
            0 <= k < i ==> !((#[trigger] outcomes[k]) is Some && outcomes[k]->0 is Ok)),
        outcomes[later] is Some <==> !stats[later].is_closed && (forall|k: int|
            0 <= k < later ==> !((#[trigger] outcomes[k]) is Some && outcomes[k]->0 is Ok)),
        outcomes[i] is Some && outcomes[i]->0 is Ok ==> outcomes[later] is None,
{
    assert forall|n: int| 0 <= n < outcomes.len() implies #[trigger] none_opened(outcomes, n) == (
    forall|k: int| 0 <= k < n ==> !((#[trigger] outcomes[k]) is Some && outcomes[k]->0 is Ok)) by {
        assert(forall|k: int|
            0 <= k < n ==> is_opened(#[trigger] outcomes[k]) == (outcomes[k] is Some
                && outcomes[k]->0 is Ok));
    }
    assert(none_opened(outcomes, i) == none_opened(outcomes, i));
    assert(none_opened(outcomes, later) == none_opened(outcomes, later));
}

/// No stream is open if and only if no answer is one.
pub proof fn lemma_none_opened<S>(outcomes: Seq<Option<Result<S, ErrorKind>>>, n: int)
    ensures
        none_opened(outcomes, n) <==> forall|k: int|
            0 <= k < n ==> !((#[trigger] outcomes[k]) is Some && outcomes[k]->0 is Ok),
{
    assert(forall|k: int|
        is_opened(#[trigger] outcomes[k]) == (outcomes[k] is Some && outcomes[k]->0 is Ok));
}

/// Each connection that is asked is asked once, in the order of the pool, under its number, and the
/// request is recorded with its answer; one that is not asked leaves no request.
pub proof fn lemma_one_request_for_each_connection<S>(
    conns: Seq<PoolConn>,
    outcomes: Seq<Option<Result<S, ErrorKind>>>,
    i: int,
)
    requires
        0 <= i < outcomes.len(),
    ensures
        requests_of(conns, outcomes, 0) == Seq::<(u64, Result<S, ErrorKind>)>::empty(),
        outcomes[i] is None ==> requests_of(conns, outcomes, i + 1) == requests_of(
            conns,
            outcomes,
            i,
        ),
        outcomes[i] is Some ==> requests_of(conns, outcomes, i + 1) == requests_of(
            conns,
            outcomes,
            i,
        ).push((conns[i].number, outcomes[i]->0)),
{
    let before = requests_of(conns, outcomes, i);
    if outcomes[i] is None {
        assert(before + Seq::<(u64, Result<S, ErrorKind>)>::empty() =~= before);
    } else {
        assert(requests_of(conns, outcomes, i + 1) =~= before.push(
            (conns[i].number, outcomes[i]->0),
        ));
    }
}

/// A stream comes from the connection whose trace identifier it is handed out with.
pub proof fn lemma_stream_of_a_connection<S>(
    conns: Seq<PoolConn>,
    outcomes: Seq<Option<Result<S, ErrorKind>>>,
    i: int,
    trace_id: String,
    stream: S,
)
    ensures
        opened_on(conns, outcomes, i, trace_id, stream) <==> outcomes[i] is Some && outcomes[i]->0
            == Ok::<S, ErrorKind>(stream) && conns[i].trace_id == trace_id,
{
}

/// One more connection adds one to the closed ones if it is closed, and its streams, if they are
/// known, to the streams.
pub proof fn lemma_counts_of_one_more_connection(stats: Seq<ConnStat>, n: int)
    requires
        0 <= n < stats.len(),
    ensures
        closed_count(stats, 0) == 0,
        stream_count(stats, 0) == 0,
        closed_count(stats, n + 1) - closed_count(stats, n) == (if stats[n].is_closed {
            1int
        } else {
            0
        }),
        stream_count(stats, n + 1) - stream_count(stats, n) == (
        if stats[n].active_outbound_streams is Some {
            stats[n].active_outbound_streams->0 as int
        } else {
            0
        }),
{
}

/// One more request adds a stream to the connection that it went to if it has opened one.
pub proof fn lemma_streams_of_one_more_request(
    requests: Seq<(u64, Result<u64, ErrorKind>)>,
    number: u64,
    asked: u64,
    answer: Result<u64, ErrorKind>,
)
    ensures
        opened_count(Seq::<(u64, Result<u64, ErrorKind>)>::empty(), number) == 0,
        opened_count(requests.push((asked, answer)), number) == opened_count(requests, number) + (
        if asked == number && answer is Ok {
            1int
        } else {
            0
        }),
{
    assert(requests.push((asked, answer)).drop_last() =~= requests);
}

/// An opener with limits refuses a connection that it does not know, opens streams, numbered from
/// zero, as long as fewer are open than a connection allows, and then has no room.
pub proof fn lemma_limited_opener(
    opener: LimitedOpener,
    requests: Seq<(u64, Result<u64, ErrorKind>)>,
    number: u64,
)
    ensures
        ({
            let opened = opened_count(requests, number);
            let limit = opener.limits()[number as int];
            &&& number >= opener.limits().len() <==> opener.answer(requests, number) == Err::<
                u64,
                ErrorKind,
            >(ErrorKind::NotFound)
            &&& number < opener.limits().len() && opened < limit ==> opener.answer(requests, number)
                == Ok::<u64, ErrorKind>(opened as u64)
            &&& number < opener.limits().len() && opened >= limit ==> opener.answer(requests, number)
                == Err::<u64, ErrorKind>(ErrorKind::WouldBlock)
        }),
{
}

/// No two connections of a pool share a trace identifier.
pub proof fn lemma_connections_by_trace_id(conns: Seq<PoolConn>)
    ensures
        distinct_ids(conns) <==> forall|i: int, j: int|
            0 <= i < conns.len() && 0 <= j < conns.len() && conns[i].trace_id@ == conns[j].trace_id@
                ==> i == j,
{
}

/// Where requests were answered, each answer is what the connection answers after the requests
/// before it.
pub proof fn lemma_answers_of_an_opener<S, O: Opener<S>>(opener: O, start: int)
    ensures
        requests_answered::<S, O>(opener, start) <==> forall|i: int|
            start <= i < opener.requests().len() ==> (#[trigger] opener.requests()[i]).1
                == opener.answer(opener.requests().take(i), opener.requests()[i].0),
{
}

/// A connection that is added is in the pool, in the place of one with the same trace identifier, if
/// there was one; every other connection stays where it is.
pub proof fn lemma_added_connection(conns: Seq<PoolConn>, conn: PoolConn, i: int)
    requires
        0 <= i < conns.len(),
        distinct_ids(conns),
    ensures
        ({
            let after = with_conn(conns, conn);
            let replaces = exists|k: int|
                0 <= k < conns.len() && (#[trigger] conns[k]).trace_id@ == conn.trace_id@;
            &&& after.contains(conn)
            &&& after.len() == conns.len() + (if replaces {
                0int
            } else {
                1int
            })
            &&& conns[i].trace_id@ == conn.trace_id@ ==> after[i] == conn
            &&& conns[i].trace_id@ != conn.trace_id@ ==> after[i] == conns[i]
        }),
    decreases conns.len(),
{
    let after = with_conn(conns, conn);
    let rest = conns.skip(1);
    assert forall|a: int, b: int| 0 <= a < b < rest.len() implies rest[a].trace_id@
        != rest[b].trace_id@ by {
        assert(rest[a] == conns[a + 1] && rest[b] == conns[b + 1]);
    }
    if conns[0].trace_id@ == conn.trace_id@ {
        assert(after[0] == conn);
        if i > 0 {
            assert(conns[0].trace_id@ != conns[i].trace_id@);
            assert(after[i] == rest[i - 1]);
        }
    } else {
        let tail = with_conn(rest, conn);
        if rest.len() > 0 {
            lemma_added_connection(rest, conn, if i > 0 {
                i - 1
            } else {
                0
            });
        } else {
            assert(tail[0] == conn);
        }
        let k = choose|k: int| 0 <= k < tail.len() && tail[k] == conn;
        assert(after[k + 1] == conn);
        if exists|k: int| 0 <= k < rest.len() && (#[trigger] rest[k]).trace_id@ == conn.trace_id@ {
            let k = choose|k: int|
                0 <= k < rest.len() && (#[trigger] rest[k]).trace_id@ == conn.trace_id@;
            assert(conns[k + 1].trace_id@ == conn.trace_id@);
        }
        if exists|k: int|
            0 <= k < conns.len() && (#[trigger] conns[k]).trace_id@ == conn.trace_id@ {
            let k = choose|k: int|
                0 <= k < conns.len() && (#[trigger] conns[k]).trace_id@ == conn.trace_id@;
            assert(rest[k - 1].trace_id@ == conn.trace_id@);
        }
        if i > 0 {
            assert(rest[i - 1] == conns[i]);
            assert(after[i] == tail[i - 1]);
        }
    }
}

/// The first connection of a pool is the only one of it.
pub proof fn lemma_first_connection(conn: PoolConn)
    ensures
        with_conn(Seq::<PoolConn>::empty(), conn) == seq![conn],
{
}

} // verus!
