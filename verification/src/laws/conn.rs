//! What a connection does with the events of its streams.

use std::task::Waker;

use crate::conn::{
    ascending, id_order, lemma_ascending, one, spec_closing_recv, spec_is_bidi, spec_is_local,
    waiting_for, ConnError, ConnPoll, QuicConnView, QuicStream, SendPoll,
};
use crate::errors::QuicheError;
use crate::laws::reactor::lemma_timer_waits_for_its_deadline;
use crate::reactor::{ReactorError, ReactorView, TimerPoll};
use crate::timing_wheel::low_64_bits;
use crate::token::Token;
use vstd::prelude::*;

verus! {

/// Bit 0 of a stream identifier is the role of the side that has opened it, and bit 1 is clear if
/// both sides may write.
pub proof fn lemma_bits_of_a_stream_id(id: u64, is_server: bool)
    ensures
        spec_is_local(id, is_server) <==> (id & 1 == 1) == is_server,
        spec_is_bidi(id) <==> id & 2 == 0,
{
    assert(id & 1 == id % 2) by (bit_vector);
    assert((id & 2 == 0) == ((id / 2) % 2 == 0)) by (bit_vector);
}

/// The streams of a connection: those to be accepted were opened by the peer for both directions,
/// and wait in the order of their identifiers; the next one to be opened is one of ours.
pub proof fn lemma_streams_of_a_connection(conn: QuicConnView, i: int, j: int)
    requires
        conn.wf(),
    ensures
        0 <= i < conn.fifo.len() ==> {
            &&& conn.fifo[i] & 2 == 0
            &&& (conn.fifo[i] & 1 == 1) != conn.is_server
            &&& conn.fifo[i] <= conn.inbound_current
        },
        0 <= i < j < conn.fifo.len() ==> conn.fifo[i] < conn.fifo[j],
        conn.outbound_next & 2 == 0,
        (conn.outbound_next & 1 == 1) == conn.is_server,
        conn.outbound_next >= 4,
{
    if 0 <= i < conn.fifo.len() {
        lemma_bits_of_a_stream_id(conn.fifo[i], conn.is_server);
    }
    lemma_bits_of_a_stream_id(conn.outbound_next, conn.is_server);
}

/// Streams are taken in the order of their identifiers, each as often as it was reported.
pub proof fn lemma_streams_in_order(ids: Seq<u64>, i: int, j: int, id: u64)
    ensures
        0 <= i <= j < ascending(ids).len() ==> ascending(ids)[i] <= ascending(ids)[j],
        ascending(ids).to_multiset() == ids.to_multiset(),
        ascending(ids).len() == ids.len(),
        ascending(ids).contains(id) <==> ids.contains(id),
        ids.no_duplicates() ==> ascending(ids).no_duplicates(),
{
    broadcast use vstd::multiset::group_multiset_axioms;

    lemma_ascending(ids);
    let sorted = ascending(ids);
    vstd::seq_lib::to_multiset_len(ids);
    vstd::seq_lib::to_multiset_len(sorted);
    vstd::seq_lib::to_multiset_contains(ids, id);
    vstd::seq_lib::to_multiset_contains(sorted, id);
    if 0 <= i < j < sorted.len() {
        assert((id_order())(sorted[i], sorted[j]));
    }
    if ids.no_duplicates() {
        ids.lemma_multiset_has_no_duplicates();
        sorted.lemma_multiset_has_no_duplicates_conv();
    }
}

/// On a connection of either role, every readable stream that the peer has opened for both
/// directions, and that is larger than every such stream seen so far, joins those to be accepted,
/// once and in the order of the identifiers, and nothing else does. A task that waits for one is
/// told. Nothing but this and the reading tasks is touched.
pub proof fn lemma_new_streams_are_to_be_accepted(conn: QuicConnView, ids: Seq<u64>)
    ensures
        ({
            let after = conn.all_readable(ascending(ids)).acceptor_told();
            let known = conn.fifo.len() as int;
            &&& after.fifo.len() >= known
            &&& after.fifo.take(known) == conn.fifo
            &&& forall|i: int, j: int|
                known <= i < j < after.fifo.len() ==> after.fifo[i] < after.fifo[j]
            &&& forall|id: u64| #[trigger]
                after.fifo.skip(known).contains(id) <==> {
                    &&& ids.contains(id)
                    &&& id & 2 == 0
                    &&& (id & 1 == 1) != conn.is_server
                    &&& id > conn.inbound_current
                }
            &&& after.inbound_current == (if after.fifo.len() > known {
                after.fifo.last()
            } else {
                conn.inbound_current
            })
            &&& after.fifo_waker == (if after.fifo.len() > 0 {
                None
            } else {
                conn.fifo_waker
            })
            &&& after.is_server == conn.is_server
            &&& after.outbound_next == conn.outbound_next
            &&& after.writable_wakers == conn.writable_wakers
            &&& after.send_waker == conn.send_waker
            &&& after.open_stream_waker == conn.open_stream_waker
            &&& after.on_timeout_timer == conn.on_timeout_timer
            &&& after.closing == conn.closing
        }),
{
    let sorted = ascending(ids);
    assert forall|i: int, j: int| 0 <= i <= j < sorted.len() implies sorted[i] <= sorted[j] by {
        lemma_streams_in_order(ids, i, j, 0);
    }
    lemma_sorted_streams(conn, sorted);
    let after = conn.all_readable(sorted).acceptor_told();
    let known = conn.fifo.len() as int;
    assert forall|id: u64| #[trigger] after.fifo.skip(known).contains(id) <==> {
        &&& ids.contains(id)
        &&& id & 2 == 0
        &&& (id & 1 == 1) != conn.is_server
        &&& id > conn.inbound_current
    } by {
        lemma_streams_in_order(ids, 0, 0, id);
        assert(conn.all_readable(sorted).fifo.skip(known).contains(id) == after.fifo.skip(
            known,
        ).contains(id));
    }
}

proof fn lemma_sorted_streams(conn: QuicConnView, ids: Seq<u64>)
    requires
        forall|i: int, j: int| 0 <= i <= j < ids.len() ==> ids[i] <= ids[j],
    ensures
        ({
            let after = conn.all_readable(ids);
            let known = conn.fifo.len() as int;
            &&& after.fifo.len() >= known
            &&& after.fifo.take(known) == conn.fifo
            &&& forall|i: int, j: int|
                known <= i < j < after.fifo.len() ==> after.fifo[i] < after.fifo[j]
            &&& forall|id: u64| #[trigger]
                after.fifo.skip(known).contains(id) <==> {
                    &&& ids.contains(id)
                    &&& id & 2 == 0
                    &&& (id & 1 == 1) != conn.is_server
                    &&& id > conn.inbound_current
                }
            &&& after.inbound_current == (if after.fifo.len() > known {
                after.fifo.last()
            } else {
                conn.inbound_current
            })
            &&& after == (QuicConnView {
                fifo: after.fifo,
                inbound_current: after.inbound_current,
                readable_wakers: after.readable_wakers,
                ..conn
            })
        }),
    decreases ids.len(),
{
    let known = conn.fifo.len() as int;
    let after = conn.all_readable(ids);
    if ids.len() == 0 {
        assert(after.fifo.take(known) =~= conn.fifo);
        assert(after.fifo.skip(known) =~= Seq::<u64>::empty());
    } else {
        let seen = ids.drop_last();
        let last = ids.last();
        assert forall|i: int, j: int| 0 <= i <= j < seen.len() implies seen[i] <= seen[j] by {
            assert(ids[i] <= ids[j]);
        }
        lemma_sorted_streams(conn, seen);
        lemma_bits_of_a_stream_id(last, conn.is_server);
        let before = conn.all_readable(seen);
        let tail = before.fifo.skip(known);
        let new_tail = after.fifo.skip(known);
        assert(ids[ids.len() - 1] == last);
        if before.fifo.len() > known {
            assert(tail[tail.len() - 1] == before.fifo.last());
            assert(tail.contains(before.fifo.last()));
            let k = choose|k: int| 0 <= k < seen.len() && seen[k] == before.fifo.last();
            assert(ids[k] <= ids[ids.len() - 1]);
            assert(before.fifo.last() > conn.inbound_current);
        }
        assert forall|id: u64| ids.contains(id) <==> seen.contains(id) || id == last by {
            if ids.contains(id) {
                let k = choose|k: int| 0 <= k < ids.len() && ids[k] == id;
                if k < seen.len() {
                    assert(seen[k] == id);
                }
            }
            if seen.contains(id) {
                let k = choose|k: int| 0 <= k < seen.len() && seen[k] == id;
                assert(ids[k] == id);
            }
        }
        if after.fifo.len() > before.fifo.len() {
            assert(after.fifo == before.fifo.push(last));
            assert(new_tail =~= tail.push(last));
            assert(after.fifo.take(known) =~= before.fifo.take(known));
            assert forall|id: u64| #[trigger] new_tail.contains(id) <==> tail.contains(id) || id
                == last by {
                vstd::seq_lib::lemma_seq_contains_after_push(tail, last, id);
            }
            assert forall|i: int, j: int| known <= i < j < after.fifo.len() implies after.fifo[i]
                < after.fifo[j] by {
                if j == before.fifo.len() && i < before.fifo.len() - 1 {
                    assert(before.fifo[i] < before.fifo[before.fifo.len() - 1]);
                }
            }
        } else {
            assert(after.fifo == before.fifo);
        }
    }
}

/// When known streams become readable, the tasks that wait to read from them are woken up and wait
/// no longer; no other task is woken up, as many tasks are woken up as no longer wait, and those of
/// streams without an event keep waiting.
pub proof fn lemma_readers_of_readable_streams(conn: QuicConnView, ids: Seq<u64>, id: u64)
    ensures
        ({
            let after = conn.all_readable(ids);
            let woken = conn.woken_by_all_readable(ids);
            let known = !(id & 2 == 0 && (id & 1 == 1) != conn.is_server && id
                > conn.inbound_current);
            &&& !ids.contains(id) ==> {
                &&& after.readable_wakers.contains_key(id) == conn.readable_wakers.contains_key(id)
                &&& after.readable_wakers[id] == conn.readable_wakers[id]
            }
            &&& ids.contains(id) && known ==> !after.readable_wakers.contains_key(id)
            &&& ids.contains(id) && known && conn.readable_wakers.contains_key(id)
                ==> woken.contains(conn.readable_wakers[id])
            &&& forall|i: int|
                0 <= i < woken.len() ==> exists|k: u64| #[trigger]
                    ids.contains(k) && conn.readable_wakers.contains_key(k) && #[trigger] woken[i]
                        == conn.readable_wakers[k]
            &&& conn.readable_wakers.dom().finite() ==> woken.len()
                == conn.readable_wakers.dom().len() - after.readable_wakers.dom().len()
        }),
    decreases ids.len(),
{
    lemma_bits_of_a_stream_id(id, conn.is_server);
    lemma_fields_kept(conn, ids);
    if ids.len() > 0 {
        let seen = ids.drop_last();
        let last = ids.last();
        lemma_readers_of_readable_streams(conn, seen, id);
        lemma_fields_kept(conn, seen);
        let before = conn.all_readable(seen);
        let woken = conn.woken_by_all_readable(seen);
        let more = before.woken_by_readable(last);
        let all = conn.woken_by_all_readable(ids);
        assert(all == woken + more);
        assert(ids[ids.len() - 1] == last);
        assert(before.readable_wakers.contains_key(last) ==> conn.readable_wakers.contains_key(last)
            && conn.readable_wakers[last] == before.readable_wakers[last]);
        assert forall|k: u64| seen.contains(k) implies ids.contains(k) by {
            let j = choose|j: int| 0 <= j < seen.len() && seen[j] == k;
            assert(ids[j] == k);
        }
        if ids.contains(id) && !seen.contains(id) {
            let j = choose|j: int| 0 <= j < ids.len() && ids[j] == id;
            if j < seen.len() {
                assert(seen[j] == id);
            }
        }
        if woken.contains(conn.readable_wakers[id]) {
            let j = choose|j: int| 0 <= j < woken.len() && woken[j] == conn.readable_wakers[id];
            assert(all[j] == conn.readable_wakers[id]);
        }
        if more.len() > 0 {
            assert(all[woken.len() as int] == conn.readable_wakers[last]);
        }
        assert forall|i: int| 0 <= i < all.len() implies exists|k: u64| #[trigger]
            ids.contains(k) && conn.readable_wakers.contains_key(k) && #[trigger] all[i]
                == conn.readable_wakers[k] by {
            if i < woken.len() {
                assert(all[i] == woken[i]);
                let k = choose|k: u64| #[trigger]
                    seen.contains(k) && conn.readable_wakers.contains_key(k) && woken[i]
                        == conn.readable_wakers[k];
                assert(ids.contains(k));
            } else {
                assert(ids.contains(last));
            }
        }
        if conn.readable_wakers.dom().finite() {
            assert(before.readable_wakers.dom().subset_of(conn.readable_wakers.dom()));
            vstd::set_lib::lemma_len_subset(
                before.readable_wakers.dom(),
                conn.readable_wakers.dom(),
            );
            if !before.is_new_inbound(last) {
                assert(conn.all_readable(ids).readable_wakers.dom()
                    =~= before.readable_wakers.dom().remove(last));
            }
        }
    }
}

/// What no readable event adds to or takes away.
proof fn lemma_fields_kept(conn: QuicConnView, ids: Seq<u64>)
    ensures
        ({
            let after = conn.all_readable(ids);
            &&& after.is_server == conn.is_server
            &&& after.closing == conn.closing
            &&& after.inbound_current >= conn.inbound_current
            &&& forall|k: u64| #[trigger]
                after.readable_wakers.contains_key(k) ==> conn.readable_wakers.contains_key(k)
                    && conn.readable_wakers[k] == after.readable_wakers[k]
        }),
    decreases ids.len(),
{
    if ids.len() > 0 {
        lemma_fields_kept(conn, ids.drop_last());
    }
}

/// When streams become readable, each reported once, a stream is drained if and only if it is known,
/// is being closed, and no task waits to read from it; and a task that waits to read from a new
/// stream keeps waiting. Streams are drained in the order of their identifiers.
pub proof fn lemma_drained_streams(conn: QuicConnView, ids: Seq<u64>, id: u64, i: int, j: int)
    requires
        ids.no_duplicates(),
    ensures
        ({
            let new = id & 2 == 0 && (id & 1 == 1) != conn.is_server && id > conn.inbound_current;
            let drained = conn.drained_by_all_readable(ascending(ids));
            let after = conn.all_readable(ascending(ids));
            &&& drained.contains(id) <==> {
                &&& ids.contains(id)
                &&& !new
                &&& conn.closing.contains_key(id)
                &&& !conn.readable_wakers.contains_key(id)
            }
            &&& 0 <= i < j < drained.len() ==> drained[i] < drained[j]
            &&& new && conn.readable_wakers.contains_key(id) ==> {
                &&& after.readable_wakers.contains_key(id)
                &&& after.readable_wakers[id] == conn.readable_wakers[id]
            }
        }),
{
    let sorted = ascending(ids);
    assert forall|i: int, j: int| 0 <= i < j < sorted.len() implies sorted[i] < sorted[j] by {
        lemma_streams_in_order(ids, i, j, 0);
        assert(sorted[i] != sorted[j]);
    }
    lemma_streams_in_order(ids, 0, 0, id);
    lemma_drained_in_order(conn, sorted, id);
}

proof fn lemma_drained_in_order(conn: QuicConnView, ids: Seq<u64>, id: u64)
    requires
        forall|i: int, j: int| 0 <= i < j < ids.len() ==> ids[i] < ids[j],
    ensures
        ({
            let new = id & 2 == 0 && (id & 1 == 1) != conn.is_server && id > conn.inbound_current;
            let drained = conn.drained_by_all_readable(ids);
            let after = conn.all_readable(ids);
            &&& drained.contains(id) <==> {
                &&& ids.contains(id)
                &&& !new
                &&& conn.closing.contains_key(id)
                &&& !conn.readable_wakers.contains_key(id)
            }
            &&& forall|i: int, j: int| 0 <= i < j < drained.len() ==> drained[i] < drained[j]
            &&& forall|i: int| 0 <= i < drained.len() ==> ids.contains(#[trigger] drained[i])
            &&& new || !ids.contains(id) ==> {
                &&& after.readable_wakers.contains_key(id) == conn.readable_wakers.contains_key(id)
                &&& after.readable_wakers[id] == conn.readable_wakers[id]
            }
        }),
    decreases ids.len(),
{
    if ids.len() > 0 {
        let seen = ids.drop_last();
        let last = ids.last();
        assert forall|i: int, j: int| 0 <= i < j < seen.len() implies seen[i] < seen[j] by {
            assert(ids[i] < ids[j]);
        }
        lemma_drained_in_order(conn, seen, id);
        lemma_drained_in_order(conn, seen, last);
        lemma_fields_kept(conn, seen);
        lemma_sorted_streams(conn, seen);
        lemma_bits_of_a_stream_id(last, conn.is_server);
        lemma_bits_of_a_stream_id(id, conn.is_server);
        let before = conn.all_readable(seen);
        let drained = conn.drained_by_all_readable(seen);
        let more = before.drained_by_readable(last);
        let all = conn.drained_by_all_readable(ids);
        let known = conn.fifo.len() as int;
        assert(all == drained + more);
        assert(ids[ids.len() - 1] == last);
        assert forall|k: u64| #[trigger] seen.contains(k) implies ids.contains(k) && k < last by {
            let j = choose|j: int| 0 <= j < seen.len() && seen[j] == k;
            assert(ids[j] == k);
            assert(ids[j] < ids[ids.len() - 1]);
        }
        if before.fifo.len() > known {
            let tail = before.fifo.skip(known);
            assert(tail[tail.len() - 1] == before.fifo.last());
            assert(tail.contains(before.fifo.last()));
            assert(seen.contains(before.fifo.last()));
        }
        assert(ids.contains(id) <==> seen.contains(id) || id == last) by {
            if ids.contains(id) {
                let k = choose|k: int| 0 <= k < ids.len() && ids[k] == id;
                if k < seen.len() {
                    assert(seen[k] == id);
                }
            }
        }
        assert(!seen.contains(last));
        if drained.contains(id) {
            let k = choose|k: int| 0 <= k < drained.len() && drained[k] == id;
            assert(all[k] == id);
        }
        if more.len() > 0 {
            assert(all[drained.len() as int] == last);
        }
        if all.contains(id) {
            let k = choose|k: int| 0 <= k < all.len() && all[k] == id;
            if k < drained.len() {
                assert(drained[k] == id);
            } else {
                assert(id == last);
            }
        }
        assert forall|i: int| 0 <= i < all.len() implies ids.contains(#[trigger] all[i]) by {
            if i < drained.len() {
                assert(all[i] == drained[i]);
                assert(seen.contains(drained[i]));
            }
        }
        assert forall|i: int, j: int| 0 <= i < j < all.len() implies all[i] < all[j] by {
            assert(all[i] == drained[i]);
            assert(seen.contains(drained[i]));
            if j < drained.len() {
                assert(all[j] == drained[j]);
            }
        }
    }
}

/// A task that waits for an inbound stream is told if and only if there is one to accept.
pub proof fn lemma_acceptor_is_told(conn: QuicConnView)
    ensures
        conn.fifo.len() > 0 ==> conn.acceptor() == conn.fifo_waker,
        conn.fifo.len() == 0 ==> conn.acceptor() is None,
        conn.acceptor_told().fifo == conn.fifo,
        conn.acceptor_told().fifo_waker is Some <==> conn.fifo_waker is Some && conn.fifo.len()
            == 0,
{
}

/// A task that is to be woken up is woken up once.
pub proof fn lemma_one_task(waker: Waker)
    ensures
        one(Some(waker)).len() == 1,
        one(Some(waker))[0] == waker,
        one(None::<Waker>).len() == 0,
{
}

/// When streams become writable, every task that waits to write to one of them is woken up, no other
/// task is, and as many are woken up as no longer wait.
pub proof fn lemma_writers_of_writable_streams(wakers: Map<u64, Waker>, ids: Seq<u64>, id: u64)
    ensures
        ({
            let woken = waiting_for(wakers, ids);
            &&& ids.contains(id) && wakers.contains_key(id) ==> woken.contains(wakers[id])
            &&& forall|i: int|
                0 <= i < woken.len() ==> exists|k: u64| #[trigger]
                    ids.contains(k) && wakers.contains_key(k) && #[trigger] woken[i] == wakers[k]
            &&& wakers.dom().finite() ==> woken.len() == wakers.dom().len() - wakers.remove_keys(
                ids.to_set(),
            ).dom().len()
        }),
    decreases ids.len(),
{
    if ids.len() > 0 {
        let seen = ids.drop_last();
        let last = ids.last();
        lemma_writers_of_writable_streams(wakers, seen, id);
        let woken = waiting_for(wakers, seen);
        let all = waiting_for(wakers, ids);
        assert(ids[ids.len() - 1] == last);
        assert forall|k: u64| #[trigger] ids.contains(k) <==> seen.contains(k) || k == last by {
            if seen.contains(k) {
                let j = choose|j: int| 0 <= j < seen.len() && seen[j] == k;
                assert(ids[j] == k);
            }
            if ids.contains(k) {
                let j = choose|j: int| 0 <= j < ids.len() && ids[j] == k;
                if j < seen.len() {
                    assert(seen[j] == k);
                }
            }
        }
        if woken.contains(wakers[id]) {
            let j = choose|j: int| 0 <= j < woken.len() && woken[j] == wakers[id];
            assert(all[j] == wakers[id]);
        }
        if all.len() > woken.len() {
            assert(all[woken.len() as int] == wakers[last]);
        }
        assert forall|i: int| 0 <= i < all.len() implies exists|k: u64| #[trigger]
            ids.contains(k) && wakers.contains_key(k) && #[trigger] all[i] == wakers[k] by {
            if i < woken.len() {
                assert(all[i] == woken[i]);
                let k = choose|k: u64| #[trigger]
                    seen.contains(k) && wakers.contains_key(k) && woken[i] == wakers[k];
                assert(ids.contains(k));
            } else {
                assert(ids.contains(last));
            }
        }
        if wakers.dom().finite() {
            let before = wakers.remove_keys(seen.to_set());
            let after = wakers.remove_keys(ids.to_set());
            assert(before.dom().subset_of(wakers.dom()));
            vstd::set_lib::lemma_len_subset(before.dom(), wakers.dom());
            assert(after.dom() =~= before.dom().remove(last));
        }
    } else {
        assert(wakers.remove_keys(ids.to_set()) =~= wakers);
    }
}

/// Nothing is left of a stream that is being drained if and only if its end was read or the protocol
/// stack refuses to read from it; it may be read from again at once if and only if data was read
/// that was not the end; otherwise more is still to come.
pub proof fn lemma_draining(received: Result<(usize, bool), QuicheError>)
    ensures
        spec_closing_recv(received) == Some(true) <==> (received matches Ok(read) && read.1) || (
        received matches Err(err) && err != QuicheError::Done),
        spec_closing_recv(received) == Some(false) <==> received == Err::<(usize, bool), QuicheError>(
            QuicheError::Done,
        ),
        spec_closing_recv(received) is None <==> (received matches Ok(read) && !read.1),
{
}

/// Accepting gives the stream that has waited longest, which then waits no longer; if none waits,
/// the task is kept to be told of the next one; and a closed connection gives none. Nothing else
/// changes.
pub proof fn lemma_accepting_a_stream(conn: QuicConnView, is_closed: bool, waker: Waker)
    ensures
        ({
            let (res, after) = conn.accepting(is_closed, waker);
            &&& is_closed ==> res == ConnPoll::Ready(Err::<QuicStream, ConnError>(ConnError::Closed))
                && after == conn
            &&& !is_closed && conn.fifo.len() > 0 ==> {
                &&& res == ConnPoll::Ready(Ok::<QuicStream, ConnError>(QuicStream(conn.fifo[0])))
                &&& seq![conn.fifo[0]] + after.fifo == conn.fifo
                &&& after == (QuicConnView { fifo: after.fifo, ..conn })
            }
            &&& !is_closed && conn.fifo.len() == 0 ==> {
                &&& res == ConnPoll::<QuicStream>::Pending
                &&& after == (QuicConnView { fifo_waker: Some(waker), ..conn })
            }
        }),
{
    if conn.fifo.len() > 0 {
        assert(seq![conn.fifo[0]] + conn.fifo.drop_first() =~= conn.fifo);
    }
}

/// A stream that the peer opens is given to who accepts, on a connection of either role: the first
/// event for a bidirectional stream of the peer makes it the next one to be accepted, if none waits.
pub proof fn lemma_stream_of_the_peer_is_accepted(conn: QuicConnView, id: u64, waker: Waker)
    requires
        conn.fifo.len() == 0,
        id & 2 == 0,
        (id & 1 == 1) != conn.is_server,
        id > conn.inbound_current,
    ensures
        conn.all_readable(ascending(seq![id])).acceptor_told().accepting(false, waker).0
            == ConnPoll::Ready(Ok::<QuicStream, ConnError>(QuicStream(id))),
{
    lemma_new_streams_are_to_be_accepted(conn, seq![id]);
    let after = conn.all_readable(ascending(seq![id])).acceptor_told();
    assert(seq![id][0] == id);
    assert(seq![id].contains(id));
    assert(after.fifo.skip(0) =~= after.fifo);
    assert(after.fifo.skip(0).contains(id));
    assert(after.fifo.skip(0).contains(after.fifo[0]));
    let k = choose|k: int| 0 <= k < seq![id].len() && seq![id][k] == after.fifo[0];
    assert(after.fifo[0] == id);
}

/// A stream may be opened if and only if the peer lets us; it gets the next identifier of ours, no
/// later one gets the same, and all are bidirectional and of our role. Otherwise the task is kept to
/// be told. Nothing else changes.
pub proof fn lemma_opening_a_stream(conn: QuicConnView, left: u64, later: u64, waker: Waker)
    requires
        conn.wf(),
        conn.outbound_next <= u64::MAX - 8,
    ensures
        ({
            let (res, after) = conn.opening(left, waker);
            &&& left == 0 ==> res is None && after == (QuicConnView {
                open_stream_waker: Some(waker),
                ..conn
            })
            &&& left > 0 ==> {
                &&& res == Some(conn.outbound_next)
                &&& after == (QuicConnView { outbound_next: after.outbound_next, ..conn })
                &&& after.outbound_next == conn.outbound_next + 4
                &&& later > 0 ==> after.opening(later, waker).0 is Some && after.opening(
                    later,
                    waker,
                ).0->0 > res->0
                &&& res->0 & 2 == 0
                &&& (res->0 & 1 == 1) == conn.is_server
            }
        }),
{
    lemma_bits_of_a_stream_id(conn.outbound_next, conn.is_server);
}

/// An opened stream is handed out, and whoever waits for something to send is woken up; what the
/// protocol stack refuses is reported, and changes nothing.
pub proof fn lemma_opened_stream(conn: QuicConnView, stream_id: u64, err: QuicheError)
    ensures
        ({
            let (res, woken, after) = conn.opened(stream_id, Ok(()));
            &&& res == Ok::<QuicStream, ConnError>(QuicStream(stream_id))
            &&& woken == conn.send_waker
            &&& after == (QuicConnView { send_waker: None, ..conn })
        }),
        ({
            let (res, woken, after) = conn.opened(stream_id, Err(err));
            &&& res == Err::<QuicStream, ConnError>(ConnError::Stack(err))
            &&& woken is None
            &&& after == conn
        }),
{
}

/// Writing: what was written is reported, and whoever waits for something to send is woken up. When
/// nothing could be written, and only then, the task waits for the stream, and the next time that
/// the stream becomes writable it is woken up. Any other error is reported, and changes nothing.
pub proof fn lemma_writing_to_a_stream(
    conn: QuicConnView,
    id: u64,
    size: usize,
    err: QuicheError,
    waker: Waker,
    ids: Seq<u64>,
    left: u64,
)
    ensures
        ({
            let (res, woken, after) = conn.writing(id, Ok(size), waker);
            &&& res == ConnPoll::Ready(Ok::<usize, ConnError>(size))
            &&& woken == conn.send_waker
            &&& after == (QuicConnView { send_waker: None, ..conn })
        }),
        ({
            let (res, woken, after) = conn.writing(id, Err(err), waker);
            &&& woken is None
            &&& res == ConnPoll::<usize>::Pending <==> err == QuicheError::Done
            &&& err != QuicheError::Done ==> res == ConnPoll::Ready(
                Err::<usize, ConnError>(ConnError::Stack(err)),
            ) && after == conn
            &&& err == QuicheError::Done ==> {
                &&& after == (QuicConnView {
                    writable_wakers: conn.writable_wakers.insert(id, waker),
                    ..conn
                })
                &&& ids.contains(id) ==> after.all_writable(ids, left).0.contains(waker)
            }
        }),
{
    let after = conn.writing(id, Err(err), waker).2;
    if err == QuicheError::Done && ids.contains(id) {
        lemma_writers_of_writable_streams(after.writable_wakers, ids, id);
        let woken = waiting_for(after.writable_wakers, ids);
        let k = choose|k: int| 0 <= k < woken.len() && woken[k] == waker;
        assert(after.all_writable(ids, left).0[k] == waker);
    }
}

/// Reading: what was read is reported, and whoever waits for something to send is woken up. When
/// nothing could be read, and only then, the task waits for the stream, and the next time that the
/// stream, if it is known, becomes readable it is woken up. Any other error is reported, and changes
/// nothing.
pub proof fn lemma_reading_from_a_stream(
    conn: QuicConnView,
    id: u64,
    read: (usize, bool),
    err: QuicheError,
    waker: Waker,
    ids: Seq<u64>,
)
    ensures
        ({
            let (res, woken, after) = conn.reading(id, Ok(read), waker);
            &&& res == ConnPoll::Ready(Ok::<(usize, bool), ConnError>(read))
            &&& woken == conn.send_waker
            &&& after == (QuicConnView { send_waker: None, ..conn })
        }),
        ({
            let (res, woken, after) = conn.reading(id, Err(err), waker);
            let known = !(id & 2 == 0 && (id & 1 == 1) != conn.is_server && id
                > conn.inbound_current);
            &&& woken is None
            &&& res == ConnPoll::<(usize, bool)>::Pending <==> err == QuicheError::Done
            &&& err != QuicheError::Done ==> res == ConnPoll::Ready(
                Err::<(usize, bool), ConnError>(ConnError::Stack(err)),
            ) && after == conn
            &&& err == QuicheError::Done ==> {
                &&& after == (QuicConnView {
                    readable_wakers: conn.readable_wakers.insert(id, waker),
                    ..conn
                })
                &&& ids.contains(id) && known ==> after.woken_by_all_readable(ids).contains(waker)
            }
        }),
{
    if err == QuicheError::Done {
        lemma_readers_of_readable_streams(conn.reading(id, Err(err), waker).2, ids, id);
    }
}

/// Streams that become writable wake up the tasks that wait to write to them, and, if the peer lets
/// us open a stream, then the task that waits to open one; these tasks wait no longer, and nothing
/// else changes.
pub proof fn lemma_writable_streams(conn: QuicConnView, ids: Seq<u64>, left: u64, id: u64)
    ensures
        ({
            let (woken, after) = conn.all_writable(ids, left);
            let writers = waiting_for(conn.writable_wakers, ids);
            &&& left == 0 ==> woken == writers && after.open_stream_waker == conn.open_stream_waker
            &&& left > 0 && conn.open_stream_waker is None ==> woken == writers
            &&& left > 0 && conn.open_stream_waker is Some ==> woken == writers.push(
                conn.open_stream_waker->0,
            )
            &&& left > 0 ==> after.open_stream_waker is None
            &&& after.writable_wakers.contains_key(id) <==> conn.writable_wakers.contains_key(id)
                && !ids.contains(id)
            &&& after.writable_wakers.contains_key(id) ==> after.writable_wakers[id]
                == conn.writable_wakers[id]
            &&& after == (QuicConnView {
                writable_wakers: after.writable_wakers,
                open_stream_waker: after.open_stream_waker,
                ..conn
            })
        }),
{
    let writers = waiting_for(conn.writable_wakers, ids);
    let (woken, after) = conn.all_writable(ids, left);
    if left > 0 && conn.open_stream_waker is None {
        assert(woken =~= writers);
    }
    if left > 0 && conn.open_stream_waker is Some {
        assert(woken =~= writers.push(conn.open_stream_waker->0));
    }
}

/// Closing a connection wakes up whoever waits for something to send; one that is closed already is
/// no error, and any other error is reported. A packet that was processed wakes up the same task,
/// and one that was refused is reported.
pub proof fn lemma_closing_and_receiving(conn: QuicConnView, size: usize, err: QuicheError)
    ensures
        conn.shutting(Ok(())).0 == Ok::<Option<Waker>, ConnError>(conn.send_waker),
        conn.shutting(Ok(())).1 == (QuicConnView { send_waker: None, ..conn }),
        conn.shutting(Err(err)).0 == (if err == QuicheError::Done {
            Ok::<Option<Waker>, ConnError>(None)
        } else {
            Err(ConnError::Stack(err))
        }),
        conn.shutting(Err(err)).1 == conn,
        conn.receiving(Ok(size)).0 == Ok::<usize, ConnError>(size),
        conn.send_waker is Some ==> conn.receiving(Ok(size)).1 == seq![conn.send_waker->0],
        conn.send_waker is None ==> conn.receiving(Ok(size)).1.len() == 0,
        conn.receiving(Ok(size)).2 == (QuicConnView { send_waker: None, ..conn }),
        conn.receiving(Err(err)).0 == Err::<usize, ConnError>(ConnError::Stack(err)),
        conn.receiving(Err(err)).1.len() == 0,
        conn.receiving(Err(err)).2 == conn,
        conn.sender_woken() == (QuicConnView { send_waker: None, ..conn }),
{
}

/// A drained stream is forgotten if and only if nothing is left of it.
pub proof fn lemma_drained_stream(conn: QuicConnView, id: u64, finished: bool, other: u64)
    ensures
        ({
            let after = conn.drained(id, finished);
            &&& after.closing.contains_key(other) <==> conn.closing.contains_key(other) && !(finished
                && other == id)
            &&& after.closing.contains_key(other) ==> after.closing[other] == conn.closing[other]
            &&& after == (QuicConnView { closing: after.closing, ..conn })
        }),
{
}

/// A request for the next packet: a packet is handed out; nothing to send is never an error, but on
/// a closed connection; any other error is reported. If there is nothing to send, the task waits for
/// something to send, unless the timeout has come already, and then the protocol stack has to be
/// told.
pub proof fn lemma_asking_for_a_packet<T>(
    conn: QuicConnView,
    packet: T,
    err: QuicheError,
    is_closed: bool,
    timeout: Option<u128>,
    reactor: ReactorView,
    waker: Waker,
    free: usize,
)
    requires
        reactor.tick_interval > 0,
        !reactor.readable.contains_key(free),
        !reactor.writable.contains_key(free),
    ensures
        ({
            let (res, after) = conn.sending(Ok(packet), is_closed, timeout, reactor, waker);
            res == SendPoll::Ready(Ok::<T, ConnError>(packet)) && after == conn
        }),
        ({
            let sent = Err::<T, QuicheError>(err);
            let (res, after) = conn.sending(sent, is_closed, timeout, reactor, waker);
            let done = err == QuicheError::Done;
            let late = timeout matches Some(deadline) && low_64_bits(deadline) <= reactor.ticks
                * reactor.tick_interval;
            &&& !done ==> res == SendPoll::Ready(Err::<T, ConnError>(ConnError::Stack(err)))
            &&& done && is_closed ==> res == SendPoll::Ready(Err::<T, ConnError>(ConnError::Closed))
            &&& done && !is_closed && late ==> res == SendPoll::<T>::OnTimeout
            &&& done && !is_closed && !late ==> res == SendPoll::<T>::Pending
            &&& res == SendPoll::<T>::Pending ==> after == (QuicConnView {
                send_waker: Some(waker),
                ..conn
            })
            &&& res != SendPoll::<T>::Pending ==> after == conn
        }),
{
    if let Some(deadline) = timeout {
        lemma_timer_waits_for_its_deadline(reactor, deadline);
    }
    assert(!reactor.used(free as int));
}

/// A connection that asks for the next packet gives up its timer: the timer is not known any more,
/// and no task waits for something to send. The protocol stack has to be told if and only if there
/// was a timer that does not wait any more.
pub proof fn lemma_giving_up_a_timer(
    conn: QuicConnView,
    reactor: ReactorView,
    waker: Waker,
    timer: usize,
)
    ensures
        conn.on_timeout_timer is None ==> conn.giving_up_timer(reactor, waker) == (
            false,
            conn,
            reactor,
        ),
        conn.on_timeout_timer == Some(Token(timer)) ==> {
            let (told, after, left) = conn.giving_up_timer(reactor, waker);
            &&& told <==> reactor.timer_poll(Token(timer)) != TimerPoll::Pending
            &&& after == (QuicConnView { on_timeout_timer: None, send_waker: None, ..conn })
            &&& !left.readable.contains_key(timer)
            &&& left.readable == reactor.readable.remove(timer)
            &&& left.writable == reactor.writable
            &&& left.timer_poll(Token(timer)) == TimerPoll::Ready(
                Err(ReactorError::TimerNotFound(Token(timer))),
            )
        },
{
    if conn.on_timeout_timer == Some(Token(timer)) {
        assert(conn.giving_up_timer(reactor, waker).2.readable =~= reactor.readable.remove(timer));
    }
}

/// A new connection has no streams to accept, no waiting tasks, no timer and no streams that are
/// closing. The first stream that it opens is the second bidirectional one of its side.
pub proof fn lemma_new_connection(is_server: bool, id: u64)
    ensures
        ({
            let conn = QuicConnView::beginning(is_server);
            &&& conn.is_server == is_server
            &&& conn.outbound_next / 4 == 1
            &&& conn.outbound_next & 2 == 0
            &&& conn.outbound_next & 1 == (if is_server {
                1u64
            } else {
                0u64
            })
            &&& conn.inbound_current == 0
            &&& conn.fifo.len() == 0
            &&& !conn.readable_wakers.contains_key(id)
            &&& !conn.writable_wakers.contains_key(id)
            &&& !conn.closing.contains_key(id)
            &&& conn.send_waker is None && conn.fifo_waker is None
            &&& conn.open_stream_waker is None && conn.on_timeout_timer is None
        }),
{
    assert(5u64 & 2 == 0 && 4u64 & 2 == 0 && 5u64 & 1 == 1 && 4u64 & 1 == 0) by (bit_vector);
}

} // verus!
