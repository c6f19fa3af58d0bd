//! The state of a QUIC connection: its streams, and the tasks that wait for them.
//!
//! The protocol stack belongs to the caller. It tells the state what the stack has answered, and the
//! state decides which tasks to park, which to wake up, and what to ask the stack next.

use std::collections::{HashMap, VecDeque};
use std::task::Waker;

use crate::errors::{ErrorKind, QuicheError};
use crate::heap::MinHeap;
use crate::reactor::{Interest, IoState, Reactor, ReactorView, TimerPoll};
use crate::token::Token;
use vstd::prelude::*;
use vstd::relations::{sorted_by, total_ordering};

verus! {

broadcast use vstd::std_specs::hash::group_hash_axioms;

/// The stream was created locally.
pub open spec fn spec_is_local(stream_id: u64, is_server: bool) -> bool {
    stream_id % 2 == (if is_server {
        1u64
    } else {
        0u64
    })
}

/// The stream is bidirectional.
pub open spec fn spec_is_bidi(stream_id: u64) -> bool {
    (stream_id / 2) % 2 == 0
}

/// Returns true if the stream was created locally.
pub fn is_local(stream_id: u64, is_server: bool) -> (res: bool)
    ensures
        res == spec_is_local(stream_id, is_server),
{
    assert(stream_id & 0x1 == stream_id % 2) by (bit_vector);
    (stream_id & 0x1) == (if is_server {
        1
    } else {
        0
    })
}

/// Returns true if the stream is bidirectional.
pub fn is_bidi(stream_id: u64) -> (res: bool)
    ensures
        res == spec_is_bidi(stream_id),
{
    assert((stream_id & 0x2 == 0) == ((stream_id / 2) % 2 == 0)) by (bit_vector);
    (stream_id & 0x2) == 0
}

/// The order of stream identifiers.
pub open spec fn id_order() -> spec_fn(u64, u64) -> bool {
    |a: u64, b: u64| a <= b
}

/// The ascending identifiers `sorted` together with `id`, in ascending order.
pub open spec fn inserted(sorted: Seq<u64>, id: u64) -> Seq<u64>
    decreases sorted.len(),
{
    if sorted.len() == 0 || sorted.last() <= id {
        sorted.push(id)
    } else {
        inserted(sorted.drop_last(), id).push(sorted.last())
    }
}

/// `ids` in ascending order.
pub open spec fn ascending(ids: Seq<u64>) -> Seq<u64>
    decreases ids.len(),
{
    if ids.len() == 0 {
        ids
    } else {
        inserted(ascending(ids.drop_last()), ids.last())
    }
}

/// Every identifier is larger than those before it.
pub open spec fn strictly_ascending(ids: Seq<u64>) -> bool {
    forall|i: int, j: int| 0 <= i < j < ids.len() ==> ids[i] < ids[j]
}

/// The task in `waker`.
pub open spec fn one(waker: Option<Waker>) -> Seq<Waker> {
    match waker {
        Some(waker) => seq![waker],
        None => Seq::empty(),
    }
}

/// The tasks that wait for the streams `ids`, each in the place of the first event for its stream.
pub open spec fn waiting_for(wakers: Map<u64, Waker>, ids: Seq<u64>) -> Seq<Waker>
    decreases ids.len(),
{
    if ids.len() == 0 {
        Seq::empty()
    } else {
        let seen = ids.drop_last();
        waiting_for(wakers, seen) + (if wakers.contains_key(ids.last()) && !seen.contains(
            ids.last(),
        ) {
            seq![wakers[ids.last()]]
        } else {
            Seq::empty()
        })
    }
}

/// What is known of a connection.
#[verifier::ext_equal]
pub struct QuicConnView {
    /// The connection was accepted, not opened.
    pub is_server: bool,
    /// The identifier of the next outbound bidirectional stream.
    pub outbound_next: u64,
    /// The biggest inbound stream ID currently seen.
    pub inbound_current: u64,
    /// The inbound streams that nobody has accepted yet.
    pub fifo: Seq<u64>,
    /// The tasks that wait to read from a stream.
    pub readable_wakers: Map<u64, Waker>,
    /// The tasks that wait to write to a stream.
    pub writable_wakers: Map<u64, Waker>,
    /// The task that waits for something to send.
    pub send_waker: Option<Waker>,
    /// The task that waits for an inbound stream.
    pub fifo_waker: Option<Waker>,
    /// The task that waits to open a stream.
    pub open_stream_waker: Option<Waker>,
    /// The timer that waits for the timeout of the connection.
    pub on_timeout_timer: Option<Token>,
    /// The streams that are being closed, and since when.
    pub closing: Map<u64, u128>,
}

impl QuicConnView {
    /// The state of a connection that nothing has happened on.
    pub open spec fn beginning(is_server: bool) -> QuicConnView {
        QuicConnView {
            is_server,
            outbound_next: if is_server {
                5
            } else {
                4
            },
            inbound_current: 0,
            fifo: Seq::empty(),
            readable_wakers: Map::empty(),
            writable_wakers: Map::empty(),
            send_waker: None,
            fifo_waker: None,
            open_stream_waker: None,
            on_timeout_timer: None,
            closing: Map::empty(),
        }
    }

    /// The streams that wait to be accepted are inbound, bidirectional and known, in the order of
    /// their identifiers, and the next outbound stream is local and bidirectional.
    pub open spec fn wf(self) -> bool {
        &&& strictly_ascending(self.fifo)
        &&& forall|i: int|
            0 <= i < self.fifo.len() ==> #[trigger] self.fifo[i] <= self.inbound_current
                && spec_is_bidi(self.fifo[i]) && !spec_is_local(self.fifo[i], self.is_server)
        &&& self.outbound_next >= 4
        &&& spec_is_bidi(self.outbound_next)
        &&& spec_is_local(self.outbound_next, self.is_server)
    }

    /// `id` is a bidirectional stream that the peer has opened, and is seen for the first time.
    pub open spec fn is_new_inbound(self, id: u64) -> bool {
        &&& spec_is_bidi(id)
        &&& !spec_is_local(id, self.is_server)
        &&& self.inbound_current < id
    }

    /// The connection after stream `id` has become readable.
    pub open spec fn readable(self, id: u64) -> QuicConnView {
        if self.is_new_inbound(id) {
            QuicConnView { inbound_current: id, fifo: self.fifo.push(id), ..self }
        } else {
            QuicConnView { readable_wakers: self.readable_wakers.remove(id), ..self }
        }
    }

    /// The tasks to wake up when stream `id` becomes readable.
    pub open spec fn woken_by_readable(self, id: u64) -> Seq<Waker> {
        if !self.is_new_inbound(id) && self.readable_wakers.contains_key(id) {
            seq![self.readable_wakers[id]]
        } else {
            Seq::empty()
        }
    }

    /// The streams to drain when stream `id` becomes readable.
    pub open spec fn drained_by_readable(self, id: u64) -> Seq<u64> {
        if !self.is_new_inbound(id) && !self.readable_wakers.contains_key(id)
            && self.closing.contains_key(id) {
            seq![id]
        } else {
            Seq::empty()
        }
    }

    /// The connection after the streams `ids` have become readable, one after the other.
    pub open spec fn all_readable(self, ids: Seq<u64>) -> QuicConnView
        decreases ids.len(),
    {
        if ids.len() == 0 {
            self
        } else {
            self.all_readable(ids.drop_last()).readable(ids.last())
        }
    }

    /// The tasks to wake up when the streams `ids` become readable.
    pub open spec fn woken_by_all_readable(self, ids: Seq<u64>) -> Seq<Waker>
        decreases ids.len(),
    {
        if ids.len() == 0 {
            Seq::empty()
        } else {
            self.woken_by_all_readable(ids.drop_last()) + self.all_readable(
                ids.drop_last(),
            ).woken_by_readable(ids.last())
        }
    }

    /// The streams to drain when the streams `ids` become readable.
    pub open spec fn drained_by_all_readable(self, ids: Seq<u64>) -> Seq<u64>
        decreases ids.len(),
    {
        if ids.len() == 0 {
            Seq::empty()
        } else {
            self.drained_by_all_readable(ids.drop_last()) + self.all_readable(
                ids.drop_last(),
            ).drained_by_readable(ids.last())
        }
    }

    /// The task that waits for an inbound stream, if there is one to accept.
    pub open spec fn acceptor(self) -> Option<Waker> {
        if self.fifo.len() > 0 {
            self.fifo_waker
        } else {
            None
        }
    }

    /// The connection after the task that waits for an inbound stream has been told of one.
    pub open spec fn acceptor_told(self) -> QuicConnView {
        if self.fifo.len() > 0 {
            QuicConnView { fifo_waker: None, ..self }
        } else {
            self
        }
    }
}

/// Inserting keeps the order, and adds nothing but the new identifier.
proof fn lemma_inserted(sorted: Seq<u64>, id: u64)
    requires
        sorted_by(sorted, id_order()),
    ensures
        sorted_by(inserted(sorted, id), id_order()),
        inserted(sorted, id).to_multiset() == sorted.to_multiset().insert(id),
        inserted(sorted, id).last() == (if sorted.len() > 0 && sorted.last() > id {
            sorted.last()
        } else {
            id
        }),
        inserted(sorted, id).len() == sorted.len() + 1,
    decreases sorted.len(),
{
    broadcast use vstd::multiset::group_multiset_axioms;

    let result = inserted(sorted, id);
    if sorted.len() == 0 || sorted.last() <= id {
        vstd::seq_lib::to_multiset_build(sorted, id);
        assert forall|i: int, j: int| 0 <= i < j < result.len() implies #[trigger] (id_order())(
            result[i],
            result[j],
        ) by {
            if j < sorted.len() {
                assert((id_order())(sorted[i], sorted[j]));
            } else if i < sorted.len() - 1 {
                assert((id_order())(sorted[i], sorted[sorted.len() - 1]));
            }
        }
    } else {
        let first = sorted.drop_last();
        let before = inserted(first, id);
        assert forall|i: int, j: int| 0 <= i < j < first.len() implies #[trigger] (id_order())(
            first[i],
            first[j],
        ) by {
            assert((id_order())(sorted[i], sorted[j]));
        }
        lemma_inserted(first, id);
        vstd::seq_lib::to_multiset_build(before, sorted.last());
        vstd::seq_lib::to_multiset_build(first, sorted.last());
        assert(sorted =~= first.push(sorted.last()));
        assert(result.to_multiset() =~= sorted.to_multiset().insert(id));
        if first.len() > 0 {
            assert((id_order())(sorted[first.len() - 1], sorted[sorted.len() - 1]));
        }
        assert forall|i: int, j: int| 0 <= i < j < result.len() implies #[trigger] (id_order())(
            result[i],
            result[j],
        ) by {
            if j < before.len() {
                assert((id_order())(before[i], before[j]));
            } else if i < before.len() - 1 {
                assert((id_order())(before[i], before[before.len() - 1]));
            }
        }
    }
}

/// Sorting puts the same identifiers into order.
pub proof fn lemma_ascending(ids: Seq<u64>)
    ensures
        total_ordering(id_order()),
        sorted_by(ascending(ids), id_order()),
        ascending(ids).to_multiset() == ids.to_multiset(),
    decreases ids.len(),
{
    broadcast use vstd::multiset::group_multiset_axioms;

    assert(total_ordering(id_order()));
    if ids.len() > 0 {
        lemma_ascending(ids.drop_last());
        lemma_inserted(ascending(ids.drop_last()), ids.last());
        vstd::seq_lib::to_multiset_build(ids.drop_last(), ids.last());
        assert(ids =~= ids.drop_last().push(ids.last()));
    }
}

/// Returns `ids` in ascending order.
fn sort(ids: Vec<u64>) -> (sorted: Vec<u64>)
    ensures
        sorted@ == ascending(ids@),
{
    broadcast use vstd::multiset::group_multiset_axioms;

    let mut heap = MinHeap::new();
    let mut i: usize = 0;
    proof {
        vstd::seq_lib::to_multiset_len(ids@.take(0));
        assert(heap@ =~= ids@.take(0).to_multiset());
    }
    while i < ids.len()
        invariant
            i <= ids@.len(),
            heap.wf(),
            heap@ == ids@.take(i as int).to_multiset(),
        decreases ids.len() - i,
    {
        proof {
            vstd::seq_lib::to_multiset_build(ids@.take(i as int), ids@[i as int]);
            assert(ids@.take(i + 1) =~= ids@.take(i as int).push(ids@[i as int]));
        }
        heap.push(ids[i]);
        i = i + 1;
    }
    assert(ids@.take(ids@.len() as int) =~= ids@);
    let mut sorted: Vec<u64> = Vec::new();
    proof {
        vstd::seq_lib::to_multiset_len(sorted@);
        assert(sorted@.to_multiset().add(heap@) =~= ids@.to_multiset());
    }
    loop
        invariant
            heap.wf(),
            sorted@.to_multiset().add(heap@) == ids@.to_multiset(),
            sorted_by(sorted@, id_order()),
            forall|i: int, key: u64|
                0 <= i < sorted@.len() && #[trigger] heap@.contains(key) ==> #[trigger] sorted@[i]
                    <= key,
        ensures
            sorted@.to_multiset() == ids@.to_multiset(),
            sorted_by(sorted@, id_order()),
        decreases heap@.len(),
    {
        let ghost before = heap@;
        let ghost known = sorted@;
        match heap.pop() {
            Some(id) => {
                sorted.push(id);
                proof {
                    vstd::seq_lib::to_multiset_build(known, id);
                    assert(sorted@.to_multiset().add(heap@) =~= ids@.to_multiset());
                    assert forall|i: int, j: int| 0 <= i < j < sorted@.len() implies #[trigger] (
                    id_order())(sorted@[i], sorted@[j]) by {
                        if j < known.len() {
                            assert((id_order())(known[i], known[j]));
                        }
                    }
                    assert forall|i: int, key: u64|
                        0 <= i < sorted@.len() && #[trigger] heap@.contains(
                            key,
                        ) implies #[trigger] sorted@[i] <= key by {
                        assert(before.contains(key));
                    }
                }
            },
            None => {
                proof {
                    assert(sorted@.to_multiset() =~= ids@.to_multiset());
                }
                break;
            },
        }
    }
    proof {
        lemma_ascending(ids@);
        vstd::seq_lib::lemma_sorted_unique(sorted@, ascending(ids@), id_order());
    }
    sorted
}

/// Why a request on a connection fails.
#[derive(Clone, Copy, Debug, PartialEq, Eq, Structural)]
pub enum ConnError {
    /// The connection is closed.
    Closed,
    /// The protocol stack has refused the request.
    Stack(QuicheError),
}

impl ConnError {
    /// The category of the error.
    pub open spec fn spec_kind(self) -> ErrorKind {
        match self {
            ConnError::Closed => ErrorKind::BrokenPipe,
            ConnError::Stack(_) => ErrorKind::Other,
        }
    }

    /// Returns the category of the error.
    pub fn kind(&self) -> (kind: ErrorKind)
        ensures
            kind == self.spec_kind(),
    {
        match self {
            ConnError::Closed => ErrorKind::BrokenPipe,
            ConnError::Stack(_) => ErrorKind::Other,
        }
    }
}

/// What becomes of a request on a connection.
pub enum ConnPoll<T> {
    /// The request is answered.
    Ready(Result<T, ConnError>),
    /// The task is parked.
    Pending,
}

/// What becomes of a request for the next packet.
pub enum SendPoll<T> {
    /// The request is answered.
    Ready(Result<T, ConnError>),
    /// The timeout of the connection has passed: tell the protocol stack, then ask it again.
    OnTimeout,
    /// The task is parked.
    Pending,
    /// Every token of the reactor is in use, so that there is none for a timer.
    NoToken,
}

/// The requests on a connection: what comes of each, and the connection after it.
impl QuicConnView {
    /// The connection after the task that waits for something to send has been woken up.
    pub open spec fn sender_woken(self) -> QuicConnView {
        QuicConnView { send_waker: None, ..self }
    }

    /// What comes of accepting a stream.
    pub open spec fn accepting(self, is_closed: bool, waker: Waker) -> (
        ConnPoll<QuicStream>,
        QuicConnView,
    ) {
        if is_closed {
            (ConnPoll::Ready(Err(ConnError::Closed)), self)
        } else if self.fifo.len() == 0 {
            (ConnPoll::Pending, QuicConnView { fifo_waker: Some(waker), ..self })
        } else {
            (
                ConnPoll::Ready(Ok(QuicStream(self.fifo.first()))),
                QuicConnView { fifo: self.fifo.drop_first(), ..self },
            )
        }
    }

    /// What comes of taking the identifier of a new outbound stream.
    pub open spec fn opening(self, peer_streams_left_bidi: u64, waker: Waker) -> (
        Option<u64>,
        QuicConnView,
    ) {
        if peer_streams_left_bidi == 0 {
            (None, QuicConnView { open_stream_waker: Some(waker), ..self })
        } else {
            (
                Some(self.outbound_next),
                QuicConnView { outbound_next: (self.outbound_next + 4) as u64, ..self },
            )
        }
    }

    /// What comes of opening the outbound stream `stream_id`.
    pub open spec fn opened(self, stream_id: u64, created: Result<(), QuicheError>) -> (
        Result<QuicStream, ConnError>,
        Option<Waker>,
        QuicConnView,
    ) {
        match created {
            Ok(_) => (Ok(QuicStream(stream_id)), self.send_waker, self.sender_woken()),
            Err(err) => (Err(ConnError::Stack(err)), None, self),
        }
    }

    /// What comes of writing to stream `id`.
    pub open spec fn writing(self, id: u64, sent: Result<usize, QuicheError>, waker: Waker) -> (
        ConnPoll<usize>,
        Option<Waker>,
        QuicConnView,
    ) {
        match sent {
            Ok(size) => (ConnPoll::Ready(Ok(size)), self.send_waker, self.sender_woken()),
            Err(err) => if err == QuicheError::Done {
                (
                    ConnPoll::Pending,
                    None,
                    QuicConnView { writable_wakers: self.writable_wakers.insert(id, waker), ..self },
                )
            } else {
                (ConnPoll::Ready(Err(ConnError::Stack(err))), None, self)
            },
        }
    }

    /// What comes of reading from stream `id`.
    pub open spec fn reading(
        self,
        id: u64,
        received: Result<(usize, bool), QuicheError>,
        waker: Waker,
    ) -> (ConnPoll<(usize, bool)>, Option<Waker>, QuicConnView) {
        match received {
            Ok(read) => (ConnPoll::Ready(Ok(read)), self.send_waker, self.sender_woken()),
            Err(err) => if err == QuicheError::Done {
                (
                    ConnPoll::Pending,
                    None,
                    QuicConnView { readable_wakers: self.readable_wakers.insert(id, waker), ..self },
                )
            } else {
                (ConnPoll::Ready(Err(ConnError::Stack(err))), None, self)
            },
        }
    }

    /// What comes of closing the connection.
    pub open spec fn shutting(self, closed: Result<(), QuicheError>) -> (
        Result<Option<Waker>, ConnError>,
        QuicConnView,
    ) {
        match closed {
            Ok(_) => (Ok(self.send_waker), self.sender_woken()),
            Err(err) => if err == QuicheError::Done {
                (Ok(None), self)
            } else {
                (Err(ConnError::Stack(err)), self)
            },
        }
    }

    /// What comes of a packet that was received, and the tasks to wake up.
    pub open spec fn receiving(self, received: Result<usize, QuicheError>) -> (
        Result<usize, ConnError>,
        Seq<Waker>,
        QuicConnView,
    ) {
        match received {
            Ok(size) => (Ok(size), one(self.send_waker), self.sender_woken()),
            Err(err) => (Err(ConnError::Stack(err)), Seq::empty(), self),
        }
    }

    /// What comes of streams that have become writable: the tasks to wake up.
    pub open spec fn all_writable(self, ids: Seq<u64>, peer_streams_left_bidi: u64) -> (
        Seq<Waker>,
        QuicConnView,
    ) {
        let written = QuicConnView {
            writable_wakers: self.writable_wakers.remove_keys(ids.to_set()),
            ..self
        };
        if peer_streams_left_bidi == 0 {
            (waiting_for(self.writable_wakers, ids), written)
        } else {
            (
                waiting_for(self.writable_wakers, ids) + one(self.open_stream_waker),
                QuicConnView { open_stream_waker: None, ..written },
            )
        }
    }

    /// What comes of a request for the next packet, when the protocol stack has answered `sent`.
    pub open spec fn sending<T>(
        self,
        sent: Result<T, QuicheError>,
        is_closed: bool,
        timeout: Option<u128>,
        reactor: ReactorView,
        send_waker: Waker,
    ) -> (SendPoll<T>, QuicConnView) {
        let parked = QuicConnView { send_waker: Some(send_waker), ..self };
        match sent {
            Ok(packet) => (SendPoll::Ready(Ok(packet)), self),
            Err(err) => if err != QuicheError::Done {
                (SendPoll::Ready(Err(ConnError::Stack(err))), self)
            } else if is_closed {
                (SendPoll::Ready(Err(ConnError::Closed)), self)
            } else {
                match timeout {
                    None => (SendPoll::Pending, parked),
                    Some(deadline) => if forall|token: usize| #[trigger]
                        reactor.used(token as int) {
                        (SendPoll::NoToken, self)
                    } else if reactor.slot_of(deadline) > reactor.ticks {
                        (SendPoll::Pending, parked)
                    } else {
                        (SendPoll::OnTimeout, self)
                    },
                }
            },
        }
    }

    /// What comes of giving up the timer that waits for the timeout of the connection: whether it
    /// has expired.
    pub open spec fn giving_up_timer(self, reactor: ReactorView, waker: Waker) -> (
        bool,
        QuicConnView,
        ReactorView,
    ) {
        match self.on_timeout_timer {
            None => (false, self, reactor),
            Some(timer) => (
                reactor.timer_poll(timer) is Ready,
                QuicConnView { on_timeout_timer: None, send_waker: None, ..self },
                reactor.after_timer_poll(timer, waker).without_token(
                    timer.0,
                    (Interest { readable: true, writable: false }),
                ),
            ),
        }
    }

    /// The connection after the closing stream `id` was drained.
    pub open spec fn drained(self, id: u64, finished: bool) -> QuicConnView {
        if finished {
            QuicConnView { closing: self.closing.remove(id), ..self }
        } else {
            self
        }
    }
}

/// What the answer of the protocol stack says of a stream that is being drained.
pub open spec fn spec_closing_recv(received: Result<(usize, bool), QuicheError>) -> Option<bool> {
    match received {
        Ok((_, fin)) => if fin {
            Some(true)
        } else {
            None
        },
        Err(err) => Some(err != QuicheError::Done),
    }
}

/// Decides what the answer of the protocol stack says of a stream that is being drained.
///
/// Returns `Some(true)` if nothing is left of the stream, `Some(false)` if more data is still to
/// come, and `None` if there may be more data to read at once.
pub fn closing_recv(received: Result<(usize, bool), QuicheError>) -> (res: Option<bool>)
    ensures
        res == spec_closing_recv(received),
{
    match received {
        Ok((_, fin)) => {
            if fin {
                return Some(true);
            }
            None
        },
        Err(QuicheError::Done) => Some(false),
        Err(_) => Some(true),
    }
}

/// The state of a connection.
pub struct QuicConnState {
    /// The connection was accepted, not opened.
    is_server: bool,
    /// generator for outbound bidirectional stream id.
    outbound_bidi_stream_id_next: u64,
    /// The biggest inbound stream ID currently seen.
    inbound_stream_id_current: u64,
    /// fifo queue for first seen inbound stream IDs.
    incoming_stream_id_fifo: VecDeque<u64>,
    /// wakers for stream reading events.
    stream_readable_wakers: HashMap<u64, Waker>,
    /// wakers for stream writting events.
    stream_writable_wakers: HashMap<u64, Waker>,
    /// waker for `poll_send`
    send_waker: Option<Waker>,
    /// waker for fifo receiver.
    fifo_waker: Option<Waker>,
    /// open stream waker.
    open_stream_waker: Option<Waker>,
    /// wait for calling on_timeout.
    on_timeout_timer: Option<Token>,
    /// closing stream set.
    closing_stream_set: HashMap<u64, u128>,
}

impl View for QuicConnState {
    type V = QuicConnView;

    closed spec fn view(&self) -> QuicConnView {
        QuicConnView {
            is_server: self.is_server,
            outbound_next: self.outbound_bidi_stream_id_next,
            inbound_current: self.inbound_stream_id_current,
            fifo: self.incoming_stream_id_fifo@,
            readable_wakers: self.stream_readable_wakers@,
            writable_wakers: self.stream_writable_wakers@,
            send_waker: self.send_waker,
            fifo_waker: self.fifo_waker,
            open_stream_waker: self.open_stream_waker,
            on_timeout_timer: self.on_timeout_timer,
            closing: self.closing_stream_set@,
        }
    }
}

impl QuicConnState {
    /// Creates the state of a new connection.
    pub fn new(is_server: bool) -> (state: QuicConnState)
        ensures
            state@.wf(),
            state@ == QuicConnView::beginning(is_server),
            state@ == (QuicConnView {
                is_server,
                outbound_next: if is_server {
                    5
                } else {
                    4
                },
                inbound_current: 0,
                fifo: Seq::empty(),
                readable_wakers: Map::empty(),
                writable_wakers: Map::empty(),
                send_waker: None,
                fifo_waker: None,
                open_stream_waker: None,
                on_timeout_timer: None,
                closing: Map::empty(),
            }),
    {
        let outbound_bidi_stream_id_next: u64 = if is_server {
            5
        } else {
            4
        };
        QuicConnState {
            is_server,
            outbound_bidi_stream_id_next,
            inbound_stream_id_current: 0,
            incoming_stream_id_fifo: VecDeque::new(),
            stream_readable_wakers: HashMap::new(),
            stream_writable_wakers: HashMap::new(),
            send_waker: None,
            fifo_waker: None,
            open_stream_waker: None,
            on_timeout_timer: None,
            closing_stream_set: HashMap::new(),
        }
    }

    /// Takes in the streams `ids` that have become readable.
    ///
    /// Returns the tasks to wake up, and the streams to drain.
    pub fn streams_readable(&mut self, ids: Vec<u64>) -> (res: (Vec<Waker>, Vec<u64>))
        requires
            old(self)@.wf(),
        ensures
            final(self)@.wf(),
            ({
                let after = old(self)@.all_readable(ascending(ids@));
                &&& final(self)@ == after.acceptor_told()
                &&& res.0@ == old(self)@.woken_by_all_readable(ascending(ids@)) + one(
                    after.acceptor(),
                )
                &&& res.1@ == old(self)@.drained_by_all_readable(ascending(ids@))
            }),
    {
        let ids = sort(ids);
        let mut wakers: Vec<Waker> = Vec::new();
        let mut closing: Vec<u64> = Vec::new();
        let mut i: usize = 0;
        while i < ids.len()
            invariant
                i <= ids@.len(),
                self@.wf(),
                self@ == old(self)@.all_readable(ids@.take(i as int)),
                wakers@ == old(self)@.woken_by_all_readable(ids@.take(i as int)),
                closing@ == old(self)@.drained_by_all_readable(ids@.take(i as int)),
            decreases ids.len() - i,
        {
            let id: u64 = ids[i];
            let ghost before = self@;
            proof {
                assert(ids@.take(i + 1).drop_last() =~= ids@.take(i as int));
                assert(ids@.take(i + 1).last() == id);
            }
            i = i + 1;
            if is_bidi(id) && !is_local(id, self.is_server) && self.inbound_stream_id_current < id {
                self.inbound_stream_id_current = id;
                self.incoming_stream_id_fifo.push_back(id);
                assert(self@ =~= before.readable(id));
                assert(self@.wf());
                continue;
            }
            if let Some(waker) = self.stream_readable_wakers.remove(&id) {
                wakers.push(waker);
                assert(self@ =~= before.readable(id));
                continue;
            }
            if self.closing_stream_set.contains_key(&id) {
                closing.push(id);
            }
            assert(self@ =~= before.readable(id));
        }
        assert(ids@.take(ids@.len() as int) =~= ids@);
        if self.incoming_stream_id_fifo.len() > 0 {
            if let Some(waker) = self.fifo_waker.take() {
                wakers.push(waker);
            }
        }
        (wakers, closing)
    }

    /// Takes in that the closing stream `id` has been drained, and whether nothing is left of it.
    pub fn stream_drained(&mut self, id: u64, finished: bool)
        requires
            old(self)@.wf(),
        ensures
            final(self)@.wf(),
            final(self)@ == old(self)@.drained(id, finished),
            final(self)@ == (QuicConnView {
                closing: if finished {
                    old(self)@.closing.remove(id)
                } else {
                    old(self)@.closing
                },
                ..old(self)@
            }),
    {
        if finished {
            let _ = self.closing_stream_set.remove(&id);
        }
    }

    /// Takes in the streams `ids` that have become writable, and how many streams the peer lets us
    /// open.
    ///
    /// Returns the tasks to wake up.
    pub fn streams_writable(&mut self, ids: Vec<u64>, peer_streams_left_bidi: u64) -> (wakers: Vec<
        Waker,
    >)
        requires
            old(self)@.wf(),
        ensures
            final(self)@.wf(),
            (wakers@, final(self)@) == old(self)@.all_writable(ids@, peer_streams_left_bidi),
            final(self)@ == (QuicConnView {
                writable_wakers: old(self)@.writable_wakers.remove_keys(ids@.to_set()),
                open_stream_waker: if peer_streams_left_bidi > 0 {
                    None
                } else {
                    old(self)@.open_stream_waker
                },
                ..old(self)@
            }),
            wakers@ == waiting_for(old(self)@.writable_wakers, ids@) + (if peer_streams_left_bidi
                > 0 {
                one(old(self)@.open_stream_waker)
            } else {
                Seq::empty()
            }),
    {
        let mut wakers: Vec<Waker> = Vec::new();
        let mut i: usize = 0;
        let ghost all = self@.writable_wakers;
        assert(all.remove_keys(ids@.take(0).to_set()) =~= all);
        while i < ids.len()
            invariant
                i <= ids@.len(),
                all == old(self)@.writable_wakers,
                self@ == (QuicConnView {
                    writable_wakers: all.remove_keys(ids@.take(i as int).to_set()),
                    ..old(self)@
                }),
                wakers@ == waiting_for(all, ids@.take(i as int)),
            decreases ids.len() - i,
        {
            let id: u64 = ids[i];
            let ghost seen = ids@.take(i as int);
            let ghost left = self@.writable_wakers;
            proof {
                assert(ids@.take(i + 1).drop_last() =~= seen);
                assert(ids@.take(i + 1) =~= seen.push(id));
                assert forall|other: u64| #[trigger]
                    ids@.take(i + 1).to_set().contains(other) <==> (seen.to_set().contains(other)
                        || other == id) by {
                    if seen.contains(other) {
                        let k = choose|k: int| 0 <= k < seen.len() && seen[k] == other;
                        assert(ids@.take(i + 1)[k] == other);
                    }
                    assert(ids@.take(i + 1)[i as int] == id);
                }
                assert(all.remove_keys(ids@.take(i + 1).to_set()) =~= left.remove(id));
                assert(left.contains_key(id) <==> all.contains_key(id) && !seen.contains(id));
            }
            if let Some(waker) = self.stream_writable_wakers.remove(&id) {
                wakers.push(waker);
            }
            assert(self@.writable_wakers =~= left.remove(id));
            assert(wakers@ =~= waiting_for(all, ids@.take(i + 1)));
            i = i + 1;
        }
        assert(ids@.take(ids@.len() as int) =~= ids@);
        if peer_streams_left_bidi > 0 {
            if let Some(waker) = self.open_stream_waker.take() {
                wakers.push(waker);
            }
        }
        wakers
    }

    /// Takes the task that waits for something to send, to wake it up.
    pub fn wake_sender(&mut self) -> (waker: Option<Waker>)
        requires
            old(self)@.wf(),
        ensures
            final(self)@.wf(),
            final(self)@ == old(self)@.sender_woken(),
            final(self)@ == (QuicConnView { send_waker: None, ..old(self)@ }),
            waker == old(self)@.send_waker,
    {
        self.send_waker.take()
    }

    /// Returns the timer that waits for the timeout of the connection.
    pub fn on_timeout_timer(&self) -> (timer: Option<Token>)
        ensures
            timer == self@.on_timeout_timer,
    {
        self.on_timeout_timer
    }

    /// Starts a request for the next packet: gives up the timer that waits for the timeout of the
    /// connection.
    ///
    /// Returns true if the timer has expired, so that the protocol stack has to be told.
    pub fn poll_send_timer(&mut self, reactor: &mut Reactor, waker: Waker) -> (on_timeout: bool)
        requires
            old(self)@.wf(),
            old(reactor).wf(),
            old(self)@.on_timeout_timer matches Some(timer) ==> old(reactor)@.can_poll_timer(timer),
        ensures
            final(self)@.wf(),
            (on_timeout, final(self)@, final(reactor)@) == old(self)@.giving_up_timer(
                old(reactor)@,
                waker,
            ),
            final(reactor).wf(),
            match old(self)@.on_timeout_timer {
                Some(timer) => {
                    &&& on_timeout == (old(reactor)@.timer_poll(timer) is Ready)
                    &&& final(reactor)@ == old(reactor)@.after_timer_poll(
                        timer,
                        waker,
                    ).without_token(timer.0, (Interest { readable: true, writable: false }))
                    &&& final(self)@ == (QuicConnView {
                        on_timeout_timer: None,
                        send_waker: None,
                        ..old(self)@
                    })
                },
                None => {
                    &&& !on_timeout
                    &&& final(reactor)@ == old(reactor)@
                    &&& final(self)@ == old(self)@
                },
            },
            final(reactor)@.timer_count() <= old(reactor)@.timer_count() + 1,
            old(reactor)@.timers_agree() ==> final(reactor)@.timers_agree(),
            old(reactor)@.tokens_fresh() ==> final(reactor)@.tokens_fresh(),
    {
        if let Some(timer) = self.on_timeout_timer.take() {
            let on_timeout = match reactor.poll_timeout(timer, waker) {
                TimerPoll::Ready(_) => true,
                TimerPoll::Pending => false,
            };
            reactor.deregister_timer(timer);
            self.send_waker = None;
            return on_timeout;
        }
        false
    }

    /// Goes on with a request for the next packet when the protocol stack has answered `sent`, says
    /// whether the connection is closed, and has told when the connection times out.
    ///
    /// Nothing to send is no error: the task of `timer_waker` and `send_waker` is parked until there
    /// is, or until the timeout. The timer that waits for the timeout stays in the reactor.
    pub fn poll_send<T>(
        &mut self,
        sent: Result<T, QuicheError>,
        is_closed: bool,
        timeout: Option<u128>,
        reactor: &mut Reactor,
        timer_waker: Waker,
        send_waker: Waker,
    ) -> (res: SendPoll<T>)
        requires
            old(self)@.wf(),
            old(reactor).wf(),
            sent matches Err(QuicheError::Done) && !is_closed && timeout is Some ==> old(
                reactor,
            )@.can_add_timer(),
        ensures
            final(self)@.wf(),
            (res, final(self)@) == old(self)@.sending(
                sent,
                is_closed,
                timeout,
                old(reactor)@,
                send_waker,
            ),
            final(reactor).wf(),
            match sent {
                Ok(packet) => {
                    &&& res == SendPoll::Ready(Ok::<T, ConnError>(packet))
                    &&& final(self)@ == old(self)@
                    &&& final(reactor)@ == old(reactor)@
                },
                Err(QuicheError::Done) => if is_closed {
                    &&& res == SendPoll::Ready(Err::<T, ConnError>(ConnError::Closed))
                    &&& final(self)@ == old(self)@
                    &&& final(reactor)@ == old(reactor)@
                } else {
                    match timeout {
                        Some(deadline) => if forall|token: usize| #[trigger]
                            old(reactor)@.used(token as int) {
                            &&& res == SendPoll::<T>::NoToken
                            &&& final(self)@ == old(self)@
                            &&& final(reactor)@ == old(reactor)@
                        } else {
                            &&& has_set_timer(
                                old(reactor)@,
                                deadline,
                                timer_waker,
                                final(reactor)@,
                            )
                            &&& if old(reactor)@.slot_of(deadline) > old(reactor)@.ticks {
                                &&& res == SendPoll::<T>::Pending
                                &&& final(self)@ == (QuicConnView {
                                    send_waker: Some(send_waker),
                                    ..old(self)@
                                })
                            } else {
                                &&& res == SendPoll::<T>::OnTimeout
                                &&& final(self)@ == old(self)@
                            }
                        },
                        None => {
                            &&& res == SendPoll::<T>::Pending
                            &&& final(self)@ == (QuicConnView {
                                send_waker: Some(send_waker),
                                ..old(self)@
                            })
                            &&& final(reactor)@ == old(reactor)@
                        },
                    }
                },
                Err(err) => {
                    &&& res == SendPoll::Ready(Err::<T, ConnError>(ConnError::Stack(err)))
                    &&& final(self)@ == old(self)@
                    &&& final(reactor)@ == old(reactor)@
                },
            },
            final(reactor)@.timer_count() <= old(reactor)@.timer_count() + 1,
            old(reactor)@.timers_agree() && old(reactor)@.tokens_fresh() && old(reactor)@.token_gen
                < usize::MAX ==> final(reactor)@.timers_agree() && final(reactor)@.tokens_fresh(),
    {
        match sent {
            Ok(packet) => SendPoll::Ready(Ok(packet)),
            Err(QuicheError::Done) => {
                if is_closed {
                    return SendPoll::Ready(Err(ConnError::Closed));
                }
                if let Some(deadline) = timeout {
                    let timer = match reactor.deadline(deadline) {
                        Some(timer) => timer,
                        None => {
                            return SendPoll::NoToken;
                        },
                    };
                    assert(!old(reactor)@.used(timer.0 as int));
                    let polled = reactor.poll_timeout(timer, timer_waker);
                    assert(waits_for_timeout(
                        old(reactor)@,
                        deadline,
                        timer,
                        timer_waker,
                        reactor@,
                    ));
                    match polled {
                        TimerPoll::Ready(_) => {
                            return SendPoll::OnTimeout;
                        },
                        TimerPoll::Pending => {},
                    }
                }
                self.send_waker = Some(send_waker);
                SendPoll::Pending
            },
            Err(err) => SendPoll::Ready(Err(ConnError::Stack(err))),
        }
    }

    /// Finishes the processing of a packet when the protocol stack has answered `received` and its
    /// events have been taken in: the task that waits for something to send joins `wakers`.
    pub fn poll_recv(
        &mut self,
        received: Result<usize, QuicheError>,
        wakers: &mut Vec<Waker>,
    ) -> (res: Result<usize, ConnError>)
        requires
            old(self)@.wf(),
        ensures
            final(self)@.wf(),
            ({
                let (outcome, woken, after) = old(self)@.receiving(received);
                &&& res == outcome
                &&& final(wakers)@ == old(wakers)@ + woken
                &&& final(self)@ == after
            }),
            match received {
                Ok(recv_size) => {
                    &&& res == Ok::<usize, ConnError>(recv_size)
                    &&& final(self)@ == (QuicConnView { send_waker: None, ..old(self)@ })
                    &&& final(wakers)@ == old(wakers)@ + one(old(self)@.send_waker)
                },
                Err(err) => {
                    &&& res == Err::<usize, ConnError>(ConnError::Stack(err))
                    &&& final(self)@ == old(self)@
                    &&& final(wakers)@ == old(wakers)@
                },
            },
    {
        match received {
            Ok(recv_size) => {
                if let Some(waker) = self.wake_sender() {
                    wakers.push(waker);
                }
                Ok(recv_size)
            },
            Err(err) => Err(ConnError::Stack(err)),
        }
    }

    /// Finishes closing the connection when the protocol stack has answered `closed`.
    ///
    /// Returns the task to wake up. A connection that is already closed is no error.
    pub fn close(&mut self, closed: Result<(), QuicheError>) -> (res: Result<
        Option<Waker>,
        ConnError,
    >)
        requires
            old(self)@.wf(),
        ensures
            final(self)@.wf(),
            (res, final(self)@) == old(self)@.shutting(closed),
            match closed {
                Ok(_) => {
                    &&& res == Ok::<Option<Waker>, ConnError>(old(self)@.send_waker)
                    &&& final(self)@ == (QuicConnView { send_waker: None, ..old(self)@ })
                },
                Err(err) => {
                    &&& res == (if err == QuicheError::Done {
                        Ok::<Option<Waker>, ConnError>(None)
                    } else {
                        Err::<Option<Waker>, ConnError>(ConnError::Stack(err))
                    })
                    &&& final(self)@ == old(self)@
                },
            },
    {
        match closed {
            Ok(_) => Ok(self.wake_sender()),
            Err(QuicheError::Done) => Ok(None),
            Err(err) => Err(ConnError::Stack(err)),
        }
    }

    /// Accepts a new `QUIC` stream.
    pub fn poll_accept(&mut self, is_closed: bool, waker: Waker) -> (res: ConnPoll<QuicStream>)
        requires
            old(self)@.wf(),
        ensures
            final(self)@.wf(),
            (res, final(self)@) == old(self)@.accepting(is_closed, waker),
            if is_closed {
                &&& res == ConnPoll::Ready(Err::<QuicStream, ConnError>(ConnError::Closed))
                &&& final(self)@ == old(self)@
            } else if old(self)@.fifo.len() > 0 {
                &&& res == ConnPoll::Ready(
                    Ok::<QuicStream, ConnError>(QuicStream(old(self)@.fifo.first())),
                )
                &&& final(self)@ == (QuicConnView {
                    fifo: old(self)@.fifo.drop_first(),
                    ..old(self)@
                })
            } else {
                &&& res == ConnPoll::<QuicStream>::Pending
                &&& final(self)@ == (QuicConnView { fifo_waker: Some(waker), ..old(self)@ })
            },
    {
        if is_closed {
            return ConnPoll::Ready(Err(ConnError::Closed));
        }
        if let Some(stream_id) = self.incoming_stream_id_fifo.pop_front() {
            assert(self@.fifo =~= old(self)@.fifo.drop_first());
            return ConnPoll::Ready(Ok(QuicStream(stream_id)));
        }
        self.fifo_waker = Some(waker);
        ConnPoll::Pending
    }

    /// Returns the identifier of the next outbound stream.
    pub fn outbound_stream_id_next(&self) -> (id: u64)
        ensures
            id == self@.outbound_next,
    {
        self.outbound_bidi_stream_id_next
    }

    /// Takes the identifier of a new outbound stream, if the peer lets us open one.
    ///
    /// Otherwise parks the task and returns `None`.
    pub fn poll_stream_open(&mut self, peer_streams_left_bidi: u64, waker: Waker) -> (res: Option<
        u64,
    >)
        requires
            old(self)@.wf(),
            peer_streams_left_bidi > 0 ==> old(self)@.outbound_next <= u64::MAX - 4,
        ensures
            final(self)@.wf(),
            (res, final(self)@) == old(self)@.opening(peer_streams_left_bidi, waker),
            if peer_streams_left_bidi > 0 {
                &&& res == Some(old(self)@.outbound_next)
                &&& final(self)@ == (QuicConnView {
                    outbound_next: (old(self)@.outbound_next + 4) as u64,
                    ..old(self)@
                })
            } else {
                &&& res is None
                &&& final(self)@ == (QuicConnView { open_stream_waker: Some(waker), ..old(self)@ })
            },
    {
        if peer_streams_left_bidi > 0 {
            let stream_id: u64 = self.outbound_bidi_stream_id_next;
            self.outbound_bidi_stream_id_next = stream_id + 4;
            Some(stream_id)
        } else {
            self.open_stream_waker = Some(waker);
            None
        }
    }

    /// Finishes opening the outbound stream `stream_id` when the protocol stack has answered
    /// `created`.
    ///
    /// Returns the stream, and the task to wake up.
    pub fn stream_opened(&mut self, stream_id: u64, created: Result<(), QuicheError>) -> (res: (
        Result<QuicStream, ConnError>,
        Option<Waker>,
    ))
        requires
            old(self)@.wf(),
        ensures
            final(self)@.wf(),
            (res.0, res.1, final(self)@) == old(self)@.opened(stream_id, created),
            match created {
                Ok(_) => {
                    &&& res.0 == Ok::<QuicStream, ConnError>(QuicStream(stream_id))
                    &&& res.1 == old(self)@.send_waker
                    &&& final(self)@ == (QuicConnView { send_waker: None, ..old(self)@ })
                },
                Err(err) => {
                    &&& res.0 == Err::<QuicStream, ConnError>(ConnError::Stack(err))
                    &&& res.1 is None
                    &&& final(self)@ == old(self)@
                },
            },
    {
        match created {
            Ok(_) => (Ok(QuicStream(stream_id)), self.wake_sender()),
            Err(err) => (Err(ConnError::Stack(err)), None),
        }
    }
}

/// `after` is the reactor `before` once a free token has become a timer with the deadline `deadline`
/// and the task of `waker` has asked for it.
pub open spec fn waits_for_timeout(
    before: ReactorView,
    deadline: u128,
    timer: Token,
    waker: Waker,
    after: ReactorView,
) -> bool {
    &&& before.takes_first_free(timer.0)
    &&& after == before.with_token(
        timer.0,
        (Interest { readable: true, writable: false }),
    ).with_readable(timer.0, IoState::Deadline(deadline)).after_timer_poll(timer, waker)
}

/// `after` is the reactor `before` once some free token has become a timer with the deadline
/// `deadline` and the task of `waker` has asked for it.
pub open spec fn has_set_timer(
    before: ReactorView,
    deadline: u128,
    waker: Waker,
    after: ReactorView,
) -> bool {
    exists|timer: Token| #[trigger] waits_for_timeout(before, deadline, timer, waker, after)
}

/// The quic stream socket.
#[derive(Clone, Copy, Debug, PartialEq, Eq, Structural)]
pub struct QuicStream(pub u64);

impl QuicStream {
    /// Attempt to write bytes into this stream, when the protocol stack has answered `sent`.
    ///
    /// Returns the outcome, and the task to wake up.
    pub fn poll_stream_write(
        &self,
        state: &mut QuicConnState,
        sent: Result<usize, QuicheError>,
        waker: Waker,
    ) -> (res: (ConnPoll<usize>, Option<Waker>))
        requires
            old(state)@.wf(),
        ensures
            final(state)@.wf(),
            (res.0, res.1, final(state)@) == old(state)@.writing(self.0, sent, waker),
            match sent {
                Ok(written_size) => {
                    &&& res.0 == ConnPoll::Ready(Ok::<usize, ConnError>(written_size))
                    &&& res.1 == old(state)@.send_waker
                    &&& final(state)@ == (QuicConnView { send_waker: None, ..old(state)@ })
                },
                Err(QuicheError::Done) => {
                    &&& res.0 == ConnPoll::<usize>::Pending
                    &&& res.1 is None
                    &&& final(state)@ == (QuicConnView {
                        writable_wakers: old(state)@.writable_wakers.insert(self.0, waker),
                        ..old(state)@
                    })
                },
                Err(err) => {
                    &&& res.0 == ConnPoll::Ready(Err::<usize, ConnError>(ConnError::Stack(err)))
                    &&& res.1 is None
                    &&& final(state)@ == old(state)@
                },
            },
    {
        match sent {
            Ok(written_size) => (ConnPoll::Ready(Ok(written_size)), state.wake_sender()),
            Err(QuicheError::Done) => {
                let _ = state.stream_writable_wakers.insert(self.0, waker);
                (ConnPoll::Pending, None)
            },
            Err(err) => (ConnPoll::Ready(Err(ConnError::Stack(err))), None),
        }
    }

    /// Attempt to read bytes from this stream, when the protocol stack has answered `received`.
    ///
    /// Returns the outcome, and the task to wake up.
    pub fn poll_stream_read(
        &self,
        state: &mut QuicConnState,
        received: Result<(usize, bool), QuicheError>,
        waker: Waker,
    ) -> (res: (ConnPoll<(usize, bool)>, Option<Waker>))
        requires
            old(state)@.wf(),
        ensures
            final(state)@.wf(),
            (res.0, res.1, final(state)@) == old(state)@.reading(self.0, received, waker),
            match received {
                Ok(read) => {
                    &&& res.0 == ConnPoll::Ready(Ok::<(usize, bool), ConnError>(read))
                    &&& res.1 == old(state)@.send_waker
                    &&& final(state)@ == (QuicConnView { send_waker: None, ..old(state)@ })
                },
                Err(QuicheError::Done) => {
                    &&& res.0 == ConnPoll::<(usize, bool)>::Pending
                    &&& res.1 is None
                    &&& final(state)@ == (QuicConnView {
                        readable_wakers: old(state)@.readable_wakers.insert(self.0, waker),
                        ..old(state)@
                    })
                },
                Err(err) => {
                    &&& res.0 == ConnPoll::Ready(
                        Err::<(usize, bool), ConnError>(ConnError::Stack(err)),
                    )
                    &&& res.1 is None
                    &&& final(state)@ == old(state)@
                },
            },
    {
        match received {
            Ok(read) => (ConnPoll::Ready(Ok(read)), state.wake_sender()),
            Err(QuicheError::Done) => {
                let _ = state.stream_readable_wakers.insert(self.0, waker);
                (ConnPoll::Pending, None)
            },
            Err(err) => (ConnPoll::Ready(Err(ConnError::Stack(err))), None),
        }
    }

    /// Closes this stream, when the protocol stack has been told and says whether the stream is
    /// `finished`.
    ///
    /// Returns whether the stream has to be drained, so that the protocol stack can collect it, and
    /// the task to wake up.
    pub fn close_stream(&self, state: &mut QuicConnState, finished: bool) -> (res: (
        bool,
        Option<Waker>,
    ))
        requires
            old(state)@.wf(),
        ensures
            final(state)@.wf(),
            final(state)@ == old(state)@.sender_woken(),
            res.0 == finished,
            res.1 == old(state)@.send_waker,
            final(state)@ == (QuicConnView { send_waker: None, ..old(state)@ }),
    {
        (finished, state.wake_sender())
    }
}

/// What a readable event changes, and what it keeps.
proof fn lemma_all_readable_keeps(conn: QuicConnView, ids: Seq<u64>)
    ensures
        ({
            let after = conn.all_readable(ids);
            &&& after == (QuicConnView {
                inbound_current: after.inbound_current,
                fifo: after.fifo,
                readable_wakers: after.readable_wakers,
                ..conn
            })
            &&& after.inbound_current >= conn.inbound_current
            &&& after.fifo.len() >= conn.fifo.len()
            &&& after.fifo.take(conn.fifo.len() as int) == conn.fifo
            &&& forall|i: int|
                conn.fifo.len() <= i < after.fifo.len() ==> conn.inbound_current
                    < #[trigger] after.fifo[i] <= after.inbound_current
        }),
    decreases ids.len(),
{
    if ids.len() > 0 {
        lemma_all_readable_keeps(conn, ids.drop_last());
        assert(conn.all_readable(ids).fifo.take(conn.fifo.len() as int) =~= conn.fifo);
    } else {
        assert(conn.fifo.take(conn.fifo.len() as int) =~= conn.fifo);
    }
}

/// When streams become readable in the order of their identifiers, exactly those are announced, in
/// this order, that are inbound, bidirectional and larger than every inbound stream seen so far.
pub proof fn lemma_new_streams_are_announced(conn: QuicConnView, ids: Seq<u64>)
    requires
        strictly_ascending(ids),
    ensures
        conn.all_readable(ids).fifo == conn.fifo + ids.filter(|id: u64| conn.is_new_inbound(id)),
        forall|id: u64|
            ids.contains(id) && conn.is_new_inbound(id) ==> #[trigger] conn.all_readable(
                ids,
            ).fifo.contains(id),
    decreases ids.len(),
{
    let new = |id: u64| conn.is_new_inbound(id);
    reveal(Seq::filter);
    if ids.len() > 0 {
        let seen = ids.drop_last();
        let id = ids.last();
        lemma_new_streams_are_announced(conn, seen);
        lemma_all_readable_keeps(conn, seen);
        let before = conn.all_readable(seen);
        assert(before.inbound_current < id || before.inbound_current == conn.inbound_current) by {
            lemma_inbound_current(conn, seen);
        }
        assert(before.is_new_inbound(id) == conn.is_new_inbound(id));
        assert(conn.all_readable(ids).fifo =~= conn.fifo + ids.filter(new));
        assert forall|other: u64|
            ids.contains(other) && conn.is_new_inbound(other) implies #[trigger] conn.all_readable(
            ids,
        ).fifo.contains(other) by {
            let after = conn.all_readable(ids);
            if other == id {
                assert(after.fifo.last() == id);
            } else {
                let k = choose|k: int| 0 <= k < ids.len() && ids[k] == other;
                assert(seen[k] == other);
                assert(before.fifo.contains(other));
                let i = choose|i: int| 0 <= i < before.fifo.len() && before.fifo[i] == other;
                assert(after.fifo[i] == other);
            }
        }
    } else {
        assert(conn.all_readable(ids).fifo =~= conn.fifo + ids.filter(new));
    }
}

/// The biggest inbound stream has been there before, or has just become readable.
proof fn lemma_inbound_current(conn: QuicConnView, ids: Seq<u64>)
    ensures
        ({
            let after = conn.all_readable(ids);
            after.inbound_current == conn.inbound_current || ids.contains(after.inbound_current)
        }),
    decreases ids.len(),
{
    if ids.len() > 0 {
        let seen = ids.drop_last();
        lemma_inbound_current(conn, seen);
        let current = conn.all_readable(seen).inbound_current;
        if seen.contains(current) {
            let k = choose|k: int| 0 <= k < seen.len() && seen[k] == current;
            assert(ids[k] == current);
        }
        assert(ids[ids.len() - 1] == ids.last());
    }
}

/// No stream is announced twice: whatever becomes readable, the streams that wait to be accepted
/// stay where they are, and a stream joins them only if it is larger than every inbound stream seen
/// so far.
pub proof fn lemma_streams_are_announced_once(conn: QuicConnView, ids: Seq<u64>)
    ensures
        ({
            let after = conn.all_readable(ids);
            &&& after.inbound_current >= conn.inbound_current
            &&& after.fifo.take(conn.fifo.len() as int) == conn.fifo
            &&& forall|i: int|
                conn.fifo.len() <= i < after.fifo.len() ==> conn.inbound_current
                    < #[trigger] after.fifo[i] <= after.inbound_current
        }),
{
    lemma_all_readable_keeps(conn, ids);
}

/// A task that waits to read from a known stream is woken up when the stream becomes readable.
pub proof fn lemma_reader_is_woken(conn: QuicConnView, ids: Seq<u64>, id: u64)
    requires
        conn.readable_wakers.contains_key(id),
        !conn.is_new_inbound(id),
        ids.contains(id),
    ensures
        conn.woken_by_all_readable(ids).contains(conn.readable_wakers[id]),
        !conn.all_readable(ids).readable_wakers.contains_key(id),
{
    lemma_reader(conn, ids, id);
}

proof fn lemma_reader(conn: QuicConnView, ids: Seq<u64>, id: u64)
    requires
        conn.readable_wakers.contains_key(id),
        !conn.is_new_inbound(id),
    ensures
        ids.contains(id) ==> conn.woken_by_all_readable(ids).contains(conn.readable_wakers[id])
            && !conn.all_readable(ids).readable_wakers.contains_key(id),
        !ids.contains(id) ==> conn.all_readable(ids).readable_wakers.contains_key(id)
            && conn.all_readable(ids).readable_wakers[id] == conn.readable_wakers[id],
    decreases ids.len(),
{
    if ids.len() > 0 {
        let seen = ids.drop_last();
        let last = ids.last();
        lemma_reader(conn, seen, id);
        lemma_all_readable_keeps(conn, seen);
        let woken = conn.woken_by_all_readable(seen);
        let more = conn.all_readable(seen).woken_by_readable(last);
        assert(ids[ids.len() - 1] == last);
        if seen.contains(id) {
            let k = choose|k: int| 0 <= k < seen.len() && seen[k] == id;
            assert(ids[k] == id);
            let i = choose|i: int| 0 <= i < woken.len() && woken[i] == conn.readable_wakers[id];
            assert((woken + more)[i] == conn.readable_wakers[id]);
        } else if last == id {
            assert((woken + more)[woken.len() as int] == conn.readable_wakers[id]);
        } else {
            assert(!ids.contains(id)) by {
                if ids.contains(id) {
                    let k = choose|k: int| 0 <= k < ids.len() && ids[k] == id;
                    assert(seen[k] == id);
                }
            }
        }
    }
}

/// A task that waits to write to a stream is woken up when the stream becomes writable.
pub proof fn lemma_writer_is_woken(wakers: Map<u64, Waker>, ids: Seq<u64>, id: u64)
    requires
        wakers.contains_key(id),
        ids.contains(id),
    ensures
        waiting_for(wakers, ids).contains(wakers[id]),
    decreases ids.len(),
{
    let seen = ids.drop_last();
    let woken = waiting_for(wakers, seen);
    let all = waiting_for(wakers, ids);
    if seen.contains(id) {
        lemma_writer_is_woken(wakers, seen, id);
        let i = choose|i: int| 0 <= i < woken.len() && woken[i] == wakers[id];
        assert(all[i] == wakers[id]);
    } else {
        let k = choose|k: int| 0 <= k < ids.len() && ids[k] == id;
        if k < seen.len() {
            assert(seen[k] == id);
        }
        assert(all[woken.len() as int] == wakers[id]);
    }
}

/// A task that waits for an inbound stream is woken up when a new one becomes readable.
pub proof fn lemma_acceptor_is_woken(conn: QuicConnView, ids: Seq<u64>, id: u64)
    requires
        conn.fifo_waker is Some,
        conn.is_new_inbound(id),
        ids.contains(id),
        strictly_ascending(ids),
    ensures
        conn.all_readable(ids).acceptor() == conn.fifo_waker,
{
    lemma_new_streams_are_announced(conn, ids);
    lemma_all_readable_keeps(conn, ids);
    assert(conn.all_readable(ids).fifo.contains(id));
}

/// The streams that we open and those that we accept never share an identifier.
pub proof fn lemma_outbound_is_not_inbound(conn: QuicConnView)
    requires
        conn.wf(),
    ensures
        !conn.fifo.contains(conn.outbound_next),
{
}

/// Distinct streams in ascending order ascend strictly, and are the same streams.
pub proof fn lemma_ascending_distinct(ids: Seq<u64>)
    requires
        ids.no_duplicates(),
    ensures
        strictly_ascending(ascending(ids)),
        forall|id: u64| #[trigger] ascending(ids).contains(id) <==> ids.contains(id),
{
    broadcast use vstd::multiset::group_multiset_axioms;

    let sorted = ascending(ids);
    lemma_ascending(ids);
    ids.lemma_multiset_has_no_duplicates();
    assert forall|id: u64| #[trigger] sorted.contains(id) <==> ids.contains(id) by {
        vstd::seq_lib::to_multiset_contains(sorted, id);
        vstd::seq_lib::to_multiset_contains(ids, id);
    }
    assert forall|i: int, j: int| 0 <= i < j < sorted.len() implies sorted[i] < sorted[j] by {
        assert((id_order())(sorted[i], sorted[j]));
        if sorted[i] == sorted[j] {
            let rest = sorted.remove(i);
            vstd::seq_lib::to_multiset_remove(sorted, i);
            assert(rest[j - 1] == sorted[i]);
            vstd::seq_lib::to_multiset_contains(rest, sorted[i]);
            vstd::seq_lib::to_multiset_contains(sorted, sorted[i]);
        }
    }
}

} // verus!
