//! Reactor pattern based on mio.

use std::task::Waker;

use dashmap::DashMap;

use crate::errors::ErrorKind;
use crate::timing_wheel::{
    deadline_slot, due, end_of_time, lemma_due_splits, lemma_due_with_timer, low_64_bits, pending,
    timer_count, with_timer, TimeWheel,
};
use crate::token::{
    advanced, lemma_advanced_next, lemma_advanced_reaches, lemma_advanced_wraps, Token,
};
use vstd::prelude::*;

verus! {

/// The handle that wakes up a task. Nothing is known of it: it is stored and handed back.
#[verifier::external_type_specification]
#[verifier::external_body]
pub struct ExWaker(Waker);

/// A concurrent hash map. What it holds is the view of the functions below.
#[verifier::external_type_specification]
#[verifier::external_body]
#[verifier::reject_recursive_types(K)]
#[verifier::reject_recursive_types(V)]
#[verifier::reject_recursive_types(S)]
pub struct ExDashMap<K, V, S>(DashMap<K, V, S>);

/// The state of one direction of a source of events, or of a timer.
pub enum IoState {
    /// The timer has expired.
    Timeout,
    /// A timer that nobody has waited for yet, with its deadline.
    Deadline(u128),
    /// A timer that a task waits for.
    Timer(Waker),
    /// A task waits for the next event.
    Waker(Waker),
    /// An event has been raised that nobody has seen yet.
    Ready,
    /// Nothing has happened.
    Idle,
    /// The direction has been shut down.
    Shutdown,
}

/// The state that `stats` holds for each token.
pub uninterp spec fn io_states(stats: DashMap<usize, IoState>) -> Map<usize, IoState>;

/// Calls `DashMap::new`, which returns an empty map.
#[verifier::external_body]
fn stats_new() -> (res: DashMap<usize, IoState>)
    ensures
        io_states(res).dom() == Set::<usize>::empty(),
{
    DashMap::new()
}

/// Calls `DashMap::contains_key`, which tells whether the map has an entry for the key.
#[verifier::external_body]
fn stats_contains(stats: &DashMap<usize, IoState>, token: usize) -> (res: bool)
    ensures
        res == io_states(*stats).contains_key(token),
{
    stats.contains_key(&token)
}

/// Calls `DashMap::insert`, which sets the value of the key and returns the value that it replaces.
/// Nobody else holds the map, so no other change comes between.
#[verifier::external_body]
fn stats_insert(stats: &mut DashMap<usize, IoState>, token: usize, state: IoState) -> (res: Option<
    IoState,
>)
    ensures
        io_states(*final(stats)) == io_states(*old(stats)).insert(token, state),
        res == if io_states(*old(stats)).contains_key(token) {
            Some(io_states(*old(stats))[token])
        } else {
            None
        },
{
    stats.insert(token, state)
}

/// Calls `DashMap::remove`, which takes the entry of the key out of the map and returns it. Nobody
/// else holds the map, so no other change comes between.
#[verifier::external_body]
fn stats_remove(stats: &mut DashMap<usize, IoState>, token: usize) -> (res: Option<IoState>)
    ensures
        io_states(*final(stats)) == io_states(*old(stats)).remove(token),
        res == if io_states(*old(stats)).contains_key(token) {
            Some(io_states(*old(stats))[token])
        } else {
            None
        },
{
    stats.remove(&token).map(|entry| entry.1)
}

/// The directions of a source of events that a caller is interested in.
#[derive(Clone, Copy, Debug, PartialEq, Eq, Structural)]
pub struct Interest {
    pub readable: bool,
    pub writable: bool,
}

/// What an event says of the source with its token.
#[derive(Clone, Copy, Debug, PartialEq, Eq, Structural)]
pub struct Event {
    pub readable: bool,
    pub writable: bool,
    pub read_closed: bool,
    pub write_closed: bool,
}

/// Why the reactor refuses a request.
#[derive(Clone, Copy, Debug, PartialEq, Eq, Structural)]
pub enum ReactorError {
    /// There is no such timer.
    TimerNotFound(Token),
    /// There is nothing to shut down for reading.
    InvalidReadState(Token),
    /// There is nothing to shut down for writing.
    InvalidWriteState(Token),
    /// The token is not registered for the direction.
    InvalidState(Token),
    /// Reading has been shut down.
    ShutdownReadable(Token),
    /// Writing has been shut down.
    ShutdownWritable(Token),
}

impl ReactorError {
    /// The category of the error.
    pub open spec fn spec_kind(self) -> ErrorKind {
        match self {
            ReactorError::ShutdownReadable(_) => ErrorKind::BrokenPipe,
            ReactorError::ShutdownWritable(_) => ErrorKind::BrokenPipe,
            _ => ErrorKind::NotFound,
        }
    }

    /// Returns the category of the error.
    pub fn kind(&self) -> (kind: ErrorKind)
        ensures
            kind == self.spec_kind(),
    {
        match self {
            ReactorError::ShutdownReadable(_) => ErrorKind::BrokenPipe,
            ReactorError::ShutdownWritable(_) => ErrorKind::BrokenPipe,
            _ => ErrorKind::NotFound,
        }
    }
}

/// What becomes of an operation that would block.
#[derive(Clone, Copy, Debug, PartialEq, Eq, Structural)]
pub enum WouldBlock {
    /// The task is parked and woken up by the next event.
    Pending,
    /// An event came in meanwhile: try again.
    Retry,
    /// The direction has been shut down.
    Failed(ReactorError),
}

/// Whether a timer has expired.
#[derive(Clone, Copy, Debug, PartialEq, Eq)]
pub enum TimerPoll {
    /// The timer has expired, or is not known.
    Ready(Result<(), ReactorError>),
    /// The task is parked and woken up when the timer expires.
    Pending,
}

/// What a reactor knows.
#[verifier::ext_equal]
pub struct ReactorView {
    /// The next token to try.
    pub token_gen: usize,
    /// The states of the tokens that are registered for reading, and of the timers.
    pub readable: Map<usize, IoState>,
    /// The states of the tokens that are registered for writing.
    pub writable: Map<usize, IoState>,
    /// The length of a tick of the timing wheel in microseconds.
    pub tick_interval: u64,
    /// The last processed tick.
    pub ticks: u64,
    /// The timers that wait in each slot of the timing wheel.
    pub timers: Map<u64, Seq<usize>>,
}

impl ReactorView {
    /// `token` is in use.
    pub open spec fn used(self, token: int) -> bool {
        self.readable.contains_key(token as usize) || self.writable.contains_key(token as usize)
    }

    /// `token` is the first free token, `distance` tokens after the one to try next.
    pub open spec fn is_first_free(self, token: usize, distance: int) -> bool {
        &&& 0 <= distance <= usize::MAX
        &&& token == advanced(self.token_gen, distance)
        &&& !self.used(token as int)
        &&& forall|k: int| 0 <= k < distance ==> self.used(#[trigger] advanced(self.token_gen, k))
    }

    /// `token` is the first free token from the one to try next on.
    pub open spec fn takes_first_free(self, token: usize) -> bool {
        exists|distance: int| #[trigger] self.is_first_free(token, distance)
    }

    /// `token` has been taken for `interests`.
    pub open spec fn with_token(self, token: usize, interests: Interest) -> ReactorView {
        ReactorView {
            token_gen: advanced(token, 1) as usize,
            readable: if interests.readable {
                self.readable.insert(token, IoState::Idle)
            } else {
                self.readable
            },
            writable: if interests.writable {
                self.writable.insert(token, IoState::Idle)
            } else {
                self.writable
            },
            ..self
        }
    }

    /// `token` has been given up for `interests`.
    pub open spec fn without_token(self, token: usize, interests: Interest) -> ReactorView {
        ReactorView {
            readable: if interests.readable {
                self.readable.remove(token)
            } else {
                self.readable
            },
            writable: if interests.writable {
                self.writable.remove(token)
            } else {
                self.writable
            },
            ..self
        }
    }

    /// `token` has the state `state` for reading.
    pub open spec fn with_readable(self, token: usize, state: IoState) -> ReactorView {
        ReactorView { readable: self.readable.insert(token, state), ..self }
    }

    /// `token` has the state `state` for writing.
    pub open spec fn with_writable(self, token: usize, state: IoState) -> ReactorView {
        ReactorView { writable: self.writable.insert(token, state), ..self }
    }

    /// The states of the direction that an operation with interest `interest` works on.
    pub open spec fn side(self, interest: Interest) -> Map<usize, IoState> {
        if interest.readable {
            self.readable
        } else {
            self.writable
        }
    }

    /// `token` has the state `state` in the direction of `interest`.
    pub open spec fn with_side(self, interest: Interest, token: usize, state: IoState) -> ReactorView {
        if interest.readable {
            self.with_readable(token, state)
        } else {
            self.with_writable(token, state)
        }
    }

    /// The tick at which a timer with deadline `deadline` fires.
    pub open spec fn slot_of(self, deadline: u128) -> int {
        deadline_slot(low_64_bits(deadline), self.tick_interval as int)
    }

    /// `timer` waits in slot `slot` of the timing wheel.
    pub open spec fn with_timer(self, slot: u64, timer: usize) -> ReactorView {
        ReactorView { timers: with_timer(self.timers, slot, timer), ..self }
    }

    /// How often `token` waits in the timing wheel.
    pub open spec fn queued(self, token: usize) -> nat {
        due(self.timers, end_of_time()).to_multiset().count(token)
    }

    /// A token waits in the timing wheel once if a task waits for it as a timer, and not at all if
    /// it is used for anything else.
    pub open spec fn timers_agree(self) -> bool {
        forall|token: usize| #[trigger]
            self.readable.contains_key(token) ==> self.queued(token) == (
            if self.readable[token] is Timer {
                1nat
            } else {
                0nat
            })
    }

    /// Every token that is in use, or that waits in the timing wheel, is smaller than the next token
    /// to try: the token generator has not wrapped around.
    pub open spec fn tokens_fresh(self) -> bool {
        &&& forall|token: usize| #[trigger]
            self.readable.contains_key(token) ==> token < self.token_gen
        &&& forall|token: usize| #[trigger]
            self.writable.contains_key(token) ==> token < self.token_gen
        &&& forall|token: usize| #[trigger]
            due(self.timers, end_of_time()).to_multiset().count(token) > 0 ==> token
                < self.token_gen
    }

    /// The number of timers that wait in the timing wheel.
    pub open spec fn timer_count(self) -> nat {
        timer_count(self.timers)
    }

    /// The timers that expire by the time `now`, in the order in which they expire.
    pub open spec fn expired(self, now: u128) -> Seq<usize> {
        due(self.timers, (low_64_bits(now) / (self.tick_interval as int) + 1) as nat)
    }

    /// Whether timer `timer` has expired.
    pub open spec fn timer_poll(self, timer: Token) -> TimerPoll {
        if !self.readable.contains_key(timer.0) {
            TimerPoll::Ready(Err(ReactorError::TimerNotFound(timer)))
        } else {
            match self.readable[timer.0] {
                IoState::Deadline(deadline) => if self.slot_of(deadline) > self.ticks {
                    TimerPoll::Pending
                } else {
                    TimerPoll::Ready(Ok(()))
                },
                IoState::Timer(_) => TimerPoll::Pending,
                _ => TimerPoll::Ready(Ok(())),
            }
        }
    }

    /// The reactor after the task of `waker` has asked for timer `timer`.
    pub open spec fn after_timer_poll(self, timer: Token, waker: Waker) -> ReactorView {
        if !self.readable.contains_key(timer.0) {
            self
        } else {
            match self.readable[timer.0] {
                IoState::Deadline(deadline) => if self.slot_of(deadline) > self.ticks {
                    self.with_readable(timer.0, IoState::Timer(waker)).with_timer(
                        self.slot_of(deadline) as u64,
                        timer.0,
                    )
                } else {
                    self.with_readable(timer.0, IoState::Timeout)
                },
                IoState::Timer(_) => self.with_readable(timer.0, IoState::Timer(waker)),
                _ => self,
            }
        }
    }

    /// A task may ask for timer `timer`: it is a timer, and there is room for it in the timing wheel.
    pub open spec fn can_poll_timer(self, timer: Token) -> bool {
        &&& self.tick_interval > 0
        &&& self.readable.contains_key(timer.0) ==> is_timer(self.readable[timer.0])
        &&& self.readable.contains_key(timer.0) ==> (
        self.readable[timer.0] matches IoState::Deadline(deadline) ==> self.slot_of(deadline)
            > self.ticks ==> self.timer_count() < usize::MAX)
    }

    /// There is room for one more timer in the timing wheel.
    pub open spec fn can_add_timer(self) -> bool {
        self.tick_interval > 0 && self.timer_count() < usize::MAX
    }

    /// The reactor after an event for `token`.
    pub open spec fn after_event(self, token: usize, event: Event) -> ReactorView {
        ReactorView {
            readable: if event.readable || event.read_closed {
                raise(self.readable, token)
            } else {
                self.readable
            },
            writable: if event.writable || event.write_closed {
                raise(self.writable, token)
            } else {
                self.writable
            },
            ..self
        }
    }

    /// The tasks that an event for `token` wakes up, a reading one first.
    pub open spec fn woken_by(self, token: usize, event: Event) -> Seq<Waker> {
        (if event.readable || event.read_closed {
            woken(self.readable, token)
        } else {
            Seq::empty()
        }) + (if event.writable || event.write_closed {
            woken(self.writable, token)
        } else {
            Seq::empty()
        })
    }

    /// The reactor after the timing wheel has moved to the time `now`.
    pub open spec fn after_ticks(self, now: u128) -> ReactorView {
        let ticks = (low_64_bits(now) / (self.tick_interval as int)) as u64;
        ReactorView {
            readable: timed_out(self.readable, self.expired(now)),
            ticks,
            timers: pending(self.timers, ticks),
            ..self
        }
    }

    /// Expiring timers keeps the timing wheel in agreement with the states.
    pub proof fn lemma_ticks_agree(self, now: u128)
        requires
            self.tick_interval > 0,
        ensures
            self.timers_agree() ==> self.after_ticks(now).timers_agree(),
            self.timers_agree() ==> self.can_expire(now),
            self.tokens_fresh() ==> self.after_ticks(now).tokens_fresh(),
    {
        broadcast use vstd::multiset::group_multiset_axioms;

        let t = low_64_bits(now) / (self.tick_interval as int);
        vstd::arithmetic::div_mod::lemma_div_pos_is_pos(low_64_bits(now), self.tick_interval as int);
        vstd::arithmetic::div_mod::lemma_div_is_ordered_by_denominator(
            low_64_bits(now),
            1,
            self.tick_interval as int,
        );
        let ticks = t as u64;
        let expired = self.expired(now);
        let all = due(self.timers, end_of_time());
        let rest = due(pending(self.timers, ticks), end_of_time());
        lemma_due_splits(self.timers, ticks, end_of_time());
        assert(all == expired + rest);
        vstd::seq_lib::lemma_multiset_commutative(expired, rest);
        if self.tokens_fresh() {
            let after = self.after_ticks(now);
            assert(after.timers == pending(self.timers, ticks));
            assert forall|token: usize| #[trigger]
                due(after.timers, end_of_time()).to_multiset().count(token) > 0 implies token
                < after.token_gen by {
                assert(all.to_multiset().count(token) >= rest.to_multiset().count(token));
            }
        }
        if self.timers_agree() {
            assert forall|token: usize| #[trigger]
                self.readable.contains_key(token) && expired.contains(token) implies self.readable[token] is Timer
                && expired.to_multiset().count(token) == 1 && rest.to_multiset().count(token) == 0 by {
                vstd::seq_lib::to_multiset_contains(expired, token);
                assert(self.queued(token) >= 1);
            }
            assert forall|i: int|
                0 <= i < expired.len() && self.readable.contains_key(
                    #[trigger] expired[i],
                ) implies self.readable[expired[i]] is Timer by {
                assert(expired.contains(expired[i]));
            }
            assert forall|i: int, j: int|
                0 <= i < j < expired.len() && self.readable.contains_key(expired[i])
                implies #[trigger] expired[i] != #[trigger] expired[j] by {
                if expired[i] == expired[j] {
                    assert(expired.contains(expired[i]));
                    lemma_repeated(expired, i, j);
                }
            }
            assert forall|token: usize| #[trigger]
                self.after_ticks(now).readable.contains_key(token) implies self.after_ticks(now).queued(token) == (
            if self.after_ticks(now).readable[token] is Timer {
                1nat
            } else {
                0nat
            }) by {
                assert(self.readable.contains_key(token));
                vstd::seq_lib::to_multiset_contains(expired, token);
            }
        }
    }

    /// A task waits for each timer that expires by the time `now` and that is still known, and no
    /// such timer expires twice.
    pub open spec fn can_expire(self, now: u128) -> bool {
        can_time_out(self.readable, self.expired(now))
    }

    /// An operation on `io` in the direction of `interest` may begin: there is a direction, and `io`
    /// is not a timer.
    pub open spec fn can_poll_io(self, io: Token, interest: Interest) -> bool {
        &&& interest.readable || interest.writable
        &&& self.side(interest).contains_key(io.0) ==> is_io(self.side(interest)[io.0])
    }

    /// An operation on `io` in the direction of `interest` may block: it has begun, and no other one
    /// is parked in this direction.
    pub open spec fn can_block(self, io: Token, interest: Interest) -> bool {
        &&& self.can_poll_io(io, interest)
        &&& self.side(interest).contains_key(io.0)
        &&& !(self.side(interest)[io.0] is Waker)
    }

    /// `event` may come in for `token`, which is not a timer.
    pub open spec fn can_raise(self, token: Token, event: Event) -> bool {
        &&& (event.readable || event.read_closed) && self.readable.contains_key(token.0) ==> is_io(
            self.readable[token.0],
        )
        &&& (event.writable || event.write_closed) && self.writable.contains_key(token.0) ==> is_io(
            self.writable[token.0],
        )
    }
}

/// A task waits for each of the timers `tokens` that is known in `states`, and none of these stands
/// there twice.
pub open spec fn can_time_out(states: Map<usize, IoState>, tokens: Seq<usize>) -> bool {
    &&& forall|i: int|
        0 <= i < tokens.len() && states.contains_key(#[trigger] tokens[i])
            ==> states[tokens[i]] is Timer
    &&& forall|i: int, j: int|
        0 <= i < j < tokens.len() && states.contains_key(tokens[i])
            ==> #[trigger] tokens[i] != #[trigger] tokens[j]
}

/// One more timer.
proof fn lemma_can_time_out(states: Map<usize, IoState>, tokens: Seq<usize>, token: usize)
    ensures
        can_time_out(states, tokens.push(token)) <==> can_time_out(states, tokens) && (
        states.contains_key(token) ==> states[token] is Timer && !tokens.contains(token)),
{
    let all = tokens.push(token);
    let n = tokens.len() as int;
    assert(all[n] == token);
    assert(forall|i: int| 0 <= i < n ==> all[i] == tokens[i]);
    if can_time_out(states, all) {
        assert forall|i: int|
            0 <= i < tokens.len() && states.contains_key(#[trigger] tokens[i])
            implies states[tokens[i]] is Timer by {
            assert(all[i] == tokens[i]);
        }
        assert forall|i: int, j: int|
            0 <= i < j < tokens.len() && states.contains_key(tokens[i])
            implies #[trigger] tokens[i] != #[trigger] tokens[j] by {
            assert(all[i] != all[j]);
        }
        if states.contains_key(token) && tokens.contains(token) {
            let k = choose|k: int| 0 <= k < n && tokens[k] == token;
            assert(all[k] != all[n]);
        }
    }
    if can_time_out(states, tokens) && (states.contains_key(token) ==> states[token] is Timer
        && !tokens.contains(token)) {
        assert forall|i: int, j: int|
            0 <= i < j < all.len() && states.contains_key(all[i])
            implies #[trigger] all[i] != #[trigger] all[j] by {
            if j == n {
                if all[i] == token {
                    assert(tokens[i] == token);
                    assert(tokens.contains(token));
                }
            } else {
                assert(tokens[i] != tokens[j]);
            }
        }
    }
}

/// Tokens that leave the reactor, and changed states, keep the tokens fresh.
proof fn lemma_stays_fresh(before: ReactorView, after: ReactorView)
    requires
        after.token_gen == before.token_gen,
        after.timers == before.timers,
        after.readable.dom().subset_of(before.readable.dom()),
        after.writable.dom().subset_of(before.writable.dom()),
    ensures
        before.tokens_fresh() ==> after.tokens_fresh(),
{
    if before.tokens_fresh() {
        assert forall|token: usize| #[trigger] after.readable.contains_key(token) implies token
            < after.token_gen by {
            assert(before.readable.contains_key(token));
        }
        assert forall|token: usize| #[trigger] after.writable.contains_key(token) implies token
            < after.token_gen by {
            assert(before.writable.contains_key(token));
        }
    }
}

/// An element that stands at two positions counts twice.
proof fn lemma_repeated(s: Seq<usize>, i: int, j: int)
    requires
        0 <= i < j < s.len(),
        s[i] == s[j],
    ensures
        s.to_multiset().count(s[i]) >= 2,
{
    broadcast use vstd::multiset::group_multiset_axioms;

    vstd::seq_lib::to_multiset_remove(s, i);
    let rest = s.remove(i);
    assert(rest[j - 1] == s[i]);
    assert(rest.contains(s[i]));
    vstd::seq_lib::to_multiset_contains(rest, s[i]);
    assert(s.contains(s[i]));
    vstd::seq_lib::to_multiset_contains(s, s[i]);
}

/// The task that waits for the next event.
pub open spec fn parked(state: IoState) -> Seq<Waker> {
    match state {
        IoState::Waker(waker) => seq![waker],
        _ => Seq::empty(),
    }
}

/// The state after an event.
pub open spec fn raised(state: IoState) -> IoState {
    match state {
        IoState::Waker(_) | IoState::Idle => IoState::Ready,
        state => state,
    }
}

/// A state in which a source of events can be.
pub open spec fn is_io(state: IoState) -> bool {
    state is Waker || state is Ready || state is Idle || state is Shutdown
}

/// A state in which a timer can be.
pub open spec fn is_timer(state: IoState) -> bool {
    state is Timeout || state is Deadline || state is Timer
}

/// `states` after an event for `token`.
pub open spec fn raise(states: Map<usize, IoState>, token: usize) -> Map<usize, IoState> {
    if states.contains_key(token) {
        states.insert(token, raised(states[token]))
    } else {
        states
    }
}

/// The tasks that an event for `token` wakes up.
pub open spec fn woken(states: Map<usize, IoState>, token: usize) -> Seq<Waker> {
    if states.contains_key(token) {
        parked(states[token])
    } else {
        Seq::empty()
    }
}

/// The task that waits for timer `token`.
pub open spec fn timer_waker(states: Map<usize, IoState>, token: usize) -> Seq<Waker> {
    if states.contains_key(token) {
        match states[token] {
            IoState::Timer(waker) => seq![waker],
            _ => Seq::empty(),
        }
    } else {
        Seq::empty()
    }
}

/// The tasks that wait for the timers `tokens`.
pub open spec fn timer_wakers(states: Map<usize, IoState>, tokens: Seq<usize>) -> Seq<Waker>
    decreases tokens.len(),
{
    if tokens.len() == 0 {
        Seq::empty()
    } else {
        timer_wakers(states, tokens.drop_last()) + timer_waker(states, tokens.last())
    }
}

/// `states` after the timers `tokens` have expired.
pub open spec fn timed_out(states: Map<usize, IoState>, tokens: Seq<usize>) -> Map<usize, IoState> {
    Map::new(
        |token: usize| states.contains_key(token),
        |token: usize|
            if tokens.contains(token) {
                IoState::Timeout
            } else {
                states[token]
            },
    )
}

/// The operations on a source of events: what comes of each, and the reactor after it.
impl ReactorView {
    /// What comes of beginning an operation on `io` in the direction of `interest`.
    pub open spec fn beginning(self, io: Token, interest: Interest) -> (
        Result<(), ReactorError>,
        ReactorView,
    ) {
        if !self.side(interest).contains_key(io.0) {
            (Err(ReactorError::InvalidState(io)), self)
        } else if self.side(interest)[io.0] is Shutdown {
            (Err(shutdown_error(io, interest)), self)
        } else {
            (Ok(()), self.with_side(interest, io.0, IoState::Idle))
        }
    }

    /// What comes of an operation on `io` that would block.
    pub open spec fn blocking(self, io: Token, interest: Interest, waker: Waker) -> (
        WouldBlock,
        ReactorView,
    ) {
        match self.side(interest)[io.0] {
            IoState::Shutdown => (WouldBlock::Failed(shutdown_error(io, interest)), self),
            IoState::Ready => (
                WouldBlock::Retry,
                self.with_side(interest, io.0, IoState::Idle),
            ),
            _ => (WouldBlock::Pending, self.with_side(interest, io.0, IoState::Waker(waker))),
        }
    }

    /// The states of `io` for reading and writing once the directions `interests` are shut down, as
    /// far as it is registered for them.
    pub open spec fn shut_down(self, io: Token, interests: Interest) -> ReactorView {
        let reads = interests.readable && self.readable.contains_key(io.0);
        let writes = interests.writable && self.writable.contains_key(io.0) && (
        !interests.readable || reads);
        ReactorView {
            readable: if reads {
                self.readable.insert(io.0, IoState::Shutdown)
            } else {
                self.readable
            },
            writable: if writes {
                self.writable.insert(io.0, IoState::Shutdown)
            } else {
                self.writable
            },
            ..self
        }
    }

    /// What comes of shutting down the directions `interests` of `io`.
    pub open spec fn shutting(self, io: Token, interests: Interest) -> Result<(), ReactorError> {
        if interests.readable && !self.readable.contains_key(io.0) {
            Err(ReactorError::InvalidReadState(io))
        } else if interests.writable && !self.writable.contains_key(io.0) {
            Err(ReactorError::InvalidWriteState(io))
        } else {
            Ok(())
        }
    }

    /// What comes of registering a source under the token `token`, which was taken for it.
    pub open spec fn registering(
        self,
        token: Token,
        interests: Interest,
        outcome: Result<(), ErrorKind>,
    ) -> (Result<Token, ErrorKind>, ReactorView) {
        match outcome {
            Ok(_) => (Ok(token), self),
            Err(err) => (Err(err), self.without_token(token.0, interests)),
        }
    }
}

/// Reactor for mio sources.
pub struct Reactor {
    /// mio `Token` generator.
    token_gen: usize,
    /// stats for io reading ops.
    io_readable_stats: DashMap<usize, IoState>,
    /// stats for io writting ops.
    io_writable_stats: DashMap<usize, IoState>,
    /// timing-wheel
    timing_wheel: TimeWheel<usize>,
}

impl View for Reactor {
    type V = ReactorView;

    closed spec fn view(&self) -> ReactorView {
        ReactorView {
            token_gen: self.token_gen,
            readable: io_states(self.io_readable_stats),
            writable: io_states(self.io_writable_stats),
            tick_interval: self.timing_wheel.tick_interval(),
            ticks: self.timing_wheel.ticks(),
            timers: self.timing_wheel.timers(),
        }
    }
}

impl Reactor {
    /// The timing wheel is well-formed.
    pub closed spec fn wf(self) -> bool {
        self.timing_wheel.wf()
    }

    /// Creates a reactor with minimum timer interval resolution `tick_interval`, in microseconds.
    pub fn new(tick_interval: u128) -> (reactor: Reactor)
        ensures
            reactor.wf(),
            reactor@ == (ReactorView {
                token_gen: 0,
                readable: Map::empty(),
                writable: Map::empty(),
                tick_interval: low_64_bits(tick_interval) as u64,
                ticks: 0,
                timers: Map::empty(),
            }),
            reactor@.timer_count() == 0,
            reactor@.timers_agree(),
            reactor@.tokens_fresh(),
    {
        let reactor = Reactor {
            token_gen: 0,
            io_readable_stats: stats_new(),
            io_writable_stats: stats_new(),
            timing_wheel: TimeWheel::new(tick_interval),
        };
        proof {
            assert(reactor@.readable =~= Map::<usize, IoState>::empty());
            assert(reactor@.writable =~= Map::<usize, IoState>::empty());
            assert forall|token: usize| #[trigger]
                due(reactor@.timers, end_of_time()).to_multiset().count(token) == 0 by {
                vstd::seq_lib::to_multiset_contains(due(reactor@.timers, end_of_time()), token);
            }
        }
        reactor
    }

    /// Takes the next free token for `interests`.
    ///
    /// Returns `None` if every token is in use.
    #[verifier::spinoff_prover]
    pub fn next_token(&mut self, interests: Interest) -> (res: Option<Token>)
        requires
            old(self).wf(),
        ensures
            final(self).wf(),
            match res {
                Some(token) => {
                    &&& old(self)@.takes_first_free(token.0)
                    &&& final(self)@ == old(self)@.with_token(token.0, interests)
                    &&& old(self)@.timers_agree() && old(self)@.queued(token.0) == 0
                        ==> final(self)@.timers_agree()
                    &&& old(self)@.tokens_fresh() && old(self)@.token_gen < usize::MAX ==> {
                        &&& token.0 == old(self)@.token_gen
                        &&& final(self)@.tokens_fresh()
                        &&& old(self)@.timers_agree() ==> final(self)@.timers_agree()
                    }
                },
                None => {
                    &&& forall|token: usize| #[trigger] old(self)@.used(token as int)
                    &&& final(self)@ == old(self)@
                },
            },
    {
        let start: usize = self.token_gen;
        let mut tried: usize = 0;
        proof {
            lemma_advanced_next(start, 0);
        }
        loop
            invariant
                self.wf(),
                start == old(self)@.token_gen,
                self@ == (ReactorView {
                    token_gen: advanced(start, tried as int) as usize,
                    ..old(self)@
                }),
                forall|k: int| 0 <= k < tried ==> old(self)@.used(#[trigger] advanced(start, k)),
            decreases usize::MAX - tried,
        {
            let token: usize = self.token_gen;
            self.token_gen = token.wrapping_add(1);
            proof {
                lemma_advanced_next(start, tried as int);
            }
            if stats_contains(&self.io_readable_stats, token) || stats_contains(
                &self.io_writable_stats,
                token,
            ) {
                if tried == usize::MAX {
                    proof {
                        assert forall|token: usize| #[trigger] old(self)@.used(token as int) by {
                            lemma_advanced_reaches(start, token);
                        }
                        lemma_advanced_wraps(start);
                    }
                    return None;
                }
                tried = tried + 1;
                continue;
            }
            if interests.readable {
                let _ = stats_insert(&mut self.io_readable_stats, token, IoState::Idle);
            }
            if interests.writable {
                let _ = stats_insert(&mut self.io_writable_stats, token, IoState::Idle);
            }
            proof {
                assert(old(self)@.is_first_free(token, tried as int));
                assert(old(self)@.takes_first_free(token));
                assert(self@ =~= old(self)@.with_token(token, interests));
                if old(self)@.timers_agree() && old(self)@.queued(token) == 0 {
                    assert forall|other: usize| #[trigger]
                        self@.readable.contains_key(other) implies self@.queued(other) == (
                    if self@.readable[other] is Timer {
                        1nat
                    } else {
                        0nat
                    }) by {
                        if other != token {
                            assert(old(self)@.readable.contains_key(other));
                        }
                    }
                    assert(self@.timers_agree());
                }
            }
            return Some(Token(token));
        }
    }

    /// Gives up `token` for `interests`.
    #[verifier::spinoff_prover]
    pub fn drop_token(&mut self, token: Token, interests: Interest)
        requires
            old(self).wf(),
        ensures
            final(self).wf(),
            final(self)@ == old(self)@.without_token(token.0, interests),
            old(self)@.timers_agree() ==> final(self)@.timers_agree(),
            old(self)@.tokens_fresh() ==> final(self)@.tokens_fresh(),
    {
        if interests.readable {
            let _ = stats_remove(&mut self.io_readable_stats, token.0);
        }
        if interests.writable {
            let _ = stats_remove(&mut self.io_writable_stats, token.0);
        }
        proof {
            lemma_stays_fresh(old(self)@, self@);
        }
    }

    /// Finishes the registration of a source under the token that was taken for it, when the
    /// registry has answered `outcome`.
    pub fn register(
        &mut self,
        token: Token,
        interests: Interest,
        outcome: Result<(), ErrorKind>,
    ) -> (res: Result<Token, ErrorKind>)
        requires
            old(self).wf(),
        ensures
            final(self).wf(),
            (res, final(self)@) == old(self)@.registering(token, interests, outcome),
            match outcome {
                Ok(_) => res == Ok::<Token, ErrorKind>(token) && final(self)@ == old(self)@,
                Err(err) => {
                    &&& res == Err::<Token, ErrorKind>(err)
                    &&& final(self)@ == old(self)@.without_token(token.0, interests)
                },
            },
            old(self)@.timers_agree() ==> final(self)@.timers_agree(),
            old(self)@.tokens_fresh() ==> final(self)@.tokens_fresh(),
    {
        match outcome {
            Ok(_) => Ok(token),
            Err(err) => {
                self.drop_token(token, interests);
                Err(err)
            },
        }
    }

    /// Gives up `token`, whose source is about to be deregistered.
    pub fn deregister(&mut self, token: Token)
        requires
            old(self).wf(),
        ensures
            final(self).wf(),
            final(self)@ == old(self)@.without_token(
                token.0,
                (Interest { readable: true, writable: true }),
            ),
            old(self)@.timers_agree() ==> final(self)@.timers_agree(),
            old(self)@.tokens_fresh() ==> final(self)@.tokens_fresh(),
    {
        self.drop_token(token, Interest { readable: true, writable: true });
    }

    /// Creates a new `deadline` timer.
    ///
    /// Returns `None` if every token is in use.
    pub fn deadline(&mut self, deadline: u128) -> (res: Option<Token>)
        requires
            old(self).wf(),
        ensures
            final(self).wf(),
            match res {
                Some(token) => {
                    &&& old(self)@.takes_first_free(token.0)
                    &&& final(self)@ == old(self)@.with_token(
                        token.0,
                        (Interest { readable: true, writable: false }),
                    ).with_readable(token.0, IoState::Deadline(deadline))
                    &&& old(self)@.timers_agree() && old(self)@.queued(token.0) == 0
                        ==> final(self)@.timers_agree()
                    &&& old(self)@.tokens_fresh() && old(self)@.token_gen < usize::MAX ==> {
                        &&& token.0 == old(self)@.token_gen
                        &&& final(self)@.tokens_fresh()
                        &&& old(self)@.timers_agree() ==> final(self)@.timers_agree()
                    }
                },
                None => {
                    &&& forall|token: usize| #[trigger] old(self)@.used(token as int)
                    &&& final(self)@ == old(self)@
                },
            },
    {
        let res = self.next_token(Interest { readable: true, writable: false });
        if let Some(token) = res {
            let ghost before = self@;
            let _ = stats_insert(&mut self.io_readable_stats, token.0, IoState::Deadline(deadline));
            assert(self@ =~= before.with_readable(token.0, IoState::Deadline(deadline)));
        }
        res
    }

    /// Deregisters `deadline` timer from the given instance.
    pub fn deregister_timer(&mut self, timer: Token)
        requires
            old(self).wf(),
        ensures
            final(self).wf(),
            final(self)@ == old(self)@.without_token(
                timer.0,
                (Interest { readable: true, writable: false }),
            ),
            old(self)@.timers_agree() ==> final(self)@.timers_agree(),
            old(self)@.tokens_fresh() ==> final(self)@.tokens_fresh(),
    {
        self.drop_token(timer, Interest { readable: true, writable: false });
    }

    /// Polls the timeout stats of one `deadline` timer.
    pub fn poll_timeout(&mut self, timer: Token, waker: Waker) -> (res: TimerPoll)
        requires
            old(self).wf(),
            old(self)@.can_poll_timer(timer),
        ensures
            final(self).wf(),
            res == old(self)@.timer_poll(timer),
            final(self)@ == old(self)@.after_timer_poll(timer, waker),
            final(self)@.timer_count() <= old(self)@.timer_count() + 1,
            old(self)@.timers_agree() ==> final(self)@.timers_agree(),
            old(self)@.tokens_fresh() ==> final(self)@.tokens_fresh(),
    {
        match stats_remove(&mut self.io_readable_stats, timer.0) {
            Some(IoState::Deadline(deadline)) => {
                let ghost before = self.timing_wheel;
                let ticks = self.timing_wheel.deadline(deadline, timer.0);
                if ticks.is_none() {
                    let _ = stats_insert(&mut self.io_readable_stats, timer.0, IoState::Timeout);
                    assert(self@ =~= old(self)@.with_readable(timer.0, IoState::Timeout));
                    return TimerPoll::Ready(Ok(()));
                }
                let _ = stats_insert(&mut self.io_readable_stats, timer.0, IoState::Timer(waker));
                proof {
                    let slot = old(self)@.slot_of(deadline);
                    assert(self@ =~= old(self)@.with_readable(
                        timer.0,
                        IoState::Timer(waker),
                    ).with_timer(slot as u64, timer.0));
                    lemma_due_with_timer(before.timers(), slot as u64, timer.0, end_of_time());
                }
                TimerPoll::Pending
            },
            Some(IoState::Timer(_)) => {
                let _ = stats_insert(&mut self.io_readable_stats, timer.0, IoState::Timer(waker));
                assert(self@ =~= old(self)@.with_readable(timer.0, IoState::Timer(waker)));
                TimerPoll::Pending
            },
            Some(state) => {
                let _ = stats_insert(&mut self.io_readable_stats, timer.0, state);
                assert(self@ =~= old(self)@);
                TimerPoll::Ready(Ok(()))
            },
            None => {
                assert(self@ =~= old(self)@);
                TimerPoll::Ready(Err(ReactorError::TimerNotFound(timer)))
            },
        }
    }

    /// Processes an event for `token` and returns the tasks to wake up.
    pub fn io_event(&mut self, token: Token, event: Event) -> (wakers: Vec<Waker>)
        requires
            old(self).wf(),
            old(self)@.can_raise(token, event),
        ensures
            final(self).wf(),
            final(self)@ == old(self)@.after_event(token.0, event),
            wakers@ == old(self)@.woken_by(token.0, event),
            old(self)@.timers_agree() ==> final(self)@.timers_agree(),
            old(self)@.tokens_fresh() ==> final(self)@.tokens_fresh(),
    {
        let mut wakers: Vec<Waker> = Vec::new();
        if event.read_closed || event.readable {
            raise_state(&mut self.io_readable_stats, token.0, &mut wakers);
        }
        if event.write_closed || event.writable {
            raise_state(&mut self.io_writable_stats, token.0, &mut wakers);
        }
        proof {
            assert(wakers@ =~= old(self)@.woken_by(token.0, event));
            assert(self@.readable.dom() =~= old(self)@.readable.dom());
            assert(self@.writable.dom() =~= old(self)@.writable.dom());
            lemma_stays_fresh(old(self)@, self@);
        }
        wakers
    }

    /// Moves the timing wheel to the time `now` and returns the tasks to wake up: those that wait
    /// for a timer that has expired.
    ///
    /// Returns `None` if no task waits for a timer that has expired, or if it has expired twice.
    pub fn timing_wheel_ticks(&mut self, now: u128) -> (res: Option<Vec<Waker>>)
        requires
            old(self).wf(),
            old(self)@.tick_interval > 0,
        ensures
            final(self).wf(),
            final(self)@ == old(self)@.after_ticks(now),
            match res {
                Some(wakers) => {
                    &&& old(self)@.can_expire(now)
                    &&& wakers@ == timer_wakers(old(self)@.readable, old(self)@.expired(now))
                },
                None => !old(self)@.can_expire(now),
            },
            old(self)@.timer_count() == final(self)@.timer_count() + old(self)@.expired(now).len(),
            old(self)@.timers_agree() ==> res is Some && final(self)@.timers_agree(),
            old(self)@.tokens_fresh() ==> final(self)@.tokens_fresh(),
    {
        let mut tokens: Vec<usize> = Vec::new();
        let _ = self.timing_wheel.poll(now, &mut tokens);
        let ghost expired = old(self)@.expired(now);
        assert(tokens@ =~= expired);
        let ghost before = old(self)@.readable;
        let ghost moved = *self;
        let mut wakers: Vec<Waker> = Vec::new();
        let mut waited_for: bool = true;
        let mut i: usize = 0;
        assert(timed_out(before, expired.take(0)) =~= before);
        while i < tokens.len()
            invariant
                i <= tokens@.len(),
                tokens@ == expired,
                self.token_gen == moved.token_gen,
                self.io_writable_stats == moved.io_writable_stats,
                self.timing_wheel == moved.timing_wheel,
                io_states(self.io_readable_stats) == timed_out(before, expired.take(i as int)),
                waited_for == can_time_out(before, expired.take(i as int)),
                waited_for ==> wakers@ == timer_wakers(before, expired.take(i as int)),
            decreases tokens.len() - i,
        {
            let token: usize = tokens[i];
            let ghost seen = expired.take(i as int);
            proof {
                assert(expired.take(i + 1).drop_last() =~= seen);
                assert(expired.take(i + 1) =~= seen.push(token));
                lemma_can_time_out(before, seen, token);
                assert forall|other: usize| #[trigger]
                    seen.push(token).contains(other) <==> other == token || seen.contains(other) by {
                    vstd::seq_lib::lemma_seq_contains_after_push(seen, token, other);
                }
            }
            if let Some(state) = stats_remove(&mut self.io_readable_stats, token) {
                let _ = stats_insert(&mut self.io_readable_stats, token, IoState::Timeout);
                if let IoState::Timer(waker) = state {
                    wakers.push(waker);
                } else {
                    waited_for = false;
                }
            }
            proof {
                assert(io_states(self.io_readable_stats) =~= timed_out(
                    before,
                    expired.take(i + 1),
                ));
                if waited_for {
                    assert(wakers@ =~= timer_wakers(before, expired.take(i + 1)));
                }
            }
            i = i + 1;
        }
        proof {
            assert(expired.take(expired.len() as int) =~= expired);
            old(self)@.lemma_ticks_agree(now);
        }
        if waited_for {
            Some(wakers)
        } else {
            None
        }
    }

    /// Tells whether [`poll_timeout`](Self::poll_timeout) may be called for `timer`.
    pub fn can_poll_timer(&mut self, timer: Token) -> (res: bool)
        requires
            old(self).wf(),
        ensures
            final(self).wf(),
            final(self)@ == old(self)@,
            res == old(self)@.can_poll_timer(timer),
    {
        if self.timing_wheel.interval() == 0 {
            return false;
        }
        match stats_remove(&mut self.io_readable_stats, timer.0) {
            Some(state) => {
                let res: bool = match &state {
                    IoState::Deadline(deadline) => self.timing_wheel.has_room(*deadline),
                    IoState::Timeout | IoState::Timer(_) => true,
                    _ => false,
                };
                let _ = stats_insert(&mut self.io_readable_stats, timer.0, state);
                assert(self@ =~= old(self)@);
                res
            },
            None => {
                assert(self@ =~= old(self)@);
                true
            },
        }
    }

    /// Tells whether there is room for one more timer in the timing wheel.
    pub fn can_add_timer(&self) -> (res: bool)
        requires
            self.wf(),
        ensures
            res == self@.can_add_timer(),
    {
        self.timing_wheel.interval() > 0 && self.timing_wheel.len() < usize::MAX
    }

    /// Tells whether [`io_event`](Self::io_event) may be called for `token` with `event`.
    pub fn can_raise(&mut self, token: Token, event: Event) -> (res: bool)
        requires
            old(self).wf(),
        ensures
            final(self).wf(),
            final(self)@ == old(self)@,
            res == old(self)@.can_raise(token, event),
    {
        let readable: bool = !(event.readable || event.read_closed) || self.can_poll_io(
            token,
            Interest { readable: true, writable: false },
        );
        let writable: bool = !(event.writable || event.write_closed) || self.can_poll_io(
            token,
            Interest { readable: false, writable: true },
        );
        readable && writable
    }

    /// Tells whether [`poll_io`](Self::poll_io) may be called for `io` with `interest`.
    pub fn can_poll_io(&mut self, io: Token, interest: Interest) -> (res: bool)
        requires
            old(self).wf(),
        ensures
            final(self).wf(),
            final(self)@ == old(self)@,
            res == old(self)@.can_poll_io(io, interest),
    {
        if !interest.readable && !interest.writable {
            return false;
        }
        match self.take(io, interest) {
            Some(state) => {
                let res: bool = match &state {
                    IoState::Waker(_) | IoState::Ready | IoState::Idle | IoState::Shutdown => true,
                    _ => false,
                };
                self.put(io, interest, state);
                assert(self@ =~= old(self)@);
                res
            },
            None => {
                assert(self@ =~= old(self)@);
                true
            },
        }
    }

    /// Tells whether [`would_block`](Self::would_block) may be called for `io` with `interest`.
    pub fn can_block(&mut self, io: Token, interest: Interest) -> (res: bool)
        requires
            old(self).wf(),
        ensures
            final(self).wf(),
            final(self)@ == old(self)@,
            res == old(self)@.can_block(io, interest),
    {
        if !self.can_poll_io(io, interest) {
            return false;
        }
        match self.take(io, interest) {
            Some(state) => {
                let parked: bool = match &state {
                    IoState::Waker(_) => true,
                    _ => false,
                };
                self.put(io, interest, state);
                assert(self@ =~= old(self)@);
                !parked
            },
            None => {
                assert(self@ =~= old(self)@);
                false
            },
        }
    }

    /// Shuts down the directions `interests` of `io`.
    ///
    /// Returns the outcome and the tasks to wake up.
    pub fn shutdown(&mut self, io: Token, interests: Interest) -> (res: (
        Result<(), ReactorError>,
        Vec<Waker>,
    ))
        requires
            old(self).wf(),
        ensures
            final(self).wf(),
            res.0 == old(self)@.shutting(io, interests),
            final(self)@ == old(self)@.shut_down(io, interests),
            ({
                let before = old(self)@;
                let no_read = interests.readable && !before.readable.contains_key(io.0);
                let no_write = interests.writable && !before.writable.contains_key(io.0);
                &&& res.0 == (if no_read {
                    Err(ReactorError::InvalidReadState(io))
                } else if no_write {
                    Err(ReactorError::InvalidWriteState(io))
                } else {
                    Ok(())
                })
                &&& final(self)@ == (ReactorView {
                    readable: if interests.readable && !no_read {
                        before.readable.insert(io.0, IoState::Shutdown)
                    } else {
                        before.readable
                    },
                    writable: if interests.writable && !no_read && !no_write {
                        before.writable.insert(io.0, IoState::Shutdown)
                    } else {
                        before.writable
                    },
                    ..before
                })
                &&& res.1@ == (if interests.readable {
                    woken(before.readable, io.0)
                } else {
                    Seq::empty()
                }) + (if interests.writable && !no_read {
                    woken(before.writable, io.0)
                } else {
                    Seq::empty()
                })
                &&& before.timers_agree() && (interests.readable && before.readable.contains_key(
                    io.0,
                ) ==> !(before.readable[io.0] is Timer)) ==> final(self)@.timers_agree()
                &&& before.tokens_fresh() ==> final(self)@.tokens_fresh()
            }),
    {
        let mut wakers: Vec<Waker> = Vec::new();
        if interests.readable {
            match stats_remove(&mut self.io_readable_stats, io.0) {
                Some(state) => {
                    let _ = stats_insert(&mut self.io_readable_stats, io.0, IoState::Shutdown);
                    if let IoState::Waker(waker) = state {
                        wakers.push(waker);
                    }
                },
                None => {
                    proof {
                        assert(self@ =~= old(self)@);
                        assert(wakers@ =~= Seq::<Waker>::empty() + Seq::<Waker>::empty());
                    }
                    return (Err(ReactorError::InvalidReadState(io)), wakers);
                },
            }
        }
        let ghost first = wakers@;
        if interests.writable {
            match stats_remove(&mut self.io_writable_stats, io.0) {
                Some(state) => {
                    let _ = stats_insert(&mut self.io_writable_stats, io.0, IoState::Shutdown);
                    if let IoState::Waker(waker) = state {
                        wakers.push(waker);
                    }
                },
                None => {
                    assert(wakers@ =~= first + Seq::<Waker>::empty());
                    return (Err(ReactorError::InvalidWriteState(io)), wakers);
                },
            }
        }
        (Ok(()), wakers)
    }

    /// Begins an attempt to execute an operator on `io` in the direction of `interest`: reading, if
    /// that is among the interests.
    ///
    /// On success the caller executes the operator. If that would block, it calls
    /// [`would_block`](Self::would_block); whatever else comes out of it is the result.
    pub fn poll_io(&mut self, io: Token, interest: Interest) -> (res: Result<(), ReactorError>)
        requires
            old(self).wf(),
            old(self)@.can_poll_io(io, interest),
        ensures
            final(self).wf(),
            (res, final(self)@) == old(self)@.beginning(io, interest),
            if !old(self)@.side(interest).contains_key(io.0) {
                &&& res == Err::<(), ReactorError>(ReactorError::InvalidState(io))
                &&& final(self)@ == old(self)@
            } else if old(self)@.side(interest)[io.0] is Shutdown {
                &&& res == Err::<(), ReactorError>(shutdown_error(io, interest))
                &&& final(self)@ == old(self)@
            } else {
                &&& res is Ok
                &&& final(self)@ == old(self)@.with_side(interest, io.0, IoState::Idle)
            },
            old(self)@.timers_agree() ==> final(self)@.timers_agree(),
            old(self)@.tokens_fresh() ==> final(self)@.tokens_fresh(),
    {
        match self.take(io, interest) {
            None => {
                assert(self@ =~= old(self)@);
                Err(ReactorError::InvalidState(io))
            },
            Some(IoState::Shutdown) => {
                self.put(io, interest, IoState::Shutdown);
                assert(self@ =~= old(self)@);
                Err(shutdown_failure(io, interest))
            },
            Some(_) => {
                self.put(io, interest, IoState::Idle);
                proof {
                    assert(self@ =~= old(self)@.with_side(interest, io.0, IoState::Idle));
                    lemma_stays_fresh(old(self)@, self@);
                }
                Ok(())
            },
        }
    }

    /// Decides what follows when an operator that [`poll_io`](Self::poll_io) has let through would
    /// block.
    ///
    /// The task is parked, and `waker` kept to wake it up, unless an event or a shutdown came in
    /// since the attempt began.
    pub fn would_block(&mut self, io: Token, interest: Interest, waker: Waker) -> (res: WouldBlock)
        requires
            old(self).wf(),
            old(self)@.can_block(io, interest),
        ensures
            final(self).wf(),
            (res, final(self)@) == old(self)@.blocking(io, interest, waker),
            match old(self)@.side(interest)[io.0] {
                IoState::Ready => {
                    &&& res == WouldBlock::Retry
                    &&& final(self)@ == old(self)@.with_side(interest, io.0, IoState::Idle)
                },
                IoState::Shutdown => {
                    &&& res == WouldBlock::Failed(shutdown_error(io, interest))
                    &&& final(self)@ == old(self)@
                },
                _ => {
                    &&& res == WouldBlock::Pending
                    &&& final(self)@ == old(self)@.with_side(interest, io.0, IoState::Waker(waker))
                },
            },
            old(self)@.timers_agree() ==> final(self)@.timers_agree(),
            old(self)@.tokens_fresh() ==> final(self)@.tokens_fresh(),
    {
        match self.take(io, interest) {
            Some(IoState::Shutdown) => {
                self.put(io, interest, IoState::Shutdown);
                assert(self@ =~= old(self)@);
                WouldBlock::Failed(shutdown_failure(io, interest))
            },
            Some(IoState::Ready) => {
                self.put(io, interest, IoState::Idle);
                proof {
                    assert(self@ =~= old(self)@.with_side(interest, io.0, IoState::Idle));
                    lemma_stays_fresh(old(self)@, self@);
                }
                WouldBlock::Retry
            },
            _ => {
                self.put(io, interest, IoState::Waker(waker));
                proof {
                    assert(self@ =~= old(self)@.with_side(interest, io.0, IoState::Waker(waker)));
                    lemma_stays_fresh(old(self)@, self@);
                }
                WouldBlock::Pending
            },
        }
    }

    fn take(&mut self, io: Token, interest: Interest) -> (res: Option<IoState>)
        requires
            old(self).wf(),
        ensures
            final(self).wf(),
            res == if old(self)@.side(interest).contains_key(io.0) {
                Some(old(self)@.side(interest)[io.0])
            } else {
                None
            },
            final(self)@ == old(self)@.without_token(
                io.0,
                (Interest { readable: interest.readable, writable: !interest.readable }),
            ),
    {
        if interest.readable {
            stats_remove(&mut self.io_readable_stats, io.0)
        } else {
            stats_remove(&mut self.io_writable_stats, io.0)
        }
    }

    fn put(&mut self, io: Token, interest: Interest, state: IoState)
        requires
            old(self).wf(),
        ensures
            final(self).wf(),
            final(self)@ == old(self)@.with_side(interest, io.0, state),
    {
        if interest.readable {
            let _ = stats_insert(&mut self.io_readable_stats, io.0, state);
        } else {
            let _ = stats_insert(&mut self.io_writable_stats, io.0, state);
        }
    }
}

/// Processes an event for `token` in one direction.
fn raise_state(stats: &mut DashMap<usize, IoState>, token: usize, wakers: &mut Vec<Waker>)
    requires
        io_states(*old(stats)).contains_key(token) ==> is_io(io_states(*old(stats))[token]),
    ensures
        io_states(*final(stats)) == raise(io_states(*old(stats)), token),
        final(wakers)@ == old(wakers)@ + woken(io_states(*old(stats)), token),
{
    let ghost states = io_states(*stats);
    match stats_remove(stats, token) {
        Some(IoState::Waker(waker)) => {
            let _ = stats_insert(stats, token, IoState::Ready);
            wakers.push(waker);
            assert(wakers@ =~= old(wakers)@ + woken(states, token));
        },
        Some(IoState::Idle) => {
            let _ = stats_insert(stats, token, IoState::Ready);
        },
        Some(state) => {
            let _ = stats_insert(stats, token, state);
        },
        None => {},
    }
    assert(io_states(*stats) =~= raise(states, token));
    assert(wakers@ =~= old(wakers)@ + woken(states, token));
}

/// The error of an operation on a direction that has been shut down.
pub open spec fn shutdown_error(io: Token, interest: Interest) -> ReactorError {
    if interest.readable {
        ReactorError::ShutdownReadable(io)
    } else {
        ReactorError::ShutdownWritable(io)
    }
}

fn shutdown_failure(io: Token, interest: Interest) -> (err: ReactorError)
    ensures
        err == shutdown_error(io, interest),
{
    if interest.readable {
        ReactorError::ShutdownReadable(io)
    } else {
        ReactorError::ShutdownWritable(io)
    }
}

/// `event` concerns the direction of `interest`.
pub open spec fn concerns(event: Event, interest: Interest) -> bool {
    if interest.readable {
        event.readable || event.read_closed
    } else {
        event.writable || event.write_closed
    }
}

/// No event is lost: when one comes in after an attempt has begun and before the task is parked, the
/// direction is ready, so that the attempt is repeated.
pub proof fn lemma_no_lost_event(view: ReactorView, io: usize, interest: Interest, event: Event)
    requires
        concerns(event, interest),
    ensures
        view.with_side(interest, io, IoState::Idle).after_event(io, event).side(
            interest,
        ).contains_key(io),
        view.with_side(interest, io, IoState::Idle).after_event(io, event).side(interest)[io]
            is Ready,
{
}

/// A parked task is woken up by the next event, which leaves the direction ready.
pub proof fn lemma_parked_task_is_woken(
    view: ReactorView,
    io: usize,
    interest: Interest,
    waker: Waker,
    event: Event,
)
    requires
        view.side(interest).contains_key(io),
        view.side(interest)[io] == IoState::Waker(waker),
        concerns(event, interest),
    ensures
        view.woken_by(io, event).contains(waker),
        view.after_event(io, event).side(interest)[io] is Ready,
{
    let woken = view.woken_by(io, event);
    if interest.readable {
        assert(woken[0] == waker);
    } else {
        assert(woken[woken.len() - 1] == waker);
    }
}

/// A shutdown lasts: no event brings the direction back.
pub proof fn lemma_shutdown_lasts(view: ReactorView, io: usize, interest: Interest, event: Event)
    requires
        view.side(interest).contains_key(io),
        view.side(interest)[io] is Shutdown,
    ensures
        view.after_event(io, event).side(interest)[io] is Shutdown,
{
}

/// A failed registration leaves no trace but the advanced token generator.
pub proof fn lemma_failed_registration(view: ReactorView, token: usize, interests: Interest)
    requires
        !view.used(token as int),
    ensures
        view.with_token(token, interests).without_token(token, interests) == (ReactorView {
            token_gen: advanced(token, 1) as usize,
            ..view
        }),
{
    let after = view.with_token(token, interests).without_token(token, interests);
    assert(after.readable =~= view.readable);
    assert(after.writable =~= view.writable);
}

/// When a timer expires, the task that waits for it is woken up, and the timer stays expired.
pub proof fn lemma_expired_timer_is_woken(view: ReactorView, now: u128, timer: usize, waker: Waker)
    requires
        view.readable.contains_key(timer),
        view.readable[timer] == IoState::Timer(waker),
        view.expired(now).contains(timer),
    ensures
        timer_wakers(view.readable, view.expired(now)).contains(waker),
        view.after_ticks(now).readable[timer] is Timeout,
{
    let i = choose|i: int| 0 <= i < view.expired(now).len() && view.expired(now)[i] == timer;
    lemma_timer_wakers(view.readable, view.expired(now), i, waker);
}

proof fn lemma_timer_wakers(
    states: Map<usize, IoState>,
    tokens: Seq<usize>,
    i: int,
    waker: Waker,
)
    requires
        0 <= i < tokens.len(),
        states.contains_key(tokens[i]),
        states[tokens[i]] == IoState::Timer(waker),
    ensures
        timer_wakers(states, tokens).contains(waker),
    decreases tokens.len(),
{
    let all = timer_wakers(states, tokens);
    let first = timer_wakers(states, tokens.drop_last());
    if i == tokens.len() - 1 {
        assert(all[all.len() - 1] == waker);
    } else {
        lemma_timer_wakers(states, tokens.drop_last(), i, waker);
        let k = choose|k: int| 0 <= k < first.len() && first[k] == waker;
        assert(all[k] == waker);
    }
}

} // verus!
