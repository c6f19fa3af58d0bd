//! What a reactor does with tokens, events and timers.

use std::task::Waker;

use crate::conn::{has_set_timer, waits_for_timeout};
use crate::errors::ErrorKind;
use crate::laws::timing_wheel::{lemma_tick_of_a_deadline, lemma_what_is_due};
use crate::laws::token::lemma_next_token;
use crate::reactor::{
    concerns, raise, shutdown_error, timed_out, timer_wakers, woken, Event, Interest, IoState,
    ReactorError, ReactorView, TimerPoll, WouldBlock,
};
use crate::timers::{lemma_timer_over_time, ReactorStep};
use crate::timing_wheel::{due, end_of_time, low_64_bits};
use crate::token::{advanced, Token};
use vstd::prelude::*;

verus! {

/// The token that is taken is free, and every token from the next one to try up to it, counting on
/// from zero after the largest one, is in use.
pub proof fn lemma_first_free_token(view: ReactorView, token: usize, other: usize)
    requires
        view.takes_first_free(token),
    ensures
        !view.readable.contains_key(token),
        !view.writable.contains_key(token),
        ({
            let between = if view.token_gen <= token {
                view.token_gen <= other < token
            } else {
                other >= view.token_gen || other < token
            };
            between ==> view.readable.contains_key(other) || view.writable.contains_key(other)
        }),
{
    let distance = choose|distance: int| #[trigger] view.is_first_free(token, distance);
    let start = view.token_gen;
    let m = usize::MAX + 1;
    assert(!view.used(token as int));
    lemma_next_token(start, distance as usize);
    let between = if start <= token {
        start <= other < token
    } else {
        other >= start || other < token
    };
    if between {
        let k = if other >= start {
            other - start
        } else {
            other - start + m
        };
        lemma_next_token(start, k as usize);
        assert(0 <= k < distance);
        assert(advanced(start, k) == other);
        assert(view.used(advanced(start, k)));
    }
}

/// A token is in use if and only if it is registered for reading or for writing.
pub proof fn lemma_used_token(view: ReactorView, token: usize)
    ensures
        view.used(token as int) <==> view.readable.contains_key(token)
            || view.writable.contains_key(token),
{
}

/// Taking a token registers it for the interests, with nothing having happened, and leaves every
/// other token alone; the next one to try is the one after it.
pub proof fn lemma_taken_token(view: ReactorView, token: usize, interests: Interest, other: usize)
    ensures
        ({
            let after = view.with_token(token, interests);
            &&& after.token_gen == (if token == usize::MAX {
                0
            } else {
                token + 1
            })
            &&& interests.readable ==> after.readable.contains_key(token) && after.readable[token]
                == IoState::Idle
            &&& interests.writable ==> after.writable.contains_key(token) && after.writable[token]
                == IoState::Idle
            &&& !interests.readable || other != token ==> same_at(
                after.readable,
                view.readable,
                other,
            )
            &&& !interests.writable || other != token ==> same_at(
                after.writable,
                view.writable,
                other,
            )
            &&& after.timers == view.timers
            &&& after.ticks == view.ticks
            &&& after.tick_interval == view.tick_interval
        }),
{
    lemma_next_token(token, 1);
}

/// Two maps hold the same for a token.
pub open spec fn same_at(a: Map<usize, IoState>, b: Map<usize, IoState>, token: usize) -> bool {
    a.contains_key(token) == b.contains_key(token) && a[token] == b[token]
}

/// Giving up a token takes it out of the directions given, and leaves every other token alone.
pub proof fn lemma_dropped_token(view: ReactorView, token: usize, interests: Interest, other: usize)
    ensures
        ({
            let after = view.without_token(token, interests);
            &&& interests.readable ==> !after.readable.contains_key(token)
            &&& interests.writable ==> !after.writable.contains_key(token)
            &&& !interests.readable || other != token ==> same_at(
                after.readable,
                view.readable,
                other,
            )
            &&& !interests.writable || other != token ==> same_at(
                after.writable,
                view.writable,
                other,
            )
            &&& after.token_gen == view.token_gen
            &&& after.timers == view.timers
            &&& after.ticks == view.ticks
            &&& after.tick_interval == view.tick_interval
        }),
{
}

/// An operation that may read works on the reading side, and any other on the writing side; it
/// changes the state of its token there, and nothing else.
pub proof fn lemma_side_of_an_operation(
    view: ReactorView,
    interest: Interest,
    token: usize,
    state: IoState,
    other: usize,
)
    ensures
        interest.readable ==> view.side(interest) == view.readable,
        !interest.readable ==> view.side(interest) == view.writable,
        ({
            let after = view.with_side(interest, token, state);
            &&& after.side(interest).contains_key(token) && after.side(interest)[token] == state
            &&& other != token || !interest.readable ==> same_at(
                after.readable,
                view.readable,
                other,
            )
            &&& other != token || interest.readable ==> same_at(
                after.writable,
                view.writable,
                other,
            )
            &&& after.token_gen == view.token_gen
            &&& after.timers == view.timers
            &&& after.ticks == view.ticks
            &&& after.tick_interval == view.tick_interval
        }),
        view.with_readable(token, state).readable == view.readable.insert(token, state),
        view.with_readable(token, state).writable == view.writable,
        view.with_readable(token, state).timers == view.timers,
        view.with_writable(token, state).writable == view.writable.insert(token, state),
        view.with_writable(token, state).readable == view.readable,
{
}

/// An event in one direction makes a parked task or an untouched source ready, and changes nothing
/// else: what is ready stays so, and a shutdown lasts.
pub proof fn lemma_raised_state(states: Map<usize, IoState>, token: usize, other: usize)
    ensures
        ({
            let after = raise(states, token);
            &&& after.dom() == states.dom()
            &&& other != token ==> same_at(after, states, other)
            &&& states.contains_key(token) ==> {
                &&& states[token] is Waker || states[token] is Idle ==> after[token]
                    == IoState::Ready
                &&& !(states[token] is Waker) && !(states[token] is Idle) ==> after[token]
                    == states[token]
            }
        }),
{
    assert(raise(states, token).dom() =~= states.dom());
}

/// An event in one direction wakes up the task that is parked there, once, and no other one.
pub proof fn lemma_woken_task(states: Map<usize, IoState>, token: usize, waker: Waker)
    ensures
        woken(states, token).len() == (if states.contains_key(token) && states[token] is Waker {
            1int
        } else {
            0
        }),
        states.contains_key(token) && states[token] == IoState::Waker(waker) ==> woken(
            states,
            token,
        )[0] == waker,
{
}

/// An event concerns reading if the source is readable or closed for reading, and writing if it is
/// writable or closed for writing; it raises the states of its token in these directions, and wakes
/// up the tasks that are parked there, the reading one first. It changes nothing else.
pub proof fn lemma_event_by_direction(
    view: ReactorView,
    token: usize,
    event: Event,
    interest: Interest,
)
    ensures
        ({
            let after = view.after_event(token, event);
            let reads = event.readable || event.read_closed;
            let writes = event.writable || event.write_closed;
            let none = Seq::<Waker>::empty();
            &&& reads ==> after.readable == raise(view.readable, token)
            &&& !reads ==> after.readable == view.readable
            &&& writes ==> after.writable == raise(view.writable, token)
            &&& !writes ==> after.writable == view.writable
            &&& after.token_gen == view.token_gen
            &&& after.timers == view.timers
            &&& after.ticks == view.ticks
            &&& after.tick_interval == view.tick_interval
            &&& reads && writes ==> view.woken_by(token, event) == woken(view.readable, token)
                + woken(view.writable, token)
            &&& reads && !writes ==> view.woken_by(token, event) == woken(view.readable, token)
            &&& !reads && writes ==> view.woken_by(token, event) == woken(view.writable, token)
            &&& !reads && !writes ==> view.woken_by(token, event) == none
            &&& concerns(event, interest) <==> (if interest.readable {
                reads
            } else {
                writes
            })
        }),
{
    let none = Seq::<Waker>::empty();
    assert(woken(view.readable, token) + none =~= woken(view.readable, token));
    assert(none + woken(view.writable, token) =~= woken(view.writable, token));
    assert(none + none =~= none);
}

/// The error of a direction that was shut down names the direction and the token.
pub proof fn lemma_shutdown_error(io: Token, interest: Interest)
    ensures
        interest.readable ==> shutdown_error(io, interest) == ReactorError::ShutdownReadable(io),
        !interest.readable ==> shutdown_error(io, interest) == ReactorError::ShutdownWritable(io),
{
}

/// A timer waits as long as its deadline lies after the time of the last tick, and its slot begins
/// at the deadline or less than a tick after it.
pub proof fn lemma_timer_waits_for_its_deadline(view: ReactorView, deadline: u128)
    requires
        view.tick_interval > 0,
    ensures
        view.slot_of(deadline) > view.ticks <==> low_64_bits(deadline) > view.ticks
            * view.tick_interval,
        (view.slot_of(deadline) - 1) * view.tick_interval < low_64_bits(deadline)
            <= view.slot_of(deadline) * view.tick_interval,
        0 <= view.slot_of(deadline) <= u64::MAX,
{
    let d = view.tick_interval as int;
    let at = low_64_bits(deadline);
    lemma_tick_of_a_deadline(at, d);
    assert((view.ticks as int * d < at) <==> view.ticks < view.slot_of(deadline));
    assert(view.slot_of(deadline) <= u64::MAX) by {
        if at > 0 {
            assert((at * d < at) == (at < view.slot_of(deadline)));
            assert(at * d >= at) by (nonlinear_arith)
                requires
                    at > 0,
                    d >= 1,
            ;
        } else {
            assert(((0 * d) < at) == (0 < view.slot_of(deadline)));
        }
    }
}

/// Asking for a timer: one that is not known is reported, one that has expired is ready, again and
/// again, and one that waits keeps the task that has asked last. A timer that nobody has asked for
/// yet is ready if and only if its deadline does not lie after the time of the last tick; otherwise
/// it joins the slot of its deadline.
pub proof fn lemma_asking_for_a_timer(view: ReactorView, timer: usize, waker: Waker, deadline: u128)
    requires
        view.tick_interval > 0,
    ensures
        ({
            let after = view.after_timer_poll(Token(timer), waker);
            let res = view.timer_poll(Token(timer));
            let known = view.readable.contains_key(timer);
            let state = view.readable[timer];
            let early = low_64_bits(deadline) > view.ticks * view.tick_interval;
            let slot = view.slot_of(deadline) as u64;
            &&& !known ==> {
                &&& res == TimerPoll::Ready(Err(ReactorError::TimerNotFound(Token(timer))))
                &&& after == view
            }
            &&& known && state is Timeout ==> res == TimerPoll::Ready(Ok(())) && after == view
            &&& known && state is Timer ==> {
                &&& res == TimerPoll::Pending
                &&& after == (ReactorView {
                    readable: view.readable.insert(timer, IoState::Timer(waker)),
                    ..view
                })
            }
            &&& known && state == IoState::Deadline(deadline) && !early ==> {
                &&& res == TimerPoll::Ready(Ok(()))
                &&& after == (ReactorView {
                    readable: view.readable.insert(timer, IoState::Timeout),
                    ..view
                })
            }
            &&& known && state == IoState::Deadline(deadline) && early ==> {
                &&& res == TimerPoll::Pending
                &&& after.readable == view.readable.insert(timer, IoState::Timer(waker))
                &&& after.timers.contains_key(slot) && after.timers[slot].last() == timer
                &&& after.timers[slot].drop_last() == (if view.timers.contains_key(slot) {
                    view.timers[slot]
                } else {
                    Seq::empty()
                })
                &&& after.timers.remove(slot) == view.timers.remove(slot)
                &&& after == (ReactorView { readable: after.readable, timers: after.timers, ..view })
            }
        }),
{
    lemma_timer_waits_for_its_deadline(view, deadline);
    let after = view.after_timer_poll(Token(timer), waker);
    let slot = view.slot_of(deadline) as u64;
    let early = low_64_bits(deadline) > view.ticks * view.tick_interval;
    if view.readable.contains_key(timer) && view.readable[timer] == IoState::Deadline(deadline)
        && early {
        let before = if view.timers.contains_key(slot) {
            view.timers[slot]
        } else {
            Seq::empty()
        };
        assert(after.timers[slot] == before.push(timer));
        assert(after.timers[slot].drop_last() =~= before);
        assert(after.timers.remove(slot) =~= view.timers.remove(slot));
    }
}

/// Moving the timing wheel to a time: the last tick is the one that the time lies in. A timer has
/// expired if and only if its slot begins at that time or before it. Known timers that have expired
/// have timed out and have left the wheel; all others wait on.
pub proof fn lemma_moving_to_a_time(view: ReactorView, now: u128, token: usize, slot: u64)
    requires
        view.tick_interval > 0,
    ensures
        ({
            let after = view.after_ticks(now);
            let at = low_64_bits(now);
            let expired = exists|slot: u64| #[trigger]
                view.timers.contains_key(slot) && slot * view.tick_interval <= at
                    && view.timers[slot].contains(token);
            &&& after.ticks * view.tick_interval <= at < (after.ticks + 1) * view.tick_interval
            &&& view.expired(now).contains(token) <==> expired
            &&& after.readable.contains_key(token) == view.readable.contains_key(token)
            &&& view.readable.contains_key(token) ==> after.readable[token] == (if expired {
                IoState::Timeout
            } else {
                view.readable[token]
            })
            &&& after.timers.contains_key(slot) <==> view.timers.contains_key(slot) && slot
                * view.tick_interval > at
            &&& after.timers.contains_key(slot) ==> after.timers[slot] == view.timers[slot]
            &&& after.writable == view.writable
            &&& after.token_gen == view.token_gen
            &&& after.tick_interval == view.tick_interval
        }),
{
    let d = view.tick_interval as int;
    let at = low_64_bits(now);
    let t = at / d;
    vstd::arithmetic::div_mod::lemma_fundamental_div_mod(at, d);
    vstd::arithmetic::div_mod::lemma_mod_bound(at, d);
    vstd::arithmetic::div_mod::lemma_div_pos_is_pos(at, d);
    vstd::arithmetic::div_mod::lemma_div_is_ordered_by_denominator(at, 1, d);
    assert(t * d <= at < (t + 1) * d) by (nonlinear_arith)
        requires
            at == d * t + at % d,
            0 <= at % d < d,
    ;
    assert forall|slot: u64| (#[trigger] (slot * view.tick_interval) <= at) == (slot <= t) by {
        if slot <= t {
            assert(slot * d <= t * d) by (nonlinear_arith)
                requires
                    slot <= t,
                    d > 0,
            ;
        } else {
            assert(slot * d >= (t + 1) * d) by (nonlinear_arith)
                requires
                    slot >= t + 1,
                    d > 0,
            ;
        }
    }
    lemma_what_is_due(view.timers, (t + 1) as nat, token);
    if exists|slot: u64| #[trigger]
        view.timers.contains_key(slot) && slot * view.tick_interval <= at
            && view.timers[slot].contains(token) {
        let slot = choose|slot: u64| #[trigger]
            view.timers.contains_key(slot) && slot * view.tick_interval <= at
                && view.timers[slot].contains(token);
        assert(slot < t + 1);
    }
    if view.expired(now).contains(token) {
        let slot = choose|slot: u64|
            slot < t + 1 && #[trigger] view.timers.contains_key(slot)
                && view.timers[slot].contains(token);
        assert(slot * view.tick_interval <= at);
    }
}

/// The task that waits for a timer that has expired is woken up; a timer that is not known, or that
/// nobody waits for, wakes up nobody.
pub proof fn lemma_tasks_of_expired_timers(
    states: Map<usize, IoState>,
    tokens: Seq<usize>,
    token: usize,
    waker: Waker,
)
    ensures
        timer_wakers(states, Seq::<usize>::empty()) == Seq::<Waker>::empty(),
        states.contains_key(token) && states[token] == IoState::Timer(waker) ==> timer_wakers(
            states,
            tokens.push(token),
        ) == timer_wakers(states, tokens).push(waker),
        !(states.contains_key(token) && states[token] is Timer) ==> timer_wakers(
            states,
            tokens.push(token),
        ) == timer_wakers(states, tokens),
{
    let all = tokens.push(token);
    assert(all.drop_last() =~= tokens);
    let before = timer_wakers(states, tokens);
    if states.contains_key(token) && states[token] == IoState::Timer(waker) {
        assert(timer_wakers(states, all) =~= before.push(waker));
    }
    if !(states.contains_key(token) && states[token] is Timer) {
        assert(timer_wakers(states, all) =~= before);
    }
}

/// Known timers that have expired have timed out, and nothing else changes.
pub proof fn lemma_timed_out(states: Map<usize, IoState>, tokens: Seq<usize>, token: usize)
    ensures
        timed_out(states, tokens).contains_key(token) == states.contains_key(token),
        states.contains_key(token) && tokens.contains(token) ==> timed_out(states, tokens)[token]
            == IoState::Timeout,
        states.contains_key(token) && !tokens.contains(token) ==> timed_out(states, tokens)[token]
            == states[token],
{
}

/// In a reactor that is in order, a timer that a task waits for stands in a slot of the timing
/// wheel, and what is not waited for as a timer stands in none; whatever is registered or waits has
/// a token below the next one to try.
pub proof fn lemma_reactor_in_order(view: ReactorView, token: usize, slot: u64)
    requires
        view.timers_agree(),
        view.tokens_fresh(),
    ensures
        view.readable.contains_key(token) && view.readable[token] is Timer ==> exists|slot: u64|
            #[trigger]
            view.timers.contains_key(slot) && view.timers[slot].contains(token),
        view.readable.contains_key(token) && !(view.readable[token] is Timer)
            && view.timers.contains_key(slot) ==> !view.timers[slot].contains(token),
        view.readable.contains_key(token) || view.writable.contains_key(token) ==> token
            < view.token_gen,
        view.timers.contains_key(slot) && view.timers[slot].contains(token) ==> token
            < view.token_gen,
{
    let all = due(view.timers, end_of_time());
    lemma_what_is_due(view.timers, end_of_time(), token);
    vstd::seq_lib::to_multiset_contains(all, token);
    if view.timers.contains_key(slot) && view.timers[slot].contains(token) {
        assert(slot < end_of_time());
        assert(all.contains(token));
        assert(all.to_multiset().count(token) > 0);
    }
    if view.readable.contains_key(token) && view.readable[token] is Timer {
        assert(view.queued(token) == 1);
        let slot = choose|slot: u64|
            slot < end_of_time() && #[trigger] view.timers.contains_key(slot)
                && view.timers[slot].contains(token);
        assert(view.timers.contains_key(slot) && view.timers[slot].contains(token));
    }
}

/// What may be asked for: a timer may be asked for if it is not known, or is a timer and there is
/// room for it if it has to wait; a source may be operated on in a direction, or have an event there,
/// if it is not known there or is not a timer; and an operation may block that has begun and is the
/// only one in its direction.
pub proof fn lemma_what_may_be_asked_for(
    view: ReactorView,
    token: Token,
    interest: Interest,
    event: Event,
    deadline: u128,
)
    requires
        view.tick_interval > 0,
    ensures
        ({
            let io = |states: Map<usize, IoState>|
                states.contains_key(token.0) ==> states[token.0] is Waker || states[token.0] is Ready
                    || states[token.0] is Idle || states[token.0] is Shutdown;
            let full = due(view.timers, 0x1_0000_0000_0000_0000).len() >= usize::MAX;
            let states = if interest.readable {
                view.readable
            } else {
                view.writable
            };
            let known = view.readable.contains_key(token.0);
            let state = view.readable[token.0];
            let early = low_64_bits(deadline) > view.ticks * view.tick_interval;
            &&& !known ==> view.can_poll_timer(token)
            &&& known && (state is Timeout || state is Timer) ==> view.can_poll_timer(token)
            &&& known && state == IoState::Deadline(deadline) ==> (view.can_poll_timer(token) <==> !(
            early && full))
            &&& known && (state is Waker || state is Ready || state is Idle || state is Shutdown)
                ==> !view.can_poll_timer(token)
            &&& view.can_add_timer() <==> !full
            &&& view.can_poll_io(token, interest) <==> (interest.readable || interest.writable)
                && io(states)
            &&& view.can_block(token, interest) <==> {
                &&& interest.readable || interest.writable
                &&& states.contains_key(token.0)
                &&& states[token.0] is Ready || states[token.0] is Idle || states[token.0] is Shutdown
            }
            &&& view.can_raise(token, event) <==> {
                &&& event.readable || event.read_closed ==> io(view.readable)
                &&& event.writable || event.write_closed ==> io(view.writable)
            }
        }),
{
    lemma_timer_waits_for_its_deadline(view, deadline);
}

/// Without ticks there are no timers.
pub proof fn lemma_no_timers_without_ticks(view: ReactorView, token: Token)
    requires
        view.tick_interval == 0,
    ensures
        !view.can_poll_timer(token),
        !view.can_add_timer(),
{
}

/// The timing wheel may move to a time if and only if a task waits for each known timer that has
/// expired by then, and none of these has expired twice.
pub proof fn lemma_what_may_expire(view: ReactorView, now: u128)
    ensures
        view.can_expire(now) <==> {
            &&& forall|i: int|
                0 <= i < view.expired(now).len() && view.readable.contains_key(
                    #[trigger] view.expired(now)[i],
                ) ==> view.readable[view.expired(now)[i]] is Timer
            &&& forall|i: int, j: int|
                0 <= i < j < view.expired(now).len() && view.readable.contains_key(
                    view.expired(now)[i],
                ) ==> #[trigger] view.expired(now)[i] != #[trigger] view.expired(now)[j]
        },
{
}

/// Whatever a reactor does, a timer is ready if and only if its deadline does not lie after the time
/// of the last tick.
pub proof fn lemma_timer_is_ready_from_its_deadline_on(
    view: ReactorView,
    timer: usize,
    deadline: u128,
    steps: Seq<ReactorStep>,
)
    requires
        view.tick_interval > 0,
        view.readable.contains_key(timer),
        view.readable[timer] == IoState::Deadline(deadline),
        view.timers_agree(),
        view.allows_all(timer, steps),
    ensures
        ({
            let after = view.after_all(steps);
            let ready = low_64_bits(deadline) <= after.ticks * view.tick_interval;
            &&& ready ==> after.timer_poll(Token(timer)) == TimerPoll::Ready(Ok(()))
            &&& !ready ==> after.timer_poll(Token(timer)) == TimerPoll::Pending
        }),
{
    lemma_timer_over_time(view, timer, deadline, steps);
    let d = view.tick_interval as int;
    let after = view.after_all(steps);
    lemma_tick_of_a_deadline(low_64_bits(deadline), d);
    assert((after.ticks as int * d < low_64_bits(deadline)) <==> after.ticks < view.slot_of(
        deadline,
    ));
}

/// What a connection that waits for its timeout leaves in the reactor: a token that was free has
/// become a timer, which a task waits for if the deadline lies after the time of the last tick, and
/// which has timed out otherwise. Every other token is left alone.
pub proof fn lemma_waiting_for_a_timeout(
    before: ReactorView,
    deadline: u128,
    timer: Token,
    waker: Waker,
    after: ReactorView,
    other: usize,
)
    requires
        before.tick_interval > 0,
        waits_for_timeout(before, deadline, timer, waker, after),
    ensures
        !before.readable.contains_key(timer.0),
        !before.writable.contains_key(timer.0),
        after.readable.contains_key(timer.0),
        after.readable[timer.0] == (if low_64_bits(deadline) > before.ticks * before.tick_interval {
            IoState::Timer(waker)
        } else {
            IoState::Timeout
        }),
        other != timer.0 ==> same_at(after.readable, before.readable, other),
        same_at(after.writable, before.writable, other),
        after.ticks == before.ticks,
        after.tick_interval == before.tick_interval,
{
    lemma_first_free_token(before, timer.0, other);
    let taken = before.with_token(
        timer.0,
        (Interest { readable: true, writable: false }),
    ).with_readable(timer.0, IoState::Deadline(deadline));
    lemma_asking_for_a_timer(taken, timer.0, waker, deadline);
}

/// A connection that has set a timer has taken a free token for it.
pub proof fn lemma_timer_of_a_connection(
    before: ReactorView,
    deadline: u128,
    waker: Waker,
    after: ReactorView,
)
    requires
        before.tick_interval > 0,
        has_set_timer(before, deadline, waker, after),
    ensures
        exists|timer: usize|
            {
                &&& !before.readable.contains_key(timer)
                &&& !before.writable.contains_key(timer)
                &&& #[trigger] after.readable.contains_key(timer)
                &&& after.readable == before.readable.insert(
                    timer,
                    if low_64_bits(deadline) > before.ticks * before.tick_interval {
                        IoState::Timer(waker)
                    } else {
                        IoState::Timeout
                    },
                )
            },
        after.writable == before.writable,
{
    let timer = choose|timer: Token| #[trigger]
        waits_for_timeout(before, deadline, timer, waker, after);
    lemma_waiting_for_a_timeout(before, deadline, timer, waker, after, 0);
    let state = if low_64_bits(deadline) > before.ticks * before.tick_interval {
        IoState::Timer(waker)
    } else {
        IoState::Timeout
    };
    assert(after.readable =~= before.readable.insert(timer.0, state)) by {
        assert forall|other: usize| other != timer.0 implies #[trigger] same_at(
            after.readable,
            before.readable,
            other,
        ) by {
            lemma_waiting_for_a_timeout(before, deadline, timer, waker, after, other);
        }
        assert forall|other: usize| #[trigger] after.readable.contains_key(other)
            == before.readable.insert(timer.0, state).contains_key(other) by {
            if other != timer.0 {
                assert(same_at(after.readable, before.readable, other));
            }
        }
        assert forall|other: usize| #[trigger] after.readable.contains_key(other) implies after.readable[other]
            == before.readable.insert(timer.0, state)[other] by {
            if other != timer.0 {
                assert(same_at(after.readable, before.readable, other));
            }
        }
    }
}

/// An operation may begin if and only if its token is registered in its direction and this was not
/// shut down; events from then on count. What is refused changes nothing.
pub proof fn lemma_beginning_an_operation(view: ReactorView, io: Token, interest: Interest)
    ensures
        ({
            let (res, after) = view.beginning(io, interest);
            let states = if interest.readable {
                view.readable
            } else {
                view.writable
            };
            let known = states.contains_key(io.0);
            &&& !known ==> res == Err::<(), ReactorError>(ReactorError::InvalidState(io))
            &&& known && states[io.0] is Shutdown ==> res == Err::<(), ReactorError>(
                if interest.readable {
                    ReactorError::ShutdownReadable(io)
                } else {
                    ReactorError::ShutdownWritable(io)
                },
            )
            &&& known && !(states[io.0] is Shutdown) ==> res is Ok
            &&& res is Err ==> after == view
            &&& res is Ok && interest.readable ==> after == (ReactorView {
                readable: view.readable.insert(io.0, IoState::Idle),
                ..view
            })
            &&& res is Ok && !interest.readable ==> after == (ReactorView {
                writable: view.writable.insert(io.0, IoState::Idle),
                ..view
            })
        }),
{
}

/// An operation that would block is parked, unless an event or a shutdown came in since it began:
/// after an event it is tried again, and after a shutdown it fails. A parked task is woken up by the
/// next event in its direction.
pub proof fn lemma_blocked_operation(
    view: ReactorView,
    io: Token,
    interest: Interest,
    waker: Waker,
    event: Event,
)
    ensures
        ({
            let (res, after) = view.blocking(io, interest, waker);
            let state = (if interest.readable {
                view.readable
            } else {
                view.writable
            })[io.0];
            let concerned = if interest.readable {
                event.readable || event.read_closed
            } else {
                event.writable || event.write_closed
            };
            let with = |state: IoState|
                if interest.readable {
                    ReactorView { readable: view.readable.insert(io.0, state), ..view }
                } else {
                    ReactorView { writable: view.writable.insert(io.0, state), ..view }
                };
            &&& state is Ready ==> res == WouldBlock::Retry && after == with(IoState::Idle)
            &&& state is Shutdown ==> after == view && res == WouldBlock::Failed(
                if interest.readable {
                    ReactorError::ShutdownReadable(io)
                } else {
                    ReactorError::ShutdownWritable(io)
                },
            )
            &&& state is Idle ==> {
                &&& res == WouldBlock::Pending
                &&& after == with(IoState::Waker(waker))
                &&& concerned ==> after.woken_by(io.0, event).contains(waker)
            }
        }),
{
    let after = view.blocking(io, interest, waker).1;
    let woken = after.woken_by(io.0, event);
    if interest.readable {
        if event.readable || event.read_closed {
            assert(view.side(interest)[io.0] is Idle ==> woken[0] == waker);
        }
    } else if event.writable || event.write_closed {
        assert(view.side(interest)[io.0] is Idle ==> woken[woken.len() - 1] == waker);
    }
}

/// Shutting down fails if and only if the token is not registered for a direction that is to be shut
/// down, reading first. Each direction that was reached is shut down, so that no operation may begin
/// there any more; nothing else changes.
pub proof fn lemma_shutting_down(view: ReactorView, io: Token, interests: Interest, other: usize)
    ensures
        ({
            let res = view.shutting(io, interests);
            let after = view.shut_down(io, interests);
            let no_read = interests.readable && !view.readable.contains_key(io.0);
            let no_write = interests.writable && !view.writable.contains_key(io.0);
            &&& no_read ==> res == Err::<(), ReactorError>(ReactorError::InvalidReadState(io))
            &&& !no_read && no_write ==> res == Err::<(), ReactorError>(
                ReactorError::InvalidWriteState(io),
            )
            &&& !no_read && !no_write ==> res is Ok
            &&& no_read ==> after == view
            &&& interests.readable && !no_read ==> {
                &&& after.readable == view.readable.insert(io.0, IoState::Shutdown)
                &&& after.beginning(io, (Interest { readable: true, writable: false })).0 is Err
            }
            &&& interests.writable && !no_read && !no_write ==> {
                &&& after.writable == view.writable.insert(io.0, IoState::Shutdown)
                &&& after.beginning(io, (Interest { readable: false, writable: true })).0 is Err
            }
            &&& !interests.readable ==> after.readable == view.readable
            &&& !interests.writable || no_write ==> after.writable == view.writable
            &&& other != io.0 ==> same_at(after.readable, view.readable, other) && same_at(
                after.writable,
                view.writable,
                other,
            )
            &&& after == (ReactorView { readable: after.readable, writable: after.writable, ..view })
        }),
{
}

/// A registered source keeps its token; one that is refused gives it up, with the very error.
pub proof fn lemma_registering(view: ReactorView, token: Token, interests: Interest, err: ErrorKind)
    ensures
        view.registering(token, interests, Ok(())) == (Ok::<Token, ErrorKind>(token), view),
        ({
            let (res, after) = view.registering(token, interests, Err(err));
            &&& res == Err::<Token, ErrorKind>(err)
            &&& interests.readable ==> !after.readable.contains_key(token.0)
            &&& interests.writable ==> !after.writable.contains_key(token.0)
        }),
{
}

} // verus!
