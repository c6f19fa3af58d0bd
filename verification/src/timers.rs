//! The timers of a reactor over time.

use std::task::Waker;

use crate::reactor::{Event, Interest, IoState, ReactorError, ReactorView, TimerPoll};
use crate::timing_wheel::{
    due, end_of_time, lemma_due_contains, lemma_due_splits, lemma_due_with_timer, lemma_never_early,
    lemma_round_up, low_64_bits, slot_values, with_timer,
};
use crate::token::Token;
use vstd::prelude::*;

verus! {

/// An operation on a reactor.
pub enum ReactorStep {
    /// A task asks for the timer with the token.
    PollTimer(usize, Waker),
    /// The timing wheel moves to the time.
    Ticks(u128),
    /// An event comes in for the token.
    Event(usize, Event),
    /// The token is taken for the interests.
    TakeToken(usize, Interest),
    /// The token is taken for a timer with the deadline.
    Deadline(usize, u128),
    /// The token is given up for the interests.
    DropToken(usize, Interest),
    /// An operation on the token begins, blocks or is shut down: the state in the direction of the
    /// interest is set.
    Operate(Interest, usize, IoState),
}

impl ReactorView {
    /// The reactor after the operation `step`.
    pub open spec fn after(self, step: ReactorStep) -> ReactorView {
        match step {
            ReactorStep::PollTimer(timer, waker) => self.after_timer_poll(Token(timer), waker),
            ReactorStep::Ticks(now) => self.after_ticks(now),
            ReactorStep::Event(token, event) => self.after_event(token, event),
            ReactorStep::TakeToken(token, interests) => self.with_token(token, interests),
            ReactorStep::Deadline(token, deadline) => self.with_token(
                token,
                (Interest { readable: true, writable: false }),
            ).with_readable(token, IoState::Deadline(deadline)),
            ReactorStep::DropToken(token, interests) => self.without_token(token, interests),
            ReactorStep::Operate(interest, token, state) => self.with_side(interest, token, state),
        }
    }

    /// The reactor after the operations `steps`.
    pub open spec fn after_all(self, steps: Seq<ReactorStep>) -> ReactorView
        decreases steps.len(),
    {
        if steps.len() == 0 {
            self
        } else {
            self.after_all(steps.drop_last()).after(steps.last())
        }
    }

    /// The operation `step` may happen while `timer` is in use: it does not take or give up the token
    /// of the timer, does not operate on it as on a source of events, and does not turn back time.
    pub open spec fn allows(self, timer: usize, step: ReactorStep) -> bool {
        match step {
            ReactorStep::PollTimer(_, _) => true,
            ReactorStep::Event(_, _) => true,
            ReactorStep::Ticks(now) => self.after_ticks(now).ticks >= self.ticks,
            ReactorStep::TakeToken(token, _) => token != timer,
            ReactorStep::Deadline(token, _) => token != timer,
            ReactorStep::DropToken(token, _) => token != timer,
            ReactorStep::Operate(_, token, _) => token != timer,
        }
    }

    /// Each of the operations `steps` may happen while `timer` is in use.
    pub open spec fn allows_all(self, timer: usize, steps: Seq<ReactorStep>) -> bool {
        forall|i: int|
            0 <= i < steps.len() ==> self.after_all(steps.take(i)).allows(
                timer,
                #[trigger] steps[i],
            )
    }

    /// `timer` is in the state in which a timer with deadline `deadline` has to be.
    spec fn tracks(self, timer: usize, deadline: u128) -> bool {
        &&& self.tick_interval > 0
        &&& self.readable.contains_key(timer)
        &&& self.queued(timer) == (if self.readable[timer] is Timer {
            1nat
        } else {
            0nat
        })
        &&& match self.readable[timer] {
            IoState::Deadline(other) => other == deadline,
            IoState::Timer(_) => self.slot_of(deadline) > self.ticks && slot_values(
                self.timers,
                self.slot_of(deadline),
            ).contains(timer),
            IoState::Timeout => self.slot_of(deadline) <= self.ticks,
            _ => false,
        }
    }

    /// The tick at which a timer fires is a tick number.
    proof fn lemma_slot_bound(self, deadline: u128)
        requires
            self.tick_interval > 0,
        ensures
            0 <= self.slot_of(deadline) <= u64::MAX,
    {
        lemma_round_up(low_64_bits(deadline), self.tick_interval as int);
        vstd::arithmetic::div_mod::lemma_div_pos_is_pos(
            low_64_bits(deadline),
            self.tick_interval as int,
        );
    }

    /// Asking for any timer keeps track of `timer`.
    proof fn lemma_poll_tracks(self, timer: usize, deadline: u128, polled: usize, waker: Waker)
        requires
            self.tracks(timer, deadline),
        ensures
            self.after_timer_poll(Token(polled), waker).tracks(timer, deadline),
    {
        broadcast use vstd::multiset::group_multiset_axioms;

        let after = self.after_timer_poll(Token(polled), waker);
        if self.readable.contains_key(polled) {
            if let IoState::Deadline(other) = self.readable[polled] {
                let slot = self.slot_of(other);
                if slot > self.ticks {
                    self.lemma_slot_bound(other);
                    lemma_due_with_timer(self.timers, slot as u64, polled, end_of_time());
                    assert(after.timers == with_timer(self.timers, slot as u64, polled));
                    let values = slot_values(self.timers, slot);
                    assert(slot_values(after.timers, slot) == values.push(polled));
                    assert(values.push(polled).last() == polled);
                    assert(values.push(polled).contains(polled));
                    if self.readable[timer] is Timer {
                        let wanted = self.slot_of(deadline);
                        if wanted == slot {
                            let k = choose|k: int| 0 <= k < values.len() && values[k] == timer;
                            assert(values.push(polled)[k] == timer);
                        } else {
                            assert(slot_values(after.timers, wanted) == slot_values(
                                self.timers,
                                wanted,
                            ));
                        }
                    }
                }
            }
        }
    }

    /// Moving the timing wheel keeps track of `timer`.
    proof fn lemma_ticks_track(self, timer: usize, deadline: u128, now: u128)
        requires
            self.tracks(timer, deadline),
            self.after_ticks(now).ticks >= self.ticks,
        ensures
            self.after_ticks(now).tracks(timer, deadline),
    {
        broadcast use vstd::multiset::group_multiset_axioms;

        let after = self.after_ticks(now);
        let ticks = after.ticks;
        let slot = self.slot_of(deadline);
        let expired = self.expired(now);
        let rest = due(after.timers, end_of_time());
        self.lemma_slot_bound(deadline);
        vstd::arithmetic::div_mod::lemma_div_pos_is_pos(
            low_64_bits(now),
            self.tick_interval as int,
        );
        vstd::arithmetic::div_mod::lemma_div_is_ordered_by_denominator(
            low_64_bits(now),
            1,
            self.tick_interval as int,
        );
        lemma_due_splits(self.timers, ticks, end_of_time());
        assert(due(self.timers, end_of_time()) == expired + rest);
        vstd::seq_lib::lemma_multiset_commutative(expired, rest);
        vstd::seq_lib::to_multiset_contains(expired, timer);
        vstd::seq_lib::to_multiset_contains(rest, timer);
        if self.readable[timer] is Timer {
            if slot <= ticks {
                lemma_due_contains(self.timers, slot, timer, (ticks + 1) as nat);
            } else {
                assert(slot_values(after.timers, slot) == slot_values(self.timers, slot));
                lemma_due_contains(after.timers, slot, timer, end_of_time());
            }
        }
    }

    /// Any operation that is allowed keeps track of `timer`.
    proof fn lemma_step_tracks(self, timer: usize, deadline: u128, step: ReactorStep)
        requires
            self.tracks(timer, deadline),
            self.allows(timer, step),
        ensures
            self.after(step).tracks(timer, deadline),
            self.after(step).tick_interval == self.tick_interval,
    {
        match step {
            ReactorStep::PollTimer(polled, waker) => {
                self.lemma_poll_tracks(timer, deadline, polled, waker);
            },
            ReactorStep::Ticks(now) => {
                self.lemma_ticks_track(timer, deadline, now);
            },
            _ => {
                assert(self.after(step).timers == self.timers);
            },
        }
    }

    proof fn lemma_steps_track(self, timer: usize, deadline: u128, steps: Seq<ReactorStep>)
        requires
            self.tracks(timer, deadline),
            self.allows_all(timer, steps),
        ensures
            self.after_all(steps).tracks(timer, deadline),
            self.after_all(steps).tick_interval == self.tick_interval,
        decreases steps.len(),
    {
        if steps.len() > 0 {
            let first = steps.drop_last();
            assert forall|i: int| 0 <= i < first.len() implies self.after_all(first.take(i)).allows(
                timer,
                #[trigger] first[i],
            ) by {
                assert(first.take(i) =~= steps.take(i));
                assert(first[i] == steps[i]);
            }
            self.lemma_steps_track(timer, deadline, first);
            assert(steps.take(steps.len() - 1) =~= first);
            assert(steps[steps.len() - 1] == steps.last());
            self.after_all(first).lemma_step_tracks(timer, deadline, steps.last());
        }
    }
}

/// A timer is ready from the tick of its deadline on, and not before, however often it is polled and
/// whatever else the reactor does meanwhile; and when it has been given up, it is not found.
pub proof fn lemma_timer_over_time(
    view: ReactorView,
    timer: usize,
    deadline: u128,
    steps: Seq<ReactorStep>,
)
    requires
        view.tick_interval > 0,
        view.readable.contains_key(timer),
        view.readable[timer] == IoState::Deadline(deadline),
        view.timers_agree(),
        view.allows_all(timer, steps),
    ensures
        ({
            let after = view.after_all(steps);
            &&& after.timer_poll(Token(timer)) == (if after.slot_of(deadline) > after.ticks {
                TimerPoll::Pending
            } else {
                TimerPoll::Ready(Ok(()))
            })
            &&& after.slot_of(deadline) == view.slot_of(deadline)
            &&& after.without_token(
                timer,
                (Interest { readable: true, writable: false }),
            ).timer_poll(Token(timer)) == TimerPoll::Ready(
                Err(ReactorError::TimerNotFound(Token(timer))),
            )
        }),
{
    view.lemma_steps_track(timer, deadline, steps);
}

/// Once the timing wheel has moved to the time `now`, no timer is ready whose deadline lies ahead,
/// and every timer is whose deadline lies a tick or more back.
pub proof fn lemma_timer_ready_in_time(view: ReactorView, deadline: u128, now: u128)
    requires
        view.tick_interval > 0,
    ensures
        ({
            let after = view.after_ticks(now);
            &&& low_64_bits(now) < low_64_bits(deadline) ==> after.slot_of(deadline) > after.ticks
            &&& low_64_bits(now) >= low_64_bits(deadline) + view.tick_interval - 1
                ==> after.slot_of(deadline) <= after.ticks
        }),
{
    let d = view.tick_interval as int;
    let at = low_64_bits(now);
    let wanted = low_64_bits(deadline);
    vstd::arithmetic::div_mod::lemma_div_pos_is_pos(at, d);
    vstd::arithmetic::div_mod::lemma_div_is_ordered_by_denominator(at, 1, d);
    if at < wanted {
        lemma_never_early(
            Map::<u64, Seq<usize>>::empty(),
            view.tick_interval,
            wanted as u64,
            0usize,
            at as u64,
        );
    }
    if at >= wanted + d - 1 {
        vstd::arithmetic::div_mod::lemma_div_is_ordered(wanted + d - 1, at, d);
    }
}

} // verus!
