//! Futures with a deadline.

use std::task::Waker;

use crate::errors::ErrorKind;
use crate::reactor::{Interest, IoState, Reactor, TimerPoll};
use crate::token::Token;
use vstd::prelude::*;

verus! {

/// What becomes of a future with a deadline.
pub enum TimeoutPoll<T> {
    /// The future is done, or its deadline has passed.
    Ready(Result<T, ErrorKind>),
    /// The task is parked.
    Pending,
}

/// What becomes of a future with the outcome `done`, if any, whose timer answers `timer`.
pub open spec fn timed<T>(done: Option<Result<T, ErrorKind>>, timer: TimerPoll) -> TimeoutPoll<T> {
    match done {
        Some(outcome) => TimeoutPoll::Ready(outcome),
        None => match timer {
            TimerPoll::Ready(_) => TimeoutPoll::Ready(Err(ErrorKind::TimedOut)),
            TimerPoll::Pending => TimeoutPoll::Pending,
        },
    }
}

/// The deadline of a future.
#[derive(Clone, Copy, Debug)]
pub struct Timeout {
    timer: Token,
    deadline: u128,
}

impl Timeout {
    /// The timer that waits for the deadline.
    pub closed spec fn spec_timer(self) -> Token {
        self.timer
    }

    /// The deadline, in microseconds.
    pub closed spec fn spec_deadline(self) -> u128 {
        self.deadline
    }

    /// Sets a deadline `duration` after the time `now`, both in microseconds.
    ///
    /// Returns `None` if every token of the reactor is in use.
    pub fn timeout_with(now: u128, duration: u128, reactor: &mut Reactor) -> (res: Option<Timeout>)
        requires
            old(reactor).wf(),
            now + duration <= u128::MAX,
        ensures
            final(reactor).wf(),
            match res {
                Some(timeout) => {
                    &&& timeout.spec_deadline() == now + duration
                    &&& old(reactor)@.takes_first_free(timeout.spec_timer().0)
                    &&& final(reactor)@ == old(reactor)@.with_token(
                        timeout.spec_timer().0,
                        (Interest { readable: true, writable: false }),
                    ).with_readable(
                        timeout.spec_timer().0,
                        IoState::Deadline(timeout.spec_deadline()),
                    )
                },
                None => {
                    &&& forall|token: usize| #[trigger] old(reactor)@.used(token as int)
                    &&& final(reactor)@ == old(reactor)@
                },
            },
            old(reactor)@.timers_agree() && old(reactor)@.tokens_fresh() && old(reactor)@.token_gen
                < usize::MAX ==> final(reactor)@.timers_agree() && final(reactor)@.tokens_fresh(),
    {
        let deadline: u128 = now + duration;
        match reactor.deadline(deadline) {
            Some(timer) => Some(Timeout { timer, deadline }),
            None => None,
        }
    }

    /// Returns the timer that waits for the deadline.
    pub fn timer(&self) -> (timer: Token)
        ensures
            timer == self.spec_timer(),
    {
        self.timer
    }

    /// Polls the deadline after the future itself has been polled: `done` is its outcome.
    pub fn poll<T>(
        &self,
        done: Option<Result<T, ErrorKind>>,
        reactor: &mut Reactor,
        waker: Waker,
    ) -> (res: TimeoutPoll<T>)
        requires
            old(reactor).wf(),
            done is None ==> old(reactor)@.can_poll_timer(self.spec_timer()),
        ensures
            final(reactor).wf(),
            res == timed(done, old(reactor)@.timer_poll(self.spec_timer())),
            match done {
                Some(outcome) => {
                    &&& res == TimeoutPoll::Ready(outcome)
                    &&& final(reactor)@ == old(reactor)@
                },
                None => {
                    &&& res == (if old(reactor)@.timer_poll(self.spec_timer()) is Ready {
                        TimeoutPoll::Ready(Err::<T, ErrorKind>(ErrorKind::TimedOut))
                    } else {
                        TimeoutPoll::Pending
                    })
                    &&& final(reactor)@ == old(reactor)@.after_timer_poll(self.spec_timer(), waker)
                },
            },
            final(reactor)@.timer_count() <= old(reactor)@.timer_count() + 1,
            old(reactor)@.timers_agree() ==> final(reactor)@.timers_agree(),
            old(reactor)@.tokens_fresh() ==> final(reactor)@.tokens_fresh(),
    {
        match done {
            Some(outcome) => TimeoutPoll::Ready(outcome),
            None => match reactor.poll_timeout(self.timer, waker) {
                TimerPoll::Ready(_) => TimeoutPoll::Ready(Err(ErrorKind::TimedOut)),
                TimerPoll::Pending => TimeoutPoll::Pending,
            },
        }
    }

    /// Gives up the deadline.
    pub fn cancel(self, reactor: &mut Reactor)
        requires
            old(reactor).wf(),
        ensures
            final(reactor).wf(),
            final(reactor)@ == old(reactor)@.without_token(
                self.spec_timer().0,
                (Interest { readable: true, writable: false }),
            ),
            old(reactor)@.timers_agree() ==> final(reactor)@.timers_agree(),
            old(reactor)@.tokens_fresh() ==> final(reactor)@.tokens_fresh(),
    {
        reactor.deregister_timer(self.timer);
    }
}

} // verus!
