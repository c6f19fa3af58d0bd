//! Quic protocol stack implementation.

use crate::timing_wheel::{
    adding, due, lemma_due_with_timer, low_64_bits, pending, timer_count, truncate, with_timer,
    TimeWheelImpl,
};
use vstd::prelude::*;

verus! {

/// A reference to a socket of a quic driver.
#[derive(Debug, PartialEq, Eq, PartialOrd, Ord, Hash, Clone, Copy, Structural)]
pub enum QuicSocket {
    /// A socket reference to a quic listener.
    Listener(usize),
    /// A socket reference to a quic connection.
    Connection(usize),
    /// A socket refernce to a quic stream.
    Stream { conn_id: usize, stream_id: usize },
}

/// A hashed timewheel alogrithem implemenation.
///
/// All times are microseconds since the wheel was created. Deadlines are rounded down to a tick.
pub struct TimeWheel<T> {
    /// The length of a tick in microseconds.
    tick_interval: u64,
    /// The slots.
    slots: TimeWheelImpl<T>,
}

impl<T> TimeWheel<T> {
    /// The length of a tick in microseconds.
    pub closed spec fn tick_interval(self) -> u64 {
        self.tick_interval
    }

    /// The last processed tick.
    pub closed spec fn ticks(self) -> u64 {
        self.slots.ticks()
    }

    /// The values that wait in each occupied slot.
    pub closed spec fn timers(self) -> Map<u64, Seq<T>> {
        self.slots.timers()
    }

    /// The tick that the time `micros` lies in.
    pub open spec fn tick_of(self, micros: u128) -> int {
        low_64_bits(micros) / (self.tick_interval() as int)
    }

    /// The slots are well-formed.
    pub closed spec fn wf(self) -> bool {
        self.slots.wf()
    }

    /// Creates a time-wheel with `tick_interval`.
    pub fn new(tick_interval: u128) -> (wheel: Self)
        ensures
            wheel.wf(),
            wheel.tick_interval() == low_64_bits(tick_interval),
            wheel.ticks() == 0,
            wheel.timers() == Map::<u64, Seq<T>>::empty(),
            timer_count(wheel.timers()) == 0,
    {
        TimeWheel { tick_interval: truncate(tick_interval), slots: TimeWheelImpl::new() }
    }

    /// Returns the number of alive timers.
    pub fn len(&self) -> (n: usize)
        requires
            self.wf(),
        ensures
            n == timer_count(self.timers()),
    {
        self.slots.len()
    }

    /// Creates a new timer using provided `deadline`.
    ///
    /// Returns `None` if the deadline is already reached.
    pub fn deadline(&mut self, deadline: u128, value: T) -> (res: Option<u64>)
        requires
            old(self).wf(),
            old(self).tick_interval() > 0,
            old(self).tick_of(deadline) > old(self).ticks() ==> timer_count(old(self).timers())
                < usize::MAX,
        ensures
            final(self).wf(),
            (res, final(self).timers()) == adding(
                old(self).timers(),
                old(self).ticks(),
                old(self).tick_of(deadline) as u64,
                value,
            ),
            final(self).tick_interval() == old(self).tick_interval(),
            final(self).ticks() == old(self).ticks(),
            ({
                let slot = old(self).tick_of(deadline);
                if slot > old(self).ticks() {
                    &&& res == Some(slot as u64)
                    &&& 0 < slot <= u64::MAX
                    &&& final(self).timers() == with_timer(old(self).timers(), slot as u64, value)
                    &&& timer_count(final(self).timers()) == timer_count(old(self).timers()) + 1
                } else {
                    &&& res is None
                    &&& final(self).timers() == old(self).timers()
                }
            }),
    {
        let ticks: u64 = truncate(deadline) / self.tick_interval;
        self.slots.insert(ticks, value)
    }

    /// Spins the wheel to the time `now` and returns the expired timers.
    pub fn spin(&mut self, now: u128) -> (wakers: Vec<T>)
        requires
            old(self).wf(),
            old(self).tick_interval() > 0,
        ensures
            final(self).wf(),
            final(self).tick_interval() == old(self).tick_interval(),
            final(self).ticks() == old(self).tick_of(now),
            final(self).timers() == pending(old(self).timers(), final(self).ticks()),
            wakers@ == due(old(self).timers(), (final(self).ticks() + 1) as nat),
            timer_count(old(self).timers()) == timer_count(final(self).timers()) + wakers@.len(),
    {
        let to_slot: u64 = truncate(now) / self.tick_interval;
        let mut wakers: Vec<T> = Vec::new();
        self.slots.advance(to_slot, &mut wakers);
        assert(wakers@ =~= due(old(self).timers(), (to_slot + 1) as nat));
        wakers
    }
}

/// A spin at or after the deadline of a timer delivers it.
pub proof fn lemma_fires_by_deadline<T>(
    timers: Map<u64, Seq<T>>,
    tick_interval: u64,
    deadline: u64,
    value: T,
    now: u64,
)
    requires
        tick_interval > 0,
        now >= deadline,
    ensures
        due(
            with_timer(timers, deadline / tick_interval, value),
            (now / tick_interval + 1) as nat,
        ).contains(value),
{
    broadcast use vstd::multiset::group_multiset_axioms;

    let slot = deadline / tick_interval;
    let end = (now / tick_interval + 1) as nat;
    vstd::arithmetic::div_mod::lemma_div_is_ordered(
        deadline as int,
        now as int,
        tick_interval as int,
    );
    lemma_due_with_timer(timers, slot, value, end);
    vstd::seq_lib::to_multiset_contains(due(with_timer(timers, slot, value), end), value);
}

/// A timer fires less than one tick early: a spin in a tick before that of the deadline leaves it
/// waiting.
pub proof fn lemma_less_than_a_tick_early<T>(
    timers: Map<u64, Seq<T>>,
    tick_interval: u64,
    deadline: u64,
    value: T,
    now: u64,
)
    requires
        tick_interval > 0,
        now + tick_interval <= deadline,
    ensures
        ({
            let slot = deadline / tick_interval;
            let rest = pending(with_timer(timers, slot, value), now / tick_interval);
            rest.contains_key(slot) && rest[slot].last() == value
        }),
{
    let d = tick_interval as int;
    vstd::arithmetic::div_mod::lemma_div_is_ordered(now + d, deadline as int, d);
    vstd::arithmetic::div_mod::lemma_div_plus_one(now as int, d);
}

} // verus!
