//! An improved hash time wheel algorithm based on a binary heap priority queue.
//!
//! Time is cut into ticks of a fixed length, counted from the moment the wheel was created. Each
//! timer waits in the slot of one tick. A binary heap of the occupied slots shows the earliest one,
//! so detecting expired timers only takes a comparison with the head of the heap.

use std::collections::HashMap;

use crate::heap::MinHeap;
use vstd::prelude::*;

verus! {

/// One more than the largest tick number.
pub open spec fn end_of_time() -> nat {
    0x1_0000_0000_0000_0000
}

/// The value that remains of `micros` in 64 bits.
pub open spec fn low_64_bits(micros: u128) -> int {
    micros as int % 0x1_0000_0000_0000_0000
}

/// The values that wait in `slot`, in the order in which they were added.
pub open spec fn slot_values<T>(timers: Map<u64, Seq<T>>, slot: int) -> Seq<T> {
    if 0 <= slot <= u64::MAX && timers.contains_key(slot as u64) {
        timers[slot as u64]
    } else {
        Seq::empty()
    }
}

/// The values of all slots before `end`: earlier slots first, and within a slot in the order in
/// which they were added.
pub open spec fn due<T>(timers: Map<u64, Seq<T>>, end: nat) -> Seq<T>
    decreases end,
{
    if end == 0 {
        Seq::empty()
    } else {
        due(timers, (end - 1) as nat) + slot_values(timers, end - 1)
    }
}

/// The slots after tick `ticks`.
pub open spec fn pending<T>(timers: Map<u64, Seq<T>>, ticks: u64) -> Map<u64, Seq<T>> {
    Map::new(|slot: u64| timers.contains_key(slot) && slot > ticks, |slot: u64| timers[slot])
}

/// `slot` is the earliest occupied slot.
pub open spec fn is_next_slot<T>(timers: Map<u64, Seq<T>>, slot: u64) -> bool {
    &&& timers.contains_key(slot)
    &&& forall|other: u64| timers.contains_key(other) ==> slot <= other
}

/// `timers` with `value` added at the end of `slot`.
pub open spec fn with_timer<T>(timers: Map<u64, Seq<T>>, slot: u64, value: T) -> Map<u64, Seq<T>> {
    timers.insert(slot, slot_values(timers, slot as int).push(value))
}

/// What comes of adding a timer to slot `slot` when tick `ticks` was processed, and the slots after
/// it.
pub open spec fn adding<T>(timers: Map<u64, Seq<T>>, ticks: u64, slot: u64, value: T) -> (
    Option<u64>,
    Map<u64, Seq<T>>,
) {
    if slot <= ticks {
        (None, timers)
    } else {
        (Some(slot), with_timer(timers, slot, value))
    }
}

/// The number of timers that wait.
pub open spec fn timer_count<T>(timers: Map<u64, Seq<T>>) -> nat {
    due(timers, end_of_time()).len()
}

/// Slots that agree before `end` have the same values due.
proof fn lemma_due_agrees<T>(a: Map<u64, Seq<T>>, b: Map<u64, Seq<T>>, end: nat)
    requires
        forall|slot: int| 0 <= slot < end ==> slot_values(a, slot) == slot_values(b, slot),
    ensures
        due(a, end) == due(b, end),
    decreases end,
{
    if end > 0 {
        lemma_due_agrees(a, b, (end - 1) as nat);
    }
}

/// Nothing is due before the earliest slot.
proof fn lemma_due_nothing<T>(timers: Map<u64, Seq<T>>, end: nat)
    requires
        forall|slot: u64| timers.contains_key(slot) ==> slot >= end,
    ensures
        due(timers, end) == Seq::<T>::empty(),
    decreases end,
{
    if end > 0 {
        lemma_due_nothing(timers, (end - 1) as nat);
        if end - 1 <= u64::MAX {
            assert(!timers.contains_key((end - 1) as u64));
        }
    }
}

/// The values of the earliest slot come first.
proof fn lemma_due_next<T>(timers: Map<u64, Seq<T>>, slot: u64, end: nat)
    requires
        is_next_slot(timers, slot),
        slot < end,
    ensures
        due(timers, end) == timers[slot] + due(timers.remove(slot), end),
    decreases end,
{
    let rest = timers.remove(slot);
    if end == slot + 1 {
        lemma_due_nothing(timers, slot as nat);
        lemma_due_nothing(rest, end);
        assert(due(timers, end) =~= timers[slot]);
        assert(due(timers, end) =~= timers[slot] + due(rest, end));
    } else {
        lemma_due_next(timers, slot, (end - 1) as nat);
        assert(slot_values(timers, end - 1) == slot_values(rest, end - 1));
        assert(due(timers, end) =~= timers[slot] + due(rest, end));
    }
}

/// Adding a timer adds its value, once, to what is due after its slot, and changes nothing before.
pub proof fn lemma_due_with_timer<T>(timers: Map<u64, Seq<T>>, slot: u64, value: T, end: nat)
    ensures
        due(with_timer(timers, slot, value), end).to_multiset() == if slot < end {
            due(timers, end).to_multiset().insert(value)
        } else {
            due(timers, end).to_multiset()
        },
        due(with_timer(timers, slot, value), end).len() == due(timers, end).len() + (if slot < end {
            1int
        } else {
            0int
        }),
    decreases end,
{
    broadcast use vstd::multiset::group_multiset_axioms;

    let added = with_timer(timers, slot, value);
    if end > 0 {
        let before = (end - 1) as nat;
        lemma_due_with_timer(timers, slot, value, before);
        vstd::seq_lib::lemma_multiset_commutative(due(timers, before), slot_values(timers, before as int));
        vstd::seq_lib::lemma_multiset_commutative(due(added, before), slot_values(added, before as int));
        if before == slot {
            vstd::seq_lib::to_multiset_build(slot_values(timers, slot as int), value);
            assert(due(added, end).to_multiset() =~= due(timers, end).to_multiset().insert(value));
        } else if slot < before {
            assert(slot_values(added, before as int) == slot_values(timers, before as int));
            assert(due(added, end).to_multiset() =~= due(timers, end).to_multiset().insert(value));
        } else {
            assert(slot_values(added, before as int) == slot_values(timers, before as int));
        }
    }
}

/// Processing tick `ticks` loses no timer and repeats none: what was to fire in the end is what has
/// fired followed by what the pending slots still fire.
pub proof fn lemma_due_splits<T>(timers: Map<u64, Seq<T>>, ticks: u64, end: nat)
    requires
        end > ticks,
    ensures
        due(timers, end) == due(timers, (ticks + 1) as nat) + due(pending(timers, ticks), end),
    decreases end,
{
    let rest = pending(timers, ticks);
    if end == ticks + 1 {
        lemma_due_nothing(rest, end);
        assert(due(timers, end) =~= due(timers, end) + due(rest, end));
    } else {
        lemma_due_splits(timers, ticks, (end - 1) as nat);
        assert(slot_values(timers, end - 1) == slot_values(rest, end - 1));
        assert(due(timers, end) =~= due(timers, (ticks + 1) as nat) + due(rest, end));
    }
}

/// What waits in a slot is due once its tick is over.
pub(crate) proof fn lemma_due_contains<T>(timers: Map<u64, Seq<T>>, slot: int, value: T, end: nat)
    requires
        0 <= slot < end,
        slot_values(timers, slot).contains(value),
    ensures
        due(timers, end).contains(value),
    decreases end,
{
    let before = due(timers, (end - 1) as nat);
    let last = slot_values(timers, end - 1);
    if slot == end - 1 {
        let k = choose|k: int| 0 <= k < last.len() && last[k] == value;
        assert(due(timers, end)[before.len() + k] == value);
    } else {
        lemma_due_contains(timers, slot, value, (end - 1) as nat);
        let k = choose|k: int| 0 <= k < before.len() && before[k] == value;
        assert(due(timers, end)[k] == value);
    }
}

/// The slots of a timing wheel, and the tick up to which they have been processed.
pub struct TimeWheelImpl<T> {
    /// The last processed tick.
    ticks: u64,
    /// The occupied slots.
    priority_queue: MinHeap,
    /// The timers of each occupied slot.
    timers: HashMap<u64, Vec<T>>,
    /// The number of alive timers.
    counter: usize,
}

impl<T> TimeWheelImpl<T> {
    /// The last processed tick.
    pub closed spec fn ticks(self) -> u64 {
        self.ticks
    }

    /// The values that wait in each occupied slot.
    pub closed spec fn timers(self) -> Map<u64, Seq<T>> {
        self.timers@.map_values(|values: Vec<T>| values@)
    }

    spec fn queue_wf(self) -> bool {
        &&& self.priority_queue.wf()
        &&& forall|slot: u64| #[trigger]
            self.priority_queue@.count(slot) == if self.timers@.contains_key(slot) {
                1nat
            } else {
                0nat
            }
    }

    /// Each occupied slot is queued once, lies in the future and holds a timer, and the counter
    /// agrees with the number of timers.
    pub closed spec fn wf(self) -> bool {
        &&& self.queue_wf()
        &&& forall|slot: u64| #[trigger]
            self.timers@.contains_key(slot) ==> slot > self.ticks && self.timers@[slot]@.len() > 0
        &&& self.counter == due(self.timers(), end_of_time()).len()
    }

    /// Creates an empty wheel at tick zero.
    pub fn new() -> (wheel: Self)
        ensures
            wheel.wf(),
            wheel.ticks() == 0,
            wheel.timers() == Map::<u64, Seq<T>>::empty(),
            timer_count(wheel.timers()) == 0,
    {
        broadcast use vstd::multiset::group_multiset_axioms;

        let wheel = TimeWheelImpl {
            ticks: 0,
            priority_queue: MinHeap::new(),
            timers: HashMap::new(),
            counter: 0,
        };
        proof {
            assert(wheel.timers() =~= Map::<u64, Seq<T>>::empty());
            lemma_due_nothing(wheel.timers(), end_of_time());
        }
        wheel
    }

    /// Returns the number of alive timers.
    pub fn len(&self) -> (n: usize)
        requires
            self.wf(),
        ensures
            n == timer_count(self.timers()),
    {
        self.counter
    }

    /// Returns the last processed tick.
    pub fn current_tick(&self) -> (ticks: u64)
        ensures
            ticks == self.ticks(),
    {
        self.ticks
    }

    /// Adds a timer to slot `slot`, or refuses it if that tick is already processed.
    pub fn insert(&mut self, slot: u64, value: T) -> (res: Option<u64>)
        requires
            old(self).wf(),
            slot > old(self).ticks() ==> timer_count(old(self).timers()) < usize::MAX,
        ensures
            final(self).wf(),
            (res, final(self).timers()) == adding(
                old(self).timers(),
                old(self).ticks(),
                slot,
                value,
            ),
            final(self).ticks() == old(self).ticks(),
            if slot > old(self).ticks() {
                &&& res == Some(slot)
                &&& final(self).timers() == with_timer(old(self).timers(), slot, value)
                &&& timer_count(final(self).timers()) == timer_count(old(self).timers()) + 1
            } else {
                &&& res is None
                &&& final(self).timers() == old(self).timers()
            },
    {
        broadcast use vstd::std_specs::hash::group_hash_axioms;
        broadcast use vstd::multiset::group_multiset_axioms;

        if !(slot > self.ticks) {
            return None;
        }
        proof {
            lemma_due_with_timer(self.timers(), slot, value, end_of_time());
        }
        match self.timers.remove(&slot) {
            Some(mut values) => {
                values.push(value);
                self.timers.insert(slot, values);
            },
            None => {
                let mut values: Vec<T> = Vec::new();
                values.push(value);
                self.timers.insert(slot, values);
                self.priority_queue.push(slot);
            },
        }
        self.counter = self.counter + 1;
        proof {
            assert(self.timers() =~= with_timer(old(self).timers(), slot, value));
        }
        Some(slot)
    }

    /// Returns the earliest occupied slot.
    pub fn next_slot(&self) -> (res: Option<u64>)
        requires
            self.wf(),
        ensures
            match res {
                Some(slot) => is_next_slot(self.timers(), slot) && slot > self.ticks(),
                None => self.timers() == Map::<u64, Seq<T>>::empty(),
            },
    {
        broadcast use vstd::multiset::group_multiset_axioms;

        let res = self.priority_queue.peek();
        proof {
            assert forall|slot: u64| #[trigger] self.timers().contains_key(slot) implies
                self.priority_queue@.contains(slot) by {
                assert(self.priority_queue@.count(slot) == 1);
            }
            match res {
                Some(slot) => {
                    assert(self.priority_queue@.count(slot) > 0);
                    assert(self.timers().contains_key(slot));
                },
                None => {
                    assert forall|slot: u64| !self.timers().contains_key(slot) by {
                        assert(self.priority_queue@.count(slot) == 0);
                    }
                    assert(self.timers() =~= Map::<u64, Seq<T>>::empty());
                },
            }
        }
        res
    }

    /// Moves the wheel to tick `ticks` and appends the expired timers to `events`.
    pub fn advance(&mut self, ticks: u64, events: &mut Vec<T>)
        requires
            old(self).wf(),
        ensures
            final(self).wf(),
            final(self).ticks() == ticks,
            final(self).timers() == pending(old(self).timers(), ticks),
            final(events)@ == old(events)@ + due(old(self).timers(), (ticks + 1) as nat),
            timer_count(old(self).timers()) == timer_count(final(self).timers())
                + final(events)@.len() - old(events)@.len(),
    {
        broadcast use vstd::std_specs::hash::group_hash_axioms;
        broadcast use vstd::multiset::group_multiset_axioms;

        let ghost all = self.timers();
        let ghost start = events@;
        let ghost mut fired: Seq<T> = Seq::empty();
        let ghost end = (ticks + 1) as nat;
        proof {
            assert(events@ =~= start + fired);
            assert(due(all, end) =~= fired + due(self.timers(), end));
        }
        loop
            invariant
                self.queue_wf(),
                forall|slot: u64| #[trigger]
                    self.timers@.contains_key(slot) ==> self.timers@[slot]@.len() > 0,
                self.counter == due(self.timers(), end_of_time()).len(),
                end == ticks + 1,
                forall|slot: u64| #[trigger]
                    self.timers().contains_key(slot) ==> all.contains_key(slot)
                        && self.timers()[slot] == all[slot],
                forall|slot: u64| #[trigger]
                    all.contains_key(slot) && slot > ticks ==> self.timers().contains_key(slot),
                events@ == start + fired,
                due(all, end) == fired + due(self.timers(), end),
            ensures
                forall|slot: u64| #[trigger] self.timers@.contains_key(slot) ==> slot > ticks,
            decreases self.priority_queue@.len(),
        {
            let head: Option<u64> = self.priority_queue.peek();
            proof {
                assert forall|slot: u64| #[trigger] self.timers@.contains_key(slot) implies
                    self.priority_queue@.contains(slot) by {
                    assert(self.priority_queue@.count(slot) == 1);
                }
            }
            match head {
                None => {
                    break;
                },
                Some(slot) => {
                    if slot > ticks {
                        break;
                    }
                    let ghost before = self.timers();
                    let ghost queued = self.priority_queue@;
                    assert(queued.count(slot) > 0);
                    let _ = self.priority_queue.pop();
                    proof {
                        assert(is_next_slot(before, slot));
                        lemma_due_next(before, slot, end);
                        lemma_due_next(before, slot, end_of_time());
                    }
                    if let Some(mut values) = self.timers.remove(&slot) {
                        let ghost expired = values@;
                        proof {
                            assert(before[slot] == expired);
                            assert(self.timers() =~= before.remove(slot));
                        }
                        self.counter = self.counter - values.len();
                        events.append(&mut values);
                        proof {
                            fired = fired + expired;
                            assert(events@ =~= start + fired);
                            assert(due(all, end) =~= fired + due(self.timers(), end));
                        }
                    }
                },
            }
        }
        self.ticks = ticks;
        proof {
            lemma_due_nothing(self.timers(), end);
            assert(fired =~= due(all, end));
            assert(self.timers() =~= pending(all, ticks));
            lemma_due_splits(all, ticks, end_of_time());
        }
    }
}

/// The tick at which a timer with deadline `deadline` fires: the first one that does not lie before
/// the deadline. Both arguments are in microseconds.
pub open spec fn deadline_slot(deadline: int, tick_interval: int) -> int {
    (deadline + tick_interval - 1) / tick_interval
}

/// What a caller of [`TimeWheel::poll`] has to do next.
#[derive(Clone, Copy, Debug, PartialEq, Eq, Structural)]
pub enum PollStep {
    /// Timers have expired: stop polling.
    Ready,
    /// Wait for a new timer, but no longer than this many microseconds, and poll again.
    WaitTimeout(u128),
    /// Wait for a new timer and poll again.
    Wait,
}

/// `step` is what follows a poll that `expired` timers have expired in, with the slots `timers` left
/// at tick `ticks`.
pub open spec fn follows_poll<T>(
    step: PollStep,
    expired: int,
    timers: Map<u64, Seq<T>>,
    ticks: u64,
    tick_interval: u64,
) -> bool {
    match step {
        PollStep::Ready => expired > 0,
        PollStep::WaitTimeout(micros) => expired == 0 && exists|slot: u64| #[trigger]
            is_next_slot(timers, slot) && micros == (slot - ticks) * tick_interval,
        PollStep::Wait => expired == 0 && timers == Map::<u64, Seq<T>>::empty(),
    }
}

/// A binary-heap based timing wheel implementation.
///
/// All times are microseconds since the wheel was created.
pub struct TimeWheel<T> {
    /// The length of a tick in microseconds.
    tick_interval: u64,
    /// The slots.
    sys: TimeWheelImpl<T>,
}

impl<T> TimeWheel<T> {
    /// The length of a tick in microseconds.
    pub closed spec fn tick_interval(self) -> u64 {
        self.tick_interval
    }

    /// The last processed tick.
    pub closed spec fn ticks(self) -> u64 {
        self.sys.ticks()
    }

    /// The values that wait in each occupied slot.
    pub closed spec fn timers(self) -> Map<u64, Seq<T>> {
        self.sys.timers()
    }

    /// The tick at which a timer with deadline `deadline` fires.
    pub open spec fn slot_of(self, deadline: u128) -> int {
        deadline_slot(low_64_bits(deadline), self.tick_interval() as int)
    }

    /// The slots are well-formed.
    pub closed spec fn wf(self) -> bool {
        self.sys.wf()
    }

    /// Creates a time-wheel with minimum time interval resolution `tick_interval`.
    pub fn new(tick_interval: u128) -> (wheel: Self)
        ensures
            wheel.wf(),
            wheel.tick_interval() == low_64_bits(tick_interval),
            wheel.ticks() == 0,
            wheel.timers() == Map::<u64, Seq<T>>::empty(),
            timer_count(wheel.timers()) == 0,
    {
        TimeWheel { tick_interval: truncate(tick_interval), sys: TimeWheelImpl::new() }
    }

    /// Creates a new deadline.
    ///
    /// Returns the tick number, if success.
    ///
    /// Returns `None`, if the deadline is already expired.
    pub fn deadline(&mut self, deadline: u128, value: T) -> (res: Option<u64>)
        requires
            old(self).wf(),
            old(self).tick_interval() > 0,
            old(self).slot_of(deadline) > old(self).ticks() ==> timer_count(old(self).timers())
                < usize::MAX,
        ensures
            final(self).wf(),
            (res, final(self).timers()) == adding(
                old(self).timers(),
                old(self).ticks(),
                old(self).slot_of(deadline) as u64,
                value,
            ),
            final(self).tick_interval() == old(self).tick_interval(),
            final(self).ticks() == old(self).ticks(),
            ({
                let slot = old(self).slot_of(deadline);
                if slot > old(self).ticks() {
                    &&& res == Some(slot as u64)
                    &&& 0 < slot <= u64::MAX
                    &&& final(self).timers() == with_timer(old(self).timers(), slot as u64, value)
                    &&& timer_count(final(self).timers()) == timer_count(old(self).timers()) + 1
                } else {
                    &&& res is None
                    &&& final(self).timers() == old(self).timers()
                }
            }),
    {
        let ticks: u64 = self.tick_of(deadline);
        self.sys.insert(ticks, value)
    }

    /// Tells whether there is room for a timer with the deadline `deadline`, or no need for it.
    pub fn has_room(&self, deadline: u128) -> (res: bool)
        requires
            self.wf(),
            self.tick_interval() > 0,
        ensures
            res == (self.slot_of(deadline) > self.ticks() ==> timer_count(self.timers())
                < usize::MAX),
    {
        self.tick_of(deadline) <= self.sys.current_tick() || self.sys.len() < usize::MAX
    }

    /// Returns the tick at which a timer with the deadline `deadline` fires.
    fn tick_of(&self, deadline: u128) -> (ticks: u64)
        requires
            self.tick_interval() > 0,
        ensures
            ticks == self.slot_of(deadline),
    {
        let duration: u64 = truncate(deadline);
        let ticks: u64 = duration / self.tick_interval;
        proof {
            lemma_round_up(duration as int, self.tick_interval as int);
        }
        if duration % self.tick_interval != 0 {
            ticks + 1
        } else {
            ticks
        }
    }

    /// Returns the number of alive timers.
    pub fn len(&self) -> (n: usize)
        requires
            self.wf(),
        ensures
            n == timer_count(self.timers()),
    {
        self.sys.len()
    }

    /// Returns the length of a tick in microseconds.
    pub fn interval(&self) -> (micros: u64)
        ensures
            micros == self.tick_interval(),
    {
        self.tick_interval
    }

    /// Polls timeout timers at time `now`.
    ///
    /// The expired timers are appended to `events`.
    pub fn poll(&mut self, now: u128, events: &mut Vec<T>) -> (step: PollStep)
        requires
            old(self).wf(),
            old(self).tick_interval() > 0,
        ensures
            final(self).wf(),
            follows_poll(
                step,
                final(events)@.len() - old(events)@.len(),
                final(self).timers(),
                final(self).ticks(),
                final(self).tick_interval(),
            ),
            final(self).tick_interval() == old(self).tick_interval(),
            final(self).ticks() == low_64_bits(now) / (old(self).tick_interval() as int),
            final(self).timers() == pending(old(self).timers(), final(self).ticks()),
            final(events)@ == old(events)@ + due(
                old(self).timers(),
                (final(self).ticks() + 1) as nat,
            ),
            timer_count(old(self).timers()) == timer_count(final(self).timers())
                + final(events)@.len() - old(events)@.len(),
            match step {
                PollStep::Ready => final(events)@.len() > old(events)@.len(),
                PollStep::WaitTimeout(micros) => {
                    &&& final(events)@ == old(events)@
                    &&& exists|slot: u64| #[trigger]
                        is_next_slot(final(self).timers(), slot)
                        && micros == (slot - final(self).ticks()) * final(self).tick_interval()
                },
                PollStep::Wait => {
                    &&& final(events)@ == old(events)@
                    &&& final(self).timers() == Map::<u64, Seq<T>>::empty()
                },
            },
    {
        let len: usize = events.len();
        let interval: u64 = truncate(now);
        self.sys.advance(interval / self.tick_interval, events);
        if events.len() > len {
            return PollStep::Ready;
        }
        assert(events@ =~= old(events)@);
        match self.sys.next_slot() {
            Some(slot) => {
                let left: u64 = slot - self.sys.current_tick();
                assert(left as u128 * self.tick_interval as u128 <= u128::MAX)
                    by (nonlinear_arith)
                    requires
                        left <= u64::MAX,
                        self.tick_interval <= u64::MAX,
                ;
                let micros: u128 = left as u128 * self.tick_interval as u128;
                assert(is_next_slot(self.timers(), slot) && micros == (slot - self.ticks())
                    * self.tick_interval());
                PollStep::WaitTimeout(micros)
            },
            None => PollStep::Wait,
        }
    }
}

/// Keeps the low 64 bits of a number of microseconds.
pub fn truncate(micros: u128) -> (res: u64)
    ensures
        res == low_64_bits(micros),
{
    assert(micros as u64 == micros % 0x1_0000_0000_0000_0000u128) by (bit_vector);
    #[verifier::truncate]
    (micros as u64)
}

/// Rounding a quotient up.
pub(crate) proof fn lemma_round_up(n: int, d: int)
    requires
        n >= 0,
        d > 0,
    ensures
        deadline_slot(n, d) == n / d + (if n % d != 0 {
            1int
        } else {
            0int
        }),
        n % d != 0 ==> n / d < n,
        n / d <= n,
{
    let q = n / d;
    let r = n % d;
    vstd::arithmetic::div_mod::lemma_fundamental_div_mod(n, d);
    vstd::arithmetic::div_mod::lemma_mod_bound(n, d);
    vstd::arithmetic::div_mod::lemma_div_is_ordered_by_denominator(n, 1, d);
    vstd::arithmetic::div_mod::lemma_div_basics(n);
    if r != 0 {
        assert(n + d - 1 == (q + 1) * d + (r - 1)) by (nonlinear_arith)
            requires
                n == d * q + r,
        ;
        vstd::arithmetic::div_mod::lemma_fundamental_div_mod_converse(n + d - 1, d, q + 1, r - 1);
        assert(q < n) by (nonlinear_arith)
            requires
                n == d * q + r,
                r > 0,
                d > 0,
                q >= 0,
        ;
    } else {
        assert(n + d - 1 == q * d + (d - 1)) by (nonlinear_arith)
            requires
                n == d * q + r,
                r == 0,
        ;
        vstd::arithmetic::div_mod::lemma_fundamental_div_mod_converse(n + d - 1, d, q, d - 1);
    }
}

/// A timer never fires early: when the wheel is polled at a time before the deadline, the timer is
/// still waiting in its slot.
pub proof fn lemma_never_early<T>(
    timers: Map<u64, Seq<T>>,
    tick_interval: u64,
    deadline: u64,
    value: T,
    now: u64,
)
    requires
        tick_interval > 0,
        now < deadline,
    ensures
        ({
            let slot = deadline_slot(deadline as int, tick_interval as int);
            let rest = pending(with_timer(timers, slot as u64, value), now / tick_interval);
            &&& 0 < slot <= u64::MAX
            &&& rest.contains_key(slot as u64)
            &&& rest[slot as u64].last() == value
        }),
{
    let d = tick_interval as int;
    lemma_round_up(deadline as int, d);
    vstd::arithmetic::div_mod::lemma_fundamental_div_mod(deadline as int, d);
    vstd::arithmetic::div_mod::lemma_fundamental_div_mod(now as int, d);
    vstd::arithmetic::div_mod::lemma_mod_bound(deadline as int, d);
    vstd::arithmetic::div_mod::lemma_mod_bound(now as int, d);
    let q = deadline as int / d;
    let r = deadline as int % d;
    let p = now as int / d;
    assert(p < deadline_slot(deadline as int, d)) by (nonlinear_arith)
        requires
            now as int == d * p + now as int % d,
            deadline as int == d * q + r,
            now < deadline,
            0 <= now as int % d,
            0 <= r < d,
            deadline_slot(deadline as int, d) == q + (if r != 0 {
                1int
            } else {
                0int
            }),
    ;
}

/// A timer fires less than one tick late: a poll at a time that lies a tick or more after the
/// deadline delivers it.
pub proof fn lemma_fires_in_time<T>(
    timers: Map<u64, Seq<T>>,
    tick_interval: u64,
    deadline: u64,
    value: T,
    now: u64,
)
    requires
        tick_interval > 0,
        now >= deadline + tick_interval - 1,
    ensures
        ({
            let slot = deadline_slot(deadline as int, tick_interval as int);
            due(
                with_timer(timers, slot as u64, value),
                (now / tick_interval + 1) as nat,
            ).contains(value)
        }),
{
    broadcast use vstd::multiset::group_multiset_axioms;

    let d = tick_interval as int;
    let slot = deadline_slot(deadline as int, d);
    vstd::arithmetic::div_mod::lemma_div_is_ordered(deadline + d - 1, now as int, d);
    lemma_round_up(deadline as int, d);
    let end = (now / tick_interval + 1) as nat;
    lemma_due_with_timer(timers, slot as u64, value, end);
    let fired = due(with_timer(timers, slot as u64, value), end);
    vstd::seq_lib::to_multiset_contains(fired, value);
}

/// Timers fire in the order of their slots: what is due before an earlier tick comes before the rest
/// of what is due at a later one.
pub proof fn lemma_fires_in_order<T>(timers: Map<u64, Seq<T>>, earlier: nat, later: nat)
    requires
        earlier <= later,
    ensures
        due(timers, earlier).is_prefix_of(due(timers, later)),
    decreases later,
{
    if earlier < later {
        lemma_fires_in_order(timers, earlier, (later - 1) as nat);
    }
}

/// A later deadline never gets an earlier slot.
pub proof fn lemma_slots_follow_deadlines(tick_interval: int, earlier: int, later: int)
    requires
        tick_interval > 0,
        0 <= earlier <= later,
    ensures
        deadline_slot(earlier, tick_interval) <= deadline_slot(later, tick_interval),
{
    vstd::arithmetic::div_mod::lemma_div_is_ordered(
        earlier + tick_interval - 1,
        later + tick_interval - 1,
        tick_interval,
    );
}

} // verus!
