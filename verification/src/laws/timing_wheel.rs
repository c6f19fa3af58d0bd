//! When timers fire, and in which order.

use crate::driver;
use crate::heap::is_least_key;
use crate::timing_wheel::{
    adding, deadline_slot, due, end_of_time, follows_poll, is_next_slot, low_64_bits, pending,
    slot_values, timer_count, with_timer, PollStep, TimeWheel,
};
use vstd::multiset::Multiset;
use vstd::prelude::*;

verus! {

/// A time is kept as it is as long as it fits into 64 bits, and otherwise up to multiples of the
/// number of values that do.
pub proof fn lemma_time_in_64_bits(micros: u128)
    ensures
        micros <= u64::MAX ==> low_64_bits(micros) == micros,
        0 <= low_64_bits(micros) <= u64::MAX,
        (micros - low_64_bits(micros)) % 0x1_0000_0000_0000_0000 == 0,
{
}

/// A timer fires at the first tick whose time does not lie before the deadline.
pub proof fn lemma_tick_of_a_deadline(deadline: int, tick_interval: int)
    requires
        deadline >= 0,
        tick_interval > 0,
    ensures
        ({
            let slot = deadline_slot(deadline, tick_interval);
            &&& (slot - 1) * tick_interval < deadline <= slot * tick_interval
            &&& slot >= 0
            &&& forall|ticks: int| #[trigger]
                (ticks * tick_interval) < deadline <==> ticks < slot
        }),
{
    let slot = deadline_slot(deadline, tick_interval);
    let n = deadline + tick_interval - 1;
    vstd::arithmetic::div_mod::lemma_fundamental_div_mod(n, tick_interval);
    vstd::arithmetic::div_mod::lemma_mod_bound(n, tick_interval);
    vstd::arithmetic::div_mod::lemma_div_pos_is_pos(n, tick_interval);
    assert((slot - 1) * tick_interval < deadline <= slot * tick_interval) by (nonlinear_arith)
        requires
            n == tick_interval * slot + n % tick_interval,
            0 <= n % tick_interval < tick_interval,
            n == deadline + tick_interval - 1,
    ;
    assert forall|ticks: int| #[trigger] (ticks * tick_interval) < deadline <==> ticks < slot by {
        if ticks < slot {
            assert(ticks * tick_interval <= (slot - 1) * tick_interval) by (nonlinear_arith)
                requires
                    ticks <= slot - 1,
                    tick_interval > 0,
            ;
        } else {
            assert(ticks * tick_interval >= slot * tick_interval) by (nonlinear_arith)
                requires
                    ticks >= slot,
                    tick_interval > 0,
            ;
        }
    }
}

/// The tick of a timing wheel at which a timer fires.
pub proof fn lemma_slot_of_a_deadline<T>(wheel: TimeWheel<T>, deadline: u128)
    requires
        wheel.tick_interval() > 0,
        deadline <= u64::MAX,
    ensures
        (wheel.slot_of(deadline) - 1) * wheel.tick_interval() < deadline <= wheel.slot_of(deadline)
            * wheel.tick_interval(),
{
    lemma_tick_of_a_deadline(deadline as int, wheel.tick_interval() as int);
}

/// The tick of a quic timing wheel that a time lies in begins at the time or before it, and the next
/// one after it.
pub proof fn lemma_tick_of_a_time<T>(wheel: driver::TimeWheel<T>, micros: u128)
    requires
        wheel.tick_interval() > 0,
        micros <= u64::MAX,
    ensures
        wheel.tick_of(micros) * wheel.tick_interval() <= micros < (wheel.tick_of(micros) + 1)
            * wheel.tick_interval(),
{
    let d = wheel.tick_interval() as int;
    let t = micros as int / d;
    vstd::arithmetic::div_mod::lemma_fundamental_div_mod(micros as int, d);
    vstd::arithmetic::div_mod::lemma_mod_bound(micros as int, d);
    assert(t * d <= micros < (t + 1) * d) by (nonlinear_arith)
        requires
            micros as int == d * t + micros as int % d,
            0 <= micros as int % d < d,
    ;
}

/// What is due is what waits in the slots before the end, and nothing else.
pub proof fn lemma_what_is_due<T>(timers: Map<u64, Seq<T>>, end: nat, value: T)
    ensures
        due(timers, end).contains(value) <==> exists|slot: u64|
            slot < end && #[trigger] timers.contains_key(slot) && timers[slot].contains(value),
    decreases end,
{
    if end > 0 {
        let rest = (end - 1) as nat;
        lemma_what_is_due(timers, rest, value);
        let before = due(timers, rest);
        let last = slot_values(timers, end - 1);
        let all = due(timers, end);
        if before.contains(value) {
            let k = choose|k: int| 0 <= k < before.len() && before[k] == value;
            assert(all[k] == value);
        }
        if last.contains(value) {
            let k = choose|k: int| 0 <= k < last.len() && last[k] == value;
            assert(all[before.len() + k] == value);
            assert(timers.contains_key((end - 1) as u64));
        }
        if all.contains(value) {
            let k = choose|k: int| 0 <= k < all.len() && all[k] == value;
            if k < before.len() {
                assert(before[k] == value);
            } else {
                assert(last[k - before.len()] == value);
            }
        }
        if exists|slot: u64|
            slot < end && #[trigger] timers.contains_key(slot) && timers[slot].contains(value) {
            let slot = choose|slot: u64|
                slot < end && #[trigger] timers.contains_key(slot) && timers[slot].contains(value);
            if slot < rest {
                assert(before.contains(value));
            } else {
                assert(last == timers[slot]);
            }
        }
    }
}

/// One more slot adds what waits in it, in the order in which it was added, after all that was due
/// before.
pub proof fn lemma_due_of_one_more_slot<T>(timers: Map<u64, Seq<T>>, slot: u64)
    ensures
        due(timers, 0) == Seq::<T>::empty(),
        timers.contains_key(slot) ==> due(timers, (slot + 1) as nat) == due(timers, slot as nat)
            + timers[slot],
        !timers.contains_key(slot) ==> due(timers, (slot + 1) as nat) == due(timers, slot as nat),
        timer_count(timers) == due(timers, 0x1_0000_0000_0000_0000).len(),
        end_of_time() == u64::MAX + 1,
{
    assert(due(timers, slot as nat) + Seq::<T>::empty() =~= due(timers, slot as nat));
}

/// After a tick the later slots wait on as they are, and all others are empty.
pub proof fn lemma_what_waits_on<T>(timers: Map<u64, Seq<T>>, ticks: u64, slot: u64)
    ensures
        pending(timers, ticks).contains_key(slot) <==> timers.contains_key(slot) && slot > ticks,
        pending(timers, ticks).contains_key(slot) ==> pending(timers, ticks)[slot] == timers[slot],
{
}

/// A new timer is the last one of its slot, and changes no other slot.
pub proof fn lemma_slot_of_a_new_timer<T>(
    timers: Map<u64, Seq<T>>,
    slot: u64,
    value: T,
    other: u64,
)
    ensures
        ({
            let after = with_timer(timers, slot, value);
            &&& after.contains_key(slot)
            &&& timers.contains_key(slot) ==> after[slot] == timers[slot].push(value)
            &&& !timers.contains_key(slot) ==> after[slot] == seq![value]
            &&& other != slot ==> after.contains_key(other) == timers.contains_key(other)
                && after[other] == timers[other]
        }),
{
    assert(Seq::<T>::empty().push(value) =~= seq![value]);
}

/// The next slot is occupied, and no occupied slot comes before it.
pub proof fn lemma_next_slot<T>(timers: Map<u64, Seq<T>>, slot: u64, other: u64)
    requires
        is_next_slot(timers, slot),
    ensures
        timers.contains_key(slot),
        timers.contains_key(other) ==> slot <= other,
{
}

/// The least key is one of the keys, and no key is smaller.
pub proof fn lemma_least_key(keys: Multiset<u64>, key: u64, other: u64)
    requires
        is_least_key(keys, key),
    ensures
        keys.count(key) > 0,
        keys.count(other) > 0 ==> key <= other,
{
    broadcast use vstd::multiset::group_multiset_axioms;

    if keys.count(other) > 0 {
        assert(keys.contains(other));
    }
}

/// A timer is refused if and only if its tick was processed already; otherwise it waits in its slot
/// and is delivered with the tick of the slot, and not with an earlier one.
pub proof fn lemma_adding_a_timer<T>(
    timers: Map<u64, Seq<T>>,
    ticks: u64,
    slot: u64,
    value: T,
    end: nat,
)
    ensures
        ({
            let (res, after) = adding(timers, ticks, slot, value);
            &&& slot <= ticks ==> res is None && after == timers
            &&& slot > ticks ==> {
                &&& res == Some(slot)
                &&& end > slot ==> due(after, end).contains(value)
                &&& end <= slot ==> due(after, end) == due(timers, end)
                &&& after.contains_key(slot) && after[slot].last() == value
            }
        }),
{
    let (res, after) = adding(timers, ticks, slot, value);
    if slot > ticks {
        lemma_slot_of_a_new_timer(timers, slot, value, slot);
        assert(after[slot][after[slot].len() - 1] == value);
        lemma_what_is_due(after, end, value);
        if end > slot {
            assert(after.contains_key(slot) && after[slot].contains(value));
        } else {
            lemma_same_slots(timers, after, end, slot);
        }
    }
}

proof fn lemma_same_slots<T>(a: Map<u64, Seq<T>>, b: Map<u64, Seq<T>>, end: nat, slot: u64)
    requires
        end <= slot,
        forall|other: u64| other != slot ==> #[trigger] a.contains_key(other) == b.contains_key(other)
            && a[other] == b[other],
    ensures
        due(a, end) == due(b, end),
    decreases end,
{
    if end > 0 {
        lemma_same_slots(a, b, (end - 1) as nat, slot);
        let last = (end - 1) as u64;
        assert(a.contains_key(last) == b.contains_key(last));
    }
}

/// After a poll the caller goes on if and only if a timer has expired. Otherwise it waits until the
/// time of the earliest slot, or, if and only if no timer waits, for a new one.
pub proof fn lemma_waiting_for_the_next_timer<T>(
    step: PollStep,
    expired: int,
    timers: Map<u64, Seq<T>>,
    ticks: u64,
    tick_interval: u64,
    slot: u64,
)
    requires
        follows_poll(step, expired, timers, ticks, tick_interval),
        expired >= 0,
    ensures
        step is Ready <==> expired > 0,
        step is Wait ==> !timers.contains_key(slot),
        step matches PollStep::WaitTimeout(micros) ==> {
            &&& exists|next: u64| #[trigger]
                timers.contains_key(next) && ticks * tick_interval + micros == next * tick_interval
            &&& timers.contains_key(slot) ==> slot * tick_interval >= ticks * tick_interval + micros
        },
{
    if let PollStep::WaitTimeout(micros) = step {
        let next = choose|next: u64| #[trigger]
            is_next_slot(timers, next) && micros == (next - ticks) * tick_interval;
        assert((next - ticks) * tick_interval == next * tick_interval - ticks * tick_interval)
            by (nonlinear_arith);
        assert(timers.contains_key(next));
        if timers.contains_key(slot) {
            assert(slot * tick_interval >= next * tick_interval) by (nonlinear_arith)
                requires
                    slot >= next,
                    tick_interval >= 0,
            ;
        }
    }
}

} // verus!
