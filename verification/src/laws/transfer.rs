//! How a transfer moves data, and how it ends.

use crate::errors::{ErrorKind, IoError, N3Error};
use crate::transfer::{
    accepted, all_or_nothing, blocks, is_transfer, next_bytes, read_outcome, reads_answered, reported,
    taken, writes_answered, yielded, ReadCall, Sink, Source, TransferStep, WriteCall,
};
use vstd::prelude::*;

verus! {

/// A transfer that a failing write ends is good if and only if the sink would block. A sink that
/// takes no more data breaks the pipe, and any other error is passed on as it is. What could not be
/// written is kept.
pub proof fn lemma_failed_write_ends_a_transfer<E: IoError>(
    len: usize,
    unread: Seq<u8>,
    reads: Seq<ReadCall<E>>,
    writes: Seq<WriteCall<E>>,
    left: Seq<u8>,
    step: TransferStep<E>,
    err: E,
)
    requires
        is_transfer(len, unread, reads, writes, left, step),
        writes.len() > 0,
        writes[writes.len() - 1].outcome == Err::<(), E>(err),
    ensures
        (step matches TransferStep::Done(Ok(_))) <==> err.spec_kind() == ErrorKind::WouldBlock,
        err.spec_kind() == ErrorKind::WouldBlock ==> step == TransferStep::<E>::Done(
            Ok(accepted(writes).len() as usize),
        ),
        err.spec_kind() == ErrorKind::WriteZero ==> step == TransferStep::Done(
            Err::<usize, N3Error<E>>(N3Error::BrokenPipe(accepted(writes).len() as usize)),
        ),
        err.spec_kind() != ErrorKind::WouldBlock && err.spec_kind() != ErrorKind::WriteZero ==> step
            == TransferStep::Done(Err::<usize, N3Error<E>>(N3Error::Io(err))),
        left == writes[writes.len() - 1].data,
{
}

/// A transfer that its source ends is good if and only if the source would block. The end of the
/// source and any other error of it break the pipe. Nothing is kept.
pub proof fn lemma_source_ends_a_transfer<E: IoError>(
    len: usize,
    unread: Seq<u8>,
    reads: Seq<ReadCall<E>>,
    writes: Seq<WriteCall<E>>,
    left: Seq<u8>,
    step: TransferStep<E>,
)
    requires
        is_transfer(len, unread, reads, writes, left, step),
        forall|i: int| 0 <= i < writes.len() ==> (#[trigger] writes[i]).outcome is Ok,
        reads.len() > 0,
        reads[reads.len() - 1].outcome matches Ok(data) ==> data.len() == 0,
    ensures
        ({
            let outcome = reads[reads.len() - 1].outcome;
            let blocked = outcome matches Err(err) && err.spec_kind() == ErrorKind::WouldBlock;
            let n = accepted(writes).len() as usize;
            &&& blocked ==> step == TransferStep::<E>::Done(Ok(n))
            &&& !blocked ==> step == TransferStep::Done(
                Err::<usize, N3Error<E>>(N3Error::BrokenPipe(n)),
            )
            &&& left.len() == 0
        }),
{
    if writes.len() > 0 {
        assert(writes[writes.len() - 1].outcome is Ok);
    }
}

/// A transfer asks for as much as the buf holds, goes on reading while it gets data, and writes as
/// long as it succeeds. First it writes what was in the buf, if anything was, then what each read
/// has given, one after the other. It ends on a failing write, on a read that gives nothing, or when
/// the number of bytes would not fit, and on nothing else.
pub proof fn lemma_calls_of_a_transfer<E: IoError>(
    len: usize,
    unread: Seq<u8>,
    reads: Seq<ReadCall<E>>,
    writes: Seq<WriteCall<E>>,
    left: Seq<u8>,
    step: TransferStep<E>,
)
    requires
        is_transfer(len, unread, reads, writes, left, step),
    ensures
        ({
            let cached: int = if unread.len() > 0 {
                1
            } else {
                0
            };
            let last_read = reads.len() - 1;
            let last_write = writes.len() - 1;
            let failed = writes.len() > 0 && writes[last_write].outcome is Err;
            let ended = reads.len() > 0 && !(reads[last_read].outcome matches Ok(data)
                && data.len() > 0);
            &&& forall|i: int| 0 <= i < reads.len() ==> (#[trigger] reads[i]).len == len
            &&& forall|i: int|
                0 <= i < last_read ==> ((#[trigger] reads[i]).outcome matches Ok(data) && data.len()
                    > 0)
            &&& forall|i: int| 0 <= i < last_write ==> (#[trigger] writes[i]).outcome is Ok
            &&& forall|i: int|
                0 <= i < writes.len() ==> (#[trigger] writes[i]).data == (if i < cached {
                    unread
                } else {
                    reads[i - cached].outcome->Ok_0
                })
            &&& failed ==> writes.len() == cached + reads.len()
            &&& !failed && ended ==> writes.len() == cached + reads.len() - 1
            &&& !failed && !ended ==> {
                &&& step == TransferStep::<E>::Continue(accepted(writes).len() as usize)
                &&& accepted(writes).len() + left.len() > usize::MAX
            }
            &&& step is Continue ==> !failed && !ended
        }),
{
    assert forall|i: int| 0 <= i < reads.len() - 1 implies ((#[trigger] reads[i]).outcome matches Ok(
        data,
    ) && data.len() > 0) by {}
    lemma_blocks_in_order(unread, reads);
}

/// The blocks are what was in the buf and what the reads have given, in order.
proof fn lemma_blocks_in_order<E>(unread: Seq<u8>, reads: Seq<ReadCall<E>>)
    requires
        forall|i: int|
            0 <= i < reads.len() - 1 ==> ((#[trigger] reads[i]).outcome matches Ok(data)
                && data.len() > 0),
    ensures
        ({
            let cached: int = if unread.len() > 0 {
                1
            } else {
                0
            };
            let ended = reads.len() > 0 && !(reads[reads.len() - 1].outcome matches Ok(data)
                && data.len() > 0);
            let all = blocks(unread, reads);
            &&& all.len() == cached + reads.len() - (if ended {
                1int
            } else {
                0
            })
            &&& forall|i: int|
                0 <= i < all.len() ==> #[trigger] all[i] == (if i < cached {
                    unread
                } else {
                    reads[i - cached].outcome->Ok_0
                })
        }),
    decreases reads.len(),
{
    if reads.len() > 0 {
        let first = reads.drop_last();
        assert forall|i: int| 0 <= i < first.len() - 1 implies ((#[trigger] first[i]).outcome
            matches Ok(data) && data.len() > 0) by {
            assert(reads[i] == first[i]);
        }
        lemma_blocks_in_order(unread, first);
        if first.len() > 0 {
            assert(reads[first.len() - 1] == first[first.len() - 1]);
        }
        let cached: int = if unread.len() > 0 {
            1
        } else {
            0
        };
        let before = blocks(unread, first);
        let all = blocks(unread, reads);
        assert forall|i: int| 0 <= i < all.len() implies #[trigger] all[i] == (if i < cached {
            unread
        } else {
            reads[i - cached].outcome->Ok_0
        }) by {
            if i < before.len() {
                assert(all[i] == before[i]);
                if i >= cached {
                    assert(first[i - cached] == reads[i - cached]);
                }
            }
        }
    }
}

/// A source has yielded the data of its reads, in order: a failing read yields nothing.
pub proof fn lemma_yielded_by_one_more_read<E>(reads: Seq<ReadCall<E>>, len: usize, data: Seq<u8>, err: E)
    ensures
        yielded(Seq::<ReadCall<E>>::empty()) == Seq::<u8>::empty(),
        yielded(reads.push(ReadCall { len, outcome: Ok(data) })) == yielded(reads) + data,
        yielded(reads.push(ReadCall { len, outcome: Err(err) })) == yielded(reads),
{
    let good = reads.push(ReadCall { len, outcome: Ok::<Seq<u8>, E>(data) });
    let bad = reads.push(ReadCall { len, outcome: Err::<Seq<u8>, E>(err) });
    assert(good.drop_last() =~= reads);
    assert(bad.drop_last() =~= reads);
    assert(yielded(bad) =~= yielded(reads));
}

/// A sink has accepted the data of the writes that have succeeded, and taken of each write as much
/// as it has taken, in order.
pub proof fn lemma_taken_by_one_more_write<E>(
    writes: Seq<WriteCall<E>>,
    data: Seq<u8>,
    n: nat,
    err: E,
)
    ensures
        accepted(Seq::<WriteCall<E>>::empty()) == Seq::<u8>::empty(),
        taken(Seq::<WriteCall<E>>::empty()) == Seq::<u8>::empty(),
        ({
            let good = writes.push(WriteCall { data, taken: n, outcome: Ok::<(), E>(()) });
            let bad = writes.push(WriteCall { data, taken: n, outcome: Err::<(), E>(err) });
            &&& accepted(good) == accepted(writes) + data
            &&& accepted(bad) == accepted(writes)
            &&& taken(good) == taken(writes) + data.take(n as int)
            &&& taken(bad) == taken(writes) + data.take(n as int)
            &&& all_or_nothing(good) <==> all_or_nothing(writes) && n == data.len()
            &&& all_or_nothing(bad) <==> all_or_nothing(writes) && n == 0
        }),
{
    let good = writes.push(WriteCall { data, taken: n, outcome: Ok::<(), E>(()) });
    let bad = writes.push(WriteCall { data, taken: n, outcome: Err::<(), E>(err) });
    assert(good.drop_last() =~= writes);
    assert(bad.drop_last() =~= writes);
    assert(accepted(bad) =~= accepted(writes));
    assert(forall|i: int| 0 <= i < writes.len() ==> good[i] == writes[i] && bad[i] == writes[i]);
    assert(good[writes.len() as int].taken == n);
    assert(bad[writes.len() as int].taken == n);
    assert(all_or_nothing(good) ==> all_or_nothing(writes)) by {
        if all_or_nothing(good) {
            assert forall|i: int| 0 <= i < writes.len() implies (#[trigger] writes[i]).taken == (
            if writes[i].outcome is Ok {
                writes[i].data.len()
            } else {
                0
            }) by {
                assert(good[i] == writes[i]);
            }
        }
    }
    assert(all_or_nothing(bad) ==> all_or_nothing(writes)) by {
        if all_or_nothing(bad) {
            assert forall|i: int| 0 <= i < writes.len() implies (#[trigger] writes[i]).taken == (
            if writes[i].outcome is Ok {
                writes[i].data.len()
            } else {
                0
            }) by {
                assert(bad[i] == writes[i]);
            }
        }
    }
}

/// A step reports the number of bytes that it holds; an error other than a broken pipe reports none.
pub proof fn lemma_reported_number<E>(n: usize, err: E)
    ensures
        reported(TransferStep::<E>::Continue(n)) == Some(n as int),
        reported(TransferStep::<E>::Done(Ok(n))) == Some(n as int),
        reported(TransferStep::<E>::Done(Err(N3Error::BrokenPipe(n)))) == Some(n as int),
        reported(TransferStep::<E>::Done(Err(N3Error::Io(err)))) is None,
{
}

/// What comes of a read is its data or its error.
pub proof fn lemma_outcome_of_a_read<E>(data: Vec<u8>, err: E)
    ensures
        read_outcome(Ok::<Vec<u8>, E>(data)) == Ok::<Seq<u8>, E>(data@),
        read_outcome(Err::<Vec<u8>, E>(err)) == Err::<Seq<u8>, E>(err),
{
}

/// A vector yields as many of its bytes as are asked for, or all that are left, from where the
/// earlier reads have stopped.
pub proof fn lemma_next_bytes_of_a_vector<E>(data: Seq<u8>, reads: Seq<ReadCall<E>>, len: usize)
    requires
        yielded(reads).len() <= data.len(),
    ensures
        ({
            let start = yielded(reads).len() as int;
            let next = next_bytes(data, reads, len);
            &&& next.len() <= len
            &&& next.len() == len || start + next.len() == data.len()
            &&& start + next.len() <= data.len()
            &&& next == data.subrange(start, start + next.len())
        }),
{
    let start = yielded(reads).len() as int;
    let next = next_bytes(data, reads, len);
    assert(next =~= data.subrange(start, start + next.len()));
}

/// Where calls were answered, each outcome is what the source answers after the calls before it.
pub proof fn lemma_answers_of_a_source<E, F: Source<E>>(from: F, start: int)
    ensures
        reads_answered::<E, F>(from, start) <==> forall|i: int|
            start <= i < from.reads().len() ==> (#[trigger] from.reads()[i]).outcome == from.answer(
                from.reads().take(i),
                from.reads()[i].len,
            ),
{
}

/// Where calls were answered, each outcome, and how much was taken, is what the sink answers after
/// the calls before it.
pub proof fn lemma_answers_of_a_sink<E, T: Sink<E>>(to: T, start: int)
    ensures
        writes_answered::<E, T>(to, start) <==> forall|i: int|
            start <= i < to.writes().len() ==> {
                let answer = to.answer(to.writes().take(i), to.writes()[i].data);
                (#[trigger] to.writes()[i]).outcome == answer.0 && to.writes()[i].taken == answer.1
            },
{
    if writes_answered::<E, T>(to, start) {
        assert forall|i: int| start <= i < to.writes().len() implies ({
            let answer = to.answer(to.writes().take(i), to.writes()[i].data);
            (#[trigger] to.writes()[i]).outcome == answer.0 && to.writes()[i].taken == answer.1
        }) by {
            let call = to.writes()[i];
            assert((call.outcome, call.taken) == to.answer(to.writes().take(i), call.data));
        }
    }
}

} // verus!
