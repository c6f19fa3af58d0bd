//! in-memory caching structures used by tunnel data transferring.

use crate::errors::{ErrorKind, IoError, N3Error};
use vstd::prelude::*;

verus! {

/// A call of [`Source::read`]: how much was asked for, and what came of it.
pub struct ReadCall<E> {
    pub len: usize,
    pub outcome: Result<Seq<u8>, E>,
}

/// A call of [`Sink::write_all`]: what was to be written, how much of it was taken, and what came of
/// it.
pub struct WriteCall<E> {
    pub data: Seq<u8>,
    pub taken: nat,
    pub outcome: Result<(), E>,
}

/// What came of reading.
pub open spec fn read_outcome<E>(res: Result<Vec<u8>, E>) -> Result<Seq<u8>, E> {
    match res {
        Ok(data) => Ok(data@),
        Err(err) => Err(err),
    }
}

/// Where data comes from, with the I/O errors `E`.
///
/// The record of the calls and the answers are for proofs; a source that no proof speaks of leaves
/// them out.
pub trait Source<E> {
    /// The calls so far.
    closed spec fn reads(&self) -> Seq<ReadCall<E>> {
        arbitrary()
    }

    /// What the source answers when it is asked for `len` bytes after the calls `reads`.
    closed spec fn answer(&self, reads: Seq<ReadCall<E>>, len: usize) -> Result<Seq<u8>, E> {
        arbitrary()
    }

    /// Reads at most `len` bytes. No bytes are the end of the source.
    fn read(&mut self, len: usize) -> (res: Result<Vec<u8>, E>)
        ensures
            res matches Ok(data) ==> data@.len() <= len,
            read_outcome(res) == old(self).answer(old(self).reads(), len),
            final(self).reads() == old(self).reads().push(
                ReadCall { len, outcome: read_outcome(res) },
            ),
            forall|reads: Seq<ReadCall<E>>, len: usize| #[trigger]
                final(self).answer(reads, len) == old(self).answer(reads, len),
    ;
}

/// Where data goes to, with the I/O errors `E`.
///
/// The record of the calls and the answers are for proofs; a sink that no proof speaks of leaves
/// them out.
pub trait Sink<E> {
    /// The calls so far.
    closed spec fn writes(&self) -> Seq<WriteCall<E>> {
        arbitrary()
    }

    /// What the sink answers when it is asked to write `data` after the calls `writes`, and how much
    /// of the data it takes.
    closed spec fn answer(&self, writes: Seq<WriteCall<E>>, data: Seq<u8>) -> (Result<(), E>, nat) {
        arbitrary()
    }

    /// Writes all of `data`. A sink that fails may have taken the beginning of it.
    fn write_all(&mut self, data: &[u8]) -> (res: Result<(), E>)
        ensures
            ({
                let (outcome, taken) = old(self).answer(old(self).writes(), data@);
                &&& res == outcome
                &&& taken <= data@.len()
                &&& res is Ok ==> taken == data@.len()
                &&& final(self).writes() == old(self).writes().push(
                    WriteCall { data: data@, taken, outcome },
                )
            }),
            forall|writes: Seq<WriteCall<E>>, data: Seq<u8>| #[trigger]
                final(self).answer(writes, data) == old(self).answer(writes, data),
    ;
}

/// The data that a source has yielded in the calls `reads`.
pub open spec fn yielded<E>(reads: Seq<ReadCall<E>>) -> Seq<u8>
    decreases reads.len(),
{
    if reads.len() == 0 {
        Seq::empty()
    } else {
        yielded(reads.drop_last()) + match reads.last().outcome {
            Ok(data) => data,
            Err(_) => Seq::empty(),
        }
    }
}

/// The data that a sink has taken in the calls `writes`.
pub open spec fn taken<E>(writes: Seq<WriteCall<E>>) -> Seq<u8>
    decreases writes.len(),
{
    if writes.len() == 0 {
        Seq::empty()
    } else {
        taken(writes.drop_last()) + writes.last().data.take(writes.last().taken as int)
    }
}

/// The data of the calls `writes` that have succeeded.
pub open spec fn accepted<E>(writes: Seq<WriteCall<E>>) -> Seq<u8>
    decreases writes.len(),
{
    if writes.len() == 0 {
        Seq::empty()
    } else {
        accepted(writes.drop_last()) + (if writes.last().outcome is Ok {
            writes.last().data
        } else {
            Seq::empty()
        })
    }
}

/// Each of the calls `writes` has taken all of its data, or has failed and taken none of it.
pub open spec fn all_or_nothing<E>(writes: Seq<WriteCall<E>>) -> bool {
    forall|i: int|
        0 <= i < writes.len() ==> (#[trigger] writes[i]).taken == (if writes[i].outcome is Ok {
            writes[i].data.len()
        } else {
            0
        })
}

/// Reading has given data.
pub open spec fn is_more<E>(outcome: Result<Seq<u8>, E>) -> bool {
    outcome matches Ok(data) && data.len() > 0
}

/// The blocks that wait to be written, in order: first what is in the buf, if anything, then the data
/// of each of the calls `reads` that has given some.
pub open spec fn blocks<E>(unread: Seq<u8>, reads: Seq<ReadCall<E>>) -> Seq<Seq<u8>>
    decreases reads.len(),
{
    if reads.len() == 0 {
        if unread.len() > 0 {
            seq![unread]
        } else {
            Seq::empty()
        }
    } else {
        let before = blocks(unread, reads.drop_last());
        match reads.last().outcome {
            Ok(data) => if data.len() > 0 {
                before.push(data)
            } else {
                before
            },
            Err(_) => before,
        }
    }
}

/// What follows a transfer.
#[derive(Debug)]
pub enum TransferStep<E = ErrorKind> {
    /// The transfer can be continued; this much has been transferred so far.
    Continue(usize),
    /// The transfer has come to an end.
    Done(Result<usize, N3Error<E>>),
}

/// The number of transferred bytes that a step reports.
pub open spec fn reported<E>(step: TransferStep<E>) -> Option<int> {
    match step {
        TransferStep::Continue(n) => Some(n as int),
        TransferStep::Done(Ok(n)) => Some(n as int),
        TransferStep::Done(Err(N3Error::BrokenPipe(n))) => Some(n as int),
        TransferStep::Done(Err(_)) => None,
    }
}

/// How a transfer ends when writing fails, after `transferred` bytes.
pub open spec fn write_failure<E: IoError>(transferred: int, err: E) -> Result<usize, N3Error<E>> {
    match err.spec_kind() {
        ErrorKind::WriteZero => Err(N3Error::BrokenPipe(transferred as usize)),
        ErrorKind::WouldBlock => Ok(transferred as usize),
        _ => Err(N3Error::Io(err)),
    }
}

/// How a transfer ends when reading gives no data, after `transferred` bytes.
pub open spec fn read_end<E: IoError>(transferred: int, outcome: Result<Seq<u8>, E>) -> Result<
    usize,
    N3Error<E>,
> {
    match outcome {
        Err(err) => if err.spec_kind() == ErrorKind::WouldBlock {
            Ok(transferred as usize)
        } else {
            Err(N3Error::BrokenPipe(transferred as usize))
        },
        Ok(_) => Err(N3Error::BrokenPipe(transferred as usize)),
    }
}

/// A transfer through a buf of length `len` that holds `unread` makes the calls `reads` and `writes`,
/// leaves `left` in the buf, and is followed by `step`.
///
/// Each read asks for as much as the buf holds, and each write is given one block, in order. All reads
/// but the last one give data, and all writes but the last one succeed. The transfer ends with a write
/// that fails, or with a read that gives no data, or before the number of bytes no longer fits.
pub open spec fn is_transfer<E: IoError>(
    len: usize,
    unread: Seq<u8>,
    reads: Seq<ReadCall<E>>,
    writes: Seq<WriteCall<E>>,
    left: Seq<u8>,
    step: TransferStep<E>,
) -> bool {
    let blocks = blocks(unread, reads);
    &&& forall|i: int| 0 <= i < reads.len() ==> (#[trigger] reads[i]).len == len
    &&& forall|i: int| 0 <= i < reads.len() - 1 ==> is_more((#[trigger] reads[i]).outcome)
    &&& forall|i: int| 0 <= i < writes.len() - 1 ==> (#[trigger] writes[i]).outcome is Ok
    &&& writes.len() <= blocks.len()
    &&& forall|i: int| 0 <= i < writes.len() ==> (#[trigger] writes[i]).data == blocks[i]
    &&& accepted(writes).len() <= usize::MAX
    &&& if writes.len() > 0 && writes.last().outcome is Err {
        &&& reads.len() > 0 ==> is_more(reads.last().outcome)
        &&& writes.len() == blocks.len()
        &&& left == writes.last().data
        &&& step == TransferStep::Done(
            write_failure(accepted(writes).len() as int, writes.last().outcome->Err_0),
        )
    } else if reads.len() > 0 && !is_more(reads.last().outcome) {
        &&& writes.len() == blocks.len()
        &&& left == Seq::<u8>::empty()
        &&& step == TransferStep::Done(
            read_end(accepted(writes).len() as int, reads.last().outcome),
        )
    } else {
        &&& writes.len() == blocks.len() - 1
        &&& left == blocks.last()
        &&& accepted(writes).len() + left.len() > usize::MAX
        &&& step == TransferStep::<E>::Continue(accepted(writes).len() as usize)
    }
}

/// From call `start` on, the source has answered as it answers.
pub open spec fn reads_answered<E, F: Source<E>>(from: F, start: int) -> bool {
    forall|i: int|
        start <= i < from.reads().len() ==> (#[trigger] from.reads()[i]).outcome == from.answer(
            from.reads().take(i),
            from.reads()[i].len,
        )
}

/// From call `start` on, the sink has answered as it answers.
pub open spec fn writes_answered<E, T: Sink<E>>(to: T, start: int) -> bool {
    forall|i: int|
        start <= i < to.writes().len() ==> ({
            let call = #[trigger] to.writes()[i];
            (call.outcome, call.taken) == to.answer(to.writes().take(i), call.data)
        })
}

/// Decides how a transfer ends when writing fails.
///
/// A destination that takes no more data breaks the pipe; one that would block ends the transfer for
/// now; any other error is passed on.
fn on_write_failure<E: IoError>(transferred: usize, err: E) -> (res: Result<usize, N3Error<E>>)
    ensures
        res == write_failure(transferred as int, err),
{
    match err.kind() {
        ErrorKind::WriteZero => Err(N3Error::BrokenPipe(transferred)),
        ErrorKind::WouldBlock => Ok(transferred),
        _ => Err(N3Error::Io(err)),
    }
}

/// Decides how a transfer ends when reading fails.
///
/// A failing source breaks the pipe; a source that would block ends the transfer for now.
fn on_read_failure<E: IoError>(transferred: usize, err: E) -> (res: Result<usize, N3Error<E>>)
    ensures
        res == read_end(transferred as int, Err::<Seq<u8>, E>(err)),
{
    match err.kind() {
        ErrorKind::WouldBlock => Ok(transferred),
        _ => Err(N3Error::BrokenPipe(transferred)),
    }
}

/// Buf for unidirectional data transmission
pub struct TransferBuf {
    /// fixed allocated buf block.
    buf: Vec<u8>,
    /// written data length.
    written_len: usize,
    /// reading cursor offset.
    read_offset: usize,
}

impl TransferBuf {
    /// The whole block, whatever part of it holds data.
    pub closed spec fn block(self) -> Seq<u8> {
        self.buf@
    }

    /// The length of the block.
    pub open spec fn capacity(self) -> usize {
        self.block().len() as usize
    }

    /// The data that has been written and not yet read.
    pub closed spec fn unread(self) -> Seq<u8> {
        self.buf@.subrange(self.read_offset as int, self.written_len as int)
    }

    /// The reading cursor does not pass the written data, which fits into the block.
    pub closed spec fn wf(self) -> bool {
        self.read_offset <= self.written_len <= self.buf@.len()
    }

    /// Creates a new `TransferBuf` with provided capacity.
    pub fn with_capacity(len: usize) -> (buf: Self)
        requires
            len > 0,
        ensures
            buf.wf(),
            buf.block() == Seq::new(len as nat, |i: int| 0u8),
            buf.capacity() == len,
            buf.unread() == Seq::<u8>::empty(),
    {
        let buf = TransferBuf { buf: vec![0;len], written_len: 0, read_offset: 0 };
        assert(buf.block() =~= Seq::new(len as nat, |i: int| 0u8));
        assert(buf.unread() =~= Seq::<u8>::empty());
        buf
    }

    /// Writes new data into this buf: `r` fills the block and returns how much it wrote.
    ///
    /// The buf must not hold unread data, and `r` must not claim to have written more than fits.
    pub fn write_buf<E, R>(&mut self, r: R) -> (res: Result<usize, N3Error<E>>) where
        R: FnOnce(&mut [u8]) -> Result<usize, N3Error<E>>,

        requires
            old(self).wf(),
            old(self).unread().len() == 0,
            forall|block: &mut [u8]|
                block@ == old(self).block() ==> #[trigger] call_requires(r, (block,)),
            forall|block: &mut [u8], res: Result<usize, N3Error<E>>|
                block@ == old(self).block() && #[trigger] call_ensures(r, (block,), res)
                    ==> final(block)@.len() == block@.len() && (res matches Ok(n) ==> n
                    <= block@.len()),
        ensures
            final(self).wf(),
            exists|block: &mut [u8]|
                block@ == old(self).block() && final(block)@ == final(self).block()
                    && #[trigger] call_ensures(r, (block,), res),
            final(self).block().len() == old(self).block().len(),
            final(self).capacity() == old(self).capacity(),
            match res {
                Ok(n) => n <= final(self).block().len() && final(self).unread()
                    == final(self).block().take(n as int),
                Err(_) => final(self).unread().len() == 0,
            },
    {
        let res = r(self.buf.as_mut_slice());
        match res {
            Ok(written_len) => {
                self.written_len = written_len;
                self.read_offset = 0;
                Ok(written_len)
            },
            Err(err) => Err(err),
        }
    }

    /// Returns the unread data length.
    pub fn read_buf_len(&self) -> (len: usize)
        requires
            self.wf(),
        ensures
            len == self.unread().len(),
    {
        self.written_len - self.read_offset
    }

    /// Reads new data from this buf: `w` takes the unread data and returns how much of it is done
    /// with.
    ///
    /// `w` must not claim to be done with more than it was given.
    pub fn read_buf<E, W>(&mut self, w: W) -> (res: Result<usize, N3Error<E>>) where
        W: FnOnce(&[u8]) -> Result<usize, N3Error<E>>,

        requires
            old(self).wf(),
            forall|data: &[u8]|
                data@ == old(self).unread() ==> #[trigger] call_requires(w, (data,)),
            forall|data: &[u8], n: usize|
                data@ == old(self).unread() && #[trigger] call_ensures(w, (data,), Ok(n)) ==> n
                    <= data@.len(),
        ensures
            final(self).wf(),
            final(self).block() == old(self).block(),
            final(self).capacity() == old(self).capacity(),
            exists|data: &[u8]|
                data@ == old(self).unread() && #[trigger] call_ensures(w, (data,), res),
            match res {
                Ok(n) => n <= old(self).unread().len() && final(self).unread()
                    == old(self).unread().skip(n as int),
                Err(_) => final(self).unread() == old(self).unread(),
            },
    {
        let data = vstd::slice::slice_subrange(
            self.buf.as_slice(),
            self.read_offset,
            self.written_len,
        );
        let res = w(data);
        match res {
            Ok(read_len) => {
                self.read_offset = self.read_offset + read_len;
                assert(self.unread() =~= old(self).unread().skip(read_len as int));
                Ok(read_len)
            },
            Err(err) => Err(err),
        }
    }

    /// Puts `data` into the empty buf.
    fn fill(&mut self, data: &Vec<u8>)
        requires
            old(self).wf(),
            data@.len() <= old(self).block().len(),
        ensures
            final(self).wf(),
            final(self).block().len() == old(self).block().len(),
            final(self).unread() == data@,
    {
        let mut i: usize = 0;
        while i < data.len()
            invariant
                i <= data@.len() <= self.buf@.len(),
                self.buf@.len() == old(self).buf@.len(),
                self.buf@.take(i as int) == data@.take(i as int),
            decreases data.len() - i,
        {
            self.buf.set(i, data[i]);
            i = i + 1;
            assert(self.buf@.take(i as int) =~= data@.take(i as int));
        }
        self.written_len = data.len();
        self.read_offset = 0;
        assert(self.unread() =~= self.buf@.take(data@.len() as int));
        assert(data@.take(data@.len() as int) =~= data@);
    }

    /// Transfers data via this buf.
    ///
    /// Cached data goes out first. Then each block that `from` yields is written to `to`, until one
    /// of them would block, fails or comes to its end. Should the number of transferred bytes no
    /// longer fit, the transfer stops before that and can be continued.
    pub fn transfer<E: IoError, F: Source<E>, T: Sink<E>>(&mut self, from: &mut F, to: &mut T) -> (
    step: TransferStep<E>)
        requires
            old(self).wf(),
        ensures
            final(self).wf(),
            final(self).block().len() == old(self).block().len(),
            final(self).capacity() == old(self).capacity(),
            ({
                let reads = final(from).reads().skip(old(from).reads().len() as int);
                let writes = final(to).writes().skip(old(to).writes().len() as int);
                // the calls that were made
                &&& final(from).reads() == old(from).reads() + reads
                &&& final(to).writes() == old(to).writes() + writes
                &&& is_transfer(
                    old(self).capacity(),
                    old(self).unread(),
                    reads,
                    writes,
                    final(self).unread(),
                    step,
                )
                // the data that was moved
                &&& yielded(final(from).reads()) == yielded(old(from).reads()) + yielded(reads)
                &&& old(self).unread() + yielded(reads) == accepted(writes) + final(self).unread()
                &&& all_or_nothing(writes) ==> taken(old(to).writes()) + old(self).unread()
                    + yielded(reads) == taken(final(to).writes()) + final(self).unread()
                // the number that is reported
                &&& reported(step) matches Some(n) ==> n == accepted(writes).len() && (
                all_or_nothing(writes) ==> n == taken(final(to).writes()).len() - taken(
                    old(to).writes(),
                ).len())
            }),
            reads_answered::<E, F>(*final(from), old(from).reads().len() as int),
            writes_answered::<E, T>(*final(to), old(to).writes().len() as int),
            forall|reads: Seq<ReadCall<E>>, len: usize| #[trigger]
                final(from).answer(reads, len) == old(from).answer(reads, len),
            forall|writes: Seq<WriteCall<E>>, data: Seq<u8>| #[trigger]
                final(to).answer(writes, data) == old(to).answer(writes, data),
    {
        let len: usize = self.buf.len();
        let mut transferred: usize = 0;
        let ghost first = self.unread();
        let ghost reads_before = from.reads();
        let ghost writes_before = to.writes();
        let ghost mut reads: Seq<ReadCall<E>> = Seq::empty();
        let ghost mut writes: Seq<WriteCall<E>> = Seq::empty();
        proof {
            assert(from.reads() =~= reads_before + reads);
            assert(to.writes() =~= writes_before + writes);
        }
        loop
            invariant
                self.wf(),
                self.block().len() == old(self).block().len(),
                len == self.buf@.len(),
                len == old(self).capacity(),
                first == old(self).unread(),
                reads_before == old(from).reads(),
                writes_before == old(to).writes(),
                from.reads() == reads_before + reads,
                to.writes() == writes_before + writes,
                forall|i: int|
                    0 <= i < reads.len() ==> (#[trigger] reads[i]).len == len && is_more(
                        reads[i].outcome,
                    ),
                forall|i: int| 0 <= i < writes.len() ==> (#[trigger] writes[i]).outcome is Ok,
                forall|i: int|
                    0 <= i < writes.len() ==> (#[trigger] writes[i]).data == blocks(first, reads)[i],
                if self.unread().len() > 0 {
                    &&& blocks(first, reads).len() == writes.len() + 1
                    &&& blocks(first, reads).last() == self.unread()
                } else {
                    blocks(first, reads).len() == writes.len()
                },
                transferred == accepted(writes).len(),
                reads_answered::<E, F>(*from, reads_before.len() as int),
                writes_answered::<E, T>(*to, writes_before.len() as int),
                forall|reads: Seq<ReadCall<E>>, len: usize| #[trigger]
                    from.answer(reads, len) == old(from).answer(reads, len),
                forall|writes: Seq<WriteCall<E>>, data: Seq<u8>| #[trigger]
                    to.answer(writes, data) == old(to).answer(writes, data),
            decreases
                    usize::MAX - transferred,
                    (if self.unread().len() == 0 {
                        1int
                    } else {
                        0int
                    }),
        {
            if self.read_buf_len() > usize::MAX - transferred {
                let step = TransferStep::Continue(transferred);
                proof {
                    assert(from.reads().skip(reads_before.len() as int) =~= reads);
                    assert(to.writes().skip(writes_before.len() as int) =~= writes);
                    lemma_transfer(
                        len,
                        first,
                        reads_before,
                        reads,
                        writes_before,
                        writes,
                        self.unread(),
                        step,
                    );
                }
                return step;
            }
            // transfer caching data first.
            if self.read_buf_len() > 0 {
                let data = vstd::slice::slice_subrange(
                    self.buf.as_slice(),
                    self.read_offset,
                    self.written_len,
                );
                let ghost block = data@;
                let ghost known = to.writes();
                let written = to.write_all(data);
                proof {
                    let before = writes;
                    writes = before.push(to.writes().last());
                    assert(to.writes() =~= writes_before + writes);
                    assert(writes.drop_last() =~= before);
                    assert(forall|i: int| 0 <= i < before.len() ==> writes[i] == before[i]);
                    assert(to.writes().drop_last() =~= known);
                    lemma_write_answered::<E, T>(*to, known, writes_before.len() as int);
                }
                match written {
                    Ok(_) => {
                        transferred = transferred + self.read_buf_len();
                        self.read_offset = self.written_len;
                        assert(self.unread() =~= Seq::<u8>::empty());
                    },
                    Err(err) => {
                        let step = TransferStep::Done(on_write_failure(transferred, err));
                        proof {
                            assert(from.reads().skip(reads_before.len() as int) =~= reads);
                            assert(to.writes().skip(writes_before.len() as int) =~= writes);
                            assert(accepted(writes) =~= accepted(writes.drop_last()));
                            lemma_transfer(
                                len,
                                first,
                                reads_before,
                                reads,
                                writes_before,
                                writes,
                                self.unread(),
                                step,
                            );
                        }
                        return step;
                    },
                }
            }
            let ghost known = from.reads();
            let read = from.read(len);
            let ghost before = reads;
            proof {
                reads = before.push(from.reads().last());
                assert(from.reads() =~= reads_before + reads);
                assert(reads.drop_last() =~= before);
                assert(forall|i: int| 0 <= i < before.len() ==> reads[i] == before[i]);
                assert(from.reads().drop_last() =~= known);
                lemma_read_answered::<E, F>(*from, known, reads_before.len() as int);
            }
            let end: Result<usize, N3Error<E>> = match read {
                Ok(data) => {
                    if data.len() > 0 {
                        self.fill(&data);
                        continue;
                    }
                    Err(N3Error::BrokenPipe(transferred))
                },
                Err(err) => on_read_failure(transferred, err),
            };
            let step = TransferStep::Done(end);
            proof {
                assert(from.reads().skip(reads_before.len() as int) =~= reads);
                assert(to.writes().skip(writes_before.len() as int) =~= writes);
                assert(self.unread() =~= Seq::<u8>::empty());
                lemma_transfer(
                    len,
                    first,
                    reads_before,
                    reads,
                    writes_before,
                    writes,
                    self.unread(),
                    step,
                );
            }
            return step;
        }
    }
}

/// One more answer.
proof fn lemma_read_answered<E, F: Source<E>>(from: F, known: Seq<ReadCall<E>>, start: int)
    requires
        0 <= start <= known.len(),
        from.reads().len() == known.len() + 1,
        from.reads().drop_last() == known,
        forall|i: int|
            start <= i < known.len() ==> (#[trigger] known[i]).outcome == from.answer(
                known.take(i),
                known[i].len,
            ),
        from.reads().last().outcome == from.answer(known, from.reads().last().len),
    ensures
        reads_answered::<E, F>(from, start),
{
    assert forall|i: int| start <= i < from.reads().len() implies (
    #[trigger] from.reads()[i]).outcome == from.answer(
        from.reads().take(i),
        from.reads()[i].len,
    ) by {
        if i < known.len() {
            assert(known[i] == from.reads()[i]);
            assert(known.take(i) =~= from.reads().take(i));
        } else {
            assert(known =~= from.reads().take(i));
        }
    }
}

/// One more answer.
proof fn lemma_write_answered<E, T: Sink<E>>(to: T, known: Seq<WriteCall<E>>, start: int)
    requires
        0 <= start <= known.len(),
        to.writes().len() == known.len() + 1,
        to.writes().drop_last() == known,
        forall|i: int|
            start <= i < known.len() ==> ({
                let call = #[trigger] known[i];
                (call.outcome, call.taken) == to.answer(known.take(i), call.data)
            }),
        (to.writes().last().outcome, to.writes().last().taken) == to.answer(
            known,
            to.writes().last().data,
        ),
    ensures
        writes_answered::<E, T>(to, start),
{
    assert forall|i: int| start <= i < to.writes().len() implies ({
        let call = #[trigger] to.writes()[i];
        (call.outcome, call.taken) == to.answer(to.writes().take(i), call.data)
    }) by {
        if i < known.len() {
            assert(known[i] == to.writes()[i]);
            assert(known.take(i) =~= to.writes().take(i));
        } else {
            assert(known =~= to.writes().take(i));
        }
    }
}

/// `parts` one after the other.
spec fn joined(parts: Seq<Seq<u8>>) -> Seq<u8>
    decreases parts.len(),
{
    if parts.len() == 0 {
        Seq::empty()
    } else {
        joined(parts.drop_last()) + parts.last()
    }
}

/// The blocks hold what was in the buf and what the source has yielded.
proof fn lemma_blocks<E>(unread: Seq<u8>, reads: Seq<ReadCall<E>>)
    ensures
        joined(blocks(unread, reads)) == unread + yielded(reads),
    decreases reads.len(),
{
    if reads.len() > 0 {
        lemma_blocks(unread, reads.drop_last());
        let before = blocks(unread, reads.drop_last());
        match reads.last().outcome {
            Ok(data) => {
                assert(before.push(data).drop_last() =~= before);
                assert(joined(blocks(unread, reads)) =~= unread + yielded(reads));
            },
            Err(_) => {
                assert(joined(blocks(unread, reads)) =~= unread + yielded(reads));
            },
        }
    } else {
        assert(seq![unread].drop_last() =~= Seq::<Seq<u8>>::empty());
        assert(joined(Seq::<Seq<u8>>::empty()) =~= Seq::<u8>::empty());
        assert(seq![unread].last() == unread);
        assert(joined(blocks(unread, reads)) =~= unread + yielded(reads));
    }
}

/// What has been accepted is what the first blocks hold.
proof fn lemma_accepted<E>(parts: Seq<Seq<u8>>, writes: Seq<WriteCall<E>>)
    requires
        writes.len() <= parts.len(),
        forall|i: int|
            0 <= i < writes.len() ==> (#[trigger] writes[i]).data == parts[i] && writes[i].outcome
                is Ok,
    ensures
        accepted(writes) == joined(parts.take(writes.len() as int)),
    decreases writes.len(),
{
    if writes.len() > 0 {
        let n = writes.len() - 1;
        lemma_accepted(parts, writes.drop_last());
        assert(parts.take(n + 1).drop_last() =~= parts.take(n));
        assert(parts.take(n + 1).last() == writes.last().data);
    }
}

/// What is yielded adds up.
proof fn lemma_yielded_adds<E>(before: Seq<ReadCall<E>>, reads: Seq<ReadCall<E>>)
    ensures
        yielded(before + reads) == yielded(before) + yielded(reads),
    decreases reads.len(),
{
    if reads.len() > 0 {
        lemma_yielded_adds(before, reads.drop_last());
        assert((before + reads).drop_last() =~= before + reads.drop_last());
        assert(yielded(before + reads) =~= yielded(before) + yielded(reads));
    } else {
        assert(before + reads =~= before);
        assert(yielded(before + reads) =~= yielded(before) + yielded(reads));
    }
}

/// What is taken adds up.
proof fn lemma_taken_adds<E>(before: Seq<WriteCall<E>>, writes: Seq<WriteCall<E>>)
    ensures
        taken(before + writes) == taken(before) + taken(writes),
    decreases writes.len(),
{
    if writes.len() > 0 {
        lemma_taken_adds(before, writes.drop_last());
        assert((before + writes).drop_last() =~= before + writes.drop_last());
        assert(taken(before + writes) =~= taken(before) + taken(writes));
    } else {
        assert(before + writes =~= before);
        assert(taken(before + writes) =~= taken(before) + taken(writes));
    }
}

/// A sink that takes all or nothing has taken what it has accepted.
proof fn lemma_taken_is_accepted<E>(writes: Seq<WriteCall<E>>)
    requires
        all_or_nothing(writes),
    ensures
        taken(writes) == accepted(writes),
    decreases writes.len(),
{
    if writes.len() > 0 {
        let call = writes[writes.len() - 1];
        assert forall|i: int| 0 <= i < writes.len() - 1 implies (
        #[trigger] writes.drop_last()[i]).taken == (if writes.drop_last()[i].outcome is Ok {
            writes.drop_last()[i].data.len()
        } else {
            0
        }) by {
            assert(writes[i] == writes.drop_last()[i]);
        }
        lemma_taken_is_accepted(writes.drop_last());
        assert(call.data.take(call.data.len() as int) =~= call.data);
        assert(call.data.take(0) =~= Seq::<u8>::empty());
    }
}

/// No byte is lost, repeated or put out of order by a transfer: what was in the buf and what the
/// source has yielded is what the sink has accepted and what is left in the buf. The number that is
/// reported is the number of bytes that the sink has accepted.
pub proof fn lemma_transfer_keeps_order<E: IoError>(
    len: usize,
    unread: Seq<u8>,
    reads: Seq<ReadCall<E>>,
    writes: Seq<WriteCall<E>>,
    left: Seq<u8>,
    step: TransferStep<E>,
)
    requires
        is_transfer(len, unread, reads, writes, left, step),
    ensures
        unread + yielded(reads) == accepted(writes) + left,
        reported(step) matches Some(n) ==> n == accepted(writes).len(),
{
    let parts = blocks(unread, reads);
    lemma_blocks(unread, reads);
    if writes.len() > 0 && writes.last().outcome is Err {
        let done = writes.drop_last();
        lemma_accepted(parts, done);
        assert(accepted(writes) =~= accepted(done));
        assert(parts.take(done.len() as int) =~= parts.drop_last());
        assert(writes[writes.len() - 1].data == parts.last());
    } else {
        assert forall|i: int| 0 <= i < writes.len() implies (#[trigger] writes[i]).data == parts[i]
            && writes[i].outcome is Ok by {}
        lemma_accepted(parts, writes);
        if writes.len() == parts.len() {
            assert(parts.take(writes.len() as int) =~= parts);
            assert(accepted(writes) + left =~= accepted(writes));
        } else {
            assert(parts.take(writes.len() as int) =~= parts.drop_last());
        }
    }
}

/// What a transfer has done: the calls that it has made, what it has left in the buf, and the step
/// that follows it.
pub struct TransferCall<E> {
    pub reads: Seq<ReadCall<E>>,
    pub writes: Seq<WriteCall<E>>,
    pub left: Seq<u8>,
    pub step: TransferStep<E>,
}

/// What is left in a buf, empty at first, by the transfers `calls`.
pub open spec fn left_by<E>(calls: Seq<TransferCall<E>>) -> Seq<u8> {
    if calls.len() == 0 {
        Seq::empty()
    } else {
        calls.last().left
    }
}

/// All reads of the transfers `calls`.
pub open spec fn all_reads<E>(calls: Seq<TransferCall<E>>) -> Seq<ReadCall<E>>
    decreases calls.len(),
{
    if calls.len() == 0 {
        Seq::empty()
    } else {
        all_reads(calls.drop_last()) + calls.last().reads
    }
}

/// All writes of the transfers `calls`.
pub open spec fn all_writes<E>(calls: Seq<TransferCall<E>>) -> Seq<WriteCall<E>>
    decreases calls.len(),
{
    if calls.len() == 0 {
        Seq::empty()
    } else {
        all_writes(calls.drop_last()) + calls.last().writes
    }
}

/// `calls` are transfers, one after the other, through a buf of length `len` that is empty at first.
pub open spec fn are_transfers<E: IoError>(len: usize, calls: Seq<TransferCall<E>>) -> bool
    decreases calls.len(),
{
    calls.len() == 0 || {
        let call = calls.last();
        &&& are_transfers(len, calls.drop_last())
        &&& is_transfer(
            len,
            left_by(calls.drop_last()),
            call.reads,
            call.writes,
            call.left,
            call.step,
        )
    }
}

/// Across any number of transfers from one source to one sink, whatever each of them comes to, as
/// long as the sink takes all or nothing of a block: what the sink has taken, followed by what is
/// left in the buf, is what the source has yielded.
pub proof fn lemma_transfers_keep_order<E: IoError>(len: usize, calls: Seq<TransferCall<E>>)
    requires
        are_transfers(len, calls),
        all_or_nothing(all_writes(calls)),
    ensures
        taken(all_writes(calls)) + left_by(calls) == yielded(all_reads(calls)),
    decreases calls.len(),
{
    if calls.len() > 0 {
        let first = calls.drop_last();
        let call = calls.last();
        let before = all_writes(first);
        assert forall|i: int| 0 <= i < before.len() implies (#[trigger] before[i]).taken == (
        if before[i].outcome is Ok {
            before[i].data.len()
        } else {
            0
        }) by {
            assert(all_writes(calls)[i] == before[i]);
        }
        assert forall|i: int| 0 <= i < call.writes.len() implies (#[trigger] call.writes[i]).taken
            == (if call.writes[i].outcome is Ok {
            call.writes[i].data.len()
        } else {
            0
        }) by {
            assert(all_writes(calls)[before.len() + i] == call.writes[i]);
        }
        lemma_transfers_keep_order(len, first);
        lemma_transfer(
            len,
            left_by(first),
            all_reads(first),
            call.reads,
            before,
            call.writes,
            call.left,
            call.step,
        );
    } else {
        assert(taken(all_writes(calls)) + left_by(calls) =~= yielded(all_reads(calls)));
    }
}

/// What a transfer says of the data that it has moved.
proof fn lemma_transfer<E: IoError>(
    len: usize,
    unread: Seq<u8>,
    reads_before: Seq<ReadCall<E>>,
    reads: Seq<ReadCall<E>>,
    writes_before: Seq<WriteCall<E>>,
    writes: Seq<WriteCall<E>>,
    left: Seq<u8>,
    step: TransferStep<E>,
)
    requires
        is_transfer(len, unread, reads, writes, left, step),
    ensures
        yielded(reads_before + reads) == yielded(reads_before) + yielded(reads),
        unread + yielded(reads) == accepted(writes) + left,
        all_or_nothing(writes) ==> taken(writes_before) + unread + yielded(reads) == taken(
            writes_before + writes,
        ) + left,
        reported(step) matches Some(n) ==> n == accepted(writes).len() && (all_or_nothing(writes)
            ==> n == taken(writes_before + writes).len() - taken(writes_before).len()),
{
    lemma_transfer_keeps_order(len, unread, reads, writes, left, step);
    lemma_yielded_adds(reads_before, reads);
    lemma_taken_adds(writes_before, writes);
    if all_or_nothing(writes) {
        lemma_taken_is_accepted(writes);
        assert(taken(writes_before) + accepted(writes) + left =~= taken(writes_before) + (accepted(
            writes,
        ) + left));
        assert(taken(writes_before) + (unread + yielded(reads)) =~= taken(writes_before) + unread
            + yielded(reads));
    }
}

/// How far a source has been read, and by which calls.
struct Position {
    pos: usize,
    calls: Ghost<Seq<ReadCall<ErrorKind>>>,
}

/// A source that yields the bytes of a vector.
pub struct VecSource {
    data: Vec<u8>,
    at: Position,
}

impl VecSource {
    #[verifier::type_invariant]
    spec fn wf(self) -> bool {
        self.at.pos <= self.data@.len() && yielded(self.at.calls@).len() == self.at.pos
    }

    /// All the bytes.
    pub closed spec fn data(self) -> Seq<u8> {
        self.data@
    }

    /// Creates a source that yields `data`.
    pub fn new(data: Vec<u8>) -> (source: Self)
        ensures
            source.data() == data@,
            source.reads() == Seq::<ReadCall<ErrorKind>>::empty(),
    {
        VecSource { data, at: Position { pos: 0, calls: Ghost(Seq::empty()) } }
    }
}

/// The next `len` bytes of `data` after the calls `reads`, or as many as there are.
pub open spec fn next_bytes<E>(data: Seq<u8>, reads: Seq<ReadCall<E>>, len: usize) -> Seq<u8> {
    let rest = data.skip(yielded(reads).len() as int);
    if len <= rest.len() {
        rest.take(len as int)
    } else {
        rest
    }
}

impl Source<ErrorKind> for VecSource {
    closed spec fn reads(&self) -> Seq<ReadCall<ErrorKind>> {
        self.at.calls@
    }

    open spec fn answer(&self, reads: Seq<ReadCall<ErrorKind>>, len: usize) -> Result<
        Seq<u8>,
        ErrorKind,
    > {
        Ok(next_bytes(self.data(), reads, len))
    }

    fn read(&mut self, len: usize) -> (res: Result<Vec<u8>, ErrorKind>)
        ensures
            final(self).data() == old(self).data(),
    {
        proof {
            use_type_invariant(&*self);
        }
        let pos: usize = self.at.pos;
        let rest: usize = self.data.len() - pos;
        let end: usize = if len <= rest {
            pos + len
        } else {
            self.data.len()
        };
        let data = vstd::slice::slice_to_vec(
            vstd::slice::slice_subrange(self.data.as_slice(), pos, end),
        );
        let ghost before = self.at.calls@;
        let ghost call = ReadCall { len, outcome: Ok::<Seq<u8>, ErrorKind>(data@) };
        proof {
            assert(data@ =~= next_bytes(self.data@, before, len));
            assert(before.push(call).drop_last() =~= before);
        }
        self.at = Position { pos: end, calls: Ghost(before.push(call)) };
        Ok(data)
    }
}

/// The bytes that a sink has taken, and by which calls.
struct Taken {
    bytes: Vec<u8>,
    calls: Ghost<Seq<WriteCall<ErrorKind>>>,
}

/// A sink that takes everything into a vector.
pub struct VecSink {
    taken: Taken,
}

impl VecSink {
    #[verifier::type_invariant]
    spec fn wf(self) -> bool {
        self.taken.bytes@ == taken(self.taken.calls@)
    }

    /// Creates an empty sink.
    pub fn new() -> (sink: Self)
        ensures
            sink.writes() == Seq::<WriteCall<ErrorKind>>::empty(),
    {
        VecSink { taken: Taken { bytes: Vec::new(), calls: Ghost(Seq::empty()) } }
    }

    /// Returns the bytes that the sink has taken.
    pub fn into_bytes(self) -> (bytes: Vec<u8>)
        ensures
            bytes@ == taken(self.writes()),
    {
        proof {
            use_type_invariant(&self);
        }
        self.taken.bytes
    }
}

impl Sink<ErrorKind> for VecSink {
    closed spec fn writes(&self) -> Seq<WriteCall<ErrorKind>> {
        self.taken.calls@
    }

    open spec fn answer(&self, writes: Seq<WriteCall<ErrorKind>>, data: Seq<u8>) -> (
        Result<(), ErrorKind>,
        nat,
    ) {
        (Ok(()), data.len())
    }

    fn write_all(&mut self, data: &[u8]) -> (res: Result<(), ErrorKind>) {
        proof {
            use_type_invariant(&*self);
        }
        let ghost before = self.taken.calls@;
        let ghost call = WriteCall {
            data: data@,
            taken: data@.len(),
            outcome: Ok::<(), ErrorKind>(()),
        };
        let mut bytes: Vec<u8> = self.taken.bytes.clone();
        bytes.extend_from_slice(data);
        proof {
            assert(before.push(call).drop_last() =~= before);
            assert(data@.take(data@.len() as int) =~= data@);
            assert(bytes@ =~= taken(before.push(call)));
        }
        self.taken = Taken { bytes, calls: Ghost(before.push(call)) };
        Ok(())
    }
}

} // verus!
