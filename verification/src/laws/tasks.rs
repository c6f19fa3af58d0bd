//! Copying, deadlines, sending from a group of sockets, and the size of the thread pool.

use crate::copy::{CopyStep, Copying};
use crate::errors::ErrorKind;
use crate::net::SocketAddr;
use crate::reactor::{ReactorError, TimerPoll};
use crate::spawner::spec_pool_size;
use crate::timeout::{timed, TimeoutPoll};
use crate::udp_group::socket_for;
use vstd::prelude::*;

verus! {

/// Copying writes each block that was read, ends well with an empty block, and ends with the very
/// error of a read or a write that fails. When it ends well, it reports the bytes of the blocks that
/// were written: each of them adds its length once.
pub proof fn lemma_copying<E>(copying: Copying, size: usize, err: E)
    requires
        copying.trans + size <= usize::MAX,
    ensures
        size > 0 ==> copying.spec_read(Ok::<usize, E>(size)) == CopyStep::<E>::Write(size),
        copying.spec_read(Ok::<usize, E>(0)) == CopyStep::Done(Ok::<usize, E>(copying.trans)),
        copying.spec_read(Err(err)) == CopyStep::Done(Err::<usize, E>(err)),
        copying.spec_written(size, Err(err)).0 == CopyStep::Done(Err::<usize, E>(err)),
        ({
            let (step, after) = copying.spec_written(size, Ok::<(), E>(()));
            &&& step == CopyStep::<E>::Read
            &&& after.spec_read(Ok::<usize, E>(0)) == CopyStep::Done(
                Ok::<usize, E>((copying.trans + size) as usize),
            )
        }),
{
}

/// A future that is done gives its own outcome, whatever its timer says; one that is not fails with a
/// timeout if and only if its timer does not wait any more.
pub proof fn lemma_future_with_a_deadline<T>(
    outcome: Result<T, ErrorKind>,
    timer: TimerPoll,
    ready: Result<(), ReactorError>,
)
    ensures
        timed(Some(outcome), timer) == TimeoutPoll::Ready(outcome),
        timed(None::<Result<T, ErrorKind>>, TimerPoll::Pending) == TimeoutPoll::<T>::Pending,
        timed(None::<Result<T, ErrorKind>>, TimerPoll::Ready(ready)) == TimeoutPoll::Ready(
            Err::<T, ErrorKind>(ErrorKind::TimedOut),
        ),
{
}

/// A datagram goes out by the socket that is bound to the address that it is sent from, and by no
/// other one.
pub proof fn lemma_socket_of_an_address(sockets: Map<SocketAddr, usize>, from: SocketAddr)
    ensures
        sockets.contains_key(from) ==> socket_for(sockets, from) == Ok::<usize, ErrorKind>(
            sockets[from],
        ),
        !sockets.contains_key(from) ==> socket_for(sockets, from) == Err::<usize, ErrorKind>(
            ErrorKind::AddrNotAvailable,
        ),
{
}

/// There is a thread for each processor, and never fewer than ten.
pub proof fn lemma_threads_of_a_machine(cpus: usize)
    ensures
        spec_pool_size(cpus) >= cpus,
        spec_pool_size(cpus) >= 10,
        spec_pool_size(cpus) == cpus || spec_pool_size(cpus) == 10,
{
}

} // verus!
