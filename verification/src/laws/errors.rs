//! Which errors are equal, and to which category they belong.

use crate::conn::ConnError;
use crate::errors::{ErrorKind, IoError, N3Error, PacketType, QuicheError};
use crate::reactor::ReactorError;
use crate::token::Token;
use vstd::prelude::*;

verus! {

/// A category belongs to itself.
pub proof fn lemma_kind_of_a_kind(kind: ErrorKind)
    ensures
        kind.spec_kind() == kind,
{
}

/// I/O errors are equal if and only if they belong to one category, broken pipes if they have
/// transferred the same number of bytes, errors of the protocol stack if they are the same.
pub proof fn lemma_equal_errors<E: IoError>(
    a: E,
    b: E,
    n: usize,
    m: usize,
    e: QuicheError,
    f: QuicheError,
)
    ensures
        N3Error::Io(a).same(N3Error::Io(b)) <==> a.spec_kind() == b.spec_kind(),
        N3Error::<E>::BrokenPipe(n).same(N3Error::BrokenPipe(m)) <==> n == m,
        N3Error::<E>::QuicheError(e).same(N3Error::QuicheError(f)) <==> e == f,
{
}

/// Errors of different sorts are not equal, and an unsupported packet or version is equal to
/// nothing.
pub proof fn lemma_unequal_errors<E: IoError>(
    a: E,
    n: usize,
    e: QuicheError,
    ty: PacketType,
    version: u32,
    any: N3Error<E>,
)
    ensures
        any.same(N3Error::Io(a)) ==> any is Io,
        any.same(N3Error::BrokenPipe(n)) ==> any == N3Error::<E>::BrokenPipe(n),
        any.same(N3Error::QuicheError(e)) ==> any == N3Error::<E>::QuicheError(e),
        !any.same(N3Error::UnsupportQuicPacket(ty)),
        !any.same(N3Error::UnsupportQuicVersion(version)),
        !N3Error::UnsupportQuicPacket(ty).same(any),
        !N3Error::UnsupportQuicVersion(version).same(any),
{
}

/// A closed connection is a broken pipe; whatever the protocol stack refuses has no category.
pub proof fn lemma_category_of_connection_errors(err: QuicheError)
    ensures
        ConnError::Closed.spec_kind() == ErrorKind::BrokenPipe,
        ConnError::Stack(err).spec_kind() == ErrorKind::Other,
{
}

/// What was shut down is a broken pipe; whatever is not registered is not found.
pub proof fn lemma_category_of_reactor_errors(token: Token)
    ensures
        ReactorError::ShutdownReadable(token).spec_kind() == ErrorKind::BrokenPipe,
        ReactorError::ShutdownWritable(token).spec_kind() == ErrorKind::BrokenPipe,
        ReactorError::TimerNotFound(token).spec_kind() == ErrorKind::NotFound,
        ReactorError::InvalidReadState(token).spec_kind() == ErrorKind::NotFound,
        ReactorError::InvalidWriteState(token).spec_kind() == ErrorKind::NotFound,
        ReactorError::InvalidState(token).spec_kind() == ErrorKind::NotFound,
{
}

} // verus!
