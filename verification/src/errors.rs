//! error types used by this crate.

use vstd::prelude::*;

verus! {

/// The category of an I/O error.
#[derive(Clone, Copy, Debug, PartialEq, Eq, Structural)]
pub enum ErrorKind {
    NotFound,
    PermissionDenied,
    ConnectionRefused,
    ConnectionReset,
    HostUnreachable,
    NetworkUnreachable,
    ConnectionAborted,
    NotConnected,
    AddrInUse,
    AddrNotAvailable,
    NetworkDown,
    BrokenPipe,
    AlreadyExists,
    WouldBlock,
    NotADirectory,
    IsADirectory,
    DirectoryNotEmpty,
    ReadOnlyFilesystem,
    StaleNetworkFileHandle,
    InvalidInput,
    InvalidData,
    TimedOut,
    WriteZero,
    StorageFull,
    NotSeekable,
    QuotaExceeded,
    FileTooLarge,
    ResourceBusy,
    ExecutableFileBusy,
    Deadlock,
    CrossesDevices,
    TooManyLinks,
    InvalidFilename,
    ArgumentListTooLong,
    Interrupted,
    Unsupported,
    UnexpectedEof,
    OutOfMemory,
    Other,
    /// A category that has no name.
    Uncategorized,
}

/// An I/O error: whatever it holds, it belongs to a category.
pub trait IoError: Sized {
    /// The category of the error.
    closed spec fn spec_kind(&self) -> ErrorKind {
        arbitrary()
    }

    /// Returns the category of the error.
    fn kind(&self) -> (kind: ErrorKind)
        ensures
            kind == self.spec_kind(),
    ;
}

impl IoError for ErrorKind {
    open spec fn spec_kind(&self) -> ErrorKind {
        *self
    }

    fn kind(&self) -> (kind: ErrorKind) {
        *self
    }
}

/// An error of the QUIC protocol stack.
#[derive(Clone, Copy, Debug, PartialEq, Eq, Structural)]
pub enum QuicheError {
    /// There is no more work to do.
    Done,
    /// The provided buffer is too short.
    BufferTooShort,
    /// The provided packet cannot be parsed because its version is unknown.
    UnknownVersion,
    /// The provided packet contains an invalid frame.
    InvalidFrame,
    /// The provided packet cannot be parsed.
    InvalidPacket,
    /// The connection is in an invalid state.
    InvalidState,
    /// The stream is in an invalid state.
    InvalidStreamState(u64),
    /// The peer's transport params cannot be parsed.
    InvalidTransportParam,
    /// A cryptographic operation failed.
    CryptoFail,
    /// The TLS handshake failed.
    TlsFail,
    /// The peer violated the local flow control limits.
    FlowControl,
    /// The peer violated the local stream limits.
    StreamLimit,
    /// The stream was stopped by the peer.
    StreamStopped(u64),
    /// The stream was reset by the peer.
    StreamReset(u64),
    /// The received data exceeds the stream's final size.
    FinalSize,
    /// Error in congestion control.
    CongestionControl,
    /// Too many identifiers were provided.
    IdLimit,
    /// Not enough available identifiers.
    OutOfIdentifiers,
    /// Error in key update.
    KeyUpdate,
    /// The peer sent more data in CRYPTO frames than can be buffered.
    CryptoBufferExceeded,
    /// The peer sent an ACK frame with an invalid range.
    InvalidAckRange,
    /// The peer acknowledged a skipped packet.
    OptimisticAckDetected,
}

/// The type of a QUIC packet.
#[derive(Clone, Copy, Debug, PartialEq, Eq, Structural)]
pub enum PacketType {
    /// Initial packet.
    Initial,
    /// Retry packet.
    Retry,
    /// Handshake packet.
    Handshake,
    /// 0-RTT packet.
    ZeroRTT,
    /// Version negotiation packet.
    VersionNegotiation,
    /// 1-RTT short header packet.
    Short,
}

/// Error type used by this crate, with the I/O errors `E`.
#[derive(Clone, Copy, Debug)]
pub enum N3Error<E = ErrorKind> {
    /// An I/O error.
    Io(E),
    /// transferring pipe is broken.
    BrokenPipe(usize),
    /// Error raised by the QUIC protocol stack.
    QuicheError(QuicheError),
    /// Unsupport quic packet.
    UnsupportQuicPacket(PacketType),
    /// Unsupport quic packet version.
    UnsupportQuicVersion(u32),
}

impl<E: IoError> N3Error<E> {
    /// The two errors are I/O errors of one category, or the same broken pipe or protocol error. An
    /// error of another kind is not equal to any error, not even to itself.
    pub open spec fn same(self, other: N3Error<E>) -> bool {
        match (self, other) {
            (N3Error::Io(lhs), N3Error::Io(rhs)) => lhs.spec_kind() == rhs.spec_kind(),
            (N3Error::BrokenPipe(lhs), N3Error::BrokenPipe(rhs)) => lhs == rhs,
            (N3Error::QuicheError(lhs), N3Error::QuicheError(rhs)) => lhs == rhs,
            _ => false,
        }
    }
}

impl<E: IoError> PartialEq for N3Error<E> {
    fn eq(&self, other: &Self) -> (res: bool) {
        match (self, other) {
            (N3Error::Io(lhs), N3Error::Io(rhs)) => lhs.kind() == rhs.kind(),
            (N3Error::BrokenPipe(lhs), N3Error::BrokenPipe(rhs)) => *lhs == *rhs,
            (N3Error::QuicheError(lhs), N3Error::QuicheError(rhs)) => *lhs == *rhs,
            _ => false,
        }
    }
}

impl<E: IoError> vstd::std_specs::cmp::PartialEqSpecImpl for N3Error<E> {
    open spec fn obeys_eq_spec() -> bool {
        true
    }

    open spec fn eq_spec(&self, other: &Self) -> bool {
        self.same(*other)
    }
}

/// Equality of errors does not depend on the order, and equal errors are one error but for what an
/// I/O error holds besides its category.
pub proof fn lemma_same_error<E: IoError>(lhs: N3Error<E>, rhs: N3Error<E>)
    ensures
        lhs.same(rhs) == rhs.same(lhs),
        lhs.same(rhs) ==> lhs == rhs || (lhs is Io && rhs is Io),
{
}

/// Error type of the quic modules.
#[derive(Clone, Copy, Debug, PartialEq, Eq, Structural)]
pub enum QuicError {
    /// An I/O error.
    Io(ErrorKind),
}

} // verus!
