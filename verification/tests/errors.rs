use n3::errors::{ErrorKind, N3Error, PacketType, QuicheError};

#[test]
fn equal_errors() {
    assert!(N3Error::Io(ErrorKind::TimedOut) == N3Error::Io(ErrorKind::TimedOut));
    assert!(N3Error::Io(ErrorKind::TimedOut) != N3Error::Io(ErrorKind::Other));
    assert!(N3Error::<ErrorKind>::BrokenPipe(3) == N3Error::BrokenPipe(3));
    assert!(N3Error::<ErrorKind>::BrokenPipe(3) != N3Error::BrokenPipe(4));
    assert!(N3Error::<ErrorKind>::QuicheError(QuicheError::Done) == N3Error::QuicheError(QuicheError::Done));
    assert!(
        N3Error::<ErrorKind>::QuicheError(QuicheError::StreamReset(1))
            != N3Error::QuicheError(QuicheError::StreamReset(2))
    );
    assert!(N3Error::BrokenPipe(3) != N3Error::Io(ErrorKind::BrokenPipe));
}

#[test]
fn errors_without_equals() {
    assert!(
        N3Error::<ErrorKind>::UnsupportQuicPacket(PacketType::Retry)
            != N3Error::UnsupportQuicPacket(PacketType::Retry)
    );
    assert!(N3Error::<ErrorKind>::UnsupportQuicVersion(2) != N3Error::UnsupportQuicVersion(2));
}
