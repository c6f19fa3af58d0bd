use std::io::{Cursor, Read, Write};

use n3::errors::{ErrorKind, IoError, N3Error};
use n3::transfer::{Sink, Source, TransferBuf, TransferStep, VecSink, VecSource};

fn kind(err: std::io::Error) -> ErrorKind {
    match err.kind() {
        std::io::ErrorKind::WouldBlock => ErrorKind::WouldBlock,
        std::io::ErrorKind::WriteZero => ErrorKind::WriteZero,
        std::io::ErrorKind::ConnectionReset => ErrorKind::ConnectionReset,
        _ => ErrorKind::Other,
    }
}

struct Reader<F>(F);

impl<F: Read> Source<ErrorKind> for Reader<F> {
    fn read(&mut self, len: usize) -> Result<Vec<u8>, ErrorKind> {
        let mut block = vec![0; len];
        let read = self.0.read(&mut block).map_err(kind)?;
        block.truncate(read);
        Ok(block)
    }
}

struct Writer<T>(T);

impl<T: Write> Sink<ErrorKind> for Writer<T> {
    fn write_all(&mut self, data: &[u8]) -> Result<(), ErrorKind> {
        self.0.write_all(data).map_err(kind)
    }
}

fn done<E: IoError>(step: TransferStep<E>) -> Result<usize, N3Error<E>> {
    match step {
        TransferStep::Continue(_) => panic!("too much data"),
        TransferStep::Done(res) => res,
    }
}

fn transfer<F: Read, T: Write>(
    buf: &mut TransferBuf,
    from: F,
    to: T,
) -> Result<usize, N3Error> {
    done(buf.transfer(&mut Reader(from), &mut Writer(to)))
}

struct WoldBlock;

impl Write for WoldBlock {
    fn write(&mut self, _buf: &[u8]) -> std::io::Result<usize> {
        Err(std::io::Error::new(std::io::ErrorKind::WouldBlock, "would block"))
    }

    fn flush(&mut self) -> std::io::Result<()> {
        Err(std::io::Error::new(std::io::ErrorKind::WouldBlock, "would block"))
    }
}

impl Read for WoldBlock {
    fn read(&mut self, _buf: &mut [u8]) -> std::io::Result<usize> {
        Err(std::io::Error::new(std::io::ErrorKind::WouldBlock, "would block"))
    }
}

#[test]
fn transfer_buf() {
    let mut buf = TransferBuf::with_capacity(10);

    assert_eq!(buf.write_buf(|_: &mut [u8]| Ok::<usize, N3Error>(10)).unwrap(), 10);

    assert_eq!(buf.read_buf_len(), 10);

    assert_eq!(buf.read_buf(|_: &[u8]| Ok::<usize, N3Error>(10)).unwrap(), 10);

    assert_eq!(buf.read_buf_len(), 0);
}

#[test]
fn test_transfer() {
    let mut from = Cursor::new(b"hello world");
    let mut to = vec![];

    let mut buf = TransferBuf::with_capacity(10);

    assert_eq!(transfer(&mut buf, &mut from, &mut to), Err(N3Error::BrokenPipe(11)));

    assert_eq!(to, b"hello world");
}

#[test]
fn test_would_block() {
    let mut buf = TransferBuf::with_capacity(10);

    let mut from = Cursor::new(b"hello world");
    let mut to = WoldBlock;

    assert_eq!(transfer(&mut buf, &mut from, &mut to), Ok(0));

    let mut buf = TransferBuf::with_capacity(10);

    let mut from = WoldBlock;
    let mut to = Vec::new();

    assert_eq!(transfer(&mut buf, &mut from, &mut to), Ok(0));
}

#[test]
fn cached_data_goes_out_first() {
    let mut buf = TransferBuf::with_capacity(4);
    let mut from = Cursor::new(b"abcdef");

    assert_eq!(transfer(&mut buf, &mut from, WoldBlock), Ok(0));
    assert_eq!(buf.read_buf_len(), 4);

    let mut to = vec![];
    assert_eq!(transfer(&mut buf, &mut from, &mut to), Err(N3Error::BrokenPipe(6)));
    assert_eq!(to, b"abcdef");
}

#[test]
fn partial_reads_keep_the_rest() {
    let mut buf = TransferBuf::with_capacity(8);
    let fill = |block: &mut [u8]| {
        block[..5].copy_from_slice(b"hello");
        Ok::<usize, N3Error>(5)
    };
    assert_eq!(buf.write_buf(fill), Ok(5));
    assert_eq!(buf.read_buf(|data: &[u8]| { assert_eq!(data, b"hello"); Ok::<usize, N3Error>(2) }), Ok(2));
    assert_eq!(buf.read_buf_len(), 3);
    assert_eq!(
        buf.read_buf(|data: &[u8]| { assert_eq!(data, b"llo"); Err(N3Error::Io(ErrorKind::Other)) }),
        Err(N3Error::Io(ErrorKind::Other))
    );
    assert_eq!(buf.read_buf_len(), 3);
}

struct Failing(std::io::ErrorKind);

impl Read for Failing {
    fn read(&mut self, _buf: &mut [u8]) -> std::io::Result<usize> {
        Err(self.0.into())
    }
}

impl Write for Failing {
    fn write(&mut self, _buf: &[u8]) -> std::io::Result<usize> {
        Err(self.0.into())
    }

    fn flush(&mut self) -> std::io::Result<()> {
        Ok(())
    }
}

#[test]
fn failures_end_a_transfer() {
    let reset = std::io::ErrorKind::ConnectionReset;

    let mut buf = TransferBuf::with_capacity(4);
    assert_eq!(
        transfer(&mut buf, Cursor::new(b"abcdef"), Failing(reset)),
        Err(N3Error::Io(ErrorKind::ConnectionReset))
    );
    assert_eq!(buf.read_buf_len(), 4);

    let full: &mut [u8] = &mut [0; 5];
    let mut buf = TransferBuf::with_capacity(4);
    assert_eq!(
        transfer(&mut buf, Cursor::new(b"abcdef"), full),
        Err(N3Error::BrokenPipe(4))
    );
    assert_eq!(buf.read_buf_len(), 2);

    let mut to = vec![];
    let mut buf = TransferBuf::with_capacity(4);
    assert_eq!(
        transfer(&mut buf, Cursor::new(b"abcdef").chain(Failing(reset)), &mut to),
        Err(N3Error::BrokenPipe(6))
    );
    assert_eq!(to, b"abcdef");
}

#[test]
fn source_failures_end_a_transfer() {
    let mut buf = TransferBuf::with_capacity(4);
    let mut to = vec![];
    assert_eq!(
        transfer(&mut buf, Failing(std::io::ErrorKind::ConnectionReset), &mut to),
        Err(N3Error::BrokenPipe(0))
    );
    assert_eq!(
        transfer(&mut buf, Cursor::new(b"abc").chain(WoldBlock), &mut to),
        Ok(3)
    );
    assert_eq!(to, b"abc");
    assert_eq!(buf.read_buf_len(), 0);
}

#[test]
fn vectors_as_ends_of_a_transfer() {
    let mut from = VecSource::new(b"hello world".to_vec());
    let mut to = VecSink::new();
    let mut buf = TransferBuf::with_capacity(4);
    assert_eq!(done(buf.transfer(&mut from, &mut to)), Err(N3Error::BrokenPipe(11)));
    assert_eq!(done(buf.transfer(&mut from, &mut to)), Err(N3Error::BrokenPipe(0)));
    assert_eq!(to.into_bytes(), b"hello world");
}

/// Blocks at every other call, and keeps a record of the lengths that it was asked for.
struct Halting {
    data: Vec<u8>,
    asked: Vec<usize>,
}

impl Source<ErrorKind> for Halting {
    fn read(&mut self, len: usize) -> Result<Vec<u8>, ErrorKind> {
        self.asked.push(len);
        if self.asked.len() % 2 == 0 {
            return Err(ErrorKind::WouldBlock);
        }
        let rest = self.data.split_off(len.min(self.data.len()));
        Ok(std::mem::replace(&mut self.data, rest))
    }
}

impl Sink<ErrorKind> for Halting {
    fn write_all(&mut self, data: &[u8]) -> Result<(), ErrorKind> {
        self.asked.push(data.len());
        if self.asked.len() % 2 == 0 {
            return Err(ErrorKind::WouldBlock);
        }
        self.data.extend_from_slice(data);
        Ok(())
    }
}

#[test]
fn no_byte_is_lost_across_transfers() {
    let mut from = Halting { data: b"hello world".to_vec(), asked: vec![] };
    let mut to = Halting { data: vec![], asked: vec![] };
    let mut buf = TransferBuf::with_capacity(4);

    // "hell" is moved, then the source blocks
    assert_eq!(done(buf.transfer(&mut from, &mut to)), Ok(4));
    // "o wo" is read, then the sink blocks
    assert_eq!(done(buf.transfer(&mut from, &mut to)), Ok(0));
    assert_eq!((to.data.len(), buf.read_buf_len(), from.data.len()), (4, 4, 3));
    // the cached data goes out, then the source blocks
    assert_eq!(done(buf.transfer(&mut from, &mut to)), Ok(4));
    assert_eq!(done(buf.transfer(&mut from, &mut to)), Ok(0));
    assert_eq!(done(buf.transfer(&mut from, &mut to)), Ok(3));
    assert_eq!(done(buf.transfer(&mut from, &mut to)), Err(N3Error::BrokenPipe(0)));

    assert_eq!(to.data, b"hello world");
    assert_eq!(from.asked, vec![4; 7]);
    assert_eq!(to.asked, vec![4, 4, 4, 3, 3]);
}

#[derive(Debug)]
struct Coded(u8);

impl IoError for Coded {
    fn kind(&self) -> ErrorKind {
        ErrorKind::PermissionDenied
    }
}

struct Closed;

impl Sink<Coded> for Closed {
    fn write_all(&mut self, _data: &[u8]) -> Result<(), Coded> {
        Err(Coded(7))
    }
}

impl Source<Coded> for Closed {
    fn read(&mut self, _len: usize) -> Result<Vec<u8>, Coded> {
        Ok(vec![1])
    }
}

#[test]
fn the_error_itself_is_passed_on() {
    let mut buf = TransferBuf::with_capacity(4);
    let step = buf.transfer(&mut Closed, &mut Closed);
    assert!(matches!(step, TransferStep::Done(Err(N3Error::Io(Coded(7))))));
    assert_eq!(buf.read_buf_len(), 1);
}
