//! Copying data from a source to a sink.

use vstd::prelude::*;

verus! {

/// What to do next while copying.
pub enum CopyStep<E> {
    /// Read the next block.
    Read,
    /// Write as many bytes of the block that was read.
    Write(usize),
    /// Copying is over: the number of bytes that were transferred, or the error that ended it.
    Done(Result<usize, E>),
}

/// How far copying has come.
#[derive(Clone, Copy, Debug, PartialEq, Eq, Structural)]
pub struct Copying {
    /// The number of bytes that were transferred.
    pub trans: usize,
}

impl Copying {
    /// What to do after a block was read.
    pub open spec fn spec_read<E>(self, read: Result<usize, E>) -> CopyStep<E> {
        match read {
            Err(err) => CopyStep::Done(Err(err)),
            Ok(read_size) => if read_size > 0 {
                CopyStep::Write(read_size)
            } else {
                CopyStep::Done(Ok(self.trans))
            },
        }
    }

    /// What to do after a block of `read_size` bytes was written, and how far copying has come.
    pub open spec fn spec_written<E>(self, read_size: usize, written: Result<(), E>) -> (
        CopyStep<E>,
        Copying,
    ) {
        match written {
            Err(err) => (CopyStep::Done(Err(err)), self),
            Ok(_) => (CopyStep::Read, Copying { trans: (self.trans + read_size) as usize }),
        }
    }

    /// Starts copying.
    pub fn new() -> (copying: Self)
        ensures
            copying.trans == 0,
    {
        Copying { trans: 0 }
    }

    /// Decides what to do after a block was read. An empty block is the end of the source.
    pub fn read<E>(&self, read: Result<usize, E>) -> (step: CopyStep<E>)
        ensures
            step == self.spec_read(read),
            step == match read {
                Ok(read_size) => if read_size == 0 {
                    CopyStep::Done(Ok::<usize, E>(self.trans))
                } else {
                    CopyStep::Write(read_size)
                },
                Err(err) => CopyStep::Done(Err(err)),
            },
    {
        match read {
            Ok(read_size) => {
                if read_size == 0 {
                    return CopyStep::Done(Ok(self.trans));
                }
                CopyStep::Write(read_size)
            },
            Err(err) => CopyStep::Done(Err(err)),
        }
    }

    /// Decides what to do after a block of `read_size` bytes was written.
    pub fn written<E>(&mut self, read_size: usize, written: Result<(), E>) -> (step: CopyStep<E>)
        requires
            old(self).trans + read_size <= usize::MAX,
        ensures
            (step, *final(self)) == old(self).spec_written(read_size, written),
            match written {
                Ok(_) => step == CopyStep::<E>::Read && final(self).trans == old(self).trans
                    + read_size,
                Err(err) => step == CopyStep::Done(Err::<usize, E>(err)) && *final(self)
                    == *old(self),
            },
    {
        match written {
            Ok(_) => {
                self.trans = self.trans + read_size;
                CopyStep::Read
            },
            Err(err) => CopyStep::Done(Err(err)),
        }
    }
}

} // verus!
