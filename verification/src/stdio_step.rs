use crate::error::{IOError, IoFailure};
use vstd::prelude::*;

verus! {

/// What a byte-stream endpoint reads next, given what the system said of
/// the bytes that are ready: a failed query is that I/O failure, no byte
/// ready is "nothing available", and otherwise exactly the bytes that are
/// ready are read.
pub open spec fn read_plan_of(available: Result<usize, IoFailure>, r: Result<usize, IOError>) -> bool {
    match available {
        Err(f) => r == Err::<usize, IOError>(IOError::IoError(f)),
        Ok(n) => if n == 0 {
            r == Err::<usize, IOError>(IOError::EmptyData)
        } else {
            r == Ok::<usize, IOError>(n)
        },
    }
}

/// Decides how many bytes an endpoint is to read.
pub fn read_plan(available: Result<usize, IoFailure>) -> (r: Result<usize, IOError>)
    ensures
        read_plan_of(available, r),
{
    match available {
        Err(f) => Err(IOError::IoError(f)),
        Ok(n) => if n == 0 {
            Err(IOError::EmptyData)
        } else {
            Ok(n)
        },
    }
}

/// The endpoint on the process's standard input and output. It has no
/// state of its own: every instance stands for the same two streams.
#[derive(Debug, Clone, Copy, PartialEq, Eq, Structural)]
pub struct STDioStep {}

impl STDioStep {
    /// The endpoint on the standard streams.
    pub fn new() -> (step: STDioStep)
        ensures
            step == (STDioStep {  }),
    {
        STDioStep {  }
    }

    /// How many bytes to read from standard input, given how many are
    /// ready.
    pub fn read_plan(&self, available: Result<usize, IoFailure>) -> (r: Result<usize, IOError>)
        ensures
            read_plan_of(available, r),
    {
        read_plan(available)
    }
}

impl Default for STDioStep {
    fn default() -> (step: STDioStep)
        ensures
            step == (STDioStep {  }),
    {
        STDioStep {  }
    }
}

} // verus!
