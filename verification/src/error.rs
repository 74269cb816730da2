use vstd::prelude::*;

verus! {

/// Errors a system call can report to a process.
#[allow(non_camel_case_types)]
#[derive(Clone, Copy, Debug, PartialEq, Eq, Structural)]
pub enum ErrorCode {
    FAIL,
    BUSY,
    ALREADY,
    OFF,
    RESERVE,
    INVAL,
    SIZE,
    CANCEL,
    NOMEM,
    NOSUPPORT,
    NODEVICE,
    UNINSTALLED,
    NOACK,
}

impl ErrorCode {
    /// The number that stands for this error in upcalls and return values.
    pub open spec fn code(self) -> usize {
        match self {
            ErrorCode::FAIL => 1,
            ErrorCode::BUSY => 2,
            ErrorCode::ALREADY => 3,
            ErrorCode::OFF => 4,
            ErrorCode::RESERVE => 5,
            ErrorCode::INVAL => 6,
            ErrorCode::SIZE => 7,
            ErrorCode::CANCEL => 8,
            ErrorCode::NOMEM => 9,
            ErrorCode::NOSUPPORT => 10,
            ErrorCode::NODEVICE => 11,
            ErrorCode::UNINSTALLED => 12,
            ErrorCode::NOACK => 13,
        }
    }

    pub fn as_usize(&self) -> (r: usize)
        ensures
            r == self.code(),
    {
        match self {
            ErrorCode::FAIL => 1,
            ErrorCode::BUSY => 2,
            ErrorCode::ALREADY => 3,
            ErrorCode::OFF => 4,
            ErrorCode::RESERVE => 5,
            ErrorCode::INVAL => 6,
            ErrorCode::SIZE => 7,
            ErrorCode::CANCEL => 8,
            ErrorCode::NOMEM => 9,
            ErrorCode::NOSUPPORT => 10,
            ErrorCode::NODEVICE => 11,
            ErrorCode::UNINSTALLED => 12,
            ErrorCode::NOACK => 13,
        }
    }
}

/// Why the kernel could not give access to a process's state.
#[derive(Clone, Copy, Debug, PartialEq, Eq, Structural)]
pub enum ProcessError {
    NoSuchApp,
    OutOfMemory,
    AddressOutOfBounds,
    InactiveApp,
    KernelError,
    AlreadyInUse,
}

impl ProcessError {
    /// Position of the variant, the number an upcall carries for it.
    pub open spec fn code(self) -> usize {
        match self {
            ProcessError::NoSuchApp => 0,
            ProcessError::OutOfMemory => 1,
            ProcessError::AddressOutOfBounds => 2,
            ProcessError::InactiveApp => 3,
            ProcessError::KernelError => 4,
            ProcessError::AlreadyInUse => 5,
        }
    }

    /// The error code a system call reports for this error.
    pub open spec fn error_code(self) -> ErrorCode {
        match self {
            ProcessError::OutOfMemory => ErrorCode::NOMEM,
            ProcessError::AddressOutOfBounds => ErrorCode::INVAL,
            ProcessError::NoSuchApp => ErrorCode::INVAL,
            ProcessError::InactiveApp => ErrorCode::FAIL,
            ProcessError::KernelError => ErrorCode::FAIL,
            ProcessError::AlreadyInUse => ErrorCode::FAIL,
        }
    }

    pub fn as_usize(&self) -> (r: usize)
        ensures
            r == self.code(),
    {
        match self {
            ProcessError::NoSuchApp => 0,
            ProcessError::OutOfMemory => 1,
            ProcessError::AddressOutOfBounds => 2,
            ProcessError::InactiveApp => 3,
            ProcessError::KernelError => 4,
            ProcessError::AlreadyInUse => 5,
        }
    }

    pub fn to_error_code(&self) -> (r: ErrorCode)
        ensures
            r == self.error_code(),
    {
        match self {
            ProcessError::OutOfMemory => ErrorCode::NOMEM,
            ProcessError::AddressOutOfBounds => ErrorCode::INVAL,
            ProcessError::NoSuchApp => ErrorCode::INVAL,
            ProcessError::InactiveApp => ErrorCode::FAIL,
            ProcessError::KernelError => ErrorCode::FAIL,
            ProcessError::AlreadyInUse => ErrorCode::FAIL,
        }
    }
}

/// What a `command` system call returns to the process.
#[derive(Clone, Copy, Debug, PartialEq, Eq, Structural)]
pub enum CommandReturn {
    Success,
    Failure(ErrorCode),
}

impl CommandReturn {
    pub fn success() -> (r: CommandReturn)
        ensures
            r == CommandReturn::Success,
    {
        CommandReturn::Success
    }

    pub fn failure(e: ErrorCode) -> (r: CommandReturn)
        ensures
            r == CommandReturn::Failure(e),
    {
        CommandReturn::Failure(e)
    }

    /// A failed access to process state, reported as a failure.
    pub fn from_process_error(e: ProcessError) -> (r: CommandReturn)
        ensures
            r == CommandReturn::Failure(e.error_code()),
    {
        CommandReturn::Failure(e.to_error_code())
    }
}

/// The status code an upcall carries for the outcome of an operation:
/// 0 for success, the error's code otherwise.
pub open spec fn status_code(r: Result<(), ErrorCode>) -> usize {
    match r {
        Ok(()) => 0,
        Err(e) => e.code(),
    }
}

pub fn into_statuscode(r: Result<(), ErrorCode>) -> (c: usize)
    ensures
        c == status_code(r),
{
    match r {
        Ok(()) => 0,
        Err(e) => e.as_usize(),
    }
}

} // verus!
