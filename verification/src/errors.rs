//! Errors of a leaf run, and the numeric codes the foreign-function interface
//! reports for them.

use vstd::prelude::*;

verus! {

/// Why starting or running leaf failed.
#[derive(Debug)]
pub enum LeafError {
    /// The configuration is invalid.
    Config(String),
    /// No configuration file is associated with the run.
    NoConfigFile,
    /// An I/O operation failed.
    Io(String),
    /// Watching the configuration file failed.
    Watcher(String),
    /// Sending on an asynchronous channel failed.
    AsyncChannelSend(String),
    /// Receiving on a synchronous channel failed.
    SyncChannelRecv(String),
    /// The runtime manager failed.
    RuntimeManager,
}

/// The result codes of the foreign-function interface.
#[derive(Clone, Copy, Debug, PartialEq, Eq, Structural)]
pub enum ErrEnum {
    ErrOk,
    ErrConfigPath,
    ErrConfig,
    ErrIo,
    ErrWatcher,
    ErrAsyncChannelSend,
    ErrSyncChannelRecv,
    ErrRuntimeManager,
    ErrNoConfigFile,
    ErrUnknown,
}

impl ErrEnum {
    /// The numeric value of the code, as the interface exports it.
    pub fn code(&self) -> (c: u8)
        ensures
            c == err_code(*self),
    {
        match self {
            ErrEnum::ErrOk => 0,
            ErrEnum::ErrConfigPath => 1,
            ErrEnum::ErrConfig => 2,
            ErrEnum::ErrIo => 3,
            ErrEnum::ErrWatcher => 4,
            ErrEnum::ErrAsyncChannelSend => 5,
            ErrEnum::ErrSyncChannelRecv => 6,
            ErrEnum::ErrRuntimeManager => 7,
            ErrEnum::ErrNoConfigFile => 8,
            ErrEnum::ErrUnknown => 9,
        }
    }
}

/// The number of each code.
pub open spec fn err_code(e: ErrEnum) -> u8 {
    match e {
        ErrEnum::ErrOk => 0,
        ErrEnum::ErrConfigPath => 1,
        ErrEnum::ErrConfig => 2,
        ErrEnum::ErrIo => 3,
        ErrEnum::ErrWatcher => 4,
        ErrEnum::ErrAsyncChannelSend => 5,
        ErrEnum::ErrSyncChannelRecv => 6,
        ErrEnum::ErrRuntimeManager => 7,
        ErrEnum::ErrNoConfigFile => 8,
        ErrEnum::ErrUnknown => 9,
    }
}

/// The code reported for an error.
pub open spec fn errno_of(e: LeafError) -> ErrEnum {
    match e {
        LeafError::Config(_) => ErrEnum::ErrConfig,
        LeafError::NoConfigFile => ErrEnum::ErrNoConfigFile,
        LeafError::Io(_) => ErrEnum::ErrIo,
        LeafError::Watcher(_) => ErrEnum::ErrWatcher,
        LeafError::AsyncChannelSend(_) => ErrEnum::ErrAsyncChannelSend,
        LeafError::SyncChannelRecv(_) => ErrEnum::ErrSyncChannelRecv,
        LeafError::RuntimeManager => ErrEnum::ErrRuntimeManager,
    }
}

/// The code reported for an error.
pub fn to_errno(e: &LeafError) -> (c: ErrEnum)
    ensures
        c == errno_of(*e),
{
    match e {
        LeafError::Config(_) => ErrEnum::ErrConfig,
        LeafError::NoConfigFile => ErrEnum::ErrNoConfigFile,
        LeafError::Io(_) => ErrEnum::ErrIo,
        LeafError::Watcher(_) => ErrEnum::ErrWatcher,
        LeafError::AsyncChannelSend(_) => ErrEnum::ErrAsyncChannelSend,
        LeafError::SyncChannelRecv(_) => ErrEnum::ErrSyncChannelRecv,
        LeafError::RuntimeManager => ErrEnum::ErrRuntimeManager,
    }
}

/// The code reported for the outcome of a run: `ErrOk` on success.
pub fn result_code(r: &Result<(), LeafError>) -> (c: ErrEnum)
    ensures
        c == match r {
            Ok(_) => ErrEnum::ErrOk,
            Err(e) => errno_of(*e),
        },
{
    match r {
        Ok(_) => ErrEnum::ErrOk,
        Err(e) => to_errno(e),
    }
}

} // verus!
