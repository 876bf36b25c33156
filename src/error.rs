//! Errors of the safe-mode engine and of the store layer.
use crate::value::DataError;
use vstd::prelude::*;

verus! {

/// What can go wrong inside the safe-mode engine.
#[derive(Debug, Clone, Copy, PartialEq, Eq, Structural)]
pub enum ErrorImpl {
    /// No pair under that key (or no such pair).
    KeyValuePairNotFound,
    /// The key (or the exact pair) is present and the write flags forbid replacing it.
    KeyExist,
    /// Too many read transactions are live.
    ReadersFull,
    /// A database was opened or created while a read transaction was live.
    DbsIllegalOpen,
    /// No database has that name.
    DbNotFoundError,
    /// The database does not belong to the transaction's environment.
    DbIsForeignError,
    /// A database was re-opened with flags other than those it was created with.
    DbFlagsMismatch,
    /// A write transaction is already live on the environment.
    WriteTransactionInProgress,
    /// The write flags ask for something this engine does not do.
    UnsupportedFlags,
    /// The environment's data file is not in the expected format.
    FileInvalid,
}

/// What can go wrong through the store layer.
#[derive(Debug, Clone, PartialEq, Eq)]
pub enum StoreError {
    DirectoryDoesNotExistError(String),
    EnvironmentDoesNotExistError(String),
    DataError(DataError),
    KeyValuePairNotFound,
    KeyValuePairBadSize,
    MapFull,
    DbsFull,
    ReadersFull,
    FileInvalid,
    EnvironmentFull,
    LockPoisoned,
    ReadTransactionAlreadyExists(u64),
    OpenAttemptedDuringTransaction(u64),
    ResizeError,
    IoError(String),
    SafeModeError(ErrorImpl),
}

/// What can go wrong when migrating an environment.
#[derive(Debug, Clone, PartialEq, Eq)]
pub enum MigrateError {
    /// The source holds no database.
    SourceEmpty,
    /// The destination already holds a database.
    DestinationNotEmpty,
    /// A source database keeps several values per key or has integer keys.
    UnsupportedDatabase,
    StoreError(StoreError),
}

/// The store error that an engine error becomes: a missing pair is the same
/// error on every engine, the others are wrapped.
pub open spec fn store_error_of(e: ErrorImpl) -> StoreError {
    match e {
        ErrorImpl::KeyValuePairNotFound => StoreError::KeyValuePairNotFound,
        _ => StoreError::SafeModeError(e),
    }
}

/// The message that describes an engine error.
pub open spec fn error_text(e: ErrorImpl) -> Seq<char> {
    match e {
        ErrorImpl::KeyValuePairNotFound => "KeyValuePairNotFound (safe mode)"@,
        ErrorImpl::KeyExist => "KeyExist (safe mode)"@,
        ErrorImpl::ReadersFull => "ReadersFull (safe mode)"@,
        ErrorImpl::DbsIllegalOpen => "DbIllegalOpen (safe mode)"@,
        ErrorImpl::DbNotFoundError => "DbNotFoundError (safe mode)"@,
        ErrorImpl::DbIsForeignError => "DbIsForeignError (safe mode)"@,
        ErrorImpl::DbFlagsMismatch => "DbFlagsMismatch (safe mode)"@,
        ErrorImpl::WriteTransactionInProgress => "WriteTransactionInProgress (safe mode)"@,
        ErrorImpl::UnsupportedFlags => "UnsupportedFlags (safe mode)"@,
        ErrorImpl::FileInvalid => "FileInvalid (safe mode)"@,
    }
}

impl ErrorImpl {
    /// A message that describes the error.
    pub fn describe(&self) -> (r: String)
        ensures
            r@ == error_text(*self),
    {
        match self {
            ErrorImpl::KeyValuePairNotFound => "KeyValuePairNotFound (safe mode)".to_owned(),
            ErrorImpl::KeyExist => "KeyExist (safe mode)".to_owned(),
            ErrorImpl::ReadersFull => "ReadersFull (safe mode)".to_owned(),
            ErrorImpl::DbsIllegalOpen => "DbIllegalOpen (safe mode)".to_owned(),
            ErrorImpl::DbNotFoundError => "DbNotFoundError (safe mode)".to_owned(),
            ErrorImpl::DbIsForeignError => "DbIsForeignError (safe mode)".to_owned(),
            ErrorImpl::DbFlagsMismatch => "DbFlagsMismatch (safe mode)".to_owned(),
            ErrorImpl::WriteTransactionInProgress => "WriteTransactionInProgress (safe mode)".to_owned(),
            ErrorImpl::UnsupportedFlags => "UnsupportedFlags (safe mode)".to_owned(),
            ErrorImpl::FileInvalid => "FileInvalid (safe mode)".to_owned(),
        }
    }

    /// Converts into the store error of `store_error_of`.
    pub fn into_store_error(self) -> (r: StoreError)
        ensures
            r == store_error_of(self),
    {
        match self {
            ErrorImpl::KeyValuePairNotFound => StoreError::KeyValuePairNotFound,
            _ => StoreError::SafeModeError(self),
        }
    }
}

} // verus!
