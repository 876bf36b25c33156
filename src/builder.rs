//! Opening a safe-mode environment: what to do with the directory and the
//! data file found there.
use crate::env::Rkv;
use crate::error::StoreError;
use crate::persist::{dec_file, stored, valid_stored};
use vstd::prelude::*;

verus! {

/// What opening does when the data file does not decode.
#[derive(Debug, Clone, Copy, PartialEq, Eq, Structural)]
pub enum RecoveryStrategy {
    /// Fail with `FileInvalid`.
    Error,
    /// Start empty; the next commit overwrites the file.
    Discard,
    /// Set the file aside and start empty.
    Rename,
    /// Set the file aside and fail with `FileInvalid`.
    RenameAndError,
}

/// What the caller does on disk once opening is decided.
#[derive(Debug, Clone, Copy, PartialEq, Eq, Structural)]
pub enum FileAction {
    Nothing,
    CreateDirectory,
    RenameDataFile,
}

/// Settings for opening a safe-mode environment.
#[derive(Debug, Clone, Copy, PartialEq, Eq, Structural)]
pub struct EnvironmentBuilderImpl {
    pub make_dir_if_needed: bool,
    pub check_env_exists: bool,
    pub recovery: RecoveryStrategy,
}

/// An environment as it stands when opened: no transaction live.
pub open spec fn fresh(e: Rkv) -> bool {
    e@.wf() && e@.readers == 0 && !e@.writer
}

pub open spec fn path_error(r: Result<Rkv, StoreError>, path: Seq<char>, missing_env: bool) -> bool {
    if missing_env {
        r matches Err(StoreError::EnvironmentDoesNotExistError(p)) && p@ == path
    } else {
        r matches Err(StoreError::DirectoryDoesNotExistError(p)) && p@ == path
    }
}

impl EnvironmentBuilderImpl {
    /// Opens only existing directories, accepts a missing data file, and fails on a corrupt one.
    pub fn new() -> (r: EnvironmentBuilderImpl)
        ensures
            !r.make_dir_if_needed,
            !r.check_env_exists,
            r.recovery == RecoveryStrategy::Error,
    {
        EnvironmentBuilderImpl { make_dir_if_needed: false, check_env_exists: false, recovery: RecoveryStrategy::Error }
    }

    /// Create the environment's directory when it is missing.
    pub fn set_make_dir_if_needed(&mut self, make_dir: bool)
        ensures
            *final(self) == (EnvironmentBuilderImpl { make_dir_if_needed: make_dir, ..*old(self) }),
    {
        self.make_dir_if_needed = make_dir;
    }

    /// Refuse to open when there is no data file yet.
    pub fn set_check_if_env_exists(&mut self, check: bool)
        ensures
            *final(self) == (EnvironmentBuilderImpl { check_env_exists: check, ..*old(self) }),
    {
        self.check_env_exists = check;
    }

    /// What to do when the data file does not decode.
    pub fn set_corruption_recovery_strategy(&mut self, strategy: RecoveryStrategy)
        ensures
            *final(self) == (EnvironmentBuilderImpl { recovery: strategy, ..*old(self) }),
    {
        self.recovery = strategy;
    }

    /// Opens the environment at `path`, with identity `id`, given whether its
    /// directory exists and the content of its data file, if there is one. Says also what to do on
    /// disk: create the directory, or set the data file aside.
    pub fn open(&self, path: &str, dir_exists: bool, data: Option<&[u8]>, id: u64) -> (r: (
        Result<Rkv, StoreError>,
        FileAction,
    ))
        ensures
            r.0 matches Ok(e) ==> e@.id == id,
            self.check_env_exists && data is None ==> path_error(r.0, path@, true) && r.1 == FileAction::Nothing,
            !(self.check_env_exists && data is None) && !dir_exists ==> if self.make_dir_if_needed {
                r.0 matches Ok(e) && fresh(e) && e@.dbs.len() == 0 && r.1 == FileAction::CreateDirectory
            } else {
                path_error(r.0, path@, false) && r.1 == FileAction::Nothing
            },
            !(self.check_env_exists && data is None) && dir_exists ==> match data {
                None => r.0 matches Ok(e) && fresh(e) && e@.dbs.len() == 0 && r.1 == FileAction::Nothing,
                Some(b) => if dec_file(b@) matches Some(s) && valid_stored(s) {
                    r.0 matches Ok(e) && fresh(e) && dec_file(b@) == Some(stored(e@)) && r.1 == FileAction::Nothing
                } else {
                    match self.recovery {
                        RecoveryStrategy::Error => r.0 == Err::<Rkv, StoreError>(StoreError::FileInvalid) && r.1
                            == FileAction::Nothing,
                        RecoveryStrategy::Discard => r.0 matches Ok(e) && fresh(e) && e@.dbs.len() == 0 && r.1
                            == FileAction::Nothing,
                        RecoveryStrategy::Rename => r.0 matches Ok(e) && fresh(e) && e@.dbs.len() == 0 && r.1
                            == FileAction::RenameDataFile,
                        RecoveryStrategy::RenameAndError => r.0 == Err::<Rkv, StoreError>(StoreError::FileInvalid)
                            && r.1 == FileAction::RenameDataFile,
                    }
                },
            },
    {
        if self.check_env_exists && data.is_none() {
            return (Err(StoreError::EnvironmentDoesNotExistError(path.to_owned())), FileAction::Nothing);
        }
        if !dir_exists {
            if self.make_dir_if_needed {
                return (Ok(Rkv::new(id)), FileAction::CreateDirectory);
            }
            return (Err(StoreError::DirectoryDoesNotExistError(path.to_owned())), FileAction::Nothing);
        }
        match data {
            None => (Ok(Rkv::new(id)), FileAction::Nothing),
            Some(b) => match Rkv::from_bytes(b, id) {
                Ok(e) => (Ok(e), FileAction::Nothing),
                Err(e) => match self.recovery {
                    RecoveryStrategy::Error => (Err(e), FileAction::Nothing),
                    RecoveryStrategy::Discard => (Ok(Rkv::new(id)), FileAction::Nothing),
                    RecoveryStrategy::Rename => (Ok(Rkv::new(id)), FileAction::RenameDataFile),
                    RecoveryStrategy::RenameAndError => (Err(e), FileAction::RenameDataFile),
                },
            },
        }
    }
}

} // verus!
