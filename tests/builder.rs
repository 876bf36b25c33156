use rkv::builder::{EnvironmentBuilderImpl, FileAction, RecoveryStrategy};
use rkv::error::ErrorImpl;
use rkv::{DatabaseFlags, Rkv, StoreError, StoreOptions, Value};

fn saved_environment() -> Vec<u8> {
    let mut k = Rkv::new(48);
    let s = k.open_single(Some("s"), StoreOptions::create()).expect("opened");
    let mut w = k.write().expect("writer");
    s.put(&mut w, b"x", &Value::I64(7)).expect("wrote");
    k.commit(w).expect("committed");
    k.to_bytes()
}

#[test]
fn open_missing_directory() {
    let builder = EnvironmentBuilderImpl::new();
    let (r, action) = builder.open("/nope", false, None, 49);
    assert!(matches!(r, Err(StoreError::DirectoryDoesNotExistError(p)) if p == "/nope"));
    assert_eq!(action, FileAction::Nothing);

    let mut builder = EnvironmentBuilderImpl::new();
    builder.set_make_dir_if_needed(true);
    let (r, action) = builder.open("/nope", false, None, 50);
    assert!(r.expect("empty").get_dbs().is_empty());
    assert_eq!(action, FileAction::CreateDirectory);
}

#[test]
fn open_checks_environment_exists() {
    let mut builder = EnvironmentBuilderImpl::new();
    builder.set_check_if_env_exists(true);
    let (r, action) = builder.open("/dir", true, None, 51);
    assert!(matches!(r, Err(StoreError::EnvironmentDoesNotExistError(p)) if p == "/dir"));
    assert_eq!(action, FileAction::Nothing);
    let bytes = saved_environment();
    let (r, _) = builder.open("/dir", true, Some(&bytes), 52);
    assert_eq!(r.expect("opened").get_dbs(), vec![Some("s".to_string())]);
}

#[test]
fn open_reads_the_data_file() {
    let bytes = saved_environment();
    let (r, action) = EnvironmentBuilderImpl::new().open("/dir", true, Some(&bytes), 53);
    let mut k = r.expect("opened");
    assert_eq!(action, FileAction::Nothing);
    let s = k.open_single(Some("s"), StoreOptions::open()).expect("store");
    let reader = k.read().expect("reader");
    assert_eq!(s.get(&reader, b"x").expect("read"), Some(Value::I64(7)));
}

#[test]
fn open_corrupt_file_per_strategy() {
    let bad = [9u8, 9, 9];
    let cases = [
        (RecoveryStrategy::Error, false, FileAction::Nothing),
        (RecoveryStrategy::Discard, true, FileAction::Nothing),
        (RecoveryStrategy::Rename, true, FileAction::RenameDataFile),
        (RecoveryStrategy::RenameAndError, false, FileAction::RenameDataFile),
    ];
    for (strategy, opens, expected) in cases {
        let mut builder = EnvironmentBuilderImpl::new();
        builder.set_corruption_recovery_strategy(strategy);
        let (r, action) = builder.open("/dir", true, Some(&bad), 54);
        assert_eq!(action, expected);
        match r {
            Ok(k) => {
                assert!(opens);
                assert!(k.get_dbs().is_empty());
            },
            Err(e) => {
                assert!(!opens);
                assert_eq!(e, StoreError::FileInvalid);
            },
        }
    }
}

#[test]
fn error_messages() {
    assert_eq!(ErrorImpl::KeyValuePairNotFound.describe(), "KeyValuePairNotFound (safe mode)");
    assert_eq!(ErrorImpl::DbsIllegalOpen.describe(), "DbIllegalOpen (safe mode)");
    assert_eq!(ErrorImpl::FileInvalid.into_store_error(), StoreError::SafeModeError(ErrorImpl::FileInvalid));
    assert_eq!(ErrorImpl::KeyValuePairNotFound.into_store_error(), StoreError::KeyValuePairNotFound);
}

#[test]
fn database_flags() {
    let f = DatabaseFlags::dup_sort().union(DatabaseFlags::integer_key());
    assert!(f.is_dup_sort());
    assert!(f.is_integer_key());
    assert!(!DatabaseFlags::empty().is_dup_sort());
    assert!(!DatabaseFlags::integer_key().is_dup_sort());
    assert_eq!(f.bits, 0x0c);
}
