use rkv::{EncodableKey, Manager, MigrateError, Migrator, Rkv, StoreError, StoreOptions, Value};

#[test]
fn round_trip_mixed_values() {
    let mut k = Rkv::new(19);
    let store = k.open_single(None, StoreOptions::create()).expect("opened");
    let values = vec![
        ("int", Value::I64(1234)),
        ("uint", Value::U64(1234)),
        ("float", Value::F64(1234.0f64.to_bits())),
        ("instant", Value::Instant(1528318073700)),
        ("boolean", Value::Bool(true)),
        ("string", Value::Str("héllo, yöu".to_string())),
        ("json", Value::Json(r#"{"foo":"bar","number":1}"#.to_string())),
        ("blob", Value::Blob(b"blob".to_vec())),
    ];
    let mut writer = k.write().expect("writer");
    for (key, v) in &values {
        store.put(&mut writer, key.as_bytes(), v).expect("wrote");
    }
    k.commit(writer).expect("committed");
    let reader = k.read().expect("reader");
    for (key, v) in &values {
        assert_eq!(store.get(&reader, key.as_bytes()).expect("read"), Some(v.clone()));
    }
    assert_eq!(store.get(&reader, b"non-existent").expect("read"), None);
}

#[test]
fn abort_discards_writes() {
    let mut k = Rkv::new(20);
    let store = k.open_single(None, StoreOptions::create()).expect("opened");
    let mut writer = k.write().expect("writer");
    store.put(&mut writer, b"foo", &Value::Str("bar".to_string())).expect("wrote");
    k.abort(writer);
    let reader = k.read().expect("reader");
    assert_eq!(store.get(&reader, b"foo").expect("read"), None);
}

#[test]
fn isolation_scenario() {
    let mut k = Rkv::new(21);
    let store = k.open_single(Some("s"), StoreOptions::create()).expect("opened");
    let mut writer = k.write().expect("writer");
    store.put(&mut writer, b"foo", &Value::I64(1234)).expect("wrote");
    k.commit(writer).expect("committed");
    let r = k.read().expect("reader");
    let mut w = k.write().expect("writer");
    store.put(&mut w, b"foo", &Value::I64(999)).expect("wrote");
    k.commit(w).expect("committed");
    assert_eq!(store.get(&r, b"foo").expect("read"), Some(Value::I64(1234)));
    k.end_read(r);
    let r2 = k.read().expect("reader");
    assert_eq!(store.get(&r2, b"foo").expect("read"), Some(Value::I64(999)));
}

#[test]
fn iteration_order() {
    let mut k = Rkv::new(22);
    let store = k.open_single(Some("s"), StoreOptions::create()).expect("opened");
    let keys = ["noo", "你好，遊客", "bar", "héllò, töűrîst", "foo", "baz"];
    let mut writer = k.write().expect("writer");
    for key in keys {
        store.put(&mut writer, key.as_bytes(), &Value::Bool(true)).expect("wrote");
    }
    k.commit(writer).expect("committed");
    let reader = k.read().expect("reader");
    let mut iter = store.iter_start(&reader).expect("iter");
    let mut seen = Vec::new();
    while let Some(item) = iter.next() {
        seen.push(String::from_utf8(item.expect("item").0).expect("utf8"));
    }
    assert_eq!(seen, vec!["bar", "baz", "foo", "héllò, töűrîst", "noo", "你好，遊客"]);
    let mut iter = store.iter_from(&reader, b"moo").expect("iter");
    let mut seen = Vec::new();
    while let Some(item) = iter.next() {
        seen.push(String::from_utf8(item.expect("item").0).expect("utf8"));
    }
    assert_eq!(seen, vec!["noo", "你好，遊客"]);
}

#[test]
fn duplicate_sorted_store() {
    let mut k = Rkv::new(23);
    let store = k.open_multi(Some("m"), StoreOptions::create()).expect("opened");
    let mut writer = k.write().expect("writer");
    store.put(&mut writer, b"k", &Value::Blob(b"b".to_vec())).expect("wrote");
    store.put(&mut writer, b"k", &Value::Blob(b"a".to_vec())).expect("wrote");
    assert_eq!(store.get_first(&writer, b"k").expect("read"), Some(Value::Blob(b"a".to_vec())));
    let mut iter = store.get(&writer, b"k").expect("iter");
    assert_eq!(iter.next().expect("first").expect("value").1, Some(Value::Blob(b"a".to_vec())));
    assert_eq!(iter.next().expect("second").expect("value").1, Some(Value::Blob(b"b".to_vec())));
    assert!(iter.next().is_none());
    store.delete(&mut writer, b"k", &Value::Blob(b"a".to_vec())).expect("deleted");
    assert_eq!(store.get_first(&writer, b"k").expect("read"), Some(Value::Blob(b"b".to_vec())));
    store.delete_all(&mut writer, b"k").expect("deleted");
    assert_eq!(store.get_first(&writer, b"k").expect("read"), None);
    assert_eq!(store.delete_all(&mut writer, b"k"), Err(StoreError::KeyValuePairNotFound));
    k.commit(writer).expect("committed");
}

#[test]
fn duplicate_value_is_kept_once() {
    let mut k = Rkv::new(24);
    let store = k.open_multi(Some("m"), StoreOptions::create()).expect("opened");
    let mut writer = k.write().expect("writer");
    store.put(&mut writer, b"k", &Value::U64(1)).expect("wrote");
    store.put(&mut writer, b"k", &Value::U64(1)).expect("wrote");
    let mut iter = store.get(&writer, b"k").expect("iter");
    assert!(iter.next().is_some());
    assert!(iter.next().is_none());
    let r = store.put_with_flags(&mut writer, b"k", &Value::U64(1), rkv::WriteFlags::no_dup_data());
    assert_eq!(r, Err(StoreError::SafeModeError(rkv::error::ErrorImpl::KeyExist)));
}

#[test]
fn safe_mode_persistence() {
    let bytes = {
        let mut e1 = Rkv::new(25);
        let store = e1.open_single(Some("s"), StoreOptions::create()).expect("opened");
        let mut writer = e1.write().expect("writer");
        store.put(&mut writer, b"x", &Value::I64(7)).expect("wrote");
        e1.commit(writer).expect("committed");
        e1.to_bytes()
    };
    let mut e2 = Rkv::from_bytes(&bytes, 42).expect("reopened");
    let store = e2.open_single(Some("s"), StoreOptions::open()).expect("opened");
    let reader = e2.read().expect("reader");
    assert_eq!(store.get(&reader, b"x").expect("read"), Some(Value::I64(7)));
}

#[test]
fn persistence_keeps_names_and_flags() {
    let mut e1 = Rkv::new(26);
    let _ = e1.open_single(None, StoreOptions::create()).expect("opened");
    let m = e1.open_multi(Some("m"), StoreOptions::create()).expect("opened");
    let mut writer = e1.write().expect("writer");
    m.put(&mut writer, b"k", &Value::U64(1)).expect("wrote");
    m.put(&mut writer, b"k", &Value::U64(2)).expect("wrote");
    e1.commit(writer).expect("committed");
    let bytes = e1.to_bytes();
    let mut e2 = Rkv::from_bytes(&bytes, 43).expect("reopened");
    assert_eq!(e2.get_dbs(), vec![None, Some("m".to_string())]);
    assert_eq!(e2.to_bytes(), bytes);
    let m2 = e2.open_multi(Some("m"), StoreOptions::create()).expect("same flags");
    let reader = e2.read().expect("reader");
    let mut iter = m2.get(&reader, b"k").expect("iter");
    assert_eq!(iter.next().expect("one").expect("value").1, Some(Value::U64(1)));
    assert_eq!(iter.next().expect("two").expect("value").1, Some(Value::U64(2)));
}

#[test]
fn empty_environment_file() {
    let e = Rkv::new(27);
    assert_eq!(e.to_bytes(), vec![0, 0, 0, 0, 0, 0, 0, 0]);
    let back = Rkv::from_bytes(&[0, 0, 0, 0, 0, 0, 0, 0], 44).expect("reopened");
    assert!(back.get_dbs().is_empty());
}

#[test]
fn corrupt_file_is_refused() {
    assert!(matches!(Rkv::from_bytes(&[1, 2, 3], 45), Err(StoreError::FileInvalid)));
    // One database, unnamed, no flags, two pairs out of order.
    let mut bytes = vec![1, 0, 0, 0, 0, 0, 0, 0, 0, 0, 0, 0, 0, 2, 0, 0, 0, 0, 0, 0, 0];
    for key in [b"b", b"a"] {
        bytes.extend_from_slice(&[1, 0, 0, 0, 0, 0, 0, 0, key[0]]);
        bytes.extend_from_slice(&[1, 0, 0, 0, 0, 0, 0, 0, 0]);
    }
    assert!(matches!(Rkv::from_bytes(&bytes, 46), Err(StoreError::FileInvalid)));
    // Trailing bytes.
    let mut good = Rkv::new(28).to_bytes();
    good.push(0);
    assert!(matches!(Rkv::from_bytes(&good, 47), Err(StoreError::FileInvalid)));
}

#[test]
fn flags_are_immutable() {
    let mut k = Rkv::new(29);
    let _ = k.open_single(Some("s"), StoreOptions::create()).expect("opened");
    match k.open_multi(Some("s"), StoreOptions::create()) {
        Err(StoreError::SafeModeError(rkv::error::ErrorImpl::DbFlagsMismatch)) => {},
        _ => panic!("expected a flags mismatch"),
    }
    assert!(k.open_single(Some("s"), StoreOptions::create()).is_ok());
}

#[test]
fn single_writer() {
    let mut k = Rkv::new(30);
    let w = k.write().expect("writer");
    assert!(matches!(
        k.write(),
        Err(StoreError::SafeModeError(rkv::error::ErrorImpl::WriteTransactionInProgress))
    ));
    k.commit(w).expect("committed");
    let w = k.write().expect("writer after commit");
    k.abort(w);
    assert!(k.write().is_ok());
}

#[test]
fn integer_test_integer_keys() {
    let mut k = Rkv::new(31);
    let s = k.open_integer::<u32>(Some("s"), StoreOptions::create()).expect("open");
    for key in [u32::MIN, u32::MAX] {
        let mut writer = k.write().expect("writer");
        s.put(&mut writer, key, &Value::Str("hello!".to_string())).expect("write");
        assert_eq!(s.get(&writer, key).expect("read"), Some(Value::Str("hello!".to_string())));
        k.commit(writer).expect("committed");
        let reader = k.read().expect("reader");
        assert_eq!(s.get(&reader, key).expect("read"), Some(Value::Str("hello!".to_string())));
        k.end_read(reader);
    }
    let mut writer = k.write().expect("writer");
    s.delete(&mut writer, 0).expect("deleted");
    assert_eq!(s.get(&writer, 0).expect("read"), None);
}

#[test]
fn integermulti_test_integer_keys() {
    let mut k = Rkv::new(32);
    let s = k.open_multi_integer::<u32>(Some("s"), StoreOptions::create()).expect("open");
    for key in [u32::MIN, u32::MAX] {
        let mut writer = k.write().expect("writer");
        s.put(&mut writer, key, &Value::Str("hello!".to_string())).expect("write");
        assert_eq!(s.get_first(&writer, key).expect("read"), Some(Value::Str("hello!".to_string())));
        k.commit(writer).expect("committed");
        let reader = k.read().expect("reader");
        assert_eq!(s.get_first(&reader, key).expect("read"), Some(Value::Str("hello!".to_string())));
        k.end_read(reader);
    }
}

#[test]
fn integer_key_bytes_are_little_endian() {
    let mut env = rkv::environment::EnvironmentImpl::new(41);
    let db = env.create_db(Some("i"), rkv::DatabaseFlags::integer_key()).expect("created");
    let mut w = env.begin_rw_txn().expect("writer");
    let s: rkv::IntegerStore<u32> = rkv::IntegerStore::new(db);
    s.put(&mut w, 0x01020304, &Value::Bool(true)).expect("wrote");
    let plain = rkv::SingleStore::new(db);
    assert_eq!(plain.get(&w, &[4, 3, 2, 1]).expect("read"), Some(Value::Bool(true)));
    assert_eq!(7u32.to_bytes(), vec![7, 0, 0, 0]);
}

#[test]
fn manager_test_same() {
    let mut manager: Manager<std::rc::Rc<String>> = Manager::new();
    let p = "/tmp/test_same";
    assert!(manager.get(p).is_none());
    let created = manager
        .get_or_create(p, |path| Ok::<_, StoreError>(std::rc::Rc::new(path.to_string())))
        .expect("created")
        .clone();
    let fetched = manager.get(p).expect("existed").clone();
    assert!(std::rc::Rc::ptr_eq(&created, &fetched));
    let again = manager
        .get_or_create(p, |_| -> Result<std::rc::Rc<String>, StoreError> { panic!("must not be called") })
        .expect("existed")
        .clone();
    assert!(std::rc::Rc::ptr_eq(&created, &again));
}

#[test]
fn manager_constructor_error_is_surfaced() {
    let mut manager: Manager<u32> = Manager::new();
    let r = manager.get_or_create("/p", |_| Err::<u32, _>(StoreError::FileInvalid));
    assert_eq!(r, Err(StoreError::FileInvalid));
    assert!(manager.get("/p").is_none());
    assert_eq!(manager.get_or_create("/p", |_| Ok::<u32, StoreError>(5)), Ok(&5));
    assert!(manager.try_close("/p"));
    assert!(!manager.try_close("/p"));
    assert_eq!(manager.get_or_create("/q", |_| Ok::<u32, StoreError>(6)), Ok(&6));
    manager.try_close_all();
    assert!(manager.get("/q").is_none());
}

fn populate(env: &mut Rkv) {
    let store = env.open_single(Some("store"), StoreOptions::create()).expect("opened");
    let mut writer = env.write().expect("writer");
    store.put(&mut writer, b"foo", &Value::I64(1234)).expect("wrote");
    store.put(&mut writer, b"bar", &Value::Bool(true)).expect("wrote");
    store.put(&mut writer, b"baz", &Value::Str("héllo, yöu".to_string())).expect("wrote");
    env.commit(writer).expect("committed");
}

#[test]
fn migrate_source_empty() {
    let src = Rkv::new(33);
    let mut dst = Rkv::new(34);
    assert_eq!(Migrator::migrate(&src, &mut dst), Err(MigrateError::SourceEmpty));
}

#[test]
fn migrate_destination_not_empty() {
    let mut src = Rkv::new(35);
    populate(&mut src);
    let mut dst = Rkv::new(36);
    populate(&mut dst);
    assert_eq!(Migrator::migrate(&src, &mut dst), Err(MigrateError::DestinationNotEmpty));
}

#[test]
fn migrate_copies_every_pair() {
    let mut src = Rkv::new(37);
    populate(&mut src);
    let mut dst = Rkv::new(38);
    Migrator::migrate(&src, &mut dst).expect("migrated");
    let store = dst.open_single(Some("store"), StoreOptions::open()).expect("opened");
    let reader = dst.read().expect("reader");
    assert_eq!(store.get(&reader, b"foo").expect("read"), Some(Value::I64(1234)));
    assert_eq!(store.get(&reader, b"bar").expect("read"), Some(Value::Bool(true)));
    assert_eq!(store.get(&reader, b"baz").expect("read"), Some(Value::Str("héllo, yöu".to_string())));
    assert_eq!(dst.to_bytes(), src.to_bytes());
}

#[test]
fn migrate_refuses_duplicate_sorted() {
    let mut src = Rkv::new(39);
    let _ = src.open_multi(Some("m"), StoreOptions::create()).expect("opened");
    let mut dst = Rkv::new(40);
    assert_eq!(Migrator::migrate(&src, &mut dst), Err(MigrateError::UnsupportedDatabase));
    assert!(dst.get_dbs().is_empty());
}

#[test]
fn stores_and_transactions_of_another_environment_are_refused() {
    let mut a = Rkv::new(101);
    let mut b = Rkv::new(102);
    let sa = a.open_single(Some("s"), StoreOptions::create()).expect("opened");
    let _sb = b.open_single(Some("s"), StoreOptions::create()).expect("opened");
    let foreign = StoreError::SafeModeError(rkv::error::ErrorImpl::DbIsForeignError);

    // A store of `a` used through a writer of `b`.
    let mut wb = b.write().expect("writer");
    assert_eq!(sa.put(&mut wb, b"k", &Value::U64(1)), Err(foreign.clone()));
    assert_eq!(sa.get(&wb, b"k"), Err(foreign.clone()));

    // A writer of `b` committed into `a` changes nothing there.
    let mut wa = a.write().expect("writer");
    sa.put(&mut wa, b"k", &Value::U64(1)).expect("wrote");
    assert_eq!(a.commit(wb), Err(foreign.clone()));
    assert!(a.write().is_err());
    a.commit(wa).expect("committed");
    let ra = a.read().expect("reader");
    assert_eq!(sa.get(&ra, b"k").expect("read"), Some(Value::U64(1)));

    // A reader of `a` ended on `b` leaves `b`'s readers alone.
    let rb = b.read().expect("reader");
    b.end_read(ra);
    assert!(b.open_single(Some("s"), StoreOptions::open()).is_err());
    b.end_read(rb);
    assert!(b.open_single(Some("s"), StoreOptions::open()).is_ok());
}

#[test]
fn opening_with_other_flags_is_refused() {
    let mut k = Rkv::new(103);
    let _ = k.open_single(Some("s"), StoreOptions::create()).expect("opened");
    let mismatch = StoreError::SafeModeError(rkv::error::ErrorImpl::DbFlagsMismatch);
    assert!(matches!(k.open_multi(Some("s"), StoreOptions::open()), Err(e) if e == mismatch));
    assert!(matches!(k.open_integer::<u32>(Some("s"), StoreOptions::open()), Err(e) if e == mismatch));
    assert!(k.open_single(Some("s"), StoreOptions::open()).is_ok());
}

#[test]
fn multi_integer_put_with_flags() {
    let mut k = Rkv::new(104);
    let s = k.open_multi_integer::<u32>(Some("s"), StoreOptions::create()).expect("open");
    let mut w = k.write().expect("writer");
    s.put_with_flags(&mut w, 3, &Value::U64(1), rkv::WriteFlags::no_dup_data()).expect("wrote");
    let again = s.put_with_flags(&mut w, 3, &Value::U64(1), rkv::WriteFlags::no_dup_data());
    assert_eq!(again, Err(StoreError::SafeModeError(rkv::error::ErrorImpl::KeyExist)));
    s.put_with_flags(&mut w, 3, &Value::U64(2), rkv::WriteFlags::no_dup_data()).expect("wrote");
    let mut iter = s.get(&w, 3).expect("iter");
    assert_eq!(iter.next().expect("one").expect("value").1, Some(Value::U64(1)));
    assert_eq!(iter.next().expect("two").expect("value").1, Some(Value::U64(2)));
    assert!(iter.next().is_none());
}
