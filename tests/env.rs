use rkv::{Rkv, SingleStore, StoreError, StoreOptions, Value};

fn key_str(k: &[u8]) -> &str {
    std::str::from_utf8(k).expect("key")
}

fn next_pair(iter: &mut rkv::store::Iter) -> (String, Option<Value>) {
    let (key, val) = iter.next().expect("item").expect("value");
    (key_str(&key).to_string(), val)
}

#[test]
fn test_open() {
    let mut k = Rkv::new(1);
    let _ = k.open_single(None, StoreOptions::create()).expect("created default");
    let yyy = k.open_single(Some("yyy"), StoreOptions::create()).expect("opened");
    let reader = k.read().expect("reader");
    let result = yyy.get(&reader, b"foo");
    assert_eq!(None, result.expect("success but no value"));
}

#[test]
fn test_round_trip_and_transactions() {
    let mut k = Rkv::new(2);
    let sk = k.open_single(Some("sk"), StoreOptions::create()).expect("opened");

    {
        let mut writer = k.write().expect("writer");
        sk.put(&mut writer, b"foo", &Value::I64(1234)).expect("wrote");
        sk.put(&mut writer, b"noo", &Value::F64(1234.0f64.to_bits())).expect("wrote");
        sk.put(&mut writer, b"bar", &Value::Bool(true)).expect("wrote");
        sk.put(&mut writer, "baz".as_bytes(), &Value::Str("héllo, yöu".to_string())).expect("wrote");
        assert_eq!(sk.get(&writer, b"foo").expect("read"), Some(Value::I64(1234)));
        assert_eq!(sk.get(&writer, b"noo").expect("read"), Some(Value::F64(1234.0f64.to_bits())));
        assert_eq!(sk.get(&writer, b"bar").expect("read"), Some(Value::Bool(true)));
        assert_eq!(sk.get(&writer, b"baz").expect("read"), Some(Value::Str("héllo, yöu".to_string())));

        // Isolation. Reads won't return values.
        let r = k.read().unwrap();
        assert_eq!(sk.get(&r, b"foo").expect("read"), None);
        assert_eq!(sk.get(&r, b"bar").expect("read"), None);
        assert_eq!(sk.get(&r, b"baz").expect("read"), None);
        k.end_read(r);
        k.abort(writer);
    }

    // Aborted: reads still return nothing.
    {
        let r = k.read().unwrap();
        assert_eq!(sk.get(&r, b"foo").expect("read"), None);
        assert_eq!(sk.get(&r, b"bar").expect("read"), None);
        assert_eq!(sk.get(&r, b"baz").expect("read"), None);
        k.end_read(r);
    }

    {
        let mut writer = k.write().expect("writer");
        sk.put(&mut writer, b"foo", &Value::I64(1234)).expect("wrote");
        sk.put(&mut writer, b"bar", &Value::Bool(true)).expect("wrote");
        sk.put(&mut writer, b"baz", &Value::Str("héllo, yöu".to_string())).expect("wrote");
        assert_eq!(sk.get(&writer, b"foo").expect("read"), Some(Value::I64(1234)));
        assert_eq!(sk.get(&writer, b"bar").expect("read"), Some(Value::Bool(true)));
        assert_eq!(sk.get(&writer, b"baz").expect("read"), Some(Value::Str("héllo, yöu".to_string())));
        k.commit(writer).expect("committed");
    }

    // Committed. Reads will succeed.
    {
        let r = k.read().unwrap();
        assert_eq!(sk.get(&r, b"foo").expect("read"), Some(Value::I64(1234)));
        assert_eq!(sk.get(&r, b"bar").expect("read"), Some(Value::Bool(true)));
        assert_eq!(sk.get(&r, b"baz").expect("read"), Some(Value::Str("héllo, yöu".to_string())));
        k.end_read(r);
    }

    {
        let mut writer = k.write().expect("writer");
        sk.delete(&mut writer, b"foo").expect("deleted");
        sk.delete(&mut writer, b"bar").expect("deleted");
        sk.delete(&mut writer, b"baz").expect("deleted");
        assert_eq!(sk.get(&writer, b"foo").expect("read"), None);
        assert_eq!(sk.get(&writer, b"bar").expect("read"), None);
        assert_eq!(sk.get(&writer, b"baz").expect("read"), None);

        // Isolation. Reads still return values.
        let r = k.read().unwrap();
        assert_eq!(sk.get(&r, b"foo").expect("read"), Some(Value::I64(1234)));
        assert_eq!(sk.get(&r, b"bar").expect("read"), Some(Value::Bool(true)));
        assert_eq!(sk.get(&r, b"baz").expect("read"), Some(Value::Str("héllo, yöu".to_string())));
        k.end_read(r);
        k.abort(writer);
    }

    // Aborted: reads still return values.
    {
        let r = k.read().unwrap();
        assert_eq!(sk.get(&r, b"foo").expect("read"), Some(Value::I64(1234)));
        assert_eq!(sk.get(&r, b"bar").expect("read"), Some(Value::Bool(true)));
        assert_eq!(sk.get(&r, b"baz").expect("read"), Some(Value::Str("héllo, yöu".to_string())));
        k.end_read(r);
    }

    {
        let mut writer = k.write().expect("writer");
        sk.delete(&mut writer, b"foo").expect("deleted");
        sk.delete(&mut writer, b"bar").expect("deleted");
        sk.delete(&mut writer, b"baz").expect("deleted");
        assert_eq!(sk.get(&writer, b"foo").expect("read"), None);
        assert_eq!(sk.get(&writer, b"bar").expect("read"), None);
        assert_eq!(sk.get(&writer, b"baz").expect("read"), None);
        k.commit(writer).expect("committed");
    }

    // Committed. Reads will succeed but return None to indicate a missing value.
    {
        let r = k.read().unwrap();
        assert_eq!(sk.get(&r, b"foo").expect("read"), None);
        assert_eq!(sk.get(&r, b"bar").expect("read"), None);
        assert_eq!(sk.get(&r, b"baz").expect("read"), None);
        k.end_read(r);
    }
}

#[test]
fn test_open_store_for_read() {
    let mut k = Rkv::new(3);
    let sk = k.open_single(Some("sk"), StoreOptions::create()).expect("opened");
    let mut writer = k.write().expect("writer");
    sk.put(&mut writer, b"foo", &Value::Str("bar".to_string())).expect("write");
    // Opening the store for read while the write transaction is live does not block.
    let sk_readonly = k.open_single(Some("sk"), StoreOptions::open()).expect("opened");
    k.commit(writer).expect("commit");
    let reader = k.read().expect("reader");
    assert_eq!(sk_readonly.get(&reader, b"foo").expect("read"), Some(Value::Str("bar".to_string())));
}

#[test]
#[should_panic(expected = "open a missing store")]
fn test_open_a_missing_store() {
    let mut k = Rkv::new(4);
    let _sk = k.open_single(Some("sk"), StoreOptions::open()).expect("open a missing store");
}

#[test]
fn open_during_read_transaction_fails() {
    let mut k = Rkv::new(5);
    let _sk = k.open_single(Some("sk"), StoreOptions::create()).expect("opened");
    let reader = k.read().expect("reader");
    match k.open_single(Some("sk"), StoreOptions::open()) {
        Err(StoreError::SafeModeError(rkv::error::ErrorImpl::DbsIllegalOpen)) => {},
        _ => panic!("expected error"),
    }
    k.end_read(reader);
    assert!(k.open_single(Some("sk"), StoreOptions::open()).is_ok());
}

#[test]
fn test_read_before_write_num() {
    let mut k = Rkv::new(6);
    let sk = k.open_single(Some("sk"), StoreOptions::create()).expect("opened");

    fn get_existing_foo(writer: &rkv::Writer, store: &SingleStore) -> Option<i64> {
        match store.get(writer, b"foo").expect("read") {
            Some(Value::I64(val)) => Some(val),
            _ => None,
        }
    }

    let mut writer = k.write().expect("writer");
    let mut existing = get_existing_foo(&writer, &sk).unwrap_or(99);
    existing += 1;
    sk.put(&mut writer, b"foo", &Value::I64(existing)).expect("success");

    let updated = get_existing_foo(&writer, &sk).unwrap_or(99);
    assert_eq!(updated, 100);
    k.commit(writer).expect("commit");
}

#[test]
fn test_read_before_write_str() {
    let mut k = Rkv::new(7);
    let sk = k.open_single(Some("sk"), StoreOptions::create()).expect("opened");

    let mut writer = k.write().expect("writer");
    let mut existing = match sk.get(&writer, b"foo").expect("read") {
        Some(Value::Str(val)) => val,
        _ => String::new(),
    };
    existing.push('…');
    sk.put(&mut writer, b"foo", &Value::Str(existing.clone())).expect("write");
    k.commit(writer).expect("commit");
    let reader = k.read().expect("reader");
    assert_eq!(sk.get(&reader, b"foo").expect("read"), Some(Value::Str("…".to_string())));
}

#[test]
fn test_isolation() {
    let mut k = Rkv::new(8);
    let s = k.open_single(Some("s"), StoreOptions::create()).expect("opened");

    {
        let mut writer = k.write().expect("writer");
        s.put(&mut writer, b"foo", &Value::I64(1234)).expect("wrote");
        k.commit(writer).expect("committed");
    }

    {
        let reader = k.read().unwrap();
        assert_eq!(s.get(&reader, b"foo").expect("read"), Some(Value::I64(1234)));
        k.end_read(reader);
    }

    // A long-lived reader that outlasts a writer.
    let reader = k.read().expect("reader");
    assert_eq!(s.get(&reader, b"foo").expect("read"), Some(Value::I64(1234)));

    let mut writer = k.write().expect("writer");
    s.put(&mut writer, b"foo", &Value::I64(999)).expect("wrote");

    // The reader and writer are isolated.
    assert_eq!(s.get(&reader, b"foo").expect("read"), Some(Value::I64(1234)));
    assert_eq!(s.get(&writer, b"foo").expect("read"), Some(Value::I64(999)));

    // After the commit the reader still sees what it saw.
    k.commit(writer).expect("committed");
    assert_eq!(s.get(&reader, b"foo").expect("read"), Some(Value::I64(1234)));

    // A new reader sees the committed value.
    k.end_read(reader);
    let reader = k.read().expect("reader");
    assert_eq!(s.get(&reader, b"foo").expect("read"), Some(Value::I64(999)));
}

#[test]
fn test_blob() {
    let mut k = Rkv::new(9);
    let sk = k.open_single(Some("sk"), StoreOptions::create()).expect("opened");
    let mut writer = k.write().expect("writer");

    assert_eq!(sk.get(&writer, b"foo").expect("read"), None);
    sk.put(&mut writer, b"foo", &Value::Blob(vec![1, 2, 3, 4])).expect("wrote");
    assert_eq!(sk.get(&writer, b"foo").expect("read"), Some(Value::Blob(vec![1, 2, 3, 4])));

    fn u16_to_u8(src: &[u16]) -> Vec<u8> {
        src.iter().flat_map(|x| x.to_le_bytes()).collect()
    }

    fn u8_to_u16(src: &[u8]) -> Vec<u16> {
        src.chunks(2).map(|c| u16::from_le_bytes([c[0], c[1]])).collect()
    }

    let u16_array = [1000, 10000, 54321, 65535];
    assert_eq!(sk.get(&writer, b"bar").expect("read"), None);
    sk.put(&mut writer, b"bar", &Value::Blob(u16_to_u8(&u16_array))).expect("wrote");
    let u8_array = match sk.get(&writer, b"bar").expect("read") {
        Some(Value::Blob(val)) => val,
        _ => Vec::new(),
    };
    assert_eq!(u8_to_u16(&u8_array), u16_array);
}

fn populate_iter_store(k: &mut Rkv, stores: &[SingleStore]) {
    let mut writer = k.write().expect("writer");
    for sk in stores {
        sk.put(&mut writer, b"foo", &Value::I64(1234)).expect("wrote");
        sk.put(&mut writer, b"noo", &Value::F64(1234.0f64.to_bits())).expect("wrote");
        sk.put(&mut writer, b"bar", &Value::Bool(true)).expect("wrote");
        sk.put(&mut writer, b"baz", &Value::Str("héllo, yöu".to_string())).expect("wrote");
        sk.put(&mut writer, "héllò, töűrîst".as_bytes(), &Value::Str("Emil.RuleZ!".to_string())).expect("wrote");
        sk.put(&mut writer, "你好，遊客".as_bytes(), &Value::Str("米克規則".to_string())).expect("wrote");
    }
    k.commit(writer).expect("committed");
}

fn check_full_iteration(k: &mut Rkv, sk: &SingleStore) {
    let reader = k.read().unwrap();
    let mut iter = sk.iter_start(&reader).unwrap();
    assert_eq!(next_pair(&mut iter), ("bar".to_string(), Some(Value::Bool(true))));
    assert_eq!(next_pair(&mut iter), ("baz".to_string(), Some(Value::Str("héllo, yöu".to_string()))));
    assert_eq!(next_pair(&mut iter), ("foo".to_string(), Some(Value::I64(1234))));
    assert_eq!(next_pair(&mut iter), ("héllò, töűrîst".to_string(), Some(Value::Str("Emil.RuleZ!".to_string()))));
    assert_eq!(next_pair(&mut iter), ("noo".to_string(), Some(Value::F64(1234.0f64.to_bits()))));
    assert_eq!(next_pair(&mut iter), ("你好，遊客".to_string(), Some(Value::Str("米克規則".to_string()))));
    assert!(iter.next().is_none());
    // Iterators don't loop.
    assert!(iter.next().is_none());

    for from in ["moo", "no"] {
        let mut iter = sk.iter_from(&reader, from.as_bytes()).unwrap();
        assert_eq!(next_pair(&mut iter), ("noo".to_string(), Some(Value::F64(1234.0f64.to_bits()))));
        assert_eq!(next_pair(&mut iter), ("你好，遊客".to_string(), Some(Value::Str("米克規則".to_string()))));
        assert!(iter.next().is_none());
    }
    k.end_read(reader);
}

#[test]
fn test_iter() {
    let mut k = Rkv::new(10);
    let sk = k.open_single(Some("sk"), StoreOptions::create()).expect("opened");

    // An iterator over an empty store returns no values.
    {
        let reader = k.read().unwrap();
        let mut iter = sk.iter_start(&reader).unwrap();
        assert!(iter.next().is_none());
        let mut iter = sk.iter_from(&reader, b"moo").unwrap();
        assert!(iter.next().is_none());
        k.end_read(reader);
    }

    populate_iter_store(&mut k, &[sk]);
    check_full_iteration(&mut k, &sk);
}

#[test]
fn iter_from_key_greater_than_existing_yields_nothing() {
    let mut k = Rkv::new(11);
    let sk = k.open_single(Some("sk"), StoreOptions::create()).expect("opened");
    let mut writer = k.write().expect("writer");
    sk.put(&mut writer, b"foo", &Value::I64(1234)).expect("wrote");
    sk.put(&mut writer, b"noo", &Value::F64(1234.0f64.to_bits())).expect("wrote");
    k.commit(writer).expect("committed");
    let reader = k.read().unwrap();
    let mut iter = sk.iter_from(&reader, b"nuu").unwrap();
    assert!(iter.next().is_none());
}

#[test]
fn test_mutilpe_store_read_write() {
    let mut k = Rkv::new(12);
    let s1 = k.open_single(Some("store_1"), StoreOptions::create()).expect("opened");
    let s2 = k.open_single(Some("store_2"), StoreOptions::create()).expect("opened");
    let s3 = k.open_single(Some("store_3"), StoreOptions::create()).expect("opened");

    let mut writer = k.write().expect("writer");
    s1.put(&mut writer, b"foo", &Value::Str("bar".to_string())).expect("wrote");
    s2.put(&mut writer, b"foo", &Value::I64(123)).expect("wrote");
    s3.put(&mut writer, b"foo", &Value::Bool(true)).expect("wrote");

    assert_eq!(s1.get(&writer, b"foo").expect("read"), Some(Value::Str("bar".to_string())));
    assert_eq!(s2.get(&writer, b"foo").expect("read"), Some(Value::I64(123)));
    assert_eq!(s3.get(&writer, b"foo").expect("read"), Some(Value::Bool(true)));

    k.commit(writer).expect("committed");

    let reader = k.read().expect("unbound_reader");
    assert_eq!(s1.get(&reader, b"foo").expect("read"), Some(Value::Str("bar".to_string())));
    assert_eq!(s2.get(&reader, b"foo").expect("read"), Some(Value::I64(123)));
    assert_eq!(s3.get(&reader, b"foo").expect("read"), Some(Value::Bool(true)));
    k.end_read(reader);

    // Delete across multiple stores.
    let mut writer = k.write().expect("writer");
    s1.delete(&mut writer, b"foo").expect("deleted");
    s2.delete(&mut writer, b"foo").expect("deleted");
    s3.delete(&mut writer, b"foo").expect("deleted");
    k.commit(writer).expect("committed");

    let reader = k.read().expect("reader");
    assert_eq!(s1.get(&reader, b"key").expect("value"), None);
    assert_eq!(s2.get(&reader, b"key").expect("value"), None);
    assert_eq!(s3.get(&reader, b"key").expect("value"), None);
    assert_eq!(s1.get(&reader, b"foo").expect("value"), None);
}

#[test]
fn test_multiple_store_iter() {
    let mut k = Rkv::new(13);
    let s1 = k.open_single(Some("store_1"), StoreOptions::create()).expect("opened");
    let s2 = k.open_single(Some("store_2"), StoreOptions::create()).expect("opened");
    populate_iter_store(&mut k, &[s1, s2]);
    check_full_iteration(&mut k, &s1);
    check_full_iteration(&mut k, &s2);
}

#[test]
fn delete_missing_key_fails() {
    let mut k = Rkv::new(14);
    let sk = k.open_single(Some("sk"), StoreOptions::create()).expect("opened");
    let mut writer = k.write().expect("writer");
    assert_eq!(sk.delete(&mut writer, b"nope"), Err(StoreError::KeyValuePairNotFound));
}

#[test]
fn clear_empties_the_store() {
    let mut k = Rkv::new(15);
    let sk = k.open_single(Some("sk"), StoreOptions::create()).expect("opened");
    let mut writer = k.write().expect("writer");
    sk.put(&mut writer, b"a", &Value::U64(1)).expect("wrote");
    sk.put(&mut writer, b"b", &Value::U64(2)).expect("wrote");
    sk.clear(&mut writer).expect("cleared");
    assert_eq!(sk.get(&writer, b"a").expect("read"), None);
    let mut iter = sk.iter_start(&writer).unwrap();
    assert!(iter.next().is_none());
}

#[test]
fn put_replaces_in_single_store() {
    let mut k = Rkv::new(16);
    let sk = k.open_single(Some("sk"), StoreOptions::create()).expect("opened");
    let mut writer = k.write().expect("writer");
    sk.put(&mut writer, b"a", &Value::U64(1)).expect("wrote");
    sk.put(&mut writer, b"a", &Value::U64(2)).expect("wrote");
    assert_eq!(sk.get(&writer, b"a").expect("read"), Some(Value::U64(2)));
    let mut iter = sk.iter_start(&writer).unwrap();
    assert!(iter.next().is_some());
    assert!(iter.next().is_none());
}

#[test]
fn no_overwrite_refuses_present_key() {
    let mut k = Rkv::new(17);
    let sk = k.open_single(Some("sk"), StoreOptions::create()).expect("opened");
    let mut writer = k.write().expect("writer");
    sk.put(&mut writer, b"a", &Value::U64(1)).expect("wrote");
    let r = sk.put_with_flags(&mut writer, b"a", &Value::U64(2), rkv::WriteFlags::no_overwrite());
    assert_eq!(r, Err(StoreError::SafeModeError(rkv::error::ErrorImpl::KeyExist)));
    assert_eq!(sk.get(&writer, b"a").expect("read"), Some(Value::U64(1)));
    let r = sk.put_with_flags(&mut writer, b"b", &Value::U64(2), rkv::WriteFlags::no_overwrite());
    assert_eq!(r, Ok(()));
}

#[test]
fn undecodable_value_is_a_data_error() {
    let mut env = rkv::environment::EnvironmentImpl::new(18);
    let db = env.create_db(Some("raw"), rkv::DatabaseFlags::empty()).expect("created");
    let mut w = env.begin_rw_txn().expect("writer");
    w.put(&db, b"k", &[42, 0], rkv::WriteFlags::empty()).expect("put");
    let store = SingleStore::new(db);
    assert_eq!(store.get(&w, b"k"), Err(StoreError::DataError(rkv::DataError::UnknownType(42))));
}
