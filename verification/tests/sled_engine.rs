use kvs::{KvsEngine, KvsError, SledKvsEngine};

#[test]
fn sled_set_then_get() {
    let dir = tempfile::tempdir().unwrap();
    let mut engine = SledKvsEngine::open(dir.path().to_path_buf()).unwrap();
    engine.set("a".to_string(), "1".to_string()).unwrap();
    engine.set("b".to_string(), "2".to_string()).unwrap();
    assert_eq!(engine.get("a".to_string()), Ok(Some("1".to_string())));
    assert_eq!(engine.get("b".to_string()), Ok(Some("2".to_string())));
    assert_eq!(engine.get("c".to_string()), Ok(None));
}

#[test]
fn sled_overwrite() {
    let dir = tempfile::tempdir().unwrap();
    let mut engine = SledKvsEngine::open(dir.path().to_path_buf()).unwrap();
    engine.set("k".to_string(), "v1".to_string()).unwrap();
    engine.set("k".to_string(), "v2".to_string()).unwrap();
    assert_eq!(engine.get("k".to_string()), Ok(Some("v2".to_string())));
    engine.set("k".to_string(), "v2".to_string()).unwrap();
    assert_eq!(engine.get("k".to_string()), Ok(Some("v2".to_string())));
}

#[test]
fn sled_remove() {
    let dir = tempfile::tempdir().unwrap();
    let mut engine = SledKvsEngine::open(dir.path().to_path_buf()).unwrap();
    engine.set("x".to_string(), "y".to_string()).unwrap();
    assert_eq!(engine.remove("x".to_string()), Ok(()));
    assert_eq!(engine.get("x".to_string()), Ok(None));
    assert_eq!(engine.remove("x".to_string()), Err(KvsError::KeyNotFound));
    assert_eq!(engine.remove("never".to_string()), Err(KvsError::KeyNotFound));
}

#[test]
fn sled_keeps_its_pairs_across_reopening() {
    let dir = tempfile::tempdir().unwrap();
    {
        let mut engine = SledKvsEngine::open(dir.path().to_path_buf()).unwrap();
        engine.set("k".to_string(), "v".to_string()).unwrap();
        engine.set("gone".to_string(), "v".to_string()).unwrap();
        engine.remove("gone".to_string()).unwrap();
    }
    let mut engine = SledKvsEngine::open(dir.path().to_path_buf()).unwrap();
    assert_eq!(engine.get("k".to_string()), Ok(Some("v".to_string())));
    assert_eq!(engine.get("gone".to_string()), Ok(None));
}

#[test]
fn sled_lives_in_its_own_directory() {
    let dir = tempfile::tempdir().unwrap();
    {
        let mut engine = SledKvsEngine::open(dir.path().to_path_buf()).unwrap();
        engine.set("k".to_string(), "\u{e9}".to_string()).unwrap();
    }
    assert!(dir.path().join("sled_db.log").is_dir());
    let db = sled::open(dir.path().join("sled_db.log")).unwrap();
    assert_eq!(db.get("k").unwrap().unwrap().to_vec(), vec![0xc3u8, 0xa9]);
}

#[test]
fn sled_value_that_is_not_utf8_is_corruption() {
    let dir = tempfile::tempdir().unwrap();
    {
        let db = sled::open(dir.path().join("sled_db.log")).unwrap();
        db.insert("bad", vec![0xffu8, 0xfe]).unwrap();
        db.insert("good", vec![0x6fu8, 0x6b]).unwrap();
        db.flush().unwrap();
    }
    let mut engine = SledKvsEngine::open(dir.path().to_path_buf()).unwrap();
    assert_eq!(engine.get("bad".to_string()), Err(KvsError::Corruption));
    assert_eq!(engine.get("good".to_string()), Ok(Some("ok".to_string())));
}

#[test]
fn sled_open_fails_where_the_store_is_held() {
    let dir = tempfile::tempdir().unwrap();
    let _held = SledKvsEngine::open(dir.path().to_path_buf()).unwrap();
    assert!(matches!(
        SledKvsEngine::open(dir.path().to_path_buf()),
        Err(KvsError::Sled(_))
    ));
}

#[test]
fn sled_serves_requests() {
    let dir = tempfile::tempdir().unwrap();
    let mut engine = SledKvsEngine::open(dir.path().to_path_buf()).unwrap();
    let set = kvs::server::handle_client_request(
        &mut engine,
        b"{\"Set\":{\"key\":\"a\",\"value\":\"1\"}}\n",
    );
    assert_eq!(set, Ok(b"\"SetSuccess\"\n".to_vec()));
    let get = kvs::server::handle_client_request(&mut engine, b"{\"Get\":{\"key\":\"a\"}}\n");
    assert_eq!(get, Ok(b"{\"GetResponse\":\"1\"}\n".to_vec()));
    let rm = kvs::server::handle_client_request(&mut engine, b"{\"Remove\":{\"key\":\"b\"}}\n");
    assert_eq!(rm, Ok(b"\"RemoveFailure\"\n".to_vec()));
}

#[test]
fn sled_opens_the_store_of_the_directory_it_is_given() {
    let first = tempfile::tempdir().unwrap();
    let second = tempfile::tempdir().unwrap();
    {
        let mut one = SledKvsEngine::open(first.path().to_path_buf()).unwrap();
        let mut two = SledKvsEngine::open(second.path().to_path_buf()).unwrap();
        one.set("k".to_string(), "first".to_string()).unwrap();
        two.set("k".to_string(), "second".to_string()).unwrap();
        assert_eq!(one.get("k".to_string()), Ok(Some("first".to_string())));
        assert_eq!(two.get("k".to_string()), Ok(Some("second".to_string())));
    }
    assert!(first.path().join("sled_db.log").is_dir());
    assert!(second.path().join("sled_db.log").is_dir());
    assert!(!first.path().join("db").exists());
    let mut again = SledKvsEngine::open(second.path().to_path_buf()).unwrap();
    assert_eq!(again.get("k".to_string()), Ok(Some("second".to_string())));
}
