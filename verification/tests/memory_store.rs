use kvs::client::{read_response, write_request};
use kvs::server::handle_client_request;
use kvs::{Command, KvsEngine, KvsError, MemoryStore};

fn text(value: &str) -> String {
    value.to_string()
}

fn reopened(store: &MemoryStore) -> MemoryStore {
    MemoryStore::open(store.bytes().to_vec()).expect("a log that the store wrote is a log")
}

#[test]
fn memory_basic() {
    let mut store = MemoryStore::new();
    store.set(text("a"), text("1")).unwrap();
    store.set(text("b"), text("2")).unwrap();
    assert_eq!(store.get(text("a")), Ok(Some(text("1"))));
    assert_eq!(store.get(text("b")), Ok(Some(text("2"))));
    assert_eq!(store.get(text("c")), Ok(None));
    assert_eq!(store.len(), 2);
}

#[test]
fn memory_overwrite_and_persistence() {
    let mut store = MemoryStore::new();
    store.set(text("k"), text("v1")).unwrap();
    assert_eq!(
        store.bytes(),
        b"{\"Set\":{\"key\":\"k\",\"value\":\"v1\"}}\n"
    );
    store.set(text("k"), text("v2")).unwrap();
    let mut again = reopened(&store);
    assert_eq!(again.get(text("k")), Ok(Some(text("v2"))));
    assert_eq!(again.value("k"), Some(text("v2")));
}

#[test]
fn memory_remove_and_persistence() {
    let mut store = MemoryStore::new();
    store.set(text("x"), text("y")).unwrap();
    store.remove(text("x")).unwrap();
    assert_eq!(
        store.bytes(),
        b"{\"Set\":{\"key\":\"x\",\"value\":\"y\"}}\n{\"Remove\":{\"key\":\"x\"}}\n"
    );
    let mut again = reopened(&store);
    assert_eq!(again.get(text("x")), Ok(None));
    assert_eq!(again.remove(text("x")), Err(KvsError::KeyNotFound));
    assert_eq!(again.bytes(), store.bytes());
}

#[test]
fn memory_compaction_keeps_the_log_small() {
    let mut store = MemoryStore::new();
    for i in 0..2000 {
        store.set(format!("key{}", i), format!("value{}", i)).unwrap();
    }
    let first_pass = store.bytes().len();
    for i in 0..2000 {
        store.set(format!("key{}", i), format!("new{}", i)).unwrap();
    }
    assert!(store.bytes().len() < 3 * first_pass);
    assert!(store.bytes().len() < 2 * first_pass);
    for i in 0..2000 {
        assert_eq!(store.get(format!("key{}", i)), Ok(Some(format!("new{}", i))));
    }
    let again = reopened(&store);
    assert_eq!(again.len(), 2000);
}

#[test]
fn memory_compaction_rewrites_the_log() {
    let mut store = MemoryStore::new();
    store.set(text("a"), text("1")).unwrap();
    store.set(text("a"), text("2")).unwrap();
    assert_eq!(store.bytes(), b"{\"Set\":{\"key\":\"a\",\"value\":\"2\"}}\n");
    assert_eq!(store.get(text("a")), Ok(Some(text("2"))));
}

#[test]
fn memory_open_rejects_what_is_no_log() {
    assert!(matches!(MemoryStore::open(b"nonsense\n".to_vec()), Err(KvsError::Corruption)));
    assert!(matches!(
        MemoryStore::open(b"{\"Get\":{\"key\":\"a\"}}\n".to_vec()),
        Err(KvsError::Corruption)
    ));
    assert!(MemoryStore::open(Vec::new()).is_ok());
}

#[test]
fn memory_store_serves_requests() {
    let mut store = MemoryStore::new();
    let mut send = |command: Command| {
        let sent = handle_client_request(&mut store, &write_request(&command)).unwrap();
        read_response(&sent)
    };
    assert_eq!(send(Command::Put { key: text("a"), value: text("1") }), Ok(None));
    assert_eq!(send(Command::Get { key: text("a") }), Ok(Some(text("1"))));
    assert_eq!(send(Command::Remove { key: text("a") }), Ok(None));
    assert_eq!(send(Command::Get { key: text("a") }), Ok(None));
    assert_eq!(send(Command::Remove { key: text("a") }), Err(KvsError::KeyNotFound));
}
