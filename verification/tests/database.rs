use tlock::database::{
    entities_key, plugin_name_key, plugin_source_key, plugin_state_key,
    plugins_key, DatabaseError, FileFailure, FsDatabase, MemoryDatabase, PluginSource,
};

#[test]
fn memory_read_gives_back_last_write() {
    let mut db = MemoryDatabase::new();
    assert_eq!(db.get(b"k").unwrap(), None);
    db.set(b"k", b"one").unwrap();
    db.set(b"other", b"x").unwrap();
    assert_eq!(db.get(b"k").unwrap(), Some(b"one".to_vec()));
    db.set(b"k", b"two").unwrap();
    assert_eq!(db.get(b"k").unwrap(), Some(b"two".to_vec()));
    assert_eq!(db.get(b"other").unwrap(), Some(b"x".to_vec()));
}

#[test]
fn memory_delete_removes_only_its_key() {
    let mut db = MemoryDatabase::new();
    db.set(b"a", b"1").unwrap();
    db.set(b"b", b"2").unwrap();
    db.delete(b"a").unwrap();
    assert_eq!(db.get(b"a").unwrap(), None);
    assert_eq!(db.get(b"b").unwrap(), Some(b"2".to_vec()));
    // Deleting an absent key succeeds and changes nothing.
    db.delete(b"a").unwrap();
    assert_eq!(db.get(b"b").unwrap(), Some(b"2".to_vec()));
}

#[test]
fn memory_empty_key_and_value() {
    let mut db = MemoryDatabase::new();
    db.set(b"", b"").unwrap();
    assert_eq!(db.get(b"").unwrap(), Some(Vec::new()));
}

#[test]
fn record_keys() {
    assert_eq!(plugins_key(), b"plugins".to_vec());
    assert_eq!(entities_key(), b"entities".to_vec());
    assert_eq!(plugin_name_key("p1"), b"plugin_name:p1".to_vec());
    assert_eq!(plugin_source_key("p1"), b"plugin_source:p1".to_vec());
    assert_eq!(plugin_state_key("p1", "k"), b"state:p1:k".to_vec());
    assert_ne!(plugin_name_key("p1"), plugin_name_key("p2"));
}

#[test]
fn key_paths() {
    let db = FsDatabase::at("data".to_string());
    assert_eq!(db.directory(), "data");
    assert_eq!(db.key_path(b"a"), "data/61");
    assert_eq!(db.temp_path(b"a"), "data/61.tmp");
    assert_eq!(db.key_path(&[0x00, 0x0f, 0xab, 0xff]), "data/000fabff");
    let slash = FsDatabase::at("data/".to_string());
    assert_eq!(slash.key_path(b"state:p1:k"), "data/73746174653a70313a6b");
    let here = FsDatabase::at(String::new());
    assert_eq!(here.key_path(b"plugins"), "706c7567696e73");
    assert_eq!(here.key_path(b""), "");
}

#[test]
fn distinct_keys_have_distinct_files() {
    let db = FsDatabase::at("d".to_string());
    assert_ne!(db.key_path(b"a"), db.key_path(b"b"));
    assert_ne!(db.key_path(b"ab"), db.key_path(b"a"));
    assert_eq!(db.key_path(b"ab"), db.key_path(b"ab"));
}

#[test]
fn file_outcomes() {
    let r = FsDatabase::read_result(Ok(vec![1, 2]));
    assert!(matches!(r, Ok(Some(ref b)) if b == &vec![1, 2]));
    let r = FsDatabase::read_result(Err(FileFailure { not_found: true, message: "gone".to_string() }));
    assert!(matches!(r, Ok(None)));
    let r = FsDatabase::read_result(Err(FileFailure { not_found: false, message: "denied".to_string() }));
    assert!(matches!(r, Err(DatabaseError::StorageError(ref m)) if m == "denied"));

    assert!(FsDatabase::write_result(Ok(())).is_ok());
    let r = FsDatabase::write_result(Err(FileFailure { not_found: true, message: "no dir".to_string() }));
    assert!(matches!(r, Err(DatabaseError::StorageError(ref m)) if m == "no dir"));

    assert!(FsDatabase::delete_result(Err(FileFailure { not_found: true, message: "x".to_string() })).is_ok());
    let r = FsDatabase::delete_result(Err(FileFailure { not_found: false, message: "busy".to_string() }));
    assert!(matches!(r, Err(DatabaseError::StorageError(ref m)) if m == "busy"));
}

#[test]
fn plugin_source_bytes() {
    assert_eq!(PluginSource::Embedded(vec![0, 97, 115, 109]).local_bytes(), Some(vec![0, 97, 115, 109]));
    assert_eq!(PluginSource::Url("https://x/p.wasm".to_string()).local_bytes(), None);
}
