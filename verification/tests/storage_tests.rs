use bevy_local_storage::storage::AssetReaderError;
use bevy_local_storage::storage::LocalStorageAssetReader;
use bevy_local_storage::storage::Store;
use bevy_local_storage::value_reader::ValueReader;

fn read_all(reader: &mut ValueReader) -> Vec<u8> {
    let mut out = Vec::new();
    let mut buf = [0u8; 16];
    loop {
        let n = reader.read(&mut buf);
        if n == 0 {
            break;
        }
        out.extend_from_slice(&buf[..n]);
    }
    out
}

#[test]
fn get_returns_what_set_stored() {
    let mut store = Store::new();
    store.set(&"k".to_string(), &"v".to_string());
    assert_eq!(store.get(&"k".to_string()), Some("v".to_string()));
}

#[test]
fn get_on_empty_store_returns_none() {
    let store = Store::new();
    assert_eq!(store.get(&"k".to_string()), None);
}

#[test]
fn set_replaces_existing_entry() {
    let mut store = Store::new();
    store.set(&"k".to_string(), &"first".to_string());
    store.set(&"k".to_string(), &"second".to_string());
    assert_eq!(store.get(&"k".to_string()), Some("second".to_string()));
}

#[test]
fn set_keeps_other_keys() {
    let mut store = Store::new();
    store.set(&"a".to_string(), &"1".to_string());
    store.set(&"b".to_string(), &"2".to_string());
    assert_eq!(store.get(&"a".to_string()), Some("1".to_string()));
    assert_eq!(store.get(&"b".to_string()), Some("2".to_string()));
}

#[test]
fn remove_takes_only_that_key_out() {
    let mut store = Store::new();
    store.set(&"a".to_string(), &"1".to_string());
    store.set(&"b".to_string(), &"2".to_string());
    store.remove(&"a".to_string());
    assert_eq!(store.get(&"a".to_string()), None);
    assert_eq!(store.get(&"b".to_string()), Some("2".to_string()));
}

#[test]
fn roundtrip_set_then_read_yields_utf8_bytes() {
    let mut store = Store::new();
    let reader = LocalStorageAssetReader;
    store.set(&"key.txt".to_string(), &"some text".to_string());
    let mut r = reader.read(&store, &"key.txt".to_string()).unwrap();
    assert_eq!(read_all(&mut r), "some text".as_bytes().to_vec());
}

#[test]
fn roundtrip_keeps_multibyte_text_intact() {
    let mut store = Store::new();
    let reader = LocalStorageAssetReader;
    let text = "caf\u{e9} \u{1f600}".to_string();
    store.set(&"note".to_string(), &text);
    let mut r = reader.read(&store, &"note".to_string()).unwrap();
    assert_eq!(read_all(&mut r), text.as_bytes().to_vec());
}

#[test]
fn stored_scene_is_served_in_full() {
    let mut store = Store::new();
    let reader = LocalStorageAssetReader;
    store.set(
        &"example.scn.ron".to_string(),
        &"(resources: {}, entities: {})".to_string(),
    );
    let mut r = reader.read(&store, &"example.scn.ron".to_string()).unwrap();
    assert_eq!(read_all(&mut r), b"(resources: {}, entities: {})".to_vec());
}

#[test]
fn missing_key_yields_not_found_with_path() {
    let store = Store::new();
    let reader = LocalStorageAssetReader;
    match reader.read(&store, &"missing.ron".to_string()) {
        Err(AssetReaderError::NotFound(path)) => assert_eq!(path, "missing.ron"),
        other => panic!("expected NotFound, got {:?}", other.map(|_| ())),
    }
}

#[test]
fn read_after_remove_yields_not_found() {
    let mut store = Store::new();
    let reader = LocalStorageAssetReader;
    store.set(
        &"example.scn.ron".to_string(),
        &"(resources: {}, entities: {})".to_string(),
    );
    store.remove(&"example.scn.ron".to_string());
    match reader.read(&store, &"example.scn.ron".to_string()) {
        Err(AssetReaderError::NotFound(path)) => assert_eq!(path, "example.scn.ron"),
        other => panic!("expected NotFound, got {:?}", other.map(|_| ())),
    }
}

#[test]
fn absence_is_repeatable() {
    let store = Store::new();
    let reader = LocalStorageAssetReader;
    for _ in 0..3 {
        assert!(matches!(
            reader.read(&store, &"never-set".to_string()),
            Err(AssetReaderError::NotFound(_))
        ));
    }
}

#[test]
fn read_entry_with_text_serves_its_bytes() {
    let reader = LocalStorageAssetReader;
    let mut r = reader
        .read_entry(&"p".to_string(), Some("abc".to_string()))
        .unwrap();
    assert_eq!(read_all(&mut r), b"abc".to_vec());
}

#[test]
fn read_entry_without_text_is_not_found() {
    let reader = LocalStorageAssetReader;
    match reader.read_entry(&"p".to_string(), None) {
        Err(AssetReaderError::NotFound(path)) => assert_eq!(path, "p"),
        other => panic!("expected NotFound, got {:?}", other.map(|_| ())),
    }
}

#[test]
fn meta_and_directories_are_unsupported() {
    let mut store = Store::new();
    store.set(&"present".to_string(), &"text".to_string());
    let reader = LocalStorageAssetReader;
    match reader.read_meta(&"present".to_string()) {
        Err(AssetReaderError::NotFound(path)) => assert_eq!(path, "present"),
        other => panic!("expected NotFound, got {:?}", other.map(|_| ())),
    }
    match reader.read_directory(&"present".to_string()) {
        Err(AssetReaderError::NotFound(path)) => assert_eq!(path, "present"),
        other => panic!("expected NotFound, got {:?}", other.map(|_| ())),
    }
    assert_eq!(reader.is_directory(&"present".to_string()), Ok(false));
    assert_eq!(reader.is_directory(&"absent".to_string()), Ok(false));
}
