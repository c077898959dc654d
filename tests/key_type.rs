use redis_bigkeys::key_type::{classify, KeyTypeCode};

#[test]
fn classify_known_labels() {
    assert_eq!(classify(b"string"), Some(KeyTypeCode::StringKey));
    assert_eq!(classify(b"list"), Some(KeyTypeCode::ListKey));
    assert_eq!(classify(b"set"), Some(KeyTypeCode::SetKey));
    assert_eq!(classify(b"zset"), Some(KeyTypeCode::ZSetKey));
    assert_eq!(classify(b"hash"), Some(KeyTypeCode::HashKey));
    assert_eq!(classify(b"stream"), Some(KeyTypeCode::StreamKey));
}

#[test]
fn classify_rejects_others() {
    assert_eq!(classify(b"none"), None);
    assert_eq!(classify(b"STRING"), None);
    assert_eq!(classify(b""), None);
    assert_eq!(classify(b"sets"), None);
}

#[test]
fn names_titles_and_slots() {
    let all = KeyTypeCode::all();
    assert_eq!(all.len(), 6);
    let names: Vec<&str> = all.iter().map(|t| t.name()).collect();
    assert_eq!(names, vec!["string", "list", "set", "zset", "hash", "stream"]);
    let titles: Vec<&str> = all.iter().map(|t| t.title()).collect();
    assert_eq!(titles, vec!["STRING", "LIST", "SET", "ZSET", "HASH", "STREAM"]);
    let slots: Vec<usize> = all.iter().map(|t| t.index()).collect();
    assert_eq!(slots, vec![0, 1, 2, 3, 4, 5]);
    for t in all.iter() {
        assert_eq!(classify(&t.label()), Some(*t));
    }
}
