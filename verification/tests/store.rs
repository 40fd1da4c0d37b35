use kvs::error::KvsError;
use kvs::store::DbControl;
use std::collections::HashMap;

fn text(s: &str) -> String {
    s.to_string()
}

#[test]
fn a_new_table_is_empty() {
    let db = DbControl::new(None);
    assert_eq!(db.get(&text("foo")), None);
    assert_eq!(db.get(&text("")), None);
}

#[test]
fn set_installs_and_returns_what_was_there() {
    let mut db = DbControl::new(None);
    assert_eq!(db.set(text("a"), text("1")), None);
    assert_eq!(db.set(text("b"), text("2")), None);
    assert_eq!(db.set(text("a"), text("3")), Some(text("1")));
    assert_eq!(db.get(&text("a")), Some(text("3")));
    assert_eq!(db.get(&text("b")), Some(text("2")));
    assert_eq!(db.get(&text("c")), None);
}

#[test]
fn keys_are_compared_as_whole_texts() {
    let mut db = DbControl::new(None);
    db.set(text("key"), text("1"));
    db.set(text("key "), text("2"));
    db.set(text("Key"), text("3"));
    db.set(text(""), text("4"));
    assert_eq!(db.get(&text("key")), Some(text("1")));
    assert_eq!(db.get(&text("key ")), Some(text("2")));
    assert_eq!(db.get(&text("Key")), Some(text("3")));
    assert_eq!(db.get(&text("")), Some(text("4")));
    assert_eq!(db.get(&text("ke")), None);
}

#[test]
fn del_removes_one_key_only() {
    let mut db = DbControl::new(None);
    db.set(text("a"), text("1"));
    db.set(text("b"), text("2"));
    db.set(text("c"), text("3"));
    assert_eq!(db.del(&text("b")), Some(text("2")));
    assert_eq!(db.get(&text("a")), Some(text("1")));
    assert_eq!(db.get(&text("b")), None);
    assert_eq!(db.get(&text("c")), Some(text("3")));
}

#[test]
fn del_on_an_absent_key_returns_no_value() {
    let mut db = DbControl::new(None);
    assert_eq!(db.del(&text("ghost")), None);
    db.set(text("a"), text("1"));
    assert_eq!(db.del(&text("ghost")), None);
    assert_eq!(db.get(&text("a")), Some(text("1")));
}

#[test]
fn del_may_be_repeated() {
    let mut db = DbControl::new(None);
    db.set(text("a"), text("1"));
    db.set(text("b"), text("2"));
    assert_eq!(db.del(&text("a")), Some(text("1")));
    assert_eq!(db.del(&text("a")), None);
    assert_eq!(db.del(&text("a")), None);
    assert_eq!(db.get(&text("b")), Some(text("2")));
    assert_eq!(db.set(text("a"), text("3")), None);
    assert_eq!(db.get(&text("a")), Some(text("3")));
}

#[test]
fn the_later_of_two_sets_decides() {
    let mut db = DbControl::new(None);
    db.set(text("k"), text("v1"));
    db.set(text("k"), text("v2"));
    assert_eq!(db.get(&text("k")), Some(text("v2")));
    let mut db = DbControl::new(None);
    db.set(text("k"), text("v2"));
    db.set(text("k"), text("v1"));
    assert_eq!(db.get(&text("k")), Some(text("v1")));
}

#[test]
fn restore_installs_pairs_in_order() {
    let db = DbControl::restore(Some(vec![
        (text("a"), text("1")),
        (text("b"), text("2")),
        (text("a"), text("3")),
    ]));
    assert_eq!(db.get(&text("a")), Some(text("3")));
    assert_eq!(db.get(&text("b")), Some(text("2")));
    let db = DbControl::restore(Some(vec![]));
    assert_eq!(db.get(&text("a")), None);
    let db = DbControl::restore(None);
    assert_eq!(db.get(&text("a")), None);
}

#[test]
fn a_snapshot_is_a_flat_json_object() {
    let mut db = DbControl::new(None);
    assert_eq!(db.backup(), Ok(b"{}".to_vec()));
    db.set(text("foo"), text("bar"));
    assert_eq!(db.backup(), Ok(b"{\"foo\":\"bar\"}".to_vec()));
    db.set(text("q\"uote"), text("line\nbreak"));
    let bytes = db.backup().unwrap();
    let read: HashMap<String, String> = serde_json::from_slice(&bytes).unwrap();
    let mut expected = HashMap::new();
    expected.insert(text("foo"), text("bar"));
    expected.insert(text("q\"uote"), text("line\nbreak"));
    assert_eq!(read, expected);
}

#[test]
fn a_table_starts_from_its_snapshot() {
    let db = DbControl::new(Some(b"{\"foo\":\"bar\",\"n\":\"1\"}"));
    assert_eq!(db.get(&text("foo")), Some(text("bar")));
    assert_eq!(db.get(&text("n")), Some(text("1")));
    assert_eq!(db.get(&text("bar")), None);
    let db = DbControl::new(Some(b" { \"a\" : \"\\u00e9\\n\" } \n"));
    assert_eq!(db.get(&text("a")), Some(text("\u{e9}\n")));
    let db = DbControl::new(Some(b"{}"));
    assert_eq!(db.get(&text("a")), None);
}

#[test]
fn a_repeated_member_counts_once_with_its_last_value() {
    let db = DbControl::new(Some(b"{\"a\":\"1\",\"a\":\"2\"}"));
    assert_eq!(db.get(&text("a")), Some(text("2")));
}

#[test]
fn anything_but_a_snapshot_gives_an_empty_table() {
    let not_snapshots: [&[u8]; 9] = [
        b"",
        b"not json",
        b"{\"a\":\"1\"",
        b"{\"a\":1}",
        b"{\"a\":null}",
        b"[\"a\",\"1\"]",
        b"\"a\"",
        b"{\"a\":\"1\"} trailing",
        b"{\"a\":\"\xff\"}",
    ];
    for bytes in not_snapshots {
        let mut db = DbControl::new(Some(bytes));
        assert_eq!(db.get(&text("a")), None);
        assert_eq!(db.set(text("a"), text("x")), None);
    }
}

#[test]
fn a_snapshot_gives_its_table_back() {
    let mut db = DbControl::new(None);
    let mut pairs = Vec::new();
    for i in 0..200u32 {
        let key = format!("key-{}-{}", i, "\u{4e16}".repeat((i % 3) as usize));
        let value = match i % 5 {
            0 => String::new(),
            1 => format!("plain {}", i),
            2 => format!("quote \" backslash \\ slash / {}", i),
            3 => format!("control \u{0}\u{1}\t\r\n\u{7f} {}", i),
            _ => format!("wide \u{e9}\u{1f600}\u{2028} {}", i),
        };
        db.set(key.clone(), value.clone());
        pairs.push((key, value));
    }
    db.set(text(""), text("empty key"));
    pairs.push((text(""), text("empty key")));
    db.del(&text("key-7-\u{4e16}"));
    pairs.retain(|(k, _)| k != "key-7-\u{4e16}");

    let bytes = db.backup().unwrap();
    let fresh = DbControl::new(Some(&bytes));
    for (k, v) in &pairs {
        assert_eq!(fresh.get(k), Some(v.clone()));
    }
    assert_eq!(fresh.get(&text("key-7-\u{4e16}")), None);
    assert_eq!(fresh.get(&text("never set")), None);

    // taking the snapshot left the table as it was
    for (k, v) in &pairs {
        assert_eq!(db.get(k), Some(v.clone()));
    }
    // and the snapshot of the fresh table describes the same table
    let again: HashMap<String, String> =
        serde_json::from_slice(&fresh.backup().unwrap()).unwrap();
    let first: HashMap<String, String> = serde_json::from_slice(&bytes).unwrap();
    assert_eq!(again, first);
    assert_eq!(first.len(), pairs.len());
}

#[test]
fn backup_reports_no_error_on_any_table() {
    let mut db = DbControl::new(None);
    for i in 0..50u32 {
        db.set(format!("{}", i), format!("{}", i * i));
        let r: Result<Vec<u8>, KvsError> = db.backup();
        assert!(r.is_ok());
    }
}

#[test]
fn a_snapshot_is_confirmed_only_by_the_same_table() {
    let mut db = DbControl::new(None);
    db.set(text("a"), text("1"));
    db.set(text("b"), text("2"));
    let bytes = b"any bytes".to_vec();
    let same = vec![(text("b"), text("2")), (text("a"), text("1"))];
    assert_eq!(db.confirm(bytes.clone(), Some(same)), Ok(bytes.clone()));
    let doubled = vec![
        (text("a"), text("0")),
        (text("b"), text("2")),
        (text("a"), text("1")),
    ];
    assert_eq!(db.confirm(bytes.clone(), Some(doubled)), Ok(bytes.clone()));
    let other_value = vec![(text("a"), text("1")), (text("b"), text("3"))];
    assert_eq!(
        db.confirm(bytes.clone(), Some(other_value)),
        Err(KvsError::Persistence)
    );
    let fewer = vec![(text("a"), text("1"))];
    assert_eq!(
        db.confirm(bytes.clone(), Some(fewer)),
        Err(KvsError::Persistence)
    );
    let more = vec![
        (text("a"), text("1")),
        (text("b"), text("2")),
        (text("c"), text("3")),
    ];
    assert_eq!(
        db.confirm(bytes.clone(), Some(more)),
        Err(KvsError::Persistence)
    );
    assert_eq!(db.confirm(bytes.clone(), None), Err(KvsError::Persistence));
    let empty = DbControl::new(None);
    assert_eq!(empty.confirm(bytes.clone(), Some(vec![])), Ok(bytes));
}
