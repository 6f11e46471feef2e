use waitstore::backend::MemBackend;

#[test]
fn round_trip_returns_value_written() {
    let mut backend = MemBackend::open();
    backend.upsert("alpha".to_string(), vec![1, 2, 3]).unwrap();
    assert_eq!(backend.lookup("alpha").unwrap(), Some(vec![1, 2, 3]));
}

#[test]
fn round_trip_empty_value() {
    let mut backend = MemBackend::open();
    backend.upsert("alpha".to_string(), Vec::new()).unwrap();
    assert_eq!(backend.lookup("alpha").unwrap(), Some(Vec::new()));
}

#[test]
fn round_trip_empty_key() {
    let mut backend = MemBackend::open();
    backend.upsert(String::new(), vec![9]).unwrap();
    assert_eq!(backend.lookup("").unwrap(), Some(vec![9]));
}

#[test]
fn overwrite_returns_second_value() {
    let mut backend = MemBackend::open();
    backend.upsert("alpha".to_string(), vec![1]).unwrap();
    backend.upsert("alpha".to_string(), vec![2]).unwrap();
    assert_eq!(backend.lookup("alpha").unwrap(), Some(vec![2]));
}

#[test]
fn absent_key_reads_none() {
    let backend = MemBackend::open();
    assert_eq!(backend.lookup("never-written").unwrap(), None);
}

#[test]
fn write_does_not_disturb_other_key() {
    let mut backend = MemBackend::open();
    backend.upsert("alpha".to_string(), vec![1]).unwrap();
    backend.upsert("beta".to_string(), vec![2]).unwrap();
    assert_eq!(backend.lookup("alpha").unwrap(), Some(vec![1]));
    assert_eq!(backend.lookup("gamma").unwrap(), None);
}

#[test]
fn last_write_wins_over_many_writes() {
    let mut backend = MemBackend::open();
    let mut i: u8 = 0;
    while i < 10 {
        backend.upsert("alpha".to_string(), vec![i]).unwrap();
        i += 1;
    }
    assert_eq!(backend.lookup("alpha").unwrap(), Some(vec![9]));
}
