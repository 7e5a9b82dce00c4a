use mail_sink::address::AddressSet;
use mail_sink::smtp::mail::Mail;
use mail_sink::snowflake::EPOCH;
use mail_sink::store::{
    decode_mail, is_expired, reported_size, sort_by_recency, Store, StoreError, StoredMail,
};

fn temp_db() -> sled::Db {
    sled::Config::new().temporary(true).open().unwrap()
}

fn set(addresses: &[&str]) -> AddressSet {
    AddressSet::from_vec(addresses.iter().map(|a| a.to_string()).collect())
}

fn mail(id: u128, from: &[&str], to: &[&str], data: &str) -> Mail {
    Mail { from: set(from), to: set(to), data: data.to_string(), id }
}

fn id_at(ms_after_epoch: u128, sequence: u128) -> u128 {
    (ms_after_epoch << 12) | sequence
}

const TEXT: &str = "Subject: greetings\r\n\r\nA body that is long enough.\r\n";

#[test]
fn stored_record_is_read_back() {
    let mut store = Store::new(temp_db());
    let sent = mail(id_at(10, 0), &["a@x.com", "b@x.com"], &["c@y.com"], TEXT);
    store.insert(&sent).unwrap();
    let found = store.get(sent.id).unwrap().unwrap();
    assert_eq!(found.id, sent.id);
    assert_eq!(found.data, sent.data);
    assert_eq!(found.from.as_vec(), sent.from.as_vec());
    assert_eq!(found.to.as_vec(), sent.to.as_vec());
    assert!(store.get(sent.id + 1).unwrap().is_none());
    assert_eq!(store.len().unwrap(), 1);
    assert!(store.contains(sent.id).unwrap());
    assert!(!store.contains(0).unwrap());
}

#[test]
fn record_goes_under_the_little_endian_bytes_of_its_identifier() {
    let db = temp_db();
    let mut store = Store::new(db.clone());
    let sent = mail(0x0102_0304, &["a@x.com"], &["c@y.com"], TEXT);
    store.insert(&sent).unwrap();
    let key = 0x0102_0304u128.to_le_bytes();
    assert_eq!(key[0], 4);
    let value = db.get(key).unwrap().unwrap();
    let expected = bincode::serialize(&(
        vec!["a@x.com".to_string()],
        vec!["c@y.com".to_string()],
        TEXT.to_string(),
        0x0102_0304u128,
    ))
    .unwrap();
    assert_eq!(value.to_vec(), expected);
    assert!(db.get(0x0102_0304u128.to_be_bytes()).unwrap().is_none());
}

#[test]
fn insert_replaces_what_was_under_the_identifier() {
    let mut store = Store::new(temp_db());
    store.insert(&mail(5, &["a@x.com"], &["b@y.com"], "first")).unwrap();
    store.insert(&mail(5, &["c@x.com"], &["d@y.com"], "second")).unwrap();
    store.insert(&mail(6, &["e@x.com"], &["f@y.com"], "other")).unwrap();
    assert_eq!(store.len().unwrap(), 2);
    assert_eq!(store.get(5).unwrap().unwrap().data, "second");
    assert_eq!(store.get(6).unwrap().unwrap().data, "other");
}

#[test]
fn remove_and_clear() {
    let mut store = Store::new(temp_db());
    for id in 1..=4u128 {
        store.insert(&mail(id, &["a@x.com"], &["b@y.com"], TEXT)).unwrap();
    }
    assert!(store.remove(2).unwrap());
    assert!(!store.remove(2).unwrap());
    assert!(!store.remove(99).unwrap());
    assert_eq!(store.len().unwrap(), 3);
    assert!(store.get(2).unwrap().is_none());
    assert!(store.get(3).unwrap().is_some());
    store.clear().unwrap();
    assert_eq!(store.len().unwrap(), 0);
    assert!(store.get(3).unwrap().is_none());
    assert!(store.scan_reverse().unwrap().is_empty());
}

#[test]
fn value_that_is_no_record_is_reported() {
    let db = temp_db();
    let mut store = Store::new(db.clone());
    store.insert(&mail(1, &["a@x.com"], &["b@y.com"], TEXT)).unwrap();
    db.insert(7u128.to_le_bytes(), vec![1u8, 2, 3]).unwrap();
    assert!(matches!(store.get(7), Err(StoreError::Decode)));
    assert!(matches!(store.scan_reverse(), Err(StoreError::Decode)));
    assert!(matches!(store.list_all(), Err(StoreError::Decode)));
    assert!(matches!(store.sweep(u128::MAX, 0), Err(StoreError::Decode)));
    assert_eq!(store.len().unwrap(), 2);
    assert!(store.get(1).unwrap().is_some());
}

#[test]
fn bytes_that_are_no_record_decode_to_nothing() {
    assert!(decode_mail(&[]).is_none());
    assert!(decode_mail(&[0u8; 15]).is_none());
    let bytes = bincode::serialize(&(
        vec!["a@x.com".to_string(), "a@x.com".to_string(), "b@x.com".to_string()],
        Vec::<String>::new(),
        "text".to_string(),
        9u128,
    ))
    .unwrap();
    let decoded = decode_mail(&bytes).unwrap();
    assert_eq!(decoded.from.as_vec(), &vec!["a@x.com".to_string(), "b@x.com".to_string()]);
    assert!(decoded.to.is_empty());
    assert_eq!(decoded.data, "text");
    assert_eq!(decoded.id, 9);
}

#[test]
fn scan_gives_the_most_recent_first() {
    let mut store = Store::new(temp_db());
    let ids = [id_at(1, 0), id_at(1, 1), id_at(255, 0), id_at(256, 0), id_at(257, 5), id_at(70_000, 0), 3, 255, 256];
    for id in ids {
        store.insert(&mail(id, &["a@x.com"], &["b@y.com"], TEXT)).unwrap();
    }
    let listed: Vec<u128> = store.scan_reverse().unwrap().iter().map(|s| s.mail.id).collect();
    let mut expected = ids.to_vec();
    expected.sort();
    expected.reverse();
    assert_eq!(listed, expected);
    for stored in store.scan_reverse().unwrap() {
        assert_eq!(stored.key, stored.mail.id.to_le_bytes().to_vec());
    }
    let mut unordered: Vec<u128> = store.list_all().unwrap().iter().map(|s| s.mail.id).collect();
    unordered.sort();
    unordered.reverse();
    assert_eq!(unordered, expected);
}

#[test]
fn sorting_orders_by_identifier() {
    let list: Vec<StoredMail> = [5u128, 1, 9, 5, 7, 0]
        .iter()
        .enumerate()
        .map(|(n, id)| StoredMail { key: vec![n as u8], mail: mail(*id, &[], &[], "") })
        .collect();
    let sorted = sort_by_recency(list);
    let ids: Vec<u128> = sorted.iter().map(|s| s.mail.id).collect();
    assert_eq!(ids, vec![9, 7, 5, 5, 1, 0]);
    let mut keys: Vec<u8> = sorted.iter().map(|s| s.key[0]).collect();
    keys.sort();
    assert_eq!(keys, vec![0, 1, 2, 3, 4, 5]);
    assert!(sort_by_recency(Vec::new()).is_empty());
}

#[test]
fn only_records_worth_storing_are_persisted() {
    let mut store = Store::new(temp_db());
    let long = "123456789012345678901";
    let short = "12345678901234567890";
    assert_eq!(store.persist(&mail(1, &["a@x.com"], &["b@y.com"], long)).unwrap(), true);
    assert_eq!(store.persist(&mail(2, &["a@x.com"], &["b@y.com"], short)).unwrap(), false);
    assert_eq!(store.persist(&mail(3, &[], &["b@y.com"], long)).unwrap(), false);
    assert_eq!(store.persist(&mail(4, &["a@x.com"], &[], long)).unwrap(), false);
    assert_eq!(store.persist(&mail(5, &[], &[], "")).unwrap(), false);
    assert_eq!(store.len().unwrap(), 1);
    assert!(store.get(1).unwrap().is_some());
    assert!(store.get(2).unwrap().is_none());
}

#[test]
fn age_is_measured_against_the_lifetime() {
    let made = EPOCH + 1_000_000;
    let id = id_at(1_000_000, 3);
    assert!(!is_expired(id, made, 1));
    assert!(!is_expired(id, made + 60_000, 1));
    assert!(is_expired(id, made + 60_001, 1));
    assert!(is_expired(id, made + 120_000, 1));
    assert!(!is_expired(id, made + 30_000, 1));
    assert!(!is_expired(id, made - 5, 1));
    assert!(!is_expired(id, 0, 0));
    assert!(!is_expired(id, made, 0));
    assert!(is_expired(id, made + 1, 0));
    assert!(!is_expired(id, made + 65_535 * 60_000, 65_535));
    assert!(is_expired(id, made + 65_535 * 60_000 + 1, 65_535));
    assert!(is_expired(0, u128::MAX, 65_535));
}

#[test]
fn sweep_removes_what_has_outlived_the_lifetime() {
    let mut store = Store::new(temp_db());
    let now_offset = 10_000_000u128;
    let now = EPOCH + now_offset;
    let old = id_at(now_offset - 120_000, 0);
    let young = id_at(now_offset - 30_000, 0);
    let edge = id_at(now_offset - 60_000, 0);
    let past_edge = id_at(now_offset - 60_001, 0);
    let future = id_at(now_offset + 500, 0);
    for id in [old, young, edge, past_edge, future] {
        store.insert(&mail(id, &["a@x.com"], &["b@y.com"], TEXT)).unwrap();
    }
    assert_eq!(store.sweep(now, 1).unwrap(), 2);
    assert!(store.get(old).unwrap().is_none());
    assert!(store.get(past_edge).unwrap().is_none());
    assert!(store.get(young).unwrap().is_some());
    assert!(store.get(edge).unwrap().is_some());
    assert!(store.get(future).unwrap().is_some());
    assert_eq!(store.len().unwrap(), 3);
    assert_eq!(store.sweep(now, 1).unwrap(), 0);
    assert_eq!(store.len().unwrap(), 3);
    assert_eq!(store.sweep(now + 10_000_000, 1).unwrap(), 3);
    assert_eq!(store.len().unwrap(), 0);
    assert_eq!(store.sweep(now, 1).unwrap(), 0);
}

#[test]
fn sweep_goes_by_the_identifier_in_the_record() {
    let db = temp_db();
    let mut store = Store::new(db.clone());
    let now = EPOCH + 1_000_000;
    let value = bincode::serialize(&(
        vec!["a@x.com".to_string()],
        vec!["b@y.com".to_string()],
        TEXT.to_string(),
        id_at(10, 0),
    ))
    .unwrap();
    db.insert(b"some other key", value).unwrap();
    store.insert(&mail(id_at(990_000, 0), &["a@x.com"], &["b@y.com"], TEXT)).unwrap();
    assert_eq!(store.sweep(now, 1).unwrap(), 1);
    assert!(db.get(b"some other key").unwrap().is_none());
    assert_eq!(store.len().unwrap(), 1);
}

#[test]
fn size_on_disk_is_reported() {
    let mut store = Store::new(temp_db());
    store.insert(&mail(1, &["a@x.com"], &["b@y.com"], TEXT)).unwrap();
    assert!(store.size_on_disk().is_ok());
}

#[test]
fn reported_size_passes_on_what_the_database_reported() {
    assert!(matches!(reported_size(Ok(4096)), Ok(4096)));
    assert!(matches!(reported_size(Ok(0)), Ok(0)));
    assert!(matches!(
        reported_size(Err(sled::Error::Unsupported("no size".to_string()))),
        Err(StoreError::Storage(sled::Error::Unsupported(_)))
    ));
}
