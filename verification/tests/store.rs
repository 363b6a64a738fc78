use russ::codec::{parse_records, serialize_records};
use russ::errors::StoreError;
use russ::store::{interpret_lock_result, Channel, RecordSet};

fn channel(title: &str) -> Channel {
    Channel { title: String::from(title) }
}

fn titles_sorted(rs: &RecordSet) -> Vec<String> {
    let mut titles: Vec<String> = rs.get_channels().into_iter().map(|c| c.title).collect();
    titles.sort();
    titles
}

#[test]
fn test_persist_channel() {
    let mut database = RecordSet::new();
    database.upsert(
        String::from("https://example.com/feed"),
        channel("Test Channel"),
    );

    // Reload from the serialized form, as a fresh process would, then add a
    // second source.
    let saved = serialize_records(&database);
    let mut database = parse_records(saved.as_str()).expect("reloading database");
    database.upsert(
        String::from("https://example.com/feed2"),
        channel("Test Channel 2"),
    );

    let channels = database.get_channels();
    assert_eq!(2, channels.len());
    let sorted_titles = titles_sorted(&database);
    assert_eq!("Test Channel", sorted_titles.first().unwrap());
}

#[test]
fn test_persist_channel_replaces_existing() {
    let mut database = RecordSet::new();
    for i in 1..=2 {
        database.upsert(
            String::from("https://example.com/feed"),
            channel(&format!("Test Channel {}", i)),
        );
    }

    let channels = database.get_channels();
    assert_eq!(1, channels.len());
    assert_eq!("Test Channel 2", channels.first().unwrap().title);
}

#[test]
fn upsert_keeps_other_sources() {
    let mut rs = RecordSet::new();
    rs.upsert(String::from("a"), channel("one"));
    rs.upsert(String::from("b"), channel("two"));
    rs.upsert(String::from("a"), channel("three"));
    assert_eq!(2, rs.len());
    let titles = titles_sorted(&rs);
    assert_eq!(vec![String::from("three"), String::from("two")], titles);
}

#[test]
fn empty_record_set_lists_nothing() {
    let rs = RecordSet::new();
    assert_eq!(0, rs.len());
    assert!(rs.get_channels().is_empty());
}

#[test]
fn lock_acquired_opens_the_store() {
    assert!(interpret_lock_result(Ok(true)).is_ok());
}

#[test]
fn lock_held_elsewhere_is_a_lock_error() {
    match interpret_lock_result(Ok(false)) {
        Err(StoreError::Lock { detail }) => {
            assert_eq!(
                "unable to acquire the store's write lock: is another process already running?",
                detail
            );
        }
        _ => panic!("expected a lock error"),
    }
}

#[test]
fn lock_failure_is_an_io_error() {
    match interpret_lock_result(Err(String::from("no such directory"))) {
        Err(StoreError::Io { detail }) => assert_eq!("no such directory", detail),
        _ => panic!("expected an I/O error"),
    }
}
