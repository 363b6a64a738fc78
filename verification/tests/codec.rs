use russ::codec::{parse_records, serialize_records};
use russ::store::{Channel, RecordSet};

fn set_of(entries: &[(&str, &str)]) -> RecordSet {
    let mut rs = RecordSet::new();
    for (source, title) in entries {
        rs.upsert(
            String::from(*source),
            Channel { title: String::from(*title) },
        );
    }
    rs
}

fn titles_sorted(rs: &RecordSet) -> Vec<String> {
    let mut titles: Vec<String> = rs.get_channels().into_iter().map(|c| c.title).collect();
    titles.sort();
    titles
}

#[test]
fn serializes_one_record_compactly() {
    let rs = set_of(&[("https://example.com/feed", "Test Channel")]);
    assert_eq!(
        "{\"channels\":{\"https://example.com/feed\":{\"title\":\"Test Channel\"}}}",
        serialize_records(&rs)
    );
}

#[test]
fn serializes_the_empty_record_set() {
    let rs = RecordSet::new();
    assert_eq!("{\"channels\":{}}", serialize_records(&rs));
}

#[test]
fn round_trip_preserves_records() {
    let rs = set_of(&[("a", "one"), ("b", "two"), ("c", "three")]);
    let reloaded = parse_records(serialize_records(&rs).as_str()).expect("reloading");
    assert_eq!(3, reloaded.len());
    assert_eq!(titles_sorted(&rs), titles_sorted(&reloaded));
}

#[test]
fn round_trip_is_independent_of_insertion_order() {
    let one = set_of(&[("a", "one"), ("b", "two")]);
    let other = set_of(&[("b", "two"), ("a", "one")]);
    let one_again = parse_records(serialize_records(&one).as_str()).expect("reloading");
    let other_again = parse_records(serialize_records(&other).as_str()).expect("reloading");
    assert_eq!(titles_sorted(&one), titles_sorted(&one_again));
    assert_eq!(titles_sorted(&other), titles_sorted(&other_again));
    assert_eq!(titles_sorted(&one_again), titles_sorted(&other_again));
}

#[test]
fn round_trip_escapes_quotes_and_backslashes() {
    let rs = set_of(&[
        ("https://example.com/\"quoted\"", "a \"title\" with \\ slashes \\\\"),
        ("plain", "{\"title\":\"}"),
    ]);
    let text = serialize_records(&rs);
    let reloaded = parse_records(text.as_str()).expect("reloading");
    assert_eq!(2, reloaded.len());
    assert_eq!(titles_sorted(&rs), titles_sorted(&reloaded));
}

#[test]
fn round_trip_of_the_empty_record_set() {
    let rs = RecordSet::new();
    let reloaded = parse_records(serialize_records(&rs).as_str()).expect("reloading");
    assert_eq!(0, reloaded.len());
}

#[test]
fn parse_rejects_malformed_documents() {
    assert!(parse_records("").is_none());
    assert!(parse_records("{}").is_none());
    assert!(parse_records("{\"channels\":{").is_none());
    assert!(parse_records("{\"channels\":{}} ").is_none());
    assert!(parse_records("{\"channels\":{\"a\":{\"title\":\"x\"}}").is_none());
    assert!(parse_records("{\"channels\":{\"a\":{\"name\":\"x\"}}}").is_none());
    assert!(parse_records("{\"channels\":{\"a\":{\"title\":\"x\"},}}").is_none());
}

#[test]
fn parse_lets_a_later_duplicate_source_win() {
    let text = "{\"channels\":{\"a\":{\"title\":\"old\"},\"a\":{\"title\":\"new\"}}}";
    let rs = parse_records(text).expect("parsing");
    assert_eq!(1, rs.len());
    assert_eq!("new", rs.get_channels().first().unwrap().title);
}
