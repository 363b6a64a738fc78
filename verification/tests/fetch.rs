use russ::errors::FetchError;
use russ::fetch::{evaluate_fetch, evaluate_round, route_outcomes, FetchOutcome};
use russ::store::RecordSet;

fn nasa_feed() -> Vec<u8> {
    r#"
        <?xml version="1.0" encoding="utf-8" ?>
        <rss version="2.0" xml:base="http://www.nasa.gov/" xmlns:atom="http://www.w3.org/2005/Atom" xmlns:dc="http://purl.org/dc/elements/1.1/" xmlns:itunes="http://www.itunes.com/dtds/podcast-1.0.dtd" xmlns:media="http://search.yahoo.com/mrss/">
            <channel>
                <title>NASA Breaking News</title>
                <description>A RSS news feed containing the latest NASA news articles and press releases.</description>
                <link>http://www.nasa.gov/</link>
                <atom:link rel="self" href="http://www.nasa.gov/rss/dyn/breaking_news.rss" />
                <language>en-us</language>
                <docs>http://blogs.harvard.edu/tech/rss</docs>
                <item>
                    <title>NC, Wisconsin, NY Students to Hear from Astronauts on Space Station</title>
                    <link>http://www.nasa.gov/press-release/nc-wisconsin-ny-students-to-hear-from-astronauts-on-space-station</link>
                    <description>Students from three states will hear from astronauts from three different countries aboard the International Space Station next week.</description>
                    <enclosure url="http://www.nasa.gov/sites/default/files/styles/1x1_cardfeed/public/thumbnails/image/iss065e084898_0.jpg?itok=HzmCp_DJ" length="6451240" type="image/jpeg" />
                    <guid isPermaLink="false">http://www.nasa.gov/press-release/nc-wisconsin-ny-students-to-hear-from-astronauts-on-space-station</guid>
                    <pubDate>Fri, 09 Jul 2021 17:08 EDT</pubDate>
                    <source url="http://www.nasa.gov/rss/dyn/breaking_news.rss">NASA Breaking News</source>
                    <dc:identifier>472446</dc:identifier>
                </item>
            </channel>
        </rss>
    "#
    .as_bytes()
    .to_vec()
}

/// One round over a good and a bad source, as the polling loop would run it:
/// the good feed's document reaches the success sink, the bad source's
/// failure reaches the failure sink, and the store afterwards holds exactly
/// the one fetched document.
#[test]
fn test_fetch_all() {
    let results: Vec<(String, Result<(u16, Vec<u8>), String>)> = vec![
        (String::from("http://ok/feed"), Ok((200, nasa_feed()))),
        (String::from("http://bad/feed"), Ok((500, Vec::new()))),
    ];
    let outcomes = evaluate_round(results);
    assert_eq!(2, outcomes.len());
    let (successes, failures) = route_outcomes(outcomes);

    assert_eq!(1, successes.len());
    let (source, channel) = successes.first().unwrap();
    assert_eq!("http://ok/feed", source);
    assert_eq!("NASA Breaking News", channel.title);

    assert_eq!(1, failures.len());
    let (source, error) = failures.first().unwrap();
    assert_eq!("http://bad/feed", source);
    assert!(matches!(error, FetchError::Status { code: 500 }));

    let mut store = RecordSet::new();
    for (source, channel) in successes {
        store.upsert(source, channel);
    }
    assert_eq!(1, store.len());
    assert_eq!("NASA Breaking News", store.get_channels().first().unwrap().title);
}

#[test]
fn a_transport_failure_is_reported_for_its_source() {
    let outcome = evaluate_fetch(
        String::from("http://gone/feed"),
        Err(String::from("connection refused")),
    );
    match outcome {
        FetchOutcome::Failure { source, error: FetchError::Transport { detail } } => {
            assert_eq!("http://gone/feed", source);
            assert_eq!("connection refused", detail);
        }
        _ => panic!("expected a transport failure"),
    }
}

#[test]
fn an_unparseable_body_is_a_parse_failure() {
    let outcome = evaluate_fetch(String::from("http://empty/feed"), Ok((200, Vec::new())));
    match outcome {
        FetchOutcome::Failure { source, error: FetchError::Parse { detail } } => {
            assert_eq!("http://empty/feed", source);
            assert_eq!(
                "reached end of input without finding a complete channel",
                detail
            );
        }
        _ => panic!("expected a parse failure"),
    }
}

#[test]
fn a_body_without_a_complete_channel_is_an_ordinary_parse_failure() {
    let body = b"<?xml version=\"1.0\"?><rss version=\"2.0\"><channel>".to_vec();
    let outcome = evaluate_fetch(String::from("http://cut/feed"), Ok((200, body)));
    match outcome {
        FetchOutcome::Failure { error: FetchError::Parse { .. }, .. } => {}
        _ => panic!("expected a parse failure"),
    }
}

#[test]
fn a_successful_status_with_a_good_body_is_a_success() {
    let outcome = evaluate_fetch(String::from("http://ok/feed"), Ok((200, nasa_feed())));
    match outcome {
        FetchOutcome::Success { source, channel } => {
            assert_eq!("http://ok/feed", source);
            assert_eq!("NASA Breaking News", channel.title);
        }
        _ => panic!("expected a success"),
    }
}

#[test]
fn error_messages_name_their_cause() {
    let transport = FetchError::Transport { detail: String::from("connection refused") };
    assert_eq!("transport failure: connection refused", transport.message());
    let status = FetchError::Status { code: 500 };
    assert_eq!("unsuccessful HTTP status 500", status.message());
    let status = FetchError::Status { code: 404 };
    assert_eq!("unsuccessful HTTP status 404", status.message());
    let parse = FetchError::Parse { detail: String::from("bad feed") };
    assert_eq!("parse failure: bad feed", parse.message());
}
