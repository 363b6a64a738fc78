use russ::errors::StoreError;
use russ::serve::channels_response;
use russ::store::Channel;

#[test]
fn a_store_answer_becomes_the_response_body() {
    let channels = vec![
        Channel { title: String::from("NASA Breaking News") },
        Channel { title: String::from("Apology Line") },
    ];
    let body = channels_response(Ok(channels)).expect("a body");
    assert_eq!(
        "{\"channels\":[{\"title\":\"NASA Breaking News\"},{\"title\":\"Apology Line\"}]}",
        body
    );
}

#[test]
fn no_documents_yet_is_an_empty_list() {
    let body = channels_response(Ok(Vec::new())).expect("a body");
    assert_eq!("{\"channels\":[]}", body);
}

#[test]
fn titles_are_escaped_in_the_response() {
    let channels = vec![Channel { title: String::from("a \"quoted\" \\ title") }];
    let body = channels_response(Ok(channels)).expect("a body");
    assert_eq!(
        "{\"channels\":[{\"title\":\"a \\\"quoted\\\" \\\\ title\"}]}",
        body
    );
}

#[test]
fn a_store_failure_becomes_a_server_side_failure() {
    let failure = StoreError::Io { detail: String::from("short read") };
    let msg = channels_response(Err(failure)).expect_err("a failure");
    assert_eq!("getting channels: store I/O failure: short read", msg);
}
