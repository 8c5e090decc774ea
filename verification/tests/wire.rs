use proxy_programs::wire::Failure;

fn words(failure: Failure) -> String {
    failure.message().unwrap()
}

#[test]
fn words_of_the_failures() {
    let text = || "T".to_string();
    assert_eq!(
        words(Failure::Refused(text())),
        "called `Result::unwrap()` on an `Err` value: T"
    );
    assert_eq!(words(Failure::ResponseTaken), "response already taken: ()");
    assert_eq!(words(Failure::ResponseUnavailable), "incoming response available");
    assert_eq!(
        words(Failure::NoContentType),
        "index out of bounds: the len is 0 but the index is 0"
    );
    assert_eq!(words(Failure::NoBody(text())), "incoming response has no body stream: T");
    assert_eq!(words(Failure::NoRoom), "Unable to write a single chunk");
    assert_eq!(words(Failure::ClosedEarly), "input stream finished before output stream");
    assert_eq!(words(Failure::ReadFailed(text())), "input_stream read failed: T");
    assert!(words(Failure::NotClosed).starts_with("assertion failed: matches!("));
    assert_eq!(
        words(Failure::BodyMismatch { expected: 1048576, actual: 0 }),
        "body content mismatch (expected length 1048576; actual length 0)"
    );
    assert_eq!(words(Failure::EmptyReport), "assertion failed: received.len() > 0");
    assert_eq!(
        words(Failure::NoSeparator(text())),
        "expected string of form `<url>: <sha-256>`; got T"
    );
    assert_eq!(
        words(Failure::NoPrefix { server: "S".to_string(), url: text() }),
        "expected string with prefix S; got T"
    );
    assert_eq!(words(Failure::UnknownPath(text())), "unexpected path: T");
    assert_eq!(words(Failure::Misplaced), "the reply does not belong to the call");
}

#[test]
fn comparisons_have_no_words() {
    assert_eq!(Failure::Status(404).message(), None);
    assert_eq!(Failure::ContentType(vec![]).message(), None);
    assert_eq!(Failure::Greeting(vec![]).message(), None);
    let hash = Failure::Hash { found: String::new(), wanted: String::new() };
    assert_eq!(hash.message(), None);
}
