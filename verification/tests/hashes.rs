use proxy_programs::exchange::Exchange;
use proxy_programs::hashes::{
    are_page_paths, do_wasi_http_hash_all, hash_all_against, hash_plan, hash_step, page_hashes,
    page_paths, pages,
};
use proxy_programs::report::{check_decoded, check_line, check_report, PageHash};
use proxy_programs::wire::{Call, Failure, Header, Next, Reply};

const REPORT: &str = "\
http://other:2/a: 0iXCPYm+cLe9Bgon1Oc2edDcA6GikSEQZgRBGkpK9yc
http://other:2/b: DEoP53vaa0BWaPDuCfB1jOlY4ipxUsngpAkoptzDmWQ
http://other:2/c: Wc1k2KFjuCOirnihrQhxWUhcEjTDTaZywYDvL9wdXHQ
http://other:2/d: edEGX2/HSqTqEF8yP/H6PhpYgpwDmcWlPHFBMJU+EgM
";

fn check(report: &str) -> Result<(), Failure> {
    check_report(&report.as_bytes().to_vec(), "other:2", &page_hashes())
}

fn list(paths: &[&str]) -> Vec<String> {
    paths.iter().map(|path| path.to_string()).collect()
}

/// The replies of a host that all goes well with and that gives this report.
fn replies(report: &[u8]) -> Vec<Reply> {
    let mut replies: Vec<Reply> = (0..13).map(|_| Reply::Done).collect();
    replies.push(Reply::Done);
    replies.push(Reply::NotReady);
    replies.push(Reply::Done);
    replies.push(Reply::Done);
    replies.push(Reply::Done);
    replies.push(Reply::Status(200));
    for _ in 0..6 {
        replies.push(Reply::Done);
    }
    for piece in report.chunks(100) {
        replies.push(Reply::Done);
        replies.push(Reply::Bytes(piece.to_vec()));
    }
    replies.push(Reply::Done);
    replies.push(Reply::Closed);
    replies
}

#[test]
fn pages_and_their_hashes() {
    let found: Vec<(String, String)> =
        pages().into_iter().map(|page| (page.path, page.body)).collect();
    let expected = vec![
        ("/a".to_string(), "’Twas brillig, and the slithy toves".to_string()),
        ("/b".to_string(), "Did gyre and gimble in the wabe:".to_string()),
        ("/c".to_string(), "All mimsy were the borogoves,".to_string()),
        ("/d".to_string(), "And the mome raths outgrabe.".to_string()),
    ];
    assert_eq!(found, expected);
    let hashes: Vec<String> = page_hashes().into_iter().map(|page| page.hash).collect();
    assert_eq!(
        hashes,
        vec![
            "0iXCPYm+cLe9Bgon1Oc2edDcA6GikSEQZgRBGkpK9yc",
            "DEoP53vaa0BWaPDuCfB1jOlY4ipxUsngpAkoptzDmWQ",
            "Wc1k2KFjuCOirnihrQhxWUhcEjTDTaZywYDvL9wdXHQ",
            "edEGX2/HSqTqEF8yP/H6PhpYgpwDmcWlPHFBMJU+EgM",
        ]
    );
}

#[test]
fn script_of_the_hash_program() {
    let order = list(&["/c", "/a", "/d", "/b"]);
    let plan = hash_plan("one:1", "other:2", &order);
    let calls: Vec<Call> = plan.script.into_iter().map(|setup| setup.call).collect();
    let url = |value: &str| {
        Call::AppendHeader(Header {
            name: "url".to_string(),
            value: value.as_bytes().to_vec(),
        })
    };
    assert_eq!(
        calls,
        vec![
            Call::NewHeaders,
            url("http://other:2/c"),
            url("http://other:2/a"),
            url("http://other:2/d"),
            url("http://other:2/b"),
            Call::NewRequest,
            Call::SetSchemeHttp,
            Call::SetAuthority("one:1".to_string()),
            Call::SetPath("/hash-all".to_string()),
            Call::OpenBody,
            Call::OpenBodyStream,
            Call::DropBodyStream,
            Call::FinishBody,
        ]
    );
    assert_eq!(plan.upload, None);
    assert_eq!(plan.content_type, None);
}

#[test]
fn paths_of_the_pages() {
    assert_eq!(page_paths(), list(&["/a", "/b", "/c", "/d"]));
    assert!(are_page_paths(&page_paths()));
    assert!(are_page_paths(&list(&["/d", "/a", "/c", "/b"])));
    assert!(!are_page_paths(&list(&[])));
    assert!(!are_page_paths(&list(&["/a", "/b", "/c"])));
    assert!(!are_page_paths(&list(&["/a", "/b", "/c", "/c"])));
    assert!(!are_page_paths(&list(&["/a", "/b", "/c", "/e"])));
    assert!(!are_page_paths(&list(&["/a", "/b", "/c", "/d", "/a"])));
}

#[test]
fn request_asks_for_each_page_once() {
    let order = list(&["/b", "/d", "/a", "/c"]);
    let mut asked = Vec::new();
    let mut heard = Vec::new();
    loop {
        match do_wasi_http_hash_all("one:1", "other:2", &order, &heard) {
            Next::Call(Call::Send) => break,
            Next::Call(Call::AppendHeader(header)) => {
                assert_eq!(header.name, "url");
                asked.push(String::from_utf8(header.value).unwrap());
            }
            Next::Call(_) => {}
            other => panic!("{other:?}"),
        }
        heard.push(Reply::Done);
    }
    asked.sort();
    assert_eq!(
        asked,
        vec!["http://other:2/a", "http://other:2/b", "http://other:2/c", "http://other:2/d"]
    );
}

#[test]
fn steps_say_what_the_hash_program_says() {
    let wrong = Failure::UnknownPath("/e".to_string());
    for (report, end) in
        [(REPORT, Next::Passed), ("http://other:2/e: x\n", Next::Failed(wrong))]
    {
        let (mut exchange, mut said) =
            Exchange::open(hash_plan("one:1", "other:2", &page_paths()));
        let mut heard = Vec::new();
        for reply in replies(report.as_bytes()) {
            assert_eq!(
                do_wasi_http_hash_all("one:1", "other:2", &page_paths(), &heard),
                said
            );
            said = hash_step(&mut exchange, &reply, "other:2");
            heard.push(reply);
        }
        assert_eq!(said, end);
        assert_eq!(do_wasi_http_hash_all("one:1", "other:2", &page_paths(), &heard), said);
    }
}

#[test]
fn report_that_is_no_text() {
    for bytes in [vec![0xff, 0xfe], b"http://\xe2\x80".to_vec(), b"a\xe2\x28b".to_vec()] {
        let detail = format!("{:?}", std::str::from_utf8(&bytes).unwrap_err());
        let failure = Failure::Refused(detail.clone());
        assert_eq!(
            failure.message(),
            Some(format!("called `Result::unwrap()` on an `Err` value: {detail}"))
        );
        assert_eq!(check_report(&bytes, "other:2", &page_hashes()), Err(failure));
        assert_eq!(
            do_wasi_http_hash_all("one:1", "other:2", &page_paths(), &replies(&bytes)),
            Next::Failed(Failure::Refused(detail))
        );
    }
    assert_eq!(
        check_report(&vec![b'a', 0xff], "other:2", &page_hashes()),
        Err(Failure::Refused("Utf8Error { valid_up_to: 1, error_len: Some(1) }".to_string()))
    );
}

#[test]
fn decoded_report() {
    assert_eq!(check_decoded(Ok(REPORT), "other:2", &page_hashes()), Ok(()));
    assert_eq!(check_decoded(Ok(""), "other:2", &page_hashes()), Ok(()));
    assert_eq!(
        check_decoded(Err("why".to_string()), "other:2", &page_hashes()),
        Err(Failure::Refused("why".to_string()))
    );
}

#[test]
fn true_report_passes() {
    assert_eq!(check(REPORT), Ok(()));
    assert_eq!(
        do_wasi_http_hash_all("one:1", "other:2", &page_paths(), &replies(REPORT.as_bytes())),
        Next::Passed
    );
}

#[test]
fn order_and_number_of_lines_do_not_matter() {
    let mut backwards: Vec<&str> = REPORT.lines().rev().collect();
    backwards.push(backwards[0]);
    assert_eq!(check(&backwards.join("\n")), Ok(()));
    assert_eq!(check(&backwards.join("\r\n")), Ok(()));
    assert_eq!(check(backwards[1]), Ok(()));
}

#[test]
fn reports_that_fail() {
    assert_eq!(check(""), Err(Failure::EmptyReport));
    assert_eq!(check("\n"), Err(Failure::NoSeparator(String::new())));
    let line = "http://other:2/a 0iXC";
    assert_eq!(
        check(&format!("{REPORT}{line}")),
        Err(Failure::NoSeparator(line.to_string()))
    );
    assert_eq!(
        check("http://third:3/a: 0iXC"),
        Err(Failure::NoPrefix {
            server: "other:2".to_string(),
            url: "http://third:3/a".to_string()
        })
    );
    assert_eq!(
        check("http://other:2/e: 0iXC"),
        Err(Failure::UnknownPath("/e".to_string()))
    );
    assert_eq!(
        check("http://other:2/a: 0iXC"),
        Err(Failure::Hash {
            found: "0iXC".to_string(),
            wanted: "0iXCPYm+cLe9Bgon1Oc2edDcA6GikSEQZgRBGkpK9yc".to_string()
        })
    );
}

#[test]
fn first_wrong_line_counts() {
    assert_eq!(
        check("http://other:2/e: x\nnothing\n"),
        Err(Failure::UnknownPath("/e".to_string()))
    );
}

#[test]
fn failing_report_fails_the_program() {
    let report = "http://other:2/a: wrong\n";
    assert_eq!(
        do_wasi_http_hash_all("one:1", "other:2", &page_paths(), &replies(report.as_bytes())),
        Next::Failed(Failure::Hash {
            found: "wrong".to_string(),
            wanted: "0iXCPYm+cLe9Bgon1Oc2edDcA6GikSEQZgRBGkpK9yc".to_string()
        })
    );
}

#[test]
fn given_hashes_are_the_ones_checked() {
    let hashes = vec![PageHash { path: "/a".to_string(), hash: "x".to_string() }];
    assert_eq!(check_line("http://h/a: x", "h", &hashes), Ok(()));
    assert_eq!(
        check_line("http://h/b: x", "h", &hashes),
        Err(Failure::UnknownPath("/b".to_string()))
    );
    assert_eq!(
        hash_all_against("one:1", "h", &page_paths(), &replies(b"http://h/a: x"), &hashes),
        Next::Passed
    );
}

#[test]
fn server_name_that_holds_the_separator() {
    let hashes = vec![PageHash { path: "/a".to_string(), hash: "x".to_string() }];
    assert_eq!(
        check_line("http://h: i/a: x", "h: i", &hashes),
        Err(Failure::NoPrefix { server: "h: i".to_string(), url: "http://h".to_string() })
    );
}
