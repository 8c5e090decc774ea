use proxy_programs::exchange::Exchange;
use proxy_programs::handler::{check_greeting, greeting, handler_plan, handler_step, proxy_handler};
use proxy_programs::wire::{Call, Failure, Header, Next, Reply};

/// The replies of a host that all goes well with, up to the first read.
fn good() -> Vec<Reply> {
    let mut replies: Vec<Reply> = (0..8).map(|_| Reply::Done).collect();
    replies.push(Reply::Done); // sent
    replies.push(Reply::Done); // the response is there
    replies.push(Reply::Done); // future given back
    replies.push(Reply::Status(200));
    replies.push(Reply::Done); // headers taken
    replies.push(Reply::Done); // headers given back
    replies.push(Reply::Done); // body taken
    replies.push(Reply::Done); // response given back
    replies.push(Reply::Done); // stream taken
    replies.push(Reply::Done); // stream subscribed to
    replies
}

#[test]
fn calls_of_the_handler() {
    let mut replies = Vec::new();
    let mut calls = Vec::new();
    for reply in good() {
        match proxy_handler("localhost:1", &replies) {
            Next::Call(call) => calls.push(call),
            other => panic!("{other:?}"),
        }
        replies.push(reply);
    }
    assert_eq!(
        calls,
        vec![
            Call::NewHeaders,
            Call::AppendHeader(Header {
                name: "custom-forbidden-header".to_string(),
                value: b"yes".to_vec()
            }),
            Call::NewRequest,
            Call::SetSchemeHttp,
            Call::SetAuthority("localhost:1".to_string()),
            Call::SetPath("/test-path".to_string()),
            Call::OpenBody,
            Call::FinishBody,
            Call::Send,
            Call::PollResponse,
            Call::DropFuture,
            Call::ReadStatus,
            Call::OpenHeaders,
            Call::DropHeaders,
            Call::ConsumeResponse,
            Call::DropResponse,
            Call::OpenInput,
            Call::SubscribeInput,
        ]
    );
    // The one subscription serves every read.
    for _ in 0..2 {
        assert_eq!(
            proxy_handler("localhost:1", &replies),
            Next::Call(Call::AwaitSubscription)
        );
        replies.push(Reply::Done);
        assert_eq!(
            proxy_handler("localhost:1", &replies),
            Next::Call(Call::Read(1024 * 1024))
        );
        replies.push(Reply::Bytes(vec![1]));
    }
}

#[test]
fn greeting_in_pieces_passes() {
    let mut replies = good();
    for piece in ["hello, ", "", "world!"] {
        replies.push(Reply::Done);
        replies.push(Reply::Bytes(piece.as_bytes().to_vec()));
    }
    replies.push(Reply::Done);
    replies.push(Reply::Closed);
    assert_eq!(proxy_handler("localhost:1", &replies), Next::Passed);
}

/// What each step says to these replies.
fn steps(replies: &[Reply]) -> Vec<Next> {
    let (mut exchange, first) = Exchange::open(handler_plan("localhost:1"));
    let mut said = vec![first];
    for reply in replies {
        said.push(handler_step(&mut exchange, reply));
    }
    said
}

#[test]
fn steps_say_what_the_handler_says() {
    for (text, end) in [
        ("hello, world!", Next::Passed),
        ("hello", Next::Failed(Failure::Greeting(b"hello".to_vec()))),
    ] {
        let mut replies = good();
        replies.push(Reply::Done);
        replies.push(Reply::Bytes(text.as_bytes().to_vec()));
        replies.push(Reply::Done);
        replies.push(Reply::Closed);
        let said = steps(&replies);
        assert_eq!(said.last(), Some(&end));
        let mut heard = Vec::new();
        assert_eq!(proxy_handler("localhost:1", &heard), said[0]);
        for (i, reply) in replies.into_iter().enumerate() {
            heard.push(reply);
            assert_eq!(proxy_handler("localhost:1", &heard), said[i + 1]);
        }
    }
}

#[test]
fn other_greeting_fails() {
    let mut replies = good();
    replies.push(Reply::Done);
    replies.push(Reply::Bytes(b"hello".to_vec()));
    replies.push(Reply::Done);
    replies.push(Reply::Closed);
    let failure = Failure::Greeting(b"hello".to_vec());
    assert_eq!(failure.message(), None);
    assert_eq!(proxy_handler("localhost:1", &replies), Next::Failed(failure));
}

#[test]
fn refused_path_is_printed_and_passed_over() {
    let mut replies: Vec<Reply> = (0..5).map(|_| Reply::Done).collect();
    replies.push(Reply::Refused("()".to_string()));
    assert_eq!(
        proxy_handler("localhost:1", &replies),
        Next::Call(Call::Print("()".to_string()))
    );
    replies.push(Reply::Done);
    assert_eq!(proxy_handler("localhost:1", &replies), Next::Call(Call::OpenBody));
}

#[test]
fn other_refusals_are_not() {
    for i in [0, 1, 2, 3, 4, 6, 7] {
        let mut replies: Vec<Reply> = (0..i).map(|_| Reply::Done).collect();
        replies.push(Reply::Refused("no".to_string()));
        assert_eq!(
            proxy_handler("localhost:1", &replies),
            Next::Failed(Failure::Refused("no".to_string()))
        );
    }
}

#[test]
fn the_greeting() {
    assert_eq!(greeting(), b"hello, world!");
    assert_eq!(check_greeting(&b"hello, world!".to_vec()), Ok(()));
    assert_eq!(check_greeting(&vec![]), Err(Failure::Greeting(vec![])));
}
