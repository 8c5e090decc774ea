use proxy_programs::echo::{
    check_echo, content_type, do_wasi_http_echo, echo_plan, echo_requests, echo_step,
};
use proxy_programs::exchange::{Exchange, Plan};
use proxy_programs::payload::{body, CHUNK_LEN};
use proxy_programs::wire::{Call, Failure, Header, Next, Reply};

/// Runs a plan with a host, and gives the calls, the replies, what was received,
/// and how it ended.
fn drive(
    plan: Plan,
    mut host: impl FnMut(usize, &Call) -> Reply,
) -> (Vec<Call>, Vec<Reply>, Vec<u8>, Next) {
    let (mut exchange, mut next) = Exchange::open(plan);
    let mut calls = Vec::new();
    let mut replies = Vec::new();
    loop {
        match next {
            Next::Call(call) => {
                let reply = host(calls.len(), &call);
                next = exchange.step(&reply);
                calls.push(call);
                replies.push(reply);
            }
            end => return (calls, replies, exchange.received().clone(), end),
        }
    }
}

/// A server that gives back what it gets. It takes `room` bytes at a time before
/// the request is sent.
struct Echo {
    room: u64,
    held: Vec<u8>,
    sent: bool,
    finished: bool,
    polled: bool,
}

impl Echo {
    fn new(room: u64) -> Echo {
        Echo { room, held: Vec::new(), sent: false, finished: false, polled: false }
    }

    fn answer(&mut self, call: &Call) -> Reply {
        match call {
            Call::CheckWrite if self.sent => Reply::Budget(1 << 20),
            Call::CheckWrite => Reply::Budget(self.room),
            Call::Write(bytes) => {
                self.held.extend_from_slice(bytes);
                if !self.sent {
                    self.room -= bytes.len() as u64;
                }
                Reply::Done
            }
            Call::Send => {
                self.sent = true;
                Reply::Done
            }
            Call::FinishBody => {
                self.finished = true;
                Reply::Done
            }
            Call::PollResponse if !self.polled => {
                self.polled = true;
                Reply::NotReady
            }
            Call::ReadStatus => Reply::Status(200),
            Call::ReadHeader(name) => {
                assert_eq!(name, "content-type");
                Reply::Values(vec![content_type()])
            }
            Call::Read(limit) => {
                assert_eq!(*limit, 1024 * 1024);
                if self.held.is_empty() && self.finished {
                    Reply::Closed
                } else {
                    Reply::Bytes(std::mem::take(&mut self.held))
                }
            }
            _ => Reply::Done,
        }
    }
}

fn header(name: &str, value: &str) -> Header {
    Header { name: name.to_string(), value: value.as_bytes().to_vec() }
}

/// How the echo program ends, step by step, with a host that gives these replies.
fn end_of_steps(replies: &[Reply]) -> Next {
    let (mut exchange, mut next) = Exchange::open(echo_plan("localhost:1", "/echo", None));
    for reply in replies {
        assert!(matches!(next, Next::Call(_)));
        next = echo_step(&mut exchange, reply);
    }
    next
}

#[test]
fn steps_say_what_the_echo_says() {
    for whole in [true, false] {
        let mut echo = Echo::new(1 << 20);
        let (_, replies, _, end) = drive(echo_plan("localhost:1", "/echo", None), |_, call| {
            if let (Call::Send, false) = (call, whole) {
                echo.held.pop();
            }
            echo.answer(call)
        });
        assert_eq!(end, Next::Passed);
        let verdict = if whole {
            Next::Passed
        } else {
            Next::Failed(Failure::BodyMismatch { expected: 1048576, actual: 1048575 })
        };
        assert_eq!(end_of_steps(&replies), verdict);
        assert_eq!(do_wasi_http_echo("localhost:1", "/echo", None, &replies), verdict);
        let most = &replies[..replies.len() - 1];
        assert_eq!(end_of_steps(most), Next::Call(Call::Read(1024 * 1024)));
    }
}

#[test]
fn script_of_the_echo() {
    let mut echo = Echo::new(0);
    let (calls, _, _, _) = drive(echo_plan("localhost:1", "/echo", None), |_, c| echo.answer(c));
    let expected = vec![
        Call::HeadersFromList(vec![header("content-type", "application/octet-stream")]),
        Call::NewRequest,
        Call::SetMethodPost,
        Call::SetSchemeHttp,
        Call::SetAuthority("localhost:1".to_string()),
        Call::SetPath("/echo".to_string()),
        Call::OpenBody,
        Call::OpenBodyStream,
        Call::CheckWrite,
        Call::Send,
        Call::PollResponse,
        Call::AwaitResponse,
        Call::PollResponse,
        Call::DropFuture,
        Call::ReadStatus,
        Call::OpenHeaders,
        Call::ReadHeader("content-type".to_string()),
        Call::DropHeaders,
        Call::ConsumeResponse,
        Call::DropResponse,
        Call::OpenInput,
        Call::CheckWrite,
        Call::Write(body()[..CHUNK_LEN].to_vec()),
        Call::AwaitInput,
        Call::Read(1024 * 1024),
        Call::AwaitOutput,
        Call::CheckWrite,
    ];
    assert_eq!(calls[..expected.len()], expected[..]);
    let end = vec![
        Call::AwaitOutput,
        Call::DropBodyStream,
        Call::FinishBody,
        Call::AwaitInput,
        Call::Read(1024 * 1024),
        Call::Read(1024 * 1024),
    ];
    assert_eq!(calls[calls.len() - end.len()..], end[..]);
}

#[test]
fn url_header_comes_first() {
    match do_wasi_http_echo("s", "/double-echo", Some("http://t/echo"), &Vec::new()) {
        Next::Call(Call::HeadersFromList(headers)) => assert_eq!(
            headers,
            vec![
                header("url", "http://t/echo"),
                header("content-type", "application/octet-stream")
            ]
        ),
        other => panic!("{other:?}"),
    }
}

#[test]
fn echo_passes_whatever_room_there_is_at_first() {
    for room in [0, 1, CHUNK_LEN as u64, 5 * CHUNK_LEN as u64 + 1, 1 << 20, 1 << 30] {
        let mut echo = Echo::new(room);
        let (calls, replies, received, next) =
            drive(echo_plan("localhost:1", "/echo", None), |_, c| echo.answer(c));
        assert_eq!(next, Next::Passed);
        assert_eq!(received, body());
        assert_eq!(check_echo(&received), Ok(()));
        let mut written = Vec::new();
        for call in &calls {
            if let Call::Write(bytes) = call {
                assert!(bytes.len() <= CHUNK_LEN);
                written.extend_from_slice(bytes);
            }
        }
        assert_eq!(written, body());
        assert_eq!(calls.iter().filter(|c| **c == Call::Send).count(), 1);
        let reads = replies.iter().filter(|r| matches!(r, Reply::Bytes(_))).count();
        assert!(calls.len() <= 2 * 8 + 6 * written.len() + 2 * reads + 26);
        let early = calls.iter().position(|c| *c == Call::Send).unwrap();
        let chunks = calls[..early].iter().filter(|c| matches!(c, Call::Write(_))).count();
        assert_eq!(chunks as u64, std::cmp::min(64, room / CHUNK_LEN as u64));
        assert_eq!(do_wasi_http_echo("localhost:1", "/echo", None, &replies), Next::Passed);
    }
}

/// Gives `wrong` as the reply to the first call that `pick` picks, from call
/// number `from` on, and says how the echo ends.
fn spoiled(from: usize, pick: impl Fn(&Call) -> bool, wrong: Reply) -> Next {
    let mut echo = Echo::new(0);
    let mut wrong = Some(wrong);
    let (_, replies, _, end) = drive(echo_plan("s", "/echo", None), |i, call| {
        if i >= from && pick(call) {
            if let Some(reply) = wrong.take() {
                return reply;
            }
        }
        echo.answer(call)
    });
    assert_eq!(do_wasi_http_echo("s", "/echo", None, &replies), end);
    end
}

fn no() -> String {
    "no".to_string()
}

#[test]
fn each_setup_call_must_be_done() {
    for i in 0..8 {
        assert_eq!(
            spoiled(i, |_| true, Reply::Refused(no())),
            Next::Failed(Failure::Refused(no()))
        );
    }
}

#[test]
fn streams_that_fail() {
    let refused = Next::Failed(Failure::Refused(no()));
    assert_eq!(spoiled(0, |c| *c == Call::CheckWrite, Reply::Refused(no())), refused);
    assert_eq!(spoiled(12, |c| *c == Call::CheckWrite, Reply::Refused(no())), refused);
    assert_eq!(spoiled(0, |c| matches!(c, Call::Write(_)), Reply::Refused(no())), refused);
    assert_eq!(spoiled(0, |c| *c == Call::Send, Reply::Refused(no())), refused);
    assert_eq!(spoiled(0, |c| *c == Call::OpenInput, Reply::Refused(no())), refused);
    assert_eq!(spoiled(0, |c| *c == Call::FinishBody, Reply::Refused(no())), refused);
    assert_eq!(
        spoiled(0, |c| matches!(c, Call::Read(_)), Reply::Refused(no())),
        Next::Failed(Failure::ReadFailed(no()))
    );
    assert_eq!(
        spoiled(200, |c| matches!(c, Call::Read(_)), Reply::Refused(no())),
        Next::Failed(Failure::ReadFailed(no()))
    );
}

#[test]
fn no_room_for_a_chunk() {
    let small = CHUNK_LEN as u64 - 1;
    assert_eq!(
        spoiled(12, |c| *c == Call::CheckWrite, Reply::Budget(small)),
        Next::Failed(Failure::NoRoom)
    );
    assert_eq!(
        spoiled(0, |c| *c == Call::CheckWrite, Reply::Budget(small)),
        Next::Passed
    );
}

#[test]
fn responses_that_fail() {
    let poll = |c: &Call| *c == Call::PollResponse;
    assert_eq!(spoiled(0, poll, Reply::Taken), Next::Failed(Failure::ResponseTaken));
    assert_eq!(spoiled(12, poll, Reply::Taken), Next::Failed(Failure::ResponseTaken));
    assert_eq!(spoiled(12, poll, Reply::NotReady), Next::Failed(Failure::ResponseUnavailable));
    assert_eq!(spoiled(0, poll, Reply::Refused(no())), Next::Failed(Failure::Refused(no())));
    assert_eq!(spoiled(0, poll, Reply::Done), Next::Passed);
    assert_eq!(
        spoiled(0, |c| *c == Call::ReadStatus, Reply::Status(404)),
        Next::Failed(Failure::Status(404))
    );
    assert_eq!(
        spoiled(0, |c| matches!(c, Call::ReadHeader(_)), Reply::Values(vec![])),
        Next::Failed(Failure::NoContentType)
    );
    assert_eq!(
        spoiled(
            0,
            |c| matches!(c, Call::ReadHeader(_)),
            Reply::Values(vec![b"text/plain".to_vec(), content_type()])
        ),
        Next::Failed(Failure::ContentType(b"text/plain".to_vec()))
    );
    assert_eq!(
        spoiled(0, |c| *c == Call::ConsumeResponse, Reply::Refused("()".to_string())),
        Next::Failed(Failure::NoBody("()".to_string()))
    );
}

#[test]
fn second_content_type_does_not_matter() {
    assert_eq!(
        spoiled(
            0,
            |c| matches!(c, Call::ReadHeader(_)),
            Reply::Values(vec![content_type(), b"text/plain".to_vec()])
        ),
        Next::Passed
    );
}

#[test]
fn stream_that_ends_at_the_wrong_time() {
    assert_eq!(
        spoiled(0, |c| matches!(c, Call::Read(_)), Reply::Closed),
        Next::Failed(Failure::ClosedEarly)
    );
    let mut echo = Echo::new(0);
    let mut closed = false;
    let (_, _, _, end) = drive(echo_plan("s", "/echo", None), |_, call| {
        if closed {
            return Reply::Bytes(vec![]);
        }
        let reply = echo.answer(call);
        closed = reply == Reply::Closed;
        reply
    });
    assert_eq!(end, Next::Failed(Failure::NotClosed));
}

#[test]
fn wrong_kind_of_reply() {
    assert_eq!(spoiled(0, |_| true, Reply::Status(200)), Next::Failed(Failure::Misplaced));
    assert_eq!(
        spoiled(0, |c| *c == Call::ReadStatus, Reply::Done),
        Next::Failed(Failure::Misplaced)
    );
}

#[test]
fn echo_of_something_else() {
    let mut echo = Echo::new(0);
    let (_, replies, received, end) = drive(echo_plan("s", "/echo", None), |_, call| {
        match echo.answer(call) {
            Reply::Bytes(_) => Reply::Bytes(vec![7]),
            reply => reply,
        }
    });
    assert_eq!(end, Next::Passed);
    let failure = Failure::BodyMismatch { expected: 1048576, actual: received.len() };
    assert_eq!(
        failure.message().unwrap(),
        format!(
            "body content mismatch (expected length 1048576; actual length {})",
            received.len()
        )
    );
    assert_eq!(do_wasi_http_echo("s", "/echo", None, &replies), Next::Failed(failure));
}

#[test]
fn replies_behind_the_end_are_not_heard() {
    let replies = vec![Reply::Refused(no()), Reply::Done, Reply::Done];
    assert_eq!(
        do_wasi_http_echo("s", "/echo", None, &replies),
        Next::Failed(Failure::Refused(no()))
    );
}

#[test]
fn two_echoes() {
    let (single, double) = echo_requests("one:1", "two:2");
    assert_eq!(single.server, "one:1");
    assert_eq!(single.path, "/echo");
    assert_eq!(single.url_header, None);
    assert_eq!(double.server, "two:2");
    assert_eq!(double.path, "/double-echo");
    assert_eq!(double.url_header.as_deref(), Some("http://one:1/echo"));
}
