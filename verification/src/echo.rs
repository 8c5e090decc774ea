//! The echo program: sends a megabyte and expects it back.
use vstd::prelude::*;
use crate::exchange;
use crate::exchange::{Exchange, Plan, PlanView, SetupCall};
use crate::payload;
use crate::run;
use crate::text;
use crate::wire;
use crate::wire::{
    Call, CallView, Failure, FailureView, Header, HeaderView, Next, NextView, Reply, ReplyView,
};

verus! {

/// The content type of the body, and of its echo.
pub open spec fn octet_stream() -> Seq<u8> {
    vstd::utf8::encode_utf8("application/octet-stream"@)
}

/// The content type of the body, and of its echo.
pub fn content_type() -> (value: Vec<u8>)
    ensures
        value@ == octet_stream(),
        value@ == octet_stream_spelled(),
{
    proof {
        lemma_type_is_spelled();
    }
    "application/octet-stream".as_bytes_vec()
}

/// The headers of the request: the URL to fetch from, if there is one, and the
/// content type.
pub open spec fn echo_fields(url_header: Option<Seq<char>>) -> Seq<HeaderView> {
    let content = wire::text_field("content-type"@, "application/octet-stream"@);
    match url_header {
        Some(url) => seq![wire::text_field("url"@, url), content],
        None => seq![content],
    }
}

/// The contents of an optional text.
pub open spec fn text_in(text: Option<&str>) -> Option<Seq<char>> {
    match text {
        Some(t) => Some(t@),
        None => None,
    }
}

/// What the exchange with `server` is to do: post the body to `path`, and read an
/// answer of the same content type.
pub open spec fn echo_plan_spec(
    server: Seq<char>,
    path: Seq<char>,
    url_header: Option<Seq<char>>,
) -> PlanView {
    PlanView {
        script: seq![
            exchange::must(CallView::HeadersFromList(echo_fields(url_header))),
            exchange::must(CallView::NewRequest),
            exchange::must(CallView::SetMethodPost),
            exchange::must(CallView::SetSchemeHttp),
            exchange::must(CallView::SetAuthority(server)),
            exchange::must(CallView::SetPath(path)),
            exchange::must(CallView::OpenBody),
            exchange::must(CallView::OpenBodyStream),
        ],
        upload: Some(payload::body_spec()),
        content_type: Some(octet_stream()),
    }
}

/// Plans the exchange with `server`.
pub fn echo_plan(server: &str, path: &str, url_header: Option<&str>) -> (plan: Plan)
    ensures
        plan@ == echo_plan_spec(server@, path@, text_in(url_header)),
        posts_an_echo(
            run::calls(plan@.script),
            server@,
            path@,
            match url_header {
                Some(url) => Some(url@),
                None => None,
            },
        ),
{
    proof {
        law_echo_request_is_a_post(server@, path@, text_in(url_header), Seq::empty());
    }
    let content = wire::text_header("content-type", "application/octet-stream");
    let mut headers: Vec<Header> = Vec::new();
    match url_header {
        Some(url) => {
            headers.push(wire::text_header("url", url));
            headers.push(content);
        },
        None => {
            headers.push(content);
        },
    }
    assert(wire::fields(headers@) =~= echo_fields(text_in(url_header)));
    let mut script: Vec<SetupCall> = Vec::new();
    script.push(exchange::required(Call::HeadersFromList(headers)));
    script.push(exchange::required(Call::NewRequest));
    script.push(exchange::required(Call::SetMethodPost));
    script.push(exchange::required(Call::SetSchemeHttp));
    script.push(exchange::required(Call::SetAuthority(server.to_owned())));
    script.push(exchange::required(Call::SetPath(path.to_owned())));
    script.push(exchange::required(Call::OpenBody));
    script.push(exchange::required(Call::OpenBodyStream));
    let plan = Plan {
        script,
        upload: Some(payload::body()),
        content_type: Some(content_type()),
    };
    assert(plan@.script =~= echo_plan_spec(server@, path@, text_in(url_header)).script);
    plan
}

/// What is wrong with an echo.
pub open spec fn echo_failure(received: Seq<u8>) -> Option<FailureView> {
    if received == payload::body_spec() {
        None
    } else {
        Some(
            FailureView::BodyMismatch {
                expected: payload::body_spec().len(),
                actual: received.len(),
            },
        )
    }
}

/// Checks that what was received is the body that was sent.
pub fn check_echo(received: &Vec<u8>) -> (outcome: Result<(), Failure>)
    ensures
        wire::found_wrong(outcome, echo_failure(received@)),
{
    let body = payload::body();
    if exchange::same_bytes(&body, received) {
        Ok(())
    } else {
        Err(Failure::BodyMismatch { expected: body.len(), actual: received.len() })
    }
}

/// Says what comes next in the echo program, where `next` comes in its exchange.
fn judge(exchange: &Exchange, next: Next) -> (verdict: Next)
    ensures
        verdict@ == wire::judged(next@, echo_failure(exchange@.received)),
{
    match next {
        Next::Passed => match check_echo(exchange.received()) {
            Ok(()) => Next::Passed,
            Err(failure) => Next::Failed(failure),
        },
        _ => next,
    }
}

/// Takes the host's reply to the last call of an echo, and says what comes next: a
/// further call, or the end. It ends well exactly where the exchange does and what
/// came back is the body.
pub fn echo_step(exchange: &mut Exchange, reply: &Reply) -> (next: Next)
    requires
        old(exchange).wf(),
    ensures
        ({
            let (state, came) = old(exchange)@.next(reply@);
            &&& final(exchange)@ == state
            &&& next@ == wire::judged(came, echo_failure(state.received))
            &&& !(came is Passed) ==> next@ == came
            &&& next is Passed <==> came is Passed && state.received == payload::body_spec()
        }),
        final(exchange).wf(),
{
    let next = exchange.step(reply);
    judge(exchange, next)
}

/// The run of the echo with a host that gives these replies.
pub open spec fn echo_run(
    server: Seq<char>,
    path: Seq<char>,
    url_header: Option<Seq<char>>,
    replies: Seq<ReplyView>,
) -> run::RunView {
    run::run(echo_plan_spec(server, path, url_header), replies)
}

/// Sends the body to `path` on `server`, with a host that gives these replies, and
/// says what comes next: a further call, or the end. It ends well exactly where
/// the exchange does and what came back is the body.
pub fn do_wasi_http_echo(
    server: &str,
    path: &str,
    url_header: Option<&str>,
    replies: &Vec<Reply>,
) -> (next: Next)
    ensures
        ({
            let end = echo_run(server@, path@, text_in(url_header), wire::answers(replies@));
            &&& next@ == wire::judged(end.next, echo_failure(end.state.received))
            &&& next is Passed ==> run::written(end.log) == payload::body_spec()
                && run::read_back(end.log) == payload::body_spec()
            &&& !(end.next is Passed) ==> next@ == end.next
            &&& end.next is Passed ==> next@ == if run::read_back(end.log) == run::written(
                end.log,
            ) {
                NextView::Passed
            } else {
                NextView::Failed(
                    FailureView::BodyMismatch {
                        expected: 1048576,
                        actual: run::read_back(end.log).len(),
                    },
                )
            }
            &&& next@ matches NextView::Call(CallView::SetAuthority(name)) ==> name == server@
            &&& next@ matches NextView::Call(CallView::SetPath(target)) ==> target == path@
            &&& next@ matches NextView::Call(CallView::HeadersFromList(list)) ==> list
                == echo_headers(
                match url_header {
                    Some(url) => Some(url@),
                    None => None,
                },
            )
        }),
{
    let (exchange, next) = run::replay(echo_plan(server, path, url_header), replies);
    proof {
        let plan = echo_plan_spec(server@, path@, text_in(url_header));
        lemma_echo_plan_is_sound(server@, path@, text_in(url_header));
        law_echo_request_is_a_post(server@, path@, text_in(url_header), wire::answers(replies@));
        run::law_request_is_prepared_by_the_script(plan, wire::answers(replies@));
        if run::run(plan, wire::answers(replies@)).next is Passed {
            run::law_passed(plan, wire::answers(replies@));
        }
    }
    judge(&exchange, next)
}

/// The plan of the echo makes sense.
pub proof fn lemma_echo_plan_is_sound(
    server: Seq<char>,
    path: Seq<char>,
    url_header: Option<Seq<char>>,
)
    ensures
        run::sound(echo_plan_spec(server, path, url_header)),
{
    let plan = echo_plan_spec(server, path, url_header);
    assert forall|i: int| 0 <= i < run::calls(plan.script).len() implies #[trigger] run::calls(
        plan.script,
    )[i] != CallView::FinishBody by {
        assert(plan.script[i].call == run::calls(plan.script)[i]);
    }
}

/// The echo program ends well exactly where its exchange does and the host gave
/// back what it had taken.
pub proof fn law_echo_passes_on_an_echo(
    server: Seq<char>,
    path: Seq<char>,
    url_header: Option<Seq<char>>,
    replies: Seq<ReplyView>,
)
    ensures
        ({
            let end = echo_run(server, path, url_header, replies);
            wire::judged(end.next, echo_failure(end.state.received)) is Passed <==> {
                &&& end.next is Passed
                &&& run::read_back(end.log) == run::written(end.log)
            }
        }),
{
    lemma_echo_plan_is_sound(server, path, url_header);
    let plan = echo_plan_spec(server, path, url_header);
    if run::run(plan, replies).next is Passed {
        run::law_passed(plan, replies);
    }
}

/// The echo program ends well only after the host has taken the whole body, has
/// given it back, and has told of one response with the right status and the
/// right content type.
pub proof fn law_echo_passed(
    server: Seq<char>,
    path: Seq<char>,
    url_header: Option<Seq<char>>,
    replies: Seq<ReplyView>,
)
    requires
        ({
            let end = echo_run(server, path, url_header, replies);
            wire::judged(end.next, echo_failure(end.state.received)) is Passed
        }),
    ensures
        ({
            let log = echo_run(server, path, url_header, replies).log;
            &&& run::written(log) == payload::body_spec()
            &&& run::read_back(log) == payload::body_spec()
            &&& run::sends(log) == 1
            &&& run::status_was_ok(log)
            &&& run::type_was(log, octet_stream())
            &&& run::body_finished(log)
        }),
{
    lemma_echo_plan_is_sound(server, path, url_header);
    run::law_passed(echo_plan_spec(server, path, url_header), replies);
}

/// One echo that the program asks for.
#[derive(Debug, PartialEq, Eq)]
pub struct EchoRequest {
    pub server: String,
    pub path: String,
    pub url_header: Option<String>,
}

/// One echo that the program asks for, by its contents.
#[verifier::ext_equal]
pub struct EchoRequestView {
    pub server: Seq<char>,
    pub path: Seq<char>,
    pub url_header: Option<Seq<char>>,
}

impl View for EchoRequest {
    type V = EchoRequestView;

    open spec fn view(&self) -> EchoRequestView {
        EchoRequestView {
            server: self.server@,
            path: self.path@,
            url_header: match self.url_header {
                Some(url) => Some(url@),
                None => None,
            },
        }
    }
}

/// The echoes that the program asks for, given its two servers.
pub open spec fn echo_requests_spec(server1: Seq<char>, server2: Seq<char>) -> (
    EchoRequestView,
    EchoRequestView,
) {
    (
        EchoRequestView { server: server1, path: "/echo"@, url_header: None },
        EchoRequestView {
            server: server2,
            path: "/double-echo"@,
            url_header: Some(text::url_spec(server1, "/echo"@)),
        },
    )
}

/// The first echo goes to the first server, by itself. The second one goes to the
/// second server, with the URL of the first: where that server fetches from is exactly
/// where the first echo went.
pub proof fn law_second_echo_names_the_first(server1: Seq<char>, server2: Seq<char>)
    ensures
        ({
            let (first, second) = echo_requests_spec(server1, server2);
            &&& first.server == server1
            &&& first.path == seq!['/', 'e', 'c', 'h', 'o']
            &&& first.url_header is None
            &&& second.server == server2
            &&& second.path == seq!['/', 'd', 'o', 'u', 'b', 'l', 'e', '-'] + seq![
                'e',
                'c',
                'h',
                'o',
            ]
            &&& second.url_header == Some(
                seq!['h', 't', 't', 'p', ':', '/', '/'] + first.server + first.path,
            )
        }),
{
    reveal_strlit("/echo");
    reveal_strlit("/double-echo");
    let (first, second) = echo_requests_spec(server1, server2);
    assert(first.path =~= seq!['/', 'e', 'c', 'h', 'o']);
    assert(second.path =~= seq!['/', 'd', 'o', 'u', 'b', 'l', 'e', '-'] + seq!['e', 'c', 'h', 'o']);
    text::law_url_names_server_and_path(server1, first.path);
}

/// The echoes that the program asks for, given its two servers: the first server
/// echoes the body, and the second one fetches the echo of the first.
pub fn echo_requests(server1: &str, server2: &str) -> (requests: (EchoRequest, EchoRequest))
    ensures
        (requests.0@, requests.1@) == echo_requests_spec(server1@, server2@),
        requests.0.server@ == server1@,
        requests.0.path@ == "/echo"@,
        requests.0.url_header is None,
        requests.1.server@ == server2@,
        requests.1.path@ == "/double-echo"@,
        requests.1.url_header matches Some(url) && url@ == text::url_spec(
            server1@,
            "/echo"@,
        ),
{
    (
        EchoRequest { server: server1.to_owned(), path: "/echo".to_owned(), url_header: None },
        EchoRequest {
            server: server2.to_owned(),
            path: "/double-echo".to_owned(),
            url_header: Some(text::url(server1, "/echo")),
        },
    )
}

/// The content type that an echo is sent with and must come back with, spelled out.
pub open spec fn octet_stream_spelled() -> Seq<u8> {
    text::ascii(
        seq!['a', 'p', 'p', 'l', 'i', 'c', 'a', 't', 'i', 'o', 'n', '/'] + seq![
            'o',
            'c',
            't',
            'e',
            't',
            '-',
            's',
            't',
            'r',
            'e',
            'a',
            'm',
        ],
    )
}

/// The header field that tells the content type of an echo.
pub open spec fn type_field() -> HeaderView {
    HeaderView {
        name: seq!['c', 'o', 'n', 't', 'e', 'n', 't', '-', 't', 'y', 'p', 'e'],
        value: octet_stream_spelled(),
    }
}

/// The header fields of an echo: one for the URL header where there is one, and then one
/// for the content type.
pub open spec fn echo_headers(url_header: Option<Seq<char>>) -> Seq<HeaderView> {
    match url_header {
        None => seq![type_field()],
        Some(url) => seq![
            HeaderView { name: seq!['u', 'r', 'l'], value: vstd::utf8::encode_utf8(url) },
            type_field(),
        ],
    }
}

/// These calls make a request that posts to `path` on `server`, with a header field
/// for `url_header` where there is one and with one for the content type, and that has
/// a body to write to.
pub open spec fn posts_an_echo(
    calls: Seq<CallView>,
    server: Seq<char>,
    path: Seq<char>,
    url_header: Option<Seq<char>>,
) -> bool {
    &&& calls.len() == 8
    &&& run::one_only(
        calls,
        |call: CallView| call is HeadersFromList,
        CallView::HeadersFromList(echo_headers(url_header)),
    )
    &&& run::one_only(calls, |call: CallView| call is SetMethodPost, CallView::SetMethodPost)
    &&& run::one_only(calls, |call: CallView| call is SetSchemeHttp, CallView::SetSchemeHttp)
    &&& run::one_only(
        calls,
        |call: CallView| call is SetAuthority,
        CallView::SetAuthority(server),
    )
    &&& run::one_only(calls, |call: CallView| call is SetPath, CallView::SetPath(path))
    &&& calls[0] is HeadersFromList
    &&& calls[1] is NewRequest
    &&& calls[2] is SetMethodPost
    &&& calls[3] is SetSchemeHttp
    &&& calls[4] is SetAuthority
    &&& calls[5] is SetPath
    &&& calls[6] is OpenBody
    &&& calls[7] is OpenBodyStream
}

/// The content types are those that they spell.
proof fn lemma_type_is_spelled()
    ensures
        octet_stream() == octet_stream_spelled(),
        wire::text_field("content-type"@, "application/octet-stream"@) == type_field(),
        "url"@ == seq!['u', 'r', 'l'],
{
    reveal_strlit("application/octet-stream");
    reveal_strlit("content-type");
    reveal_strlit("url");
    let chars = seq!['a', 'p', 'p', 'l', 'i', 'c', 'a', 't', 'i', 'o', 'n', '/'] + seq![
        'o',
        'c',
        't',
        'e',
        't',
        '-',
        's',
        't',
        'r',
        'e',
        'a',
        'm',
    ];
    assert("application/octet-stream"@ =~= chars);
    assert("content-type"@ =~= type_field().name);
    assert("url"@ =~= seq!['u', 'r', 'l']);
    text::lemma_ascii(chars);
}

/// The request that is handed over posts to the path given on the server given,
/// whether there is a URL header or not, and so does the one that is planned. Each call
/// that prepares it must be done.
pub proof fn law_echo_request_is_a_post(
    server: Seq<char>,
    path: Seq<char>,
    url_header: Option<Seq<char>>,
    replies: Seq<ReplyView>,
)
    ensures
        ({
            let plan = echo_plan_spec(server, path, url_header);
            let end = echo_run(server, path, url_header, replies);
            &&& posts_an_echo(run::calls(plan.script), server, path, url_header)
            &&& end.next == NextView::Call(CallView::Send) ==> posts_an_echo(
                run::prepared(end.log),
                server,
                path,
                url_header,
            )
            &&& forall|i: int|
                0 <= i < plan.script.len() ==> (#[trigger] plan.script[i]).required
            &&& plan.upload matches Some(body) && is_the_body(body)
        }),
{
    law_echo_is_checked_byte_for_byte(payload::body_spec());
    let plan = echo_plan_spec(server, path, url_header);
    let calls = run::calls(plan.script);
    lemma_type_is_spelled();
    lemma_echo_plan_is_sound(server, path, url_header);
    run::law_one_request_as_planned(plan, replies);
    assert(calls[0] == CallView::HeadersFromList(echo_headers(url_header)));
    assert(calls[2] == CallView::SetMethodPost);
    assert(calls[3] == CallView::SetSchemeHttp);
    assert(calls[4] == CallView::SetAuthority(server));
    assert(calls[5] == CallView::SetPath(path));
}

/// An echo must come back as what it was sent as: the content type that is asked of the
/// response is the value of the request's own content type field. A response with this
/// type is gone on with, and one with another type is not.
pub proof fn law_echo_comes_back_as_it_was_sent(
    server: Seq<char>,
    path: Seq<char>,
    url_header: Option<Seq<char>>,
    replies: Seq<ReplyView>,
    values: Seq<Seq<u8>>,
)
    ensures
        ({
            let plan = echo_plan_spec(server, path, url_header);
            &&& plan.content_type == Some(octet_stream_spelled())
            &&& exists|headers: Seq<HeaderView>|
                run::calls(plan.script).contains(CallView::HeadersFromList(headers))
                    && #[trigger] headers.contains(type_field()) && plan.content_type == Some(
                    type_field().value,
                )
        }),
        ({
            let end = echo_run(server, path, url_header, replies);
            let told = echo_run(
                server,
                path,
                url_header,
                replies.push(ReplyView::Values(values)),
            ).next;
            end.next is Call && end.next->Call_0 is ReadHeader && values.len() > 0 ==> told
                == if values[0] == octet_stream_spelled() {
                NextView::Call(CallView::DropHeaders)
            } else {
                NextView::Failed(FailureView::ContentType(values[0]))
            }
        }),
{
    let plan = echo_plan_spec(server, path, url_header);
    let headers = echo_fields(url_header);
    lemma_type_is_spelled();
    lemma_echo_plan_is_sound(server, path, url_header);
    assert(run::calls(plan.script)[0] == CallView::HeadersFromList(headers));
    assert(headers[headers.len() - 1] == type_field());
    assert(headers.contains(type_field()));
    run::law_response_is_taken_apart(plan, replies, ReplyView::Values(values));
}

/// In the echo program a refusal is never passed over: whatever the host refuses before
/// the response is there ends the program with what the host said.
pub proof fn law_echo_fails_where_refused(
    server: Seq<char>,
    path: Seq<char>,
    url_header: Option<Seq<char>>,
    replies: Seq<ReplyView>,
    detail: Seq<char>,
)
    requires
        ({
            let end = echo_run(server, path, url_header, replies);
            &&& end.next is Call
            &&& run::sends(end.log) == 0 || end.next->Call_0 is PollResponse
        }),
    ensures
        echo_run(server, path, url_header, replies.push(ReplyView::Refused(detail))).next
            == NextView::Failed(FailureView::Refused(detail)),
{
    let plan = echo_plan_spec(server, path, url_header);
    let reply = ReplyView::Refused(detail);
    lemma_echo_plan_is_sound(server, path, url_header);
    law_echo_request_is_a_post(server, path, url_header, replies);
    run::law_response_is_waited_for(plan, replies, reply);
    if run::sends(run::run(plan, replies).log) == 0 {
        run::law_script_is_followed(plan, replies, reply);
        run::law_upload_before_sending(plan, replies, reply);
        if run::run(plan, replies).next == NextView::Call(CallView::Send) {
            run::law_undone_call_ends_the_run(plan, replies, reply);
        }
    }
}

/// The byte at `i` is 251 more than the one before it, modulo 256.
pub open spec fn is_a_step(bytes: Seq<u8>, i: int) -> bool {
    bytes[i] as int == (bytes[i - 1] + 251) % 256
}

/// `bytes` are a megabyte that begins with 251 and goes on in steps of 251, modulo 256.
pub open spec fn is_the_body(bytes: Seq<u8>) -> bool {
    &&& bytes.len() == 1048576
    &&& bytes[0] == 251
    &&& forall|i: int| 0 < i < 1048576 ==> #[trigger] is_a_step(bytes, i)
}

/// An echo is right exactly where it is the megabyte that was sent, byte for byte. What
/// is wrong with another one is told by the two lengths.
pub proof fn law_echo_is_checked_byte_for_byte(received: Seq<u8>)
    ensures
        echo_failure(received) is None <==> is_the_body(received),
        !is_the_body(received) ==> echo_failure(received) == Some(
            FailureView::BodyMismatch { expected: 1048576, actual: received.len() },
        ),
{
    let body = payload::body_spec();
    if is_the_body(received) {
        assert forall|i: int| 0 <= i < 1048576 implies received[i] == body[i] by {
            lemma_body_is_determined(received, i);
        }
        assert(received =~= body);
    }
    if received == body {
        assert forall|i: int| 0 < i < 1048576 implies #[trigger] is_a_step(received, i) by {
            payload::law_body_counts_in_steps(i);
        }
        payload::law_body_counts_in_steps(0);
    }
}

proof fn lemma_body_is_determined(bytes: Seq<u8>, i: int)
    requires
        is_the_body(bytes),
        0 <= i < 1048576,
    ensures
        bytes[i] == payload::body_spec()[i],
    decreases i,
{
    payload::law_body_counts_in_steps(i);
    if i > 0 {
        lemma_body_is_determined(bytes, i - 1);
        assert(is_a_step(bytes, i));
    }
}

}
