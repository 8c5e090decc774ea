//! What passes between a program and its host: calls one way, replies the other.
use vstd::prelude::*;
use crate::text;

verus! {

/// One header field.
#[derive(Debug, PartialEq, Eq)]
pub struct Header {
    pub name: String,
    pub value: Vec<u8>,
}

/// A header field: its name and its value.
#[verifier::ext_equal]
pub struct HeaderView {
    pub name: Seq<char>,
    pub value: Seq<u8>,
}

impl View for Header {
    type V = HeaderView;

    open spec fn view(&self) -> HeaderView {
        HeaderView { name: self.name@, value: self.value@ }
    }
}

/// A header field whose value is text.
pub open spec fn text_field(name: Seq<char>, value: Seq<char>) -> HeaderView {
    HeaderView { name, value: vstd::utf8::encode_utf8(value) }
}

/// A header field whose value is text.
pub(crate) fn text_header(name: &str, value: &str) -> (header: Header)
    ensures
        header@ == text_field(name@, value@),
{
    Header { name: name.to_owned(), value: value.as_bytes_vec() }
}

/// The fields of a header list.
pub open spec fn fields(headers: Seq<Header>) -> Seq<HeaderView> {
    headers.map_values(|header: Header| header@)
}

/// A call that a program makes of its host. The host holds the resources
/// (headers, request, body, streams, response); a call names none of them,
/// because a program has at most one of each kind.
#[derive(Debug, PartialEq, Eq)]
pub enum Call {
    /// Make the headers out of a list.
    HeadersFromList(Vec<Header>),
    /// Make headers that hold no field.
    NewHeaders,
    /// Append one field to the headers.
    AppendHeader(Header),
    /// Make the request out of the headers.
    NewRequest,
    /// Set the request's method to POST. A request for which this is not called is a GET.
    SetMethodPost,
    /// Set the request's scheme to HTTP.
    SetSchemeHttp,
    /// Set the request's authority.
    SetAuthority(String),
    /// Set the request's path with query.
    SetPath(String),
    /// Take the request's body.
    OpenBody,
    /// Take the output stream of the request's body.
    OpenBodyStream,
    /// Ask how many bytes the output stream takes.
    CheckWrite,
    /// Write these bytes to the output stream.
    Write(Vec<u8>),
    /// Give the output stream back.
    DropBodyStream,
    /// Finish the request's body, without trailers.
    FinishBody,
    /// Hand the request to the outgoing handler, without options.
    Send,
    /// Look whether the response is there.
    PollResponse,
    /// Block until the response is there.
    AwaitResponse,
    /// Give the future response back.
    DropFuture,
    /// Read the response's status.
    ReadStatus,
    /// Take the response's headers.
    OpenHeaders,
    /// Read all values of one field of the response's headers.
    ReadHeader(String),
    /// Give the response's headers back.
    DropHeaders,
    /// Take the response's body.
    ConsumeResponse,
    /// Give the response back.
    DropResponse,
    /// Take the input stream of the response's body.
    OpenInput,
    /// Subscribe to the input stream, and block until it is ready.
    AwaitInput,
    /// Subscribe to the input stream, and keep the subscription.
    SubscribeInput,
    /// Block on the subscription that was kept.
    AwaitSubscription,
    /// Read at most so many bytes from the input stream.
    Read(u64),
    /// Block until the output stream is ready.
    AwaitOutput,
    /// Print the debug text of an error that the program goes on after.
    Print(String),
}

/// A call, its texts and bytes taken by their contents.
#[verifier::ext_equal]
pub enum CallView {
    HeadersFromList(Seq<HeaderView>),
    NewHeaders,
    AppendHeader(HeaderView),
    NewRequest,
    SetMethodPost,
    SetSchemeHttp,
    SetAuthority(Seq<char>),
    SetPath(Seq<char>),
    OpenBody,
    OpenBodyStream,
    CheckWrite,
    Write(Seq<u8>),
    DropBodyStream,
    FinishBody,
    Send,
    PollResponse,
    AwaitResponse,
    DropFuture,
    ReadStatus,
    OpenHeaders,
    ReadHeader(Seq<char>),
    DropHeaders,
    ConsumeResponse,
    DropResponse,
    OpenInput,
    AwaitInput,
    SubscribeInput,
    AwaitSubscription,
    Read(u64),
    AwaitOutput,
    Print(Seq<char>),
}

impl View for Call {
    type V = CallView;

    open spec fn view(&self) -> CallView {
        match self {
            Call::HeadersFromList(headers) => CallView::HeadersFromList(fields(headers@)),
            Call::NewHeaders => CallView::NewHeaders,
            Call::AppendHeader(header) => CallView::AppendHeader(header@),
            Call::NewRequest => CallView::NewRequest,
            Call::SetMethodPost => CallView::SetMethodPost,
            Call::SetSchemeHttp => CallView::SetSchemeHttp,
            Call::SetAuthority(authority) => CallView::SetAuthority(authority@),
            Call::SetPath(path) => CallView::SetPath(path@),
            Call::OpenBody => CallView::OpenBody,
            Call::OpenBodyStream => CallView::OpenBodyStream,
            Call::CheckWrite => CallView::CheckWrite,
            Call::Write(bytes) => CallView::Write(bytes@),
            Call::DropBodyStream => CallView::DropBodyStream,
            Call::FinishBody => CallView::FinishBody,
            Call::Send => CallView::Send,
            Call::PollResponse => CallView::PollResponse,
            Call::AwaitResponse => CallView::AwaitResponse,
            Call::DropFuture => CallView::DropFuture,
            Call::ReadStatus => CallView::ReadStatus,
            Call::OpenHeaders => CallView::OpenHeaders,
            Call::ReadHeader(name) => CallView::ReadHeader(name@),
            Call::DropHeaders => CallView::DropHeaders,
            Call::ConsumeResponse => CallView::ConsumeResponse,
            Call::DropResponse => CallView::DropResponse,
            Call::OpenInput => CallView::OpenInput,
            Call::AwaitInput => CallView::AwaitInput,
            Call::SubscribeInput => CallView::SubscribeInput,
            Call::AwaitSubscription => CallView::AwaitSubscription,
            Call::Read(limit) => CallView::Read(*limit),
            Call::AwaitOutput => CallView::AwaitOutput,
            Call::Print(detail) => CallView::Print(detail@),
        }
    }
}

/// What the host answers to a call.
#[derive(Debug, PartialEq, Eq)]
pub enum Reply {
    /// The call is done, and there is nothing more to tell. To `PollResponse`:
    /// the response is there.
    Done,
    /// The call failed. The text is the error's debug form.
    Refused(String),
    /// The output stream takes so many bytes.
    Budget(u64),
    /// The response is not there yet.
    NotReady,
    /// The response was there, and has been taken before.
    Taken,
    /// The response's status.
    Status(u16),
    /// The values of a header field.
    Values(Vec<Vec<u8>>),
    /// What was read.
    Bytes(Vec<u8>),
    /// The input stream has ended.
    Closed,
}

/// A reply, its texts and bytes taken by their contents.
#[verifier::ext_equal]
pub enum ReplyView {
    Done,
    Refused(Seq<char>),
    Budget(u64),
    NotReady,
    Taken,
    Status(u16),
    Values(Seq<Seq<u8>>),
    Bytes(Seq<u8>),
    Closed,
}

impl View for Reply {
    type V = ReplyView;

    open spec fn view(&self) -> ReplyView {
        match self {
            Reply::Done => ReplyView::Done,
            Reply::Refused(detail) => ReplyView::Refused(detail@),
            Reply::Budget(room) => ReplyView::Budget(*room),
            Reply::NotReady => ReplyView::NotReady,
            Reply::Taken => ReplyView::Taken,
            Reply::Status(code) => ReplyView::Status(*code),
            Reply::Values(values) => ReplyView::Values(
                values@.map_values(|value: Vec<u8>| value@),
            ),
            Reply::Bytes(bytes) => ReplyView::Bytes(bytes@),
            Reply::Closed => ReplyView::Closed,
        }
    }
}

/// The contents of a list of replies.
pub open spec fn answers(replies: Seq<Reply>) -> Seq<ReplyView> {
    replies.map_values(|reply: Reply| reply@)
}

/// Why a program fails.
#[derive(Debug, PartialEq, Eq)]
pub enum Failure {
    /// A call failed that must not fail: the host refused it, or the report is no UTF-8.
    Refused(String),
    /// The response had been taken before.
    ResponseTaken,
    /// The response was not there after waiting for it.
    ResponseUnavailable,
    /// The response's status is not 200.
    Status(u16),
    /// The response has no content type.
    NoContentType,
    /// The response has another content type than asked for.
    ContentType(Vec<u8>),
    /// The response has no body.
    NoBody(String),
    /// The output stream has no room for a chunk.
    NoRoom,
    /// The input stream ended before all was written.
    ClosedEarly,
    /// The input stream failed.
    ReadFailed(String),
    /// The input stream had ended, and went on.
    NotClosed,
    /// The echoed body is not the one that was sent.
    BodyMismatch { expected: usize, actual: usize },
    /// The greeting is another one.
    Greeting(Vec<u8>),
    /// The report is empty.
    EmptyReport,
    /// A line of the report holds no separator.
    NoSeparator(String),
    /// A line of the report speaks of another server.
    NoPrefix { server: String, url: String },
    /// A line of the report speaks of a path that was not asked for.
    UnknownPath(String),
    /// A line of the report holds another hash.
    Hash { found: String, wanted: String },
    /// The host's reply is of a kind that does not belong to the call.
    Misplaced,
}

/// A failure, its texts and bytes taken by their contents.
#[verifier::ext_equal]
pub enum FailureView {
    Refused(Seq<char>),
    ResponseTaken,
    ResponseUnavailable,
    Status(u16),
    NoContentType,
    ContentType(Seq<u8>),
    NoBody(Seq<char>),
    NoRoom,
    ClosedEarly,
    ReadFailed(Seq<char>),
    NotClosed,
    BodyMismatch { expected: nat, actual: nat },
    Greeting(Seq<u8>),
    EmptyReport,
    NoSeparator(Seq<char>),
    NoPrefix { server: Seq<char>, url: Seq<char> },
    UnknownPath(Seq<char>),
    Hash { found: Seq<char>, wanted: Seq<char> },
    Misplaced,
}

impl View for Failure {
    type V = FailureView;

    open spec fn view(&self) -> FailureView {
        match self {
            Failure::Refused(detail) => FailureView::Refused(detail@),
            Failure::ResponseTaken => FailureView::ResponseTaken,
            Failure::ResponseUnavailable => FailureView::ResponseUnavailable,
            Failure::Status(code) => FailureView::Status(*code),
            Failure::NoContentType => FailureView::NoContentType,
            Failure::ContentType(found) => FailureView::ContentType(found@),
            Failure::NoBody(detail) => FailureView::NoBody(detail@),
            Failure::NoRoom => FailureView::NoRoom,
            Failure::ClosedEarly => FailureView::ClosedEarly,
            Failure::ReadFailed(detail) => FailureView::ReadFailed(detail@),
            Failure::NotClosed => FailureView::NotClosed,
            Failure::BodyMismatch { expected, actual } => FailureView::BodyMismatch {
                expected: *expected as nat,
                actual: *actual as nat,
            },
            Failure::Greeting(found) => FailureView::Greeting(found@),
            Failure::EmptyReport => FailureView::EmptyReport,
            Failure::NoSeparator(line) => FailureView::NoSeparator(line@),
            Failure::NoPrefix { server, url } => FailureView::NoPrefix {
                server: server@,
                url: url@,
            },
            Failure::UnknownPath(path) => FailureView::UnknownPath(path@),
            Failure::Hash { found, wanted } => FailureView::Hash {
                found: found@,
                wanted: wanted@,
            },
            Failure::Misplaced => FailureView::Misplaced,
        }
    }
}

/// The words in which a failure is told. A comparison of two values that came
/// out unequal has none: it is told by showing both.
pub open spec fn message_spec(failure: FailureView) -> Option<Seq<char>> {
    match failure {
        FailureView::Refused(detail) => Some(
            "called `Result::unwrap()` on an `Err` value: "@ + detail,
        ),
        FailureView::ResponseTaken => Some("response already taken: ()"@),
        FailureView::ResponseUnavailable => Some("incoming response available"@),
        FailureView::Status(_) => None,
        FailureView::NoContentType => Some(
            "index out of bounds: the len is 0 but the index is 0"@,
        ),
        FailureView::ContentType(_) => None,
        FailureView::NoBody(detail) => Some("incoming response has no body stream: "@ + detail),
        FailureView::NoRoom => Some("Unable to write a single chunk"@),
        FailureView::ClosedEarly => Some("input stream finished before output stream"@),
        FailureView::ReadFailed(detail) => Some("input_stream read failed: "@ + detail),
        FailureView::NotClosed => Some("assertion failed: matches!(input_stream.read(1024 * 1024), Err(streams::StreamError::Closed))"@),
        FailureView::BodyMismatch { expected, actual } => Some(
            "body content mismatch (expected length "@ + text::decimal_spec(expected)
                + "; actual length "@ + text::decimal_spec(actual) + ")"@,
        ),
        FailureView::Greeting(_) => None,
        FailureView::EmptyReport => Some("assertion failed: received.len() > 0"@),
        FailureView::NoSeparator(line) => Some(
            "expected string of form `<url>: <sha-256>`; got "@ + line,
        ),
        FailureView::NoPrefix { server, url } => Some(
            "expected string with prefix "@ + server + "; got "@ + url,
        ),
        FailureView::UnknownPath(path) => Some("unexpected path: "@ + path),
        FailureView::Hash { .. } => None,
        FailureView::Misplaced => Some("the reply does not belong to the call"@),
    }
}

/// `words` with `detail` behind them.
fn joined(words: &str, detail: &str) -> (all: String)
    ensures
        all@ == words@ + detail@,
{
    let mut all = words.to_owned();
    all.append(detail);
    all
}

impl Failure {
    /// The words in which the failure is told, where it has some.
    pub fn message(&self) -> (words: Option<String>)
        ensures
            match words {
                Some(w) => message_spec(self@) == Some(w@),
                None => message_spec(self@) is None,
            },
    {
        match self {
            Failure::Refused(detail) => Some(
                joined("called `Result::unwrap()` on an `Err` value: ", detail.as_str()),
            ),
            Failure::ResponseTaken => Some("response already taken: ()".to_owned()),
            Failure::ResponseUnavailable => Some("incoming response available".to_owned()),
            Failure::Status(_) => None,
            Failure::NoContentType => Some(
                "index out of bounds: the len is 0 but the index is 0".to_owned(),
            ),
            Failure::ContentType(_) => None,
            Failure::NoBody(detail) => Some(
                joined("incoming response has no body stream: ", detail.as_str()),
            ),
            Failure::NoRoom => Some("Unable to write a single chunk".to_owned()),
            Failure::ClosedEarly => Some(
                "input stream finished before output stream".to_owned(),
            ),
            Failure::ReadFailed(detail) => Some(
                joined("input_stream read failed: ", detail.as_str()),
            ),
            Failure::NotClosed => Some("assertion failed: matches!(input_stream.read(1024 * 1024), Err(streams::StreamError::Closed))".to_owned()),
            Failure::BodyMismatch { expected, actual } => {
                let mut words = joined(
                    "body content mismatch (expected length ",
                    text::decimal(*expected).as_str(),
                );
                words.append("; actual length ");
                words.append(text::decimal(*actual).as_str());
                words.append(")");
                Some(words)
            },
            Failure::Greeting(_) => None,
            Failure::EmptyReport => Some("assertion failed: received.len() > 0".to_owned()),
            Failure::NoSeparator(line) => Some(
                joined("expected string of form `<url>: <sha-256>`; got ", line.as_str()),
            ),
            Failure::NoPrefix { server, url } => {
                let mut words = joined("expected string with prefix ", server.as_str());
                words.append("; got ");
                words.append(url.as_str());
                Some(words)
            },
            Failure::UnknownPath(path) => Some(joined("unexpected path: ", path.as_str())),
            Failure::Hash { .. } => None,
            Failure::Misplaced => Some("the reply does not belong to the call".to_owned()),
        }
    }
}

/// What a program does next.
#[derive(Debug, PartialEq, Eq)]
pub enum Next {
    /// It makes a call, and goes on with the reply.
    Call(Call),
    /// It ends well.
    Passed,
    /// It fails.
    Failed(Failure),
}

/// What comes next, by its contents.
#[verifier::ext_equal]
pub enum NextView {
    Call(CallView),
    Passed,
    Failed(FailureView),
}

impl View for Next {
    type V = NextView;

    open spec fn view(&self) -> NextView {
        match self {
            Next::Call(call) => NextView::Call(call@),
            Next::Passed => NextView::Passed,
            Next::Failed(failure) => NextView::Failed(failure@),
        }
    }
}

/// The outcome of a check that finds `wrong`.
pub open spec fn found_wrong(outcome: Result<(), Failure>, wrong: Option<FailureView>) -> bool {
    match outcome {
        Ok(()) => wrong is None,
        Err(failure) => wrong == Some(failure@),
    }
}

/// What comes next in a program that checks what its exchange received, `wrong`
/// being what is wrong with it.
pub open spec fn judged(next: NextView, wrong: Option<FailureView>) -> NextView {
    match (next, wrong) {
        (NextView::Passed, Some(failure)) => NextView::Failed(failure),
        _ => next,
    }
}

/// The words of a failure that comes with a text end in that text as it is, and what
/// stands before it is the same for every text. A mismatch of bodies is told by both
/// lengths, in decimal, the expected one first. A comparison is told without words.
pub proof fn law_words_hold_the_detail(
    detail: Seq<char>,
    more: Seq<char>,
    expected: nat,
    actual: nat,
    code: u16,
    bytes: Seq<u8>,
)
    ensures
        ({
            let none = Seq::<char>::empty();
            &&& message_spec(FailureView::Refused(detail)) == Some(
                message_spec(FailureView::Refused(none))->0 + detail,
            )
            &&& message_spec(FailureView::NoBody(detail)) == Some(
                message_spec(FailureView::NoBody(none))->0 + detail,
            )
            &&& message_spec(FailureView::ReadFailed(detail)) == Some(
                message_spec(FailureView::ReadFailed(none))->0 + detail,
            )
            &&& message_spec(FailureView::NoSeparator(detail)) == Some(
                message_spec(FailureView::NoSeparator(none))->0 + detail,
            )
            &&& message_spec(FailureView::UnknownPath(detail)) == Some(
                message_spec(FailureView::UnknownPath(none))->0 + detail,
            )
        }),
        message_spec(FailureView::NoPrefix { server: detail, url: more }) == Some(
            "expected string with prefix "@ + detail + "; got "@ + more,
        ),
        message_spec(FailureView::BodyMismatch { expected, actual }) matches Some(words)
            && exists|first: Seq<char>, second: Seq<char>|
            {
                &&& words == "body content mismatch (expected length "@ + first
                    + "; actual length "@ + second + ")"@
                &&& #[trigger] text::number_of(first) == expected
                &&& #[trigger] text::number_of(second) == actual
            },
        message_spec(FailureView::Status(code)) is None,
        message_spec(FailureView::ContentType(bytes)) is None,
        message_spec(FailureView::Greeting(bytes)) is None,
        message_spec(FailureView::Hash { found: detail, wanted: more }) is None,
{
    let none = Seq::<char>::empty();
    assert("called `Result::unwrap()` on an `Err` value: "@ + none
        =~= "called `Result::unwrap()` on an `Err` value: "@);
    assert("incoming response has no body stream: "@ + none
        =~= "incoming response has no body stream: "@);
    assert("input_stream read failed: "@ + none =~= "input_stream read failed: "@);
    assert("expected string of form `<url>: <sha-256>`; got "@ + none
        =~= "expected string of form `<url>: <sha-256>`; got "@);
    assert("unexpected path: "@ + none =~= "unexpected path: "@);
    text::law_decimal_stands_for_the_number(expected);
    text::law_decimal_stands_for_the_number(actual);
    let first = text::decimal_spec(expected);
    let second = text::decimal_spec(actual);
    assert(text::number_of(first) == expected && text::number_of(second) == actual);
}

/// The verdict on a program: as long as its exchange has not ended well, the verdict is
/// that of the exchange; where it has, the program ends well exactly where nothing is
/// wrong with what was received, and else it fails with what is wrong.
pub proof fn law_verdict(next: NextView, wrong: Option<FailureView>)
    ensures
        judged(next, wrong) is Passed <==> next is Passed && wrong is None,
        !(next is Passed) ==> judged(next, wrong) == next,
        next is Passed ==> (wrong matches Some(failure) ==> judged(next, wrong)
            == NextView::Failed(failure)),
{
}

/// The view of a call is of the call's own kind and holds all that the call holds, as it
/// is.
pub proof fn law_call_is_seen_as_it_is(call: Call)
    ensures
        match call {
            Call::HeadersFromList(headers) => call@ matches CallView::HeadersFromList(list)
                && list.len() == headers@.len() && forall|i: int|
                0 <= i < list.len() ==> (#[trigger] list[i]).name == headers@[i].name@
                    && list[i].value == headers@[i].value@,
            Call::AppendHeader(header) => call@ matches CallView::AppendHeader(field)
                && field.name == header.name@ && field.value == header.value@,
            Call::SetAuthority(authority) => call@ == CallView::SetAuthority(authority@),
            Call::SetPath(path) => call@ == CallView::SetPath(path@),
            Call::Write(bytes) => call@ == CallView::Write(bytes@),
            Call::ReadHeader(name) => call@ == CallView::ReadHeader(name@),
            Call::Read(limit) => call@ == CallView::Read(limit),
            Call::Print(detail) => call@ == CallView::Print(detail@),
            _ => true,
        },
        call is NewHeaders == call@ is NewHeaders,
        call is NewRequest == call@ is NewRequest,
        call is SetMethodPost == call@ is SetMethodPost,
        call is SetSchemeHttp == call@ is SetSchemeHttp,
        call is OpenBody == call@ is OpenBody,
        call is OpenBodyStream == call@ is OpenBodyStream,
        call is CheckWrite == call@ is CheckWrite,
        call is DropBodyStream == call@ is DropBodyStream,
        call is FinishBody == call@ is FinishBody,
        call is Send == call@ is Send,
        call is PollResponse == call@ is PollResponse,
        call is AwaitResponse == call@ is AwaitResponse,
        call is DropFuture == call@ is DropFuture,
        call is ReadStatus == call@ is ReadStatus,
        call is OpenHeaders == call@ is OpenHeaders,
        call is DropHeaders == call@ is DropHeaders,
        call is ConsumeResponse == call@ is ConsumeResponse,
        call is DropResponse == call@ is DropResponse,
        call is OpenInput == call@ is OpenInput,
        call is AwaitInput == call@ is AwaitInput,
        call is SubscribeInput == call@ is SubscribeInput,
        call is AwaitSubscription == call@ is AwaitSubscription,
        call is AwaitOutput == call@ is AwaitOutput,
{
}

/// The view of a reply is of the reply's own kind and holds all that the reply holds, as
/// it is, and a list of replies is seen one by one, in its order.
pub proof fn law_reply_is_seen_as_it_is(reply: Reply, replies: Seq<Reply>)
    ensures
        match reply {
            Reply::Done => reply@ is Done,
            Reply::Refused(detail) => reply@ == ReplyView::Refused(detail@),
            Reply::Budget(room) => reply@ == ReplyView::Budget(room),
            Reply::NotReady => reply@ is NotReady,
            Reply::Taken => reply@ is Taken,
            Reply::Status(code) => reply@ == ReplyView::Status(code),
            Reply::Values(values) => reply@ matches ReplyView::Values(list) && list.len()
                == values@.len() && forall|i: int|
                0 <= i < list.len() ==> #[trigger] list[i] == values@[i]@,
            Reply::Bytes(bytes) => reply@ == ReplyView::Bytes(bytes@),
            Reply::Closed => reply@ is Closed,
        },
        answers(replies).len() == replies.len(),
        forall|i: int|
            0 <= i < replies.len() ==> #[trigger] answers(replies)[i] == replies[i]@,
{
}

/// The view of a failure is of the failure's own kind and holds all that the failure
/// holds, as it is.
pub proof fn law_failure_is_seen_as_it_is(failure: Failure)
    ensures
        match failure {
            Failure::Refused(detail) => failure@ == FailureView::Refused(detail@),
            Failure::ResponseTaken => failure@ is ResponseTaken,
            Failure::ResponseUnavailable => failure@ is ResponseUnavailable,
            Failure::Status(code) => failure@ == FailureView::Status(code),
            Failure::NoContentType => failure@ is NoContentType,
            Failure::ContentType(found) => failure@ == FailureView::ContentType(found@),
            Failure::NoBody(detail) => failure@ == FailureView::NoBody(detail@),
            Failure::NoRoom => failure@ is NoRoom,
            Failure::ClosedEarly => failure@ is ClosedEarly,
            Failure::ReadFailed(detail) => failure@ == FailureView::ReadFailed(detail@),
            Failure::NotClosed => failure@ is NotClosed,
            Failure::BodyMismatch { expected, actual } => failure@ matches
                FailureView::BodyMismatch { expected: e, actual: a } && e == expected && a
                == actual,
            Failure::Greeting(found) => failure@ == FailureView::Greeting(found@),
            Failure::EmptyReport => failure@ is EmptyReport,
            Failure::NoSeparator(line) => failure@ == FailureView::NoSeparator(line@),
            Failure::NoPrefix { server, url } => failure@ matches FailureView::NoPrefix {
                server: s,
                url: u,
            } && s == server@ && u == url@,
            Failure::UnknownPath(path) => failure@ == FailureView::UnknownPath(path@),
            Failure::Hash { found, wanted } => failure@ matches FailureView::Hash {
                found: f,
                wanted: w,
            } && f == found@ && w == wanted@,
            Failure::Misplaced => failure@ is Misplaced,
        },
{
}

/// What comes next is seen as it is, and a check is seen to find something wrong exactly
/// where it gives a failure, which is then what it found.
pub proof fn law_outcome_is_seen_as_it_is(
    next: Next,
    outcome: Result<(), Failure>,
    wrong: Option<FailureView>,
)
    ensures
        match next {
            Next::Call(call) => next@ == NextView::Call(call@),
            Next::Passed => next@ is Passed,
            Next::Failed(failure) => next@ == NextView::Failed(failure@),
        },
        found_wrong(outcome, wrong) ==> (outcome is Ok <==> wrong is None),
        found_wrong(outcome, wrong) ==> (outcome matches Err(failure) ==> wrong == Some(
            failure@,
        )),
{
}

}
