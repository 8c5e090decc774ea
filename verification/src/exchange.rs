//! One exchange with the host: a request goes out, a response comes back.
//!
//! An exchange is told what the host replied, and says which call to make next.
use vstd::prelude::*;
use crate::payload;
use crate::wire::{
    Call, CallView, Failure, FailureView, Next, NextView, Reply, ReplyView,
};

verus! {

/// How many bytes a read asks for.
pub const READ_LEN: u64 = 1048576;

/// The status that a response must have.
pub const STATUS_OK: u16 = 200;

/// A call that prepares the request.
#[derive(Debug, PartialEq, Eq)]
pub struct SetupCall {
    pub call: Call,
    /// Whether the exchange fails where the host refuses the call. Where it
    /// does not, the refusal is printed.
    pub required: bool,
}

/// A call that prepares the request, by its contents.
#[verifier::ext_equal]
pub struct SetupCallView {
    pub call: CallView,
    pub required: bool,
}

impl View for SetupCall {
    type V = SetupCallView;

    open spec fn view(&self) -> SetupCallView {
        SetupCallView { call: self.call@, required: self.required }
    }
}

/// A call of a script that must not be refused.
pub open spec fn must(call: CallView) -> SetupCallView {
    SetupCallView { call, required: true }
}

/// A call of a script that must not be refused.
pub(crate) fn required(call: Call) -> (setup: SetupCall)
    ensures
        setup@ == must(call@),
{
    SetupCall { call, required: true }
}

/// What an exchange is to do.
#[derive(Debug, PartialEq, Eq)]
pub struct Plan {
    /// The calls that prepare the request.
    pub script: Vec<SetupCall>,
    /// The body that is written while the response is read. The script leaves
    /// its output stream open. Where there is none, the script finishes the body.
    pub upload: Option<Vec<u8>>,
    /// The content type that the response must have.
    pub content_type: Option<Vec<u8>>,
}

/// What an exchange is to do, by its contents.
#[verifier::ext_equal]
pub struct PlanView {
    pub script: Seq<SetupCallView>,
    pub upload: Option<Seq<u8>>,
    pub content_type: Option<Seq<u8>>,
}

/// The calls of a script.
pub open spec fn setup_calls(script: Seq<SetupCall>) -> Seq<SetupCallView> {
    script.map_values(|setup: SetupCall| setup@)
}

/// The contents of optional bytes.
pub open spec fn contents(bytes: Option<Vec<u8>>) -> Option<Seq<u8>> {
    match bytes {
        Some(b) => Some(b@),
        None => None,
    }
}

impl View for Plan {
    type V = PlanView;

    open spec fn view(&self) -> PlanView {
        PlanView {
            script: setup_calls(self.script@),
            upload: contents(self.upload),
            content_type: contents(self.content_type),
        }
    }
}

/// The call that an exchange has made and waits for.
#[derive(Debug, Clone, Copy, PartialEq, Eq, Structural)]
pub enum Stage {
    /// A call of the script.
    Setup { required: bool },
    /// `Print`, after a call of the script was refused.
    Printing,
    /// `CheckWrite`, before the request is sent.
    PrimeCheck,
    /// `Write`, before the request is sent.
    PrimeWrite,
    /// `Send`.
    Sending,
    /// `PollResponse`, for the first time.
    FirstPoll,
    /// `AwaitResponse`.
    AwaitingResponse,
    /// `PollResponse`, after `AwaitResponse`.
    SecondPoll,
    /// `DropFuture`.
    DroppingFuture,
    /// `ReadStatus`.
    ReadingStatus,
    /// `OpenHeaders`.
    OpeningHeaders,
    /// `ReadHeader`.
    ReadingType,
    /// `DropHeaders`.
    DroppingHeaders,
    /// `ConsumeResponse`.
    Consuming,
    /// `DropResponse`.
    DroppingResponse,
    /// `OpenInput`.
    OpeningInput,
    /// `CheckWrite`, with the response at hand.
    UploadCheck,
    /// `Write`, with the response at hand.
    UploadWrite,
    /// `AwaitInput`, with some of the body still to be written.
    UploadAwaitInput,
    /// `Read`, with some of the body still to be written, or its last chunk just written.
    UploadRead,
    /// `AwaitOutput`.
    UploadAwaitOutput,
    /// `DropBodyStream`, with all of the body written.
    ClosingStream,
    /// `FinishBody`, with all of the body written.
    Finishing,
    /// `SubscribeInput`, with nothing to upload.
    Subscribing,
    /// `AwaitInput`, with all of the upload written, or `AwaitSubscription`, with
    /// nothing to upload.
    DrainAwait,
    /// `Read`, with nothing left to write.
    DrainRead,
    /// `Read`, after the input stream has ended.
    Recheck,
    /// None: the exchange has not begun, or it has ended.
    Idle,
}

/// The state of an exchange, by its contents.
#[verifier::ext_equal]
pub struct ExchangeView {
    /// The calls of the script that are still to be made.
    pub script: Seq<SetupCallView>,
    pub upload: Option<Seq<u8>>,
    pub content_type: Option<Seq<u8>>,
    pub stage: Stage,
    /// How many bytes of the upload have been written.
    pub sent: nat,
    /// What has been read.
    pub received: Seq<u8>,
}

impl ExchangeView {
    /// The stages in which a chunk of the upload is about to be written.
    pub open spec fn at_a_chunk(self) -> bool {
        self.stage == Stage::PrimeCheck || self.stage == Stage::PrimeWrite || self.stage
            == Stage::UploadCheck || self.stage == Stage::UploadWrite
    }

    /// What holds of an exchange at any time: it has not written more than there
    /// is to write, and where a chunk comes next there is one.
    pub open spec fn wf(self) -> bool {
        match self.upload {
            Some(body) => self.sent <= body.len() && (self.at_a_chunk() ==> self.sent
                < body.len()),
            None => self.sent == 0 && !self.at_a_chunk(),
        }
    }

    pub open spec fn in_stage(self, stage: Stage) -> ExchangeView {
        ExchangeView { stage, ..self }
    }

    /// The exchange makes `call`, and is then in `stage`.
    pub open spec fn go(self, stage: Stage, call: CallView) -> (ExchangeView, NextView) {
        (self.in_stage(stage), NextView::Call(call))
    }

    /// The exchange ends in a failure.
    pub open spec fn fail(self, failure: FailureView) -> (ExchangeView, NextView) {
        (self.in_stage(Stage::Idle), NextView::Failed(failure))
    }

    /// The exchange ends well.
    pub open spec fn pass(self) -> (ExchangeView, NextView) {
        (self.in_stage(Stage::Idle), NextView::Passed)
    }

    /// The bytes that the next write takes.
    pub open spec fn chunk(self) -> Seq<u8> {
        match self.upload {
            Some(body) => payload::chunk_spec(body, self.sent as int),
            None => Seq::empty(),
        }
    }

    /// Some of the upload is still to be written.
    pub open spec fn unsent(self) -> bool {
        match self.upload {
            Some(body) => self.sent < body.len(),
            None => false,
        }
    }

    /// The chunk has been written.
    pub open spec fn chunk_sent(self) -> ExchangeView {
        ExchangeView { sent: self.sent + self.chunk().len(), ..self }
    }

    /// `bytes` have been read.
    pub open spec fn took(self, bytes: Seq<u8>) -> ExchangeView {
        ExchangeView { received: self.received + bytes, ..self }
    }

    /// The next call of the script; behind its end, the first chunk.
    pub open spec fn set_up(self) -> (ExchangeView, NextView) {
        if self.script.len() > 0 {
            ExchangeView { script: self.script.drop_first(), ..self }.go(
                Stage::Setup { required: self.script.first().required },
                self.script.first().call,
            )
        } else {
            self.prime()
        }
    }

    /// The next chunk before the request is sent; with none left, the request is sent.
    pub open spec fn prime(self) -> (ExchangeView, NextView) {
        if self.unsent() {
            self.go(Stage::PrimeCheck, CallView::CheckWrite)
        } else {
            self.go(Stage::Sending, CallView::Send)
        }
    }

    /// The next chunk with the response at hand. With none left, the stream is
    /// given back; with nothing to upload at all, the input stream is subscribed to.
    pub open spec fn upload_on(self) -> (ExchangeView, NextView) {
        if self.unsent() {
            self.go(Stage::UploadCheck, CallView::CheckWrite)
        } else if self.upload is Some {
            self.go(Stage::ClosingStream, CallView::DropBodyStream)
        } else {
            self.go(Stage::Subscribing, CallView::SubscribeInput)
        }
    }

    /// The rest of the response is read. Each read waits for the stream, by the
    /// one subscription where there is nothing to upload.
    pub open spec fn drain(self) -> (ExchangeView, NextView) {
        self.go(
            Stage::DrainAwait,
            if self.upload is Some {
                CallView::AwaitInput
            } else {
                CallView::AwaitSubscription
            },
        )
    }

    /// What comes after a call that need only be done, `then` being what comes
    /// where it was.
    pub open spec fn after_done(
        self,
        reply: ReplyView,
        then: (ExchangeView, NextView),
    ) -> (ExchangeView, NextView) {
        match reply {
            ReplyView::Done => then,
            ReplyView::Refused(detail) => self.fail(FailureView::Refused(detail)),
            _ => self.fail(FailureView::Misplaced),
        }
    }

    /// What comes after `reply`.
    pub open spec fn next(self, reply: ReplyView) -> (ExchangeView, NextView) {
        match self.stage {
            Stage::Setup { required } => match reply {
                ReplyView::Refused(detail) if !required => self.go(
                    Stage::Printing,
                    CallView::Print(detail),
                ),
                _ => self.after_done(reply, self.set_up()),
            },
            Stage::Printing => self.after_done(reply, self.set_up()),
            Stage::PrimeCheck => match reply {
                ReplyView::Budget(room) => if room >= self.chunk().len() {
                    self.go(Stage::PrimeWrite, CallView::Write(self.chunk()))
                } else {
                    self.go(Stage::Sending, CallView::Send)
                },
                ReplyView::Refused(detail) => self.fail(FailureView::Refused(detail)),
                _ => self.fail(FailureView::Misplaced),
            },
            Stage::PrimeWrite => self.after_done(reply, self.chunk_sent().prime()),
            Stage::Sending => self.after_done(
                reply,
                self.go(Stage::FirstPoll, CallView::PollResponse),
            ),
            Stage::FirstPoll => match reply {
                ReplyView::NotReady => self.go(Stage::AwaitingResponse, CallView::AwaitResponse),
                ReplyView::Taken => self.fail(FailureView::ResponseTaken),
                _ => self.after_done(reply, self.go(Stage::DroppingFuture, CallView::DropFuture)),
            },
            Stage::AwaitingResponse => self.after_done(
                reply,
                self.go(Stage::SecondPoll, CallView::PollResponse),
            ),
            Stage::SecondPoll => match reply {
                ReplyView::NotReady => self.fail(FailureView::ResponseUnavailable),
                ReplyView::Taken => self.fail(FailureView::ResponseTaken),
                _ => self.after_done(reply, self.go(Stage::DroppingFuture, CallView::DropFuture)),
            },
            Stage::DroppingFuture => self.after_done(
                reply,
                self.go(Stage::ReadingStatus, CallView::ReadStatus),
            ),
            Stage::ReadingStatus => match reply {
                ReplyView::Status(code) => if code == STATUS_OK {
                    self.go(Stage::OpeningHeaders, CallView::OpenHeaders)
                } else {
                    self.fail(FailureView::Status(code))
                },
                _ => self.fail(FailureView::Misplaced),
            },
            Stage::OpeningHeaders => self.after_done(
                reply,
                if self.content_type is Some {
                    self.go(Stage::ReadingType, CallView::ReadHeader("content-type"@))
                } else {
                    self.go(Stage::DroppingHeaders, CallView::DropHeaders)
                },
            ),
            Stage::ReadingType => match reply {
                ReplyView::Values(values) => if values.len() == 0 {
                    self.fail(FailureView::NoContentType)
                } else if Some(values[0]) == self.content_type {
                    self.go(Stage::DroppingHeaders, CallView::DropHeaders)
                } else {
                    self.fail(FailureView::ContentType(values[0]))
                },
                _ => self.fail(FailureView::Misplaced),
            },
            Stage::DroppingHeaders => self.after_done(
                reply,
                self.go(Stage::Consuming, CallView::ConsumeResponse),
            ),
            Stage::Consuming => match reply {
                ReplyView::Refused(detail) => self.fail(FailureView::NoBody(detail)),
                _ => self.after_done(
                    reply,
                    self.go(Stage::DroppingResponse, CallView::DropResponse),
                ),
            },
            Stage::DroppingResponse => self.after_done(
                reply,
                self.go(Stage::OpeningInput, CallView::OpenInput),
            ),
            Stage::OpeningInput => self.after_done(reply, self.upload_on()),
            Stage::UploadCheck => match reply {
                ReplyView::Budget(room) => if room >= self.chunk().len() {
                    self.go(Stage::UploadWrite, CallView::Write(self.chunk()))
                } else {
                    self.fail(FailureView::NoRoom)
                },
                ReplyView::Refused(detail) => self.fail(FailureView::Refused(detail)),
                _ => self.fail(FailureView::Misplaced),
            },
            Stage::UploadWrite => self.after_done(
                reply,
                self.chunk_sent().go(Stage::UploadAwaitInput, CallView::AwaitInput),
            ),
            Stage::UploadAwaitInput => self.after_done(
                reply,
                self.go(Stage::UploadRead, CallView::Read(READ_LEN)),
            ),
            Stage::UploadRead => match reply {
                ReplyView::Bytes(bytes) => self.took(bytes).go(
                    Stage::UploadAwaitOutput,
                    CallView::AwaitOutput,
                ),
                ReplyView::Closed => self.fail(FailureView::ClosedEarly),
                ReplyView::Refused(detail) => self.fail(FailureView::ReadFailed(detail)),
                _ => self.fail(FailureView::Misplaced),
            },
            Stage::UploadAwaitOutput => self.after_done(reply, self.upload_on()),
            Stage::ClosingStream => self.after_done(
                reply,
                self.go(Stage::Finishing, CallView::FinishBody),
            ),
            Stage::Finishing => self.after_done(reply, self.drain()),
            Stage::Subscribing => self.after_done(reply, self.drain()),
            Stage::DrainAwait => self.after_done(
                reply,
                self.go(Stage::DrainRead, CallView::Read(READ_LEN)),
            ),
            Stage::DrainRead => match reply {
                ReplyView::Bytes(bytes) => self.took(bytes).drain(),
                ReplyView::Closed => if self.upload is Some {
                    self.go(Stage::Recheck, CallView::Read(READ_LEN))
                } else {
                    self.pass()
                },
                ReplyView::Refused(detail) => self.fail(FailureView::ReadFailed(detail)),
                _ => self.fail(FailureView::Misplaced),
            },
            Stage::Recheck => match reply {
                ReplyView::Closed => self.pass(),
                ReplyView::Bytes(_) => self.fail(FailureView::NotClosed),
                ReplyView::Refused(_) => self.fail(FailureView::NotClosed),
                _ => self.fail(FailureView::Misplaced),
            },
            Stage::Idle => self.fail(FailureView::Misplaced),
        }
    }
}

/// The state of an exchange that has made no call yet.
pub open spec fn fresh(plan: PlanView) -> ExchangeView {
    ExchangeView {
        script: plan.script,
        upload: plan.upload,
        content_type: plan.content_type,
        stage: Stage::Idle,
        sent: 0,
        received: Seq::empty(),
    }
}

/// An exchange under way.
pub struct Exchange {
    script: Vec<SetupCall>,
    upload: Option<Vec<u8>>,
    content_type: Option<Vec<u8>>,
    stage: Stage,
    sent: usize,
    received: Vec<u8>,
}

impl View for Exchange {
    type V = ExchangeView;

    closed spec fn view(&self) -> ExchangeView {
        ExchangeView {
            script: setup_calls(self.script@),
            upload: contents(self.upload),
            content_type: contents(self.content_type),
            stage: self.stage,
            sent: self.sent as nat,
            received: self.received@,
        }
    }
}

/// Two byte sequences are the same.
pub(crate) fn same_bytes(a: &Vec<u8>, b: &Vec<u8>) -> (same: bool)
    ensures
        same == (a@ == b@),
{
    if a.len() != b.len() {
        return false;
    }
    let mut i: usize = 0;
    while i < a.len()
        invariant
            i <= a@.len(),
            a@.len() == b@.len(),
            forall|j: int| 0 <= j < i ==> a@[j] == b@[j],
        decreases a@.len() - i,
    {
        if a[i] != b[i] {
            return false;
        }
        i = i + 1;
    }
    assert(a@ =~= b@);
    true
}

/// A copy of some bytes.
pub(crate) fn copy_bytes(bytes: &Vec<u8>) -> (copy: Vec<u8>)
    ensures
        copy@ == bytes@,
{
    vstd::slice::slice_to_vec(bytes.as_slice())
}

impl Exchange {
    /// What holds of an exchange at any time.
    pub open spec fn wf(&self) -> bool {
        self@.wf()
    }

    /// Begins an exchange, and says which call it makes first.
    pub fn open(plan: Plan) -> (begun: (Exchange, Next))
        ensures
            (begun.0@, begun.1@) == fresh(plan@).set_up(),
            begun.0.wf(),
    {
        let mut exchange = Exchange {
            script: plan.script,
            upload: plan.upload,
            content_type: plan.content_type,
            stage: Stage::Idle,
            sent: 0,
            received: Vec::new(),
        };
        assert(exchange@ =~= fresh(plan@));
        let next = exchange.set_up();
        (exchange, next)
    }

    fn go(&mut self, stage: Stage, call: Call) -> (next: Next)
        ensures
            (final(self)@, next@) == old(self)@.go(stage, call@),
    {
        self.stage = stage;
        Next::Call(call)
    }

    fn fail(&mut self, failure: Failure) -> (next: Next)
        ensures
            (final(self)@, next@) == old(self)@.fail(failure@),
    {
        self.stage = Stage::Idle;
        Next::Failed(failure)
    }

    fn pass(&mut self) -> (next: Next)
        ensures
            (final(self)@, next@) == old(self)@.pass(),
    {
        self.stage = Stage::Idle;
        Next::Passed
    }

    fn set_up(&mut self) -> (next: Next)
        ensures
            (final(self)@, next@) == old(self)@.set_up(),
    {
        if self.script.len() > 0 {
            let setup = self.script.remove(0);
            assert(self@.script =~= old(self)@.script.drop_first());
            self.go(Stage::Setup { required: setup.required }, setup.call)
        } else {
            self.prime()
        }
    }

    fn unsent(&self) -> (left: bool)
        ensures
            left == self@.unsent(),
    {
        match &self.upload {
            Some(body) => self.sent < body.len(),
            None => false,
        }
    }

    fn prime(&mut self) -> (next: Next)
        ensures
            (final(self)@, next@) == old(self)@.prime(),
    {
        if self.unsent() {
            self.go(Stage::PrimeCheck, Call::CheckWrite)
        } else {
            self.go(Stage::Sending, Call::Send)
        }
    }

    fn upload_on(&mut self) -> (next: Next)
        ensures
            (final(self)@, next@) == old(self)@.upload_on(),
    {
        if self.unsent() {
            self.go(Stage::UploadCheck, Call::CheckWrite)
        } else if self.upload.is_some() {
            self.go(Stage::ClosingStream, Call::DropBodyStream)
        } else {
            self.go(Stage::Subscribing, Call::SubscribeInput)
        }
    }

    fn drain(&mut self) -> (next: Next)
        ensures
            (final(self)@, next@) == old(self)@.drain(),
    {
        if self.upload.is_some() {
            self.go(Stage::DrainAwait, Call::AwaitInput)
        } else {
            self.go(Stage::DrainAwait, Call::AwaitSubscription)
        }
    }

    /// What comes after a call that was not done.
    fn undone(&mut self, reply: &Reply) -> (next: Next)
        ensures
            (final(self)@, next@) == match reply@ {
                ReplyView::Refused(detail) => old(self)@.fail(FailureView::Refused(detail)),
                _ => old(self)@.fail(FailureView::Misplaced),
            },
    {
        match reply {
            Reply::Refused(detail) => self.fail(Failure::Refused(detail.clone())),
            _ => self.fail(Failure::Misplaced),
        }
    }

    /// The bytes that the next write takes.
    fn chunk(&self) -> (bytes: Vec<u8>)
        requires
            self.wf(),
        ensures
            bytes@ == self@.chunk(),
    {
        match &self.upload {
            Some(body) => payload::chunk(body, self.sent),
            None => Vec::new(),
        }
    }

    /// How many bytes the next write takes.
    fn chunk_width(&self) -> (width: usize)
        requires
            self.wf(),
        ensures
            width == self@.chunk().len(),
            self.sent + width <= usize::MAX,
    {
        match &self.upload {
            Some(body) => payload::chunk_width(body, self.sent),
            None => 0,
        }
    }

    fn chunk_sent(&mut self)
        requires
            old(self).wf(),
        ensures
            final(self)@ == old(self)@.chunk_sent(),
    {
        let width: usize = self.chunk_width();
        self.sent = self.sent + width;
    }

    fn take(&mut self, bytes: &Vec<u8>)
        ensures
            final(self)@ == old(self)@.took(bytes@),
    {
        let mut more = copy_bytes(bytes);
        self.received.append(&mut more);
    }

    /// Whether `found` is the content type that is asked for.
    fn is_content_type(&self, found: &Vec<u8>) -> (same: bool)
        ensures
            same == (Some(found@) == self@.content_type),
    {
        match &self.content_type {
            Some(wanted) => same_bytes(found, wanted),
            None => false,
        }
    }

    /// What has been read so far.
    pub fn received(&self) -> (bytes: &Vec<u8>)
        ensures
            bytes@ == self@.received,
    {
        &self.received
    }

    /// Takes the reply to the last call, and says what comes next.
    pub fn step(&mut self, reply: &Reply) -> (next: Next)
        requires
            old(self).wf(),
        ensures
            (final(self)@, next@) == old(self)@.next(reply@),
            final(self).wf(),
    {
        match self.stage {
            Stage::Setup { required } => match reply {
                Reply::Done => self.set_up(),
                Reply::Refused(detail) => if required {
                    self.fail(Failure::Refused(detail.clone()))
                } else {
                    self.go(Stage::Printing, Call::Print(detail.clone()))
                },
                _ => self.fail(Failure::Misplaced),
            },
            Stage::Printing => match reply {
                Reply::Done => self.set_up(),
                _ => self.undone(reply),
            },
            Stage::PrimeCheck => match reply {
                Reply::Budget(room) => if *room >= self.chunk_width() as u64 {
                    let bytes = self.chunk();
                    self.go(Stage::PrimeWrite, Call::Write(bytes))
                } else {
                    self.go(Stage::Sending, Call::Send)
                },
                _ => self.undone(reply),
            },
            Stage::PrimeWrite => match reply {
                Reply::Done => {
                    self.chunk_sent();
                    self.prime()
                },
                _ => self.undone(reply),
            },
            Stage::Sending => match reply {
                Reply::Done => self.go(Stage::FirstPoll, Call::PollResponse),
                _ => self.undone(reply),
            },
            Stage::FirstPoll => match reply {
                Reply::Done => self.go(Stage::DroppingFuture, Call::DropFuture),
                Reply::NotReady => self.go(Stage::AwaitingResponse, Call::AwaitResponse),
                Reply::Taken => self.fail(Failure::ResponseTaken),
                _ => self.undone(reply),
            },
            Stage::AwaitingResponse => match reply {
                Reply::Done => self.go(Stage::SecondPoll, Call::PollResponse),
                _ => self.undone(reply),
            },
            Stage::SecondPoll => match reply {
                Reply::Done => self.go(Stage::DroppingFuture, Call::DropFuture),
                Reply::NotReady => self.fail(Failure::ResponseUnavailable),
                Reply::Taken => self.fail(Failure::ResponseTaken),
                _ => self.undone(reply),
            },
            Stage::DroppingFuture => match reply {
                Reply::Done => self.go(Stage::ReadingStatus, Call::ReadStatus),
                _ => self.undone(reply),
            },
            Stage::ReadingStatus => match reply {
                Reply::Status(code) => if *code == STATUS_OK {
                    self.go(Stage::OpeningHeaders, Call::OpenHeaders)
                } else {
                    self.fail(Failure::Status(*code))
                },
                _ => self.fail(Failure::Misplaced),
            },
            Stage::OpeningHeaders => match reply {
                Reply::Done => if self.content_type.is_some() {
                    self.go(Stage::ReadingType, Call::ReadHeader("content-type".to_owned()))
                } else {
                    self.go(Stage::DroppingHeaders, Call::DropHeaders)
                },
                _ => self.undone(reply),
            },
            Stage::ReadingType => match reply {
                Reply::Values(values) => if values.len() == 0 {
                    self.fail(Failure::NoContentType)
                } else if self.is_content_type(&values[0]) {
                    self.go(Stage::DroppingHeaders, Call::DropHeaders)
                } else {
                    self.fail(Failure::ContentType(copy_bytes(&values[0])))
                },
                _ => self.fail(Failure::Misplaced),
            },
            Stage::DroppingHeaders => match reply {
                Reply::Done => self.go(Stage::Consuming, Call::ConsumeResponse),
                _ => self.undone(reply),
            },
            Stage::Consuming => match reply {
                Reply::Done => self.go(Stage::DroppingResponse, Call::DropResponse),
                Reply::Refused(detail) => self.fail(Failure::NoBody(detail.clone())),
                _ => self.fail(Failure::Misplaced),
            },
            Stage::DroppingResponse => match reply {
                Reply::Done => self.go(Stage::OpeningInput, Call::OpenInput),
                _ => self.undone(reply),
            },
            Stage::OpeningInput => match reply {
                Reply::Done => self.upload_on(),
                _ => self.undone(reply),
            },
            Stage::UploadCheck => match reply {
                Reply::Budget(room) => if *room >= self.chunk_width() as u64 {
                    let bytes = self.chunk();
                    self.go(Stage::UploadWrite, Call::Write(bytes))
                } else {
                    self.fail(Failure::NoRoom)
                },
                _ => self.undone(reply),
            },
            Stage::UploadWrite => match reply {
                Reply::Done => {
                    self.chunk_sent();
                    self.go(Stage::UploadAwaitInput, Call::AwaitInput)
                },
                _ => self.undone(reply),
            },
            Stage::UploadAwaitInput => match reply {
                Reply::Done => self.go(Stage::UploadRead, Call::Read(READ_LEN)),
                _ => self.undone(reply),
            },
            Stage::UploadRead => match reply {
                Reply::Bytes(bytes) => {
                    self.take(bytes);
                    self.go(Stage::UploadAwaitOutput, Call::AwaitOutput)
                },
                Reply::Closed => self.fail(Failure::ClosedEarly),
                Reply::Refused(detail) => self.fail(Failure::ReadFailed(detail.clone())),
                _ => self.fail(Failure::Misplaced),
            },
            Stage::UploadAwaitOutput => match reply {
                Reply::Done => self.upload_on(),
                _ => self.undone(reply),
            },
            Stage::ClosingStream => match reply {
                Reply::Done => self.go(Stage::Finishing, Call::FinishBody),
                _ => self.undone(reply),
            },
            Stage::Finishing => match reply {
                Reply::Done => self.drain(),
                _ => self.undone(reply),
            },
            Stage::Subscribing => match reply {
                Reply::Done => self.drain(),
                _ => self.undone(reply),
            },
            Stage::DrainAwait => match reply {
                Reply::Done => self.go(Stage::DrainRead, Call::Read(READ_LEN)),
                _ => self.undone(reply),
            },
            Stage::DrainRead => match reply {
                Reply::Bytes(bytes) => {
                    self.take(bytes);
                    self.drain()
                },
                Reply::Closed => if self.upload.is_some() {
                    self.go(Stage::Recheck, Call::Read(READ_LEN))
                } else {
                    self.pass()
                },
                Reply::Refused(detail) => self.fail(Failure::ReadFailed(detail.clone())),
                _ => self.fail(Failure::Misplaced),
            },
            Stage::Recheck => match reply {
                Reply::Closed => self.pass(),
                Reply::Bytes(_) => self.fail(Failure::NotClosed),
                Reply::Refused(_) => self.fail(Failure::NotClosed),
                _ => self.fail(Failure::Misplaced),
            },
            Stage::Idle => self.fail(Failure::Misplaced),
        }
    }
}

/// A plan is seen as it is: the calls of its script one by one, in their order, each with
/// whether it must be done, and the bytes to upload and the content type where there
/// are some.
pub proof fn law_plan_is_seen_as_it_is(plan: Plan)
    ensures
        plan@.script.len() == plan.script@.len(),
        forall|i: int|
            0 <= i < plan.script@.len() ==> (#[trigger] plan@.script[i]).call
                == plan.script@[i].call@ && plan@.script[i].required
                == plan.script@[i].required,
        plan.upload is None <==> plan@.upload is None,
        plan.upload matches Some(bytes) ==> plan@.upload == Some(bytes@),
        plan.content_type is None <==> plan@.content_type is None,
        plan.content_type matches Some(bytes) ==> plan@.content_type == Some(bytes@),
{
}

/// An exchange that has ended makes no further call and does not end well anew: whatever
/// it is told is out of place.
pub proof fn law_ended_exchange_makes_no_call(state: ExchangeView, reply: ReplyView)
    requires
        state.stage is Idle,
    ensures
        state.next(reply).1 == NextView::Failed(FailureView::Misplaced),
        state.next(reply).0 == state,
{
}

}
