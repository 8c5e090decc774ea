//! Whole runs of an exchange, and what holds of every run.
use vstd::prelude::*;
use crate::exchange::{Exchange, ExchangeView, Plan, PlanView, Stage, READ_LEN, STATUS_OK};
use crate::exchange;
use crate::payload;
use crate::wire::{CallView, FailureView, Next, NextView, Reply, ReplyView};
use crate::wire;

verus! {

/// A call and the reply to it.
pub type Entry = (CallView, ReplyView);

/// How far a run has come.
#[verifier::ext_equal]
pub struct RunView {
    /// The state of the exchange.
    pub state: ExchangeView,
    /// The calls that were made, each with its reply.
    pub log: Seq<Entry>,
    /// What comes next.
    pub next: NextView,
}

impl RunView {
    /// The run takes one more reply. A run that has ended takes none.
    pub open spec fn hear(self, reply: ReplyView) -> RunView {
        match self.next {
            NextView::Call(call) => {
                let (state, next) = self.state.next(reply);
                RunView { state, log: self.log.push((call, reply)), next }
            },
            _ => self,
        }
    }
}

/// A run that has heard no reply yet.
pub open spec fn begin(plan: PlanView) -> RunView {
    let (state, next) = exchange::fresh(plan).set_up();
    RunView { state, log: Seq::empty(), next }
}

/// The run of `plan` with a host that gives these replies, one after the other.
pub open spec fn run(plan: PlanView, replies: Seq<ReplyView>) -> RunView
    decreases replies.len(),
{
    if replies.len() == 0 {
        begin(plan)
    } else {
        run(plan, replies.drop_last()).hear(replies.last())
    }
}

/// Runs `plan` with a host that gives these replies.
pub fn replay(plan: Plan, replies: &Vec<Reply>) -> (end: (Exchange, Next))
    ensures
        end.0@ == run(plan@, wire::answers(replies@)).state,
        end.1@ == run(plan@, wire::answers(replies@)).next,
{
    let ghost intent = plan@;
    let ghost heard = wire::answers(replies@);
    let (mut exchange, mut next) = Exchange::open(plan);
    let mut i: usize = 0;
    assert(heard.take(0) =~= Seq::<ReplyView>::empty());
    while i < replies.len()
        invariant
            i <= replies@.len(),
            heard == wire::answers(replies@),
            exchange.wf(),
            exchange@ == run(intent, heard.take(i as int)).state,
            next@ == run(intent, heard.take(i as int)).next,
        decreases replies@.len() - i,
    {
        assert(heard.take(i + 1).drop_last() =~= heard.take(i as int));
        if let Next::Call(_) = &next {
            next = exchange.step(&replies[i]);
        }
        i = i + 1;
    }
    assert(heard.take(i as int) =~= heard);
    (exchange, next)
}

/// The bytes that the host has taken, in the order of the writes.
pub open spec fn written(log: Seq<Entry>) -> Seq<u8>
    decreases log.len(),
{
    if log.len() == 0 {
        Seq::empty()
    } else {
        match log.last() {
            (CallView::Write(bytes), ReplyView::Done) => written(log.drop_last()) + bytes,
            _ => written(log.drop_last()),
        }
    }
}

/// The bytes that the host has given, in the order of the reads.
pub open spec fn read_back(log: Seq<Entry>) -> Seq<u8>
    decreases log.len(),
{
    if log.len() == 0 {
        Seq::empty()
    } else {
        match log.last() {
            (CallView::Read(_), ReplyView::Bytes(bytes)) => read_back(log.drop_last()) + bytes,
            _ => read_back(log.drop_last()),
        }
    }
}

/// How often the request was handed over.
pub open spec fn sends(log: Seq<Entry>) -> nat
    decreases log.len(),
{
    if log.len() == 0 {
        0
    } else {
        sends(log.drop_last()) + if log.last().0 is Send {
            1nat
        } else {
            0nat
        }
    }
}

/// How often the program looked whether the response is there.
pub open spec fn polls(log: Seq<Entry>) -> nat
    decreases log.len(),
{
    if log.len() == 0 {
        0
    } else {
        polls(log.drop_last()) + if log.last().0 is PollResponse {
            1nat
        } else {
            0nat
        }
    }
}

/// How often the program subscribed to the input stream to keep the subscription.
pub open spec fn subscriptions(log: Seq<Entry>) -> nat
    decreases log.len(),
{
    if log.len() == 0 {
        0
    } else {
        subscriptions(log.drop_last()) + if log.last().0 is SubscribeInput {
            1nat
        } else {
            0nat
        }
    }
}

/// The calls that prepared the request: those of the log that neither print nor
/// write.
pub open spec fn prepared(log: Seq<Entry>) -> Seq<CallView>
    decreases log.len(),
{
    if log.len() == 0 {
        Seq::empty()
    } else {
        match log.last().0 {
            CallView::Print(_) => prepared(log.drop_last()),
            CallView::CheckWrite => prepared(log.drop_last()),
            CallView::Write(_) => prepared(log.drop_last()),
            call => prepared(log.drop_last()).push(call),
        }
    }
}

/// The calls of a script.
pub open spec fn calls(script: Seq<exchange::SetupCallView>) -> Seq<CallView> {
    script.map_values(|setup: exchange::SetupCallView| setup.call)
}

/// A call that may stand in a script.
pub open spec fn is_setup(call: CallView) -> bool {
    match call {
        CallView::HeadersFromList(_) => true,
        CallView::NewHeaders => true,
        CallView::AppendHeader(_) => true,
        CallView::NewRequest => true,
        CallView::SetMethodPost => true,
        CallView::SetSchemeHttp => true,
        CallView::SetAuthority(_) => true,
        CallView::SetPath(_) => true,
        CallView::OpenBody => true,
        CallView::OpenBodyStream => true,
        CallView::DropBodyStream => true,
        CallView::FinishBody => true,
        _ => false,
    }
}

/// A plan that makes sense: the script only prepares, and it finishes the body
/// exactly where there is nothing to upload.
pub open spec fn sound(plan: PlanView) -> bool {
    &&& forall|i: int| 0 <= i < plan.script.len() ==> is_setup(#[trigger] plan.script[i].call)
    &&& calls(plan.script).contains(CallView::FinishBody) <==> plan.upload is None
}

/// How far along the exchange is, by the call that it waits for.
pub open spec fn rank(stage: Stage) -> int {
    match stage {
        Stage::Setup { .. } => 0,
        Stage::Printing => 0,
        Stage::PrimeCheck => 1,
        Stage::PrimeWrite => 1,
        Stage::Sending => 2,
        Stage::FirstPoll => 3,
        Stage::AwaitingResponse => 3,
        Stage::SecondPoll => 3,
        Stage::DroppingFuture => 4,
        Stage::ReadingStatus => 5,
        Stage::OpeningHeaders => 6,
        Stage::ReadingType => 7,
        Stage::DroppingHeaders => 8,
        Stage::Consuming => 9,
        Stage::DroppingResponse => 10,
        Stage::OpeningInput => 11,
        Stage::Subscribing => 11,
        Stage::UploadCheck => 12,
        Stage::UploadWrite => 12,
        Stage::UploadAwaitInput => 12,
        Stage::UploadRead => 12,
        Stage::UploadAwaitOutput => 12,
        Stage::ClosingStream => 13,
        Stage::Finishing => 14,
        Stage::DrainAwait => 15,
        Stage::DrainRead => 15,
        Stage::Recheck => 16,
        Stage::Idle => 17,
    }
}

/// The call that belongs to a stage, where the stage alone says it.
pub open spec fn call_of(state: ExchangeView) -> Option<CallView> {
    match state.stage {
        Stage::PrimeCheck => Some(CallView::CheckWrite),
        Stage::PrimeWrite => Some(CallView::Write(state.chunk())),
        Stage::Sending => Some(CallView::Send),
        Stage::FirstPoll => Some(CallView::PollResponse),
        Stage::AwaitingResponse => Some(CallView::AwaitResponse),
        Stage::SecondPoll => Some(CallView::PollResponse),
        Stage::DroppingFuture => Some(CallView::DropFuture),
        Stage::ReadingStatus => Some(CallView::ReadStatus),
        Stage::OpeningHeaders => Some(CallView::OpenHeaders),
        Stage::ReadingType => Some(CallView::ReadHeader("content-type"@)),
        Stage::DroppingHeaders => Some(CallView::DropHeaders),
        Stage::Consuming => Some(CallView::ConsumeResponse),
        Stage::DroppingResponse => Some(CallView::DropResponse),
        Stage::OpeningInput => Some(CallView::OpenInput),
        Stage::UploadCheck => Some(CallView::CheckWrite),
        Stage::UploadWrite => Some(CallView::Write(state.chunk())),
        Stage::UploadAwaitInput => Some(CallView::AwaitInput),
        Stage::UploadRead => Some(CallView::Read(READ_LEN)),
        Stage::UploadAwaitOutput => Some(CallView::AwaitOutput),
        Stage::ClosingStream => Some(CallView::DropBodyStream),
        Stage::Finishing => Some(CallView::FinishBody),
        Stage::Subscribing => Some(CallView::SubscribeInput),
        Stage::DrainAwait => if state.upload is Some {
            Some(CallView::AwaitInput)
        } else {
            Some(CallView::AwaitSubscription)
        },
        Stage::DrainRead => Some(CallView::Read(READ_LEN)),
        Stage::Recheck => Some(CallView::Read(READ_LEN)),
        _ => None,
    }
}

/// The call that comes next is the one that the stage waits for.
pub open spec fn stage_fits(run: RunView) -> bool {
    match run.next {
        NextView::Call(call) => match run.state.stage {
            Stage::Setup { .. } => is_setup(call),
            Stage::Printing => call is Print,
            _ => call_of(run.state) == Some(call),
        },
        _ => run.state.stage == Stage::Idle,
    }
}

/// What has been written so far is the front of the upload, and what was read is
/// what the exchange has received, as long as it has not failed.
pub open spec fn books_balance(plan: PlanView, run: RunView) -> bool {
    &&& run.state.wf()
    &&& run.state.upload == plan.upload
    &&& run.state.content_type == plan.content_type
    &&& written(run.log) == match plan.upload {
        Some(body) => body.take(run.state.sent as int),
        None => Seq::empty(),
    }
    &&& !(run.next is Failed) ==> read_back(run.log) == run.state.received
}

/// A write of `bytes` comes right behind the log `before`: the host has just said
/// that it takes so many, and `bytes` is the chunk that follows what it has taken.
pub open spec fn write_is_due(plan: PlanView, before: Seq<Entry>, bytes: Seq<u8>) -> bool {
    &&& before.len() > 0
    &&& before.last().0 is CheckWrite
    &&& before.last().1 matches ReplyView::Budget(room) && room >= bytes.len()
    &&& plan.upload matches Some(body) && bytes == payload::chunk_spec(
        body,
        written(before).len() as int,
    )
    &&& 0 < bytes.len() <= payload::CHUNK_LEN
}

/// Each write of a run was due, and so is the one that comes next.
pub open spec fn writes_are_due(plan: PlanView, run: RunView) -> bool {
    &&& forall|i: int|
        #![trigger run.log[i]]
        0 <= i < run.log.len() ==> (run.log[i].0 matches CallView::Write(bytes)
            ==> write_is_due(plan, run.log.take(i), bytes))
    &&& run.next matches NextView::Call(CallView::Write(bytes)) ==> write_is_due(
        plan,
        run.log,
        bytes,
    )
}

proof fn lemma_begin(plan: PlanView)
    requires
        sound(plan),
    ensures
        stage_fits(begin(plan)),
        books_balance(plan, begin(plan)),
        writes_are_due(plan, begin(plan)),
{
    if let Some(body) = plan.upload {
        assert(body.take(0) =~= Seq::<u8>::empty());
    }
    if plan.script.len() > 0 {
        assert(is_setup(plan.script[0].call));
    }
}

/// The calls that are still to be made are calls of the script.
pub open spec fn script_left(plan: PlanView, run: RunView) -> bool {
    &&& run.state.script.len() <= plan.script.len()
    &&& run.state.script == plan.script.skip(plan.script.len() - run.state.script.len())
}

proof fn lemma_hear(plan: PlanView, run: RunView, reply: ReplyView)
    requires
        sound(plan),
        script_left(plan, run),
        stage_fits(run),
        books_balance(plan, run),
        writes_are_due(plan, run),
    ensures
        script_left(plan, run.hear(reply)),
        stage_fits(run.hear(reply)),
        books_balance(plan, run.hear(reply)),
        writes_are_due(plan, run.hear(reply)),
{
    if let NextView::Call(call) = run.next {
        let after = run.hear(reply);
        assert(after.log.drop_last() =~= run.log);
        assert(after.log.last() == (call, reply));
        if run.state.script.len() > 0 {
            assert(run.state.script[0] == plan.script[plan.script.len()
                - run.state.script.len()]);
            assert(is_setup(run.state.script[0].call));
        }
        if run.state.script.len() > 0 {
            assert(plan.script.skip(plan.script.len() - run.state.script.len()).drop_first()
                =~= plan.script.skip(plan.script.len() - run.state.script.len() + 1));
        }
        assert(stage_fits(after));
        if let Some(body) = plan.upload {
            assert(body.take(run.state.sent as int) + run.state.chunk() =~= body.take(
                (run.state.sent + run.state.chunk().len()) as int,
            )) by {
                if !run.state.unsent() {
                    assert(run.state.chunk() =~= Seq::<u8>::empty());
                }
            }
        }
        assert(books_balance(plan, after));
        assert forall|i: int|
            #![trigger after.log[i]]
            0 <= i < after.log.len() implies (after.log[i].0 matches CallView::Write(bytes)
            ==> write_is_due(plan, after.log.take(i), bytes)) by {
            if i < run.log.len() {
                assert(after.log[i] == run.log[i]);
                assert(after.log.take(i) =~= run.log.take(i));
            } else {
                assert(after.log.take(i) =~= run.log);
            }
        }
        assert(writes_are_due(plan, after));
    }
}

/// What holds of every run.
proof fn lemma_run(plan: PlanView, replies: Seq<ReplyView>)
    requires
        sound(plan),
    ensures
        script_left(plan, run(plan, replies)),
        stage_fits(run(plan, replies)),
        books_balance(plan, run(plan, replies)),
        writes_are_due(plan, run(plan, replies)),
    decreases replies.len(),
{
    if replies.len() == 0 {
        lemma_begin(plan);
        assert(plan.script.skip(0) =~= plan.script);
        if plan.script.len() > 0 {
            assert(plan.script.drop_first() =~= plan.script.skip(1));
        }
    } else {
        lemma_run(plan, replies.drop_last());
        lemma_hear(plan, run(plan, replies.drop_last()), replies.last());
    }
}

/// The host has said that the response's status is the right one.
pub open spec fn status_was_ok(log: Seq<Entry>) -> bool {
    log.contains((CallView::ReadStatus, ReplyView::Status(STATUS_OK)))
}

/// `entry` says that the first content type of the response is `wanted`.
pub open spec fn tells_type(entry: Entry, wanted: Seq<u8>) -> bool {
    &&& entry.0 == CallView::ReadHeader("content-type"@)
    &&& entry.1 matches ReplyView::Values(values) && values.len() > 0 && values[0] == wanted
}

/// The host has said that the response's content type is `wanted`.
pub open spec fn type_was(log: Seq<Entry>, wanted: Seq<u8>) -> bool {
    exists|i: int| 0 <= i < log.len() && tells_type(#[trigger] log[i], wanted)
}

/// The body of the request was finished.
pub open spec fn body_finished(log: Seq<Entry>) -> bool {
    exists|i: int| 0 <= i < log.len() && (#[trigger] log[i]).0 is FinishBody
}

/// How far a run has come that has not failed.
pub open spec fn reached(run: RunView) -> int {
    if run.next is Failed {
        -1
    } else {
        rank(run.state.stage)
    }
}

/// The call of the script that comes next, if one does.
pub open spec fn setup_now(run: RunView) -> Seq<CallView> {
    match run.next {
        NextView::Call(call) if run.state.stage is Setup => seq![call],
        _ => Seq::empty(),
    }
}

/// A call that blocks until the input stream is ready.
pub open spec fn waits_for_input(call: CallView) -> bool {
    call is AwaitInput || call is AwaitSubscription
}

/// The host has just said that it has no room for the next chunk.
pub open spec fn room_ran_out(plan: PlanView, log: Seq<Entry>) -> bool {
    &&& log.len() > 0
    &&& log.last().0 is CheckWrite
    &&& log.last().1 matches ReplyView::Budget(room) && plan.upload matches Some(body) && room
        < payload::chunk_len(body, written(log).len() as int)
}

/// What the log of a run holds, by how far the run has come.
pub open spec fn log_fits(plan: PlanView, run: RunView) -> bool {
    let at = reached(run);
    &&& sends(run.log) <= 1
    &&& 0 <= at <= 2 ==> sends(run.log) == 0
    &&& 3 <= at ==> sends(run.log) == 1
    &&& polls(run.log) <= 2
    &&& 0 <= at <= 2 || run.state.stage is FirstPoll ==> polls(run.log) == 0
    &&& run.state.stage is AwaitingResponse || run.state.stage is SecondPoll ==> polls(run.log)
        == 1
    &&& run.state.stage is Sending && run.state.unsent() ==> room_ran_out(plan, run.log)
    &&& 0 <= at <= 2 ==> prepared(run.log) + setup_now(run) + calls(run.state.script)
        == calls(plan.script)
    &&& 1 <= at ==> run.state.script.len() == 0
    &&& 1 <= at && plan.upload is None ==> body_finished(run.log)
    &&& 0 <= at <= 14 && plan.upload is Some ==> !body_finished(run.log)
    &&& 15 <= at ==> body_finished(run.log)
    &&& 6 <= at ==> status_was_ok(run.log)
    &&& 8 <= at && plan.content_type is Some ==> type_was(run.log, plan.content_type->0)
    &&& 13 <= at && plan.upload is Some ==> run.state.sent == (plan.upload->0).len()
    &&& 12 <= at <= 14 ==> plan.upload is Some
    &&& run.state.stage is Subscribing ==> plan.upload is None
    &&& subscriptions(run.log) <= 1
    &&& 0 <= at <= 11 || plan.upload is Some ==> subscriptions(run.log) == 0
    &&& 15 <= at && plan.upload is None ==> subscriptions(run.log) == 1
    &&& run.state.stage is FirstPoll ==> run.log.len() > 0 && run.log.last().0 is Send
    &&& run.state.stage is SecondPoll ==> run.log.len() > 0 && run.log.last().0 is AwaitResponse
    &&& run.state.stage is UploadRead || run.state.stage is DrainRead ==> run.log.len() > 0
        && waits_for_input(run.log.last().0)
    &&& run.state.stage is Recheck || run.next is Passed ==> run.log.len() > 0
        && run.log.last() == (CallView::Read(READ_LEN), ReplyView::Closed)
}

/// One more entry leaves what the log holds.
proof fn lemma_log_grows(log: Seq<Entry>, entry: Entry)
    ensures
        status_was_ok(log) ==> status_was_ok(log.push(entry)),
        forall|wanted: Seq<u8>| #[trigger]
            type_was(log, wanted) ==> type_was(log.push(entry), wanted),
        body_finished(log.push(entry)) == (body_finished(log) || entry.0 is FinishBody),
        entry == (CallView::ReadStatus, ReplyView::Status(STATUS_OK)) ==> status_was_ok(
            log.push(entry),
        ),
        forall|wanted: Seq<u8>|
            tells_type(entry, wanted) ==> #[trigger] type_was(log.push(entry), wanted),
{
    let more = log.push(entry);
    assert(more.last() == entry);
    if status_was_ok(log) {
        let i = choose|i: int|
            0 <= i < log.len() && log[i] == (
                CallView::ReadStatus,
                ReplyView::Status(STATUS_OK),
            );
        assert(more[i] == log[i]);
    }
    if entry == (CallView::ReadStatus, ReplyView::Status(STATUS_OK)) {
        assert(more[log.len() as int] == entry);
    }
    assert forall|wanted: Seq<u8>| #[trigger] type_was(log, wanted) implies type_was(
        more,
        wanted,
    ) by {
        let i = choose|i: int| 0 <= i < log.len() && tells_type(#[trigger] log[i], wanted);
        assert(tells_type(more[i], wanted));
    }
    assert forall|wanted: Seq<u8>| tells_type(entry, wanted) implies #[trigger] type_was(
        more,
        wanted,
    ) by {
        assert(tells_type(more[log.len() as int], wanted));
    }
    if body_finished(log) {
        let i = choose|i: int| 0 <= i < log.len() && (#[trigger] log[i]).0 is FinishBody;
        assert(more[i].0 is FinishBody);
    }
    if entry.0 is FinishBody {
        assert(more[log.len() as int].0 is FinishBody);
    }
    if body_finished(more) && !(entry.0 is FinishBody) {
        let i = choose|i: int| 0 <= i < more.len() && (#[trigger] more[i]).0 is FinishBody;
        assert(log[i] == more[i]);
    }
}

/// A call that was made to prepare the request stands in the log.
proof fn lemma_prepared(log: Seq<Entry>)
    ensures
        prepared(log).contains(CallView::FinishBody) ==> body_finished(log),
    decreases log.len(),
{
    if log.len() > 0 {
        let before = log.drop_last();
        lemma_prepared(before);
        lemma_log_grows(before, log.last());
        assert(before.push(log.last()) =~= log);
        if prepared(log).contains(CallView::FinishBody) && !(log.last().0 is FinishBody) {
            let i = choose|i: int|
                0 <= i < prepared(log).len() && prepared(log)[i] == CallView::FinishBody;
            assert(prepared(before)[i] == CallView::FinishBody);
        }
    }
}

/// The part of `log_fits` that speaks of the script.
proof fn lemma_hear_script(plan: PlanView, run: RunView, reply: ReplyView)
    requires
        sound(plan),
        stage_fits(run),
        books_balance(plan, run),
        log_fits(plan, run),
    ensures
        0 <= reached(run.hear(reply)) <= 2 ==> prepared(run.hear(reply).log) + setup_now(
            run.hear(reply),
        ) + calls(run.hear(reply).state.script) == calls(plan.script),
{
    if let NextView::Call(call) = run.next {
        let after = run.hear(reply);
        assert(after.log.drop_last() =~= run.log);
        let rest = run.state.script;
        if rest.len() > 0 {
            assert(calls(rest) =~= seq![rest.first().call] + calls(rest.drop_first()));
        } else {
            assert(calls(rest) =~= Seq::<CallView>::empty());
        }
        if 0 <= reached(after) <= 2 {
            if run.state.stage is Setup {
                assert(prepared(after.log) == prepared(run.log).push(call));
            } else {
                assert(prepared(after.log) == prepared(run.log));
            }
            assert(prepared(after.log) + setup_now(after) + calls(after.state.script)
                =~= prepared(run.log) + setup_now(run) + calls(rest));
        }
    }
}

proof fn lemma_hear_log(plan: PlanView, run: RunView, reply: ReplyView)
    requires
        sound(plan),
        stage_fits(run),
        books_balance(plan, run),
        log_fits(plan, run),
    ensures
        log_fits(plan, run.hear(reply)),
{
    lemma_hear_script(plan, run, reply);
    if let NextView::Call(call) = run.next {
        let after = run.hear(reply);
        assert(after.log.drop_last() =~= run.log);
        assert(after.log.last() == (call, reply));
        lemma_log_grows(run.log, (call, reply));
        let script = calls(plan.script);
        if reached(after) == 1 || reached(after) == 2 {
            assert(prepared(after.log) =~= prepared(after.log) + setup_now(after) + calls(
                after.state.script,
            ));
            lemma_prepared(after.log);
        }
        if call is FinishBody && run.state.stage is Setup {
            let i = prepared(run.log).len() as int;
            assert((prepared(run.log) + setup_now(run) + calls(run.state.script))[i] == call);
            assert(script[i] == CallView::FinishBody);
        }
    }
}

proof fn lemma_run_log(plan: PlanView, replies: Seq<ReplyView>)
    requires
        sound(plan),
    ensures
        log_fits(plan, run(plan, replies)),
    decreases replies.len(),
{
    if replies.len() == 0 {
        let first = begin(plan);
        let script = plan.script;
        if script.len() > 0 {
            assert(calls(script) =~= seq![script.first().call] + calls(script.drop_first()));
        } else {
            assert(calls(script) =~= Seq::<CallView>::empty());
        }
        assert(prepared(first.log) + setup_now(first) + calls(first.state.script) =~= calls(
            script,
        ));
    } else {
        lemma_run(plan, replies.drop_last());
        lemma_run_log(plan, replies.drop_last());
        lemma_hear_log(plan, run(plan, replies.drop_last()), replies.last());
    }
}

/// A run is made of steps: it begins with a call, and as long as a call comes next,
/// one more reply takes it to where the exchange goes on that reply.
pub proof fn law_run_goes_by_steps(plan: PlanView, replies: Seq<ReplyView>, reply: ReplyView)
    ensures
        run(plan, Seq::empty()).next is Call,
        run(plan, replies).next is Call ==> {
            let (state, next) = run(plan, replies).state.next(reply);
            &&& run(plan, replies.push(reply)).state == state
            &&& run(plan, replies.push(reply)).next == next
        },
        !(run(plan, replies).next is Call) ==> run(plan, replies.push(reply)) == run(
            plan,
            replies,
        ),
{
    assert(replies.push(reply).drop_last() =~= replies);
}

/// A run writes nothing unasked: each write follows a `CheckWrite` to which the
/// host answered with at least as many bytes, it is not empty and no longer than
/// `CHUNK_LEN`, and it is the chunk of the upload that follows what the host has
/// taken before.
pub proof fn law_writes_are_due(plan: PlanView, replies: Seq<ReplyView>)
    requires
        sound(plan),
    ensures
        writes_are_due(plan, run(plan, replies)),
{
    lemma_run(plan, replies);
}

/// What the host has taken is at any time the front of the upload.
pub proof fn law_written_is_a_front(plan: PlanView, replies: Seq<ReplyView>)
    requires
        sound(plan),
    ensures
        match plan.upload {
            Some(body) => written(run(plan, replies).log).is_prefix_of(body),
            None => written(run(plan, replies).log).len() == 0,
        },
{
    lemma_run(plan, replies);
    if let Some(body) = plan.upload {
        let sent = run(plan, replies).state.sent as int;
        assert(body.subrange(0, body.take(sent).len() as int) =~= body.take(sent));
    }
}

/// The request is handed over at most once, and when it is, the calls that
/// prepared it are those of the script, in its order.
pub proof fn law_one_request_as_planned(plan: PlanView, replies: Seq<ReplyView>)
    requires
        sound(plan),
    ensures
        sends(run(plan, replies).log) <= 1,
        run(plan, replies).next == NextView::Call(CallView::Send) ==> {
            &&& sends(run(plan, replies).log) == 0
            &&& prepared(run(plan, replies).log) == calls(plan.script)
        },
{
    lemma_run(plan, replies);
    lemma_run_log(plan, replies);
    let all = run(plan, replies);
    if all.next == NextView::Call(CallView::Send) {
        assert(prepared(all.log) + setup_now(all) + calls(all.state.script) =~= prepared(
            all.log,
        ));
    }
}

/// The request is handed over as late as it can be: all of the upload was written
/// by then, or the host has just said that it has no room for the next chunk.
pub proof fn law_sent_when_no_more_fits(plan: PlanView, replies: Seq<ReplyView>)
    requires
        sound(plan),
        run(plan, replies).next == NextView::Call(CallView::Send),
    ensures
        plan.upload matches Some(body) ==> written(run(plan, replies).log) == body
            || room_ran_out(plan, run(plan, replies).log),
{
    lemma_run(plan, replies);
    lemma_run_log(plan, replies);
    if let Some(body) = plan.upload {
        assert(body.take(body.len() as int) =~= body);
    }
}

/// The response is looked for at most twice, and waited for only after it was
/// found missing.
pub proof fn law_response_is_looked_for_twice(plan: PlanView, replies: Seq<ReplyView>)
    requires
        sound(plan),
    ensures
        polls(run(plan, replies).log) <= 2,
        run(plan, replies).next == NextView::Call(CallView::PollResponse) ==> polls(
            run(plan, replies).log,
        ) < 2,
        run(plan, replies).next == NextView::Call(CallView::AwaitResponse) ==> polls(
            run(plan, replies).log,
        ) == 1,
{
    lemma_run(plan, replies);
    lemma_run_log(plan, replies);
}

/// Only a response with the right status is read, and, where a content type is
/// asked for, only one of that type. Each read asks for `READ_LEN` bytes, and comes
/// after waiting for the stream or after the stream has ended.
pub proof fn law_reads_a_right_response(plan: PlanView, replies: Seq<ReplyView>, limit: u64)
    requires
        sound(plan),
        run(plan, replies).next == NextView::Call(CallView::Read(limit)),
    ensures
        limit == READ_LEN,
        sends(run(plan, replies).log) == 1,
        status_was_ok(run(plan, replies).log),
        plan.content_type matches Some(wanted) ==> type_was(run(plan, replies).log, wanted),
        run(plan, replies).log.len() > 0,
        waits_for_input(run(plan, replies).log.last().0) || run(plan, replies).log.last() == (
            CallView::Read(READ_LEN),
            ReplyView::Closed,
        ),
{
    lemma_run(plan, replies);
    lemma_run_log(plan, replies);
}

/// With nothing to upload, the input stream is subscribed to once, before it is
/// first waited for; with an upload, each wait subscribes anew.
pub proof fn law_subscribes_once(plan: PlanView, replies: Seq<ReplyView>)
    requires
        sound(plan),
    ensures
        subscriptions(run(plan, replies).log) <= 1,
        run(plan, replies).next == NextView::Call(CallView::AwaitSubscription) ==> {
            &&& plan.upload is None
            &&& subscriptions(run(plan, replies).log) == 1
        },
        run(plan, replies).next == NextView::Call(CallView::AwaitInput) ==> {
            &&& plan.upload is Some
            &&& subscriptions(run(plan, replies).log) == 0
        },
{
    lemma_run(plan, replies);
    lemma_run_log(plan, replies);
}

/// The body of the request is finished only when all of the upload was written.
pub proof fn law_finished_when_written(plan: PlanView, replies: Seq<ReplyView>)
    requires
        sound(plan),
        plan.upload is Some,
        run(plan, replies).next == NextView::Call(CallView::FinishBody),
    ensures
        written(run(plan, replies).log) == plan.upload->0,
{
    lemma_run(plan, replies);
    lemma_run_log(plan, replies);
    let all = run(plan, replies);
    if all.state.stage is Setup {
        let i = prepared(all.log).len() as int;
        assert((prepared(all.log) + setup_now(all) + calls(all.state.script))[i]
            == CallView::FinishBody);
        assert(calls(plan.script)[i] == CallView::FinishBody);
    }
    let body = plan.upload->0;
    assert(body.take(body.len() as int) =~= body);
}

/// A run that ends well has handed over one request, has seen the right status
/// and, where one is asked for, the right content type, has had all of the upload
/// taken, has finished the body, and has received all that the host gave, up to
/// the end of the input stream.
pub proof fn law_passed(plan: PlanView, replies: Seq<ReplyView>)
    requires
        sound(plan),
        run(plan, replies).next is Passed,
    ensures
        sends(run(plan, replies).log) == 1,
        status_was_ok(run(plan, replies).log),
        plan.content_type matches Some(wanted) ==> type_was(run(plan, replies).log, wanted),
        plan.upload matches Some(body) ==> written(run(plan, replies).log) == body,
        body_finished(run(plan, replies).log),
        run(plan, replies).state.received == read_back(run(plan, replies).log),
        run(plan, replies).log.len() > 0,
        run(plan, replies).log.last() == (CallView::Read(READ_LEN), ReplyView::Closed),
{
    lemma_run(plan, replies);
    lemma_run_log(plan, replies);
    if let Some(body) = plan.upload {
        assert(body.take(body.len() as int) =~= body);
    }
}

/// A run that has ended stays as it is, whatever the host says after that.
pub proof fn law_ended_is_ended(plan: PlanView, replies: Seq<ReplyView>, more: Seq<ReplyView>)
    requires
        !(run(plan, replies).next is Call),
    ensures
        run(plan, replies + more) == run(plan, replies),
    decreases more.len(),
{
    if more.len() == 0 {
        assert(replies + more =~= replies);
    } else {
        law_ended_is_ended(plan, replies, more.drop_last());
        assert((replies + more).drop_last() =~= replies + more.drop_last());
        assert((replies + more).last() == more.last());
    }
}

/// A reply that a run can go on after, whatever the stage, `before` being the log
/// up to the call.
pub open spec fn favourable(
    plan: PlanView,
    before: Seq<Entry>,
    call: CallView,
    reply: ReplyView,
) -> bool {
    match call {
        CallView::CheckWrite => reply matches ReplyView::Budget(room) && room
            >= payload::CHUNK_LEN,
        CallView::PollResponse => reply is Done || (reply is NotReady && !(before.len() > 0
            && before.last().0 is AwaitResponse)),
        CallView::ReadStatus => reply == ReplyView::Status(STATUS_OK),
        CallView::ReadHeader(_) => reply matches ReplyView::Values(values) && values.len() > 0
            && Some(values[0]) == plan.content_type,
        CallView::Read(_) => if before.len() > 0 && before.last().0 is Read
            && before.last().1 is Closed {
            reply is Closed
        } else {
            reply is Bytes || (reply is Closed && body_finished(before))
        },
        _ => reply is Done,
    }
}

/// A run fails only at a reply that is not favourable: the last one it heard.
pub proof fn law_failure_has_a_cause(plan: PlanView, replies: Seq<ReplyView>)
    requires
        sound(plan),
        run(plan, replies).next is Failed,
    ensures
        run(plan, replies).log.len() > 0,
        !favourable(
            plan,
            run(plan, replies).log.drop_last(),
            run(plan, replies).log.last().0,
            run(plan, replies).log.last().1,
        ),
    decreases replies.len(),
{
    if replies.len() > 0 {
        let before = run(plan, replies.drop_last());
        let after = run(plan, replies);
        lemma_run(plan, replies.drop_last());
        lemma_run_log(plan, replies.drop_last());
        if let NextView::Call(call) = before.next {
            assert(after.log.drop_last() =~= before.log);
            assert(after.log.last() == (call, replies.last()));
        } else {
            law_failure_has_a_cause(plan, replies.drop_last());
        }
    }
}

/// With a host that gives favourable replies only, no run fails.
pub proof fn law_favourable_host(plan: PlanView, replies: Seq<ReplyView>)
    requires
        sound(plan),
        forall|i: int|
            0 <= i < run(plan, replies).log.len() ==> {
                let entry = #[trigger] run(plan, replies).log[i];
                favourable(plan, run(plan, replies).log.take(i), entry.0, entry.1)
            },
    ensures
        !(run(plan, replies).next is Failed),
{
    let log = run(plan, replies).log;
    if run(plan, replies).next is Failed {
        law_failure_has_a_cause(plan, replies);
        let last = log.len() - 1;
        assert(log.take(last) =~= log.drop_last());
        assert(log[last] == log.last());
    }
}

/// How many bytes of the upload are still to be written.
pub open spec fn left_to_write(state: ExchangeView) -> int {
    match state.upload {
        Some(body) => body.len() - state.sent,
        None => 0,
    }
}

/// How many calls an exchange still makes at most, if the input stream has
/// nothing more to give.
pub open spec fn calls_left(state: ExchangeView) -> int {
    let bytes = 6 * left_to_write(state);
    match state.stage {
        Stage::Setup { .. } => bytes + 2 * state.script.len() + 26,
        Stage::Printing => bytes + 2 * state.script.len() + 25,
        Stage::PrimeCheck => bytes + 24,
        Stage::PrimeWrite => bytes + 23,
        Stage::Sending => bytes + 22,
        Stage::FirstPoll => bytes + 21,
        Stage::AwaitingResponse => bytes + 20,
        Stage::SecondPoll => bytes + 19,
        Stage::DroppingFuture => bytes + 18,
        Stage::ReadingStatus => bytes + 17,
        Stage::OpeningHeaders => bytes + 16,
        Stage::ReadingType => bytes + 15,
        Stage::DroppingHeaders => bytes + 14,
        Stage::Consuming => bytes + 13,
        Stage::DroppingResponse => bytes + 12,
        Stage::OpeningInput => bytes + 11,
        Stage::UploadAwaitInput => bytes + 10,
        Stage::UploadRead => bytes + 9,
        Stage::UploadAwaitOutput => bytes + 8,
        Stage::UploadCheck => bytes + 6,
        Stage::UploadWrite => bytes + 5,
        Stage::ClosingStream => 5,
        Stage::Finishing => 4,
        Stage::Subscribing => 4,
        Stage::DrainAwait => 3,
        Stage::DrainRead => 2,
        Stage::Recheck => 1,
        Stage::Idle => 0,
    }
}

/// How often the host gave bytes to read.
pub open spec fn reads(log: Seq<Entry>) -> nat
    decreases log.len(),
{
    if log.len() == 0 {
        0
    } else {
        reads(log.drop_last()) + if log.last().0 is Read && log.last().1 is Bytes {
            1nat
        } else {
            0nat
        }
    }
}

proof fn lemma_hear_counts(plan: PlanView, run: RunView, reply: ReplyView)
    requires
        stage_fits(run),
        books_balance(plan, run),
        run.next is Call,
    ensures
        run.hear(reply).log.len() + calls_left(run.hear(reply).state) - 2 * reads(
            run.hear(reply).log,
        ) <= run.log.len() + calls_left(run.state) - 2 * reads(run.log),
{
    let after = run.hear(reply);
    assert(after.log.drop_last() =~= run.log);
}

/// A run does not go on for ever unless the host goes on giving bytes: the calls
/// that it makes are bounded by the length of the script, the length of the
/// upload, and how often the host gives bytes to read.
pub proof fn law_run_is_bounded(plan: PlanView, replies: Seq<ReplyView>)
    requires
        sound(plan),
    ensures
        run(plan, replies).log.len() <= 2 * plan.script.len() + 6 * (match plan.upload {
            Some(body) => body.len() as int,
            None => 0,
        }) + 2 * reads(run(plan, replies).log) + 26,
{
    lemma_run(plan, replies);
    lemma_run_counts(plan, replies);
}

proof fn lemma_run_counts(plan: PlanView, replies: Seq<ReplyView>)
    requires
        sound(plan),
    ensures
        run(plan, replies).log.len() + calls_left(run(plan, replies).state) <= 2
            * plan.script.len() + 6 * (match plan.upload {
            Some(body) => body.len() as int,
            None => 0,
        }) + 2 * reads(run(plan, replies).log) + 26,
    decreases replies.len(),
{
    if replies.len() > 0 {
        let before = run(plan, replies.drop_last());
        lemma_run(plan, replies.drop_last());
        lemma_run_counts(plan, replies.drop_last());
        if before.next is Call {
            lemma_hear_counts(plan, before, replies.last());
        }
    }
}

/// The chunks that the host has taken, in the order of the writes.
pub open spec fn chunks_written(log: Seq<Entry>) -> Seq<Seq<u8>>
    decreases log.len(),
{
    if log.len() == 0 {
        Seq::empty()
    } else {
        match log.last() {
            (CallView::Write(bytes), ReplyView::Done) => chunks_written(log.drop_last()).push(
                bytes,
            ),
            _ => chunks_written(log.drop_last()),
        }
    }
}

/// The upload goes out chunk by chunk: the chunks that the host has taken, and
/// behind them those of what is still to be written, are the chunks of the upload.
pub proof fn law_chunks_go_out_in_order(plan: PlanView, replies: Seq<ReplyView>)
    requires
        sound(plan),
        plan.upload is Some,
    ensures
        ({
            let body = plan.upload->0;
            let log = run(plan, replies).log;
            chunks_written(log) + payload::chunks_from(body, written(log).len() as int)
                == payload::chunks_from(body, 0)
        }),
    decreases replies.len(),
{
    let body = plan.upload->0;
    if replies.len() == 0 {
        assert(Seq::<Seq<u8>>::empty() + payload::chunks_from(body, 0) =~= payload::chunks_from(
            body,
            0,
        ));
    } else {
        let before = run(plan, replies.drop_last());
        let after = run(plan, replies);
        let reply = replies.last();
        law_chunks_go_out_in_order(plan, replies.drop_last());
        lemma_run(plan, replies.drop_last());
        lemma_run(plan, replies);
        if let NextView::Call(call) = before.next {
            assert(after.log.drop_last() =~= before.log);
            if let CallView::Write(bytes) = call {
                let from = written(before.log).len() as int;
                assert(payload::chunks_from(body, from) =~= seq![bytes] + payload::chunks_from(
                    body,
                    from + bytes.len(),
                ));
                assert(chunks_written(before.log).push(bytes) + payload::chunks_from(
                    body,
                    from + bytes.len(),
                ) =~= chunks_written(before.log) + payload::chunks_from(body, from));
            }
        }
    }
}

/// A run keeps a true log: it is empty at first, and each reply is put behind it
/// together with the call that it answers.
pub proof fn law_log_is_kept(plan: PlanView, replies: Seq<ReplyView>, reply: ReplyView)
    ensures
        run(plan, Seq::empty()).log.len() == 0,
        run(plan, replies).next matches NextView::Call(call) ==> run(
            plan,
            replies.push(reply),
        ).log == run(plan, replies).log.push((call, reply)),
{
    assert(replies.push(reply).drop_last() =~= replies);
}

/// How many bytes of the upload the host has not taken yet.
pub open spec fn untaken(plan: PlanView, log: Seq<Entry>) -> int {
    match plan.upload {
        Some(body) => body.len() - written(log).len(),
        None => 0,
    }
}

/// How many bytes the next write takes: 16384, or all that are left.
pub open spec fn due(plan: PlanView, log: Seq<Entry>) -> int {
    if untaken(plan, log) < 16384 {
        untaken(plan, log)
    } else {
        16384
    }
}

/// What comes once the calls of the script from the `count`th on are all that is
/// left to prepare: the first of them. With none left, the upload is begun where
/// there is something to upload, and else the request is handed over.
pub open spec fn from_script(plan: PlanView, log: Seq<Entry>, count: int) -> CallView {
    if count < plan.script.len() {
        plan.script[count].call
    } else if untaken(plan, log) > 0 {
        CallView::CheckWrite
    } else {
        CallView::Send
    }
}

/// The calls of the script are made one after the other, each when the one before
/// it is done. A refusal ends the run with what the host said, unless the script lets
/// the call be refused: then what the host said is printed, and the next call of the
/// script follows. Before the request is handed over, all calls but writing, printing
/// and the handing over itself are calls of the script.
pub proof fn law_script_is_followed(plan: PlanView, replies: Seq<ReplyView>, reply: ReplyView)
    requires
        sound(plan),
        sends(run(plan, replies).log) == 0,
    ensures
        run(plan, Seq::empty()).next == NextView::Call(from_script(plan, Seq::empty(), 0)),
        ({
            let before = run(plan, replies);
            let count = prepared(before.log).len() as int;
            let after = run(plan, replies.push(reply)).next;
            match before.next {
                NextView::Call(CallView::CheckWrite) => true,
                NextView::Call(CallView::Write(_)) => true,
                NextView::Call(CallView::Send) => count == plan.script.len(),
                NextView::Call(CallView::Print(_)) => match reply {
                    ReplyView::Done => after == NextView::Call(
                        from_script(plan, before.log, count),
                    ),
                    ReplyView::Refused(detail) => after == NextView::Failed(
                        FailureView::Refused(detail),
                    ),
                    _ => after == NextView::Failed(FailureView::Misplaced),
                },
                NextView::Call(call) => {
                    &&& count < plan.script.len()
                    &&& call == plan.script[count].call
                    &&& match reply {
                        ReplyView::Done => after == NextView::Call(
                            from_script(plan, before.log, count + 1),
                        ),
                        ReplyView::Refused(detail) => if plan.script[count].required {
                            after == NextView::Failed(FailureView::Refused(detail))
                        } else {
                            after == NextView::Call(CallView::Print(detail))
                        },
                        _ => after == NextView::Failed(FailureView::Misplaced),
                    }
                },
                _ => true,
            }
        }),
{
    lemma_run(plan, replies);
    lemma_run_log(plan, replies);
    assert(replies.push(reply).drop_last() =~= replies);
    let before = run(plan, replies);
    let left = before.state.script;
    let count = prepared(before.log).len() as int;
    if let NextView::Call(call) = before.next {
        assert((prepared(before.log) + setup_now(before) + calls(left)).len()
            == plan.script.len());
        if before.state.stage is Setup {
            assert((prepared(before.log) + setup_now(before) + calls(left))[count] == call);
            assert(calls(plan.script)[count] == call);
            assert(plan.script[count].call == call);
            lemma_required(plan, replies);
        }
        if left.len() > 0 {
            assert(left[0] == plan.script[plan.script.len() - left.len()]);
        }
    }
}

/// The call of the script that the run waits for must be done where the script says so.
proof fn lemma_required(plan: PlanView, replies: Seq<ReplyView>)
    requires
        sound(plan),
    ensures
        run(plan, replies).state.stage matches Stage::Setup { required } ==> {
            let left = run(plan, replies).state.script.len();
            &&& left < plan.script.len()
            &&& required == plan.script[plan.script.len() - left - 1].required
        },
    decreases replies.len(),
{
    if replies.len() > 0 {
        lemma_required(plan, replies.drop_last());
        lemma_run(plan, replies.drop_last());
        let before = run(plan, replies.drop_last());
        let left = before.state.script;
        if left.len() > 0 {
            assert(left[0] == plan.script[plan.script.len() - left.len()]);
        }
    }
}

/// Before the request is handed over, the upload is written as far as the host has
/// room: asked how much it takes, the host either has room for the bytes that are
/// due, and these are then written, or the request is handed over. Once the host has
/// taken them, it is asked again if some are left, and else the request is handed over.
pub proof fn law_upload_before_sending(
    plan: PlanView,
    replies: Seq<ReplyView>,
    reply: ReplyView,
)
    requires
        sound(plan),
        sends(run(plan, replies).log) == 0,
    ensures
        ({
            let before = run(plan, replies);
            let taken = written(before.log).len() as int;
            let after = run(plan, replies.push(reply)).next;
            match before.next {
                NextView::Call(CallView::CheckWrite) => match reply {
                    ReplyView::Budget(room) => after == NextView::Call(
                        if room >= due(plan, before.log) {
                            CallView::Write(
                                (plan.upload->0).subrange(taken, taken + due(plan, before.log)),
                            )
                        } else {
                            CallView::Send
                        },
                    ),
                    ReplyView::Refused(detail) => after == NextView::Failed(
                        FailureView::Refused(detail),
                    ),
                    _ => after == NextView::Failed(FailureView::Misplaced),
                },
                NextView::Call(CallView::Write(bytes)) => {
                    &&& bytes == (plan.upload->0).subrange(taken, taken + due(plan, before.log))
                    &&& match reply {
                        ReplyView::Done => after == NextView::Call(
                            if untaken(plan, before.log) > bytes.len() {
                                CallView::CheckWrite
                            } else {
                                CallView::Send
                            },
                        ),
                        ReplyView::Refused(detail) => after == NextView::Failed(
                            FailureView::Refused(detail),
                        ),
                        _ => after == NextView::Failed(FailureView::Misplaced),
                    }
                },
                _ => true,
            }
        }),
{
    lemma_run(plan, replies);
    lemma_run_log(plan, replies);
    assert(replies.push(reply).drop_last() =~= replies);
}

/// After the request is handed over, the response is looked for at once, and waited
/// for once where it is not there yet. The run goes on only where the response came
/// without an error; an error ends it with what the host said.
pub proof fn law_response_is_waited_for(
    plan: PlanView,
    replies: Seq<ReplyView>,
    reply: ReplyView,
)
    requires
        sound(plan),
    ensures
        ({
            let before = run(plan, replies);
            let after = run(plan, replies.push(reply)).next;
            match before.next {
                NextView::Call(CallView::Send) => reply is Done ==> after == NextView::Call(
                    CallView::PollResponse,
                ),
                NextView::Call(CallView::AwaitResponse) => reply is Done ==> after
                    == NextView::Call(CallView::PollResponse),
                NextView::Call(CallView::PollResponse) => match reply {
                    ReplyView::Done => after == NextView::Call(CallView::DropFuture),
                    ReplyView::NotReady => after == if before.log.last()
                        == (CallView::AwaitResponse, ReplyView::Done) {
                        NextView::Failed(FailureView::ResponseUnavailable)
                    } else {
                        NextView::Call(CallView::AwaitResponse)
                    },
                    ReplyView::Taken => after == NextView::Failed(FailureView::ResponseTaken),
                    ReplyView::Refused(detail) => after == NextView::Failed(
                        FailureView::Refused(detail),
                    ),
                    _ => after == NextView::Failed(FailureView::Misplaced),
                },
                _ => after != NextView::Call(CallView::DropFuture),
            }
        }),
{
    lemma_run(plan, replies);
    lemma_run_log(plan, replies);
    lemma_went_on(plan, replies);
    assert(replies.push(reply).drop_last() =~= replies);
}

/// A response is taken apart in this order: its status, which must be 200; its
/// content type, where one is asked for, of which the first value must be the one
/// asked for; then its body, whose stream is opened once the response is given back.
pub proof fn law_response_is_taken_apart(
    plan: PlanView,
    replies: Seq<ReplyView>,
    reply: ReplyView,
)
    requires
        sound(plan),
    ensures
        ({
            let before = run(plan, replies);
            let after = run(plan, replies.push(reply)).next;
            match before.next {
                NextView::Call(CallView::DropFuture) => reply is Done ==> after
                    == NextView::Call(CallView::ReadStatus),
                NextView::Call(CallView::ReadStatus) => match reply {
                    ReplyView::Status(code) => if code == 200 {
                        after == NextView::Call(CallView::OpenHeaders)
                    } else {
                        after == NextView::Failed(FailureView::Status(code))
                    },
                    _ => after == NextView::Failed(FailureView::Misplaced),
                },
                NextView::Call(CallView::OpenHeaders) => reply is Done ==> after
                    == NextView::Call(
                    if plan.content_type is Some {
                        CallView::ReadHeader(
                            seq!['c', 'o', 'n', 't', 'e', 'n', 't', '-', 't', 'y', 'p', 'e'],
                        )
                    } else {
                        CallView::DropHeaders
                    },
                ),
                NextView::Call(CallView::ReadHeader(_)) => {
                    &&& plan.content_type is Some
                    &&& match reply {
                        ReplyView::Values(values) => if values.len() == 0 {
                            after == NextView::Failed(FailureView::NoContentType)
                        } else if values[0] == plan.content_type->0 {
                            after == NextView::Call(CallView::DropHeaders)
                        } else {
                            after == NextView::Failed(FailureView::ContentType(values[0]))
                        },
                        _ => after == NextView::Failed(FailureView::Misplaced),
                    }
                },
                NextView::Call(CallView::DropHeaders) => reply is Done ==> after
                    == NextView::Call(CallView::ConsumeResponse),
                NextView::Call(CallView::ConsumeResponse) => match reply {
                    ReplyView::Done => after == NextView::Call(CallView::DropResponse),
                    ReplyView::Refused(detail) => after == NextView::Failed(
                        FailureView::NoBody(detail),
                    ),
                    _ => after == NextView::Failed(FailureView::Misplaced),
                },
                NextView::Call(CallView::DropResponse) => reply is Done ==> after
                    == NextView::Call(CallView::OpenInput),
                NextView::Call(CallView::OpenInput) => reply is Done ==> after
                    == NextView::Call(
                    if plan.upload is None {
                        CallView::SubscribeInput
                    } else if untaken(plan, before.log) > 0 {
                        CallView::CheckWrite
                    } else {
                        CallView::DropBodyStream
                    },
                ),
                _ => true,
            }
        }),
{
    reveal_strlit("content-type");
    assert("content-type"@ =~= seq!['c', 'o', 'n', 't', 'e', 'n', 't', '-', 't', 'y', 'p', 'e']);
    lemma_run(plan, replies);
    lemma_run_log(plan, replies);
    lemma_type_is_asked_for(plan, replies);
    assert(replies.push(reply).drop_last() =~= replies);
}

proof fn lemma_type_is_asked_for(plan: PlanView, replies: Seq<ReplyView>)
    requires
        sound(plan),
    ensures
        run(plan, replies).state.stage is ReadingType ==> plan.content_type is Some,
    decreases replies.len(),
{
    if replies.len() > 0 {
        lemma_type_is_asked_for(plan, replies.drop_last());
        lemma_run(plan, replies.drop_last());
    }
}

/// With the response at hand, the rest of the upload goes out a chunk at a time. The
/// host must have room for the bytes that are due. After each write the input stream
/// is waited for and read once, and then the output stream is waited for. With all
/// written, the output stream is given back and the body is finished.
pub proof fn law_upload_while_reading(
    plan: PlanView,
    replies: Seq<ReplyView>,
    reply: ReplyView,
)
    requires
        sound(plan),
        sends(run(plan, replies).log) == 1,
    ensures
        ({
            let before = run(plan, replies);
            let taken = written(before.log).len() as int;
            let after = run(plan, replies.push(reply)).next;
            match before.next {
                NextView::Call(CallView::CheckWrite) => match reply {
                    ReplyView::Budget(room) => after == if room >= due(plan, before.log) {
                        NextView::Call(
                            CallView::Write(
                                (plan.upload->0).subrange(taken, taken + due(plan, before.log)),
                            ),
                        )
                    } else {
                        NextView::Failed(FailureView::NoRoom)
                    },
                    ReplyView::Refused(detail) => after == NextView::Failed(
                        FailureView::Refused(detail),
                    ),
                    _ => after == NextView::Failed(FailureView::Misplaced),
                },
                NextView::Call(CallView::Write(bytes)) => {
                    &&& bytes == (plan.upload->0).subrange(taken, taken + due(plan, before.log))
                    &&& reply is Done ==> after == NextView::Call(CallView::AwaitInput)
                },
                NextView::Call(CallView::AwaitOutput) => reply is Done ==> after
                    == NextView::Call(
                    if untaken(plan, before.log) > 0 {
                        CallView::CheckWrite
                    } else {
                        CallView::DropBodyStream
                    },
                ),
                NextView::Call(CallView::DropBodyStream) => reply is Done ==> after
                    == NextView::Call(CallView::FinishBody),
                NextView::Call(CallView::FinishBody) => reply is Done ==> after
                    == NextView::Call(CallView::AwaitInput),
                _ => true,
            }
        }),
{
    lemma_run(plan, replies);
    lemma_run_log(plan, replies);
    assert(replies.push(reply).drop_last() =~= replies);
}

/// The input stream is waited for before each read, and each read asks for a megabyte.
/// As long as some of the body is to be sent, the stream must not end. Afterwards it
/// is read until it ends. A run without an upload then ends well; a run with one reads
/// once more, and ends well only where the stream has still ended.
pub proof fn law_input_is_read_to_its_end(
    plan: PlanView,
    replies: Seq<ReplyView>,
    reply: ReplyView,
)
    requires
        sound(plan),
    ensures
        ({
            let before = run(plan, replies);
            let after = run(plan, replies.push(reply)).next;
            let wait = NextView::Call(
                if plan.upload is Some {
                    CallView::AwaitInput
                } else {
                    CallView::AwaitSubscription
                },
            );
            match before.next {
                NextView::Call(CallView::SubscribeInput) => reply is Done ==> after == wait,
                NextView::Call(CallView::AwaitInput) => reply is Done ==> after
                    == NextView::Call(CallView::Read(1048576)),
                NextView::Call(CallView::AwaitSubscription) => reply is Done ==> after
                    == NextView::Call(CallView::Read(1048576)),
                NextView::Call(CallView::Read(_)) => if before.log.last().1 is Closed {
                    match reply {
                        ReplyView::Closed => after is Passed,
                        ReplyView::Bytes(_) => after == NextView::Failed(
                            FailureView::NotClosed,
                        ),
                        ReplyView::Refused(_) => after == NextView::Failed(
                            FailureView::NotClosed,
                        ),
                        _ => after == NextView::Failed(FailureView::Misplaced),
                    }
                } else {
                    match reply {
                        ReplyView::Bytes(_) => after == if body_finished(before.log) {
                            wait
                        } else {
                            NextView::Call(CallView::AwaitOutput)
                        },
                        ReplyView::Closed => after == if !body_finished(before.log) {
                            NextView::Failed(FailureView::ClosedEarly)
                        } else if plan.upload is Some {
                            NextView::Call(CallView::Read(1048576))
                        } else {
                            NextView::Passed
                        },
                        ReplyView::Refused(detail) => after == NextView::Failed(
                            FailureView::ReadFailed(detail),
                        ),
                        _ => after == NextView::Failed(FailureView::Misplaced),
                    }
                },
                _ => true,
            }
        }),
{
    lemma_run(plan, replies);
    lemma_run_log(plan, replies);
    lemma_went_on(plan, replies);
    assert(replies.push(reply).drop_last() =~= replies);
}

/// A call that gives nothing to go by but that it was done ends the run where it was
/// not done, with what the host said where the host refused it.
pub proof fn law_undone_call_ends_the_run(
    plan: PlanView,
    replies: Seq<ReplyView>,
    reply: ReplyView,
)
    requires
        sound(plan),
        sends(run(plan, replies).log) == 1 || run(plan, replies).next == NextView::Call(
            CallView::Send,
        ),
        !(reply is Done),
    ensures
        match run(plan, replies).next {
            NextView::Call(CallView::CheckWrite) => true,
            NextView::Call(CallView::PollResponse) => true,
            NextView::Call(CallView::ReadStatus) => true,
            NextView::Call(CallView::ReadHeader(_)) => true,
            NextView::Call(CallView::ConsumeResponse) => true,
            NextView::Call(CallView::Read(_)) => true,
            NextView::Call(_) => run(plan, replies.push(reply)).next == NextView::Failed(
                match reply {
                    ReplyView::Refused(detail) => FailureView::Refused(detail),
                    _ => FailureView::Misplaced,
                },
            ),
            _ => true,
        },
{
    lemma_run(plan, replies);
    lemma_run_log(plan, replies);
    assert(replies.push(reply).drop_last() =~= replies);
}

/// `reply` is one that a run goes on after, `call` being the one that it answers.
pub open spec fn was_done(plan: PlanView, call: CallView, reply: ReplyView) -> bool {
    match call {
        CallView::CheckWrite => reply is Budget,
        CallView::PollResponse => reply is Done || reply is NotReady,
        CallView::ReadStatus => reply == ReplyView::Status(200),
        CallView::ReadHeader(_) => reply matches ReplyView::Values(values) && values.len() > 0
            && plan.content_type == Some(values[0]),
        CallView::Read(_) => reply is Bytes || reply is Closed,
        _ => {
            ||| reply is Done
            ||| {
                &&& reply is Refused
                &&& exists|i: int|
                    0 <= i < plan.script.len() && !(#[trigger] plan.script[i]).required
                        && plan.script[i].call == call
            }
        },
    }
}

/// A run goes on only where the host did what it was asked: in a run that has not
/// failed, each call was done. One that gives nothing to go by was answered by `Done`,
/// unless it is a call that the script lets be refused; the response came without an
/// error, its status is 200, and its content type is the one asked for.
pub proof fn law_goes_on_only_where_done(plan: PlanView, replies: Seq<ReplyView>)
    requires
        sound(plan),
        !(run(plan, replies).next is Failed),
    ensures
        forall|i: int|
            0 <= i < run(plan, replies).log.len() ==> was_done(
                plan,
                (#[trigger] run(plan, replies).log[i]).0,
                run(plan, replies).log[i].1,
            ),
        run(plan, replies).next == NextView::Call(CallView::DropFuture) ==> {
            &&& run(plan, replies).log.len() > 0
            &&& run(plan, replies).log.last() == (CallView::PollResponse, ReplyView::Done)
        },
{
    lemma_went_on(plan, replies);
}

proof fn lemma_went_on(plan: PlanView, replies: Seq<ReplyView>)
    requires
        sound(plan),
    ensures
        !(run(plan, replies).next is Failed) ==> forall|i: int|
            0 <= i < run(plan, replies).log.len() ==> was_done(
                plan,
                (#[trigger] run(plan, replies).log[i]).0,
                run(plan, replies).log[i].1,
            ),
        run(plan, replies).next == NextView::Call(CallView::DropFuture) ==> {
            &&& run(plan, replies).log.len() > 0
            &&& run(plan, replies).log.last() == (CallView::PollResponse, ReplyView::Done)
        },
    decreases replies.len(),
{
    if replies.len() > 0 {
        let before = run(plan, replies.drop_last());
        let after = run(plan, replies);
        let reply = replies.last();
        lemma_went_on(plan, replies.drop_last());
        lemma_run(plan, replies.drop_last());
        lemma_run_log(plan, replies.drop_last());
        lemma_required(plan, replies.drop_last());
        if let NextView::Call(call) = before.next {
            assert(after.log == before.log.push((call, reply)));
            if before.state.stage is Setup {
                let all = prepared(before.log) + setup_now(before) + calls(before.state.script);
                let count = prepared(before.log).len() as int;
                assert(all.len() == plan.script.len());
                assert(all[count] == call);
                assert(plan.script[count].call == call);
            }
            if !(after.next is Failed) {
                assert(was_done(plan, call, reply));
                assert forall|i: int| 0 <= i < after.log.len() implies was_done(
                    plan,
                    (#[trigger] after.log[i]).0,
                    after.log[i].1,
                ) by {
                    if i < before.log.len() {
                        assert(after.log[i] == before.log[i]);
                    }
                }
            }
        }
    }
}

/// Of all calls of its kind, `call` is the only one, and it is made once.
pub open spec fn one_only(
    calls: Seq<CallView>,
    kind: spec_fn(CallView) -> bool,
    call: CallView,
) -> bool {
    &&& kind(call)
    &&& calls.contains(call)
    &&& forall|i: int, j: int|
        0 <= i < calls.len() && 0 <= j < calls.len() && kind(#[trigger] calls[i]) && kind(
            #[trigger] calls[j],
        ) ==> i == j
}

/// A run prepares its request with the calls of the script only.
pub proof fn law_request_is_prepared_by_the_script(plan: PlanView, replies: Seq<ReplyView>)
    requires
        sound(plan),
    ensures
        run(plan, replies).next matches NextView::Call(call) ==> {
            call is HeadersFromList || call is NewHeaders || call is AppendHeader
                || call is NewRequest || call is SetMethodPost || call is SetSchemeHttp
                || call is SetAuthority || call is SetPath || call is OpenBody
                || call is OpenBodyStream ==> calls(plan.script).contains(call)
        },
{
    lemma_run(plan, replies);
    lemma_run_log(plan, replies);
    let before = run(plan, replies);
    if let NextView::Call(call) = before.next {
        if before.state.stage is Setup {
            let all = prepared(before.log) + setup_now(before) + calls(before.state.script);
            assert(all[prepared(before.log).len() as int] == call);
        }
    }
}

/// Where nothing is uploaded and no call of the script may be refused, each call was
/// done, and nothing was printed, as long as the request was not handed over.
pub proof fn law_request_is_made_without_refusals(plan: PlanView, replies: Seq<ReplyView>)
    requires
        sound(plan),
        plan.upload is None,
        forall|i: int| 0 <= i < plan.script.len() ==> (#[trigger] plan.script[i]).required,
        !(run(plan, replies).next is Failed),
        sends(run(plan, replies).log) == 0,
    ensures
        forall|i: int|
            0 <= i < run(plan, replies).log.len() ==> (#[trigger] run(plan, replies).log[i]).1
                is Done,
        run(plan, replies).next matches NextView::Call(call) && !(call is Print),
        forall|detail: Seq<char>|
            run(plan, #[trigger] replies.push(ReplyView::Refused(detail))).next
                == NextView::Failed(FailureView::Refused(detail)),
    decreases replies.len(),
{
    lemma_run(plan, replies);
    lemma_run_log(plan, replies);
    if replies.len() > 0 {
        let front = replies.drop_last();
        let before = run(plan, front);
        let after = run(plan, replies);
        lemma_run(plan, front);
        lemma_run_log(plan, front);
        assert(front.push(replies.last()) =~= replies);
        if let NextView::Call(call) = before.next {
            assert(after.log.drop_last() =~= before.log);
            assert(sends(before.log) == 0);
        }
        law_request_is_made_without_refusals(plan, front);
        law_script_is_followed(plan, front, replies.last());
        if let NextView::Call(call) = before.next {
            assert forall|i: int| 0 <= i < after.log.len() implies (#[trigger] after.log[i]).1
                is Done by {
                if i < before.log.len() {
                    assert(after.log[i] == before.log[i]);
                }
            }
        }
    }
    assert forall|detail: Seq<char>|
        run(plan, #[trigger] replies.push(ReplyView::Refused(detail))).next
            == NextView::Failed(FailureView::Refused(detail)) by {
        law_script_is_followed(plan, replies, ReplyView::Refused(detail));
        assert(replies.push(ReplyView::Refused(detail)).drop_last() =~= replies);
    }
}

}
