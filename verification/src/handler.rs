//! The handler program: asks for a greeting.
use vstd::prelude::*;
use crate::exchange;
use crate::exchange::{Exchange, Plan, PlanView, SetupCall, SetupCallView};
use crate::run;
use crate::text;
use crate::wire;
use crate::wire::{
    Call, CallView, Failure, FailureView, HeaderView, Next, NextView, Reply, ReplyView,
};

verus! {

/// What the exchange with `server` is to do: get the test path, with a header
/// that a server may forbid and without a body. A host that refuses the path is
/// asked all the same.
pub open spec fn handler_plan_spec(server: Seq<char>) -> PlanView {
    PlanView {
        script: seq![
            exchange::must(CallView::NewHeaders),
            exchange::must(
                CallView::AppendHeader(wire::text_field("custom-forbidden-header"@, "yes"@)),
            ),
            exchange::must(CallView::NewRequest),
            exchange::must(CallView::SetSchemeHttp),
            exchange::must(CallView::SetAuthority(server)),
            SetupCallView { call: CallView::SetPath("/test-path"@), required: false },
            exchange::must(CallView::OpenBody),
            exchange::must(CallView::FinishBody),
        ],
        upload: None,
        content_type: None,
    }
}

/// Plans the exchange with `server`.
pub fn handler_plan(server: &str) -> (plan: Plan)
    ensures
        plan@ == handler_plan_spec(server@),
        gets_the_test_path(run::calls(plan@.script), server@),
{
    proof {
        law_handler_request_is_a_get(server@, Seq::empty());
    }
    let mut script: Vec<SetupCall> = Vec::new();
    script.push(exchange::required(Call::NewHeaders));
    script.push(
        exchange::required(
            Call::AppendHeader(wire::text_header("custom-forbidden-header", "yes")),
        ),
    );
    script.push(exchange::required(Call::NewRequest));
    script.push(exchange::required(Call::SetSchemeHttp));
    script.push(exchange::required(Call::SetAuthority(server.to_owned())));
    script.push(SetupCall { call: Call::SetPath("/test-path".to_owned()), required: false });
    script.push(exchange::required(Call::OpenBody));
    script.push(exchange::required(Call::FinishBody));
    let plan = Plan { script, upload: None, content_type: None };
    assert(plan@.script =~= handler_plan_spec(server@).script);
    plan
}

/// The greeting.
pub open spec fn greeting_spec() -> Seq<u8> {
    vstd::utf8::encode_utf8("hello, world!"@)
}

/// The greeting.
pub fn greeting() -> (bytes: Vec<u8>)
    ensures
        bytes@ == greeting_spec(),
        bytes@ == greeting_spelled(),
{
    proof {
        law_greeting_is_checked(Seq::empty());
    }
    "hello, world!".as_bytes_vec()
}

/// What is wrong with an answer.
pub open spec fn greeting_failure(received: Seq<u8>) -> Option<FailureView> {
    if received == greeting_spec() {
        None
    } else {
        Some(FailureView::Greeting(received))
    }
}

/// Checks that what was received is the greeting.
pub fn check_greeting(received: &Vec<u8>) -> (outcome: Result<(), Failure>)
    ensures
        wire::found_wrong(outcome, greeting_failure(received@)),
{
    if exchange::same_bytes(&greeting(), received) {
        Ok(())
    } else {
        Err(Failure::Greeting(exchange::copy_bytes(received)))
    }
}

/// Says what comes next in the handler program, where `next` comes in its exchange.
fn judge(exchange: &Exchange, next: Next) -> (verdict: Next)
    ensures
        verdict@ == wire::judged(next@, greeting_failure(exchange@.received)),
{
    match next {
        Next::Passed => match check_greeting(exchange.received()) {
            Ok(()) => Next::Passed,
            Err(failure) => Next::Failed(failure),
        },
        _ => next,
    }
}

/// Takes the host's reply to the last call, and says what comes next: a further
/// call, or the end. It ends well exactly where the exchange does and what came
/// back is the greeting.
pub fn handler_step(exchange: &mut Exchange, reply: &Reply) -> (next: Next)
    requires
        old(exchange).wf(),
    ensures
        ({
            let (state, came) = old(exchange)@.next(reply@);
            &&& final(exchange)@ == state
            &&& next@ == wire::judged(came, greeting_failure(state.received))
            &&& !(came is Passed) ==> next@ == came
            &&& next is Passed <==> came is Passed && state.received == greeting_spec()
        }),
        final(exchange).wf(),
{
    let next = exchange.step(reply);
    judge(exchange, next)
}

/// Asks `server` for the greeting, with a host that gives these replies, and says
/// what comes next: a further call, or the end.
pub fn proxy_handler(server: &str, replies: &Vec<Reply>) -> (next: Next)
    ensures
        ({
            let end = run::run(handler_plan_spec(server@), wire::answers(replies@));
            &&& next@ == wire::judged(end.next, greeting_failure(end.state.received))
            &&& next is Passed ==> run::read_back(end.log) == greeting_spec()
            &&& !(end.next is Passed) ==> next@ == end.next
            &&& end.next is Passed ==> next@ == if run::read_back(end.log)
                == greeting_spelled() {
                NextView::Passed
            } else {
                NextView::Failed(FailureView::Greeting(run::read_back(end.log)))
            }
            &&& next@ matches NextView::Call(CallView::SetAuthority(name)) ==> name == server@
            &&& next@ matches NextView::Call(CallView::SetPath(path)) ==> path == test_path()
            &&& next@ matches NextView::Call(CallView::AppendHeader(field)) ==> field
                == forbidden_field()
        }),
{
    let (exchange, next) = run::replay(handler_plan(server), replies);
    proof {
        lemma_handler_plan_is_sound(server@);
        law_greeting_is_checked(Seq::empty());
        law_handler_request_is_a_get(server@, wire::answers(replies@));
        run::law_request_is_prepared_by_the_script(
            handler_plan_spec(server@),
            wire::answers(replies@),
        );
        if run::run(handler_plan_spec(server@), wire::answers(replies@)).next is Passed {
            run::law_passed(handler_plan_spec(server@), wire::answers(replies@));
        }
    }
    judge(&exchange, next)
}

/// The plan of the handler program makes sense.
pub proof fn lemma_handler_plan_is_sound(server: Seq<char>)
    ensures
        run::sound(handler_plan_spec(server)),
{
    let plan = handler_plan_spec(server);
    assert(run::calls(plan.script)[7] == CallView::FinishBody);
}

/// The handler program ends well exactly where its exchange does and what the
/// host gave is the greeting, and then the host has told of one response with the
/// right status.
pub proof fn law_handler_passes_on_the_greeting(server: Seq<char>, replies: Seq<ReplyView>)
    ensures
        ({
            let end = run::run(handler_plan_spec(server), replies);
            &&& wire::judged(end.next, greeting_failure(end.state.received)) is Passed <==> {
                &&& end.next is Passed
                &&& run::read_back(end.log) == greeting_spec()
            }
            &&& end.next is Passed ==> run::sends(end.log) == 1 && run::status_was_ok(end.log)
        }),
{
    lemma_handler_plan_is_sound(server);
    if run::run(handler_plan_spec(server), replies).next is Passed {
        run::law_passed(handler_plan_spec(server), replies);
    }
}

/// A host that refuses the path is asked all the same: the refusal is printed,
/// and the exchange goes on as if the path had been set.
pub proof fn law_refused_path_is_printed(server: Seq<char>, detail: Seq<char>)
    ensures
        ({
            let plan = handler_plan_spec(server);
            let done = Seq::new(5, |i: int| ReplyView::Done);
            let refused = run::run(
                plan,
                done.push(ReplyView::Refused(detail)).push(ReplyView::Done),
            );
            let set = run::run(plan, done.push(ReplyView::Done));
            &&& run::run(plan, done.push(ReplyView::Refused(detail))).next
                == wire::NextView::Call(CallView::Print(detail))
            &&& refused.state == set.state
            &&& refused.next == set.next
            &&& set.next == wire::NextView::Call(CallView::OpenBody)
        }),
{
    let plan = handler_plan_spec(server);
    let done = Seq::new(5, |i: int| ReplyView::Done);
    let said = ReplyView::Done;
    let script = plan.script;
    assert(script.skip(0) =~= script);
    lemma_setup(plan, 5);
    assert(done.push(said).drop_last() =~= done);
    assert(done.push(ReplyView::Refused(detail)).drop_last() =~= done);
    assert(done.push(ReplyView::Refused(detail)).push(said).drop_last() =~= done.push(
        ReplyView::Refused(detail),
    ));
    assert(script.skip(6).drop_first() =~= script.skip(7));
}

/// After `count` calls of the script were done, the next one comes.
proof fn lemma_setup(plan: PlanView, count: nat)
    requires
        count < plan.script.len(),
    ensures
        ({
            let at = run::run(plan, Seq::new(count, |i: int| ReplyView::Done));
            &&& at.state == (exchange::ExchangeView {
                script: plan.script.skip(count as int + 1),
                stage: exchange::Stage::Setup { required: plan.script[count as int].required },
                ..exchange::fresh(plan)
            })
            &&& at.next == wire::NextView::Call(plan.script[count as int].call)
        }),
    decreases count,
{
    let done = Seq::new(count, |i: int| ReplyView::Done);
    assert(plan.script.drop_first() =~= plan.script.skip(1));
    if count > 0 {
        let before = (count - 1) as nat;
        lemma_setup(plan, before);
        assert(done.drop_last() =~= Seq::new(before, |i: int| ReplyView::Done));
        assert(plan.script.skip(count as int).drop_first() =~= plan.script.skip(count as int + 1));
    }
}

/// The greeting, spelled out.
pub open spec fn greeting_spelled() -> Seq<u8> {
    text::ascii(seq!['h', 'e', 'l', 'l', 'o', ',', ' ', 'w', 'o', 'r', 'l', 'd', '!'])
}

/// An answer is right exactly where it is the greeting, byte for byte; what is wrong
/// with another one is told by showing it.
pub proof fn law_greeting_is_checked(received: Seq<u8>)
    ensures
        greeting_spec() == greeting_spelled(),
        greeting_failure(received) == if received == greeting_spelled() {
            None
        } else {
            Some(FailureView::Greeting(received))
        },
{
    reveal_strlit("hello, world!");
    let chars = seq!['h', 'e', 'l', 'l', 'o', ',', ' ', 'w', 'o', 'r', 'l', 'd', '!'];
    assert("hello, world!"@ =~= chars);
    text::lemma_ascii(chars);
}

/// The header field that a server may forbid.
pub open spec fn forbidden_field() -> HeaderView {
    HeaderView {
        name: seq!['c', 'u', 's', 't', 'o', 'm', '-'] + seq![
            'f',
            'o',
            'r',
            'b',
            'i',
            'd',
            'd',
            'e',
            'n',
            '-',
        ] + seq!['h', 'e', 'a', 'd', 'e', 'r'],
        value: text::ascii(seq!['y', 'e', 's']),
    }
}

/// The path that the handler program asks for.
pub open spec fn test_path() -> Seq<char> {
    seq!['/', 't', 'e', 's', 't', '-', 'p', 'a', 't', 'h']
}

/// These calls make a request that gets the test path of `server`, with the header that
/// a server may forbid, and with a body that is finished at once.
pub open spec fn gets_the_test_path(calls: Seq<CallView>, server: Seq<char>) -> bool {
    &&& calls.len() == 8
    &&& run::one_only(
        calls,
        |call: CallView| call is AppendHeader,
        CallView::AppendHeader(forbidden_field()),
    )
    &&& run::one_only(
        calls,
        |call: CallView| call is SetAuthority,
        CallView::SetAuthority(server),
    )
    &&& run::one_only(calls, |call: CallView| call is SetPath, CallView::SetPath(test_path()))
    &&& calls[0] is NewHeaders
    &&& calls[1] is AppendHeader
    &&& calls[2] is NewRequest
    &&& calls[3] is SetSchemeHttp
    &&& calls[4] is SetAuthority
    &&& calls[5] is SetPath
    &&& calls[6] is OpenBody
    &&& calls[7] is FinishBody
}

/// The request that is handed over gets the test path of the server given, and so does
/// the one that is planned; nothing is uploaded, and no content type is asked for. Each
/// call that prepares it must be done but the one that sets the path.
pub proof fn law_handler_request_is_a_get(server: Seq<char>, replies: Seq<ReplyView>)
    ensures
        ({
            let plan = handler_plan_spec(server);
            let end = run::run(plan, replies);
            &&& gets_the_test_path(run::calls(plan.script), server)
            &&& end.next == NextView::Call(CallView::Send) ==> gets_the_test_path(
                run::prepared(end.log),
                server,
            )
            &&& forall|i: int|
                0 <= i < plan.script.len() ==> (#[trigger] plan.script[i]).required == !(
                plan.script[i].call is SetPath)
            &&& plan.upload is None
            &&& plan.content_type is None
        }),
{
    reveal_strlit("custom-forbidden-header");
    reveal_strlit("yes");
    reveal_strlit("/test-path");
    assert("custom-forbidden-header"@ =~= forbidden_field().name);
    assert("yes"@ =~= seq!['y', 'e', 's']);
    assert("/test-path"@ =~= test_path());
    text::lemma_ascii("yes"@);
    let plan = handler_plan_spec(server);
    let calls = run::calls(plan.script);
    lemma_handler_plan_is_sound(server);
    run::law_one_request_as_planned(plan, replies);
    assert(calls[1] == CallView::AppendHeader(forbidden_field()));
    assert(calls[4] == CallView::SetAuthority(server));
    assert(calls[5] == CallView::SetPath(test_path()));
}

/// In the handler program a refusal ends the program with what the host said, be it of a
/// call that prepares the request, of the request or of the response. Only a refused
/// path is passed over: what the host said is printed.
pub proof fn law_handler_fails_where_refused(
    server: Seq<char>,
    replies: Seq<ReplyView>,
    detail: Seq<char>,
)
    requires
        ({
            let end = run::run(handler_plan_spec(server), replies);
            &&& end.next is Call
            &&& run::sends(end.log) == 0 || end.next->Call_0 is PollResponse
        }),
    ensures
        ({
            let plan = handler_plan_spec(server);
            let told = run::run(plan, replies.push(ReplyView::Refused(detail))).next;
            told == if run::run(plan, replies).next->Call_0 is SetPath {
                NextView::Call(CallView::Print(detail))
            } else {
                NextView::Failed(FailureView::Refused(detail))
            }
        }),
{
    let plan = handler_plan_spec(server);
    let reply = ReplyView::Refused(detail);
    lemma_handler_plan_is_sound(server);
    law_handler_request_is_a_get(server, replies);
    run::law_response_is_waited_for(plan, replies, reply);
    if run::sends(run::run(plan, replies).log) == 0 {
        run::law_script_is_followed(plan, replies, reply);
        run::law_upload_before_sending(plan, replies, reply);
        if run::run(plan, replies).next == NextView::Call(CallView::Send) {
            run::law_undone_call_ends_the_run(plan, replies, reply);
        }
    }
}

}
