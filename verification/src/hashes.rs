//! The hash program: asks one server for the hashes of the pages of another.
use vstd::prelude::*;
use crate::digest;
use crate::exchange;
use crate::exchange::{Exchange, Plan, PlanView, SetupCall, SetupCallView};
use crate::report;
use crate::report::{PageHash, PageHashView};
use crate::run;
use crate::text;
use crate::wire;
use crate::wire::{
    Call, CallView, FailureView, HeaderView, Next, NextView, Reply, ReplyView,
};

verus! {

/// A page of the other server: where it stands, and what it says.
#[derive(Debug, PartialEq, Eq)]
pub struct Page {
    pub path: String,
    pub body: String,
}

/// A page's path and its text.
#[verifier::ext_equal]
pub struct PageView {
    pub path: Seq<char>,
    pub body: Seq<char>,
}

impl View for Page {
    type V = PageView;

    open spec fn view(&self) -> PageView {
        PageView { path: self.path@, body: self.body@ }
    }
}

/// The pages of the other server.
pub open spec fn pages_spec() -> Seq<PageView> {
    seq![
        PageView { path: "/a"@, body: "’Twas brillig, and the slithy toves"@ },
        PageView { path: "/b"@, body: "Did gyre and gimble in the wabe:"@ },
        PageView { path: "/c"@, body: "All mimsy were the borogoves,"@ },
        PageView { path: "/d"@, body: "And the mome raths outgrabe."@ },
    ]
}

/// The contents of a list of pages.
pub open spec fn page_views(list: Seq<Page>) -> Seq<PageView> {
    list.map_values(|page: Page| page@)
}

fn page(path: &str, body: &str) -> (made: Page)
    ensures
        made@ == (PageView { path: path@, body: body@ }),
{
    Page { path: path.to_owned(), body: body.to_owned() }
}

/// The pages of the other server.
pub fn pages() -> (list: Vec<Page>)
    ensures
        page_views(list@) == pages_spec(),
{
    let mut list: Vec<Page> = Vec::new();
    list.push(page("/a", "’Twas brillig, and the slithy toves"));
    list.push(page("/b", "Did gyre and gimble in the wabe:"));
    list.push(page("/c", "All mimsy were the borogoves,"));
    list.push(page("/d", "And the mome raths outgrabe."));
    assert(page_views(list@) =~= pages_spec());
    list
}

/// The contents of a list of texts.
pub open spec fn strings(list: Seq<String>) -> Seq<Seq<char>> {
    list.map_values(|s: String| s@)
}

/// The paths of the pages.
pub open spec fn page_paths_spec() -> Seq<Seq<char>> {
    pages_spec().map_values(|page: PageView| page.path)
}

/// Lists the paths of the pages.
pub fn page_paths() -> (paths: Vec<String>)
    ensures
        strings(paths@) == page_paths_spec(),
{
    let list = pages();
    let mut paths: Vec<String> = Vec::new();
    let mut i: usize = 0;
    while i < list.len()
        invariant
            i <= list@.len(),
            page_views(list@) == pages_spec(),
            strings(paths@) == page_paths_spec().take(i as int),
        decreases list@.len() - i,
    {
        assert(page_views(list@)[i as int] == list@[i as int]@);
        let ghost before = paths@;
        paths.push(list[i].path.clone());
        assert(strings(paths@) =~= strings(before).push(page_paths_spec()[i as int]));
        assert(page_paths_spec().take(i + 1) =~= page_paths_spec().take(i as int).push(
            page_paths_spec()[i as int],
        ));
        i = i + 1;
    }
    assert(page_paths_spec().take(i as int) =~= page_paths_spec());
    paths
}

/// `paths` are those of the pages, each once, in any order.
pub open spec fn asks_for_each_page(paths: Seq<Seq<char>>) -> bool {
    paths.to_multiset() == page_paths_spec().to_multiset()
}

/// Finds a text in a list.
fn position(list: &Vec<String>, wanted: &String) -> (at: Option<usize>)
    ensures
        match at {
            Some(i) => i < list@.len() && list@[i as int]@ == wanted@,
            None => !strings(list@).contains(wanted@),
        },
{
    let mut i: usize = 0;
    while i < list.len()
        invariant
            i <= list@.len(),
            forall|j: int| 0 <= j < i ==> strings(list@)[j] != wanted@,
        decreases list@.len() - i,
    {
        if list[i] == *wanted {
            return Some(i);
        }
        i = i + 1;
    }
    None
}

/// Says whether `paths` are those of the pages, each once, in any order.
pub fn are_page_paths(paths: &Vec<String>) -> (right: bool)
    ensures
        right == asks_for_each_page(strings(paths@)),
{
    broadcast use vstd::multiset::group_multiset_axioms;
    broadcast use vstd::seq_lib::group_to_multiset_ensures;

    let mut left = page_paths();
    let ghost all = strings(paths@);
    let ghost wanted = page_paths_spec().to_multiset();
    let mut i: usize = 0;
    assert(all.take(0) =~= Seq::<Seq<char>>::empty());
    assert(all.take(0).to_multiset().add(strings(left@).to_multiset()) =~= wanted);
    while i < paths.len()
        invariant
            i <= paths@.len(),
            all == strings(paths@),
            wanted == page_paths_spec().to_multiset(),
            all.take(i as int).to_multiset().add(strings(left@).to_multiset()) == wanted,
        decreases paths@.len() - i,
    {
        broadcast use vstd::multiset::group_multiset_axioms;
        broadcast use vstd::seq_lib::group_to_multiset_ensures;

        let ghost path = all[i as int];
        let ghost taken = all.take(i as int);
        let ghost before = strings(left@);
        assert(all.take(i + 1) =~= taken.push(path));
        match position(&left, &paths[i]) {
            Some(at) => {
                left.remove(at);
                assert(strings(left@) =~= before.remove(at as int));
                assert(before[at as int] == path);
                assert(before.contains(path));
                assert(all.take(i + 1).to_multiset().add(strings(left@).to_multiset())
                    =~= wanted);
            },
            None => {
                proof {
                    lemma_front_counts(all, i + 1, path);
                    assert(before.to_multiset().count(path) == 0);
                    assert(all.take(i + 1).to_multiset().count(path) == taken.to_multiset().count(
                        path,
                    ) + 1);
                    assert(all.to_multiset().count(path) > wanted.count(path));
                }
                return false;
            },
        }
        i = i + 1;
    }
    assert(all.take(i as int) =~= all);
    proof {
        if left@.len() == 0 {
            assert(strings(left@).to_multiset() =~= vstd::multiset::Multiset::empty());
            assert(all.to_multiset() =~= wanted);
        } else {
            assert(all.len() + left@.len() == page_paths_spec().len()) by {
                assert(all.to_multiset().add(strings(left@).to_multiset()).len()
                    == wanted.len());
            }
        }
    }
    left.len() == 0
}

/// A front of a list holds nothing more often than the list does.
proof fn lemma_front_counts(list: Seq<Seq<char>>, count: int, item: Seq<char>)
    requires
        0 <= count <= list.len(),
    ensures
        list.take(count).to_multiset().count(item) <= list.to_multiset().count(item),
    decreases list.len() - count,
{
    broadcast use vstd::multiset::group_multiset_axioms;
    broadcast use vstd::seq_lib::group_to_multiset_ensures;

    if count < list.len() {
        lemma_front_counts(list, count + 1, item);
        assert(list.take(count + 1) =~= list.take(count).push(list[count]));
    } else {
        assert(list.take(count) =~= list);
    }
}

/// The hashes that a report on the pages must give.
pub open spec fn page_hashes_spec() -> Seq<PageHashView> {
    pages_spec().map_values(
        |page: PageView|
            PageHashView { path: page.path, hash: digest::fingerprint_spec(page.body) },
    )
}

/// A text takes at most four bytes a character.
proof fn lemma_encoded_len(s: Seq<char>)
    ensures
        vstd::utf8::encode_utf8(s).len() <= 4 * s.len(),
    decreases s.len(),
{
    if s.len() > 0 {
        lemma_encoded_len(s.drop_first());
    }
}

/// The pages are short.
proof fn lemma_pages_are_short(i: int)
    requires
        0 <= i < pages_spec().len(),
    ensures
        vstd::utf8::encode_utf8(pages_spec()[i].body).len() <= 200,
{
    reveal_strlit("’Twas brillig, and the slithy toves");
    reveal_strlit("Did gyre and gimble in the wabe:");
    reveal_strlit("All mimsy were the borogoves,");
    reveal_strlit("And the mome raths outgrabe.");
    lemma_encoded_len(pages_spec()[i].body);
}

/// Computes the hashes that a report on the pages must give.
pub fn page_hashes() -> (hashes: Vec<PageHash>)
    ensures
        report::page_hashes(hashes@) == page_hashes_spec(),
{
    let list = pages();
    let mut hashes: Vec<PageHash> = Vec::new();
    let mut i: usize = 0;
    while i < list.len()
        invariant
            i <= list@.len(),
            page_views(list@) == pages_spec(),
            report::page_hashes(hashes@) == page_hashes_spec().take(i as int),
        decreases list@.len() - i,
    {
        assert(page_views(list@)[i as int] == list@[i as int]@);
        proof {
            lemma_pages_are_short(i as int);
        }
        let hash = digest::fingerprint(list[i].body.as_str());
        let ghost before = hashes@;
        hashes.push(PageHash { path: list[i].path.clone(), hash });
        assert(report::page_hashes(hashes@) =~= report::page_hashes(before).push(
            page_hashes_spec()[i as int],
        ));
        assert(page_hashes_spec().take(i + 1) =~= page_hashes_spec().take(i as int).push(
            page_hashes_spec()[i as int],
        ));
        i = i + 1;
    }
    assert(page_hashes_spec().take(i as int) =~= page_hashes_spec());
    hashes
}

/// The header field that asks for the hash of the page at `path` of `other_server`.
pub open spec fn url_field(other_server: Seq<char>, path: Seq<char>) -> HeaderView {
    wire::text_field("url"@, text::url_spec(other_server, path))
}

/// The calls that ask for the hashes of the pages at `paths`, one for each, in
/// this order.
pub open spec fn url_calls(other_server: Seq<char>, paths: Seq<Seq<char>>) -> Seq<
    SetupCallView,
> {
    paths.map_values(
        |path: Seq<char>| exchange::must(CallView::AppendHeader(url_field(other_server, path))),
    )
}

/// What the exchange with `server` is to do: ask for the hashes of the pages at
/// `paths` of `other_server`, with a body that is empty.
pub open spec fn hash_plan_spec(
    server: Seq<char>,
    other_server: Seq<char>,
    paths: Seq<Seq<char>>,
) -> PlanView {
    PlanView {
        script: seq![exchange::must(CallView::NewHeaders)] + url_calls(other_server, paths)
            + seq![
            exchange::must(CallView::NewRequest),
            exchange::must(CallView::SetSchemeHttp),
            exchange::must(CallView::SetAuthority(server)),
            exchange::must(CallView::SetPath("/hash-all"@)),
            exchange::must(CallView::OpenBody),
            exchange::must(CallView::OpenBodyStream),
            exchange::must(CallView::DropBodyStream),
            exchange::must(CallView::FinishBody),
        ],
        upload: None,
        content_type: None,
    }
}

/// The header fields that some calls append, in their order.
pub open spec fn appended(calls: Seq<CallView>) -> Seq<HeaderView>
    decreases calls.len(),
{
    if calls.len() == 0 {
        Seq::empty()
    } else {
        match calls.last() {
            CallView::AppendHeader(field) => appended(calls.drop_last()).push(field),
            _ => appended(calls.drop_last()),
        }
    }
}

/// The header fields that ask for the hashes of the pages of `other_server`, one
/// for each page.
pub open spec fn page_fields(other_server: Seq<char>) -> Seq<HeaderView> {
    pages_spec().map_values(|page: PageView| url_field(other_server, page.path))
}

/// Plans the exchange with `server`. The pages are asked for in the order of `paths`.
pub fn hash_plan(server: &str, other_server: &str, paths: &Vec<String>) -> (plan: Plan)
    requires
        asks_for_each_page(strings(paths@)),
    ensures
        plan@ == hash_plan_spec(server@, other_server@, strings(paths@)),
        appended(run::calls(plan@.script)).to_multiset() == page_fields(
            other_server@,
        ).to_multiset(),
        gets_all_hashes(
            run::calls(plan@.script),
            server@,
            other_server@,
            paths@.map_values(|path: String| path@),
        ),
{
    proof {
        law_hash_request_is_a_get(server@, other_server@, strings(paths@), Seq::empty());
        law_request_asks_for_each_page(server@, other_server@, strings(paths@), Seq::empty());
    }
    let mut script: Vec<SetupCall> = Vec::new();
    script.push(exchange::required(Call::NewHeaders));
    let ghost first = seq![exchange::must(CallView::NewHeaders)];
    let ghost asked = url_calls(other_server@, strings(paths@));
    assert(exchange::setup_calls(script@) =~= first + asked.take(0));
    let mut i: usize = 0;
    while i < paths.len()
        invariant
            i <= paths@.len(),
            asked == url_calls(other_server@, strings(paths@)),
            exchange::setup_calls(script@) == first + asked.take(i as int),
        decreases paths@.len() - i,
    {
        let address = text::url(other_server, paths[i].as_str());
        let ghost before = script@;
        script.push(
            exchange::required(
                Call::AppendHeader(wire::text_header("url", address.as_str())),
            ),
        );
        assert(exchange::setup_calls(script@) =~= exchange::setup_calls(before).push(
            asked[i as int],
        ));
        assert(first + asked.take(i + 1) =~= (first + asked.take(i as int)).push(
            asked[i as int],
        ));
        i = i + 1;
    }
    assert(asked.take(i as int) =~= asked);
    script.push(exchange::required(Call::NewRequest));
    script.push(exchange::required(Call::SetSchemeHttp));
    script.push(exchange::required(Call::SetAuthority(server.to_owned())));
    script.push(exchange::required(Call::SetPath("/hash-all".to_owned())));
    script.push(exchange::required(Call::OpenBody));
    script.push(exchange::required(Call::OpenBodyStream));
    script.push(exchange::required(Call::DropBodyStream));
    script.push(exchange::required(Call::FinishBody));
    let plan = Plan { script, upload: None, content_type: None };
    assert(plan@.script =~= hash_plan_spec(server@, other_server@, strings(paths@)).script);
    plan
}

/// Says what comes next in the hash program, where `next` comes in its exchange.
/// `hashes` are those that the report must give.
fn judge(
    exchange: &Exchange,
    next: Next,
    other_server: &str,
    hashes: &Vec<PageHash>,
) -> (verdict: Next)
    ensures
        verdict@ == wire::judged(
            next@,
            report::report_failure(
                exchange@.received,
                other_server@,
                report::page_hashes(hashes@),
            ),
        ),
{
    match next {
        Next::Passed => match report::check_report(exchange.received(), other_server, hashes) {
            Ok(()) => Next::Passed,
            Err(failure) => Next::Failed(failure),
        },
        _ => next,
    }
}

/// Takes the host's reply to the last call, and says what comes next: a further
/// call, or the end. It ends well exactly where the exchange does and what came
/// back is a report on the pages of `other_server` with the right hashes.
pub fn hash_step(exchange: &mut Exchange, reply: &Reply, other_server: &str) -> (next: Next)
    requires
        old(exchange).wf(),
    ensures
        ({
            let (state, came) = old(exchange)@.next(reply@);
            &&& final(exchange)@ == state
            &&& next@ == wire::judged(
                came,
                report::report_failure(state.received, other_server@, page_hashes_spec()),
            )
            &&& !(came is Passed) ==> next@ == came
        }),
        final(exchange).wf(),
{
    let next = exchange.step(reply);
    match next {
        Next::Passed => judge(exchange, next, other_server, &page_hashes()),
        _ => next,
    }
}

/// Asks `server` for the hashes of the pages of `other_server`, with a host that
/// gives these replies, and says what comes next: a further call, or the end. The
/// pages are asked for in the order of `paths`. `hashes` are those that the report
/// must give.
pub fn hash_all_against(
    server: &str,
    other_server: &str,
    paths: &Vec<String>,
    replies: &Vec<Reply>,
    hashes: &Vec<PageHash>,
) -> (next: Next)
    requires
        asks_for_each_page(strings(paths@)),
    ensures
        ({
            let end = run::run(
                hash_plan_spec(server@, other_server@, strings(paths@)),
                wire::answers(replies@),
            );
            &&& next@ == wire::judged(
                end.next,
                report::report_failure(
                    end.state.received,
                    other_server@,
                    report::page_hashes(hashes@),
                ),
            )
            &&& next@ == NextView::Call(CallView::Send) ==> appended(
                run::prepared(end.log),
            ).to_multiset() == page_fields(other_server@).to_multiset()
        }),
{
    let (exchange, next) = run::replay(hash_plan(server, other_server, paths), replies);
    proof {
        law_request_asks_for_each_page(
            server@,
            other_server@,
            strings(paths@),
            wire::answers(replies@),
        );
    }
    judge(&exchange, next, other_server, hashes)
}

/// Asks `server` for the hashes of the pages of `other_server`, with a host that
/// gives these replies, and says what comes next: a further call, or the end. The
/// pages are asked for in the order of `paths`, each once. It ends well exactly
/// where the exchange does and what came back is a report with the right hashes.
pub fn do_wasi_http_hash_all(
    server: &str,
    other_server: &str,
    paths: &Vec<String>,
    replies: &Vec<Reply>,
) -> (next: Next)
    requires
        asks_for_each_page(strings(paths@)),
    ensures
        ({
            let end = run::run(
                hash_plan_spec(server@, other_server@, strings(paths@)),
                wire::answers(replies@),
            );
            &&& next@ == wire::judged(
                end.next,
                report::report_failure(end.state.received, other_server@, page_hashes_spec()),
            )
            &&& !(end.next is Passed) ==> next@ == end.next
            &&& next is Passed <==> end.next is Passed && report::report_failure(
                run::read_back(end.log),
                other_server@,
                page_hashes_spec(),
            ) is None
            &&& next@ matches NextView::Call(CallView::SetAuthority(name)) ==> name == server@
            &&& next@ matches NextView::Call(CallView::SetPath(path)) ==> path
                == hash_all_path()
            &&& next@ matches NextView::Call(CallView::AppendHeader(field)) ==> exists|i: int|
                0 <= i < paths@.len() && field == names_page(
                    other_server@,
                    (#[trigger] paths@[i])@,
                )
            &&& next@ == NextView::Call(CallView::Send) ==> appended(
                run::prepared(end.log),
            ).to_multiset() == page_fields(other_server@).to_multiset()
        }),
{
    proof {
        let said = wire::answers(replies@);
        let plan = hash_plan_spec(server@, other_server@, strings(paths@));
        lemma_hash_plan_is_sound(server@, other_server@, strings(paths@));
        law_hash_all_passes_on_a_report(server@, other_server@, strings(paths@), said);
        law_hash_request_is_a_get(server@, other_server@, strings(paths@), said);
        run::law_request_is_prepared_by_the_script(plan, said);
        if let NextView::Call(CallView::AppendHeader(field)) = run::run(plan, said).next {
            let calls = run::calls(plan.script);
            let call = CallView::AppendHeader(field);
            let i = choose|i: int| 0 <= i < calls.len() && calls[i] == call;
            assert(calls[(i - 1) + 1] == call);
            assert(strings(paths@)[i - 1] == paths@[i - 1]@);
        }
    }
    hash_all_against(server, other_server, paths, replies, &page_hashes())
}

/// The plan of the hash program makes sense, whatever the order of the pages.
pub proof fn lemma_hash_plan_is_sound(
    server: Seq<char>,
    other_server: Seq<char>,
    paths: Seq<Seq<char>>,
)
    ensures
        run::sound(hash_plan_spec(server, other_server, paths)),
{
    let plan = hash_plan_spec(server, other_server, paths);
    assert(run::calls(plan.script)[paths.len() as int + 8] == CallView::FinishBody);
}

/// The hash program ends well exactly where its exchange does and nothing is
/// wrong with the report that the host gave, and then the host has told of one
/// response with the right status.
pub proof fn law_hash_all_passes_on_a_report(
    server: Seq<char>,
    other_server: Seq<char>,
    paths: Seq<Seq<char>>,
    replies: Seq<ReplyView>,
)
    ensures
        ({
            let end = run::run(hash_plan_spec(server, other_server, paths), replies);
            &&& wire::judged(
                end.next,
                report::report_failure(end.state.received, other_server, page_hashes_spec()),
            ) is Passed <==> {
                &&& end.next is Passed
                &&& report::report_failure(
                    run::read_back(end.log),
                    other_server,
                    page_hashes_spec(),
                ) is None
            }
            &&& end.next is Passed ==> run::sends(end.log) == 1 && run::status_was_ok(end.log)
        }),
{
    let plan = hash_plan_spec(server, other_server, paths);
    lemma_hash_plan_is_sound(server, other_server, paths);
    if run::run(plan, replies).next is Passed {
        run::law_passed(plan, replies);
    }
}

proof fn lemma_appended_together(a: Seq<CallView>, b: Seq<CallView>)
    ensures
        appended(a + b) == appended(a) + appended(b),
    decreases b.len(),
{
    if b.len() == 0 {
        assert(a + b =~= a);
    } else {
        lemma_appended_together(a, b.drop_last());
        assert((a + b).drop_last() =~= a + b.drop_last());
    }
}

proof fn lemma_nothing_appended(calls: Seq<CallView>)
    requires
        forall|i: int| 0 <= i < calls.len() ==> !(#[trigger] calls[i] is AppendHeader),
    ensures
        appended(calls).len() == 0,
    decreases calls.len(),
{
    if calls.len() > 0 {
        lemma_nothing_appended(calls.drop_last());
    }
}

/// The fields that the calls for `paths` append.
proof fn lemma_urls_appended(other_server: Seq<char>, paths: Seq<Seq<char>>)
    ensures
        appended(run::calls(url_calls(other_server, paths))) == paths.map_values(
            |path: Seq<char>| url_field(other_server, path),
        ),
    decreases paths.len(),
{
    let calls = run::calls(url_calls(other_server, paths));
    if paths.len() > 0 {
        lemma_urls_appended(other_server, paths.drop_last());
        assert(calls.drop_last() =~= run::calls(url_calls(other_server, paths.drop_last())));
        assert(calls.last() == CallView::AppendHeader(url_field(other_server, paths.last())));
    }
}

/// Lists with the same items, each as often, give such lists again under a function.
proof fn lemma_map_keeps_multisets<A, B>(a: Seq<A>, b: Seq<A>, f: spec_fn(A) -> B)
    requires
        a.to_multiset() == b.to_multiset(),
    ensures
        a.map_values(f).to_multiset() == b.map_values(f).to_multiset(),
    decreases a.len(),
{
    broadcast use vstd::multiset::group_multiset_axioms;
    broadcast use vstd::seq_lib::group_to_multiset_ensures;

    a.to_multiset_ensures();
    b.to_multiset_ensures();
    if a.len() == 0 {
        assert(a.map_values(f) =~= b.map_values(f));
    } else {
        let item = a.last();
        let front = a.drop_last();
        assert(front.push(item) =~= a);
        assert(b.contains(item)) by {
            assert(a.contains(item));
            assert(b.to_multiset().count(item) > 0);
        }
        let at = choose|at: int| 0 <= at < b.len() && b[at] == item;
        let rest = b.remove(at);
        assert(front.to_multiset() =~= rest.to_multiset());
        lemma_map_keeps_multisets(front, rest, f);
        assert(a.map_values(f) =~= front.map_values(f).push(f(item)));
        let mapped = b.map_values(f);
        assert(mapped.remove(at) =~= rest.map_values(f));
        assert(mapped[at] == f(item));
        assert(mapped.contains(f(item)));
        assert(a.map_values(f).to_multiset() =~= mapped.to_multiset());
    }
}

/// The request asks for each page once: the header fields that are appended in the
/// plan are those of the pages, and so are the ones that have been appended when
/// the request is handed over, whatever the order of the pages.
pub proof fn law_request_asks_for_each_page(
    server: Seq<char>,
    other_server: Seq<char>,
    paths: Seq<Seq<char>>,
    replies: Seq<ReplyView>,
)
    requires
        asks_for_each_page(paths),
    ensures
        ({
            let plan = hash_plan_spec(server, other_server, paths);
            let end = run::run(plan, replies);
            let asked = page_fields(other_server).to_multiset();
            &&& appended(run::calls(plan.script)).to_multiset() == asked
            &&& end.next == NextView::Call(CallView::Send) ==> appended(
                run::prepared(end.log),
            ).to_multiset() == asked
        }),
{
    let plan = hash_plan_spec(server, other_server, paths);
    let calls = run::calls(plan.script);
    let urls = run::calls(url_calls(other_server, paths));
    let front = calls.take(1);
    let back = calls.skip(1 + paths.len() as int);
    let f = |path: Seq<char>| url_field(other_server, path);
    assert(calls =~= front + urls + back);
    lemma_appended_together(front + urls, back);
    lemma_appended_together(front, urls);
    lemma_nothing_appended(front);
    lemma_nothing_appended(back);
    lemma_urls_appended(other_server, paths);
    assert(appended(calls) =~= paths.map_values(f));
    lemma_map_keeps_multisets(paths, page_paths_spec(), f);
    assert(page_paths_spec().map_values(f) =~= page_fields(other_server));
    lemma_hash_plan_is_sound(server, other_server, paths);
    run::law_one_request_as_planned(plan, replies);
}

/// The request asks for the pages at `paths`, and for nothing else.
pub proof fn law_request_asks_for_the_paths(
    server: Seq<char>,
    other_server: Seq<char>,
    paths: Seq<Seq<char>>,
    field: HeaderView,
)
    ensures
        run::calls(hash_plan_spec(server, other_server, paths).script).contains(
            CallView::AppendHeader(field),
        ) <==> exists|path: Seq<char>| #[trigger]
            paths.contains(path) && field == url_field(other_server, path),
{
    let calls = run::calls(hash_plan_spec(server, other_server, paths).script);
    let call = CallView::AppendHeader(field);
    if calls.contains(call) {
        let i = choose|i: int| 0 <= i < calls.len() && calls[i] == call;
        assert(0 < i <= paths.len());
        assert(paths.contains(paths[i - 1]));
    }
    assert forall|path: Seq<char>| #[trigger]
        paths.contains(path) && field == url_field(other_server, path) implies calls.contains(
        call,
    ) by {
        let i = choose|i: int| 0 <= i < paths.len() && paths[i] == path;
        assert(calls[i + 1] == call);
    }
}

/// No two pages have the same path, and each path gives the hash of its page.
pub proof fn law_each_page_has_its_hash(i: int)
    requires
        0 <= i < pages_spec().len(),
    ensures
        report::hash_of(page_hashes_spec(), pages_spec()[i].path) == Some(
            digest::fingerprint_spec(pages_spec()[i].body),
        ),
        forall|j: int|
            0 <= j < pages_spec().len() && j != i ==> (#[trigger] pages_spec()[j]).path
                != pages_spec()[i].path,
{
    reveal_strlit("/a");
    reveal_strlit("/b");
    reveal_strlit("/c");
    reveal_strlit("/d");
    reveal_with_fuel(report::hash_of, 5);
    let all = page_hashes_spec();
    assert("/a"@[1] == 'a');
    assert("/b"@[1] == 'b');
    assert("/c"@[1] == 'c');
    assert("/d"@[1] == 'd');
    assert(all.drop_first()[0] == all[1]);
    assert(all.drop_first().drop_first()[0] == all[2]);
    assert(all.drop_first().drop_first().drop_first()[0] == all[3]);
}

/// The line that a report gives for a page of `other_server`.
pub open spec fn true_line(other_server: Seq<char>, page: PageView) -> Seq<char> {
    report::line_for(other_server, page.path, digest::fingerprint_spec(page.body))
}

/// A true report passes: one that gives for some of the pages, in any order and
/// as often as it likes, the page's URL and its hash, as long as the name of the
/// other server holds neither a line feed nor the separator.
pub proof fn law_true_report_passes(other_server: Seq<char>, picked: Seq<PageView>)
    requires
        picked.len() > 0,
        forall|i: int| 0 <= i < picked.len() ==> pages_spec().contains(#[trigger] picked[i]),
        !other_server.contains('\n'),
        forall|i: int| !text::occurs_at(other_server, ": "@, i),
    ensures
        report::report_failure(
            vstd::utf8::encode_utf8(
                text::joined(picked.map_values(|page: PageView| true_line(other_server, page))),
            ),
            other_server,
            page_hashes_spec(),
        ) is None,
{
    let lines = picked.map_values(|page: PageView| true_line(other_server, page));
    let whole = text::joined(lines);
    let bytes = vstd::utf8::encode_utf8(whole);
    assert forall|i: int| 0 <= i < lines.len() implies !(#[trigger] lines[i]).contains('\n')
        && text::without_return(lines[i]) == lines[i] && report::line_failure(
        lines[i],
        other_server,
        page_hashes_spec(),
    ) is None by {
        let k = choose|k: int| 0 <= k < pages_spec().len() && pages_spec()[k] == picked[i];
        assert(pages_spec().contains(picked[i]));
        lemma_true_line(other_server, k);
    }
    text::law_lines_of_joined(lines);
    vstd::utf8::encode_utf8_valid_utf8(whole);
    vstd::utf8::encode_utf8_decode_utf8(whole);
    assert(bytes.len() > 0) by {
        if bytes.len() == 0 {
            assert(vstd::utf8::decode_utf8(bytes).len() == 0);
        }
    }
    report::law_report_passes_by_its_lines(bytes, other_server, page_hashes_spec());
}

proof fn lemma_true_line(other_server: Seq<char>, k: int)
    requires
        0 <= k < pages_spec().len(),
        !other_server.contains('\n'),
        forall|i: int| !text::occurs_at(other_server, ": "@, i),
    ensures
        !true_line(other_server, pages_spec()[k]).contains('\n'),
        text::without_return(true_line(other_server, pages_spec()[k])) == true_line(
            other_server,
            pages_spec()[k],
        ),
        report::line_failure(
            true_line(other_server, pages_spec()[k]),
            other_server,
            page_hashes_spec(),
        ) is None,
{
    reveal_strlit("/a");
    reveal_strlit("/b");
    reveal_strlit("/c");
    reveal_strlit("/d");
    reveal_strlit(": ");
    reveal_strlit("http://");
    let page = pages_spec()[k];
    let url = text::url_spec(other_server, page.path);
    let hash = digest::fingerprint_spec(page.body);
    let line = true_line(other_server, page);
    let separator = ": "@;
    let data = digest::sha256(vstd::utf8::encode_utf8(page.body));
    assert forall|i: int| !text::occurs_at(url, separator, i) by {
        if text::occurs_at(url, separator, i) {
            assert(url.subrange(i, i + 2)[0] == ':');
            assert(url.subrange(i, i + 2)[1] == ' ');
            if 7 <= i && i + 2 <= 7 + other_server.len() {
                assert(other_server.subrange(i - 7, i - 5) =~= separator);
                assert(text::occurs_at(other_server, separator, i - 7));
            }
        }
    }
    law_each_page_has_its_hash(k);
    report::law_true_line_is_accepted(other_server, page.path, page_hashes_spec());
    assert forall|i: int| 0 <= i < line.len() implies line[i] != '\n' by {
        if i < 7 {
        } else if i < 7 + other_server.len() {
            assert(other_server.contains(other_server[i - 7]));
        } else if i >= url.len() + 2 {
            digest::law_base64_is_plain(data, i - url.len() - 2);
        }
    }
    if hash.len() > 0 {
        digest::law_base64_is_plain(data, hash.len() - 1);
        assert(line.last() == hash.last());
    } else {
        assert(line.last() == ' ');
    }
}

/// The path that the hash program asks for.
pub open spec fn hash_all_path() -> Seq<char> {
    seq!['/', 'h', 'a', 's', 'h', '-', 'a', 'l', 'l']
}

/// The header field that names the page at `path` of `other_server` by its URL.
pub open spec fn names_page(other_server: Seq<char>, path: Seq<char>) -> HeaderView {
    HeaderView {
        name: seq!['u', 'r', 'l'],
        value: vstd::utf8::encode_utf8(
            seq!['h', 't', 't', 'p', ':', '/', '/'] + other_server + path,
        ),
    }
}

/// These calls make a request that gets the path for all hashes from `server`, with a
/// header field for each of `paths` that names the page of `other_server`, and with an
/// empty body.
pub open spec fn gets_all_hashes(
    calls: Seq<CallView>,
    server: Seq<char>,
    other_server: Seq<char>,
    paths: Seq<Seq<char>>,
) -> bool {
    let count = paths.len() as int;
    &&& calls.len() == count + 9
    &&& calls[0] is NewHeaders
    &&& forall|i: int|
        0 <= i < count ==> #[trigger] calls[i + 1] == CallView::AppendHeader(
            names_page(other_server, paths[i]),
        )
    &&& run::one_only(
        calls,
        |call: CallView| call is SetAuthority,
        CallView::SetAuthority(server),
    )
    &&& run::one_only(
        calls,
        |call: CallView| call is SetPath,
        CallView::SetPath(hash_all_path()),
    )
    &&& calls[count + 1] is NewRequest
    &&& calls[count + 2] is SetSchemeHttp
    &&& calls[count + 3] is SetAuthority
    &&& calls[count + 4] is SetPath
    &&& calls[count + 5] is OpenBody
    &&& calls[count + 6] is OpenBodyStream
    &&& calls[count + 7] is DropBodyStream
    &&& calls[count + 8] is FinishBody
}

/// The request that is handed over asks the server given for the hashes of the pages at
/// `paths`, and so does the one that is planned; nothing is uploaded, and no content type
/// is asked for. Each call that prepares it must be done.
pub proof fn law_hash_request_is_a_get(
    server: Seq<char>,
    other_server: Seq<char>,
    paths: Seq<Seq<char>>,
    replies: Seq<ReplyView>,
)
    ensures
        ({
            let plan = hash_plan_spec(server, other_server, paths);
            let end = run::run(plan, replies);
            &&& gets_all_hashes(run::calls(plan.script), server, other_server, paths)
            &&& end.next == NextView::Call(CallView::Send) ==> gets_all_hashes(
                run::prepared(end.log),
                server,
                other_server,
                paths,
            )
            &&& forall|i: int|
                0 <= i < plan.script.len() ==> (#[trigger] plan.script[i]).required
            &&& plan.upload is None
            &&& plan.content_type is None
        }),
{
    reveal_strlit("/hash-all");
    reveal_strlit("url");
    assert("/hash-all"@ =~= hash_all_path());
    assert("url"@ =~= seq!['u', 'r', 'l']);
    let plan = hash_plan_spec(server, other_server, paths);
    let calls = run::calls(plan.script);
    let count = paths.len() as int;
    lemma_hash_plan_is_sound(server, other_server, paths);
    run::law_one_request_as_planned(plan, replies);
    assert forall|i: int| 0 <= i < count implies #[trigger] calls[i + 1]
        == CallView::AppendHeader(names_page(other_server, paths[i])) by {
        text::law_url_names_server_and_path(other_server, paths[i]);
    }
    assert forall|i: int| 0 < i <= count implies (#[trigger] calls[i]) is AppendHeader by {
        assert(calls[(i - 1) + 1] is AppendHeader);
    }
    assert(calls[count + 3] == CallView::SetAuthority(server));
    assert(calls[count + 4] == CallView::SetPath(hash_all_path()));
}

/// In the hash program a refusal is never passed over: whatever the host refuses before
/// the response is there ends the program with what the host said. When the request is
/// handed over, each call was done.
pub proof fn law_hash_all_fails_where_refused(
    server: Seq<char>,
    other_server: Seq<char>,
    paths: Seq<Seq<char>>,
    replies: Seq<ReplyView>,
    detail: Seq<char>,
)
    requires
        ({
            let end = run::run(hash_plan_spec(server, other_server, paths), replies);
            &&& end.next is Call
            &&& run::sends(end.log) == 0 || end.next->Call_0 is PollResponse
        }),
    ensures
        ({
            let plan = hash_plan_spec(server, other_server, paths);
            let end = run::run(plan, replies);
            &&& run::run(plan, replies.push(ReplyView::Refused(detail))).next
                == NextView::Failed(FailureView::Refused(detail))
            &&& run::sends(end.log) == 0 ==> forall|i: int|
                0 <= i < end.log.len() ==> (#[trigger] end.log[i]).1 is Done
        }),
{
    let plan = hash_plan_spec(server, other_server, paths);
    let reply = ReplyView::Refused(detail);
    lemma_hash_plan_is_sound(server, other_server, paths);
    law_hash_request_is_a_get(server, other_server, paths, replies);
    run::law_response_is_waited_for(plan, replies, reply);
    if run::sends(run::run(plan, replies).log) == 0 {
        run::law_request_is_made_without_refusals(plan, replies);
    }
}

/// The paths that are asked for are four, and `/a`, `/b`, `/c` and `/d` are each among
/// them.
pub proof fn law_four_pages_are_asked_for(paths: Seq<Seq<char>>)
    ensures
        asks_for_each_page(paths) <==> {
            &&& paths.len() == 4
            &&& paths.contains(seq!['/', 'a'])
            &&& paths.contains(seq!['/', 'b'])
            &&& paths.contains(seq!['/', 'c'])
            &&& paths.contains(seq!['/', 'd'])
        },
{
    broadcast use vstd::multiset::group_multiset_axioms;
    broadcast use vstd::seq_lib::group_to_multiset_ensures;

    lemma_page_paths();
    let all = page_paths_spec();
    paths.to_multiset_ensures();
    all.to_multiset_ensures();
    if asks_for_each_page(paths) {
        assert(paths.to_multiset().len() == all.to_multiset().len());
        assert forall|i: int| 0 <= i < 4 implies paths.contains(#[trigger] all[i]) by {
            assert(all.contains(all[i]));
            assert(all.to_multiset().count(all[i]) > 0);
            assert(paths.to_multiset().count(all[i]) > 0);
        }
        assert(paths.contains(all[0]) && paths.contains(all[1]) && paths.contains(all[2])
            && paths.contains(all[3]));
    }
    if paths.len() == 4 && paths.contains(all[0]) && paths.contains(all[1]) && paths.contains(
        all[2],
    ) && paths.contains(all[3]) {
        let i0 = choose|i: int| 0 <= i < 4 && paths[i] == all[0];
        let i1 = choose|i: int| 0 <= i < 4 && paths[i] == all[1];
        let i2 = choose|i: int| 0 <= i < 4 && paths[i] == all[2];
        let i3 = choose|i: int| 0 <= i < 4 && paths[i] == all[3];
        assert(paths.no_duplicates());
        assert(all.no_duplicates());
        paths.lemma_multiset_has_no_duplicates();
        all.lemma_multiset_has_no_duplicates();
        assert forall|path: Seq<char>| paths.to_multiset().count(path)
            == all.to_multiset().count(path) by {
            if paths.contains(path) {
                let i = choose|i: int| 0 <= i < 4 && paths[i] == path;
                assert(i == i0 || i == i1 || i == i2 || i == i3);
                assert(all.contains(path));
            }
            if all.contains(path) {
                let i = choose|i: int| 0 <= i < 4 && all[i] == path;
                assert(paths.contains(path));
            }
            assert(paths.contains(path) == all.contains(path));
        }
        assert(paths.to_multiset() =~= all.to_multiset());
    }
}

/// The paths of the pages, spelled out.
proof fn lemma_page_paths()
    ensures
        page_paths_spec() == seq![seq!['/', 'a'], seq!['/', 'b'], seq!['/', 'c'], seq!['/', 'd']],
        page_paths_spec().no_duplicates(),
{
    reveal_strlit("/a");
    reveal_strlit("/b");
    reveal_strlit("/c");
    reveal_strlit("/d");
    assert("/a"@ =~= seq!['/', 'a']);
    assert("/b"@ =~= seq!['/', 'b']);
    assert("/c"@ =~= seq!['/', 'c']);
    assert("/d"@ =~= seq!['/', 'd']);
    let all = page_paths_spec();
    assert(all =~= seq![seq!['/', 'a'], seq!['/', 'b'], seq!['/', 'c'], seq!['/', 'd']]);
    assert(all[0][1] == 'a' && all[1][1] == 'b' && all[2][1] == 'c' && all[3][1] == 'd');
}

/// A report that passes tells the truth and nothing else: each of its lines is the URL of
/// one of the four pages, a colon and a space, and the fingerprint of that page. So a
/// line on any other path, or on another server, or with another hash fails it.
pub proof fn law_passing_report_is_true(
    whole: Seq<char>,
    other_server: Seq<char>,
    line: Seq<char>,
)
    requires
        text::lines_spec(whole).contains(line),
        report::report_failure(
            vstd::utf8::encode_utf8(whole),
            other_server,
            page_hashes_spec(),
        ) is None,
    ensures
        exists|k: int|
            0 <= k < 4 && line == seq!['h', 't', 't', 'p', ':', '/', '/'] + other_server + seq![
                '/',
                #[trigger] "abcd"@[k],
            ] + seq![':', ' '] + digest::fingerprint_spec(pages_spec()[k].body),
{
    reveal_strlit("abcd");
    reveal_strlit(": ");
    lemma_page_paths();
    let hashes = page_hashes_spec();
    let bytes = vstd::utf8::encode_utf8(whole);
    vstd::utf8::encode_utf8_decode_utf8(whole);
    report::law_report_passes_by_its_lines(bytes, other_server, hashes);
    report::law_accepted_line_is_true(line, other_server, hashes);
    let path = choose|path: Seq<char>| #[trigger]
        report::hash_of(hashes, path) is Some && line == report::line_for(
            other_server,
            path,
            report::hash_of(hashes, path)->0,
        );
    report::law_hash_belongs_to_the_path(hashes, path);
    let k = choose|k: int| #[trigger]
        report::first_at(hashes, path, k) && hashes[k].hash == report::hash_of(hashes, path)->0;
    text::law_url_names_server_and_path(other_server, path);
    assert(page_paths_spec()[k] == path);
    assert(": "@ =~= seq![':', ' ']);
    assert(path =~= seq!['/', "abcd"@[k]]);
}

/// Pages and texts are seen as they are, one by one, in their order.
pub proof fn law_pages_are_seen_as_they_are(list: Seq<Page>, texts: Seq<String>)
    ensures
        page_views(list).len() == list.len(),
        forall|i: int|
            0 <= i < list.len() ==> (#[trigger] page_views(list)[i]).path == list[i].path@
                && page_views(list)[i].body == list[i].body@,
        strings(texts).len() == texts.len(),
        forall|i: int| 0 <= i < texts.len() ==> #[trigger] strings(texts)[i] == texts[i]@,
{
}

}
