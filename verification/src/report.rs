//! The report of hashes: one line for each page, `<url>: <hash>`.
use vstd::prelude::*;
use crate::text;
use crate::wire;
use crate::wire::{Failure, FailureView};

verus! {

/// A page of the other server, and the hash that the report must give for it.
#[derive(Debug, PartialEq, Eq)]
pub struct PageHash {
    pub path: String,
    pub hash: String,
}

/// A page's path and its hash.
#[verifier::ext_equal]
pub struct PageHashView {
    pub path: Seq<char>,
    pub hash: Seq<char>,
}

impl View for PageHash {
    type V = PageHashView;

    open spec fn view(&self) -> PageHashView {
        PageHashView { path: self.path@, hash: self.hash@ }
    }
}

/// The contents of a list of page hashes.
pub open spec fn page_hashes(list: Seq<PageHash>) -> Seq<PageHashView> {
    list.map_values(|page: PageHash| page@)
}

/// The hash that belongs to `path`: that of the first page in `pages` with this path.
pub open spec fn hash_of(pages: Seq<PageHashView>, path: Seq<char>) -> Option<Seq<char>>
    decreases pages.len(),
{
    if pages.len() == 0 {
        None
    } else if pages.first().path == path {
        Some(pages.first().hash)
    } else {
        hash_of(pages.drop_first(), path)
    }
}

/// What is wrong with a line of a report on pages of `server`.
pub open spec fn line_failure(
    line: Seq<char>,
    server: Seq<char>,
    pages: Seq<PageHashView>,
) -> Option<FailureView> {
    match text::split_once_spec(line, ": "@) {
        None => Some(FailureView::NoSeparator(line)),
        Some((url, found)) => match text::strip_prefix_spec(url, "http://"@ + server) {
            None => Some(FailureView::NoPrefix { server, url }),
            Some(path) => match hash_of(pages, path) {
                None => Some(FailureView::UnknownPath(path)),
                Some(wanted) => if found == wanted {
                    None
                } else {
                    Some(FailureView::Hash { found, wanted })
                },
            },
        },
    }
}

/// What is wrong with the first line that something is wrong with.
pub open spec fn lines_failure(
    lines: Seq<Seq<char>>,
    server: Seq<char>,
    pages: Seq<PageHashView>,
) -> Option<FailureView>
    decreases lines.len(),
{
    if lines.len() == 0 {
        None
    } else {
        match line_failure(lines.first(), server, pages) {
            Some(failure) => Some(failure),
            None => lines_failure(lines.drop_first(), server, pages),
        }
    }
}

/// The debug text of the error that `std::str::from_utf8` gives for bytes that are
/// no UTF-8.
pub uninterp spec fn utf8_error(bytes: Seq<u8>) -> Seq<char>;

/// What is wrong with a report on pages of `server`, given as bytes.
pub open spec fn report_failure(
    report: Seq<u8>,
    server: Seq<char>,
    pages: Seq<PageHashView>,
) -> Option<FailureView> {
    if report.len() == 0 {
        Some(FailureView::EmptyReport)
    } else if !vstd::utf8::valid_utf8(report) {
        Some(FailureView::Refused(utf8_error(report)))
    } else {
        lines_failure(text::lines_spec(vstd::utf8::decode_utf8(report)), server, pages)
    }
}

/// Calls `std::str::from_utf8`. Believed of it: it gives the text whose UTF-8 form
/// the bytes are; where they are no UTF-8, it gives an error instead, whose debug
/// text is a function of the bytes alone. How that text reads is not said.
#[verifier::external_body]
fn text_of(bytes: &[u8]) -> (text: Result<&str, String>)
    ensures
        match text {
            Ok(t) => vstd::utf8::valid_utf8(bytes@) && t@ == vstd::utf8::decode_utf8(bytes@),
            Err(detail) => !vstd::utf8::valid_utf8(bytes@) && detail@ == utf8_error(bytes@),
        },
{
    match std::str::from_utf8(bytes) {
        Ok(text) => Ok(text),
        Err(e) => Err(format!("{e:?}")),
    }
}

/// Looks up the hash that belongs to `path`.
fn find_hash(pages: &Vec<PageHash>, path: &String) -> (hash: Option<String>)
    ensures
        match hash {
            Some(h) => hash_of(page_hashes(pages@), path@) == Some(h@),
            None => hash_of(page_hashes(pages@), path@) is None,
        },
{
    let ghost all = page_hashes(pages@);
    let mut i: usize = 0;
    assert(all.skip(0) =~= all);
    while i < pages.len()
        invariant
            i <= pages@.len(),
            all == page_hashes(pages@),
            hash_of(all.skip(i as int), path@) == hash_of(all, path@),
        decreases pages@.len() - i,
    {
        assert(all.skip(i as int).first() == pages@[i as int]@);
        assert(all.skip(i as int).drop_first() =~= all.skip(i + 1));
        if pages[i].path == *path {
            return Some(pages[i].hash.clone());
        }
        i = i + 1;
    }
    None
}

/// Checks one line of a report on pages of `server`.
pub fn check_line(line: &str, server: &str, pages: &Vec<PageHash>) -> (outcome: Result<
    (),
    Failure,
>)
    ensures
        wire::found_wrong(outcome, line_failure(line@, server@, page_hashes(pages@))),
{
    match text::split_once(line, ": ") {
        None => Err(Failure::NoSeparator(line.to_owned())),
        Some((address, found)) => {
            let prefix = text::url(server, "");
            assert(""@ =~= Seq::<char>::empty()) by {
                reveal_strlit("");
            }
            assert(prefix@ =~= "http://"@ + server@);
            match text::strip_prefix(address, prefix.as_str()) {
                None => Err(
                    Failure::NoPrefix { server: server.to_owned(), url: address.to_owned() },
                ),
                Some(rest) => {
                    let path = rest.to_owned();
                    match find_hash(pages, &path) {
                        None => Err(Failure::UnknownPath(path)),
                        Some(wanted) => {
                            let found = found.to_owned();
                            if found == wanted {
                                Ok(())
                            } else {
                                Err(Failure::Hash { found, wanted })
                            }
                        },
                    }
                },
            }
        },
    }
}

/// Checks a report on pages of `server` that was read as text. A report that could
/// not be comes with the debug text of the error.
pub fn check_decoded(
    report: Result<&str, String>,
    server: &str,
    pages: &Vec<PageHash>,
) -> (outcome: Result<(), Failure>)
    ensures
        wire::found_wrong(
            outcome,
            match report {
                Ok(whole) => lines_failure(
                    text::lines_spec(whole@),
                    server@,
                    page_hashes(pages@),
                ),
                Err(detail) => Some(FailureView::Refused(detail@)),
            },
        ),
{
    match report {
        Err(detail) => Err(Failure::Refused(detail)),
        Ok(whole) => {
            let found = text::lines(whole);
            let ghost all = text::texts(found@);
            let ghost listed = page_hashes(pages@);
            let mut i: usize = 0;
            assert(all.skip(0) =~= all);
            while i < found.len()
                invariant
                    i <= found@.len(),
                    report == Ok::<&str, String>(whole),
                    all == text::texts(found@),
                    all == text::lines_spec(whole@),
                    listed == page_hashes(pages@),
                    lines_failure(all.skip(i as int), server@, listed) == lines_failure(
                        all,
                        server@,
                        listed,
                    ),
                decreases found@.len() - i,
            {
                assert(all.skip(i as int).first() == found@[i as int]@);
                assert(all.skip(i as int).drop_first() =~= all.skip(i + 1));
                match check_line(found[i], server, pages) {
                    Ok(()) => {},
                    Err(failure) => {
                        return Err(failure);
                    },
                }
                i = i + 1;
            }
            Ok(())
        },
    }
}

/// Checks a report on pages of `server`.
pub fn check_report(report: &Vec<u8>, server: &str, pages: &Vec<PageHash>) -> (outcome: Result<
    (),
    Failure,
>)
    ensures
        wire::found_wrong(outcome, report_failure(report@, server@, page_hashes(pages@))),
{
    if report.len() == 0 {
        Err(Failure::EmptyReport)
    } else {
        check_decoded(text_of(report.as_slice()), server, pages)
    }
}

/// A report passes exactly where it is not empty, is UTF-8, and nothing is wrong
/// with any of its lines. In which order they come does not matter.
pub proof fn law_report_passes_by_its_lines(
    report: Seq<u8>,
    server: Seq<char>,
    pages: Seq<PageHashView>,
)
    ensures
        report_failure(report, server, pages) is None <==> {
            &&& report.len() > 0
            &&& vstd::utf8::valid_utf8(report)
            &&& forall|line: Seq<char>| #[trigger]
                text::lines_spec(vstd::utf8::decode_utf8(report)).contains(line)
                    ==> line_failure(line, server, pages) is None
        },
{
    lemma_lines_pass(text::lines_spec(vstd::utf8::decode_utf8(report)), server, pages);
}

proof fn lemma_lines_pass(
    lines: Seq<Seq<char>>,
    server: Seq<char>,
    pages: Seq<PageHashView>,
)
    ensures
        lines_failure(lines, server, pages) is None <==> forall|line: Seq<char>| #[trigger]
            lines.contains(line) ==> line_failure(line, server, pages) is None,
    decreases lines.len(),
{
    if lines.len() > 0 {
        let rest = lines.drop_first();
        lemma_lines_pass(rest, server, pages);
        assert forall|line: Seq<char>| #[trigger] lines.contains(line) implies line
            == lines.first() || rest.contains(line) by {
            let i = choose|i: int| 0 <= i < lines.len() && lines[i] == line;
            if i > 0 {
                assert(rest[i - 1] == line);
            }
        }
        assert(lines.contains(lines[0]));
        assert forall|line: Seq<char>| #[trigger] rest.contains(line) implies lines.contains(
            line,
        ) by {
            let i = choose|i: int| 0 <= i < rest.len() && rest[i] == line;
            assert(lines[i + 1] == line);
        }
    }
}

/// The line of a report for one page of `server`.
pub open spec fn line_for(server: Seq<char>, path: Seq<char>, hash: Seq<char>) -> Seq<char> {
    text::url_spec(server, path) + ": "@ + hash
}

/// A line that nothing is wrong with speaks of a page in the list, and gives its
/// hash.
pub proof fn law_accepted_line_is_true(
    line: Seq<char>,
    server: Seq<char>,
    pages: Seq<PageHashView>,
)
    requires
        line_failure(line, server, pages) is None,
    ensures
        exists|path: Seq<char>| #[trigger]
            hash_of(pages, path) is Some && line == line_for(
                server,
                path,
                hash_of(pages, path)->0,
            ),
{
    let separator = ": "@;
    let prefix = "http://"@ + server;
    text::lemma_find_from(line, separator, 0);
    let at = text::find_from(line, separator, 0)->0;
    let url = line.take(at);
    let found = line.skip(at + separator.len());
    let path = url.skip(prefix.len() as int);
    assert(url =~= prefix + path) by {
        assert(url.subrange(0, prefix.len() as int) =~= prefix);
    }
    assert(line =~= url + separator + found) by {
        assert(line.subrange(at, at + separator.len()) =~= separator);
    }
    assert(hash_of(pages, path) == Some(found));
    assert(line == line_for(server, path, found));
}

/// The true line for a page passes, as long as its URL does not itself hold the
/// separator.
pub proof fn law_true_line_is_accepted(
    server: Seq<char>,
    path: Seq<char>,
    pages: Seq<PageHashView>,
)
    requires
        hash_of(pages, path) is Some,
        forall|i: int| !text::occurs_at(text::url_spec(server, path), ": "@, i),
    ensures
        line_failure(line_for(server, path, hash_of(pages, path)->0), server, pages) is None,
{
    reveal_strlit(": ");
    let separator = ": "@;
    let hash = hash_of(pages, path)->0;
    let url = text::url_spec(server, path);
    let line = line_for(server, path, hash);
    let at = url.len() as int;
    assert(line.subrange(at, at + 2) =~= separator);
    assert forall|j: int| 0 <= j < at implies !text::occurs_at(line, separator, j) by {
        if text::occurs_at(line, separator, j) {
            assert(line.subrange(j, j + 2)[0] == ':');
            assert(line.subrange(j, j + 2)[1] == ' ');
            if j + 2 <= at {
                assert(url.subrange(j, j + 2) =~= separator);
                assert(text::occurs_at(url, separator, j));
            } else {
                assert(line[at] == ':');
            }
        }
    }
    text::lemma_find_first(line, separator, at);
    assert(line.take(at) =~= url);
    assert(line.skip(at + 2) =~= hash);
    let prefix = "http://"@ + server;
    assert(url.subrange(0, prefix.len() as int) =~= prefix);
    assert(url.skip(prefix.len() as int) =~= path);
}

/// The page at position `i` is the first of the list with this path.
pub open spec fn first_at(pages: Seq<PageHashView>, path: Seq<char>, i: int) -> bool {
    &&& 0 <= i < pages.len()
    &&& pages[i].path == path
    &&& forall|j: int| 0 <= j < i ==> (#[trigger] pages[j]).path != path
}

/// A path has a hash exactly where some page of the list has this very path, and it is
/// the hash of the first such page.
pub proof fn law_hash_belongs_to_the_path(pages: Seq<PageHashView>, path: Seq<char>)
    ensures
        hash_of(pages, path) matches Some(hash) ==> exists|i: int| #[trigger]
            first_at(pages, path, i) && pages[i].hash == hash,
        hash_of(pages, path) is None ==> forall|i: int|
            0 <= i < pages.len() ==> (#[trigger] pages[i]).path != path,
        forall|i: int| #[trigger]
            first_at(pages, path, i) ==> hash_of(pages, path) == Some(pages[i].hash),
    decreases pages.len(),
{
    if pages.len() > 0 {
        let rest = pages.drop_first();
        law_hash_belongs_to_the_path(rest, path);
        if pages[0].path == path {
            assert(first_at(pages, path, 0));
        } else {
            assert forall|i: int| 0 < i < pages.len() implies (#[trigger] pages[i]) == rest[i
                - 1] by {}
            assert forall|i: int| #[trigger] first_at(rest, path, i) implies first_at(
                pages,
                path,
                i + 1,
            ) by {
                assert forall|j: int| 0 <= j < i + 1 implies (#[trigger] pages[j]).path
                    != path by {
                    if j > 0 {
                        assert(rest[j - 1].path != path);
                    }
                }
            }
            assert forall|i: int| #[trigger] first_at(pages, path, i) implies first_at(
                rest,
                path,
                i - 1,
            ) by {
                assert forall|j: int| 0 <= j < i - 1 implies (#[trigger] rest[j]).path
                    != path by {
                    assert(pages[j + 1].path != path);
                }
            }
            if let Some(hash) = hash_of(pages, path) {
                let i = choose|i: int| #[trigger]
                    first_at(rest, path, i) && rest[i].hash == hash;
                assert(first_at(pages, path, i + 1));
            }
        }
    }
}

/// `s` begins with `front`.
pub open spec fn begins_with(s: Seq<char>, front: Seq<char>) -> bool {
    exists|rest: Seq<char>| s == #[trigger] (front + rest)
}

/// `s` holds a colon with a space behind it.
pub open spec fn holds_separator(s: Seq<char>) -> bool {
    exists|i: int| 0 <= i < s.len() - 1 && #[trigger] s[i] == ':' && s[i + 1] == ' '
}

/// What is wrong with a line that is `url`, a colon and a space, and `found`, where
/// `url` does not itself hold a colon and a space: it may be on another server; or on
/// this server, with a path that no page has; or it may give another hash than the page
/// has. It is right exactly where it is none of these.
pub proof fn law_line_is_checked(
    url: Seq<char>,
    found: Seq<char>,
    server: Seq<char>,
    path: Seq<char>,
    pages: Seq<PageHashView>,
)
    requires
        !holds_separator(url),
    ensures
        ({
            let front = seq!['h', 't', 't', 'p', ':', '/', '/'] + server;
            let wrong = line_failure(url + seq![':', ' '] + found, server, pages);
            &&& !begins_with(url, front) ==> wrong == Some(FailureView::NoPrefix { server, url })
            &&& url == front + path ==> {
                &&& (forall|i: int| 0 <= i < pages.len() ==> (#[trigger] pages[i]).path != path)
                    ==> wrong == Some(FailureView::UnknownPath(path))
                &&& forall|i: int| #[trigger]
                    first_at(pages, path, i) ==> wrong == if found == pages[i].hash {
                        None
                    } else {
                        Some(FailureView::Hash { found, wanted: pages[i].hash })
                    }
            }
        }),
{
    reveal_strlit(": ");
    reveal_strlit("http://");
    let separator = ": "@;
    let front = seq!['h', 't', 't', 'p', ':', '/', '/'] + server;
    assert("http://"@ + server =~= front);
    assert(separator =~= seq![':', ' ']);
    let line = url + seq![':', ' '] + found;
    let at = url.len() as int;
    assert(line.subrange(at, at + 2) =~= separator);
    assert forall|j: int| 0 <= j < at implies !text::occurs_at(line, separator, j) by {
        if text::occurs_at(line, separator, j) {
            assert(line.subrange(j, j + 2)[0] == ':');
            assert(line.subrange(j, j + 2)[1] == ' ');
            if j + 2 <= at {
                assert(url[j] == ':' && url[j + 1] == ' ');
            } else {
                assert(line[at] == ':');
            }
        }
    }
    text::lemma_find_first(line, separator, at);
    assert(line.take(at) =~= url);
    assert(line.skip(at + 2) =~= found);
    text::law_strip_undoes_prefixing(url, front, path);
    law_hash_belongs_to_the_path(pages, path);
    if let Some(rest) = text::strip_prefix_spec(url, front) {
        assert(url == front + rest);
        assert(begins_with(url, front));
    }
}

/// What is wrong with a line without a colon and a space is that it has none.
pub proof fn law_line_needs_a_separator(
    line: Seq<char>,
    server: Seq<char>,
    pages: Seq<PageHashView>,
)
    requires
        !holds_separator(line),
    ensures
        line_failure(line, server, pages) == Some(FailureView::NoSeparator(line)),
{
    reveal_strlit(": ");
    let separator = ": "@;
    text::lemma_find_from(line, separator, 0);
    if let Some(i) = text::find_from(line, separator, 0) {
        assert(line.subrange(i, i + 2)[0] == ':');
        assert(line.subrange(i, i + 2)[1] == ' ');
        assert(line[i] == ':' && line[i + 1] == ' ');
    }
}

/// The line at position `i` is the first that something is wrong with.
pub open spec fn first_wrong(
    lines: Seq<Seq<char>>,
    server: Seq<char>,
    pages: Seq<PageHashView>,
    i: int,
) -> bool {
    &&& 0 <= i < lines.len()
    &&& line_failure(lines[i], server, pages) is Some
    &&& forall|j: int| 0 <= j < i ==> line_failure(#[trigger] lines[j], server, pages) is None
}

/// What is wrong with a report: that it is empty; or that it is no UTF-8; or else what is
/// wrong with the first wrong line of its text, every line being looked at. Without a
/// wrong line nothing is.
pub proof fn law_report_fails_at_the_first_wrong_line(
    report: Seq<u8>,
    whole: Seq<char>,
    server: Seq<char>,
    pages: Seq<PageHashView>,
)
    ensures
        report.len() == 0 ==> report_failure(report, server, pages) == Some(
            FailureView::EmptyReport,
        ),
        report.len() > 0 && !vstd::utf8::valid_utf8(report) ==> report_failure(
            report,
            server,
            pages,
        ) == Some(FailureView::Refused(utf8_error(report))),
        report.len() > 0 && report == vstd::utf8::encode_utf8(whole) ==> {
            let lines = text::lines_spec(whole);
            let wrong = report_failure(report, server, pages);
            &&& forall|i: int| #[trigger]
                first_wrong(lines, server, pages, i) ==> wrong == line_failure(
                    lines[i],
                    server,
                    pages,
                )
            &&& (forall|i: int|
                0 <= i < lines.len() ==> line_failure(#[trigger] lines[i], server, pages)
                    is None) <==> wrong is None
        },
{
    vstd::utf8::encode_utf8_valid_utf8(whole);
    vstd::utf8::encode_utf8_decode_utf8(whole);
    lemma_first_wrong(text::lines_spec(whole), server, pages);
}

proof fn lemma_first_wrong(lines: Seq<Seq<char>>, server: Seq<char>, pages: Seq<PageHashView>)
    ensures
        forall|i: int| #[trigger]
            first_wrong(lines, server, pages, i) ==> lines_failure(lines, server, pages)
                == line_failure(lines[i], server, pages),
        (forall|i: int|
            0 <= i < lines.len() ==> line_failure(#[trigger] lines[i], server, pages) is None)
            <==> lines_failure(lines, server, pages) is None,
    decreases lines.len(),
{
    if lines.len() > 0 {
        let rest = lines.drop_first();
        lemma_first_wrong(rest, server, pages);
        assert forall|i: int| #[trigger] first_wrong(lines, server, pages, i) implies
            lines_failure(lines, server, pages) == line_failure(lines[i], server, pages) by {
            if i > 0 {
                assert(line_failure(lines[0], server, pages) is None);
                assert forall|j: int| 0 <= j < i - 1 implies line_failure(
                    #[trigger] rest[j],
                    server,
                    pages,
                ) is None by {
                    assert(rest[j] == lines[j + 1]);
                }
                assert(first_wrong(rest, server, pages, i - 1));
            }
        }
        if lines_failure(lines, server, pages) is None {
            assert forall|i: int| 0 <= i < lines.len() implies line_failure(
                #[trigger] lines[i],
                server,
                pages,
            ) is None by {
                if i > 0 {
                    assert(lines[i] == rest[i - 1]);
                }
            }
        }
        if forall|i: int|
            0 <= i < lines.len() ==> line_failure(#[trigger] lines[i], server, pages) is None {
            assert forall|i: int| 0 <= i < rest.len() implies line_failure(
                #[trigger] rest[i],
                server,
                pages,
            ) is None by {
                assert(rest[i] == lines[i + 1]);
            }
            assert(line_failure(lines[0], server, pages) is None);
        }
    }
}

/// Page hashes are seen as they are, one by one, in their order.
pub proof fn law_page_hashes_are_seen_as_they_are(list: Seq<PageHash>)
    ensures
        page_hashes(list).len() == list.len(),
        forall|i: int|
            0 <= i < list.len() ==> (#[trigger] page_hashes(list)[i]).path == list[i].path@
                && page_hashes(list)[i].hash == list[i].hash@,
{
}

}
