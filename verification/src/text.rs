//! Reading text: lines, separators and prefixes.
use vstd::prelude::*;

verus! {

/// `pattern` stands in `s` at position `i`.
pub open spec fn occurs_at(s: Seq<char>, pattern: Seq<char>, i: int) -> bool {
    0 <= i <= s.len() - pattern.len() && s.subrange(i, i + pattern.len()) == pattern
}

/// The first position of `pattern` in `s` that is not before `from`.
pub open spec fn find_from(s: Seq<char>, pattern: Seq<char>, from: int) -> Option<int>
    decreases s.len() - from + 1,
{
    if from < 0 || from + pattern.len() > s.len() {
        None
    } else if occurs_at(s, pattern, from) {
        Some(from)
    } else {
        find_from(s, pattern, from + 1)
    }
}

/// What stands before and after the first `separator` in `s`.
pub open spec fn split_once_spec(s: Seq<char>, separator: Seq<char>) -> Option<
    (Seq<char>, Seq<char>),
> {
    match find_from(s, separator, 0) {
        Some(i) => Some((s.take(i), s.skip(i + separator.len()))),
        None => None,
    }
}

/// What follows `prefix` in `s`, if `s` begins with it.
pub open spec fn strip_prefix_spec(s: Seq<char>, prefix: Seq<char>) -> Option<Seq<char>> {
    if occurs_at(s, prefix, 0) {
        Some(s.skip(prefix.len() as int))
    } else {
        None
    }
}

/// A line without the carriage return at its end, if it has one.
pub open spec fn without_return(line: Seq<char>) -> Seq<char> {
    if line.len() > 0 && line.last() == '\r' {
        line.drop_last()
    } else {
        line
    }
}

/// The lines of `s`. A line ends at a line feed, or at a carriage return and a
/// line feed; neither is part of it. What follows the last line feed is a line
/// of its own, taken as it is, unless it is empty.
pub open spec fn lines_spec(s: Seq<char>) -> Seq<Seq<char>>
    decreases s.len(),
{
    if s.len() == 0 {
        Seq::empty()
    } else {
        match find_from(s, seq!['\n'], 0) {
            Some(i) => {
                if 0 <= i < s.len() {
                    seq![without_return(s.take(i))] + lines_spec(s.skip(i + 1))
                } else {
                    Seq::empty()
                }
            },
            None => seq![s],
        }
    }
}

/// What `find_from` finds is the first occurrence, and it finds one if there is one.
pub proof fn lemma_find_from(s: Seq<char>, pattern: Seq<char>, from: int)
    requires
        0 <= from,
    ensures
        match find_from(s, pattern, from) {
            Some(i) => from <= i && occurs_at(s, pattern, i) && forall|j: int|
                from <= j < i ==> !occurs_at(s, pattern, j),
            None => forall|j: int| from <= j ==> !occurs_at(s, pattern, j),
        },
    decreases s.len() - from + 1,
{
    if from + pattern.len() <= s.len() && !occurs_at(s, pattern, from) {
        lemma_find_from(s, pattern, from + 1);
    }
}

/// An occurrence with none before it is what `find_from` finds.
pub proof fn lemma_find_first(s: Seq<char>, pattern: Seq<char>, at: int)
    requires
        occurs_at(s, pattern, at),
        forall|j: int| 0 <= j < at ==> !occurs_at(s, pattern, j),
    ensures
        find_from(s, pattern, 0) == Some(at),
{
    lemma_find_from(s, pattern, 0);
}

/// The characters of `s`, in order.
pub fn chars_of(s: &str) -> (chars: Vec<char>)
    ensures
        chars@ == s@,
{
    let mut chars: Vec<char> = Vec::new();
    for c in it: s.chars()
        invariant
            chars@ == it.seq().take(it.index()),
            it.seq() == s@,
    {
        chars.push(c);
    }
    chars
}

/// Looking in what follows position `at` is looking on from there.
proof fn lemma_find_in_rest(s: Seq<char>, pattern: Seq<char>, at: int)
    requires
        0 <= at <= s.len(),
    ensures
        match find_from(s.skip(at), pattern, 0) {
            Some(i) => find_from(s, pattern, at) == Some(at + i),
            None => find_from(s, pattern, at) is None,
        },
{
    let rest = s.skip(at);
    lemma_find_from(s, pattern, at);
    lemma_find_from(rest, pattern, 0);
    assert forall|j: int| at <= j implies #[trigger] occurs_at(s, pattern, j) == occurs_at(
        rest,
        pattern,
        j - at,
    ) by {
        if j + pattern.len() <= s.len() {
            assert(s.subrange(j, j + pattern.len()) =~= rest.subrange(
                j - at,
                j - at + pattern.len(),
            ));
        }
    }
    match find_from(rest, pattern, 0) {
        Some(i) => {
            assert(occurs_at(s, pattern, at + i));
        },
        None => {
            if let Some(k) = find_from(s, pattern, at) {
                assert(occurs_at(rest, pattern, k - at));
            }
        },
    }
}

/// `pattern` stands in `s` at position `i`.
fn stands_at(s: &Vec<char>, pattern: &Vec<char>, i: usize) -> (found: bool)
    requires
        i + pattern.len() <= s.len(),
    ensures
        found == occurs_at(s@, pattern@, i as int),
{
    let mut j: usize = 0;
    while j < pattern.len()
        invariant
            j <= pattern@.len(),
            i + pattern.len() <= s.len(),
            s@.subrange(i as int, i + j) == pattern@.take(j as int),
        decreases pattern@.len() - j,
    {
        if s[i + j] != pattern[j] {
            assert(s@.subrange(i as int, i + pattern@.len())[j as int] != pattern@[j as int]);
            return false;
        }
        assert(s@.subrange(i as int, i + j + 1) =~= s@.subrange(i as int, i + j).push(
            s@[i + j],
        ));
        assert(pattern@.take(j + 1) =~= pattern@.take(j as int).push(pattern@[j as int]));
        j = j + 1;
    }
    assert(pattern@.take(j as int) =~= pattern@);
    true
}

/// The first position of `pattern` in `s` that is not before `from`.
fn find(s: &Vec<char>, pattern: &Vec<char>, from: usize) -> (position: Option<usize>)
    ensures
        match position {
            Some(i) => find_from(s@, pattern@, from as int) == Some(i as int),
            None => find_from(s@, pattern@, from as int) is None,
        },
        position matches Some(i) ==> from <= i && i + pattern.len() <= s.len(),
{
    if pattern.len() > s.len() {
        return None;
    }
    let last: usize = s.len() - pattern.len();
    let mut i: usize = from;
    while i <= last
        invariant
            from <= i,
            last + pattern@.len() == s@.len(),
            find_from(s@, pattern@, from as int) == find_from(s@, pattern@, i as int),
        decreases last + 1 - i,
    {
        if stands_at(s, pattern, i) {
            return Some(i);
        }
        if i == last {
            assert(find_from(s@, pattern@, i + 1) is None);
            return None;
        }
        i = i + 1;
    }
    None
}

/// Splits `s` at the first `separator`.
pub fn split_once<'a>(s: &'a str, separator: &str) -> (parts: Option<(&'a str, &'a str)>)
    ensures
        match parts {
            Some((before, after)) => split_once_spec(s@, separator@) == Some((before@, after@)),
            None => split_once_spec(s@, separator@) is None,
        },
{
    let chars = chars_of(s);
    let pattern = chars_of(separator);
    match find(&chars, &pattern, 0) {
        Some(i) => {
            let before = s.substring_char(0, i);
            let after = s.substring_char(i + pattern.len(), chars.len());
            assert(before@ =~= s@.take(i as int));
            assert(after@ =~= s@.skip(i + separator@.len()));
            Some((before, after))
        },
        None => None,
    }
}

/// Takes `prefix` off the front of `s`.
pub fn strip_prefix<'a>(s: &'a str, prefix: &str) -> (rest: Option<&'a str>)
    ensures
        match rest {
            Some(r) => strip_prefix_spec(s@, prefix@) == Some(r@),
            None => strip_prefix_spec(s@, prefix@) is None,
        },
{
    let chars = chars_of(s);
    let pattern = chars_of(prefix);
    if pattern.len() <= chars.len() && stands_at(&chars, &pattern, 0) {
        let rest = s.substring_char(pattern.len(), chars.len());
        assert(rest@ =~= s@.skip(prefix@.len() as int));
        Some(rest)
    } else {
        None
    }
}

/// The texts of a list of string slices.
pub open spec fn texts(slices: Seq<&str>) -> Seq<Seq<char>> {
    slices.map_values(|slice: &str| slice@)
}

/// Splits `s` into its lines.
pub fn lines<'a>(s: &'a str) -> (found: Vec<&'a str>)
    ensures
        texts(found@) == lines_spec(s@),
        found@.len() == lines_spec(s@).len(),
        forall|i: int| 0 <= i < found@.len() ==> (#[trigger] found@[i])@ == lines_spec(s@)[i],
{
    let chars = chars_of(s);
    let mut feed: Vec<char> = Vec::new();
    feed.push('\n');
    assert(feed@ =~= seq!['\n']);
    let mut found: Vec<&'a str> = Vec::new();
    let mut at: usize = 0;
    assert(s@.skip(0) =~= s@);
    assert(texts(found@) + lines_spec(s@) =~= lines_spec(s@));
    while at < chars.len()
        invariant
            at <= chars@.len(),
            chars@ == s@,
            feed@ == seq!['\n'],
            texts(found@) + lines_spec(s@.skip(at as int)) == lines_spec(s@),
        decreases chars@.len() - at,
    {
        let ghost rest = s@.skip(at as int);
        let ghost known = found@;
        proof {
            lemma_find_in_rest(s@, seq!['\n'], at as int);
            lemma_find_from(rest, seq!['\n'], 0);
        }
        match find(&chars, &feed, at) {
            Some(end) => {
                let stop: usize = if end > at && chars[end - 1] == '\r' {
                    end - 1
                } else {
                    end
                };
                let line = s.substring_char(at, stop);
                found.push(line);
                proof {
                    assert(rest.take(end - at) =~= s@.subrange(at as int, end as int));
                    assert(line@ =~= without_return(rest.take(end - at)));
                    assert(rest.skip(end - at + 1) =~= s@.skip(end + 1));
                    assert(texts(found@) =~= texts(known).push(line@));
                    assert(texts(found@) + lines_spec(s@.skip(end + 1)) =~= texts(known)
                        + lines_spec(rest));
                }
                at = end + 1;
            },
            None => {
                let line = s.substring_char(at, chars.len());
                found.push(line);
                proof {
                    assert(line@ =~= rest);
                    assert(texts(found@) =~= texts(known).push(line@));
                    assert(texts(known) + lines_spec(rest) =~= texts(found@));
                }
                return found;
            },
        }
    }
    assert(s@.skip(at as int).len() == 0);
    assert(texts(found@) + Seq::<Seq<char>>::empty() =~= texts(found@));
    found
}

/// The decimal digit of a number below ten.
pub open spec fn digit_spec(n: nat) -> Seq<char> {
    if n == 0 {
        "0"@
    } else if n == 1 {
        "1"@
    } else if n == 2 {
        "2"@
    } else if n == 3 {
        "3"@
    } else if n == 4 {
        "4"@
    } else if n == 5 {
        "5"@
    } else if n == 6 {
        "6"@
    } else if n == 7 {
        "7"@
    } else if n == 8 {
        "8"@
    } else {
        "9"@
    }
}

/// A number in decimal.
pub open spec fn decimal_spec(n: nat) -> Seq<char>
    decreases n,
{
    if n < 10 {
        digit_spec(n)
    } else {
        decimal_spec(n / 10) + digit_spec(n % 10)
    }
}

/// The decimal digit of a number below ten.
fn digit(n: usize) -> (text: &'static str)
    requires
        n < 10,
    ensures
        text@ == digit_spec(n as nat),
{
    match n {
        0 => "0",
        1 => "1",
        2 => "2",
        3 => "3",
        4 => "4",
        5 => "5",
        6 => "6",
        7 => "7",
        8 => "8",
        _ => "9",
    }
}

/// Writes a number in decimal.
pub fn decimal(n: usize) -> (text: String)
    ensures
        text@ == decimal_spec(n as nat),
    decreases n,
{
    if n < 10 {
        digit(n).to_owned()
    } else {
        let mut text = decimal(n / 10);
        text.append(digit(n % 10));
        text
    }
}

/// The text in which each of `lines` stands with a line feed behind it.
pub open spec fn joined(lines: Seq<Seq<char>>) -> Seq<char>
    decreases lines.len(),
{
    if lines.len() == 0 {
        Seq::empty()
    } else {
        lines.first().push('\n') + joined(lines.drop_first())
    }
}

/// Splitting undoes joining: the lines of a text that was joined from lines are
/// these lines, as long as none of them holds a line feed or ends in a carriage
/// return.
pub proof fn law_lines_of_joined(lines: Seq<Seq<char>>)
    requires
        forall|i: int|
            0 <= i < lines.len() ==> !(#[trigger] lines[i]).contains('\n') && without_return(
                lines[i],
            ) == lines[i],
    ensures
        lines_spec(joined(lines)) == lines,
    decreases lines.len(),
{
    if lines.len() > 0 {
        let line = lines[0];
        let rest = lines.drop_first();
        let whole = joined(lines);
        let feed = seq!['\n'];
        assert forall|i: int| 0 <= i < rest.len() implies !(#[trigger] rest[i]).contains('\n')
            && without_return(rest[i]) == rest[i] by {
            assert(rest[i] == lines[i + 1]);
        }
        law_lines_of_joined(rest);
        let at = line.len() as int;
        assert(whole.subrange(at, at + 1) =~= feed);
        assert forall|j: int| 0 <= j < at implies !occurs_at(whole, feed, j) by {
            assert(whole.subrange(j, j + 1)[0] == line[j]);
            assert(line.contains(line[j]));
        }
        lemma_find_first(whole, feed, at);
        assert(whole.take(at) =~= line);
        assert(whole.skip(at + 1) =~= joined(rest));
        assert(seq![line] + rest =~= lines);
    }
}

/// The URL of the page at `path` of `server`.
pub open spec fn url_spec(server: Seq<char>, path: Seq<char>) -> Seq<char> {
    "http://"@ + server + path
}

/// The URL of the page at `path` of `server`.
pub fn url(server: &str, path: &str) -> (whole: String)
    ensures
        whole@ == url_spec(server@, path@),
{
    let mut whole = "http://".to_owned();
    whole.append(server);
    whole.append(path);
    whole
}

/// Splitting takes a text apart at the first separator: what stands before and after
/// it, with the separator between them, is the text, and the separator stands
/// nowhere further to the front. A text is not split exactly where the separator
/// stands nowhere in it.
pub proof fn law_split_once_is_at_the_first(s: Seq<char>, separator: Seq<char>)
    ensures
        split_once_spec(s, separator) matches Some((before, after)) ==> {
            &&& before + separator + after == s
            &&& forall|front: Seq<char>, back: Seq<char>|
                s == #[trigger] (front + separator + back) ==> before.len() <= front.len()
        },
        split_once_spec(s, separator) is None ==> forall|front: Seq<char>, back: Seq<char>|
            s != #[trigger] (front + separator + back),
{
    lemma_find_from(s, separator, 0);
    assert forall|front: Seq<char>, back: Seq<char>| s == #[trigger] (front + separator
        + back) implies occurs_at(s, separator, front.len() as int) by {
        let at = front.len() as int;
        assert(s.subrange(at, at + separator.len()) =~= separator);
    }
    if let Some((before, after)) = split_once_spec(s, separator) {
        let at = before.len() as int;
        assert(before + separator + after =~= s) by {
            assert(s.subrange(at, at + separator.len()) =~= separator);
        }
        assert forall|front: Seq<char>, back: Seq<char>| s == #[trigger] (front + separator
            + back) implies before.len() <= front.len() by {
            assert(occurs_at(s, separator, front.len() as int));
        }
    } else {
        assert forall|front: Seq<char>, back: Seq<char>| s != #[trigger] (front + separator
            + back) by {
            if s == front + separator + back {
                assert(occurs_at(s, separator, front.len() as int));
            }
        }
    }
}

/// Stripping undoes prefixing: it takes `prefix` off a text that was made by putting
/// it in front, and it takes nothing off any other text.
pub proof fn law_strip_undoes_prefixing(s: Seq<char>, prefix: Seq<char>, rest: Seq<char>)
    ensures
        strip_prefix_spec(prefix + rest, prefix) == Some(rest),
        strip_prefix_spec(s, prefix) matches Some(left) ==> s == prefix + left,
        strip_prefix_spec(s, prefix) is None ==> s != prefix + rest,
{
    let whole = prefix + rest;
    assert(whole.subrange(0, prefix.len() as int) =~= prefix);
    assert(whole.skip(prefix.len() as int) =~= rest);
    if let Some(left) = strip_prefix_spec(s, prefix) {
        assert(s =~= prefix + left) by {
            assert(s.subrange(0, prefix.len() as int) =~= prefix);
        }
    }
}

/// A line feed ends a line, and so does a carriage return with a line feed behind it;
/// neither is part of the line. What stands behind the last line feed is a line as it
/// is, unless it is empty. `line` is any text without a line feed.
pub proof fn law_lines_end_at_line_feeds(line: Seq<char>, rest: Seq<char>)
    requires
        forall|i: int| 0 <= i < line.len() ==> line[i] != '\n',
    ensures
        lines_spec(line + seq!['\n'] + rest) == seq![
            if line.len() > 0 && line[line.len() - 1] == '\r' {
                line.subrange(0, line.len() - 1)
            } else {
                line
            },
        ] + lines_spec(rest),
        lines_spec(line + seq!['\r', '\n'] + rest) == seq![line] + lines_spec(rest),
        line.len() > 0 ==> lines_spec(line) == seq![line],
        line.len() == 0 ==> lines_spec(line).len() == 0,
{
    lemma_first_line(line, rest);
    let returned = line.push('\r');
    lemma_first_line(returned, rest);
    assert(returned + seq!['\n'] + rest =~= line + seq!['\r', '\n'] + rest);
    assert(returned.drop_last() =~= line);
    lemma_find_from(line, seq!['\n'], 0);
    if let Some(i) = find_from(line, seq!['\n'], 0) {
        assert(line.subrange(i, i + 1)[0] == line[i]);
        assert(seq!['\n'][0] == '\n');
    }
}

proof fn lemma_first_line(line: Seq<char>, rest: Seq<char>)
    requires
        forall|i: int| 0 <= i < line.len() ==> line[i] != '\n',
    ensures
        lines_spec(line + seq!['\n'] + rest) == seq![without_return(line)] + lines_spec(rest),
{
    let feed = seq!['\n'];
    let whole = line + feed + rest;
    let at = line.len() as int;
    assert(whole.subrange(at, at + 1) =~= feed);
    assert forall|j: int| 0 <= j < at implies !occurs_at(whole, feed, j) by {
        assert(whole.subrange(j, j + 1)[0] == line[j]);
        assert(feed[0] == '\n');
    }
    lemma_find_first(whole, feed, at);
    assert(whole.take(at) =~= line);
    assert(whole.skip(at + 1) =~= rest);
}

/// The number that a row of digits stands for, the last digit counting once and each
/// digit before it ten times as much.
pub open spec fn number_of(digits: Seq<char>) -> int
    decreases digits.len(),
{
    if digits.len() == 0 {
        0
    } else {
        10 * number_of(digits.drop_last()) + (digits.last() as int - '0' as int)
    }
}

/// A number in decimal is a row of digits that stands for the number, and it has no
/// zero in front unless it is zero.
pub proof fn law_decimal_stands_for_the_number(n: nat)
    ensures
        number_of(decimal_spec(n)) == n,
        decimal_spec(n).len() > 0,
        forall|i: int|
            0 <= i < decimal_spec(n).len() ==> '0' <= #[trigger] decimal_spec(n)[i] <= '9',
        decimal_spec(n)[0] == '0' ==> decimal_spec(n).len() == 1 && n == 0,
    decreases n,
{
    lemma_digit(n % 10);
    let last = digit_spec(n % 10);
    if n < 10 {
        assert(last.drop_last() =~= Seq::<char>::empty());
        assert(number_of(last.drop_last()) == 0);
    } else {
        law_decimal_stands_for_the_number(n / 10);
        let front = decimal_spec(n / 10);
        assert(decimal_spec(n).drop_last() =~= front);
        assert(decimal_spec(n).last() == last[0]);
        assert(decimal_spec(n)[0] == front[0]);
        assert forall|i: int| 0 <= i < decimal_spec(n).len() implies '0'
            <= #[trigger] decimal_spec(n)[i] <= '9' by {
            if i < front.len() {
                assert(decimal_spec(n)[i] == front[i]);
            }
        }
    }
}

proof fn lemma_digit(n: nat)
    requires
        n < 10,
    ensures
        digit_spec(n).len() == 1,
        digit_spec(n)[0] as int == '0' as int + n,
{
    reveal_strlit("0");
    reveal_strlit("1");
    reveal_strlit("2");
    reveal_strlit("3");
    reveal_strlit("4");
    reveal_strlit("5");
    reveal_strlit("6");
    reveal_strlit("7");
    reveal_strlit("8");
    reveal_strlit("9");
}

/// A URL is the scheme and two slashes, then the server as it was given, then the
/// path as it was given.
pub proof fn law_url_names_server_and_path(server: Seq<char>, path: Seq<char>)
    ensures
        url_spec(server, path) == seq!['h', 't', 't', 'p', ':', '/', '/'] + server + path,
{
    reveal_strlit("http://");
    assert(url_spec(server, path) =~= seq!['h', 't', 't', 'p', ':', '/', '/'] + server + path);
}

/// The bytes of a row of ASCII characters, one for each.
pub open spec fn ascii(chars: Seq<char>) -> Seq<u8> {
    chars.map_values(|c: char| c as u8)
}

/// An ASCII text has one byte for each character.
pub proof fn lemma_ascii(chars: Seq<char>)
    requires
        vstd::utf8::is_ascii_chars(chars),
    ensures
        vstd::utf8::encode_utf8(chars) == ascii(chars),
{
    vstd::utf8::is_ascii_chars_encode_utf8(chars);
    assert(vstd::utf8::encode_utf8(chars) =~= ascii(chars));
}

}
