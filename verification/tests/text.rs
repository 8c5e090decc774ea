use proxy_programs::text::{chars_of, decimal, lines, split_once, strip_prefix, url};

#[test]
fn chars_are_in_order() {
    assert_eq!(chars_of("’Twas"), vec!['’', 'T', 'w', 'a', 's']);
    assert_eq!(chars_of(""), Vec::<char>::new());
}

#[test]
fn lines_agree_with_the_standard_library() {
    for s in [
        "", "\n", "a", "a\n", "a\nb", "a\r\nb\r\n", "a\rb", "a\r", "\r\n", "\n\n", "a\n\nb", "\r\r\n",
        "’\n’", "a\n\r",
    ] {
        let expected: Vec<&str> = s.lines().collect();
        assert_eq!(lines(s), expected, "{s:?}");
    }
}

#[test]
fn lines_undo_joining() {
    assert_eq!(lines("one\ntwo\nthree\n"), vec!["one", "two", "three"]);
}

#[test]
fn split_agrees_with_the_standard_library() {
    for s in ["", ": ", "a: b", "a: b: c", "a:b", "a:: b", "’: ’", ":", " : "] {
        assert_eq!(split_once(s, ": "), s.split_once(": "), "{s:?}");
    }
    assert_eq!(split_once("ab", ""), "ab".split_once(""));
}

#[test]
fn prefix_agrees_with_the_standard_library() {
    for s in ["", "http://h", "http://h/a", "http://g/a", "http:", "xhttp://h"] {
        assert_eq!(strip_prefix(s, "http://h"), s.strip_prefix("http://h"), "{s:?}");
    }
}

#[test]
fn decimals() {
    for n in [0, 1, 9, 10, 99, 100, 1234567890, 1048576] {
        assert_eq!(decimal(n), n.to_string());
    }
    assert_eq!(decimal(usize::MAX), usize::MAX.to_string());
}

#[test]
fn urls() {
    assert_eq!(url("localhost:8080", "/echo"), "http://localhost:8080/echo");
}
