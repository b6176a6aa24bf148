use cmdshell::text::compare_names;
use cmdshell::text::is_whitespace;
use cmdshell::text::split_words;
use cmdshell::text::NameOrder;

#[test]
fn whitespace_agrees_with_std_on_every_char() {
    let mut n: u32 = 0;
    while n <= 0x10FFFF {
        if let Some(c) = char::from_u32(n) {
            assert_eq!(is_whitespace(c), c.is_whitespace(), "code point {:#x}", n);
        }
        n += 1;
    }
}

#[test]
fn whitespace_named_code_points() {
    for c in ['\t', '\n', '\u{b}', '\u{c}', '\r', ' ', '\u{85}', '\u{a0}', '\u{1680}', '\u{2000}',
        '\u{200a}', '\u{2028}', '\u{2029}', '\u{202f}', '\u{205f}', '\u{3000}']
    {
        assert!(is_whitespace(c));
    }
    for c in ['a', '0', '\u{8}', '\u{e}', '\u{1f}', '!', '\u{84}', '\u{86}', '\u{200b}', '\u{2027}',
        '\u{feff}', '\u{3001}']
    {
        assert!(!is_whitespace(c));
    }
}

#[test]
fn split_words_of_blank_lines_is_empty() {
    assert_eq!(split_words(""), Vec::<&str>::new());
    assert_eq!(split_words("  "), Vec::<&str>::new());
    assert_eq!(split_words(" \t\r\n\u{3000}"), Vec::<&str>::new());
}

#[test]
fn split_words_cuts_at_runs_of_whitespace() {
    assert_eq!(split_words("echo hello world"), vec!["echo", "hello", "world"]);
    assert_eq!(split_words("  echo\t\thello   world \n"), vec!["echo", "hello", "world"]);
    assert_eq!(split_words("quit"), vec!["quit"]);
    assert_eq!(split_words("a"), vec!["a"]);
    assert_eq!(split_words(" a"), vec!["a"]);
    assert_eq!(split_words("a "), vec!["a"]);
}

#[test]
fn split_words_agrees_with_std() {
    let lines = [
        "",
        " ",
        "one",
        "one two",
        "  lead and trail  ",
        "tab\tseparated\tvalues",
        "h\u{e9}llo w\u{f6}rld",
        "a\u{2003}b\u{a0}c",
        "\u{3000}wide\u{3000}space\u{3000}",
        "no-break\u{200b}zero-width stays",
        "\u{1f600} emoji \u{1f600}\u{1f600}",
        "x  y   z    ",
    ];
    for line in lines {
        let expected: Vec<&str> = line.trim().split_whitespace().collect();
        assert_eq!(split_words(line), expected, "line {:?}", line);
    }
}

#[test]
fn compare_names_exact_cases() {
    assert_eq!(compare_names("", ""), NameOrder::Same);
    assert_eq!(compare_names("", "a"), NameOrder::Before);
    assert_eq!(compare_names("a", ""), NameOrder::After);
    assert_eq!(compare_names("abc", "abc"), NameOrder::Same);
    assert_eq!(compare_names("abc", "abd"), NameOrder::Before);
    assert_eq!(compare_names("abd", "abc"), NameOrder::After);
    assert_eq!(compare_names("ab", "abc"), NameOrder::Before);
    assert_eq!(compare_names("abc", "ab"), NameOrder::After);
    assert_eq!(compare_names("Z", "a"), NameOrder::Before);
    assert_eq!(compare_names("b", "abc"), NameOrder::After);
}

#[test]
fn compare_names_agrees_with_std_order() {
    let names = [
        "", "a", "A", "ab", "abc", "abd", "b", "help", "quit", "echo", "\u{e9}", "e\u{301}",
        "\u{ffff}", "\u{10000}", "\u{1f600}", "z\u{1f600}", "zz", "~", "\u{7f}", "\u{80}",
    ];
    for a in names {
        for b in names {
            let expected = if a < b {
                NameOrder::Before
            } else if a == b {
                NameOrder::Same
            } else {
                NameOrder::After
            };
            assert_eq!(compare_names(a, b), expected, "{:?} against {:?}", a, b);
        }
    }
}
