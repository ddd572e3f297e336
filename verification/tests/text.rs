use optima::text::{
    blank, bytes_in, chars_of, contains, decimal_of, ends_with, find_text, flag_of, join, lines,
    parse_usize, replace, same, same_ignoring_ascii_case, signed_of, space, split, split_once,
    split_words, starts_with, string_of, to_lower_ascii, trim,
};

const SAMPLES: [&str; 12] = [
    "",
    " ",
    "abc",
    "  abc  ",
    "\u{2003}a b\u{a0}",
    "a,b,,c",
    "aaa",
    "key=value=more",
    "line one\r\nline two\nline three\n",
    "\n\n",
    "äöü ß €",
    "tail\r",
];

#[test]
fn white_space_is_that_of_unicode() {
    let mut n: u32 = 0;
    while n <= 0x10ffff {
        if let Some(c) = char::from_u32(n) {
            assert_eq!(space(c), c.is_whitespace(), "{n:#x}");
        }
        n += 1;
    }
}

#[test]
fn trimming_is_that_of_std() {
    for s in SAMPLES {
        assert_eq!(trim(s), s.trim());
        assert_eq!(blank(s), s.trim().is_empty());
    }
}

#[test]
fn words_are_those_of_std() {
    for s in SAMPLES {
        let expected: Vec<String> = s.split_whitespace().map(String::from).collect();
        assert_eq!(split_words(s), expected);
    }
}

#[test]
fn lines_are_those_of_std() {
    for s in SAMPLES {
        let expected: Vec<String> = s.lines().map(String::from).collect();
        assert_eq!(lines(s), expected, "{s:?}");
    }
}

#[test]
fn splitting_is_that_of_std() {
    for s in SAMPLES {
        let expected: Vec<String> = s.split([',', ' ']).map(String::from).collect();
        assert_eq!(split(s, &[',', ' ']), expected);
        let once = s.split_once('=').map(|(a, b)| (a.to_string(), b.to_string()));
        assert_eq!(split_once(s, '='), once);
    }
}

#[test]
fn searching_is_that_of_std() {
    for s in SAMPLES {
        for p in ["a", "aa", "line", "ß", "\n", "zzz"] {
            assert_eq!(contains(s, p), s.contains(p));
            assert_eq!(starts_with(s, p), s.starts_with(p));
            assert_eq!(ends_with(s, p), s.ends_with(p));
            assert_eq!(replace(s, p, "<>"), s.replace(p, "<>"));
            let at = s.find(p).map(|i| s[..i].chars().count());
            assert_eq!(find_text(s, p), at);
        }
    }
}

#[test]
fn joining_puts_the_separator_between() {
    let l = vec!["a".to_string(), "".to_string(), "c".to_string()];
    assert_eq!(join(&l, "--"), "a----c");
    assert_eq!(join(&vec![], "--"), "");
}

#[test]
fn cases_of_ascii_letters() {
    assert_eq!(to_lower_ascii("AbC-Ä"), "abc-Ä");
    assert!(same_ignoring_ascii_case("SyStEm", "sYsTeM"));
    assert!(!same_ignoring_ascii_case("Ä", "ä"));
    assert!(same("x", "x") && !same("x", "X"));
}

#[test]
fn characters_and_bytes() {
    assert_eq!(chars_of("aß"), vec!['a', 'ß']);
    assert_eq!(string_of(&['a', 'ß']), "aß");
    assert_eq!(bytes_in("aß€"), 6);
}

#[test]
fn numbers_are_written_in_decimal() {
    for n in [0u64, 7, 10, 99, 13247, u64::MAX] {
        assert_eq!(decimal_of(n), n.to_string());
    }
    for n in [0i32, -1, 42, i32::MIN, i32::MAX] {
        assert_eq!(signed_of(n), n.to_string());
    }
    assert_eq!(flag_of(true), "true");
    assert_eq!(flag_of(false), "false");
}

#[test]
fn numbers_read_back() {
    for n in [0usize, 5, 10, 4096, usize::MAX] {
        assert_eq!(parse_usize(&decimal_of(n as u64)), Some(n));
    }
    for s in ["", "+", "-1", "+7", "007", "1x", " 1", "18446744073709551616"] {
        assert_eq!(parse_usize(s), s.parse::<usize>().ok(), "{s:?}");
    }
}
