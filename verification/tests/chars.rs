use funknotes::chars::{
    contains, find, lines, parse_i64, parse_u64, parse_usize, split, split_once, stands_at, text_of,
    trim, trim_end_matches,
};

fn chars(s: &str) -> Vec<char> {
    s.chars().collect()
}

fn text(s: &[char]) -> String {
    s.iter().collect()
}

const SAMPLES: [&str; 24] = [
    "",
    " ",
    "abc",
    "  abc  ",
    "\t a b \n",
    "\u{a0}x\u{2003}",
    "\u{85}\u{3000}",
    "a\nb",
    "a\nb\n",
    "a\r\nb\r\n",
    "a\rb\r",
    "\n",
    "\n\n",
    "\r\n",
    "x\n\ny",
    "a.b.c",
    ".",
    "..",
    "a=b=c",
    "(next.id=12)",
    "ab(note.idcd(note.id",
    "(note.id(note.id",
    "aaa",
    "7.title: T\n7.date: 5",
];

#[test]
fn trim_is_that_of_strings() {
    for s in SAMPLES {
        assert_eq!(text(trim(&chars(s))), s.trim(), "{s:?}");
    }
}

#[test]
fn trim_end_matches_is_that_of_strings() {
    for s in ["", ")", "12)", "12))", ")12", "1)2)", "))"] {
        assert_eq!(text(trim_end_matches(&chars(s), ')')), s.trim_end_matches(')'), "{s:?}");
    }
}

#[test]
fn lines_are_those_of_strings() {
    for s in SAMPLES {
        let found: Vec<String> = lines(&chars(s)).into_iter().map(text).collect();
        let expected: Vec<&str> = s.lines().collect();
        assert_eq!(found, expected, "{s:?}");
    }
}

#[test]
fn split_is_that_of_strings() {
    for s in SAMPLES {
        for pat in ["(note.id", ".", "a", "aa", "\n", "="] {
            let found: Vec<String> = split(&chars(s), &chars(pat)).into_iter().map(text).collect();
            let expected: Vec<&str> = s.split(pat).collect();
            assert_eq!(found, expected, "{s:?} {pat:?}");
        }
    }
}

#[test]
fn find_and_contains_are_those_of_strings() {
    for s in SAMPLES {
        for pat in ["", "a", "b", ".", "(note.id", "aa", "aaaa", ".title:", "\n"] {
            let s_chars = chars(s);
            let expected = s.find(pat).map(|byte| s[..byte].chars().count());
            assert_eq!(find(&s_chars, &chars(pat), 0), expected, "{s:?} {pat:?}");
            assert_eq!(contains(&s_chars, &chars(pat)), s.contains(pat), "{s:?} {pat:?}");
        }
    }
}

#[test]
fn find_starts_where_it_is_told() {
    let s = chars("abcabc");
    assert_eq!(find(&s, &chars("bc"), 0), Some(1));
    assert_eq!(find(&s, &chars("bc"), 1), Some(1));
    assert_eq!(find(&s, &chars("bc"), 2), Some(4));
    assert_eq!(find(&s, &chars("bc"), 5), None);
    assert_eq!(find(&s, &chars("bc"), 100), None);
    assert_eq!(find(&s, &chars(""), 6), Some(6));
    assert_eq!(find(&s, &chars(""), 7), None);
    assert!(stands_at(&s, &chars("ca"), 2));
    assert!(!stands_at(&s, &chars("ca"), 3));
    assert!(!stands_at(&s, &chars("bc"), 5));
    assert!(!stands_at(&s, &chars("bc"), usize::MAX));
}

#[test]
fn split_once_is_that_of_strings() {
    for s in SAMPLES {
        for pat in ["=", ".", ".title:", "b"] {
            let s_chars = chars(s);
            let found = split_once(&s_chars, &chars(pat)).map(|(a, b)| (text(a), text(b)));
            let expected = s.split_once(pat).map(|(a, b)| (a.to_string(), b.to_string()));
            assert_eq!(found, expected, "{s:?} {pat:?}");
        }
    }
}

const NUMERALS: [&str; 30] = [
    "",
    "+",
    "-",
    "0",
    "-0",
    "+0",
    "007",
    "12",
    "+12",
    "-12",
    "--12",
    "+-12",
    "1 2",
    " 12",
    "12 ",
    "1a",
    "a1",
    "١٢",
    "4294967295",
    "4294967296",
    "9223372036854775807",
    "9223372036854775808",
    "-9223372036854775808",
    "-9223372036854775809",
    "18446744073709551615",
    "18446744073709551616",
    "99999999999999999999999999999999999999999",
    "-99999999999999999999999999999999999999999",
    "00000000000000000000000000000000000000001",
    "1.5",
];

#[test]
fn numbers_are_read_as_strings_parse() {
    for s in NUMERALS {
        assert_eq!(parse_u64(&chars(s)), s.parse::<u64>().ok(), "{s:?}");
        assert_eq!(parse_i64(&chars(s)), s.parse::<i64>().ok(), "{s:?}");
        assert_eq!(parse_usize(&chars(s)), s.parse::<usize>().ok(), "{s:?}");
    }
}

#[test]
fn text_of_characters() {
    assert_eq!(text_of(&chars("")), "");
    assert_eq!(text_of(&chars("aé€ b")), "aé€ b");
}

#[test]
fn white_space_is_that_of_characters() {
    for c in '\0'..=char::MAX {
        assert_eq!(trim(&[c]).is_empty(), c.is_whitespace(), "{c:?}");
    }
}
