use kvstore::decimal::{i64_to_string, magnitude, push_digits, push_i64, str_to_i64, str_to_u64};
use kvstore::text::{
    append_text, ascii_upper, blank, char_is_ascii_space, char_is_whitespace, char_upper, chars_of,
    join_words, nonblank_lines, same_text, split_words, starts_with, text_of, trim_bounds,
};
use std::io::BufRead;

const SAMPLES: [&str; 24] = [
    "",
    " ",
    "a",
    " a",
    "a ",
    "  a  b  ",
    "\ta\tb\n",
    "SET key some value EX 10",
    "\r\n",
    "a\r\nb\nc\rd",
    "\n\na\n\n",
    "a\n",
    "a\r",
    "a\r\n",
    "\r\r\n",
    "\u{a0}a\u{a0}b\u{a0}",
    "\u{2003}\u{3000}x y\u{2028}",
    "\u{b}p\u{b}q\u{c}r\u{c}",
    "\u{85}\u{1680}\u{200a}\u{200b}\u{2029}\u{202f}\u{205f}",
    "héllo wörld",
    "日本語 テキスト",
    "🦀 crab\t🦀",
    "a\u{0}b",
    "   ",
];

#[test]
fn white_space_is_what_the_standard_library_says() {
    for n in 0..=0x10FFFFu32 {
        if let Some(c) = char::from_u32(n) {
            assert_eq!(char_is_whitespace(c), c.is_whitespace(), "U+{:04X}", n);
            assert_eq!(char_is_ascii_space(c), c.is_ascii_whitespace(), "U+{:04X}", n);
            assert_eq!(char_upper(c), c.to_ascii_uppercase(), "U+{:04X}", n);
        }
    }
}

#[test]
fn texts_are_taken_apart_and_put_together() {
    for s in SAMPLES {
        let v = chars_of(s);
        assert_eq!(v, s.chars().collect::<Vec<char>>());
        assert_eq!(text_of(&v, 0, v.len()), s);
        assert_eq!(text_of(&v, 0, 0), "");
        if v.len() >= 2 {
            assert_eq!(text_of(&v, 1, v.len() - 1), v[1..v.len() - 1].iter().collect::<String>());
        }
        assert_eq!(ascii_upper(s), s.to_ascii_uppercase());
        let mut t = String::from("<");
        append_text(&mut t, s);
        append_text(&mut t, ">");
        assert_eq!(t, format!("<{}>", s));
    }
}

#[test]
fn trimming_is_what_the_standard_library_does() {
    for s in SAMPLES {
        let v = chars_of(s);
        let (a, b) = trim_bounds(&v);
        assert!(a <= b && b <= v.len());
        assert_eq!(text_of(&v, a, b), s.trim(), "{:?}", s);
        assert_eq!(blank(&v, 0, v.len()), s.trim().is_empty(), "{:?}", s);
        assert!(blank(&v, a, a));
    }
}

#[test]
fn words_are_split_at_ascii_white_space() {
    for s in SAMPLES {
        let v = chars_of(s);
        let expected: Vec<&str> = s.split_ascii_whitespace().collect();
        assert_eq!(split_words(&v, 0, v.len()), expected, "{:?}", s);
        assert_eq!(split_words(&v, v.len(), v.len()), Vec::<String>::new());
    }
    let v = chars_of("ab cd ef");
    assert_eq!(split_words(&v, 1, 7), vec!["b", "cd", "e"]);
    assert_eq!(split_words(&v, 2, 3), Vec::<String>::new());
}

#[test]
fn words_are_joined_with_single_spaces() {
    let parts: Vec<String> = ["a", "", "b c", "d"].iter().map(|s| s.to_string()).collect();
    assert_eq!(join_words(&parts, 0, 4), "a  b c d");
    assert_eq!(join_words(&parts, 0, 4), parts.join(" "));
    assert_eq!(join_words(&parts, 1, 3), " b c");
    assert_eq!(join_words(&parts, 1, 2), "");
    assert_eq!(join_words(&parts, 2, 3), "b c");
    assert_eq!(join_words(&parts, 3, 3), "");
    assert_eq!(join_words(&Vec::new(), 0, 0), "");
}

#[test]
fn lines_are_what_a_buffered_reader_gives() {
    for s in SAMPLES {
        let expected: Vec<String> = std::io::Cursor::new(s.as_bytes())
            .lines()
            .map(|l| l.unwrap())
            .filter(|l| !l.trim().is_empty())
            .collect();
        assert_eq!(nonblank_lines(&chars_of(s)), expected, "{:?}", s);
    }
    assert_eq!(nonblank_lines(&chars_of("a\n \nb\r\n\r\nc")), vec!["a", "b", "c"]);
}

#[test]
fn texts_are_compared_by_their_characters() {
    assert!(same_text("", ""));
    assert!(same_text("abc", "abc"));
    assert!(!same_text("abc", "abd"));
    assert!(!same_text("abc", "ab"));
    assert!(!same_text("abc", "ABC"));
    assert!(same_text("é", "\u{e9}"));
    assert!(!same_text("e\u{301}", "\u{e9}"));
    for s in SAMPLES {
        for p in SAMPLES {
            assert_eq!(starts_with(s, &chars_of(p)), s.starts_with(p), "{:?} {:?}", s, p);
            assert_eq!(same_text(s, p), s == p);
        }
    }
    assert!(starts_with("user:1", &chars_of("user")));
    assert!(starts_with("user", &chars_of("user")));
    assert!(!starts_with("use", &chars_of("user")));
    assert!(!starts_with("nuser", &chars_of("user")));
}

#[test]
fn integers_are_written_in_decimal() {
    for n in [
        0,
        1,
        -1,
        9,
        10,
        -10,
        99,
        100,
        12345,
        -12345,
        i64::MAX,
        i64::MIN,
        i64::MAX - 1,
        i64::MIN + 1,
        1_000_000_000_000,
    ] {
        assert_eq!(i64_to_string(n), n.to_string());
        assert_eq!(magnitude(n), n.unsigned_abs());
        let mut s = String::from("n=");
        push_i64(&mut s, n);
        assert_eq!(s, format!("n={}", n));
        assert_eq!(str_to_i64(&i64_to_string(n)), Some(n));
    }
    for n in [0u64, 7, 10, 1234567890, u64::MAX] {
        let mut s = String::from("#");
        push_digits(&mut s, n);
        assert_eq!(s, format!("#{}", n));
    }
}

#[test]
fn integers_are_read_as_the_standard_library_reads_them() {
    let samples = [
        "",
        "0",
        "-0",
        "+0",
        "1",
        "-1",
        "+1",
        "007",
        "-007",
        "+",
        "-",
        "+-1",
        "--1",
        "1-",
        " 1",
        "1 ",
        "1_000",
        "1.0",
        "1e3",
        "0x10",
        "abc",
        "12a",
        "٣",
        "１",
        "9223372036854775806",
        "9223372036854775807",
        "9223372036854775808",
        "+9223372036854775807",
        "+9223372036854775808",
        "-9223372036854775807",
        "-9223372036854775808",
        "-9223372036854775809",
        "18446744073709551614",
        "18446744073709551615",
        "18446744073709551616",
        "+18446744073709551615",
        "-18446744073709551615",
        "000000000000000000000000000000000000000000042",
        "-000000000000000000000000000000000000000000042",
        "99999999999999999999999999999999999999999",
        "-99999999999999999999999999999999999999999",
        "10000000000000000000",
        "100000000000000000000",
    ];
    for s in samples {
        assert_eq!(str_to_i64(s), s.parse::<i64>().ok(), "{:?}", s);
        assert_eq!(str_to_u64(s), s.parse::<u64>().ok(), "{:?}", s);
    }
}
