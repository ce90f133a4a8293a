use stormnetboot::http1;
use stormnetboot::strings;

#[test]
fn white_space_is_what_unicode_says_it_is() {
    for n in 0..=0x10FFFFu32 {
        if let Some(c) = char::from_u32(n) {
            assert_eq!(strings::is_white(c), c.is_whitespace(), "{n:x}");
            assert_eq!(strings::lower(c), c.to_ascii_lowercase(), "{n:x}");
            assert_eq!(strings::is_digit(c), c.is_ascii_digit(), "{n:x}");
            assert_eq!(
                strings::hex_value(c).map(u32::from),
                c.to_digit(16),
                "{n:x}"
            );
        }
    }
}

const SAMPLES: [&str; 12] = [
    "",
    " ",
    "a",
    " a b  c ",
    "x=y=z",
    "\u{3000}né\u{85}",
    "one\ntwo\r\nthree\r",
    "\n\n",
    "///a//",
    "12+3",
    "AbC-é",
    "aaab",
];

#[test]
fn trimming_agrees_with_std() {
    for s in SAMPLES {
        assert_eq!(strings::trim(s), s.trim());
        assert_eq!(strings::trim_start(s), s.trim_start());
        assert_eq!(strings::trim_start_char(s, '/'), s.trim_start_matches('/'));
        assert_eq!(strings::trim_end_char(s, '/'), s.trim_end_matches('/'));
        assert_eq!(
            strings::trim_end_digits(s),
            s.trim_end_matches(|c: char| c.is_ascii_digit())
        );
        assert_eq!(strings::trim_prefixes(s, "aa"), s.trim_start_matches("aa"));
    }
}

#[test]
fn splitting_agrees_with_std() {
    for s in SAMPLES {
        assert_eq!(strings::lines(s), s.lines().collect::<Vec<_>>());
        assert_eq!(strings::words(s), s.split_whitespace().collect::<Vec<_>>());
        assert_eq!(strings::split(s, '/'), s.split('/').collect::<Vec<_>>());
        assert_eq!(
            strings::split_once(s, '='),
            s.split_once('=').map(|(a, b)| (a.to_owned(), b.to_owned()))
        );
        assert_eq!(strings::before(s, "aa"), s.split("aa").next().unwrap());
        assert_eq!(
            strings::second_piece(s, "a"),
            s.split("a").nth(1).map(str::to_owned)
        );
        assert_eq!(
            strings::after(s, "a"),
            s.split_once("a").map(|(_, b)| b.to_owned())
        );
        assert_eq!(
            strings::strip_prefix(s, "a"),
            s.strip_prefix("a").map(str::to_owned)
        );
        assert_eq!(strings::starts_with(s, " a"), s.starts_with(" a"));
        assert_eq!(strings::contains(s, "b"), s.contains("b"));
        assert_eq!(strings::to_lower(s), s.to_ascii_lowercase());
        assert_eq!(strings::replace(s, '/', '-'), s.replace('/', "-"));
        assert_eq!(strings::is_empty(s), s.is_empty());
        assert_eq!(strings::eq(s, "a"), s == "a");
        assert_eq!(
            strings::eq_ignore_case(s, "aBc-é"),
            s.eq_ignore_ascii_case("aBc-é")
        );
        assert_eq!(strings::concat(s, "!"), format!("{s}!"));
    }
}

#[test]
fn numbers_agree_with_std() {
    for s in [
        "",
        "+",
        "0",
        "007",
        "+7",
        "-1",
        "65535",
        "65536",
        "18446744073709551615",
        "18446744073709551616",
        "1 ",
        "１",
    ] {
        assert_eq!(strings::parse_dec(s, u64::MAX), s.parse::<u64>().ok(), "{s}");
        assert_eq!(
            strings::parse_dec(s, 65535),
            s.parse::<u16>().ok().map(u64::from),
            "{s}"
        );
    }
    for n in [0, 9, 10, 99, 100, 12345, u64::MAX] {
        assert_eq!(strings::dec(n), n.to_string());
    }
    assert_eq!(strings::hex2(0x0f), "0f");
    assert_eq!(strings::hex2(0xa0), "a0");
    assert_eq!(strings::hex_digit(15), 'f');
    assert_eq!(strings::number_or(&Some("x".into()), 10, 3), 3);
    assert_eq!(strings::number_or(&Some("7".into()), 10, 3), 7);
    assert_eq!(strings::number_or(&None, 10, 3), 3);
}

#[test]
fn sorting_agrees_with_std() {
    let names: Vec<String> = ["b", "a", "é", "aa", "", "Z", "a", "\u{10000}", "\u{ffff}"]
        .iter()
        .map(|s| s.to_string())
        .collect();
    let mut sorted = names.clone();
    sorted.sort();
    assert_eq!(strings::sort(names), sorted);
    assert!(strings::precedes("a", "aa"));
    assert!(!strings::precedes("a", "a"));
}

#[test]
fn containers_of_text() {
    let v: Vec<String> = vec!["a".into(), "b".into()];
    assert_eq!(strings::join(&v, ", "), "a, b");
    assert_eq!(strings::join(&vec![], ", "), "");
    assert_eq!(strings::clone_texts(&v), v);
    assert!(strings::texts_eq(&v, &v.clone()));
    assert!(!strings::texts_eq(&v, &vec!["a".into()]));
    assert!(strings::opt_eq(&Some("a".into()), &Some("a".into())));
    assert!(!strings::opt_eq(&Some("a".into()), &None));
    assert_eq!(strings::nonempty("".into()), None);
    assert_eq!(strings::nonempty("x".into()), Some("x".into()));
    assert_eq!(strings::range(&strings::chars_of("héllo"), 1, 3), "él");
}

#[test]
fn urls_are_split_and_dialled() {
    assert_eq!(http1::split("h:8/x/y"), ("h:8".into(), "/x/y".into()));
    assert_eq!(http1::split("h"), ("h".into(), "/".into()));
    assert_eq!(http1::split("/x"), ("".into(), "/x".into()));
    assert_eq!(http1::dial("h"), "h:80");
    assert_eq!(http1::dial("h:8"), "h:8");
}
