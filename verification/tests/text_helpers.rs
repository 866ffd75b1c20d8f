use whiteboard_sync::text::{
    chars_of, contains, decimal_string, find_char, matches_at, replace_all, same_text, starts_with,
};

fn chars(s: &str) -> Vec<char> {
    s.chars().collect()
}

#[test]
fn chars_of_a_string() {
    assert_eq!(chars_of(""), Vec::<char>::new());
    assert_eq!(chars_of("a\u{e9}z"), vec!['a', '\u{e9}', 'z']);
}

#[test]
fn same_text_compares_character_by_character() {
    assert!(same_text("", ""));
    assert!(same_text("GET /", "GET /"));
    assert!(!same_text("GET /", "GET / "));
    assert!(!same_text("GET /", "GET ?"));
    assert!(!same_text("abc", "ab"));
}

#[test]
fn starts_with_and_matches_at() {
    assert!(starts_with(&chars("POST /x"), &chars("POST")));
    assert!(starts_with(&chars("POST"), &chars("")));
    assert!(!starts_with(&chars("POS"), &chars("POST")));
    assert!(!starts_with(&chars("xPOST"), &chars("POST")));
    assert!(matches_at(&chars("xPOST"), &chars("POST"), 1));
    assert!(!matches_at(&chars("xPOST"), &chars("POST"), 2));
    assert!(matches_at(&chars("abc"), &chars(""), 3));
    assert!(!matches_at(&chars("abc"), &chars(""), 4));
}

#[test]
fn contains_finds_a_pattern_anywhere() {
    assert!(contains(&chars("POST /hello HTTP/1.1"), &chars("/hello")));
    assert!(contains(&chars("/hello"), &chars("/hello")));
    assert!(contains(&chars("xx/hello"), &chars("/hello")));
    assert!(contains(&chars("anything"), &chars("")));
    assert!(contains(&chars(""), &chars("")));
    assert!(!contains(&chars("/hell"), &chars("/hello")));
    assert!(!contains(&chars("/hel/lo"), &chars("/hello")));
}

#[test]
fn find_char_gives_the_first_position_or_the_length() {
    assert_eq!(find_char(&chars("a:b:c"), ':'), 1);
    assert_eq!(find_char(&chars(":"), ':'), 0);
    assert_eq!(find_char(&chars("abc"), ':'), 3);
    assert_eq!(find_char(&chars(""), ':'), 0);
}

#[test]
fn decimal_string_of_numbers() {
    assert_eq!(decimal_string(0), "0");
    assert_eq!(decimal_string(9), "9");
    assert_eq!(decimal_string(10), "10");
    assert_eq!(decimal_string(1234567890), "1234567890");
    assert_eq!(decimal_string(usize::MAX), usize::MAX.to_string());
}

#[test]
fn replace_all_takes_occurrences_from_the_left() {
    assert_eq!(replace_all("a#hostb", "#host", "X"), "aXb");
    assert_eq!(replace_all("#host", "#host", ""), "");
    assert_eq!(replace_all("#host#host", "#host", "ab"), "abab");
    assert_eq!(replace_all("aaa", "aa", "b"), "ba");
    assert_eq!(replace_all("aaaa", "aa", "b"), "bb");
    assert_eq!(replace_all("nothing here", "#host", "X"), "nothing here");
    assert_eq!(replace_all("", "#host", "X"), "");
    assert_eq!(replace_all("#hos", "#host", "X"), "#hos");
    assert_eq!(replace_all("\u{e9}#host\u{e9}", "#host", "\u{fc}"), "\u{e9}\u{fc}\u{e9}");
    assert_eq!(replace_all("abcabc", "abc", "abcabc"), "abcabcabcabc");
}
