use daily_report::wrap::{fit, split_words, wrap, wrap_words};

fn longer_than(n: usize) -> impl Fn(&str) -> bool {
    move |s: &str| s.chars().count() > n
}

#[test]
fn fit_keeps_text_that_fits() {
    assert_eq!(fit("hello", longer_than(5)), "hello");
    assert_eq!(fit("", longer_than(0)), "");
}

#[test]
fn fit_cuts_to_longest_prefix_that_fits() {
    assert_eq!(fit("hello world", longer_than(5)), "hello");
    assert_eq!(fit("héllo", longer_than(2)), "hé");
    assert_eq!(fit("abc", longer_than(0)), "");
}

#[test]
fn split_on_any_whitespace() {
    assert_eq!(split_words("  a  bc\nd\r\te  "), vec!["a", "bc", "d", "e"]);
    assert_eq!(split_words("one"), vec!["one"]);
    assert!(split_words(" \n\t ").is_empty());
    assert!(split_words("").is_empty());
    // U+3000 (ideographic space) is whitespace too.
    assert_eq!(split_words("x\u{3000}y"), vec!["x", "y"]);
}

#[test]
fn wrap_greedy_lines() {
    assert_eq!(wrap("the quick brown fox jumps", longer_than(10)), vec!["the quick", "brown fox", "jumps"]);
    assert_eq!(wrap("aa bb cc", longer_than(100)), vec!["aa bb cc"]);
}

#[test]
fn wrap_gives_long_word_its_own_line() {
    assert_eq!(wrap("a verylongword b", longer_than(4)), vec!["a", "verylongword", "b"]);
}

#[test]
fn wrap_of_blank_text_is_empty() {
    assert!(wrap("   \n ", longer_than(3)).is_empty());
}

#[test]
fn wrap_keeps_every_word_in_order() {
    let text = "Crew arrived late\nbecause of the\r\nstorm; work resumed at noon";
    let lines = wrap(text, longer_than(12));
    assert_eq!(lines.join(" "), split_words(text).join(" "));
    for l in &lines {
        assert!(l.chars().count() <= 12 || !l.contains(' '));
    }
}

#[test]
fn wrap_words_directly() {
    let words: Vec<String> = vec!["ab".into(), "cd".into(), "ef".into()];
    assert_eq!(wrap_words(&words, longer_than(5)), vec!["ab cd", "ef"]);
}
