use chachacha::request::{eq_ignoring_case, join, trim, Category, Request, RequestError};

fn words(list: &[&str]) -> Vec<String> {
    list.iter().map(|w| w.to_string()).collect()
}

#[test]
fn words_are_joined_by_single_spaces() {
    assert_eq!(join(&words(&[])), "");
    assert_eq!(join(&words(&["one"])), "one");
    assert_eq!(join(&words(&["Support", "widgets"])), "Support widgets");
    assert_eq!(join(&words(&["a", "", "b"])), "a  b");
    assert_eq!(join(&words(&["", "x"])), " x");
}

#[test]
fn trim_removes_white_space_at_both_ends_only() {
    assert_eq!(trim(""), "");
    assert_eq!(trim("   "), "");
    assert_eq!(trim("x"), "x");
    assert_eq!(trim(" Support  widgets \n"), "Support  widgets");
    assert_eq!(trim("\t\r\n x y"), "x y");
    assert_eq!(trim("\u{3000}\u{a0}é \u{2003}z\u{2028}"), "é \u{2003}z");
    assert_eq!(trim("\u{200b}x"), "\u{200b}x");
}

#[test]
fn trim_agrees_with_the_standard_library_on_every_character() {
    for code in 0..=0x10FFFFu32 {
        if let Some(c) = char::from_u32(code) {
            if c.is_whitespace() || code < 0x3100 {
                let padded = format!("{}a{}", c, c);
                assert_eq!(trim(&padded), padded.trim(), "character {:x}", code);
            }
        }
    }
}

#[test]
fn comparison_ignores_the_case_of_ascii_letters_only() {
    assert!(eq_ignoring_case("Added", "aDDED"));
    assert!(eq_ignoring_case("", ""));
    assert!(!eq_ignoring_case("Added", "Adde"));
    assert!(!eq_ignoring_case("Added", "Addee"));
    assert!(!eq_ignoring_case("É", "é"));
    assert!(eq_ignoring_case("éA", "éa"));
    assert!(!eq_ignoring_case("@", "`"));
    assert!(!eq_ignoring_case("[", "{"));
    for (a, b) in [("fixed", "FIXED"), ("Fixed", "Fixes"), ("k", "\u{212a}"), ("az", "AZ")] {
        assert_eq!(eq_ignoring_case(a, b), a.eq_ignore_ascii_case(b));
    }
}

#[test]
fn request_from_words() {
    let r = Request::from_words("added", &words(&["  Support", "widgets "])).unwrap();
    assert_eq!(r.category(), Category::Added);
    assert_eq!(r.entry(), "Support widgets");
}

#[test]
fn request_from_no_words_is_refused() {
    assert_eq!(
        Request::from_words("added", &words(&[])).err(),
        Some(RequestError::MissingArgument)
    );
    assert_eq!(
        Request::from_words("fixed", &words(&[" ", "\t"])).err(),
        Some(RequestError::MissingArgument)
    );
}

#[test]
fn unknown_action_is_refused_before_the_words_are_looked_at() {
    assert_eq!(
        Request::from_words("banana", &words(&[])).err(),
        Some(RequestError::UnknownCategory)
    );
    assert_eq!(
        Request::from_words("init", &words(&["x"])).err(),
        Some(RequestError::UnknownCategory)
    );
}

#[test]
fn error_messages_are_fixed_sentences() {
    assert_eq!(
        RequestError::UnknownCategory.message(),
        "the action names no known category"
    );
    assert_eq!(
        RequestError::MissingArgument.message(),
        "no text was given for the entry"
    );
}
