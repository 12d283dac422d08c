use guessing_game::parse::parse_guess;

#[test]
fn plain_number() {
    assert_eq!(parse_guess("42"), Some(42));
}

#[test]
fn surrounding_whitespace_is_trimmed() {
    assert_eq!(parse_guess(" 42\n"), Some(42));
    assert_eq!(parse_guess("\t7\r\n"), Some(7));
    assert_eq!(parse_guess("100\n"), Some(100));
}

#[test]
fn leading_plus_sign() {
    assert_eq!(parse_guess("+7"), Some(7));
}

#[test]
fn leading_zeroes() {
    assert_eq!(parse_guess("007"), Some(7));
    assert_eq!(parse_guess("0"), Some(0));
}

#[test]
fn letters_are_no_number() {
    assert_eq!(parse_guess("abc"), None);
    assert_eq!(parse_guess("quit"), None);
    assert_eq!(parse_guess("Q"), None);
}

#[test]
fn empty_and_blank_lines_are_no_number() {
    assert_eq!(parse_guess(""), None);
    assert_eq!(parse_guess("   "), None);
    assert_eq!(parse_guess("\n"), None);
}

#[test]
fn fractions_and_signs_are_no_number() {
    assert_eq!(parse_guess("3.5"), None);
    assert_eq!(parse_guess("-1"), None);
    assert_eq!(parse_guess("+"), None);
}

#[test]
fn inner_whitespace_is_no_number() {
    assert_eq!(parse_guess("4 2"), None);
}

#[test]
fn unicode_whitespace_is_trimmed() {
    assert_eq!(parse_guess("\u{000B}42"), Some(42));
    assert_eq!(parse_guess("\u{000C}7\u{00A0}"), Some(7));
    assert_eq!(parse_guess("\u{3000}9\u{2028}"), Some(9));
    assert_eq!(parse_guess("\u{0085}\u{1680}\u{205F}"), None);
}

#[test]
fn largest_value_fits() {
    assert_eq!(parse_guess("4294967295"), Some(u32::MAX));
}

#[test]
fn too_large_values_are_rejected() {
    assert_eq!(parse_guess("4294967296"), None);
    assert_eq!(parse_guess("99999999999999999999"), None);
}

#[test]
fn agrees_with_standard_parsing() {
    let samples = [
        "42", " 42\n", "+7", "007", "abc", "", "   ", "3.5", "-1", "+", "4 2",
        "4294967295", "4294967296", "0", "100\r\n", "\u{000B}42", "\u{00A0}7\u{2009}",
        "\u{3000}9\u{2028}", "\u{0085}", "\u{202F}5\u{205F}", "\u{1680}\u{200A}8",
    ];
    for s in samples {
        assert_eq!(parse_guess(s), s.trim().parse::<u32>().ok(), "on {:?}", s);
    }
}
