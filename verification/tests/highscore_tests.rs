use tetris_core::highscore::parse_high_score;

#[test]
fn plain_numbers_parse() {
    assert_eq!(parse_high_score("0"), 0);
    assert_eq!(parse_high_score("12345"), 12345);
    assert_eq!(parse_high_score("4294967295"), u32::MAX);
}

#[test]
fn surrounding_whitespace_is_ignored() {
    assert_eq!(parse_high_score("  800\n"), 800);
    assert_eq!(parse_high_score("\t100\r\n"), 100);
}

#[test]
fn a_leading_plus_sign_is_accepted() {
    assert_eq!(parse_high_score("+300"), 300);
}

#[test]
fn corrupt_records_are_worth_zero() {
    assert_eq!(parse_high_score(""), 0);
    assert_eq!(parse_high_score("   "), 0);
    assert_eq!(parse_high_score("+"), 0);
    assert_eq!(parse_high_score("-100"), 0);
    assert_eq!(parse_high_score("12a4"), 0);
    assert_eq!(parse_high_score("high score"), 0);
    // One past the largest representable score.
    assert_eq!(parse_high_score("4294967296"), 0);
    assert_eq!(parse_high_score("99999999999999999999"), 0);
}
