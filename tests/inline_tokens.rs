use md_parser::inline_tokens::tokenize;
use md_parser::inline_tokens::InlineToken::{
    CircleClose, CircleOpen, DoubleEqual, DoubleQuote, DoubleStar, DoubleStrike, Equal, FootnoteOpen, Plain,
    Quote, SquareClose, SquareOpen, Star, Strike, TripleStar,
};
use md_parser::inline_tokens::InlineToken;

#[test]
fn test_inline_tokens() {
    assert_eq!(
        tokenize("`code **bold**`".to_string()),
        vec![
            Quote,
            Plain("code ".to_string()),
            DoubleStar,
            Plain("bold".to_string()),
            DoubleStar,
            Quote,
        ]
    );
}

#[test]
fn test_inline_star() {
    assert_eq!(
        tokenize("**bold**".to_string()),
        vec![DoubleStar, Plain("bold".to_string()), DoubleStar]
    );
    assert_eq!(
        tokenize("*bold*".to_string()),
        vec![Star, Plain("bold".to_string()), Star]
    );
    assert_eq!(
        tokenize("***bold***".to_string()),
        vec![TripleStar, Plain("bold".to_string()), TripleStar]
    );
}

#[test]
fn test_inline_equal() {
    assert_eq!(
        tokenize("==bold==".to_string()),
        vec![DoubleEqual, Plain("bold".to_string()), DoubleEqual]
    );
    assert_eq!(
        tokenize("=bold=".to_string()),
        vec![Equal, Plain("bold".to_string()), Equal]
    );
}

#[test]
fn test_inline_escape() {
    assert_eq!(
        tokenize("\\**bold**".to_string()),
        vec![
            Plain("*".to_string()),
            Star,
            Plain("bold".to_string()),
            DoubleStar
        ]
    );
    assert_eq!(
        tokenize("\\=bold=".to_string()),
        vec![Plain("=bold".to_string()), Equal]
    );
    assert_eq!(
        tokenize("\\=bold\\~".to_string()),
        vec![Plain("=bold~".to_string())]
    );
}

#[test]
fn test_inline_footnote() {
    assert_eq!(
        tokenize("[^1\\]".to_string()),
        vec![FootnoteOpen, Plain("1]".to_string())]
    );
    // A caret that does not follow an open square bracket is literal text.
    assert_eq!(
        tokenize("\\[^1]".to_string()),
        vec![Plain("[^1".to_string()), SquareClose]
    );
    assert_eq!(
        tokenize("[\\^1]".to_string()),
        vec![SquareOpen, Plain("^1".to_string()), SquareClose]
    );
}

#[test]
fn star_run_of_four_and_six() {
    assert_eq!(tokenize("****".to_string()), vec![TripleStar, Star]);
    assert_eq!(tokenize("******".to_string()), vec![TripleStar, TripleStar]);
    assert_eq!(tokenize("*****".to_string()), vec![TripleStar, DoubleStar]);
}

#[test]
fn escaped_star_is_one_plain_run() {
    assert_eq!(tokenize("\\*".to_string()), vec![Plain("*".to_string())]);
}

#[test]
fn escape_stops_promotion() {
    assert_eq!(
        tokenize("*\\*".to_string()),
        vec![Star, Plain("*".to_string())]
    );
}

#[test]
fn dangling_escape_is_dropped() {
    assert_eq!(tokenize("a\\".to_string()), vec![Plain("a".to_string())]);
    assert_eq!(tokenize("\\".to_string()), Vec::<InlineToken>::new());
}

#[test]
fn empty_span_has_no_tokens() {
    assert_eq!(tokenize(String::new()), Vec::<InlineToken>::new());
}

#[test]
fn spaced_stars_do_not_merge() {
    assert_eq!(
        tokenize("* *".to_string()),
        vec![Star, Plain(" ".to_string()), Star]
    );
}

#[test]
fn other_delimiters() {
    assert_eq!(
        tokenize("``~~~()[]".to_string()),
        vec![DoubleQuote, DoubleStrike, Strike, CircleOpen, CircleClose, SquareOpen, SquareClose]
    );
    assert_eq!(tokenize("a^b".to_string()), vec![Plain("a^b".to_string())]);
}

#[test]
fn token_surface_text() {
    assert_eq!(DoubleStar.to_string(), "**");
    assert_eq!(FootnoteOpen.to_string(), "[^");
    assert_eq!(InlineToken::Escape.to_string(), "\\");
    assert_eq!(InlineToken::Carat.to_string(), "^");
    assert_eq!(DoubleEqual.to_string(), "==");
    assert_eq!(Plain("abc".to_string()).to_string(), "abc");
}
