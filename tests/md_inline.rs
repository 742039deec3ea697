use md_parser::fragment::MdInline::{self, Bold, BoldItalic, Code, Footnote, InlineString, Italic, LinkText, LinkUrl};
use md_parser::fragment::MdString;
use md_parser::inline_tokens::tokenize;
use md_parser::md_inline::from_tokens_to_mdinline;

fn build(text: &str) -> MdString {
    let tokens = tokenize(text.to_string());
    let mut pos: usize = 0;
    let mut md_string = MdString::new();
    from_tokens_to_mdinline(&tokens, &mut pos, &mut md_string, None, false);
    assert_eq!(pos, tokens.len());
    md_string
}

fn text(s: &str) -> MdInline {
    InlineString(s.to_string())
}

#[test]
fn test_mdline_plain() {
    let md_string = build("Hello World!");
    assert_eq!(
        md_string,
        MdString::from_vec(vec![MdInline::InlineString("Hello World!".to_string())])
    );
}

#[test]
fn test_mdline_string_modifiers() {
    let md_string = build("Hello \\**dkjf**world\\** !");
    let result = MdString::from_vec(vec![
        MdInline::InlineString("Hello *".to_string()),
        MdInline::Italic(MdString::from_vec(vec![
            InlineString("dkjf".to_string()),
            Bold(MdString::from_vec(vec![
                InlineString("world*".to_string()),
                Italic(MdString::from_vec(vec![InlineString(" !".to_string())])),
            ])),
        ])),
    ]);
    assert_eq!(md_string, result);
}

#[test]
fn test_mdline_italic_bold() {
    let md_string = build("***Hello Italic & Bold***");
    let result = MdString::from_vec(vec![BoldItalic(MdString::from_vec(vec![InlineString(
        "Hello Italic & Bold".to_string(),
    )]))]);
    assert_eq!(md_string, result);
}

#[test]
fn test_mdline_link() {
    let md_string = build("[**bold text**]");
    let result = MdString::from_vec(vec![LinkText(MdString::from_vec(vec![Bold(
        MdString::from_vec(vec![InlineString("bold text".to_string())]),
    )]))]);
    assert_eq!(md_string, result);

    // A link target closes on `]`, so the `)` is verbatim text inside it.
    let md_string = build("(**bold text**)");
    let result = MdString::from_vec(vec![MdInline::LinkUrl(MdString::from_vec(vec![
        InlineString("**bold text**)".to_string()),
    ]))]);
    assert_eq!(md_string, result);
}

#[test]
fn test_mdline_footnote() {
    let md_string = build("[^123]");
    let result = MdString::from_vec(vec![MdInline::Footnote(MdString::from_vec(vec![
        MdInline::InlineString("123".to_string()),
    ]))]);
    assert_eq!(md_string, result);
}

#[test]
fn plain_text_round_trips() {
    let s = "just some words, 42 of them!";
    assert_eq!(MdString::from_string(s.to_string()), MdString::from_vec(vec![text(s)]));
}

#[test]
fn escaped_bold_stays_literal() {
    assert_eq!(
        MdString::from_string("\\*\\*bold\\*\\*".to_string()),
        MdString::from_vec(vec![text("**bold**")])
    );
    assert_eq!(MdString::from_string("\\*".to_string()), MdString::from_vec(vec![text("*")]));
}

#[test]
fn nested_emphasis() {
    assert_eq!(
        MdString::from_string("***a***".to_string()),
        MdString::from_vec(vec![BoldItalic(MdString::from_vec(vec![text("a")]))])
    );
    assert_eq!(
        MdString::from_string("**a*b*c**".to_string()),
        MdString::from_vec(vec![Bold(MdString::from_vec(vec![
            text("a"),
            Italic(MdString::from_vec(vec![text("b")])),
            text("c"),
        ]))])
    );
}

#[test]
fn code_span_is_verbatim() {
    assert_eq!(
        MdString::from_string("`a**b**c`".to_string()),
        MdString::from_vec(vec![Code(MdString::from_vec(vec![text("a**b**c")]))])
    );
    assert_eq!(
        MdString::from_string("``x`y``".to_string()),
        MdString::from_vec(vec![Code(MdString::from_vec(vec![text("x`y")]))])
    );
}

#[test]
fn unterminated_scope_closes_at_end() {
    assert_eq!(
        MdString::from_string("*open".to_string()),
        MdString::from_vec(vec![Italic(MdString::from_vec(vec![text("open")]))])
    );
}

#[test]
fn footnote_and_link_text() {
    assert_eq!(
        MdString::from_string("[^123]".to_string()),
        MdString::from_vec(vec![Footnote(MdString::from_vec(vec![text("123")]))])
    );
    assert_eq!(
        MdString::from_string("[text]".to_string()),
        MdString::from_vec(vec![LinkText(MdString::from_vec(vec![text("text")]))])
    );
}

#[test]
fn terminator_wins_over_verbatim() {
    assert_eq!(
        MdString::from_string("(`code`]x".to_string()),
        MdString::from_vec(vec![
            LinkUrl(MdString::from_vec(vec![text("`code`")])),
            text("x"),
        ])
    );
}

#[test]
fn unmatched_closers_are_dropped() {
    assert_eq!(
        MdString::from_string("a]b)c".to_string()),
        MdString::from_vec(vec![text("abc")])
    );
}

#[test]
fn single_equal_is_text() {
    assert_eq!(
        MdString::from_string("a=b".to_string()),
        MdString::from_vec(vec![text("a=b")])
    );
}

#[test]
fn other_scopes() {
    assert_eq!(
        MdString::from_string("~~s~~ ~u~ ==h==".to_string()),
        MdString::from_vec(vec![
            MdInline::Strike(MdString::from_vec(vec![text("s")])),
            text(" "),
            MdInline::Super(MdString::from_vec(vec![text("u")])),
            text(" "),
            MdInline::Highlight(MdString::from_vec(vec![text("h")])),
        ])
    );
}

#[test]
fn builder_stops_after_terminator() {
    let tokens = tokenize("a*b".to_string());
    let mut pos: usize = 0;
    let mut md_string = MdString::new();
    from_tokens_to_mdinline(
        &tokens,
        &mut pos,
        &mut md_string,
        Some(md_parser::inline_tokens::InlineToken::Star),
        false,
    );
    assert_eq!(pos, 2);
    assert_eq!(md_string, MdString::from_vec(vec![text("a")]));
}

#[test]
fn empty_span_builds_nothing() {
    assert_eq!(MdString::from_string(String::new()).len(), 0);
}

#[test]
fn fully_escaped_markup_is_text() {
    assert_eq!(
        MdString::from_string("\\[\\^\\~\\=\\`\\(\\)\\]\\\\".to_string()),
        MdString::from_vec(vec![text("[^~=`()]\\")])
    );
}

#[test]
fn nesting_deeper_than_the_limit_becomes_text() {
    let input = format!("{}x", "[".repeat(300));
    let mut f = MdString::from_string(input);
    let mut depth = 0;
    loop {
        assert_eq!(f.len(), 1);
        let last = f.last_mut().unwrap();
        match std::mem::replace(last, text("")) {
            LinkText(inner) => {
                depth += 1;
                f = inner;
            }
            InlineString(s) => {
                assert_eq!(s, format!("{}x", "[".repeat(44)));
                break;
            }
            _ => panic!("unexpected node"),
        }
    }
    assert_eq!(depth, md_parser::md_inline::MAX_NESTING);
}
