//! The tree builder: a recursive-descent matcher over a shared forward cursor
//! that turns a token sequence into a fragment of nested nodes.
use vstd::prelude::*;
use crate::fragment::{append_node, lemma_append_well_formed, well_formed_fragment, MdInline, MdString, ScopeKind, SpecNode};
use crate::inline_tokens::{push_plain, scan, scan_char, spec_tokenize, surface, tokenize, tokens_view, InlineToken, SpecToken};

verus! {

/// The scope a token opens outside verbatim mode: the node kind it produces,
/// the token that closes it, and whether its content is verbatim.
pub open spec fn opens(t: SpecToken) -> Option<(ScopeKind, SpecToken, bool)> {
    match t {
        SpecToken::Star => Some((ScopeKind::Italic, SpecToken::Star, false)),
        SpecToken::DoubleStar => Some((ScopeKind::Bold, SpecToken::DoubleStar, false)),
        SpecToken::TripleStar => Some((ScopeKind::BoldItalic, SpecToken::TripleStar, false)),
        SpecToken::DoubleStrike => Some((ScopeKind::Strike, SpecToken::DoubleStrike, false)),
        SpecToken::DoubleEqual => Some((ScopeKind::Highlight, SpecToken::DoubleEqual, false)),
        SpecToken::Strike => Some((ScopeKind::Super, SpecToken::Strike, false)),
        SpecToken::Carat => Some((ScopeKind::Sub, SpecToken::Carat, false)),
        SpecToken::Quote => Some((ScopeKind::Code, SpecToken::Quote, true)),
        SpecToken::DoubleQuote => Some((ScopeKind::Code, SpecToken::DoubleQuote, true)),
        SpecToken::SquareOpen => Some((ScopeKind::LinkText, SpecToken::SquareClose, false)),
        SpecToken::CircleOpen => Some((ScopeKind::LinkUrl, SpecToken::SquareClose, true)),
        SpecToken::FootnoteOpen => Some((ScopeKind::Footnote, SpecToken::SquareClose, true)),
        _ => None,
    }
}

/// What a token that opens no scope adds outside verbatim mode: a single `=`
/// and a plain run are text; escapes and unmatched closers add nothing.
pub open spec fn literal(frag: Seq<SpecNode>, t: SpecToken) -> Seq<SpecNode> {
    match t {
        SpecToken::Equal => append_node(frag, SpecNode::Text(seq!['='])),
        SpecToken::Plain(s) => append_node(frag, SpecNode::Text(s)),
        _ => frag,
    }
}

/// Measure for `build`: the tokens left from `pos`.
pub open spec fn left(toks: Seq<SpecToken>, pos: nat) -> nat {
    if pos < toks.len() {
        (toks.len() - pos) as nat
    } else {
        0
    }
}

/// How many scopes may stand inside one another. An opener met when no
/// more may open is taken as its literal text, so deep nesting cannot
/// exhaust the call stack.
pub const MAX_NESTING: usize = 256;

/// Building from `pos` into `frag` until `until` (or the end), with `depth`
/// more scopes allowed to open: the fragment that results and the number of
/// tokens consumed, the terminator included.
pub open spec fn build(
    toks: Seq<SpecToken>,
    pos: nat,
    until: Option<SpecToken>,
    verbatim: bool,
    frag: Seq<SpecNode>,
    depth: nat,
) -> (Seq<SpecNode>, nat)
    decreases left(toks, pos),
{
    if pos >= toks.len() {
        (frag, 0)
    } else if until == Some(toks[pos as int]) {
        (frag, 1)
    } else if verbatim {
        let r = build(toks, pos + 1, until, true, append_node(frag, SpecNode::Text(surface(toks[pos as int]))), depth);
        (r.0, r.1 + 1)
    } else {
        match opens(toks[pos as int]) {
            Some((kind, closer, inner_verbatim)) => {
                if depth == 0 {
                    let r = build(toks, pos + 1, until, false, append_node(frag, SpecNode::Text(surface(toks[pos as int]))), depth);
                    (r.0, r.1 + 1)
                } else {
                    let inner = build(toks, pos + 1, Some(closer), inner_verbatim, Seq::empty(), (depth - 1) as nat);
                    let r = build(toks, pos + 1 + inner.1, until, false, append_node(frag, SpecNode::Scope(kind, inner.0)), depth);
                    (r.0, r.1 + 1 + inner.1)
                }
            },
            None => {
                let r = build(toks, pos + 1, until, false, literal(frag, toks[pos as int]), depth);
                (r.0, r.1 + 1)
            },
        }
    }
}

/// The tree of a whole span.
pub open spec fn parse(s: Seq<char>) -> Seq<SpecNode> {
    build(spec_tokenize(s), 0, None, false, Seq::empty(), MAX_NESTING as nat).0
}

/// The model of an optional token.
pub open spec fn opt_view(t: Option<InlineToken>) -> Option<SpecToken> {
    match t {
        Some(x) => Some(x@),
        None => None,
    }
}

/// The scope that `t` opens outside verbatim mode, as `opens` states it.
fn scope_of(t: &InlineToken) -> (r: Option<(ScopeKind, InlineToken, bool)>)
    ensures
        match opens(t@) {
            Some((k, c, v)) => r matches Some((rk, rc, rv)) && rk == k && rc@ == c && rv == v,
            None => r is None,
        },
{
    match t {
        InlineToken::Star => Some((ScopeKind::Italic, InlineToken::Star, false)),
        InlineToken::DoubleStar => Some((ScopeKind::Bold, InlineToken::DoubleStar, false)),
        InlineToken::TripleStar => Some((ScopeKind::BoldItalic, InlineToken::TripleStar, false)),
        InlineToken::DoubleStrike => Some((ScopeKind::Strike, InlineToken::DoubleStrike, false)),
        InlineToken::DoubleEqual => Some((ScopeKind::Highlight, InlineToken::DoubleEqual, false)),
        InlineToken::Strike => Some((ScopeKind::Super, InlineToken::Strike, false)),
        InlineToken::Carat => Some((ScopeKind::Sub, InlineToken::Carat, false)),
        InlineToken::Quote => Some((ScopeKind::Code, InlineToken::Quote, true)),
        InlineToken::DoubleQuote => Some((ScopeKind::Code, InlineToken::DoubleQuote, true)),
        InlineToken::SquareOpen => Some((ScopeKind::LinkText, InlineToken::SquareClose, false)),
        InlineToken::CircleOpen => Some((ScopeKind::LinkUrl, InlineToken::SquareClose, true)),
        InlineToken::FootnoteOpen => Some((ScopeKind::Footnote, InlineToken::SquareClose, true)),
        _ => None,
    }
}

/// Consumes tokens from `*pos` and appends what they build to `md_string`,
/// until the end of `tokens` or until a token equal to `until`, which is
/// consumed too. With `escape` set every token is taken as its literal text.
/// A scope left open at the end closes there with what it collected.
/// At most `MAX_NESTING` scopes open inside one another.
pub fn from_tokens_to_mdinline(
    tokens: &Vec<InlineToken>,
    pos: &mut usize,
    md_string: &mut MdString,
    until: Option<InlineToken>,
    escape: bool,
)
    requires
        *old(pos) <= tokens@.len(),
    ensures
        *old(pos) <= *final(pos) <= tokens@.len(),
        build(tokens_view(tokens@), *old(pos) as nat, opt_view(until), escape, old(md_string)@, MAX_NESTING as nat)
            == (final(md_string)@, (*final(pos) - *old(pos)) as nat),
{
    build_into(tokens, pos, md_string, until, escape, MAX_NESTING);
}

/// As `from_tokens_to_mdinline`, with `depth` more scopes allowed to open.
fn build_into(
    tokens: &Vec<InlineToken>,
    pos: &mut usize,
    md_string: &mut MdString,
    until: Option<InlineToken>,
    escape: bool,
    depth: usize,
)
    requires
        *old(pos) <= tokens@.len(),
    ensures
        *old(pos) <= *final(pos) <= tokens@.len(),
        build(tokens_view(tokens@), *old(pos) as nat, opt_view(until), escape, old(md_string)@, depth as nat)
            == (final(md_string)@, (*final(pos) - *old(pos)) as nat),
    decreases tokens@.len() - *pos,
{
    let ghost toks = tokens_view(tokens@);
    let ghost start = *pos as nat;
    let ghost goal = build(toks, start, opt_view(until), escape, md_string@, depth as nat);
    loop
        invariant
            start == *old(pos),
            start <= *pos <= tokens@.len(),
            toks == tokens_view(tokens@),
            goal == build(toks, start, opt_view(until), escape, old(md_string)@, depth as nat),
            goal.0 == build(toks, *pos as nat, opt_view(until), escape, md_string@, depth as nat).0,
            goal.1 == build(toks, *pos as nat, opt_view(until), escape, md_string@, depth as nat).1 + (*pos - start),
        decreases tokens@.len() - *pos,
    {
        let ghost here = *pos as nat;
        let ghost frag = md_string@;
        if *pos >= tokens.len() {
            assert(build(toks, here, opt_view(until), escape, frag, depth as nat) == (frag, 0nat));
            return;
        }
        let token = &tokens[*pos];
        assert(toks[here as int] == token@);
        let ends = match &until {
            Some(u) => *u == *token,
            None => false,
        };
        *pos = *pos + 1;
        if ends {
            assert(build(toks, here, opt_view(until), escape, frag, depth as nat) == (frag, 1nat));
            return;
        }
        if escape {
            md_string.push(MdInline::InlineString(token.to_string()));
        } else {
            match scope_of(token) {
                Some((kind, closer, verbatim)) => {
                    if depth == 0 {
                        md_string.push(MdInline::InlineString(token.to_string()));
                    } else {
                        let mut inner = MdString::new();
                        build_into(tokens, pos, &mut inner, Some(closer), verbatim, depth - 1);
                        md_string.push(MdInline::scope(kind, inner));
                    }
                },
                None => {
                    match token {
                        InlineToken::Equal => {
                            let mut s = String::new();
                            crate::text::push_char(&mut s, '=');
                            md_string.push(MdInline::InlineString(s));
                        },
                        InlineToken::Plain(s) => {
                            md_string.push(MdInline::InlineString(s.clone()));
                        },
                        _ => {},
                    }
                },
            }
        }
    }
}

impl MdString {
    /// The tree of a whole span: its tokens, built from the first to the last.
    pub fn from_string(data: String) -> (r: MdString)
        ensures
            r@ == parse(data@),
            well_formed_fragment(r@),
    {
        let tokens = tokenize(data);
        let mut pos: usize = 0;
        let mut r = MdString::new();
        from_tokens_to_mdinline(&tokens, &mut pos, &mut r, None, false);
        proof {
            lemma_parse_well_formed(data@);
        }
        r
    }
}

} // verus!

verus! {

/// A character that the tokenizer treats as markup.
pub open spec fn is_markup(c: char) -> bool {
    c == '\\' || c == '*' || c == '`' || c == '[' || c == ']' || c == '(' || c == ')' || c == '^'
        || c == '~' || c == '='
}

proof fn lemma_scan_plain(s: Seq<char>)
    requires
        s.len() > 0,
        forall|i: int| 0 <= i < s.len() ==> !is_markup(#[trigger] s[i]),
    ensures
        scan(s) == seq![SpecToken::Plain(s)],
    decreases s.len(),
{
    let init = s.drop_last();
    if s.len() == 1 {
        assert(init =~= Seq::<char>::empty());
        assert(seq![s.last()] =~= s);
    } else {
        assert forall|i: int| 0 <= i < init.len() implies !is_markup(#[trigger] init[i]) by {
            assert(init[i] == s[i]);
        }
        lemma_scan_plain(init);
        assert(init.push(s.last()) =~= s);
    }
    let c = s.last();
    assert(!is_markup(s[s.len() - 1]));
    let ts = scan(init);
    assert(scan(s) == scan_char(ts, c));
    assert(ts.len() == 0 || ts.last() is Plain);
    assert(scan_char(ts, c) == push_plain(ts, c));
    assert(push_plain(ts, c) =~= seq![SpecToken::Plain(s)]);
}

/// A non-empty span without markup characters comes back as exactly one text
/// run equal to the span.
pub proof fn lemma_plain_round_trip(s: Seq<char>)
    requires
        s.len() > 0,
        forall|i: int| 0 <= i < s.len() ==> !is_markup(#[trigger] s[i]),
    ensures
        spec_tokenize(s) == seq![SpecToken::Plain(s)],
        parse(s) == seq![SpecNode::Text(s)],
{
    lemma_scan_plain(s);
    let toks = seq![SpecToken::Plain(s)];
    assert(spec_tokenize(s) == toks);
    assert(build(toks, 1, None, false, seq![SpecNode::Text(s)], MAX_NESTING as nat) == (seq![SpecNode::Text(s)], 0nat));
    assert(append_node(Seq::empty(), SpecNode::Text(s)) =~= seq![SpecNode::Text(s)]);
}

} // verus!

verus! {

proof fn lemma_build_well_formed(
    toks: Seq<SpecToken>,
    pos: nat,
    until: Option<SpecToken>,
    verbatim: bool,
    frag: Seq<SpecNode>,
    depth: nat,
)
    requires
        well_formed_fragment(frag),
    ensures
        well_formed_fragment(build(toks, pos, until, verbatim, frag, depth).0),
    decreases left(toks, pos),
{
    if pos < toks.len() && until != Some(toks[pos as int]) {
        let t = toks[pos as int];
        if verbatim {
            let next = append_node(frag, SpecNode::Text(surface(t)));
            lemma_append_well_formed(frag, SpecNode::Text(surface(t)));
            lemma_build_well_formed(toks, pos + 1, until, true, next, depth);
        } else {
            match opens(t) {
                Some((kind, closer, inner_verbatim)) => {
                    if depth == 0 {
                        let next = append_node(frag, SpecNode::Text(surface(t)));
                        lemma_append_well_formed(frag, SpecNode::Text(surface(t)));
                        lemma_build_well_formed(toks, pos + 1, until, false, next, depth);
                    } else {
                        let d = (depth - 1) as nat;
                        let inner = build(toks, pos + 1, Some(closer), inner_verbatim, Seq::empty(), d);
                        assert(well_formed_fragment(Seq::<SpecNode>::empty()));
                        lemma_build_well_formed(toks, pos + 1, Some(closer), inner_verbatim, Seq::empty(), d);
                        let node = SpecNode::Scope(kind, inner.0);
                        lemma_append_well_formed(frag, node);
                        lemma_build_well_formed(toks, pos + 1 + inner.1, until, false, append_node(frag, node), depth);
                    }
                },
                None => {
                    match t {
                        SpecToken::Equal => lemma_append_well_formed(frag, SpecNode::Text(seq!['='])),
                        SpecToken::Plain(s) => lemma_append_well_formed(frag, SpecNode::Text(s)),
                        _ => {},
                    }
                    lemma_build_well_formed(toks, pos + 1, until, false, literal(frag, t), depth);
                },
            }
        }
    }
}

/// Every fragment of the tree of a span, at every depth, is free of
/// neighbouring text runs.
pub proof fn lemma_parse_well_formed(s: Seq<char>)
    ensures
        well_formed_fragment(parse(s)),
{
    assert(well_formed_fragment(Seq::<SpecNode>::empty()));
    lemma_build_well_formed(spec_tokenize(s), 0, None, false, Seq::empty(), MAX_NESTING as nat);
}

} // verus!

verus! {

/// `s` with a backslash before every character.
pub open spec fn escape_all(s: Seq<char>) -> Seq<char>
    decreases s.len(),
{
    if s.len() == 0 {
        Seq::empty()
    } else {
        escape_all(s.drop_last()) + seq!['\\', s.last()]
    }
}

proof fn lemma_scan_escaped(s: Seq<char>)
    requires
        s.len() > 0,
    ensures
        scan(escape_all(s)) == seq![SpecToken::Plain(s)],
    decreases s.len(),
{
    let init = s.drop_last();
    let c = s.last();
    let e = escape_all(s);
    let with_slash = escape_all(init).push('\\');
    assert(e.drop_last() =~= with_slash);
    assert(with_slash.drop_last() =~= escape_all(init));
    let before = scan(escape_all(init));
    if s.len() > 1 {
        lemma_scan_escaped(init);
    } else {
        assert(escape_all(init) =~= Seq::<char>::empty());
        assert(seq![c] =~= s);
    }
    assert(before.len() == 0 || before.last() is Plain);
    assert(scan(with_slash) == before.push(SpecToken::Escape));
    assert(before.push(SpecToken::Escape).drop_last() =~= before);
    assert(scan(e) == push_plain(before, c));
    assert(init.push(c) =~= s);
    assert(push_plain(before, c) =~= seq![SpecToken::Plain(s)]);
}

/// Escaping every character of a non-empty span makes all of it literal:
/// one plain token, and one text run equal to the span, whatever markup
/// characters it holds.
pub proof fn lemma_escaped_is_literal(s: Seq<char>)
    requires
        s.len() > 0,
    ensures
        spec_tokenize(escape_all(s)) == seq![SpecToken::Plain(s)],
        parse(escape_all(s)) == seq![SpecNode::Text(s)],
{
    lemma_scan_escaped(s);
    let toks = seq![SpecToken::Plain(s)];
    assert(build(toks, 1, None, false, seq![SpecNode::Text(s)], MAX_NESTING as nat) == (seq![SpecNode::Text(s)], 0nat));
    assert(append_node(Seq::empty(), SpecNode::Text(s)) =~= seq![SpecNode::Text(s)]);
}

} // verus!
