//! The tokenizer: one left-to-right scan of a span that folds repeated
//! delimiters into multiplicity-tagged tokens and resolves backslash escapes.
use vstd::prelude::*;
use crate::text::push_char;

verus! {

/// One lexical unit of an inline span.
#[derive(Debug)]
pub enum InlineToken {
    Escape,
    // *
    Star,
    DoubleStar,
    TripleStar,
    // `
    Quote,
    DoubleQuote,
    // []
    SquareOpen,
    SquareClose,
    // ()
    CircleOpen,
    CircleClose,
    // ^ and [^
    Carat,
    FootnoteOpen,
    // ~
    Strike,
    DoubleStrike,
    // =
    Equal,
    DoubleEqual,
    Plain(String),
}

/// Model of a token: a plain run is its sequence of characters.
pub enum SpecToken {
    Escape,
    Star,
    DoubleStar,
    TripleStar,
    Quote,
    DoubleQuote,
    SquareOpen,
    SquareClose,
    CircleOpen,
    CircleClose,
    Carat,
    FootnoteOpen,
    Strike,
    DoubleStrike,
    Equal,
    DoubleEqual,
    Plain(Seq<char>),
}

impl InlineToken {
    pub open spec fn view(&self) -> SpecToken {
        match self {
            InlineToken::Escape => SpecToken::Escape,
            InlineToken::Star => SpecToken::Star,
            InlineToken::DoubleStar => SpecToken::DoubleStar,
            InlineToken::TripleStar => SpecToken::TripleStar,
            InlineToken::Quote => SpecToken::Quote,
            InlineToken::DoubleQuote => SpecToken::DoubleQuote,
            InlineToken::SquareOpen => SpecToken::SquareOpen,
            InlineToken::SquareClose => SpecToken::SquareClose,
            InlineToken::CircleOpen => SpecToken::CircleOpen,
            InlineToken::CircleClose => SpecToken::CircleClose,
            InlineToken::Carat => SpecToken::Carat,
            InlineToken::FootnoteOpen => SpecToken::FootnoteOpen,
            InlineToken::Strike => SpecToken::Strike,
            InlineToken::DoubleStrike => SpecToken::DoubleStrike,
            InlineToken::Equal => SpecToken::Equal,
            InlineToken::DoubleEqual => SpecToken::DoubleEqual,
            InlineToken::Plain(s) => SpecToken::Plain(s@),
        }
    }

    /// The literal surface text of the token.
    pub fn to_string(&self) -> (r: String)
        ensures
            r@ == surface(self@),
    {
        let r = match self {
            InlineToken::Escape => String::from_str("\\"),
            InlineToken::Star => String::from_str("*"),
            InlineToken::DoubleStar => String::from_str("**"),
            InlineToken::TripleStar => String::from_str("***"),
            InlineToken::Quote => String::from_str("`"),
            InlineToken::DoubleQuote => String::from_str("``"),
            InlineToken::SquareOpen => String::from_str("["),
            InlineToken::SquareClose => String::from_str("]"),
            InlineToken::CircleOpen => String::from_str("("),
            InlineToken::CircleClose => String::from_str(")"),
            InlineToken::Carat => String::from_str("^"),
            InlineToken::FootnoteOpen => String::from_str("[^"),
            InlineToken::Strike => String::from_str("~"),
            InlineToken::DoubleStrike => String::from_str("~~"),
            InlineToken::Equal => String::from_str("="),
            InlineToken::DoubleEqual => String::from_str("=="),
            InlineToken::Plain(s) => s.clone(),
        };
        proof {
            reveal_strlit("\\");
            reveal_strlit("*");
            reveal_strlit("**");
            reveal_strlit("***");
            reveal_strlit("`");
            reveal_strlit("``");
            reveal_strlit("[");
            reveal_strlit("]");
            reveal_strlit("(");
            reveal_strlit(")");
            reveal_strlit("^");
            reveal_strlit("[^");
            reveal_strlit("~");
            reveal_strlit("~~");
            reveal_strlit("=");
            reveal_strlit("==");
        }
        r
    }
}

impl PartialEq for InlineToken {
    fn eq(&self, o: &InlineToken) -> (r: bool) {
        match (self, o) {
            (InlineToken::Escape, InlineToken::Escape) => true,
            (InlineToken::Star, InlineToken::Star) => true,
            (InlineToken::DoubleStar, InlineToken::DoubleStar) => true,
            (InlineToken::TripleStar, InlineToken::TripleStar) => true,
            (InlineToken::Quote, InlineToken::Quote) => true,
            (InlineToken::DoubleQuote, InlineToken::DoubleQuote) => true,
            (InlineToken::SquareOpen, InlineToken::SquareOpen) => true,
            (InlineToken::SquareClose, InlineToken::SquareClose) => true,
            (InlineToken::CircleOpen, InlineToken::CircleOpen) => true,
            (InlineToken::CircleClose, InlineToken::CircleClose) => true,
            (InlineToken::Carat, InlineToken::Carat) => true,
            (InlineToken::FootnoteOpen, InlineToken::FootnoteOpen) => true,
            (InlineToken::Strike, InlineToken::Strike) => true,
            (InlineToken::DoubleStrike, InlineToken::DoubleStrike) => true,
            (InlineToken::Equal, InlineToken::Equal) => true,
            (InlineToken::DoubleEqual, InlineToken::DoubleEqual) => true,
            (InlineToken::Plain(a), InlineToken::Plain(b)) => a.eq(b),
            _ => false,
        }
    }
}

impl vstd::std_specs::cmp::PartialEqSpecImpl for InlineToken {
    open spec fn obeys_eq_spec() -> bool {
        true
    }

    open spec fn eq_spec(&self, o: &InlineToken) -> bool {
        self@ == o@
    }
}

/// The literal surface text of a token model.
pub open spec fn surface(t: SpecToken) -> Seq<char> {
    match t {
        SpecToken::Escape => seq!['\\'],
        SpecToken::Star => seq!['*'],
        SpecToken::DoubleStar => seq!['*', '*'],
        SpecToken::TripleStar => seq!['*', '*', '*'],
        SpecToken::Quote => seq!['`'],
        SpecToken::DoubleQuote => seq!['`', '`'],
        SpecToken::SquareOpen => seq!['['],
        SpecToken::SquareClose => seq![']'],
        SpecToken::CircleOpen => seq!['('],
        SpecToken::CircleClose => seq![')'],
        SpecToken::Carat => seq!['^'],
        SpecToken::FootnoteOpen => seq!['[', '^'],
        SpecToken::Strike => seq!['~'],
        SpecToken::DoubleStrike => seq!['~', '~'],
        SpecToken::Equal => seq!['='],
        SpecToken::DoubleEqual => seq!['=', '='],
        SpecToken::Plain(s) => s,
    }
}

/// The models of a sequence of tokens.
pub open spec fn tokens_view(ts: Seq<InlineToken>) -> Seq<SpecToken> {
    ts.map_values(|t: InlineToken| t@)
}

/// `c` added to a trailing plain run, or starting a new one.
pub open spec fn push_plain(ts: Seq<SpecToken>, c: char) -> Seq<SpecToken> {
    if ts.len() > 0 && ts.last() is Plain {
        ts.update(ts.len() - 1, SpecToken::Plain(ts.last()->Plain_0.push(c)))
    } else {
        ts.push(SpecToken::Plain(seq![c]))
    }
}

/// The last token becomes `to` when it is `from`; otherwise `fresh` is added.
pub open spec fn promote(ts: Seq<SpecToken>, from: SpecToken, to: SpecToken, fresh: SpecToken) -> Seq<SpecToken> {
    if ts.len() > 0 && ts.last() == from {
        ts.update(ts.len() - 1, to)
    } else {
        ts.push(fresh)
    }
}

/// One step of the scan: the tokens after reading `c`.
pub open spec fn scan_char(ts: Seq<SpecToken>, c: char) -> Seq<SpecToken> {
    if ts.len() > 0 && ts.last() == SpecToken::Escape {
        push_plain(ts.drop_last(), c)
    } else if c == '\\' {
        ts.push(SpecToken::Escape)
    } else if c == '*' {
        if ts.len() > 0 && ts.last() == SpecToken::Star {
            ts.update(ts.len() - 1, SpecToken::DoubleStar)
        } else {
            promote(ts, SpecToken::DoubleStar, SpecToken::TripleStar, SpecToken::Star)
        }
    } else if c == '`' {
        promote(ts, SpecToken::Quote, SpecToken::DoubleQuote, SpecToken::Quote)
    } else if c == '~' {
        promote(ts, SpecToken::Strike, SpecToken::DoubleStrike, SpecToken::Strike)
    } else if c == '=' {
        promote(ts, SpecToken::Equal, SpecToken::DoubleEqual, SpecToken::Equal)
    } else if c == '[' {
        ts.push(SpecToken::SquareOpen)
    } else if c == ']' {
        ts.push(SpecToken::SquareClose)
    } else if c == '(' {
        ts.push(SpecToken::CircleOpen)
    } else if c == ')' {
        ts.push(SpecToken::CircleClose)
    } else if c == '^' {
        if ts.len() > 0 && ts.last() == SpecToken::SquareOpen {
            ts.update(ts.len() - 1, SpecToken::FootnoteOpen)
        } else {
            push_plain(ts, c)
        }
    } else {
        push_plain(ts, c)
    }
}

/// The tokens after scanning all of `s`, a pending escape included.
pub open spec fn scan(s: Seq<char>) -> Seq<SpecToken>
    decreases s.len(),
{
    if s.len() == 0 {
        Seq::empty()
    } else {
        scan_char(scan(s.drop_last()), s.last())
    }
}

/// The token sequence of a span: the scan, with a trailing escape dropped.
pub open spec fn spec_tokenize(s: Seq<char>) -> Seq<SpecToken> {
    let ts = scan(s);
    if ts.len() > 0 && ts.last() == SpecToken::Escape {
        ts.drop_last()
    } else {
        ts
    }
}

/// Adds `c` to a trailing plain run, or starts a new one.
fn push_plain_char(tokens: &mut Vec<InlineToken>, c: char)
    ensures
        tokens_view(final(tokens)@) == push_plain(tokens_view(old(tokens)@), c),
{
    let ghost before = tokens_view(tokens@);
    match tokens.pop() {
        Some(InlineToken::Plain(mut s)) => {
            push_char(&mut s, c);
            tokens.push(InlineToken::Plain(s));
        },
        Some(other) => {
            tokens.push(other);
            let mut s = String::new();
            push_char(&mut s, c);
            tokens.push(InlineToken::Plain(s));
        },
        None => {
            let mut s = String::new();
            push_char(&mut s, c);
            tokens.push(InlineToken::Plain(s));
        },
    }
    assert(tokens_view(tokens@) =~= push_plain(before, c));
}

/// Replaces the last token by `to` when it equals `from`; otherwise adds `fresh`.
fn promote_last(tokens: &mut Vec<InlineToken>, from: InlineToken, to: InlineToken, fresh: InlineToken)
    ensures
        tokens_view(final(tokens)@) == promote(tokens_view(old(tokens)@), from@, to@, fresh@),
{
    let ghost before = tokens_view(tokens@);
    let n = tokens.len();
    if n > 0 && tokens[n - 1] == from {
        tokens.pop();
        tokens.push(to);
    } else {
        tokens.push(fresh);
    }
    assert(tokens_view(tokens@) =~= promote(before, from@, to@, fresh@));
}

/// Whether the last token is `t`.
fn last_is(tokens: &Vec<InlineToken>, t: InlineToken) -> (r: bool)
    ensures
        r == (tokens@.len() > 0 && tokens_view(tokens@).last() == t@),
{
    let n = tokens.len();
    n > 0 && tokens[n - 1] == t
}

/// Splits a span into tokens. Never fails: every character that is not
/// markup ends up in a plain run.
pub fn tokenize(data: String) -> (tokens: Vec<InlineToken>)
    ensures
        tokens_view(tokens@) == spec_tokenize(data@),
        well_formed_tokens(tokens_view(tokens@)),
{
    proof {
        lemma_tokens_well_formed(data@);
    }
    let mut tokens: Vec<InlineToken> = Vec::new();
    let ghost mut seen: Seq<char> = Seq::empty();
    for ch in it: data.chars()
        invariant
            it.seq() == data@,
            seen == it.seq().subrange(0, it.index() as int),
            tokens_view(tokens@) == scan(seen),
    {
        let ghost prefix = seen;
        proof {
            seen = seen.push(ch);
        }
        let ghost next = seen;
        assert(next.drop_last() =~= prefix);
        if last_is(&tokens, InlineToken::Escape) {
            let ghost before = tokens@;
            tokens.pop();
            assert(tokens_view(tokens@) =~= tokens_view(before).drop_last());
            push_plain_char(&mut tokens, ch);
            assert(tokens_view(tokens@) =~= scan(next));
        } else {
            match ch {
                '\\' => tokens.push(InlineToken::Escape),
                '*' => {
                    if last_is(&tokens, InlineToken::Star) {
                        tokens.pop();
                        tokens.push(InlineToken::DoubleStar);
                    } else {
                        promote_last(&mut tokens, InlineToken::DoubleStar, InlineToken::TripleStar, InlineToken::Star);
                    }
                },
                '`' => promote_last(&mut tokens, InlineToken::Quote, InlineToken::DoubleQuote, InlineToken::Quote),
                '~' => promote_last(&mut tokens, InlineToken::Strike, InlineToken::DoubleStrike, InlineToken::Strike),
                '=' => promote_last(&mut tokens, InlineToken::Equal, InlineToken::DoubleEqual, InlineToken::Equal),
                '[' => tokens.push(InlineToken::SquareOpen),
                ']' => tokens.push(InlineToken::SquareClose),
                '(' => tokens.push(InlineToken::CircleOpen),
                ')' => tokens.push(InlineToken::CircleClose),
                '^' => {
                    if last_is(&tokens, InlineToken::SquareOpen) {
                        tokens.pop();
                        tokens.push(InlineToken::FootnoteOpen);
                    } else {
                        push_plain_char(&mut tokens, ch);
                    }
                },
                _ => push_plain_char(&mut tokens, ch),
            }
            assert(tokens_view(tokens@) =~= scan(next));
        }
    }
    assert(seen =~= data@);
    if last_is(&tokens, InlineToken::Escape) {
        tokens.pop();
        assert(tokens_view(tokens@) =~= spec_tokenize(data@));
    }
    tokens
}

} // verus!

verus! {

/// The tokens of a run of `k` stars: a triple star for each full three, then
/// a single or double star for what is left.
pub open spec fn star_run_tokens(k: nat) -> Seq<SpecToken> {
    let full = Seq::new(k / 3, |i: int| SpecToken::TripleStar);
    if k % 3 == 1 {
        full.push(SpecToken::Star)
    } else if k % 3 == 2 {
        full.push(SpecToken::DoubleStar)
    } else {
        full
    }
}

/// A run of `k` consecutive stars tokenizes into triple stars, the promotion
/// capped at three, followed by the remainder as one star token.
pub proof fn lemma_star_run(k: nat)
    ensures
        spec_tokenize(Seq::new(k, |i: int| '*')) == star_run_tokens(k),
    decreases k,
{
    let s = Seq::new(k, |i: int| '*');
    if k == 0 {
        assert(scan(s) =~= star_run_tokens(k));
    } else {
        lemma_star_run((k - 1) as nat);
        let prev = Seq::new((k - 1) as nat, |i: int| '*');
        assert(s.drop_last() =~= prev);
        let q = (k - 1) as nat / 3;
        let m = (k - 1) as nat % 3;
        assert((k - 1) as nat == 3 * q + m) by (nonlinear_arith)
            requires q == (k - 1) as nat / 3, m == (k - 1) as nat % 3;
        if m == 2 {
            assert(k / 3 == q + 1 && k % 3 == 0) by (nonlinear_arith)
                requires k == 3 * q + 3;
        } else {
            assert(k / 3 == q && k % 3 == m + 1) by (nonlinear_arith)
                requires k == 3 * q + m + 1, m < 2;
        }
        assert(scan(prev) == star_run_tokens((k - 1) as nat));
        assert(scan(s) =~= star_run_tokens(k));
    }
    assert(star_run_tokens(k).len() == 0 || star_run_tokens(k).last() != SpecToken::Escape);
}

} // verus!

verus! {

/// No two neighbouring plain runs, and no empty plain run.
pub open spec fn plain_runs_ok(ts: Seq<SpecToken>) -> bool {
    &&& forall|i: int| 0 <= i < ts.len() - 1 ==> !(#[trigger] ts[i] is Plain && ts[i + 1] is Plain)
    &&& forall|i: int| 0 <= i < ts.len() && #[trigger] ts[i] is Plain ==> ts[i]->Plain_0.len() > 0
}

/// No escape token.
pub open spec fn escape_free(ts: Seq<SpecToken>) -> bool {
    forall|i: int| 0 <= i < ts.len() ==> !(#[trigger] ts[i] is Escape)
}

/// The shape of every token sequence the tokenizer returns.
pub open spec fn well_formed_tokens(ts: Seq<SpecToken>) -> bool {
    plain_runs_ok(ts) && escape_free(ts)
}

/// What holds after each step of the scan: an escape can only be pending at the end.
spec fn scan_ok(ts: Seq<SpecToken>) -> bool {
    plain_runs_ok(ts) && (ts.len() == 0 || escape_free(ts.drop_last()))
}

proof fn lemma_push_plain_ok(ts: Seq<SpecToken>, c: char)
    requires
        well_formed_tokens(ts),
    ensures
        well_formed_tokens(push_plain(ts, c)),
{
    let r = push_plain(ts, c);
    assert forall|i: int| 0 <= i < r.len() - 1 implies !(#[trigger] r[i] is Plain && r[i + 1] is Plain) by {
        if i + 1 < ts.len() {
            assert(r[i] == ts[i]);
        }
    }
    assert forall|i: int| 0 <= i < r.len() && #[trigger] r[i] is Plain implies r[i]->Plain_0.len() > 0 by {
        if i < ts.len() - 1 || (i == ts.len() - 1 && !(ts.last() is Plain)) {
            assert(r[i] == ts[i]);
        }
    }
    assert forall|i: int| 0 <= i < r.len() implies !(#[trigger] r[i] is Escape) by {
        if i < ts.len() - 1 || (i == ts.len() - 1 && !(ts.last() is Plain)) {
            assert(r[i] == ts[i]);
        }
    }
}

proof fn lemma_marker_ok(ts: Seq<SpecToken>, t: SpecToken)
    requires
        well_formed_tokens(ts),
        !(t is Plain),
    ensures
        scan_ok(ts.push(t)),
        ts.len() > 0 && !(ts.last() is Plain) && !(t is Escape) ==> well_formed_tokens(ts.update(ts.len() - 1, t)),
{
    assert(ts.push(t).drop_last() =~= ts);
    let u = ts.update(ts.len() - 1, t);
    if ts.len() > 0 && !(ts.last() is Plain) && !(t is Escape) {
        assert forall|i: int| 0 <= i < u.len() - 1 implies !(#[trigger] u[i] is Plain && u[i + 1] is Plain) by {
            assert(u[i] == ts[i]);
        }
        assert forall|i: int| 0 <= i < u.len() && #[trigger] u[i] is Plain implies u[i]->Plain_0.len() > 0 by {
            assert(u[i] == ts[i]);
        }
    }
}

proof fn lemma_scan_ok(s: Seq<char>)
    ensures
        scan_ok(scan(s)),
    decreases s.len(),
{
    if s.len() > 0 {
        lemma_scan_ok(s.drop_last());
        let ts = scan(s.drop_last());
        let c = s.last();
        if ts.len() > 0 && ts.last() == SpecToken::Escape {
            let d = ts.drop_last();
            assert forall|i: int| 0 <= i < d.len() - 1 implies !(#[trigger] d[i] is Plain && d[i + 1] is Plain) by {
                assert(d[i] == ts[i] && d[i + 1] == ts[i + 1]);
            }
            assert forall|i: int| 0 <= i < d.len() && #[trigger] d[i] is Plain implies d[i]->Plain_0.len() > 0 by {
                assert(d[i] == ts[i]);
            }
            lemma_push_plain_ok(d, c);
        } else {
            assert(escape_free(ts)) by {
                assert forall|i: int| 0 <= i < ts.len() implies !(#[trigger] ts[i] is Escape) by {
                    if i < ts.len() - 1 {
                        assert(ts.drop_last()[i] == ts[i]);
                    }
                }
            }
            lemma_push_plain_ok(ts, c);
            lemma_marker_ok(ts, SpecToken::Escape);
            lemma_marker_ok(ts, SpecToken::Star);
            lemma_marker_ok(ts, SpecToken::DoubleStar);
            lemma_marker_ok(ts, SpecToken::TripleStar);
            lemma_marker_ok(ts, SpecToken::Quote);
            lemma_marker_ok(ts, SpecToken::DoubleQuote);
            lemma_marker_ok(ts, SpecToken::Strike);
            lemma_marker_ok(ts, SpecToken::DoubleStrike);
            lemma_marker_ok(ts, SpecToken::Equal);
            lemma_marker_ok(ts, SpecToken::DoubleEqual);
            lemma_marker_ok(ts, SpecToken::SquareOpen);
            lemma_marker_ok(ts, SpecToken::SquareClose);
            lemma_marker_ok(ts, SpecToken::CircleOpen);
            lemma_marker_ok(ts, SpecToken::CircleClose);
            lemma_marker_ok(ts, SpecToken::FootnoteOpen);
        }
    }
}

/// Every token sequence of the tokenizer has no two neighbouring plain runs,
/// no empty plain run, and no escape token: escapes are resolved or dropped.
pub proof fn lemma_tokens_well_formed(s: Seq<char>)
    ensures
        well_formed_tokens(spec_tokenize(s)),
{
    lemma_scan_ok(s);
    let ts = scan(s);
    if ts.len() > 0 && ts.last() == SpecToken::Escape {
        let d = ts.drop_last();
        assert forall|i: int| 0 <= i < d.len() - 1 implies !(#[trigger] d[i] is Plain && d[i + 1] is Plain) by {
            assert(d[i] == ts[i] && d[i + 1] == ts[i + 1]);
        }
        assert forall|i: int| 0 <= i < d.len() && #[trigger] d[i] is Plain implies d[i]->Plain_0.len() > 0 by {
            assert(d[i] == ts[i]);
        }
    } else if ts.len() > 0 {
        assert forall|i: int| 0 <= i < ts.len() implies !(#[trigger] ts[i] is Escape) by {
            if i < ts.len() - 1 {
                assert(ts.drop_last()[i] == ts[i]);
            }
        }
    }
}

} // verus!
