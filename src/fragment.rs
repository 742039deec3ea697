//! The document fragment: an ordered sequence of inline nodes in which no two
//! neighbouring elements are both text runs.
use vstd::prelude::*;
use crate::inline_tokens::{surface, SpecToken};

verus! {

/// Which composite node a scope produces.
#[derive(Clone, Copy, Debug, PartialEq, Eq, Structural)]
pub enum ScopeKind {
    Bold,
    Italic,
    BoldItalic,
    Code,
    Strike,
    Highlight,
    Sub,
    Super,
    LinkText,
    LinkUrl,
    Footnote,
}

/// Model of a node: a scope of some kind owning a fragment, or a text run.
pub enum SpecNode {
    Scope(ScopeKind, Seq<SpecNode>),
    Text(Seq<char>),
}

/// One node of the inline tree.
#[derive(Debug, PartialEq)]
pub enum MdInline {
    Bold(MdString),
    Italic(MdString),
    BoldItalic(MdString),
    Code(MdString),
    Strike(MdString),
    Highlight(MdString),
    Sub(MdString),
    Super(MdString),
    LinkText(MdString),
    LinkUrl(MdString),
    Footnote(MdString),
    InlineString(String),
}

/// A fragment: the nodes of one scope, left to right.
#[derive(Debug, PartialEq)]
pub struct MdString {
    string: Vec<MdInline>,
}

impl MdInline {
    pub open spec fn view(&self) -> SpecNode
        decreases self,
    {
        match self {
            MdInline::Bold(s) => SpecNode::Scope(ScopeKind::Bold, s.view()),
            MdInline::Italic(s) => SpecNode::Scope(ScopeKind::Italic, s.view()),
            MdInline::BoldItalic(s) => SpecNode::Scope(ScopeKind::BoldItalic, s.view()),
            MdInline::Code(s) => SpecNode::Scope(ScopeKind::Code, s.view()),
            MdInline::Strike(s) => SpecNode::Scope(ScopeKind::Strike, s.view()),
            MdInline::Highlight(s) => SpecNode::Scope(ScopeKind::Highlight, s.view()),
            MdInline::Sub(s) => SpecNode::Scope(ScopeKind::Sub, s.view()),
            MdInline::Super(s) => SpecNode::Scope(ScopeKind::Super, s.view()),
            MdInline::LinkText(s) => SpecNode::Scope(ScopeKind::LinkText, s.view()),
            MdInline::LinkUrl(s) => SpecNode::Scope(ScopeKind::LinkUrl, s.view()),
            MdInline::Footnote(s) => SpecNode::Scope(ScopeKind::Footnote, s.view()),
            MdInline::InlineString(t) => SpecNode::Text(t@),
        }
    }

    /// The node of kind `kind` owning `body`.
    pub fn scope(kind: ScopeKind, body: MdString) -> (r: MdInline)
        ensures
            r@ == SpecNode::Scope(kind, body@),
    {
        match kind {
            ScopeKind::Bold => MdInline::Bold(body),
            ScopeKind::Italic => MdInline::Italic(body),
            ScopeKind::BoldItalic => MdInline::BoldItalic(body),
            ScopeKind::Code => MdInline::Code(body),
            ScopeKind::Strike => MdInline::Strike(body),
            ScopeKind::Highlight => MdInline::Highlight(body),
            ScopeKind::Sub => MdInline::Sub(body),
            ScopeKind::Super => MdInline::Super(body),
            ScopeKind::LinkText => MdInline::LinkText(body),
            ScopeKind::LinkUrl => MdInline::LinkUrl(body),
            ScopeKind::Footnote => MdInline::Footnote(body),
        }
    }

    /// The kind of a composite node; `None` for a text run.
    pub fn kind(&self) -> (r: Option<ScopeKind>)
        ensures
            r == (match self@ {
                SpecNode::Scope(k, _) => Some(k),
                SpecNode::Text(_) => None,
            }),
    {
        match self {
            MdInline::Bold(_) => Some(ScopeKind::Bold),
            MdInline::Italic(_) => Some(ScopeKind::Italic),
            MdInline::BoldItalic(_) => Some(ScopeKind::BoldItalic),
            MdInline::Code(_) => Some(ScopeKind::Code),
            MdInline::Strike(_) => Some(ScopeKind::Strike),
            MdInline::Highlight(_) => Some(ScopeKind::Highlight),
            MdInline::Sub(_) => Some(ScopeKind::Sub),
            MdInline::Super(_) => Some(ScopeKind::Super),
            MdInline::LinkText(_) => Some(ScopeKind::LinkText),
            MdInline::LinkUrl(_) => Some(ScopeKind::LinkUrl),
            MdInline::Footnote(_) => Some(ScopeKind::Footnote),
            MdInline::InlineString(_) => None,
        }
    }

    /// The literal surface text of the node.
    pub fn to_string(&self) -> (r: String)
        ensures
            r@ == render_node(self@),
    {
        let mut r = String::new();
        self.render_into(&mut r);
        assert(r@ =~= render_node(self@));
        r
    }

    /// Adds the surface text of the node to `out`.
    fn render_into(&self, out: &mut String)
        ensures
            final(out)@ == old(out)@ + render_node(self@),
        decreases self,
    {
        match self {
            MdInline::InlineString(t) => {
                out.append(t.as_str());
            },
            MdInline::Bold(s) | MdInline::Italic(s) | MdInline::BoldItalic(s) | MdInline::Code(s)
            | MdInline::Strike(s) | MdInline::Highlight(s) | MdInline::Sub(s) | MdInline::Super(s)
            | MdInline::LinkText(s) | MdInline::LinkUrl(s) | MdInline::Footnote(s) => {
                let ghost start = out@;
                let k = self.kind().unwrap();
                let open = opener_text(k);
                out.append(open.as_str());
                s.render_into(out);
                let close = closer_text(k);
                out.append(close.as_str());
                assert(out@ =~= start + render_node(self@));
            },
        }
    }
}

/// The surface text of the token that opens a scope of kind `k`.
fn opener_text(k: ScopeKind) -> (r: String)
    ensures
        r@ == surface(opener(k)),
{
    let t = match k {
        ScopeKind::Bold => crate::inline_tokens::InlineToken::DoubleStar,
        ScopeKind::Italic => crate::inline_tokens::InlineToken::Star,
        ScopeKind::BoldItalic => crate::inline_tokens::InlineToken::TripleStar,
        ScopeKind::Code => crate::inline_tokens::InlineToken::Quote,
        ScopeKind::Strike => crate::inline_tokens::InlineToken::DoubleStrike,
        ScopeKind::Highlight => crate::inline_tokens::InlineToken::DoubleEqual,
        ScopeKind::Sub => crate::inline_tokens::InlineToken::Carat,
        ScopeKind::Super => crate::inline_tokens::InlineToken::Strike,
        ScopeKind::LinkText => crate::inline_tokens::InlineToken::SquareOpen,
        ScopeKind::LinkUrl => crate::inline_tokens::InlineToken::CircleOpen,
        ScopeKind::Footnote => crate::inline_tokens::InlineToken::FootnoteOpen,
    };
    t.to_string()
}

/// The surface text of the token that closes a scope of kind `k`.
fn closer_text(k: ScopeKind) -> (r: String)
    ensures
        r@ == surface(closer(k)),
{
    let t = match k {
        ScopeKind::Bold => crate::inline_tokens::InlineToken::DoubleStar,
        ScopeKind::Italic => crate::inline_tokens::InlineToken::Star,
        ScopeKind::BoldItalic => crate::inline_tokens::InlineToken::TripleStar,
        ScopeKind::Code => crate::inline_tokens::InlineToken::Quote,
        ScopeKind::Strike => crate::inline_tokens::InlineToken::DoubleStrike,
        ScopeKind::Highlight => crate::inline_tokens::InlineToken::DoubleEqual,
        ScopeKind::Sub => crate::inline_tokens::InlineToken::Carat,
        ScopeKind::Super => crate::inline_tokens::InlineToken::Strike,
        ScopeKind::LinkText | ScopeKind::LinkUrl | ScopeKind::Footnote => crate::inline_tokens::InlineToken::SquareClose,
    };
    t.to_string()
}

/// The token that opens a scope of kind `k` (a code span is written with one backquote).
pub open spec fn opener(k: ScopeKind) -> SpecToken {
    match k {
        ScopeKind::Bold => SpecToken::DoubleStar,
        ScopeKind::Italic => SpecToken::Star,
        ScopeKind::BoldItalic => SpecToken::TripleStar,
        ScopeKind::Code => SpecToken::Quote,
        ScopeKind::Strike => SpecToken::DoubleStrike,
        ScopeKind::Highlight => SpecToken::DoubleEqual,
        ScopeKind::Sub => SpecToken::Carat,
        ScopeKind::Super => SpecToken::Strike,
        ScopeKind::LinkText => SpecToken::SquareOpen,
        ScopeKind::LinkUrl => SpecToken::CircleOpen,
        ScopeKind::Footnote => SpecToken::FootnoteOpen,
    }
}

/// The token that closes a scope of kind `k`.
pub open spec fn closer(k: ScopeKind) -> SpecToken {
    match k {
        ScopeKind::LinkText | ScopeKind::LinkUrl | ScopeKind::Footnote => SpecToken::SquareClose,
        _ => opener(k),
    }
}

/// The surface text of a node.
pub open spec fn render_node(n: SpecNode) -> Seq<char>
    decreases n,
{
    match n {
        SpecNode::Text(t) => t,
        SpecNode::Scope(k, body) => surface(opener(k)) + render_nodes(body) + surface(closer(k)),
    }
}

/// The surface text of a fragment: its nodes' texts, left to right.
pub open spec fn render_nodes(ns: Seq<SpecNode>) -> Seq<char>
    decreases ns,
{
    if ns.len() == 0 {
        Seq::empty()
    } else {
        render_nodes(ns.subrange(0, ns.len() - 1)) + render_node(ns[ns.len() - 1])
    }
}

/// The models of a sequence of nodes.
pub open spec fn nodes_view(v: Seq<MdInline>) -> Seq<SpecNode>
    decreases v,
{
    if v.len() == 0 {
        Seq::empty()
    } else {
        nodes_view(v.subrange(0, v.len() - 1)).push(v[v.len() - 1].view())
    }
}

/// `nodes_view` maps each node to its model.
pub proof fn lemma_nodes_view(v: Seq<MdInline>)
    ensures
        nodes_view(v).len() == v.len(),
        forall|i: int| 0 <= i < v.len() ==> #[trigger] nodes_view(v)[i] == v[i]@,
    decreases v.len(),
{
    if v.len() > 0 {
        lemma_nodes_view(v.subrange(0, v.len() - 1));
    }
}

/// Appends a node to a fragment: a text run after a text run extends it in place.
pub open spec fn append_node(frag: Seq<SpecNode>, n: SpecNode) -> Seq<SpecNode> {
    if n is Text && frag.len() > 0 && frag.last() is Text {
        frag.update(frag.len() - 1, SpecNode::Text(frag.last()->Text_0 + n->Text_0))
    } else {
        frag.push(n)
    }
}

/// No two neighbouring nodes are both text runs.
pub open spec fn coalesced(frag: Seq<SpecNode>) -> bool {
    forall|i: int| 0 <= i < frag.len() - 1 ==> !(#[trigger] frag[i] is Text && frag[i + 1] is Text)
}

/// The fragment that `escape` leaves: one text run holding the surface text, if any.
pub open spec fn escaped(frag: Seq<SpecNode>) -> Seq<SpecNode> {
    if render_nodes(frag).len() == 0 {
        Seq::empty()
    } else {
        seq![SpecNode::Text(render_nodes(frag))]
    }
}

impl MdString {
    pub closed spec fn view(&self) -> Seq<SpecNode>
        decreases self,
    {
        nodes_view(self.string@)
    }

    /// An empty fragment.
    pub fn new() -> (r: MdString)
        ensures
            r@ == Seq::<SpecNode>::empty(),
    {
        MdString { string: Vec::new() }
    }

    /// A fragment holding exactly the given nodes.
    pub fn from_vec(nodes: Vec<MdInline>) -> (r: MdString)
        ensures
            r@ == nodes_view(nodes@),
    {
        MdString { string: nodes }
    }

    /// The number of nodes.
    pub fn len(&self) -> (r: usize)
        ensures
            r == self@.len(),
    {
        proof {
            lemma_nodes_view(self.string@);
        }
        self.string.len()
    }

    /// Appends a node; a text run after a text run is merged into it.
    pub fn push(&mut self, val: MdInline)
        ensures
            final(self)@ == append_node(old(self)@, val@),
    {
        let ghost before = self.string@;
        proof {
            lemma_nodes_view(before);
        }
        match val {
            MdInline::InlineString(t) => {
                match self.string.pop() {
                    Some(MdInline::InlineString(mut s)) => {
                        s.append(t.as_str());
                        self.string.push(MdInline::InlineString(s));
                    },
                    Some(other) => {
                        self.string.push(other);
                        self.string.push(MdInline::InlineString(t));
                    },
                    None => {
                        self.string.push(MdInline::InlineString(t));
                    },
                }
            },
            other => {
                self.string.push(other);
            },
        }
        proof {
            lemma_nodes_view(self.string@);
            assert(nodes_view(self.string@) =~= append_node(nodes_view(before), val@));
        }
    }

    /// The last node, for changing it in place.
    pub fn last_mut(&mut self) -> (r: Option<&mut MdInline>)
        ensures
            old(self)@.len() == 0 ==> r is None && final(self)@ == old(self)@,
            old(self)@.len() > 0 ==> r is Some && (*r->0)@ == old(self)@.last()
                && final(self)@ == old(self)@.update(old(self)@.len() - 1, (*final(r->0))@),
    {
        proof {
            lemma_nodes_view(self.string@);
        }
        let r = self.string.last_mut();
        proof {
            lemma_nodes_view(after_borrow(self.string)@);
        }
        r
    }

    /// The literal surface text of the fragment.
    pub fn to_string(&self) -> (r: String)
        ensures
            r@ == render_nodes(self@),
    {
        let mut r = String::new();
        self.render_into(&mut r);
        assert(r@ =~= render_nodes(self@));
        r
    }

    /// Adds the surface text of the fragment to `out`.
    fn render_into(&self, out: &mut String)
        ensures
            final(out)@ == old(out)@ + render_nodes(self@),
        decreases self,
    {
        let ghost start = out@;
        proof {
            lemma_nodes_view(self.string@);
        }
        let mut i: usize = 0;
        while i < self.string.len()
            invariant
                i <= self.string@.len(),
                nodes_view(self.string@).len() == self.string@.len(),
                forall|j: int| 0 <= j < self.string@.len() ==> #[trigger] nodes_view(self.string@)[j] == self.string@[j]@,
                out@ == start + render_nodes(nodes_view(self.string@).subrange(0, i as int)),
            decreases self.string@.len() - i,
        {
            assert(decreases_to!(self => self.string@[i as int]));
            self.string[i].render_into(out);
            let ghost ns = nodes_view(self.string@);
            assert(ns.subrange(0, i + 1).subrange(0, i as int) =~= ns.subrange(0, i as int));
            i = i + 1;
        }
        assert(nodes_view(self.string@).subrange(0, i as int) =~= self@);
    }

    /// Turns the fragment into literal text: afterwards it holds one text run
    /// with its surface text, or nothing when that text is empty.
    pub fn escape(&mut self)
        ensures
            final(self)@ == escaped(old(self)@),
    {
        let text = self.to_string();
        self.string = Vec::new();
        if !text.as_str().is_empty() {
            self.string.push(MdInline::InlineString(text));
        }
        proof {
            lemma_nodes_view(self.string@);
            assert(self@ =~= escaped(old(self)@));
        }
    }
}

} // verus!

verus! {

/// Appends the text runs `runs` one after another.
pub open spec fn append_texts(frag: Seq<SpecNode>, runs: Seq<Seq<char>>) -> Seq<SpecNode>
    decreases runs.len(),
{
    if runs.len() == 0 {
        frag
    } else {
        append_node(append_texts(frag, runs.drop_last()), SpecNode::Text(runs.last()))
    }
}

/// Appending two text runs in sequence gives the same fragment as appending
/// their concatenation once: the second is merged into the first.
pub proof fn lemma_text_runs_merge(frag: Seq<SpecNode>, a: Seq<char>, b: Seq<char>)
    ensures
        append_node(append_node(frag, SpecNode::Text(a)), SpecNode::Text(b))
            == append_node(frag, SpecNode::Text(a + b)),
        append_node(append_node(frag, SpecNode::Text(a)), SpecNode::Text(b)).len()
            == append_node(frag, SpecNode::Text(a)).len(),
{
    if frag.len() > 0 && frag.last() is Text {
        assert(frag.last()->Text_0 + a + b =~= frag.last()->Text_0 + (a + b));
    }
    assert(append_node(append_node(frag, SpecNode::Text(a)), SpecNode::Text(b))
        =~= append_node(frag, SpecNode::Text(a + b)));
}

/// Appending any number (at least one) of text runs to an empty fragment
/// leaves exactly one element: a text run holding them all, in order.
pub proof fn lemma_text_runs_coalesce(runs: Seq<Seq<char>>)
    requires
        runs.len() > 0,
    ensures
        append_texts(Seq::empty(), runs) == seq![SpecNode::Text(runs.flatten())],
        append_texts(Seq::empty(), runs).len() == 1,
    decreases runs.len(),
{
    let init = runs.drop_last();
    assert(init.push(runs.last()) =~= runs);
    init.lemma_flatten_push(runs.last());
    if runs.len() == 1 {
        assert(init.flatten() =~= Seq::<char>::empty());
        assert(runs.flatten() =~= runs.last());
    } else {
        lemma_text_runs_coalesce(init);
    }
    assert(append_texts(Seq::empty(), runs) =~= seq![SpecNode::Text(runs.flatten())]);
}

/// Appending keeps a fragment free of neighbouring text runs.
pub proof fn lemma_append_keeps_coalesced(frag: Seq<SpecNode>, n: SpecNode)
    requires
        coalesced(frag),
    ensures
        coalesced(append_node(frag, n)),
{
    let r = append_node(frag, n);
    assert forall|i: int| 0 <= i < r.len() - 1 implies !(#[trigger] r[i] is Text && r[i + 1] is Text) by {
        if i + 1 < frag.len() {
            assert(r[i] == frag[i]);
            assert(frag[i + 1] is Text ==> !(frag[i] is Text));
        }
    }
}

} // verus!

verus! {

/// A fragment free of neighbouring text runs at every depth.
pub open spec fn well_formed_fragment(ns: Seq<SpecNode>) -> bool
    decreases ns,
{
    &&& coalesced(ns)
    &&& forall|i: int|
        0 <= i < ns.len() ==> match #[trigger] ns[i] {
            SpecNode::Scope(_, body) => well_formed_fragment(body),
            SpecNode::Text(_) => true,
        }
}

/// Appending a text run, or a scope whose body is well formed, keeps a
/// fragment well formed.
pub proof fn lemma_append_well_formed(frag: Seq<SpecNode>, n: SpecNode)
    requires
        well_formed_fragment(frag),
        n matches SpecNode::Scope(_, body) ==> well_formed_fragment(body),
    ensures
        well_formed_fragment(append_node(frag, n)),
{
    lemma_append_keeps_coalesced(frag, n);
    let r = append_node(frag, n);
    assert forall|i: int| 0 <= i < r.len() implies match #[trigger] r[i] {
        SpecNode::Scope(_, body) => well_formed_fragment(body),
        SpecNode::Text(_) => true,
    } by {
        if i < frag.len() && r[i] != frag[i] {
            assert(r[i] is Text);
        }
    }
}

} // verus!
