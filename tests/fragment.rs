use md_parser::fragment::MdInline::{Bold, InlineString, Italic, LinkUrl};
use md_parser::fragment::{MdInline, MdString, ScopeKind};

#[test]
fn two_text_runs_merge() {
    let mut f = MdString::new();
    f.push(InlineString("ab".to_string()));
    f.push(InlineString("cd".to_string()));
    assert_eq!(f, MdString::from_vec(vec![InlineString("abcd".to_string())]));
}

#[test]
fn many_text_runs_leave_one_node() {
    let mut f = MdString::new();
    for c in ["h", "e", "l", "l", "o"] {
        f.push(InlineString(c.to_string()));
    }
    assert_eq!(f.len(), 1);
    assert_eq!(f, MdString::from_vec(vec![InlineString("hello".to_string())]));
}

#[test]
fn text_after_scope_is_not_merged() {
    let mut f = MdString::new();
    f.push(InlineString("a".to_string()));
    f.push(Bold(MdString::new()));
    f.push(InlineString("b".to_string()));
    assert_eq!(f.len(), 3);
}

#[test]
fn last_mut_changes_last_node() {
    let mut f = MdString::new();
    assert!(f.last_mut().is_none());
    f.push(InlineString("a".to_string()));
    if let Some(last) = f.last_mut() {
        *last = InlineString("z".to_string());
    }
    assert_eq!(f, MdString::from_vec(vec![InlineString("z".to_string())]));
}

#[test]
fn node_surface_text() {
    let n = Bold(MdString::from_vec(vec![
        InlineString("a".to_string()),
        Italic(MdString::from_vec(vec![InlineString("b".to_string())])),
    ]));
    assert_eq!(n.to_string(), "**a*b***");
    let u = LinkUrl(MdString::from_vec(vec![InlineString("x".to_string())]));
    assert_eq!(u.to_string(), "(x]");
}

#[test]
fn escape_flattens_to_text() {
    let mut f = MdString::from_string("a **b**".to_string());
    f.escape();
    assert_eq!(f, MdString::from_vec(vec![InlineString("a **b**".to_string())]));
    let mut e = MdString::new();
    e.escape();
    assert_eq!(e.len(), 0);
}

#[test]
fn scope_and_kind() {
    let n = MdInline::scope(ScopeKind::Footnote, MdString::new());
    assert_eq!(n, MdInline::Footnote(MdString::new()));
    assert_eq!(n.kind(), Some(ScopeKind::Footnote));
    assert_eq!(InlineString("t".to_string()).kind(), None);
}

