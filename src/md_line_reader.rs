//! The line classifier: sorts raw lines by their leading characters, and
//! tracks fenced code blocks across a sequence of lines.
use vstd::prelude::*;
use crate::text::{
    chars_of, find, find_exec, parse_unsigned, starts_with, starts_with_exec, strings_view,
    unsigned_at_most,
};

verus! {

/// The kind of a raw line.
#[derive(Clone, Copy, Debug, PartialEq, Eq, Structural)]
pub enum LineKind {
    Head,
    Quote,
    OList,
    UList,
    Image,
    Table,
    CodeBlock,
    CodeStart,
    CodeEnd,
    Definition,
    TaskLine,
    TabbedLine,
    HR,
    Text,
    EmptyLine,
}

/// A line sorted by its leading characters; most kinds keep the whole line.
#[derive(Debug)]
pub enum MdRawLine {
    /// Starts with `#`.
    Head(String),
    /// Starts with `> `.
    Quote(String),
    /// Starts with a number and a dot.
    OList(String),
    /// Starts with `- `.
    UList(String),
    /// Starts with `![`.
    Image(String),
    /// Starts with `|`.
    Table(String),
    /// A code fence, classified on its own.
    CodeBlock,
    /// A fence that opens a code block in a file.
    CodeStart,
    /// The fence that closes a code block in a file.
    CodeEnd,
    /// Starts with `: `.
    Definition(String),
    /// Starts with `- [ ] ` or `- [X] `.
    TaskLine(String),
    /// Starts with a tab.
    TabbedLine(String),
    /// Starts with `---`.
    HR,
    Text(String),
    /// Starts with a line feed.
    EmptyLine,
}

impl MdRawLine {
    /// The kind of the line and the text it keeps (empty for kinds that keep none).
    pub open spec fn view(&self) -> (LineKind, Seq<char>) {
        match self {
            MdRawLine::Head(s) => (LineKind::Head, s@),
            MdRawLine::Quote(s) => (LineKind::Quote, s@),
            MdRawLine::OList(s) => (LineKind::OList, s@),
            MdRawLine::UList(s) => (LineKind::UList, s@),
            MdRawLine::Image(s) => (LineKind::Image, s@),
            MdRawLine::Table(s) => (LineKind::Table, s@),
            MdRawLine::CodeBlock => (LineKind::CodeBlock, Seq::empty()),
            MdRawLine::CodeStart => (LineKind::CodeStart, Seq::empty()),
            MdRawLine::CodeEnd => (LineKind::CodeEnd, Seq::empty()),
            MdRawLine::Definition(s) => (LineKind::Definition, s@),
            MdRawLine::TaskLine(s) => (LineKind::TaskLine, s@),
            MdRawLine::TabbedLine(s) => (LineKind::TabbedLine, s@),
            MdRawLine::HR => (LineKind::HR, Seq::empty()),
            MdRawLine::Text(s) => (LineKind::Text, s@),
            MdRawLine::EmptyLine => (LineKind::EmptyLine, Seq::empty()),
        }
    }
}

/// The models of a sequence of raw lines.
pub open spec fn raw_lines_view(v: Seq<MdRawLine>) -> Seq<(LineKind, Seq<char>)> {
    v.map_values(|l: MdRawLine| l@)
}

/// The text before the first `.`, or the whole line when it has none.
pub open spec fn before_dot(s: Seq<char>) -> Seq<char> {
    match find(s, seq!['.']) {
        Some(k) => s.subrange(0, k as int),
        None => s,
    }
}

/// The text before the first `.` parses as a `u32`.
pub open spec fn ordered_list_pattern(s: Seq<char>) -> bool {
    unsigned_at_most(before_dot(s), 0xffff_ffff) is Some
}

/// A code fence.
pub open spec fn fence() -> Seq<char> {
    seq!['`', '`', '`']
}

/// How a single line is classified, the first match winning.
pub open spec fn classify(s: Seq<char>) -> (LineKind, Seq<char>) {
    if starts_with(s, seq!['#']) {
        (LineKind::Head, s)
    } else if starts_with(s, seq!['>', ' ']) {
        (LineKind::Quote, s)
    } else if starts_with(s, seq!['-', ' ', '[', ' ', ']', ' ']) || starts_with(s, seq!['-', ' ', '[', 'X', ']', ' ']) {
        (LineKind::TaskLine, s)
    } else if ordered_list_pattern(s) {
        (LineKind::OList, s)
    } else if starts_with(s, seq!['-', ' ']) {
        (LineKind::UList, s)
    } else if starts_with(s, seq!['-', '-', '-']) {
        (LineKind::HR, Seq::empty())
    } else if starts_with(s, seq!['!', '[']) {
        (LineKind::Image, s)
    } else if starts_with(s, seq!['|']) {
        (LineKind::Table, s)
    } else if starts_with(s, fence()) {
        (LineKind::CodeBlock, Seq::empty())
    } else if starts_with(s, seq![':', ' ']) {
        (LineKind::Definition, s)
    } else if starts_with(s, seq!['\t']) {
        (LineKind::TabbedLine, s)
    } else if starts_with(s, seq!['\n']) {
        (LineKind::EmptyLine, Seq::empty())
    } else {
        (LineKind::Text, s)
    }
}

/// How a line of a file outside a code block is classified: as `classify`
/// does, except that a fence opens a block and a tab does not count.
pub open spec fn classify_in_file(s: Seq<char>) -> (LineKind, Seq<char>) {
    let c = classify(s);
    if c.0 == LineKind::CodeBlock {
        (LineKind::CodeStart, Seq::empty())
    } else if c.0 == LineKind::TabbedLine {
        (LineKind::Text, s)
    } else {
        c
    }
}

/// Classifies the lines of a file in order: inside a code block every line
/// is text until a fence closes it. Also says whether a block is still open
/// after them.
pub open spec fn classify_lines(lines: Seq<Seq<char>>) -> (Seq<(LineKind, Seq<char>)>, bool)
    decreases lines.len(),
{
    if lines.len() == 0 {
        (Seq::empty(), false)
    } else {
        let prev = classify_lines(lines.drop_last());
        let l = lines.last();
        if prev.1 {
            if starts_with(l, fence()) {
                (prev.0.push((LineKind::CodeEnd, Seq::empty())), false)
            } else {
                (prev.0.push((LineKind::Text, l)), true)
            }
        } else {
            (prev.0.push(classify_in_file(l)), classify_in_file(l).0 == LineKind::CodeStart)
        }
    }
}

/// Whether the text before the first `.` of the line is a number that fits a `u32`.
pub fn starts_with_ordered_list_pattern(line: &String) -> (r: bool)
    ensures
        r == ordered_list_pattern(line@),
{
    let cs = chars_of(line.as_str());
    let dot: &[char] = &['.'];
    let end = match find_exec(&cs, dot) {
        Some(k) => k,
        None => cs.len(),
    };
    assert(dot@ == seq!['.']);
    proof {
        if find(cs@, seq!['.']) is None {
            assert(cs@.subrange(0, cs@.len() as int) =~= cs@);
        }
    }
    assert(cs@.subrange(0, end as int) == before_dot(line@));
    parse_unsigned(&cs, 0, end, 0xffff_ffff).is_some()
}

/// Sorts one line, outside any code block, by its leading characters.
pub fn to_mdline(line: String) -> (r: MdRawLine)
    ensures
        r@ == classify(line@),
{
    let cs = chars_of(line.as_str());
    let hash: &[char] = &['#'];
    assert(hash@ == seq!['#']);
    let quote: &[char] = &['>', ' '];
    assert(quote@ == seq!['>', ' ']);
    let dash: &[char] = &['-', ' '];
    assert(dash@ == seq!['-', ' ']);
    let rule: &[char] = &['-', '-', '-'];
    assert(rule@ == seq!['-', '-', '-']);
    let image: &[char] = &['!', '['];
    assert(image@ == seq!['!', '[']);
    let pipe: &[char] = &['|'];
    assert(pipe@ == seq!['|']);
    let backquotes: &[char] = &['`', '`', '`'];
    assert(backquotes@ == fence());
    let colon: &[char] = &[':', ' '];
    assert(colon@ == seq![':', ' ']);
    let tab: &[char] = &['\t'];
    assert(tab@ == seq!['\t']);
    let newline: &[char] = &['\n'];
    assert(newline@ == seq!['\n']);
    if starts_with_exec(&cs, hash) {
        MdRawLine::Head(line)
    } else if starts_with_exec(&cs, quote) {
        MdRawLine::Quote(line)
    } else if starts_with_exec(&cs, &['-', ' ', '[', ' ', ']', ' ']) || starts_with_exec(&cs, &['-', ' ', '[', 'X', ']', ' ']) {
        MdRawLine::TaskLine(line)
    } else if starts_with_ordered_list_pattern(&line) {
        MdRawLine::OList(line)
    } else if starts_with_exec(&cs, dash) {
        MdRawLine::UList(line)
    } else if starts_with_exec(&cs, rule) {
        MdRawLine::HR
    } else if starts_with_exec(&cs, image) {
        MdRawLine::Image(line)
    } else if starts_with_exec(&cs, pipe) {
        MdRawLine::Table(line)
    } else if starts_with_exec(&cs, backquotes) {
        MdRawLine::CodeBlock
    } else if starts_with_exec(&cs, colon) {
        MdRawLine::Definition(line)
    } else if starts_with_exec(&cs, tab) {
        MdRawLine::TabbedLine(line)
    } else if starts_with_exec(&cs, newline) {
        MdRawLine::EmptyLine
    } else {
        MdRawLine::Text(line)
    }
}

/// Sorts each line on its own.
pub fn to_mdlines(lines: Vec<String>) -> (r: Vec<MdRawLine>)
    ensures
        r@.len() == lines@.len(),
        forall|i: int| 0 <= i < lines@.len() ==> (#[trigger] r@[i])@ == classify(lines@[i]@),
{
    let mut r: Vec<MdRawLine> = Vec::new();
    let mut i: usize = 0;
    while i < lines.len()
        invariant
            i <= lines@.len(),
            r@.len() == i,
            forall|j: int| 0 <= j < i ==> (#[trigger] r@[j])@ == classify(lines@[j]@),
        decreases lines@.len() - i,
    {
        r.push(to_mdline(lines[i].clone()));
        i = i + 1;
    }
    r
}

/// Sorts a line of a file that stands outside any code block.
pub fn to_mdline_in_file(line: String) -> (r: MdRawLine)
    ensures
        r@ == classify_in_file(line@),
{
    match to_mdline(line) {
        MdRawLine::CodeBlock => MdRawLine::CodeStart,
        MdRawLine::TabbedLine(s) => MdRawLine::Text(s),
        other => other,
    }
}

/// Sorts the lines of a file in order, keeping the lines of a fenced code
/// block as text.
pub fn to_mdlines_in_file(lines: Vec<String>) -> (r: Vec<MdRawLine>)
    ensures
        raw_lines_view(r@) == classify_lines(strings_view(lines@)).0,
{
    let ghost all = strings_view(lines@);
    let mut r: Vec<MdRawLine> = Vec::new();
    let mut in_code_block = false;
    let mut i: usize = 0;
    while i < lines.len()
        invariant
            i <= lines@.len(),
            all == strings_view(lines@),
            classify_lines(all.subrange(0, i as int)) == (raw_lines_view(r@), in_code_block),
        decreases lines@.len() - i,
    {
        assert(all.subrange(0, i + 1).drop_last() =~= all.subrange(0, i as int));
        let line = lines[i].clone();
        let ghost before = r@;
        if in_code_block {
            let cs = chars_of(line.as_str());
            if starts_with_exec(&cs, &['`', '`', '`']) {
                in_code_block = false;
                r.push(MdRawLine::CodeEnd);
            } else {
                r.push(MdRawLine::Text(line));
            }
        } else {
            let l = to_mdline_in_file(line);
            in_code_block = matches!(l, MdRawLine::CodeStart);
            r.push(l);
        }
        assert(raw_lines_view(r@) =~= raw_lines_view(before).push(r@.last()@));
        i = i + 1;
    }
    assert(all.subrange(0, i as int) =~= all);
    r
}

} // verus!
