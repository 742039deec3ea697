//! The purifier: refines a classified line into its parts (a heading's level,
//! title and id, a list item's number and text, a table row's cells, ...).
//! A line whose shape does not hold up becomes `FailedText`.
use vstd::prelude::*;
use crate::md_line_reader::{classify_in_file, to_mdline_in_file, LineKind, MdRawLine};
use crate::text::{
    chars_for_bytes, chars_for_bytes_exec, chars_in, chars_of, find, find_exec, lemma_find_occurs,
    occurs_at, parse_unsigned, split_exec, split_on, starts_with, starts_with_exec, string_of,
    strings_view, trim, trim_at, trim_end, trim_end_at, unsigned_at_most, utf8_len,
    utf8_len_mod_256, utf8_width, utf8_width_exec,
};

verus! {

/// A line refined into its parts.
#[derive(Debug, PartialEq)]
pub enum PurifiedMdLine {
    Head { title: String, level: u8, id: String },
    Quote { nest_level: u8, inside_md: Box<PurifiedMdLine> },
    OList { list_number: u8, list_text: String },
    UList { list_text: String },
    Image { alt_text: String, link_text: String },
    Table { row: Vec<String> },
    Definition { def_text: String },
    TaskedLine { task_text: String, done: bool },
    TabbedLine(String),
    FailedText(String),
    EmptyLine,
    CodeStart,
    CodeEnd,
    HR,
    Text(String),
}

/// Model of a refined line: text as character sequences.
pub enum SpecPurified {
    Head { title: Seq<char>, level: u8, id: Seq<char> },
    Quote { nest_level: u8, inside_md: Box<SpecPurified> },
    OList { list_number: u8, list_text: Seq<char> },
    UList { list_text: Seq<char> },
    Image { alt_text: Seq<char>, link_text: Seq<char> },
    Table { row: Seq<Seq<char>> },
    Definition { def_text: Seq<char> },
    TaskedLine { task_text: Seq<char>, done: bool },
    TabbedLine(Seq<char>),
    FailedText(Seq<char>),
    EmptyLine,
    CodeStart,
    CodeEnd,
    HR,
    Text(Seq<char>),
}

impl PurifiedMdLine {
    pub open spec fn view(&self) -> SpecPurified
        decreases self,
    {
        match self {
            PurifiedMdLine::Head { title, level, id } => SpecPurified::Head { title: title@, level: *level, id: id@ },
            PurifiedMdLine::Quote { nest_level, inside_md } => SpecPurified::Quote {
                nest_level: *nest_level,
                inside_md: Box::new((**inside_md).view()),
            },
            PurifiedMdLine::OList { list_number, list_text } => SpecPurified::OList {
                list_number: *list_number,
                list_text: list_text@,
            },
            PurifiedMdLine::UList { list_text } => SpecPurified::UList { list_text: list_text@ },
            PurifiedMdLine::Image { alt_text, link_text } => SpecPurified::Image {
                alt_text: alt_text@,
                link_text: link_text@,
            },
            PurifiedMdLine::Table { row } => SpecPurified::Table { row: strings_view(row@) },
            PurifiedMdLine::Definition { def_text } => SpecPurified::Definition { def_text: def_text@ },
            PurifiedMdLine::TaskedLine { task_text, done } => SpecPurified::TaskedLine {
                task_text: task_text@,
                done: *done,
            },
            PurifiedMdLine::TabbedLine(s) => SpecPurified::TabbedLine(s@),
            PurifiedMdLine::FailedText(s) => SpecPurified::FailedText(s@),
            PurifiedMdLine::EmptyLine => SpecPurified::EmptyLine,
            PurifiedMdLine::CodeStart => SpecPurified::CodeStart,
            PurifiedMdLine::CodeEnd => SpecPurified::CodeEnd,
            PurifiedMdLine::HR => SpecPurified::HR,
            PurifiedMdLine::Text(s) => SpecPurified::Text(s@),
        }
    }
}

/// The text before the first space, or all of `s` when it has none.
pub open spec fn before_space(s: Seq<char>) -> Seq<char> {
    match find(s, seq![' ']) {
        Some(k) => s.subrange(0, k as int),
        None => s,
    }
}

/// A word `{#id}` that gives a heading its id.
pub open spec fn is_id_word(w: Seq<char>) -> bool {
    starts_with(w, seq!['{', '#']) && w.last() == '}'
}

/// The heading words up to an id word: each followed by a space, then the
/// id (empty when there is no id word).
pub open spec fn head_words(words: Seq<Seq<char>>) -> (Seq<char>, Seq<char>)
    decreases words.len(),
{
    if words.len() == 0 {
        (Seq::empty(), Seq::empty())
    } else if is_id_word(words[0]) {
        (Seq::empty(), words[0].subrange(2, words[0].len() - 1))
    } else {
        let rest = head_words(words.drop_first());
        (words[0] + seq![' '] + rest.0, rest.1)
    }
}

/// A heading: one to six `#` up to the first space (or the end), then the
/// title words, and optionally a word `{#id}`, after which nothing counts.
pub open spec fn head_of(s: Seq<char>) -> SpecPurified {
    let marks = before_space(s);
    if !(forall|i: int| 0 <= i < marks.len() ==> marks[i] == '#') || marks.len() < 1 || marks.len() > 6 {
        SpecPurified::FailedText(s)
    } else {
        let words = head_words(split_on(s, ' ').drop_first());
        SpecPurified::Head { title: trim_end(words.0), level: marks.len() as u8, id: words.1 }
    }
}

/// A quote: the UTF-8 length in bytes of the text before the first space,
/// kept modulo 256, gives the nesting level; what follows that space is
/// classified as a line of a file and refined again.
pub open spec fn quote_of(s: Seq<char>) -> SpecPurified
    decreases s.len(), 0nat,
{
    match find(s, seq![' ']) {
        Some(k) => {
            proof {
                lemma_find_occurs(s, seq![' ']);
            }
            SpecPurified::Quote {
                nest_level: (utf8_len(s.subrange(0, k as int)) % 256) as u8,
                inside_md: Box::new(purified(classify_in_file(s.subrange(k as int + 1, s.len() as int)))),
            }
        },
        None => SpecPurified::FailedText(s),
    }
}

/// A numbered item: a number that fits a `u8` before the first `. `, then the text.
pub open spec fn olist_of(s: Seq<char>) -> SpecPurified {
    match find(s, seq!['.', ' ']) {
        Some(k) => match unsigned_at_most(s.subrange(0, k as int), 255) {
            Some(n) => SpecPurified::OList { list_number: n as u8, list_text: s.subrange(k as int + 2, s.len() as int) },
            None => SpecPurified::FailedText(s),
        },
        None => SpecPurified::FailedText(s),
    }
}

/// A bulleted item: the text after the first space.
pub open spec fn ulist_of(s: Seq<char>) -> SpecPurified {
    match find(s, seq![' ']) {
        Some(k) => SpecPurified::UList { list_text: s.subrange(k as int + 1, s.len() as int) },
        None => SpecPurified::FailedText(s),
    }
}

/// An image `![alt](link)`, trimmed: split at the first `](`; the first two
/// bytes and the last byte are markup. It fails where one of those bytes
/// is part of a longer character, or the link part is too short.
pub open spec fn image_of(s: Seq<char>) -> SpecPurified {
    let t = trim(s);
    match find(t, seq![']', '(']) {
        Some(k) => match chars_for_bytes(t.subrange(0, k as int), 2) {
            Some(a) => {
                if t.len() < k + 3 || utf8_width(t.last()) != 1 {
                    SpecPurified::FailedText(s)
                } else {
                    SpecPurified::Image {
                        alt_text: trim(t.subrange(a as int, k as int)),
                        link_text: trim(t.subrange(k as int + 2, t.len() - 1)),
                    }
                }
            },
            None => SpecPurified::FailedText(s),
        },
        None => SpecPurified::FailedText(s),
    }
}

/// The pieces that are not empty, in order.
pub open spec fn non_empty(pieces: Seq<Seq<char>>) -> Seq<Seq<char>>
    decreases pieces.len(),
{
    if pieces.len() == 0 {
        Seq::empty()
    } else if pieces.last().len() == 0 {
        non_empty(pieces.drop_last())
    } else {
        non_empty(pieces.drop_last()).push(pieces.last())
    }
}

/// A table row: trimmed, it starts and ends with `|`; the cells are the
/// non-empty pieces between the bars.
pub open spec fn table_of(s: Seq<char>) -> SpecPurified {
    let t = trim(s);
    if starts_with(t, seq!['|']) && t.last() == '|' {
        SpecPurified::Table { row: non_empty(split_on(t, '|')) }
    } else {
        SpecPurified::FailedText(s)
    }
}

/// A definition: the text after its first two bytes, trimmed. It fails
/// where the second byte is part of a longer character.
pub open spec fn definition_of(s: Seq<char>) -> SpecPurified {
    match chars_for_bytes(s, 2) {
        Some(a) => SpecPurified::Definition { def_text: trim(s.subrange(a as int, s.len() as int)) },
        None => SpecPurified::FailedText(s),
    }
}

/// A task: `- [ ] ` (open) or `- [X] ` (done), then the text.
pub open spec fn taskline_of(s: Seq<char>) -> SpecPurified {
    if starts_with(s, seq!['-', ' ', '[', ' ', ']', ' ']) {
        SpecPurified::TaskedLine { task_text: s.subrange(6, s.len() as int), done: false }
    } else if starts_with(s, seq!['-', ' ', '[', 'X', ']', ' ']) {
        SpecPurified::TaskedLine { task_text: s.subrange(6, s.len() as int), done: true }
    } else {
        SpecPurified::FailedText(s)
    }
}

/// How a classified line is refined.
pub open spec fn purified(line: (LineKind, Seq<char>)) -> SpecPurified
    decreases line.1.len(), 1nat,
{
    let s = line.1;
    match line.0 {
        LineKind::Head => head_of(s),
        LineKind::Quote => quote_of(s),
        LineKind::OList => olist_of(s),
        LineKind::UList => ulist_of(s),
        LineKind::Image => image_of(s),
        LineKind::Table => table_of(s),
        LineKind::CodeBlock | LineKind::CodeStart => SpecPurified::CodeStart,
        LineKind::CodeEnd => SpecPurified::CodeEnd,
        LineKind::Definition => definition_of(s),
        LineKind::TaskLine => taskline_of(s),
        LineKind::TabbedLine => SpecPurified::TabbedLine(s),
        LineKind::HR => SpecPurified::HR,
        LineKind::Text => SpecPurified::Text(s),
        LineKind::EmptyLine => SpecPurified::EmptyLine,
    }
}

/// The title and id of a heading from its words `words[from..]`.
fn head_title_and_id(words: &Vec<String>, from: usize) -> (r: (String, String))
    requires
        from <= words@.len(),
    ensures
        (r.0@, r.1@) == head_words(strings_view(words@).subrange(from as int, words@.len() as int)),
{
    let ghost all = strings_view(words@);
    let mut title = String::new();
    let mut i = from;
    while i < words.len()
        invariant
            from <= i <= words@.len(),
            all == strings_view(words@),
            head_words(all.subrange(from as int, all.len() as int)) == (
                title@ + head_words(all.subrange(i as int, all.len() as int)).0,
                head_words(all.subrange(i as int, all.len() as int)).1,
            ),
        decreases words@.len() - i,
    {
        let ghost rest = all.subrange(i as int, all.len() as int);
        assert(rest[0] == words@[i as int]@);
        let w = chars_of(words[i].as_str());
        let open_id: &[char] = &['{', '#'];
        assert(open_id@ == seq!['{', '#']);
        if starts_with_exec(&w, open_id) && w[w.len() - 1] == '}' {
            let id = string_of(&w, 2, w.len() - 1);
            assert(title@ + Seq::<char>::empty() =~= title@);
            return (title, id);
        }
        let ghost before = title@;
        title.append(words[i].as_str());
        crate::text::push_char(&mut title, ' ');
        assert(rest.drop_first() =~= all.subrange(i + 1, all.len() as int));
        assert(before + (rest[0] + seq![' '] + head_words(rest.drop_first()).0)
            =~= title@ + head_words(rest.drop_first()).0);
        i = i + 1;
    }
    assert(title@ + Seq::<char>::empty() =~= title@);
    (title, String::new())
}

impl PurifiedMdLine {
    /// Refines a classified line.
    pub fn purify(md_line: MdRawLine) -> (r: PurifiedMdLine)
        ensures
            r@ == purified(md_line@),
        decreases md_line@.1.len(), 1nat,
    {
        match md_line {
            MdRawLine::Head(s) => PurifiedMdLine::purify_head(s),
            MdRawLine::Quote(s) => PurifiedMdLine::purify_quote(s),
            MdRawLine::OList(s) => PurifiedMdLine::purify_olist(s),
            MdRawLine::UList(s) => PurifiedMdLine::purify_ulist(s),
            MdRawLine::Image(s) => PurifiedMdLine::purify_image(s),
            MdRawLine::Table(s) => PurifiedMdLine::purify_table(s),
            MdRawLine::CodeBlock | MdRawLine::CodeStart => PurifiedMdLine::CodeStart,
            MdRawLine::CodeEnd => PurifiedMdLine::CodeEnd,
            MdRawLine::Definition(s) => PurifiedMdLine::purify_definition(s),
            MdRawLine::TaskLine(s) => PurifiedMdLine::purify_taskline(s),
            MdRawLine::TabbedLine(s) => PurifiedMdLine::TabbedLine(s),
            MdRawLine::HR => PurifiedMdLine::HR,
            MdRawLine::Text(s) => PurifiedMdLine::Text(s),
            MdRawLine::EmptyLine => PurifiedMdLine::EmptyLine,
        }
    }

    /// Refines a heading line: level, title and optional `{#id}`.
    pub fn purify_head(data: String) -> (r: PurifiedMdLine)
        ensures
            r@ == head_of(data@),
    {
        let cs = chars_of(data.as_str());
        let space: &[char] = &[' '];
        assert(space@ == seq![' ']);
        let end = match find_exec(&cs, space) {
            Some(k) => k,
            None => cs.len(),
        };
        assert(cs@.subrange(0, end as int) =~= before_space(data@));
        let mut hash_count: usize = 0;
        while hash_count < end
            invariant
                hash_count <= end <= cs@.len(),
                cs@ == data@,
                cs@.subrange(0, end as int) == before_space(data@),
                forall|i: int| 0 <= i < hash_count ==> cs@[i] == '#',
            decreases end - hash_count,
        {
            if cs[hash_count] != '#' {
                assert(before_space(data@)[hash_count as int] != '#');
                return PurifiedMdLine::FailedText(data);
            }
            hash_count = hash_count + 1;
        }
        if hash_count < 1 || hash_count > 6 {
            return PurifiedMdLine::FailedText(data);
        }
        let words = split_exec(&cs, 0, cs.len(), ' ');
        proof {
            assert(cs@.subrange(0, cs@.len() as int) =~= cs@);
            crate::text::lemma_split_nonempty(cs@, ' ');
            assert(strings_view(words@).subrange(1, words@.len() as int) =~= split_on(data@, ' ').drop_first());
        }
        let (title, id) = head_title_and_id(&words, 1);
        let tc = chars_of(title.as_str());
        let title_end = trim_end_at(&tc, 0, tc.len());
        assert(tc@.subrange(0, tc@.len() as int) =~= tc@);
        PurifiedMdLine::Head { title: string_of(&tc, 0, title_end), level: hash_count as u8, id }
    }

    /// Refines a quote line: nesting level, and the rest refined again.
    pub fn purify_quote(quotes: String) -> (r: PurifiedMdLine)
        ensures
            r@ == quote_of(quotes@),
        decreases quotes@.len(), 0nat,
    {
        let cs = chars_of(quotes.as_str());
        let space: &[char] = &[' '];
        assert(space@ == seq![' ']);
        proof {
            lemma_find_occurs(cs@, seq![' ']);
        }
        match find_exec(&cs, space) {
            Some(k) => {
                let nest_level = utf8_len_mod_256(&cs, 0, k);
                let inner = string_of(&cs, k + 1, cs.len());
                let line = to_mdline_in_file(inner);
                let inside = PurifiedMdLine::purify(line);
                PurifiedMdLine::Quote { nest_level, inside_md: Box::new(inside) }
            },
            None => PurifiedMdLine::FailedText(quotes),
        }
    }

    /// Refines a numbered item: its number and its text.
    pub fn purify_olist(data: String) -> (r: PurifiedMdLine)
        ensures
            r@ == olist_of(data@),
    {
        let cs = chars_of(data.as_str());
        let dot_space: &[char] = &['.', ' '];
        assert(dot_space@ == seq!['.', ' ']);
        match find_exec(&cs, dot_space) {
            Some(k) => {
                assert(occurs_at(cs@, dot_space@, k as int));
                assert(k + 2 <= cs@.len());
                match parse_unsigned(&cs, 0, k, 255) {
                    Some(n) => PurifiedMdLine::OList { list_number: n as u8, list_text: string_of(&cs, k + 2, cs.len()) },
                    None => PurifiedMdLine::FailedText(data),
                }
            },
            None => PurifiedMdLine::FailedText(data),
        }
    }

    /// Refines a bulleted item: the text after the first space.
    pub fn purify_ulist(data: String) -> (r: PurifiedMdLine)
        ensures
            r@ == ulist_of(data@),
    {
        let cs = chars_of(data.as_str());
        let space: &[char] = &[' '];
        assert(space@ == seq![' ']);
        match find_exec(&cs, space) {
            Some(k) => {
                assert(occurs_at(cs@, space@, k as int));
                assert(k < cs@.len());
                PurifiedMdLine::UList { list_text: string_of(&cs, k + 1, cs.len()) }
            },
            None => PurifiedMdLine::FailedText(data),
        }
    }

    /// Refines an image line into its alternative text and its link.
    pub fn purify_image(data: String) -> (r: PurifiedMdLine)
        ensures
            r@ == image_of(data@),
    {
        let all = chars_of(data.as_str());
        let (start, end) = trim_at(&all, 0, all.len());
        assert(all@.subrange(0, all@.len() as int) =~= all@);
        let cs = chars_in(&all, start, end);
        let split: &[char] = &[']', '('];
        assert(split@ == seq![']', '(']);
        match find_exec(&cs, split) {
            Some(k) => {
                let head = chars_in(&cs, 0, k);
                let a = match chars_for_bytes_exec(&head, 2) {
                    Some(a) => a,
                    None => {
                        return PurifiedMdLine::FailedText(data);
                    },
                };
                if cs.len() - k < 3 || utf8_width_exec(cs[cs.len() - 1]) != 1 {
                    return PurifiedMdLine::FailedText(data);
                }
                let (a0, a1) = trim_at(&cs, a, k);
                let (l0, l1) = trim_at(&cs, k + 2, cs.len() - 1);
                PurifiedMdLine::Image { alt_text: string_of(&cs, a0, a1), link_text: string_of(&cs, l0, l1) }
            },
            None => PurifiedMdLine::FailedText(data),
        }
    }

    /// Refines a table row into its non-empty cells.
    pub fn purify_table(data: String) -> (r: PurifiedMdLine)
        ensures
            r@ == table_of(data@),
    {
        let all = chars_of(data.as_str());
        let (start, end) = trim_at(&all, 0, all.len());
        assert(all@.subrange(0, all@.len() as int) =~= all@);
        let bar: &[char] = &['|'];
        assert(bar@ == seq!['|']);
        let cs = chars_in(&all, start, end);
        if !(starts_with_exec(&cs, bar) && cs[cs.len() - 1] == '|') {
            return PurifiedMdLine::FailedText(data);
        }
        let pieces = split_exec(&cs, 0, cs.len(), '|');
        assert(cs@.subrange(0, cs@.len() as int) =~= cs@);
        let ghost pv = strings_view(pieces@);
        let mut row: Vec<String> = Vec::new();
        let mut i: usize = 0;
        while i < pieces.len()
            invariant
                i <= pieces@.len(),
                pv == strings_view(pieces@),
                strings_view(row@) == non_empty(pv.subrange(0, i as int)),
            decreases pieces@.len() - i,
        {
            assert(pv.subrange(0, i + 1).drop_last() =~= pv.subrange(0, i as int));
            let ghost before = row@;
            if !pieces[i].as_str().is_empty() {
                row.push(pieces[i].clone());
                assert(strings_view(row@) =~= strings_view(before).push(pv[i as int]));
            }
            i = i + 1;
        }
        assert(pv.subrange(0, i as int) =~= pv);
        PurifiedMdLine::Table { row }
    }

    /// Refines a definition: the text after `: `, trimmed.
    pub fn purify_definition(data: String) -> (r: PurifiedMdLine)
        ensures
            r@ == definition_of(data@),
    {
        let cs = chars_of(data.as_str());
        match chars_for_bytes_exec(&cs, 2) {
            Some(a) => {
                let (start, end) = trim_at(&cs, a, cs.len());
                PurifiedMdLine::Definition { def_text: string_of(&cs, start, end) }
            },
            None => PurifiedMdLine::FailedText(data),
        }
    }

    /// Refines a task line: whether it is done, and its text.
    pub fn purify_taskline(data: String) -> (r: PurifiedMdLine)
        ensures
            r@ == taskline_of(data@),
    {
        let cs = chars_of(data.as_str());
        let open: &[char] = &['-', ' ', '[', ' ', ']', ' '];
        assert(open@ == seq!['-', ' ', '[', ' ', ']', ' ']);
        let done: &[char] = &['-', ' ', '[', 'X', ']', ' '];
        assert(done@ == seq!['-', ' ', '[', 'X', ']', ' ']);
        if starts_with_exec(&cs, open) {
            PurifiedMdLine::TaskedLine { done: false, task_text: string_of(&cs, 6, cs.len()) }
        } else if starts_with_exec(&cs, done) {
            PurifiedMdLine::TaskedLine { done: true, task_text: string_of(&cs, 6, cs.len()) }
        } else {
            PurifiedMdLine::FailedText(data)
        }
    }
}

} // verus!
