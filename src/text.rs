//! Character-level helpers shared by the tokenizer and the line readers.
use vstd::prelude::*;

verus! {

/// Relies on `String::push`: the character is added at the end.
#[verifier::external_body]
pub(crate) fn push_char(s: &mut String, c: char)
    ensures
        final(s)@ == old(s)@.push(c),
{
    s.push(c)
}

/// The characters of `s`, in order.
pub fn chars_of(s: &str) -> (r: Vec<char>)
    ensures
        r@ == s@,
{
    let mut r: Vec<char> = Vec::new();
    for c in it: s.chars()
        invariant
            it.seq() == s@,
            r@ == it.seq().subrange(0, it.index() as int),
    {
        r.push(c);
    }
    r
}

/// The characters `cs[from..to]`.
pub fn chars_in(cs: &Vec<char>, from: usize, to: usize) -> (r: Vec<char>)
    requires
        from <= to <= cs@.len(),
    ensures
        r@ == cs@.subrange(from as int, to as int),
{
    let mut r: Vec<char> = Vec::new();
    let mut i: usize = from;
    while i < to
        invariant
            from <= i <= to <= cs@.len(),
            r@ == cs@.subrange(from as int, i as int),
        decreases to - i,
    {
        r.push(cs[i]);
        i = i + 1;
        assert(r@ =~= cs@.subrange(from as int, i as int));
    }
    r
}

/// A string holding the characters `cs[from..to]`.
pub fn string_of(cs: &Vec<char>, from: usize, to: usize) -> (r: String)
    requires
        from <= to <= cs@.len(),
    ensures
        r@ == cs@.subrange(from as int, to as int),
{
    let mut r = String::new();
    let mut i: usize = from;
    while i < to
        invariant
            from <= i <= to <= cs@.len(),
            r@ == cs@.subrange(from as int, i as int),
        decreases to - i,
    {
        push_char(&mut r, cs[i]);
        i = i + 1;
        assert(r@ =~= cs@.subrange(from as int, i as int));
    }
    r
}

/// The views of a sequence of strings.
pub open spec fn strings_view(v: Seq<String>) -> Seq<Seq<char>> {
    v.map_values(|t: String| t@)
}

/// Unicode white space, as `char::is_whitespace` classifies it.
pub open spec fn is_white(c: char) -> bool {
    ('\u{9}' <= c && c <= '\u{d}') || c == ' ' || c == '\u{85}' || c == '\u{a0}' || c == '\u{1680}'
        || ('\u{2000}' <= c && c <= '\u{200a}') || c == '\u{2028}' || c == '\u{2029}'
        || c == '\u{202f}' || c == '\u{205f}' || c == '\u{3000}'
}

/// Whether `c` is white space.
pub fn is_white_char(c: char) -> (r: bool)
    ensures
        r == is_white(c),
{
    ('\u{9}' <= c && c <= '\u{d}') || c == ' ' || c == '\u{85}' || c == '\u{a0}' || c == '\u{1680}'
        || ('\u{2000}' <= c && c <= '\u{200a}') || c == '\u{2028}' || c == '\u{2029}'
        || c == '\u{202f}' || c == '\u{205f}' || c == '\u{3000}'
}

/// `s` without trailing white space.
pub open spec fn trim_end(s: Seq<char>) -> Seq<char>
    decreases s.len(),
{
    if s.len() > 0 && is_white(s.last()) {
        trim_end(s.drop_last())
    } else {
        s
    }
}

/// `s` without leading white space.
pub open spec fn trim_start(s: Seq<char>) -> Seq<char>
    decreases s.len(),
{
    if s.len() > 0 && is_white(s[0]) {
        trim_start(s.drop_first())
    } else {
        s
    }
}

/// `s` without leading or trailing white space.
pub open spec fn trim(s: Seq<char>) -> Seq<char> {
    trim_start(trim_end(s))
}

/// The bounds of `cs[from..to]` with trailing white space left out.
pub fn trim_end_at(cs: &Vec<char>, from: usize, to: usize) -> (end: usize)
    requires
        from <= to <= cs@.len(),
    ensures
        from <= end <= to,
        cs@.subrange(from as int, end as int) == trim_end(cs@.subrange(from as int, to as int)),
{
    let mut end = to;
    while end > from && is_white_char(cs[end - 1])
        invariant
            from <= end <= to <= cs@.len(),
            trim_end(cs@.subrange(from as int, to as int)) == trim_end(cs@.subrange(from as int, end as int)),
        decreases end,
    {
        assert(cs@.subrange(from as int, end as int).drop_last() =~= cs@.subrange(from as int, end - 1));
        end = end - 1;
    }
    end
}

/// The bounds of `cs[from..to]` with leading white space left out.
pub fn trim_start_at(cs: &Vec<char>, from: usize, to: usize) -> (start: usize)
    requires
        from <= to <= cs@.len(),
    ensures
        from <= start <= to,
        cs@.subrange(start as int, to as int) == trim_start(cs@.subrange(from as int, to as int)),
{
    let mut start = from;
    while start < to && is_white_char(cs[start])
        invariant
            from <= start <= to <= cs@.len(),
            trim_start(cs@.subrange(from as int, to as int)) == trim_start(cs@.subrange(start as int, to as int)),
        decreases to - start,
    {
        assert(cs@.subrange(start as int, to as int).drop_first() =~= cs@.subrange(start + 1, to as int));
        start = start + 1;
    }
    start
}

/// The bounds of `cs[from..to]` with white space at both ends left out.
pub fn trim_at(cs: &Vec<char>, from: usize, to: usize) -> (r: (usize, usize))
    requires
        from <= to <= cs@.len(),
    ensures
        from <= r.0 <= r.1 <= to,
        cs@.subrange(r.0 as int, r.1 as int) == trim(cs@.subrange(from as int, to as int)),
{
    let end = trim_end_at(cs, from, to);
    let start = trim_start_at(cs, from, end);
    (start, end)
}

/// Whether `p` occurs in `s` at index `i`.
pub open spec fn occurs_at(s: Seq<char>, p: Seq<char>, i: int) -> bool {
    0 <= i && i + p.len() <= s.len() && s.subrange(i, i + p.len()) == p
}

/// Whether `s` starts with `p`.
pub open spec fn starts_with(s: Seq<char>, p: Seq<char>) -> bool {
    occurs_at(s, p, 0)
}

/// The index of the first occurrence of `p` in `s`, if any.
pub open spec fn find(s: Seq<char>, p: Seq<char>) -> Option<nat>
    decreases s.len(),
{
    if s.len() < p.len() {
        None
    } else if occurs_at(s, p, 0) {
        Some(0)
    } else if s.len() == 0 {
        None
    } else {
        match find(s.drop_first(), p) {
            Some(k) => Some(k + 1),
            None => None,
        }
    }
}

/// Whether `p` occurs in `cs` at index `i`.
pub fn occurs_at_exec(cs: &Vec<char>, p: &[char], i: usize) -> (r: bool)
    ensures
        r == occurs_at(cs@, p@, i as int),
{
    if i > cs.len() || p.len() > cs.len() - i {
        return false;
    }
    let mut j: usize = 0;
    while j < p.len()
        invariant
            i + p@.len() <= cs@.len(),
            j <= p@.len(),
            p@.len() == p.len(),
            i + p.len() <= cs.len(),
            forall|k: int| 0 <= k < j ==> cs@[i + k] == p@[k],
        decreases p@.len() - j,
    {
        if cs[i + j] != p[j] {
            assert(cs@.subrange(i as int, i + p@.len())[j as int] != p@[j as int]);
            return false;
        }
        j = j + 1;
    }
    assert(cs@.subrange(i as int, i + p@.len()) =~= p@);
    true
}

/// Whether `cs` starts with `p`.
pub fn starts_with_exec(cs: &Vec<char>, p: &[char]) -> (r: bool)
    ensures
        r == starts_with(cs@, p@),
{
    occurs_at_exec(cs, p, 0)
}

/// Where `find` answers, the pattern occurs.
pub proof fn lemma_find_occurs(s: Seq<char>, p: Seq<char>)
    ensures
        find(s, p) matches Some(k) ==> occurs_at(s, p, k as int),
    decreases s.len(),
{
    if s.len() >= p.len() && !occurs_at(s, p, 0) && s.len() > 0 {
        lemma_find_occurs(s.drop_first(), p);
        if let Some(k) = find(s.drop_first(), p) {
            let k = k as int;
            assert(s.drop_first().subrange(k, k + p.len()) =~= s.subrange(k + 1, k + 1 + p.len()));
        }
    }
}

/// `o` with every index moved up by `i`.
pub open spec fn shift(o: Option<nat>, i: nat) -> Option<nat> {
    match o {
        Some(k) => Some(k + i),
        None => None,
    }
}

/// The index of the first occurrence of `p` in `cs`, if any.
pub fn find_exec(cs: &Vec<char>, p: &[char]) -> (r: Option<usize>)
    ensures
        match find(cs@, p@) {
            Some(k) => r matches Some(j) && j as nat == k,
            None => r is None,
        },
        r matches Some(k) ==> occurs_at(cs@, p@, k as int),
{
    let mut i: usize = 0;
    assert(cs@.subrange(0, cs@.len() as int) =~= cs@);
    loop
        invariant
            i <= cs@.len(),
            find(cs@, p@) == shift(find(cs@.subrange(i as int, cs@.len() as int), p@), i as nat),
        decreases cs@.len() - i,
    {
        let ghost rest = cs@.subrange(i as int, cs@.len() as int);
        if occurs_at_exec(cs, p, i) {
            assert(rest.subrange(0, p@.len() as int) =~= cs@.subrange(i as int, i + p@.len()));
            return Some(i);
        }
        if p.len() > cs.len() - i {
            return None;
        }
        assert(!occurs_at(rest, p@, 0)) by {
            assert(rest.subrange(0, p@.len() as int) =~= cs@.subrange(i as int, i + p@.len()));
        }
        if i == cs.len() {
            return None;
        }
        assert(rest.drop_first() =~= cs@.subrange(i + 1, cs@.len() as int));
        i = i + 1;
    }
}

/// The pieces of `s` between the separators `c`; always at least one.
pub open spec fn split_on(s: Seq<char>, c: char) -> Seq<Seq<char>>
    decreases s.len(),
{
    if s.len() == 0 {
        seq![Seq::empty()]
    } else if s.last() == c {
        split_on(s.drop_last(), c).push(Seq::empty())
    } else {
        let r = split_on(s.drop_last(), c);
        r.update(r.len() - 1, r.last().push(s.last()))
    }
}

pub proof fn lemma_split_nonempty(s: Seq<char>, c: char)
    ensures
        split_on(s, c).len() >= 1,
    decreases s.len(),
{
    if s.len() > 0 {
        lemma_split_nonempty(s.drop_last(), c);
    }
}

/// The pieces of `cs[from..to]` between the separators `c`.
pub fn split_exec(cs: &Vec<char>, from: usize, to: usize, c: char) -> (r: Vec<String>)
    requires
        from <= to <= cs@.len(),
    ensures
        strings_view(r@) == split_on(cs@.subrange(from as int, to as int), c),
{
    let mut pieces: Vec<String> = Vec::new();
    let mut piece_start: usize = from;
    let mut i: usize = from;
    assert(cs@.subrange(from as int, from as int) =~= Seq::<char>::empty());
    assert(strings_view(pieces@).push(Seq::empty()) =~= seq![Seq::<char>::empty()]);
    while i < to
        invariant
            from <= piece_start <= i <= to <= cs@.len(),
            strings_view(pieces@).push(cs@.subrange(piece_start as int, i as int))
                == split_on(cs@.subrange(from as int, i as int), c),
        decreases to - i,
    {
        let ghost prefix = cs@.subrange(from as int, i as int);
        let ghost next = cs@.subrange(from as int, i + 1);
        assert(next.drop_last() =~= prefix);
        assert(next.last() == cs@[i as int]);
        let ghost done = strings_view(pieces@);
        let ghost cur = cs@.subrange(piece_start as int, i as int);
        assert(split_on(prefix, c) == done.push(cur));
        if cs[i] == c {
            let piece = string_of(cs, piece_start, i);
            pieces.push(piece);
            piece_start = i + 1;
            assert(strings_view(pieces@) =~= done.push(cur));
            assert(cs@.subrange(piece_start as int, i + 1) =~= Seq::<char>::empty());
            assert(strings_view(pieces@).push(cs@.subrange(piece_start as int, i + 1)) =~= split_on(next, c));
        } else {
            assert(cur.push(cs@[i as int]) =~= cs@.subrange(piece_start as int, i + 1));
            assert(done.push(cur).update(done.len() as int, cur.push(cs@[i as int])) =~= done.push(cur.push(cs@[i as int])));
            assert(strings_view(pieces@).push(cs@.subrange(piece_start as int, i + 1)) =~= split_on(next, c));
        }
        i = i + 1;
    }
    let last = string_of(cs, piece_start, to);
    pieces.push(last);
    assert(strings_view(pieces@) =~= split_on(cs@.subrange(from as int, to as int), c));
    pieces
}

/// An ASCII decimal digit.
pub open spec fn is_digit(c: char) -> bool {
    '0' <= c && c <= '9'
}

/// The value of a run of decimal digits.
pub open spec fn digits_value(d: Seq<char>) -> nat
    decreases d.len(),
{
    if d.len() == 0 {
        0
    } else {
        digits_value(d.drop_last()) * 10 + ((d.last() as u32) - ('0' as u32)) as nat
    }
}

/// The number that `t` writes as an unsigned decimal: an optional `+`, then
/// at least one digit and nothing else. This is the text that `str::parse`
/// accepts for an unsigned integer type, before the range check.
pub open spec fn unsigned_value(t: Seq<char>) -> Option<nat> {
    let d = unsigned_digits(t);
    if d.len() > 0 && all_digits(d) {
        Some(digits_value(d))
    } else {
        None
    }
}

/// `t` without a leading `+`.
pub open spec fn unsigned_digits(t: Seq<char>) -> Seq<char> {
    if t.len() > 0 && t[0] == '+' {
        t.drop_first()
    } else {
        t
    }
}

/// Every character of `d` is a decimal digit.
pub open spec fn all_digits(d: Seq<char>) -> bool {
    forall|i: int| 0 <= i < d.len() ==> is_digit(#[trigger] d[i])
}

/// The unsigned number that `t` writes, if it is at most `max`.
pub open spec fn unsigned_at_most(t: Seq<char>, max: nat) -> Option<nat> {
    match unsigned_value(t) {
        Some(v) => if v <= max { Some(v) } else { None },
        None => None,
    }
}

/// The unsigned number that `cs[from..to]` writes, if it is at most `max`.
pub fn parse_unsigned(cs: &Vec<char>, from: usize, to: usize, max: u32) -> (r: Option<u32>)
    requires
        from <= to <= cs@.len(),
    ensures
        match unsigned_at_most(cs@.subrange(from as int, to as int), max as nat) {
            Some(v) => r == Some(v as u32),
            None => r is None,
        },
{
    let ghost t = cs@.subrange(from as int, to as int);
    let mut start = from;
    if start < to && cs[start] == '+' {
        start = start + 1;
    }
    let ghost d = cs@.subrange(start as int, to as int);
    assert(d =~= unsigned_digits(t));
    if start == to {
        return None;
    }
    let cap: u64 = max as u64 + 1;
    let mut v: u64 = 0;
    let mut i: usize = start;
    while i < to
        invariant
            start <= i <= to <= cs@.len(),
            d == cs@.subrange(start as int, to as int),
            t == cs@.subrange(from as int, to as int),
            d == unsigned_digits(t),
            d.len() > 0,
            cap == max + 1,
            forall|k: int| 0 <= k < i - start ==> is_digit(#[trigger] d[k]),
            digits_value(cs@.subrange(start as int, i as int)) <= max ==> v == digits_value(cs@.subrange(start as int, i as int)),
            digits_value(cs@.subrange(start as int, i as int)) > max ==> v == cap,
        decreases to - i,
    {
        let c = cs[i];
        assert(d[i - start] == c);
        if !('0' <= c && c <= '9') {
            assert(!is_digit(d[i - start]));
            return None;
        }
        let ghost prev = cs@.subrange(start as int, i as int);
        assert(cs@.subrange(start as int, i + 1).drop_last() =~= prev);
        let digit = (c as u32 - '0' as u32) as u64;
        if v < cap {
            v = v * 10 + digit;
            if v > max as u64 {
                v = cap;
            }
        }
        i = i + 1;
    }
    assert(cs@.subrange(start as int, to as int) == d);
    if v <= max as u64 {
        Some(v as u32)
    } else {
        None
    }
}

/// The number of bytes `c` takes in UTF-8.
pub open spec fn utf8_width(c: char) -> nat {
    if (c as u32) < 0x80 {
        1
    } else if (c as u32) < 0x800 {
        2
    } else if (c as u32) < 0x10000 {
        3
    } else {
        4
    }
}

/// The number of bytes `s` takes in UTF-8.
pub open spec fn utf8_len(s: Seq<char>) -> nat
    decreases s.len(),
{
    if s.len() == 0 {
        0
    } else {
        utf8_len(s.drop_last()) + utf8_width(s.last())
    }
}

/// The number of bytes `c` takes in UTF-8.
pub fn utf8_width_exec(c: char) -> (r: usize)
    ensures
        r == utf8_width(c),
{
    let v = c as u32;
    if v < 0x80 {
        1
    } else if v < 0x800 {
        2
    } else if v < 0x10000 {
        3
    } else {
        4
    }
}

/// How many leading characters of `s` make up exactly its first `b` bytes;
/// none when byte `b` falls inside a character or past the end.
pub open spec fn chars_for_bytes(s: Seq<char>, b: nat) -> Option<nat>
    decreases s.len(),
{
    if b == 0 {
        Some(0)
    } else if s.len() == 0 || utf8_width(s[0]) > b {
        None
    } else {
        shift(chars_for_bytes(s.drop_first(), (b - utf8_width(s[0])) as nat), 1)
    }
}

/// How many leading characters of `cs` make up exactly its first `b` bytes.
pub fn chars_for_bytes_exec(cs: &Vec<char>, b: usize) -> (r: Option<usize>)
    ensures
        match chars_for_bytes(cs@, b as nat) {
            Some(k) => r matches Some(j) && j as nat == k,
            None => r is None,
        },
        r matches Some(k) ==> k <= cs@.len(),
{
    let mut i: usize = 0;
    let mut rem: usize = b;
    assert(cs@.subrange(0, cs@.len() as int) =~= cs@);
    loop
        invariant
            i <= cs@.len(),
            rem <= b,
            chars_for_bytes(cs@, b as nat) == shift(chars_for_bytes(cs@.subrange(i as int, cs@.len() as int), rem as nat), i as nat),
        decreases cs@.len() - i,
    {
        let ghost rest = cs@.subrange(i as int, cs@.len() as int);
        if rem == 0 {
            return Some(i);
        }
        if i == cs.len() {
            return None;
        }
        let w = utf8_width_exec(cs[i]);
        assert(rest[0] == cs@[i as int]);
        if w > rem {
            return None;
        }
        assert(rest.drop_first() =~= cs@.subrange(i + 1, cs@.len() as int));
        rem = rem - w;
        i = i + 1;
    }
}

/// The UTF-8 length of `cs[from..to]`, modulo 256.
pub fn utf8_len_mod_256(cs: &Vec<char>, from: usize, to: usize) -> (r: u8)
    requires
        from <= to <= cs@.len(),
    ensures
        r as nat == utf8_len(cs@.subrange(from as int, to as int)) % 256,
{
    let mut n: u32 = 0;
    let mut i: usize = from;
    while i < to
        invariant
            from <= i <= to <= cs@.len(),
            n < 256,
            n as nat == utf8_len(cs@.subrange(from as int, i as int)) % 256,
        decreases to - i,
    {
        let ghost prev = utf8_len(cs@.subrange(from as int, i as int)) as int;
        assert(cs@.subrange(from as int, i + 1).drop_last() =~= cs@.subrange(from as int, i as int));
        let w = utf8_width_exec(cs[i]) as u32;
        proof {
            vstd::arithmetic::div_mod::lemma_add_mod_noop(prev, w as int, 256);
            vstd::arithmetic::div_mod::lemma_small_mod(w as nat, 256);
            vstd::arithmetic::div_mod::lemma_small_mod((n + w) as nat % 256, 256);
        }
        n = (n + w) % 256;
        i = i + 1;
    }
    n as u8
}

} // verus!
