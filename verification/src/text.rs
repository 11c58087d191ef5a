//! Text as sequences of characters.

use vstd::prelude::*;

verus! {

/// `String::push`: appends the character.
pub assume_specification[ String::push ](s: &mut String, c: char)
    ensures
        final(s)@ == old(s)@.push(c),
;

/// The characters of a string.
pub fn chars_of(s: &str) -> (out: Vec<char>)
    ensures
        out@ == s@,
{
    let mut out: Vec<char> = Vec::new();
    for c in it: s.chars()
        invariant
            out@ == s@.take(it.index() as int),
            it.seq() == s@,
    {
        out.push(c);
    }
    out
}

/// The string of some characters, from one index up to another.
pub fn string_of(chars: &Vec<char>, from: usize, to: usize) -> (out: String)
    requires
        from <= to <= chars@.len(),
    ensures
        out@ == chars@.subrange(from as int, to as int),
{
    let mut out = String::new();
    let mut i: usize = from;
    while i < to
        invariant
            from <= i <= to <= chars@.len(),
            out@ == chars@.subrange(from as int, i as int),
        decreases to - i,
    {
        out.push(chars[i]);
        assert(chars@.subrange(from as int, i + 1) =~= chars@.subrange(from as int, i as int).push(
            chars@[i as int],
        ));
        i = i + 1;
    }
    out
}

/// What comes before the first `mark`, or everything where there is none.
pub open spec fn before(s: Seq<char>, mark: char) -> Seq<char>
    decreases s.len(),
{
    if s.len() == 0 || s[0] == mark {
        Seq::empty()
    } else {
        seq![s[0]] + before(s.drop_first(), mark)
    }
}

proof fn lemma_before(s: Seq<char>, mark: char, n: int)
    requires
        0 <= n <= s.len(),
        forall|i: int| 0 <= i < n ==> s[i] != mark,
        n == s.len() || s[n] == mark,
    ensures
        before(s, mark) == s.take(n),
    decreases s.len(),
{
    if n > 0 {
        lemma_before(s.drop_first(), mark, n - 1);
        assert(seq![s[0]] + s.drop_first().take(n - 1) =~= s.take(n));
    } else {
        assert(s.take(0) =~= Seq::<char>::empty());
    }
}

/// What comes before the first `mark` in a string.
pub fn text_before(s: &str, mark: char) -> (out: String)
    ensures
        out@ == before(s@, mark),
{
    let chars = chars_of(s);
    let mut n: usize = 0;
    while n < chars.len() && chars[n] != mark
        invariant
            n <= chars@.len(),
            forall|i: int| 0 <= i < n ==> chars@[i] != mark,
        decreases chars@.len() - n,
    {
        n = n + 1;
    }
    proof {
        lemma_before(chars@, mark, n as int);
        assert(chars@.subrange(0, n as int) =~= chars@.take(n as int));
    }
    string_of(&chars, 0, n)
}

/// The text with one character put for another.
pub open spec fn replaced(s: Seq<char>, from: char, to: char) -> Seq<char> {
    s.map_values(
        |c: char|
            if c == from {
                to
            } else {
                c
            },
    )
}

/// Puts one character for another.
pub fn replace_char(s: &str, from: char, to: char) -> (out: String)
    ensures
        out@ == replaced(s@, from, to),
{
    let chars = chars_of(s);
    let mut out = String::new();
    let mut i: usize = 0;
    while i < chars.len()
        invariant
            i <= chars@.len(),
            chars@ == s@,
            out@ == replaced(s@.take(i as int), from, to),
        decreases chars@.len() - i,
    {
        assert(replaced(s@.take(i + 1), from, to) =~= replaced(s@.take(i as int), from, to).push(
            if s@[i as int] == from {
                to
            } else {
                s@[i as int]
            },
        ));
        if chars[i] == from {
            out.push(to);
        } else {
            out.push(chars[i]);
        }
        i = i + 1;
    }
    assert(s@.take(i as int) =~= s@);
    out
}

/// A text in quotes, with what cannot be shown plainly escaped.
pub uninterp spec fn quoted(s: Seq<char>) -> Seq<char>;

/// `format!("{:?}", s)`: the debug form of a string.
#[verifier::external_body]
pub(crate) fn quoted_text(s: &str) -> (out: String)
    ensures
        out@ == quoted(s@),
{
    format!("{:?}", s)
}

/// The characters at `i` and behind are `p`, as far as `p` goes.
fn matches_at(chars: &Vec<char>, i: usize, p: &Vec<char>) -> (b: bool)
    requires
        i <= chars@.len(),
    ensures
        b == (i + p@.len() <= chars@.len() && chars@.subrange(i as int, i + p@.len()) == p@),
{
    if chars.len() - i < p.len() {
        return false;
    }
    let n: usize = chars.len();
    let mut k: usize = 0;
    while k < p.len()
        invariant
            k <= p@.len(),
            n == chars@.len(),
            i + p@.len() <= n,
            forall|h: int| 0 <= h < k ==> chars@[i + h] == p@[h],
        decreases p@.len() - k,
    {
        if chars[i + k] != p[k] {
            assert(chars@.subrange(i as int, i + p@.len())[k as int] != p@[k as int]);
            return false;
        }
        k = k + 1;
    }
    assert(chars@.subrange(i as int, i + p@.len()) =~= p@);
    true
}

/// The text begins with `p`.
pub open spec fn has_prefix(s: Seq<char>, p: Seq<char>) -> bool {
    p.len() <= s.len() && s.take(p.len() as int) == p
}

/// The text ends with `p`.
pub open spec fn has_suffix(s: Seq<char>, p: Seq<char>) -> bool {
    p.len() <= s.len() && s.skip(s.len() - p.len()) == p
}

/// `p` occurs in the text, at `i`.
pub open spec fn occurs_at(s: Seq<char>, p: Seq<char>, i: int) -> bool {
    0 <= i && i + p.len() <= s.len() && s.subrange(i, i + p.len()) == p
}

/// `p` occurs in the text.
pub open spec fn contains_text(s: Seq<char>, p: Seq<char>) -> bool {
    exists|i: int| occurs_at(s, p, i)
}

/// Whether the text begins with `p`.
pub fn starts_with(s: &str, p: &str) -> (b: bool)
    ensures
        b == has_prefix(s@, p@),
{
    let chars = chars_of(s);
    let want = chars_of(p);
    proof {
        if p@.len() <= s@.len() {
            assert(s@.subrange(0, p@.len() as int) =~= s@.take(p@.len() as int));
        }
    }
    matches_at(&chars, 0, &want)
}

/// Whether the text ends with `p`.
pub fn ends_with(s: &str, p: &str) -> (b: bool)
    ensures
        b == has_suffix(s@, p@),
{
    let chars = chars_of(s);
    let want = chars_of(p);
    if chars.len() < want.len() {
        return false;
    }
    let at: usize = chars.len() - want.len();
    assert(s@.subrange(at as int, at + p@.len()) =~= s@.skip(s@.len() - p@.len()));
    matches_at(&chars, at, &want)
}

/// Whether `p` occurs in the text.
pub fn has_text(s: &str, p: &str) -> (b: bool)
    ensures
        b == contains_text(s@, p@),
{
    let chars = chars_of(s);
    let want = chars_of(p);
    let mut i: usize = 0;
    loop
        invariant
            i <= chars@.len(),
            chars@ == s@,
            want@ == p@,
            forall|k: int| 0 <= k < i ==> !occurs_at(s@, p@, k),
        decreases chars@.len() - i,
    {
        if matches_at(&chars, i, &want) {
            assert(occurs_at(s@, p@, i as int));
            return true;
        }
        assert(!occurs_at(s@, p@, i as int));
        if i == chars.len() {
            assert forall|k: int| !occurs_at(s@, p@, k) by {}
            return false;
        }
        i = i + 1;
    }
}

/// The text without `p` in front, where it begins with it.
pub open spec fn without_prefix(s: Seq<char>, p: Seq<char>) -> Seq<char> {
    if has_prefix(s, p) {
        s.skip(p.len() as int)
    } else {
        s
    }
}

/// What comes after `p`, where the text begins with it.
pub fn strip_prefix(s: &str, p: &str) -> (out: Option<String>)
    ensures
        out is Some <==> has_prefix(s@, p@),
        out matches Some(rest) ==> rest@ == s@.skip(p@.len() as int),
{
    if !starts_with(s, p) {
        return None;
    }
    let chars = chars_of(s);
    let want = chars_of(p);
    assert(s@.subrange(p@.len() as int, s@.len() as int) =~= s@.skip(p@.len() as int));
    Some(string_of(&chars, want.len(), chars.len()))
}

/// What comes before `p`, where the text ends with it.
pub fn strip_suffix(s: &str, p: &str) -> (out: Option<String>)
    ensures
        out is Some <==> has_suffix(s@, p@),
        out matches Some(rest) ==> rest@ == s@.take(s@.len() - p@.len()),
{
    if !ends_with(s, p) {
        return None;
    }
    let chars = chars_of(s);
    let want = chars_of(p);
    assert(s@.subrange(0, s@.len() - p@.len()) =~= s@.take(s@.len() - p@.len()));
    Some(string_of(&chars, 0, chars.len() - want.len()))
}

/// The place of the last `mark`.
pub open spec fn is_last_mark(s: Seq<char>, mark: char, i: int) -> bool {
    &&& 0 <= i < s.len()
    &&& s[i] == mark
    &&& forall|k: int| i < k < s.len() ==> s[k] != mark
}

/// What comes before the last `mark`, and what comes after it.
pub open spec fn split_at_last(s: Seq<char>, mark: char) -> Option<(Seq<char>, Seq<char>)> {
    if s.contains(mark) {
        let i = choose|i: int| is_last_mark(s, mark, i);
        Some((s.take(i), s.skip(i + 1)))
    } else {
        None
    }
}

/// What comes before the last `mark`, and what comes after it.
pub fn rsplit_once(s: &str, mark: char) -> (out: Option<(String, String)>)
    ensures
        match out {
            None => split_at_last(s@, mark) is None,
            Some(p) => split_at_last(s@, mark) == Some((p.0@, p.1@)),
        },
{
    let chars = chars_of(s);
    let mut i: usize = chars.len();
    while i > 0
        invariant
            i <= chars@.len(),
            chars@ == s@,
            forall|k: int| i <= k < s@.len() ==> s@[k] != mark,
        decreases i,
    {
        i = i - 1;
        if chars[i] == mark {
            proof {
                assert(is_last_mark(s@, mark, i as int));
                let c = choose|c: int| is_last_mark(s@, mark, c);
                assert(is_last_mark(s@, mark, c));
                assert(c == i);
                assert(s@.subrange(0, i as int) =~= s@.take(i as int));
                assert(s@.subrange(i + 1, s@.len() as int) =~= s@.skip(i + 1));
            }
            return Some((string_of(&chars, 0, i), string_of(&chars, i + 1, chars.len())));
        }
    }
    None
}

/// A letter of the basic alphabet in lower case, anything else as it is.
pub open spec fn lower(c: char) -> char {
    if 'A' <= c && c <= 'Z' {
        ((c as u8) + 32) as char
    } else {
        c
    }
}

/// A letter of the basic alphabet in upper case, anything else as it is.
pub open spec fn upper(c: char) -> char {
    if 'a' <= c && c <= 'z' {
        ((c as u8) - 32) as char
    } else {
        c
    }
}

pub open spec fn lowered(s: Seq<char>) -> Seq<char> {
    s.map_values(|c: char| lower(c))
}

pub fn lower_char(c: char) -> (l: char)
    ensures
        l == lower(c),
{
    if 'A' <= c && c <= 'Z' {
        ((c as u8) + 32) as char
    } else {
        c
    }
}

/// The text with the basic alphabet in lower case.
pub fn to_lower(s: &str) -> (out: String)
    ensures
        out@ == lowered(s@),
{
    let chars = chars_of(s);
    let mut out = String::new();
    let mut i: usize = 0;
    while i < chars.len()
        invariant
            i <= chars@.len(),
            chars@ == s@,
            out@ == lowered(s@.take(i as int)),
        decreases chars@.len() - i,
    {
        assert(lowered(s@.take(i + 1)) =~= lowered(s@.take(i as int)).push(lower(s@[i as int])));
        out.push(lower_char(chars[i]));
        i = i + 1;
    }
    assert(s@.take(i as int) =~= s@);
    out
}

/// The pieces of a text between the marks.
pub open spec fn split_by(s: Seq<char>, mark: char) -> Seq<Seq<char>>
    decreases s.len(),
{
    if s.len() == 0 {
        seq![Seq::empty()]
    } else {
        let rest = split_by(s.drop_last(), mark);
        if s.last() == mark {
            rest.push(Seq::empty())
        } else {
            rest.update(rest.len() - 1, rest.last().push(s.last()))
        }
    }
}

proof fn lemma_split_nonempty(s: Seq<char>, mark: char)
    ensures
        split_by(s, mark).len() >= 1,
    decreases s.len(),
{
    if s.len() > 0 {
        lemma_split_nonempty(s.drop_last(), mark);
    }
}

/// The pieces of a text between the marks.
pub fn split(s: &str, mark: char) -> (out: Vec<String>)
    ensures
        out@.map_values(|p: String| p@) == split_by(s@, mark),
        out@.len() >= 1,
{
    let chars = chars_of(s);
    let ghost f = |p: String| p@;
    let mut out: Vec<String> = Vec::new();
    let mut piece = String::new();
    let mut i: usize = 0;
    assert(s@.take(0) =~= Seq::<char>::empty());
    assert(out@.map_values(f).push(piece@) =~= split_by(s@.take(0), mark));
    while i < chars.len()
        invariant
            i <= chars@.len(),
            chars@ == s@,
            f == (|p: String| p@),
            out@.map_values(f).push(piece@) == split_by(s@.take(i as int), mark),
        decreases chars@.len() - i,
    {
        let ghost was = out@.map_values(f).push(piece@);
        assert(s@.take(i + 1).drop_last() =~= s@.take(i as int));
        if chars[i] == mark {
            let ghost before_out = out@;
            let ghost p = piece@;
            out.push(piece);
            piece = String::new();
            assert(out@.map_values(f) =~= before_out.map_values(f).push(p));
            assert(out@.map_values(f).push(piece@) =~= was.push(Seq::empty()));
        } else {
            let ghost p = piece@;
            piece.push(chars[i]);
            assert(out@.map_values(f).push(piece@) =~= was.update(
                was.len() - 1,
                was.last().push(s@[i as int]),
            ));
        }
        i = i + 1;
    }
    assert(s@.take(i as int) =~= s@);
    let ghost before_out = out@;
    let ghost p = piece@;
    out.push(piece);
    assert(out@.map_values(f) =~= before_out.map_values(f).push(p));
    out
}

/// The text with one text put for every occurrence of a character.
pub open spec fn expanded(s: Seq<char>, mark: char, with: Seq<char>) -> Seq<char>
    decreases s.len(),
{
    if s.len() == 0 {
        Seq::empty()
    } else if s.last() == mark {
        expanded(s.drop_last(), mark, with) + with
    } else {
        expanded(s.drop_last(), mark, with).push(s.last())
    }
}

/// Puts a text for every occurrence of a character.
pub fn expand_char(s: &str, mark: char, with: &str) -> (out: String)
    ensures
        out@ == expanded(s@, mark, with@),
{
    let chars = chars_of(s);
    let mut out = String::new();
    let mut i: usize = 0;
    assert(s@.take(0) =~= Seq::<char>::empty());
    while i < chars.len()
        invariant
            i <= chars@.len(),
            chars@ == s@,
            out@ == expanded(s@.take(i as int), mark, with@),
        decreases chars@.len() - i,
    {
        assert(s@.take(i + 1).drop_last() =~= s@.take(i as int));
        if chars[i] == mark {
            out.append(with);
        } else {
            out.push(chars[i]);
        }
        i = i + 1;
    }
    assert(s@.take(i as int) =~= s@);
    out
}

/// The character is white space.
pub open spec fn is_white(c: char) -> bool {
    let n = c as u32;
    ||| 0x9 <= n <= 0xd
    ||| n == 0x20
    ||| n == 0x85
    ||| n == 0xa0
    ||| n == 0x1680
    ||| 0x2000 <= n <= 0x200a
    ||| n == 0x2028
    ||| n == 0x2029
    ||| n == 0x202f
    ||| n == 0x205f
    ||| n == 0x3000
}

/// Whether the character is white space.
pub fn is_white_char(c: char) -> (b: bool)
    ensures
        b == is_white(c),
{
    let n: u32 = c as u32;
    (0x9 <= n && n <= 0xd) || n == 0x20 || n == 0x85 || n == 0xa0 || n == 0x1680 || (0x2000 <= n
        && n <= 0x200a) || n == 0x2028 || n == 0x2029 || n == 0x202f || n == 0x205f || n == 0x3000
}

/// The text without white space in front.
pub open spec fn trimmed_front(s: Seq<char>) -> Seq<char>
    decreases s.len(),
{
    if s.len() > 0 && is_white(s[0]) {
        trimmed_front(s.drop_first())
    } else {
        s
    }
}

/// The text without white space behind.
pub open spec fn trimmed_back(s: Seq<char>) -> Seq<char>
    decreases s.len(),
{
    if s.len() > 0 && is_white(s.last()) {
        trimmed_back(s.drop_last())
    } else {
        s
    }
}

/// The text without white space around it.
pub open spec fn trimmed(s: Seq<char>) -> Seq<char> {
    trimmed_back(trimmed_front(s))
}

/// The text without white space around it.
pub fn trim(s: &str) -> (out: String)
    ensures
        out@ == trimmed(s@),
{
    let chars = chars_of(s);
    let mut from: usize = 0;
    assert(s@.skip(0) =~= s@);
    while from < chars.len() && is_white_char(chars[from])
        invariant
            from <= chars@.len(),
            chars@ == s@,
            trimmed_front(s@) == trimmed_front(s@.skip(from as int)),
        decreases chars@.len() - from,
    {
        assert(s@.skip(from as int).drop_first() =~= s@.skip(from + 1));
        from = from + 1;
    }
    let ghost front = s@.skip(from as int);
    assert(trimmed_front(s@) == front);
    let mut to: usize = chars.len();
    assert(front.take(to - from) =~= front);
    while to > from && is_white_char(chars[to - 1])
        invariant
            from <= to <= chars@.len(),
            chars@ == s@,
            front == s@.skip(from as int),
            trimmed_back(front) == trimmed_back(front.take(to - from)),
        decreases to,
    {
        assert(front.take(to - from).drop_last() =~= front.take(to - from - 1));
        to = to - 1;
    }
    assert(front.take(to - from) =~= s@.subrange(from as int, to as int));
    string_of(&chars, from, to)
}

/// The text without white space in front.
pub fn trim_front(s: &str) -> (out: String)
    ensures
        out@ == trimmed_front(s@),
{
    let chars = chars_of(s);
    let mut from: usize = 0;
    assert(s@.skip(0) =~= s@);
    while from < chars.len() && is_white_char(chars[from])
        invariant
            from <= chars@.len(),
            chars@ == s@,
            trimmed_front(s@) == trimmed_front(s@.skip(from as int)),
        decreases chars@.len() - from,
    {
        assert(s@.skip(from as int).drop_first() =~= s@.skip(from + 1));
        from = from + 1;
    }
    assert(s@.skip(from as int) =~= s@.subrange(from as int, s@.len() as int));
    string_of(&chars, from, chars.len())
}

/// The text without any number of `p` in front.
pub open spec fn without_prefixes(s: Seq<char>, p: Seq<char>) -> Seq<char>
    decreases s.len(),
{
    if p.len() > 0 && has_prefix(s, p) {
        without_prefixes(s.skip(p.len() as int), p)
    } else {
        s
    }
}

/// The text without any number of `p` in front.
pub fn strip_prefixes(s: &str, p: &str) -> (out: String)
    requires
        p@.len() > 0,
    ensures
        out@ == without_prefixes(s@, p@),
{
    let mut rest = s.to_owned();
    loop
        invariant
            p@.len() > 0,
            without_prefixes(s@, p@) == without_prefixes(rest@, p@),
        decreases rest@.len(),
    {
        match strip_prefix(rest.as_str(), p) {
            None => {
                return rest;
            },
            Some(next) => {
                rest = next;
            },
        }
    }
}

/// Whether two texts are the same.
pub fn same(a: &str, b: &str) -> (r: bool)
    ensures
        r == (a@ == b@),
{
    a.to_owned() == b.to_owned()
}

} // verus!
