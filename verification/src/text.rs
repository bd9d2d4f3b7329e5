//! Text, modelled as `Seq<char>`: comparison, slicing, joining and ordering.
use vstd::prelude::*;
use vstd::string::*;
use vstd::utf8::*;

verus! {

/// The views of the strings in a sequence, in order.
pub open spec fn texts(v: Seq<String>) -> Seq<Seq<char>> {
    v.map_values(|s: String| s@)
}

/// `String::push`: appends the given character to the end of the string.
pub assume_specification[ String::push ](s: &mut String, c: char)
    ensures
        final(s)@ == old(s)@.push(c),
;

/// Two texts with the same UTF-8 encoding are the same text.
pub proof fn encoding_is_injective(a: Seq<char>, b: Seq<char>)
    ensures
        (encode_utf8(a) == encode_utf8(b)) <==> a == b,
{
    broadcast use encode_utf8_decode_utf8;

    assert(decode_utf8(encode_utf8(a)) == a);
    assert(decode_utf8(encode_utf8(b)) == b);
}

/// Whether two strings hold the same text.
pub fn same(a: &str, b: &str) -> (r: bool)
    ensures
        r == (a@ == b@),
{
    proof {
        encoding_is_injective(a@, b@);
    }
    let x = a.as_bytes();
    let y = b.as_bytes();
    same_bytes(x, y)
}

/// Whether two byte strings are the same.
pub fn same_bytes(x: &[u8], y: &[u8]) -> (r: bool)
    ensures
        r == (x@ == y@),
{
    if x.len() != y.len() {
        return false;
    }
    let mut i: usize = 0;
    while i < x.len()
        invariant
            i <= x@.len(),
            x@.len() == y@.len(),
            x@.take(i as int) == y@.take(i as int),
        decreases x@.len() - i,
    {
        if x[i] != y[i] {
            return false;
        }
        assert(x@.take(i + 1) == x@.take(i as int).push(x@[i as int]));
        assert(y@.take(i + 1) == y@.take(i as int).push(y@[i as int]));
        i += 1;
    }
    assert(x@.take(i as int) == x@);
    assert(y@.take(i as int) == y@);
    true
}

/// The characters of a string.
pub fn chars_of(s: &str) -> (r: Vec<char>)
    ensures
        r@ == s@,
{
    let mut out: Vec<char> = Vec::new();
    for c in it: s.chars()
        invariant
            out@ == s@.take(it.index() as int),
            it.seq() == s@,
    {
        out.push(c);
    }
    assert(s@.take(s@.len() as int) == s@);
    out
}

/// The string that a run of characters spells.
pub fn text_of(v: &Vec<char>, from: usize, to: usize) -> (r: String)
    requires
        from <= to <= v@.len(),
    ensures
        r@ == v@.subrange(from as int, to as int),
{
    let mut out = String::new();
    let mut i: usize = from;
    while i < to
        invariant
            from <= i <= to <= v@.len(),
            out@ == v@.subrange(from as int, i as int),
        decreases to - i,
    {
        out.push(v[i]);
        assert(v@.subrange(from as int, i + 1) == v@.subrange(from as int, i as int).push(v@[i as int]));
        i += 1;
    }
    out
}

/// Whether `s` begins with `p`.
pub open spec fn starts(s: Seq<char>, p: Seq<char>) -> bool {
    p.len() <= s.len() && s.take(p.len() as int) == p
}

/// Whether `s` begins with `p`.
pub fn starts_with(s: &str, p: &str) -> (r: bool)
    ensures
        r == starts(s@, p@),
{
    let x = chars_of(s);
    let y = chars_of(p);
    occurs_at(&x, &y, 0)
}

/// Whether `p` occurs in `s` at position `at`.
pub open spec fn found(s: Seq<char>, p: Seq<char>, at: int) -> bool {
    0 <= at && at + p.len() <= s.len() && s.subrange(at, at + p.len()) == p
}

/// Whether `y` occurs in `x` at position `at`.
pub fn occurs_at(x: &Vec<char>, y: &Vec<char>, at: usize) -> (r: bool)
    ensures
        r == found(x@, y@, at as int),
        at == 0 ==> r == starts(x@, y@),
{
    proof {
        if y@.len() <= x@.len() {
            assert(x@.take(y@.len() as int) == x@.subrange(0, y@.len() as int));
        }
    }
    if at > x.len() || y.len() > x.len() - at {
        return false;
    }
    let mut i: usize = 0;
    while i < y.len()
        invariant
            i <= y@.len(),
            at + y@.len() <= x@.len() <= usize::MAX,
            forall|k: int| 0 <= k < i ==> x@[at + k] == y@[k],
        decreases y@.len() - i,
    {
        if x[at + i] != y[i] {
            assert(x@.subrange(at as int, at + y@.len())[i as int] == x@[at + i]);
            return false;
        }
        i += 1;
    }
    assert(x@.subrange(at as int, at + y@.len()) == y@);
    true
}

/// The first position at or after `from` where `p` occurs in `s`.
pub open spec fn find_from(s: Seq<char>, p: Seq<char>, from: int) -> Option<int>
    decreases s.len() + 1 - from,
{
    if from < 0 || from > s.len() {
        None
    } else if found(s, p, from) {
        Some(from)
    } else {
        find_from(s, p, from + 1)
    }
}

/// The first position where `y` occurs in `x`.
pub fn find(x: &Vec<char>, y: &Vec<char>) -> (r: Option<usize>)
    ensures
        match r {
            Some(at) => find_from(x@, y@, 0) == Some(at as int) && found(x@, y@, at as int),
            None => find_from(x@, y@, 0) is None,
        },
{
    let mut at: usize = 0;
    while at < x.len()
        invariant
            at <= x@.len(),
            find_from(x@, y@, 0) == find_from(x@, y@, at as int),
        decreases x@.len() - at,
    {
        if occurs_at(x, y, at) {
            return Some(at);
        }
        at += 1;
    }
    if occurs_at(x, y, at) {
        return Some(at);
    }
    assert(find_from(x@, y@, at + 1) is None);
    None
}

/// `find_from` is what it says: the least position, and `None` only when there is no occurrence.
pub proof fn find_from_is_first(s: Seq<char>, p: Seq<char>, from: int)
    requires
        0 <= from,
    ensures
        match find_from(s, p, from) {
            Some(at) => from <= at && found(s, p, at) && forall|k: int|
                from <= k < at ==> !#[trigger] found(s, p, k),
            None => forall|k: int| from <= k ==> !#[trigger] found(s, p, k),
        },
    decreases s.len() + 1 - from,
{
    if from <= s.len() && !found(s, p, from) {
        find_from_is_first(s, p, from + 1);
    }
}

/// `s` cut at every occurrence of `c`: one piece more than there are cuts.
pub open spec fn pieces(s: Seq<char>, c: char) -> Seq<Seq<char>>
    decreases s.len(),
{
    if s.len() == 0 {
        seq![seq![]]
    } else {
        let before = pieces(s.drop_last(), c);
        if s.last() == c {
            before.push(seq![])
        } else {
            before.drop_last().push(before.last().push(s.last()))
        }
    }
}

/// There is always at least one piece.
pub proof fn pieces_not_empty(s: Seq<char>, c: char)
    ensures
        pieces(s, c).len() >= 1,
    decreases s.len(),
{
    if s.len() > 0 {
        pieces_not_empty(s.drop_last(), c);
    }
}

/// Cuts a string at every occurrence of a character.
pub fn split_on(s: &str, c: char) -> (r: Vec<String>)
    ensures
        texts(r@) == pieces(s@, c),
        r@.len() >= 1,
{
    let x = chars_of(s);
    let mut out: Vec<String> = Vec::new();
    let mut cur = String::new();
    let mut i: usize = 0;
    assert(texts(out@) == Seq::<Seq<char>>::empty());
    assert(x@.take(0) == Seq::<char>::empty());
    while i < x.len()
        invariant
            i <= x@.len(),
            texts(out@).push(cur@) == pieces(x@.take(i as int), c),
        decreases x@.len() - i,
    {
        let ghost before = texts(out@);
        assert(x@.take(i + 1).drop_last() == x@.take(i as int));
        if x[i] == c {
            let ghost piece = cur;
            out.push(cur);
            cur = String::new();
            assert(texts(out@) == before.push(piece@));
        } else {
            cur.push(x[i]);
            assert(pieces(x@.take(i as int), c).drop_last() == before);
        }
        i += 1;
    }
    assert(x@.take(i as int) == x@);
    let ghost before = texts(out@);
    let ghost piece = cur;
    out.push(cur);
    assert(texts(out@) == before.push(piece@));
    out
}

/// `parts` written one after another with `sep` between each two.
pub open spec fn joined(parts: Seq<Seq<char>>, sep: Seq<char>) -> Seq<char>
    decreases parts.len(),
{
    if parts.len() == 0 {
        seq![]
    } else if parts.len() == 1 {
        parts[0]
    } else {
        joined(parts.drop_last(), sep) + sep + parts.last()
    }
}

/// Writes strings one after another with `sep` between each two.
pub fn join(parts: &Vec<String>, sep: &str) -> (r: String)
    ensures
        r@ == joined(texts(parts@), sep@),
{
    let mut out = String::new();
    let mut i: usize = 0;
    assert(texts(parts@).take(0) == Seq::<Seq<char>>::empty());
    while i < parts.len()
        invariant
            i <= parts@.len(),
            out@ == joined(texts(parts@).take(i as int), sep@),
        decreases parts@.len() - i,
    {
        let ghost now = texts(parts@).take(i + 1);
        assert(now.drop_last() == texts(parts@).take(i as int));
        assert(now.last() == parts@[i as int]@);
        if i > 0 {
            out.append(sep);
        }
        out.append(parts[i].as_str());
        assert(out@ == joined(now, sep@)) by {
            if i == 0 {
                assert(out@ == parts@[0]@);
            }
        }
        i += 1;
    }
    assert(texts(parts@).take(i as int) == texts(parts@));
    out
}

/// `s` with every `a` turned into a `b`.
pub open spec fn respelled(s: Seq<char>, a: char, b: char) -> Seq<char> {
    s.map_values(|c: char| if c == a { b } else { c })
}

/// Turns every `a` into a `b`.
pub fn respell(s: &str, a: char, b: char) -> (r: String)
    ensures
        r@ == respelled(s@, a, b),
{
    let x = chars_of(s);
    let mut out = String::new();
    let mut i: usize = 0;
    while i < x.len()
        invariant
            i <= x@.len(),
            out@ == respelled(x@, a, b).take(i as int),
        decreases x@.len() - i,
    {
        if x[i] == a {
            out.push(b);
        } else {
            out.push(x[i]);
        }
        assert(respelled(x@, a, b).take(i + 1) == respelled(x@, a, b).take(i as int).push(
            respelled(x@, a, b)[i as int],
        ));
        i += 1;
    }
    assert(respelled(x@, a, b).take(i as int) == respelled(x@, a, b));
    out
}

/// The first occurrence of `c` in `s`, or the length of `s` when there is none.
pub open spec fn first_of(s: Seq<char>, c: char) -> int
    decreases s.len(),
{
    if s.len() == 0 {
        0
    } else if s[0] == c {
        0
    } else {
        1 + first_of(s.drop_first(), c)
    }
}

/// `first_of` is the first occurrence.
pub proof fn first_of_is_first(s: Seq<char>, c: char)
    ensures
        0 <= first_of(s, c) <= s.len(),
        first_of(s, c) < s.len() ==> s[first_of(s, c)] == c,
        forall|k: int| 0 <= k < first_of(s, c) ==> s[k] != c,
    decreases s.len(),
{
    if s.len() > 0 && s[0] != c {
        first_of_is_first(s.drop_first(), c);
        assert forall|k: int| 0 <= k < first_of(s, c) implies s[k] != c by {
            if k > 0 {
                assert(s[k] == s.drop_first()[k - 1]);
            }
        }
    }
}

/// A position with `c` in it and none before it is the first.
pub proof fn first_of_unique(s: Seq<char>, c: char, at: int)
    requires
        0 <= at <= s.len(),
        at < s.len() ==> s[at] == c,
        forall|k: int| 0 <= k < at ==> s[k] != c,
    ensures
        first_of(s, c) == at,
    decreases s.len(),
{
    if at > 0 {
        let t = s.drop_first();
        assert forall|k: int| 0 <= k < at - 1 implies t[k] != c by {
            assert(t[k] == s[k + 1]);
        }
        assert(s[0] != c);
        first_of_unique(t, c, at - 1);
    }
}

/// `s` cut at the first `c`: what stands before it, and what follows when it is there at all.
pub open spec fn cut_once(s: Seq<char>, c: char) -> (Seq<char>, Option<Seq<char>>) {
    let at = first_of(s, c);
    if at < s.len() {
        (s.take(at), Some(s.skip(at + 1)))
    } else {
        (s, None)
    }
}

/// The view of an optional string.
pub open spec fn opt_text(o: Option<String>) -> Option<Seq<char>> {
    match o {
        Some(s) => Some(s@),
        None => None,
    }
}

/// Cuts a string at the first `c`.
pub fn split_once(s: &str, c: char) -> (r: (String, Option<String>))
    ensures
        (r.0@, opt_text(r.1)) == cut_once(s@, c),
{
    let x = chars_of(s);
    let mut i: usize = 0;
    while i < x.len() && x[i] != c
        invariant
            i <= x@.len(),
            forall|k: int| 0 <= k < i ==> x@[k] != c,
        decreases x@.len() - i,
    {
        i += 1;
    }
    proof {
        first_of_unique(x@, c, i as int);
        assert(x@.subrange(0, i as int) == x@.take(i as int));
        assert(x@.take(x@.len() as int) == x@);
    }
    let head = text_of(&x, 0, i);
    if i < x.len() {
        assert(x@.subrange(i + 1, x@.len() as int) == x@.skip(i + 1));
        (head, Some(text_of(&x, i + 1, x.len())))
    } else {
        (head, None)
    }
}

/// Whether a string is among others.
pub fn has_text(v: &Vec<String>, s: &str) -> (r: bool)
    ensures
        r == texts(v@).contains(s@),
{
    let mut i: usize = 0;
    while i < v.len()
        invariant
            i <= v@.len(),
            forall|k: int| 0 <= k < i ==> #[trigger] texts(v@)[k] != s@,
        decreases v@.len() - i,
    {
        if same(v[i].as_str(), s) {
            assert(texts(v@)[i as int] == s@);
            return true;
        }
        assert(texts(v@)[i as int] == v@[i as int]@);
        i += 1;
    }
    false
}

/// A copy of a list of strings.
pub fn copy_texts(v: &Vec<String>) -> (r: Vec<String>)
    ensures
        texts(r@) == texts(v@),
{
    let mut out: Vec<String> = Vec::new();
    let mut i: usize = 0;
    while i < v.len()
        invariant
            i <= v@.len(),
            texts(out@) == texts(v@).take(i as int),
        decreases v@.len() - i,
    {
        let ghost was = texts(out@);
        out.push(v[i].clone());
        assert(texts(out@) =~= was.push(v@[i as int]@));
        assert(texts(out@) =~= texts(v@).take(i + 1));
        i += 1;
    }
    assert(texts(v@).take(i as int) =~= texts(v@));
    out
}

/// Appends copies of strings to a list.
pub fn extend_texts(v: &mut Vec<String>, more: &Vec<String>)
    ensures
        texts(final(v)@) == texts(old(v)@) + texts(more@),
{
    let ghost was = texts(v@);
    let mut copy = copy_texts(more);
    let ghost added = texts(copy@);
    v.append(&mut copy);
    assert(texts(v@) =~= was + added);
}

/// What a string looks like in quotes, with its special characters escaped.
pub uninterp spec fn quoted_text(s: Seq<char>) -> Seq<char>;

/// `format!` with `{:?}` on a `str`: the text in double quotes, escaped as a Rust literal is. Which
/// characters are escaped, and how, is left to the name [`quoted_text`].
#[verifier::external_body]
pub(crate) fn quoted(s: &str) -> (r: String)
    ensures
        r@ == quoted_text(s@),
{
    format!("{:?}", s)
}

/// The text that bytes stand for when what is not UTF-8 in them is replaced.
pub uninterp spec fn lossy_text(b: Seq<u8>) -> Seq<char>;

/// `String::from_utf8_lossy`: the text of the bytes, with U+FFFD in place of what is not UTF-8. Of
/// bytes that are valid UTF-8 it is the text that they encode; where the replacements stand in
/// others is left to the name [`lossy_text`].
#[verifier::external_body]
pub(crate) fn text_from_bytes(b: &[u8]) -> (r: String)
    ensures
        r@ == lossy_text(b@),
        valid_utf8(b@) ==> r@ == decode_utf8(b@),
{
    String::from_utf8_lossy(b).into_owned()
}

/// White space, as Unicode's White_Space property has it.
pub open spec fn white(c: char) -> bool {
    ||| '\u{9}' <= c <= '\u{d}'
    ||| c == ' ' || c == '\u{85}' || c == '\u{a0}' || c == '\u{1680}'
    ||| '\u{2000}' <= c <= '\u{200a}'
    ||| c == '\u{2028}' || c == '\u{2029}' || c == '\u{202f}' || c == '\u{205f}' || c == '\u{3000}'
}

/// Whether a character is white space.
pub fn is_white(c: char) -> (r: bool)
    ensures
        r == white(c),
{
    ('\u{9}' <= c && c <= '\u{d}') || c == ' ' || c == '\u{85}' || c == '\u{a0}' || c == '\u{1680}' || (
    '\u{2000}' <= c && c <= '\u{200a}') || c == '\u{2028}' || c == '\u{2029}' || c == '\u{202f}' || c
        == '\u{205f}' || c == '\u{3000}'
}

/// `s` without the white space that it ends with.
pub open spec fn end_trimmed(s: Seq<char>) -> Seq<char>
    decreases s.len(),
{
    if s.len() > 0 && white(s.last()) {
        end_trimmed(s.drop_last())
    } else {
        s
    }
}

/// `s` without the white space that it begins with.
pub open spec fn start_trimmed(s: Seq<char>) -> Seq<char>
    decreases s.len(),
{
    if s.len() > 0 && white(s[0]) {
        start_trimmed(s.skip(1))
    } else {
        s
    }
}

/// `s` without the white space at either end.
pub open spec fn trimmed(s: Seq<char>) -> Seq<char> {
    end_trimmed(start_trimmed(s))
}

/// Takes the white space off the end of a string.
pub fn trim_end(s: &str) -> (r: String)
    ensures
        r@ == end_trimmed(s@),
{
    let x = chars_of(s);
    let mut n: usize = x.len();
    assert(x@.take(n as int) =~= x@);
    while n > 0 && is_white(x[n - 1])
        invariant
            n <= x@.len(),
            end_trimmed(x@.take(n as int)) == end_trimmed(x@),
        decreases n,
    {
        assert(x@.take(n as int).drop_last() =~= x@.take(n - 1));
        n -= 1;
    }
    assert(x@.subrange(0, n as int) =~= x@.take(n as int));
    text_of(&x, 0, n)
}

/// Takes the white space off both ends of a string.
pub fn trim(s: &str) -> (r: String)
    ensures
        r@ == trimmed(s@),
{
    let x = chars_of(s);
    let mut i: usize = 0;
    assert(x@.skip(0) =~= x@);
    while i < x.len() && is_white(x[i])
        invariant
            i <= x@.len(),
            start_trimmed(x@.skip(i as int)) == start_trimmed(x@),
        decreases x@.len() - i,
    {
        assert(x@.skip(i as int).skip(1) =~= x@.skip(i + 1));
        i += 1;
    }
    assert(x@.subrange(i as int, x@.len() as int) =~= x@.skip(i as int));
    let t = text_of(&x, i, x.len());
    trim_end(t.as_str())
}

/// `s` without the carriage return that it ends with, if it does.
pub open spec fn without_return(s: Seq<char>) -> Seq<char> {
    if s.len() > 0 && s.last() == '\r' {
        s.drop_last()
    } else {
        s
    }
}

/// The lines of `s`: what stands before each newline, with a carriage return right before it taken
/// off, and what follows the last one unless that is nothing.
pub open spec fn lines_of(s: Seq<char>) -> Seq<Seq<char>> {
    let p = pieces(s, '\n');
    let ended = p.drop_last().map_values(|l: Seq<char>| without_return(l));
    if p.last().len() == 0 {
        ended
    } else {
        ended.push(p.last())
    }
}

/// The lines of a string.
pub fn lines(s: &str) -> (r: Vec<String>)
    ensures
        texts(r@) == lines_of(s@),
{
    let parts = split_on(s, '\n');
    let ghost p = texts(parts@);
    let mut out: Vec<String> = Vec::new();
    let mut i: usize = 0;
    let last: usize = parts.len() - 1;
    let ghost ended = p.drop_last().map_values(|l: Seq<char>| without_return(l));
    while i < last
        invariant
            i <= last,
            last + 1 == parts@.len(),
            p == texts(parts@),
            ended == p.drop_last().map_values(|l: Seq<char>| without_return(l)),
            texts(out@) == ended.take(i as int),
        decreases last - i,
    {
        let x = chars_of(parts[i].as_str());
        let ghost was = texts(out@);
        let line = if x.len() > 0 && x[x.len() - 1] == '\r' {
            assert(x@.subrange(0, x@.len() - 1) =~= x@.drop_last());
            text_of(&x, 0, x.len() - 1)
        } else {
            parts[i].clone()
        };
        assert(line@ == ended[i as int]);
        let ghost l = line@;
        out.push(line);
        assert(texts(out@) =~= was.push(l));
        assert(texts(out@) =~= ended.take(i + 1));
        i += 1;
    }
    assert(ended.take(i as int) =~= ended);
    assert(p.last() == parts@[last as int]@);
    if !parts[last].as_str().is_empty() {
        out.push(parts[last].clone());
        assert(texts(out@) =~= ended.push(p.last()));
    }
    out
}

/// To begin with a text is to have it as a prefix.
pub proof fn what_it_is_to_start_with(s: Seq<char>, p: Seq<char>)
    ensures
        starts(s, p) <==> exists|rest: Seq<char>| s == p + rest,
{
    if starts(s, p) {
        assert(s =~= p + s.skip(p.len() as int));
    }
    if exists|rest: Seq<char>| s == p + rest {
        let rest = choose|rest: Seq<char>| s == p + rest;
        assert(s.take(p.len() as int) =~= p);
    }
}

/// How texts are joined: nothing stands before the first or behind the last, and the separator between
/// each two.
pub proof fn how_texts_are_joined(parts: Seq<Seq<char>>, last: Seq<char>, sep: Seq<char>)
    ensures
        joined(Seq::<Seq<char>>::empty(), sep) == Seq::<char>::empty(),
        joined(seq![last], sep) == last,
        parts.len() > 0 ==> joined(parts.push(last), sep) == joined(parts, sep) + sep + last,
{
    assert(parts.push(last).drop_last() =~= parts);
}

/// A text that is cut and joined again is what it was.
pub proof fn cutting_and_joining_undo_each_other(s: Seq<char>, c: char)
    ensures
        joined(pieces(s, c), seq![c]) == s,
    decreases s.len(),
{
    if s.len() == 0 {
        assert(pieces(s, c) =~= seq![Seq::<char>::empty()]);
    } else {
        let d = s.drop_last();
        cutting_and_joining_undo_each_other(d, c);
        pieces_not_empty(d, c);
        let before = pieces(d, c);
        if s.last() == c {
            how_texts_are_joined(before, seq![], seq![c]);
            assert(d + seq![c] + Seq::<char>::empty() =~= s);
        } else {
            let now = pieces(s, c);
            let head = before.drop_last();
            assert(before =~= head.push(before.last()));
            assert(now =~= head.push(before.last().push(s.last())));
            how_texts_are_joined(head, before.last(), seq![c]);
            how_texts_are_joined(head, before.last().push(s.last()), seq![c]);
            if head.len() == 0 {
                assert(before =~= seq![before.last()]);
                assert(now =~= seq![before.last().push(s.last())]);
                assert(d.push(s.last()) =~= s);
            } else {
                let j = joined(head, seq![c]) + seq![c];
                assert(j + before.last().push(s.last()) =~= (j + before.last()).push(s.last()));
                assert(d.push(s.last()) =~= s);
            }
        }
    }
}

/// Each character is kept unless it is the one that is respelled.
pub proof fn what_is_respelled(s: Seq<char>, a: char, b: char)
    ensures
        respelled(s, a, b).len() == s.len(),
        forall|i: int|
            0 <= i < s.len() ==> (s[i] == a ==> #[trigger] respelled(s, a, b)[i] == b) && (s[i] != a ==> respelled(
                s,
                a,
                b,
            )[i] == s[i]),
{
}

/// The code points that are white space.
pub proof fn which_characters_are_white(c: char)
    ensures
        white(c) <==> {
            ||| 9 <= c as u32 <= 13
            ||| c as u32 == 32
            ||| c as u32 == 0x85
            ||| c as u32 == 0xa0
            ||| c as u32 == 0x1680
            ||| 0x2000 <= c as u32 <= 0x200a
            ||| c as u32 == 0x2028
            ||| c as u32 == 0x2029
            ||| c as u32 == 0x202f
            ||| c as u32 == 0x205f
            ||| c as u32 == 0x3000
        },
{
}

/// White space comes off both ends of a text and stays inside it.
pub proof fn what_trimming_leaves(a: Seq<char>, s: Seq<char>, b: Seq<char>)
    requires
        forall|i: int| 0 <= i < a.len() ==> white(#[trigger] a[i]),
        forall|i: int| 0 <= i < b.len() ==> white(#[trigger] b[i]),
        s.len() > 0 ==> !white(s[0]) && !white(s.last()),
    ensures
        trimmed(a + s + b) == s,
        end_trimmed(s + b) == s,
{
    start_comes_off(a, s + b);
    assert(a + (s + b) =~= a + s + b);
    end_comes_off(s, b);
    if s.len() > 0 {
        assert((s + b)[0] == s[0]);
    } else {
        assert(s + b =~= b + Seq::<char>::empty());
        start_comes_off(b, Seq::empty());
        assert(s =~= Seq::<char>::empty());
    }
}

proof fn start_comes_off(a: Seq<char>, s: Seq<char>)
    requires
        forall|i: int| 0 <= i < a.len() ==> white(#[trigger] a[i]),
    ensures
        start_trimmed(a + s) == start_trimmed(s),
    decreases a.len(),
{
    if a.len() == 0 {
        assert(a + s =~= s);
    } else {
        let t = a.skip(1);
        assert(white(a[0]));
        assert forall|i: int| 0 <= i < t.len() implies white(#[trigger] t[i]) by {
            assert(white(a[i + 1]));
        }
        start_comes_off(t, s);
        assert((a + s).skip(1) =~= t + s);
    }
}

proof fn end_comes_off(s: Seq<char>, b: Seq<char>)
    requires
        forall|i: int| 0 <= i < b.len() ==> white(#[trigger] b[i]),
    ensures
        end_trimmed(s + b) == end_trimmed(s),
    decreases b.len(),
{
    if b.len() == 0 {
        assert(s + b =~= s);
    } else {
        let t = b.drop_last();
        assert(white(b[b.len() - 1]));
        assert forall|i: int| 0 <= i < t.len() implies white(#[trigger] t[i]) by {
            assert(white(b[i]));
        }
        end_comes_off(s, t);
        assert((s + b).drop_last() =~= s + t);
    }
}

/// A text is found in another exactly if it stands there, and at the first place where it does.
pub proof fn where_a_text_is_found(s: Seq<char>, p: Seq<char>, at: int)
    ensures
        find_from(s, p, 0) is Some <==> exists|k: int|
            0 <= k && k + p.len() <= s.len() && #[trigger] s.subrange(k, k + p.len()) == p,
        (0 <= at && at + p.len() <= s.len() && s.subrange(at, at + p.len()) == p && forall|k: int|
            0 <= k < at ==> #[trigger] s.subrange(k, k + p.len()) != p) ==> find_from(s, p, 0) == Some(at),
{
    find_from_is_first(s, p, 0);
    if let Some(k) = find_from(s, p, 0) {
        assert(found(s, p, k));
        assert(s.subrange(k, k + p.len()) == p);
    }
    if exists|k: int| 0 <= k && k + p.len() <= s.len() && #[trigger] s.subrange(k, k + p.len()) == p {
        let k = choose|k: int| 0 <= k && k + p.len() <= s.len() && #[trigger] s.subrange(k, k + p.len()) == p;
        assert(found(s, p, k));
    }
    if 0 <= at && at + p.len() <= s.len() && s.subrange(at, at + p.len()) == p {
        assert(found(s, p, at));
    }
}

} // verus!
