//! The names that may cross the wire and become paths on the other side.
use vstd::prelude::*;
use vstd::string::*;
use vstd::utf8::*;

use crate::text::{
    chars_of, find, find_from, find_from_is_first, found, lines_of, occurs_at, pieces,
    pieces_not_empty, respell,
    respelled, same, split_on, starts, text_of, texts, without_return,
};

verus! {

/// A character that a project name may hold.
pub open spec fn project_char(c: char) -> bool {
    ||| 'a' <= c <= 'z'
    ||| 'A' <= c <= 'Z'
    ||| '0' <= c <= '9'
    ||| c == '.' || c == '_' || c == '-'
}

/// A project name becomes a path component on the server, so it is one word of at most 128 bytes
/// out of a small alphabet, and neither of the two names that every directory holds.
pub open spec fn project_ok(s: Seq<char>) -> bool {
    &&& s.len() > 0
    &&& encode_utf8(s).len() <= 128
    &&& s != seq!['.']
    &&& s != seq!['.', '.']
    &&& forall|i: int| 0 <= i < s.len() ==> project_char(#[trigger] s[i])
}

/// A component that a relative path may hold: not empty, and not the parent directory.
pub open spec fn component_ok(c: Seq<char>) -> bool {
    c.len() > 0 && c != seq!['.', '.']
}

/// A path relative to a project: at most 4096 bytes, forward slashes only, and no component that
/// is empty or leads up.
pub open spec fn rel_ok(s: Seq<char>) -> bool {
    &&& s.len() > 0
    &&& encode_utf8(s).len() <= 4096
    &&& s[0] != '/'
    &&& !s.contains('\\')
    &&& !s.contains('\0')
    &&& forall|i: int|
        0 <= i < pieces(s, '/').len() ==> component_ok(#[trigger] pieces(s, '/')[i])
}

/// A project name becomes a path component on the server. Anything that could
/// escape `/src` or `/targets` is rejected outright rather than sanitised;
/// there is no legitimate reason for a slash to be in here.
pub fn valid_project(s: &str) -> (r: bool)
    ensures
        r == project_ok(s@),
{
    proof {
        reveal_strlit("..");
        reveal_strlit(".");
        assert(".."@ =~= seq!['.', '.']);
        assert("."@ =~= seq!['.']);
    }
    if s.is_empty() || s.as_bytes().len() > 128 || same(s, "..") || same(s, ".") {
        return false;
    }
    let x = chars_of(s);
    let mut i: usize = 0;
    while i < x.len()
        invariant
            i <= x@.len(),
            x@ == s@,
            forall|k: int| 0 <= k < i ==> project_char(#[trigger] x@[k]),
        decreases x@.len() - i,
    {
        let c = x[i];
        if !(('a' <= c && c <= 'z') || ('A' <= c && c <= 'Z') || ('0' <= c && c <= '9') || c == '.'
            || c == '_' || c == '-') {
            assert(!project_char(s@[i as int]));
            return false;
        }
        i += 1;
    }
    true
}

/// Whether a character is anywhere in a string.
fn holds(s: &str, c: char) -> (r: bool)
    ensures
        r == s@.contains(c),
{
    let x = chars_of(s);
    let mut i: usize = 0;
    while i < x.len()
        invariant
            i <= x@.len(),
            x@ == s@,
            forall|k: int| 0 <= k < i ==> x@[k] != c,
        decreases x@.len() - i,
    {
        if x[i] == c {
            assert(s@[i as int] == c);
            return true;
        }
        i += 1;
    }
    false
}

/// The same idea as [`valid_project`] for relative paths inside a project.
pub fn valid_rel(s: &str) -> (r: bool)
    ensures
        r == rel_ok(s@),
{
    if s.is_empty() || s.as_bytes().len() > 4096 {
        return false;
    }
    let x = chars_of(s);
    if x[0] == '/' || holds(s, '\\') || holds(s, '\0') {
        return false;
    }
    proof {
        reveal_strlit("..");
        assert(".."@ =~= seq!['.', '.']);
    }
    let parts = split_on(s, '/');
    let mut i: usize = 0;
    while i < parts.len()
        invariant
            i <= parts@.len(),
            texts(parts@) == pieces(s@, '/'),
            ".."@ == seq!['.', '.'],
            forall|k: int| 0 <= k < i ==> component_ok(#[trigger] pieces(s@, '/')[k]),
        decreases parts@.len() - i,
    {
        assert(pieces(s@, '/')[i as int] == parts@[i as int]@);
        if parts[i].as_str().is_empty() || same(parts[i].as_str(), "..") {
            assert(!component_ok(pieces(s@, '/')[i as int]));
            return false;
        }
        i += 1;
    }
    true
}

/// Where following `parts` from the directory `at` leads, both as components from the filesystem's
/// root: an empty component and `.` stay, `..` goes up, anything else goes down.
pub open spec fn follow(at: Seq<Seq<char>>, parts: Seq<Seq<char>>) -> Seq<Seq<char>>
    decreases parts.len(),
{
    if parts.len() == 0 {
        at
    } else {
        let here = follow(at, parts.drop_last());
        let c = parts.last();
        if c.len() == 0 || c == seq!['.'] {
            here
        } else if c == seq!['.', '.'] {
            if here.len() > 0 {
                here.drop_last()
            } else {
                here
            }
        } else {
            here.push(c)
        }
    }
}

/// Whether the path `p` is the directory `dir` or something below it.
pub open spec fn within(p: Seq<Seq<char>>, dir: Seq<Seq<char>>) -> bool {
    dir.len() <= p.len() && p.take(dir.len() as int) == dir
}

proof fn following_good_components_goes_down(at: Seq<Seq<char>>, parts: Seq<Seq<char>>)
    requires
        forall|i: int| 0 <= i < parts.len() ==> component_ok(#[trigger] parts[i]),
    ensures
        within(follow(at, parts), at),
    decreases parts.len(),
{
    if parts.len() > 0 {
        let d = parts.drop_last();
        assert forall|i: int| 0 <= i < d.len() implies component_ok(#[trigger] d[i]) by {
            assert(d[i] == parts[i]);
        }
        following_good_components_goes_down(at, d);
        assert(component_ok(parts[parts.len() - 1]));
        assert(follow(at, parts).take(at.len() as int) =~= at);
    } else {
        assert(at.take(at.len() as int) =~= at);
    }
}

/// What holds no cut is one piece.
pub proof fn one_piece(s: Seq<char>, c: char)
    requires
        !s.contains(c),
    ensures
        pieces(s, c) == seq![s],
    decreases s.len(),
{
    if s.len() == 0 {
        assert(s == Seq::<char>::empty());
    } else {
        let d = s.drop_last();
        assert(!d.contains(c)) by {
            if d.contains(c) {
                let k = choose|k: int| 0 <= k < d.len() && d[k] == c;
                assert(s[k] == c);
            }
        }
        one_piece(d, c);
        assert(s[s.len() - 1] == s.last());
        assert(d.push(s.last()) =~= s);
        assert(pieces(s, c) =~= seq![s]);
    }
}

/// A project's directory is the root's child of that very name: a name that passes leads exactly
/// one step down, whatever it is.
pub proof fn a_project_is_a_child_of_the_root(root: Seq<Seq<char>>, project: Seq<char>)
    requires
        project_ok(project),
    ensures
        follow(root, pieces(project, '/')) == root.push(project),
{
    assert(!project.contains('/')) by {
        if project.contains('/') {
            let k = choose|k: int| 0 <= k < project.len() && project[k] == '/';
            assert(project_char(project[k]));
        }
    }
    one_piece(project, '/');
    let p = seq![project];
    assert(p.drop_last() =~= Seq::<Seq<char>>::empty());
    assert(follow(root, p.drop_last()) == root);
}

/// Nothing that passes escapes: a valid relative path, followed from a valid project's directory,
/// ends in that directory, whatever the root.
pub proof fn a_valid_path_stays_in_its_project(root: Seq<Seq<char>>, project: Seq<char>, rel: Seq<char>)
    requires
        project_ok(project),
        rel_ok(rel),
    ensures
        within(
            follow(follow(root, pieces(project, '/')), pieces(rel, '/')),
            root.push(project),
        ),
        within(follow(follow(root, pieces(project, '/')), pieces(rel, '/')), root),
{
    a_project_is_a_child_of_the_root(root, project);
    following_good_components_goes_down(root.push(project), pieces(rel, '/'));
    let p = follow(root.push(project), pieces(rel, '/'));
    assert(p.take(root.len() as int) =~= p.take(root.push(project).len() as int).take(root.len() as int));
    assert(root.push(project).take(root.len() as int) =~= root);
}

/// The part of `exe` that starts at the first `target` directory on its way, in forward slashes,
/// when that is a valid relative path.
pub open spec fn under_target(exe: Seq<char>, target: Seq<char>) -> Option<Seq<char>> {
    let e = respelled(exe, '\\', '/');
    match find_from(e, seq!['/'] + target + seq!['/'], 0) {
        Some(at) => if rel_ok(e.skip(at + 1)) {
            Some(e.skip(at + 1))
        } else {
            None
        },
        None => None,
    }
}

/// The path of `exe` relative to the project's target dir, which is the only thing a fetch will
/// serve. `None` if it isn't under one.
pub fn rel_under_target(exe: &str, target: &str) -> (r: Option<String>)
    ensures
        match r {
            Some(rel) => under_target(exe@, target@) == Some(rel@),
            None => under_target(exe@, target@) is None,
        },
{
    // A Windows server reports backslashes; the wire only ever speaks forward.
    let e = respell(exe, '\\', '/');
    let x = chars_of(e.as_str());
    let mut needle: Vec<char> = Vec::new();
    needle.push('/');
    let mut t = chars_of(target);
    needle.append(&mut t);
    needle.push('/');
    assert(needle@ =~= seq!['/'] + target@ + seq!['/']);
    match find(&x, &needle) {
        Some(at) => {
            let end: usize = x.len();
            let rel = text_of(&x, at + 1, end);
            assert(x@.subrange(at + 1, x@.len() as int) =~= x@.skip(at + 1));
            if valid_rel(rel.as_str()) {
                Some(rel)
            } else {
                None
            }
        },
        None => None,
    }
}

/// What is fetched is always a valid path, and it always lies in the target's own directory.
pub proof fn what_is_fetched_is_under_the_target(exe: Seq<char>, target: Seq<char>)
    ensures
        match under_target(exe, target) {
            Some(rel) => rel_ok(rel) && starts(rel, target + seq!['/']),
            None => true,
        },
{
    let e = respelled(exe, '\\', '/');
    let needle = seq!['/'] + target + seq!['/'];
    find_from_is_first(e, needle, 0);
    match find_from(e, needle, 0) {
        Some(at) => {
            let rel = e.skip(at + 1);
            let want = target + seq!['/'];
            let seen = e.subrange(at, at + needle.len());
            assert forall|k: int| 0 <= k < want.len() implies #[trigger] rel[k] == want[k] by {
                assert(rel[k] == seen[k + 1]);
                assert(seen[k + 1] == needle[k + 1]);
            }
            assert(rel.take(want.len() as int) =~= want);
        },
        None => {},
    }
}

/// `s` without the copies of `p` that it begins with.
pub open spec fn without_leading(s: Seq<char>, p: Seq<char>) -> Seq<char>
    decreases s.len(),
{
    if p.len() > 0 && starts(s, p) {
        without_leading(s.skip(p.len() as int), p)
    } else {
        s
    }
}

/// Where a fetched binary lands below the directory that collects them: its path without the
/// target, in the spelling of this machine, whose separator is `sep`.
pub open spec fn landing(rel: Seq<char>, target: Seq<char>, sep: char) -> Seq<char> {
    respelled(without_leading(without_leading(rel, target), seq!['/']), '/', sep)
}

/// The position in `x`, from `from` on, behind the copies of `p` that stand there.
fn skip_leading(x: &Vec<char>, p: &Vec<char>, from: usize) -> (at: usize)
    requires
        from <= x@.len(),
    ensures
        from <= at <= x@.len(),
        x@.skip(at as int) == without_leading(x@.skip(from as int), p@),
{
    let end: usize = x.len();
    let mut at: usize = from;
    while p.len() > 0 && occurs_at(x, p, at)
        invariant
            from <= at <= end == x@.len(),
            without_leading(x@.skip(at as int), p@) == without_leading(x@.skip(from as int), p@),
        decreases x@.len() - at,
    {
        assert(x@.skip(at as int).take(p@.len() as int) =~= x@.subrange(at as int, at + p@.len()));
        assert(x@.skip(at as int).skip(p@.len() as int) =~= x@.skip(at + p@.len()));
        at += p.len();
    }
    proof {
        if p@.len() > 0 && starts(x@.skip(at as int), p@) {
            assert(x@.skip(at as int).take(p@.len() as int) =~= x@.subrange(at as int, at + p@.len()));
        }
    }
    at
}

/// Where a fetched binary lands on this machine, below the directory that collects them.
pub fn fetched_name(rel: &str, target: &str, sep: char) -> (r: String)
    ensures
        r@ == landing(rel@, target@, sep),
{
    let x = chars_of(rel);
    let t = chars_of(target);
    let mut slash: Vec<char> = Vec::new();
    slash.push('/');
    assert(slash@ =~= seq!['/']);
    assert(x@.skip(0) =~= x@);
    let a = skip_leading(&x, &t, 0);
    let b = skip_leading(&x, &slash, a);
    assert(x@.subrange(b as int, x@.len() as int) =~= x@.skip(b as int));
    let name = text_of(&x, b, x.len());
    respell(name.as_str(), '/', sep)
}

/// The directories that a relative path goes through, innermost first.
pub open spec fn parents(rel: Seq<char>) -> Seq<Seq<char>>
    decreases rel.len(),
{
    if rel.len() == 0 {
        seq![]
    } else if rel.last() == '/' {
        seq![rel.drop_last()] + parents(rel.drop_last())
    } else {
        parents(rel.drop_last())
    }
}

/// The directories that a deleted file may leave empty, innermost first: what has to be tried for
/// removal, up to but not including the project's own directory.
pub fn emptied_by(rel: &str) -> (r: Vec<String>)
    ensures
        texts(r@) == parents(rel@),
{
    let x = chars_of(rel);
    let mut out: Vec<String> = Vec::new();
    let mut i: usize = x.len();
    assert(x@.take(i as int) =~= x@);
    assert(texts(out@) =~= Seq::<Seq<char>>::empty());
    assert(texts(out@) + parents(x@.take(i as int)) =~= parents(x@));
    while i > 0
        invariant
            i <= x@.len(),
            texts(out@) + parents(x@.take(i as int)) == parents(x@),
        decreases i,
    {
        let ghost before = texts(out@);
        assert(x@.take(i as int).drop_last() =~= x@.take(i - 1));
        if x[i - 1] == '/' {
            let dir = text_of(&x, 0, i - 1);
            assert(x@.subrange(0, i - 1) =~= x@.take(i - 1));
            let ghost d = dir@;
            out.push(dir);
            assert(texts(out@) =~= before.push(d));
            assert(before + (seq![d] + parents(x@.take(i - 1))) =~= before.push(d) + parents(
                x@.take(i - 1),
            ));
        }
        i -= 1;
    }
    assert(texts(out@) + parents(x@.take(0)) =~= texts(out@));
    out
}

proof fn encoding_of_a_prefix_is_no_longer(s: Seq<char>, n: int)
    requires
        0 <= n <= s.len(),
    ensures
        encode_utf8(s.take(n)).len() <= encode_utf8(s).len(),
    decreases n,
{
    if n > 0 {
        encoding_of_a_prefix_is_no_longer(s.drop_first(), n - 1);
        assert(s.take(n).drop_first() =~= s.drop_first().take(n - 1));
        assert(s.take(n)[0] == s[0]);
    }
}

proof fn pieces_of_a_prefix(s: Seq<char>, c: char, at: int)
    requires
        0 <= at < s.len(),
        s[at] == c,
    ensures
        pieces(s.take(at), c).len() < pieces(s, c).len(),
        forall|k: int|
            0 <= k < pieces(s.take(at), c).len() ==> #[trigger] pieces(s.take(at), c)[k] == pieces(s, c)[k],
    decreases s.len(),
{
    let d = s.drop_last();
    pieces_not_empty(d, c);
    if at == s.len() - 1 {
        assert(s.take(at) =~= d);
    } else {
        pieces_of_a_prefix(d, c, at);
        assert(d.take(at) =~= s.take(at));
    }
}

/// Removing what a deletion emptied stays in the project too: every directory on a valid path is a
/// valid path itself.
pub proof fn parents_of_a_valid_path_are_valid(rel: Seq<char>)
    requires
        rel_ok(rel),
    ensures
        forall|i: int| 0 <= i < parents(rel).len() ==> rel_ok(#[trigger] parents(rel)[i]),
{
    assert(rel.take(rel.len() as int) =~= rel);
    parents_below(rel, rel.len() as int);
}

proof fn parents_below(rel: Seq<char>, n: int)
    requires
        rel_ok(rel),
        0 <= n <= rel.len(),
    ensures
        forall|i: int|
            0 <= i < parents(rel.take(n)).len() ==> rel_ok(#[trigger] parents(rel.take(n))[i]),
    decreases n,
{
    if n > 0 {
        let s = rel.take(n);
        assert(s.drop_last() =~= rel.take(n - 1));
        parents_below(rel, n - 1);
        if s.last() == '/' {
            let d = rel.take(n - 1);
            assert(rel[n - 1] == '/');
            pieces_of_a_prefix(rel, '/', n - 1);
            encoding_of_a_prefix_is_no_longer(rel, n - 1);
            pieces_not_empty(d, '/');
            assert(component_ok(pieces(rel, '/')[0]));
            assert(d.len() > 0);
            assert(d[0] == rel[0]);
            assert(!d.contains('\\') && !d.contains('\0')) by {
                assert(forall|k: int| 0 <= k < d.len() ==> d[k] == rel[k]);
                if d.contains('\\') {
                    let k = choose|k: int| 0 <= k < d.len() && d[k] == '\\';
                    assert(rel[k] == '\\');
                }
                if d.contains('\0') {
                    let k = choose|k: int| 0 <= k < d.len() && d[k] == '\0';
                    assert(rel[k] == '\0');
                }
            }
            assert forall|k: int| 0 <= k < pieces(d, '/').len() implies component_ok(
                #[trigger] pieces(d, '/')[k],
            ) by {
                assert(component_ok(pieces(rel, '/')[k]));
            }
            assert(rel_ok(d));
            assert forall|i: int| 0 <= i < parents(s).len() implies rel_ok(#[trigger] parents(s)[i]) by {
                if i > 0 {
                    assert(parents(s)[i] == parents(d)[i - 1]);
                }
            }
        } else {
            assert(parents(s) == parents(rel.take(n - 1)));
        }
    } else {
        assert(parents(rel.take(0)) =~= Seq::<Seq<char>>::empty());
    }
}

proof fn encoding_of_a_suffix_is_no_longer(s: Seq<char>, n: int)
    requires
        0 <= n <= s.len(),
    ensures
        encode_utf8(s.skip(n)).len() <= encode_utf8(s).len(),
    decreases n,
{
    if n == 0 {
        assert(s.skip(0) =~= s);
    } else {
        encoding_of_a_suffix_is_no_longer(s.drop_first(), n - 1);
        assert(s.drop_first().skip(n - 1) =~= s.skip(n));
    }
}

/// The pieces on the two sides of a cut are those of the whole.
pub proof fn pieces_behind_a_cut(a: Seq<char>, c: char, b: Seq<char>)
    ensures
        pieces(a + seq![c] + b, c) == pieces(a, c) + pieces(b, c),
    decreases b.len(),
{
    let s = a + seq![c] + b;
    if b.len() == 0 {
        assert(s.drop_last() =~= a);
        assert(pieces(b, c) =~= seq![Seq::<char>::empty()]);
        assert(pieces(s, c) =~= pieces(a, c) + pieces(b, c));
    } else {
        let d = b.drop_last();
        pieces_behind_a_cut(a, c, d);
        pieces_not_empty(d, c);
        assert(s.drop_last() =~= a + seq![c] + d);
        assert(s.last() == b.last());
        let p = pieces(a, c);
        let q = pieces(d, c);
        assert((p + q).last() == q.last());
        assert((p + q).drop_last() =~= p + q.drop_last());
        assert(pieces(s, c) =~= p + pieces(b, c));
    }
}

/// A fetched binary lands below the directory that collects them: what is left of its path is a valid
/// one too.
pub proof fn a_fetched_binary_lands_below(exe: Seq<char>, target: Seq<char>)
    requires
        target.len() > 0,
        !target.contains('/'),
    ensures
        under_target(exe, target) matches Some(rel) ==> rel_ok(landing(rel, target, '/')),
{
    if let Some(rel) = under_target(exe, target) {
        what_is_fetched_is_under_the_target(exe, target);
        let n = target.len() as int;
        let w = rel.skip(n + 1);
        let head = target + seq!['/'];
        assert(rel.take(n + 1) == head);
        assert(rel =~= head + w);
        assert(rel =~= target + seq!['/'] + w);
        pieces_behind_a_cut(target, '/', w);
        one_piece(target, '/');
        let p = pieces(rel, '/');
        let q = pieces(w, '/');
        assert forall|i: int| 0 <= i < q.len() implies component_ok(#[trigger] q[i]) by {
            assert(p[i + 1] == q[i]);
            assert(component_ok(p[i + 1]));
        }
        pieces_not_empty(w, '/');
        assert(component_ok(q[0]));
        if w.len() == 0 {
            assert(w =~= Seq::<char>::empty());
        }
        assert(w.len() > 0);
        if w[0] == '/' {
            let v = w.skip(1);
            assert(w =~= Seq::<char>::empty() + seq!['/'] + v);
            pieces_behind_a_cut(Seq::empty(), '/', v);
            assert(pieces(Seq::<char>::empty(), '/')[0].len() == 0);
            assert(q[0].len() == 0);
        }
        assert forall|k: int| 0 <= k < w.len() implies #[trigger] w[k] == rel[n + 1 + k] by {}
        assert(!w.contains('\\') && !w.contains('\0')) by {
            if w.contains('\\') {
                let k = choose|k: int| 0 <= k < w.len() && w[k] == '\\';
                assert(rel[n + 1 + k] == '\\');
            }
            if w.contains('\0') {
                let k = choose|k: int| 0 <= k < w.len() && w[k] == '\0';
                assert(rel[n + 1 + k] == '\0');
            }
        }
        encoding_of_a_suffix_is_no_longer(rel, n + 1);
        assert(rel_ok(w));
        // Only the one copy of the target, and the one slash behind it, come off.
        assert(rel.take(n) =~= target);
        let after = rel.skip(n);
        assert(after[0] == '/');
        assert(!starts(after, target)) by {
            if starts(after, target) {
                assert(after.take(n)[0] == target[0]);
                assert(target.contains('/'));
            }
        }
        assert(without_leading(after, target) == after);
        assert(starts(rel, target));
        assert(without_leading(rel, target) == after);
        assert(after.take(1) =~= seq!['/']);
        assert(after.skip(1) =~= w);
        assert(!starts(w, seq!['/'])) by {
            if starts(w, seq!['/']) {
                assert(w.take(1)[0] == '/');
            }
        }
        assert(without_leading(w, seq!['/']) == w);
        assert(starts(after, seq!['/']));
        assert(without_leading(after, seq!['/']) == w);
        assert(respelled(w, '/', '/') =~= w);
    }
}

/// A project's name is a word of at most 128 bytes in ASCII letters, digits, dots, underscores and dashes,
/// other than the two that lead nowhere; every such word is one, and nothing else is.
pub proof fn what_a_project_may_be_called(s: Seq<char>)
    ensures
        project_ok(s) <==> {
            &&& 0 < s.len()
            &&& encode_utf8(s).len() <= 128
            &&& s != "."@ && s != ".."@
            &&& forall|i: int|
                0 <= i < s.len() ==> ('a' <= #[trigger] s[i] <= 'z' || 'A' <= s[i] <= 'Z' || '0' <= s[i] <= '9'
                    || s[i] == '.' || s[i] == '_' || s[i] == '-')
        },
{
    reveal_strlit(".");
    reveal_strlit("..");
    assert("."@ =~= seq!['.']);
    assert(".."@ =~= seq!['.', '.']);
    if forall|i: int|
        0 <= i < s.len() ==> ('a' <= #[trigger] s[i] <= 'z' || 'A' <= s[i] <= 'Z' || '0' <= s[i] <= '9' || s[i]
            == '.' || s[i] == '_' || s[i] == '-') {
        assert forall|i: int| 0 <= i < s.len() implies project_char(#[trigger] s[i]) by {}
    } else {
        let i = choose|i: int|
            0 <= i < s.len() && !('a' <= #[trigger] s[i] <= 'z' || 'A' <= s[i] <= 'Z' || '0' <= s[i] <= '9'
                || s[i] == '.' || s[i] == '_' || s[i] == '-');
        assert(!project_char(s[i]));
    }
}

/// A name without a slash is a valid path exactly if it is not empty and not too long, does not lead up,
/// and holds no backslash and no zero.
pub proof fn which_names_are_valid_paths(s: Seq<char>)
    requires
        !s.contains('/'),
    ensures
        rel_ok(s) <==> 0 < s.len() && encode_utf8(s).len() <= 4096 && s != ".."@ && !s.contains('\\')
            && !s.contains('\0'),
{
    reveal_strlit("..");
    assert(".."@ =~= seq!['.', '.']);
    one_piece(s, '/');
    let p = pieces(s, '/');
    assert(p[0] == s);
    if s.len() > 0 {
        assert(s[0] != '/') by {
            if s[0] == '/' {
                assert(s.contains('/'));
            }
        }
    }
    if s.len() > 0 && s != ".."@ {
        assert forall|i: int| 0 <= i < p.len() implies component_ok(#[trigger] p[i]) by {}
    }
}

/// A path is valid exactly if, at any slash in it, what is before it and what is behind it are valid
/// paths, and it is not too long itself.
pub proof fn valid_paths_are_made_of_valid_paths(a: Seq<char>, b: Seq<char>)
    ensures
        rel_ok(a + seq!['/'] + b) <==> rel_ok(a) && rel_ok(b) && encode_utf8(a + seq!['/'] + b).len() <= 4096,
{
    let s = a + seq!['/'] + b;
    pieces_behind_a_cut(a, '/', b);
    let p = pieces(a, '/');
    let q = pieces(b, '/');
    let all = pieces(s, '/');
    pieces_not_empty(a, '/');
    pieces_not_empty(b, '/');
    assert(s.take(a.len() as int) =~= a);
    assert(s.skip(a.len() as int + 1) =~= b);
    encoding_of_a_prefix_is_no_longer(s, a.len() as int);
    encoding_of_a_suffix_is_no_longer(s, a.len() as int + 1);
    if rel_ok(s) {
        assert forall|i: int| 0 <= i < p.len() implies component_ok(#[trigger] p[i]) by {
            assert(component_ok(all[i]));
        }
        assert forall|i: int| 0 <= i < q.len() implies component_ok(#[trigger] q[i]) by {
            assert(component_ok(all[p.len() + i]));
        }
        assert(component_ok(p[0]) && component_ok(q[0]));
        assert(pieces(Seq::<char>::empty(), '/')[0].len() == 0);
        assert(a.len() > 0) by {
            if a.len() == 0 {
                assert(a =~= Seq::<char>::empty());
            }
        }
        assert(b.len() > 0) by {
            if b.len() == 0 {
                assert(b =~= Seq::<char>::empty());
            }
        }
        assert(a[0] == s[0]);
        if b[0] == '/' {
            let v = b.skip(1);
            assert(b =~= Seq::<char>::empty() + seq!['/'] + v);
            pieces_behind_a_cut(Seq::empty(), '/', v);
            assert(q[0].len() == 0);
        }
        parts_hold_no_more(a, b, '\\');
        parts_hold_no_more(a, b, '\0');
    }
    if rel_ok(a) && rel_ok(b) && encode_utf8(s).len() <= 4096 {
        assert(s[0] == a[0]);
        parts_hold_no_more(a, b, '\\');
        parts_hold_no_more(a, b, '\0');
        assert forall|i: int| 0 <= i < all.len() implies component_ok(#[trigger] all[i]) by {
            if i < p.len() {
                assert(component_ok(p[i]));
            } else {
                assert(component_ok(q[i - p.len()]));
            }
        }
    }
}

proof fn parts_hold_no_more(a: Seq<char>, b: Seq<char>, c: char)
    requires
        c != '/',
    ensures
        (a + seq!['/'] + b).contains(c) <==> a.contains(c) || b.contains(c),
{
    let s = a + seq!['/'] + b;
    if a.contains(c) {
        let k = choose|k: int| 0 <= k < a.len() && a[k] == c;
        assert(s[k] == c);
    }
    if b.contains(c) {
        let k = choose|k: int| 0 <= k < b.len() && b[k] == c;
        assert(s[a.len() + 1 + k] == c);
    }
    if s.contains(c) {
        let k = choose|k: int| 0 <= k < s.len() && s[k] == c;
        if k < a.len() {
            assert(a[k] == c);
        } else if k > a.len() {
            assert(b[k - a.len() - 1] == c);
        }
    }
}

/// What is fetched of a binary that cargo reported, in forward slashes, is everything behind the slash in
/// front of the first directory with the platform's name, if that is a valid path; of one that is in no
/// such directory, nothing.
pub proof fn what_is_fetched_of_a_binary(exe: Seq<char>, target: Seq<char>, e: Seq<char>, at: int)
    requires
        e.len() == exe.len(),
        forall|k: int|
            0 <= k < exe.len() ==> #[trigger] e[k] == (if exe[k] == '\\' {
                '/'
            } else {
                exe[k]
            }),
        0 <= at,
        forall|k: int|
            0 <= k < at && k + target.len() + 2 <= e.len() ==> #[trigger] e.subrange(k, k + target.len() + 2)
                != seq!['/'] + target + seq!['/'],
        at + target.len() + 2 <= e.len() ==> e.subrange(at, at + target.len() + 2) == seq!['/'] + target
            + seq!['/'],
    ensures
        at + target.len() + 2 > e.len() ==> under_target(exe, target) is None,
        at + target.len() + 2 <= e.len() && rel_ok(e.skip(at + 1)) ==> under_target(exe, target) == Some(
            e.skip(at + 1),
        ),
        at + target.len() + 2 <= e.len() && !rel_ok(e.skip(at + 1)) ==> under_target(exe, target) is None,
{
    assert(respelled(exe, '\\', '/') =~= e);
    let needle = seq!['/'] + target + seq!['/'];
    assert(needle.len() == target.len() + 2);
    find_from_is_first(e, needle, 0);
    if at + target.len() + 2 <= e.len() {
        assert(found(e, needle, at));
    }
    if let Some(k) = find_from(e, needle, 0) {
        assert(e.subrange(k, k + target.len() + 2) == needle);
    }
}

/// Copies of a text in front come off one by one, until none is left there.
pub proof fn copies_in_front_come_off(s: Seq<char>, p: Seq<char>)
    requires
        p.len() > 0,
    ensures
        without_leading(p + s, p) == without_leading(s, p),
        !p.is_prefix_of(s) ==> without_leading(s, p) == s,
{
    assert((p + s).take(p.len() as int) =~= p);
    assert((p + s).skip(p.len() as int) =~= s);
}

/// A fetched binary lands at its path below the platform's directory, with this machine's separators.
pub proof fn where_a_fetched_binary_lands(target: Seq<char>, rest: Seq<char>, sep: char, to: Seq<char>)
    requires
        target.len() > 0,
        !target.contains('/'),
        rest.len() > 0 ==> rest[0] != '/',
        to.len() == rest.len(),
        forall|k: int|
            0 <= k < rest.len() ==> #[trigger] to[k] == (if rest[k] == '/' {
                sep
            } else {
                rest[k]
            }),
    ensures
        landing(target + seq!['/'] + rest, target, sep) == to,
{
    let after = seq!['/'] + rest;
    assert(target + seq!['/'] + rest =~= target + after);
    copies_in_front_come_off(after, target);
    assert(!target.is_prefix_of(after)) by {
        if target.is_prefix_of(after) {
            assert(target[0] == after.subrange(0, target.len() as int)[0]);
            assert(target.contains('/'));
        }
    }
    copies_in_front_come_off(rest, seq!['/']);
    assert(!seq!['/'].is_prefix_of(rest)) by {
        if seq!['/'].is_prefix_of(rest) {
            assert(rest.subrange(0, 1)[0] == '/');
        }
    }
    assert(respelled(rest, '/', sep) =~= to);
}

/// The directories on the way to a file are that of the file, and those on the way to it.
pub proof fn what_the_parents_of_a_path_are(dir: Seq<char>, name: Seq<char>)
    requires
        !name.contains('/'),
    ensures
        parents(name) == Seq::<Seq<char>>::empty(),
        parents(dir + seq!['/'] + name) == seq![dir] + parents(dir),
    decreases name.len(),
{
    let s = dir + seq!['/'] + name;
    if name.len() == 0 {
        assert(s.drop_last() =~= dir);
        assert(s.last() == '/');
    } else {
        let d = name.drop_last();
        assert(name[name.len() - 1] != '/') by {
            if name[name.len() - 1] == '/' {
                assert(name.contains('/'));
            }
        }
        assert(!d.contains('/')) by {
            if d.contains('/') {
                let k = choose|k: int| 0 <= k < d.len() && d[k] == '/';
                assert(name[k] == '/');
            }
        }
        what_the_parents_of_a_path_are(dir, d);
        assert(s.drop_last() =~= dir + seq!['/'] + d);
        assert(s.last() == name.last());
    }
}

/// The lines of a text are what is before each line feed, without a carriage return right in front of it,
/// and what is behind the last one, unless that is nothing.
pub proof fn where_lines_end(line: Seq<char>, rest: Seq<char>)
    requires
        !line.contains('\n'),
    ensures
        lines_of(Seq::<char>::empty()) == Seq::<Seq<char>>::empty(),
        line.len() > 0 ==> lines_of(line) == seq![line],
        line.len() > 0 && line.last() == '\r' ==> lines_of(line + seq!['\n'] + rest) == seq![line.drop_last()]
            + lines_of(rest),
        line.len() == 0 || line.last() != '\r' ==> lines_of(line + seq!['\n'] + rest) == seq![line]
            + lines_of(rest),
{
    one_piece(line, '\n');
    one_piece(Seq::empty(), '\n');
    pieces_behind_a_cut(line, '\n', rest);
    pieces_not_empty(rest, '\n');
    let s = line + seq!['\n'] + rest;
    let q = pieces(rest, '\n');
    let p = pieces(s, '\n');
    assert(p =~= seq![line] + q);
    assert(p.last() == q.last());
    let f = |l: Seq<char>| without_return(l);
    assert(p.drop_last() =~= seq![line] + q.drop_last());
    assert(p.drop_last().map_values(f) =~= seq![without_return(line)] + q.drop_last().map_values(f));
    assert(lines_of(s) =~= seq![without_return(line)] + lines_of(rest));
    assert(pieces(line, '\n').drop_last().map_values(f) =~= Seq::<Seq<char>>::empty());
    assert(lines_of(Seq::<char>::empty()) =~= Seq::<Seq<char>>::empty());
    if line.len() > 0 {
        assert(lines_of(line) =~= seq![line]);
    }
}

/// A path that is not below the platform's directory lands where it is, with this machine's separators.
pub proof fn where_any_other_path_lands(rel: Seq<char>, target: Seq<char>, sep: char, to: Seq<char>)
    requires
        !target.is_prefix_of(rel),
        rel.len() > 0 ==> rel[0] != '/',
        to.len() == rel.len(),
        forall|k: int|
            0 <= k < rel.len() ==> #[trigger] to[k] == (if rel[k] == '/' {
                sep
            } else {
                rel[k]
            }),
    ensures
        landing(rel, target, sep) == to,
{
    assert(!seq!['/'].is_prefix_of(rel)) by {
        if seq!['/'].is_prefix_of(rel) {
            assert(rel.subrange(0, 1)[0] == '/');
        }
    }
    copies_in_front_come_off(rel, seq!['/']);
    assert(respelled(rel, '/', sep) =~= to);
}

} // verus!
