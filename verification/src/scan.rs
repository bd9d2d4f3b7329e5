//! What a walk over a tree yields: the files to sync, and which `--include` globs named nothing.
use vstd::prelude::*;
use vstd::string::*;

use crate::files::{as_map, mapped_paths, Files};
use crate::globs::{matching, set_paths, Includes};
use crate::paths::{one_piece, pieces_behind_a_cut, rel_ok, valid_rel};
use crate::text::{join, joined, pieces, same, texts};
use crate::wire::{headers, FileHeader, HeaderView};

verus! {

/// When a file was last changed, as far as the platform says.
#[derive(Debug, Clone, Copy)]
pub enum Modified {
    Unknown,
    BeforeEpoch,
    /// This many seconds after the epoch.
    At(u64),
}

/// What a file's metadata holds.
#[derive(Debug, Clone, Copy)]
pub struct Facts {
    pub size: u64,
    pub modified: Modified,
}

/// Something that a walk came by.
#[derive(Debug)]
pub struct Entry {
    /// Whether it is a file.
    pub file: bool,
    /// Its metadata, if that can be read.
    pub facts: Option<Facts>,
    /// The components of its path below the root that is walked, if it is below it. `None` stands
    /// for one that is no text.
    pub under: Option<Vec<Option<String>>>,
}

/// The model of an [`Entry`].
#[verifier::ext_equal]
pub struct EntryView {
    pub file: bool,
    pub facts: Option<Facts>,
    pub under: Option<Seq<Option<Seq<char>>>>,
}

/// The views of path components.
pub open spec fn components(v: Seq<Option<String>>) -> Seq<Option<Seq<char>>> {
    v.map_values(
        |c: Option<String>|
            match c {
                Some(s) => Some(s@),
                None => None,
            },
    )
}

impl View for Entry {
    type V = EntryView;

    open spec fn view(&self) -> EntryView {
        EntryView {
            file: self.file,
            facts: self.facts,
            under: match self.under {
                Some(v) => Some(components(v@)),
                None => None,
            },
        }
    }
}

/// The views of a list of entries.
pub open spec fn entries(v: Seq<Entry>) -> Seq<EntryView> {
    v.map_values(|e: Entry| e@)
}

/// Whether a walk goes on below a name. `.git` and `target` stay out: one holds the history, the
/// other is build output the server has its own copy of.
pub open spec fn walked(name: Option<Seq<char>>) -> bool {
    name != Some(".git"@) && name != Some("target"@)
}

/// Whether a walk goes on below a name. `None` stands for one that is no text.
pub fn walks_into(name: Option<&str>) -> (r: bool)
    ensures
        r == walked(
            match name {
                Some(n) => Some(n@),
                None => None,
            },
        ),
{
    match name {
        Some(n) => !same(n, ".git") && !same(n, "target"),
        None => true,
    }
}

/// The components that are texts.
pub open spec fn readable(c: Seq<Option<Seq<char>>>) -> Seq<Seq<char>>
    decreases c.len(),
{
    if c.len() == 0 {
        seq![]
    } else {
        match c.last() {
            Some(s) => readable(c.drop_last()).push(s),
            None => readable(c.drop_last()),
        }
    }
}

/// A path in the wire's spelling, from those of its components that are texts.
pub open spec fn spelled(c: Seq<Option<Seq<char>>>) -> Seq<char> {
    joined(readable(c), "/"@)
}

/// The seconds since the epoch, none of them before it.
pub open spec fn stamp(m: Modified) -> Option<i64> {
    match m {
        Modified::Unknown => None,
        Modified::BeforeEpoch => Some(0),
        Modified::At(s) => Some(s as i64),
    }
}

/// Whether every component is a text.
pub open spec fn all_text(c: Seq<Option<Seq<char>>>) -> bool {
    forall|i: int| 0 <= i < c.len() ==> #[trigger] c[i] is Some
}

/// The header for an entry that is a readable file with a name safe to send. A path with a component
/// that is no text has no spelling on the wire, so it is none.
pub open spec fn header_of(e: EntryView) -> Option<HeaderView> {
    match (e.facts, e.under) {
        (Some(f), Some(c)) => if e.file && all_text(c) && rel_ok(spelled(c)) {
            match stamp(f.modified) {
                Some(mtime) => Some(HeaderView { path: spelled(c), size: f.size, mtime }),
                None => None,
            }
        } else {
            None
        },
        _ => None,
    }
}

/// The header that the server reports for an entry of its own tree.
pub open spec fn reported(e: EntryView) -> Option<HeaderView> {
    match (e.facts, e.under) {
        (Some(f), Some(c)) => if e.file {
            Some(
                HeaderView {
                    path: spelled(c),
                    size: f.size,
                    mtime: match stamp(f.modified) {
                        Some(mtime) => mtime,
                        None => 0,
                    },
                },
            )
        } else {
            None
        },
        _ => None,
    }
}

fn spell(c: &Vec<Option<String>>) -> (r: String)
    ensures
        r@ == spelled(components(c@)),
{
    let mut out: Vec<String> = Vec::new();
    let ghost v = components(c@);
    let mut i: usize = 0;
    assert(texts(out@) =~= readable(v.take(0)));
    while i < c.len()
        invariant
            i <= c@.len(),
            v == components(c@),
            texts(out@) == readable(v.take(i as int)),
        decreases c@.len() - i,
    {
        let ghost was = texts(out@);
        assert(v.take(i + 1).drop_last() =~= v.take(i as int));
        assert(v.take(i + 1).last() == v[i as int]);
        if let Some(s) = &c[i] {
            out.push(s.clone());
            assert(texts(out@) =~= was.push(s@));
        }
        i += 1;
    }
    assert(v.take(i as int) =~= v);
    join(&out, "/")
}

fn is_all_text(c: &Vec<Option<String>>) -> (r: bool)
    ensures
        r == all_text(components(c@)),
{
    let mut i: usize = 0;
    while i < c.len()
        invariant
            i <= c@.len(),
            forall|j: int| 0 <= j < i ==> #[trigger] components(c@)[j] is Some,
        decreases c@.len() - i,
    {
        if c[i].is_none() {
            assert(components(c@)[i as int] is None);
            return false;
        }
        i += 1;
    }
    true
}

fn seconds(m: Modified) -> (r: Option<i64>)
    ensures
        r == stamp(m),
{
    match m {
        Modified::Unknown => None,
        Modified::BeforeEpoch => Some(0),
        Modified::At(s) => Some(#[verifier::truncate] (s as i64)),
    }
}

/// The entry's header, with its path in the wire's spelling.
/// `None` for anything that isn't a readable file with a name safe to send.
pub fn header_for(e: &Entry) -> (r: Option<FileHeader>)
    ensures
        match r {
            Some(h) => header_of(e@) == Some(h@),
            None => header_of(e@) is None,
        },
{
    if !e.file {
        return None;
    }
    match (&e.facts, &e.under) {
        (Some(f), Some(c)) => {
            if !is_all_text(c) {
                return None;
            }
            let path = spell(c);
            if !valid_rel(path.as_str()) {
                return None;
            }
            match seconds(f.modified) {
                Some(mtime) => Some(FileHeader { path, size: f.size, mtime }),
                None => None,
            }
        },
        _ => None,
    }
}

/// The header that the server reports for an entry of its own tree. `None` for anything that isn't
/// a readable file.
pub fn header_there(e: &Entry) -> (r: Option<FileHeader>)
    ensures
        match r {
            Some(h) => reported(e@) == Some(h@),
            None => reported(e@) is None,
        },
{
    if !e.file {
        return None;
    }
    match (&e.facts, &e.under) {
        (Some(f), Some(c)) => {
            let path = spell(c);
            let mtime: i64 = match seconds(f.modified) {
                Some(t) => t,
                None => 0,
            };
            Some(FileHeader { path, size: f.size, mtime })
        },
        _ => None,
    }
}

/// The headers for those entries that have one, in order.
pub open spec fn headers_of(v: Seq<EntryView>) -> Seq<HeaderView>
    decreases v.len(),
{
    if v.len() == 0 {
        seq![]
    } else {
        match header_of(v.last()) {
            Some(h) => headers_of(v.drop_last()).push(h),
            None => headers_of(v.drop_last()),
        }
    }
}

/// The headers that the server reports for its own tree, in order.
pub open spec fn all_reported(v: Seq<EntryView>) -> Seq<HeaderView>
    decreases v.len(),
{
    if v.len() == 0 {
        seq![]
    } else {
        match reported(v.last()) {
            Some(h) => all_reported(v.drop_last()).push(h),
            None => all_reported(v.drop_last()),
        }
    }
}

/// What the server says it already has, from a walk over its own tree.
pub fn manifest_of(found: &Vec<Entry>) -> (r: Vec<FileHeader>)
    ensures
        headers(r@) == all_reported(entries(found@)),
{
    let mut out: Vec<FileHeader> = Vec::new();
    let ghost v = entries(found@);
    let mut i: usize = 0;
    assert(headers(out@) =~= all_reported(v.take(0)));
    while i < found.len()
        invariant
            i <= found@.len(),
            v == entries(found@),
            headers(out@) == all_reported(v.take(i as int)),
        decreases found@.len() - i,
    {
        let ghost was = headers(out@);
        assert(v.take(i + 1).drop_last() =~= v.take(i as int));
        assert(v.take(i + 1).last() == found@[i as int]@);
        if let Some(h) = header_there(&found[i]) {
            let ghost hv = h@;
            out.push(h);
            assert(headers(out@) =~= was.push(hv));
        }
        i += 1;
    }
    assert(v.take(i as int) =~= v);
    out
}

/// A file that the second walk came by, and the numbers of the globs that name it.
#[derive(Debug)]
pub struct Found {
    pub header: FileHeader,
    pub by: Vec<usize>,
}

/// The model of a [`Found`].
#[verifier::ext_equal]
pub struct FoundView {
    pub header: HeaderView,
    pub by: Seq<int>,
}

/// Numbers as mathematical ones.
pub open spec fn numbers(v: Seq<usize>) -> Seq<int> {
    v.map_values(|n: usize| n as int)
}

impl View for Found {
    type V = FoundView;

    open spec fn view(&self) -> FoundView {
        FoundView { header: self.header@, by: numbers(self.by@) }
    }
}

/// The views of a list of files that were found.
pub open spec fn finds(v: Seq<Found>) -> Seq<FoundView> {
    v.map_values(|f: Found| f@)
}

/// The headers of those files that some glob names.
pub open spec fn named(v: Seq<FoundView>) -> Seq<HeaderView>
    decreases v.len(),
{
    if v.len() == 0 {
        seq![]
    } else if v.last().by.len() > 0 {
        named(v.drop_last()).push(v.last().header)
    } else {
        named(v.drop_last())
    }
}

/// Whether a glob names any of the files.
pub open spec fn hits(v: Seq<FoundView>, glob: int) -> bool {
    exists|i: int| 0 <= i < v.len() && #[trigger] v[i].by.contains(glob)
}

/// The globs that name none of the files, in order.
pub open spec fn idle(globs: Seq<Seq<char>>, v: Seq<FoundView>) -> Seq<Seq<char>>
    decreases globs.len(),
{
    if globs.len() == 0 {
        seq![]
    } else if hits(v, globs.len() - 1) {
        idle(globs.drop_last(), v)
    } else {
        idle(globs.drop_last(), v).push(globs.last())
    }
}

/// What the local tree holds, and which `--include` globs named nothing.
#[derive(Debug)]
pub struct Scan {
    pub files: Files,
    pub unmatched: Vec<String>,
}

/// The files of the first walk, and over them those of the second that some glob names.
pub fn merge(listed: &Vec<Entry>, found: Vec<Found>, globs: &Vec<String>) -> (r: Scan)
    requires
        forall|i: int, k: int|
            0 <= i < found@.len() && 0 <= k < found@[i].by@.len() ==> (
            #[trigger] found@[i].by@[k]) < globs@.len(),
    ensures
        r.files.wf(),
        r.files@ == as_map(headers_of(entries(listed@)) + named(finds(found@))),
        texts(r.unmatched@) == idle(texts(globs@), finds(found@)),
{
    let mut files = Files::new();
    let ghost l = entries(listed@);
    let ghost first = headers_of(l);
    let mut i: usize = 0;
    while i < listed.len()
        invariant
            i <= listed@.len(),
            l == entries(listed@),
            files.wf(),
            files@ == as_map(headers_of(l.take(i as int))),
        decreases listed@.len() - i,
    {
        assert(l.take(i + 1).drop_last() =~= l.take(i as int));
        assert(l.take(i + 1).last() == listed@[i as int]@);
        let ghost was = headers_of(l.take(i as int));
        if let Some(h) = header_for(&listed[i]) {
            assert(was.push(h@).drop_last() =~= was);
            files.insert(h);
        }
        i += 1;
    }
    assert(l.take(i as int) =~= l);

    let mut hit: Vec<bool> = Vec::new();
    let mut g: usize = 0;
    while g < globs.len()
        invariant
            g <= globs@.len(),
            hit@.len() == g,
            forall|k: int| 0 <= k < g ==> !#[trigger] hit@[k],
        decreases globs@.len() - g,
    {
        hit.push(false);
        g += 1;
    }
    let ghost f = finds(found@);
    let mut j: usize = 0;
    assert(first + named(f.take(0)) =~= first);
    while j < found.len()
        invariant
            j <= found@.len(),
            f == finds(found@),
            forall|i: int, k: int|
                0 <= i < found@.len() && 0 <= k < found@[i].by@.len() ==> (
                #[trigger] found@[i].by@[k]) < globs@.len(),
            hit@.len() == globs@.len(),
            files.wf(),
            files@ == as_map(first + named(f.take(j as int))),
            forall|n: int| 0 <= n < hit@.len() ==> #[trigger] hit@[n] == hits(f.take(j as int), n),
        decreases found@.len() - j,
    {
        assert(f.take(j + 1).drop_last() =~= f.take(j as int));
        assert(f.take(j + 1).last() == found@[j as int]@);
        let ghost was = named(f.take(j as int));
        let by = &found[j].by;
        let ghost old_hit = hit@;
        let mut k: usize = 0;
        while k < by.len()
            invariant
                k <= by@.len(),
                hit@.len() == globs@.len(),
                old_hit.len() == globs@.len(),
                forall|k: int| 0 <= k < by@.len() ==> (#[trigger] by@[k]) < globs@.len(),
                forall|n: int|
                    0 <= n < hit@.len() ==> #[trigger] hit@[n] == (old_hit[n] || exists|m: int|
                        0 <= m < k && #[trigger] by@[m] == n),
            decreases by@.len() - k,
        {
            let at: usize = by[k];
            let ghost before = hit@;
            hit.set(at, true);
            assert forall|n: int| 0 <= n < hit@.len() implies #[trigger] hit@[n] == (old_hit[n]
                || exists|m: int| 0 <= m < k + 1 && #[trigger] by@[m] == n) by {
                assert(before[n] == (old_hit[n] || exists|m: int|
                    0 <= m < k && #[trigger] by@[m] == n));
                if n == at {
                    assert(by@[k as int] == n);
                }
            }
            k += 1;
        }
        proof {
            let now = f.take(j + 1);
            assert forall|n: int| 0 <= n < hit@.len() implies #[trigger] hit@[n] == hits(now, n) by {
                assert(old_hit[n] == hits(f.take(j as int), n));
                if old_hit[n] {
                    let i = choose|i: int|
                        0 <= i < f.take(j as int).len() && #[trigger] f.take(j as int)[i].by.contains(
                            n,
                        );
                    assert(now[i].by.contains(n));
                }
                if exists|m: int| 0 <= m < by@.len() && #[trigger] by@[m] == n {
                    let m = choose|m: int| 0 <= m < by@.len() && #[trigger] by@[m] == n;
                    assert(now[j as int].by[m] == n);
                    assert(now[j as int].by.contains(n));
                }
                if hits(now, n) {
                    let i = choose|i: int| 0 <= i < now.len() && #[trigger] now[i].by.contains(n);
                    if i < j {
                        assert(f.take(j as int)[i].by.contains(n));
                    } else {
                        let m = choose|m: int| 0 <= m < now[i].by.len() && now[i].by[m] == n;
                        assert(by@[m] == n);
                    }
                }
            }
        }
        if by.len() > 0 {
            let ghost h = found@[j as int]@.header;
            assert((first + was.push(h)).drop_last() =~= first + was);
            files.insert(found[j].header.clone());
        }
        j += 1;
    }
    assert(f.take(j as int) =~= f);

    let mut unmatched: Vec<String> = Vec::new();
    let ghost t = texts(globs@);
    let mut n: usize = 0;
    assert(texts(unmatched@) =~= idle(t.take(0), f));
    while n < globs.len()
        invariant
            n <= globs@.len(),
            t == texts(globs@),
            hit@.len() == globs@.len(),
            forall|n: int| 0 <= n < hit@.len() ==> #[trigger] hit@[n] == hits(f, n),
            texts(unmatched@) == idle(t.take(n as int), f),
        decreases globs@.len() - n,
    {
        let ghost was = texts(unmatched@);
        assert(t.take(n + 1).drop_last() =~= t.take(n as int));
        assert(t.take(n + 1).last() == globs@[n as int]@);
        if !hit[n] {
            unmatched.push(globs[n].clone());
            assert(texts(unmatched@) =~= was.push(globs@[n as int]@));
        }
        n += 1;
    }
    assert(t.take(n as int) =~= t);
    Scan { files, unmatched }
}

/// The numbers of the globs that name a path, in ascending order.
pub open spec fn naming(paths: Seq<Set<Seq<char>>>, path: Seq<char>) -> Seq<int>
    decreases paths.len(),
{
    if paths.len() == 0 {
        seq![]
    } else if paths.last().contains(path) {
        naming(paths.drop_last(), path).push(paths.len() - 1)
    } else {
        naming(paths.drop_last(), path)
    }
}

/// The files that a walk came by, each with the numbers of the globs that name it.
pub open spec fn found_of(v: Seq<EntryView>, paths: Seq<Set<Seq<char>>>) -> Seq<FoundView>
    decreases v.len(),
{
    if v.len() == 0 {
        seq![]
    } else {
        match header_of(v.last()) {
            Some(h) => found_of(v.drop_last(), paths).push(
                FoundView { header: h, by: naming(paths, h.path) },
            ),
            None => found_of(v.drop_last(), paths),
        }
    }
}

/// Whether numbers ascend, none twice.
pub open spec fn climbing(v: Seq<int>) -> bool {
    forall|a: int, b: int| 0 <= a < b < v.len() ==> #[trigger] v[a] < #[trigger] v[b]
}

proof fn naming_is_exact(paths: Seq<Set<Seq<char>>>, path: Seq<char>)
    ensures
        climbing(naming(paths, path)),
        forall|n: int| #[trigger]
            naming(paths, path).contains(n) <==> 0 <= n < paths.len() && paths[n].contains(path),
    decreases paths.len(),
{
    if paths.len() > 0 {
        let p = paths.drop_last();
        naming_is_exact(p, path);
        let was = naming(p, path);
        let now = naming(paths, path);
        assert forall|a: int, b: int| 0 <= a < b < now.len() implies #[trigger] now[a]
            < #[trigger] now[b] by {
            if b == was.len() {
                assert(was.contains(was[a]));
            }
        }
        assert forall|n: int| #[trigger] now.contains(n) <==> 0 <= n < paths.len()
            && paths[n].contains(path) by {
            if now.contains(n) {
                let k = choose|k: int| 0 <= k < now.len() && now[k] == n;
                if k < was.len() {
                    assert(was[k] == n);
                    assert(was.contains(n));
                }
            }
            if 0 <= n < paths.len() && paths[n].contains(path) {
                if n < p.len() {
                    assert(p[n].contains(path));
                    assert(was.contains(n));
                    let k = choose|k: int| 0 <= k < was.len() && was[k] == n;
                    assert(now[k] == n);
                } else {
                    assert(now[was.len() as int] == n);
                }
            }
        }
    }
}

proof fn climbing_is_unique(x: Seq<int>, y: Seq<int>)
    requires
        climbing(x),
        climbing(y),
        forall|n: int|
            #![trigger x.contains(n)]
            #![trigger y.contains(n)]
            x.contains(n) <==> y.contains(n),
    ensures
        x == y,
    decreases x.len(),
{
    if x.len() == 0 {
        if y.len() > 0 {
            assert(y.contains(y[0]));
            assert(x.contains(y[0]));
        }
        assert(x =~= y);
    } else {
        assert(x.contains(x[0]));
        assert(y.contains(x[0]));
        let a = x.last();
        let b = y.last();
        assert(x[x.len() - 1] == a && x.contains(a) && y.contains(a));
        assert(y[y.len() - 1] == b && y.contains(b) && x.contains(b));
        let i = choose|i: int| 0 <= i < y.len() && y[i] == a;
        let j = choose|j: int| 0 <= j < x.len() && x[j] == b;
        assert(a <= b && b <= a);
        let p = x.drop_last();
        let q = y.drop_last();
        assert forall|n: int|
            #![trigger p.contains(n)]
            #![trigger q.contains(n)]
            p.contains(n) <==> q.contains(n) by {
            if p.contains(n) {
                let k = choose|k: int| 0 <= k < p.len() && p[k] == n;
                assert(x[k] == n && x.contains(n) && y.contains(n));
                let m = choose|m: int| 0 <= m < y.len() && y[m] == n;
                assert(q[m] == n);
            }
            if q.contains(n) {
                let k = choose|k: int| 0 <= k < q.len() && q[k] == n;
                assert(y[k] == n && y.contains(n) && x.contains(n));
                let m = choose|m: int| 0 <= m < x.len() && x[m] == n;
                assert(p[m] == n);
            }
        }
        assert forall|s: int, t: int| 0 <= s < t < p.len() implies #[trigger] p[s]
            < #[trigger] p[t] by {
            assert(x[s] < x[t]);
        }
        assert forall|s: int, t: int| 0 <= s < t < q.len() implies #[trigger] q[s]
            < #[trigger] q[t] by {
            assert(y[s] < y[t]);
        }
        climbing_is_unique(p, q);
        assert(x =~= p.push(a));
        assert(y =~= q.push(b));
    }
}

/// Asks the globs about every file that a walk came by.
pub fn find_included(all: &Vec<Entry>, includes: &Includes) -> (r: Vec<Found>)
    requires
        includes.wf(),
    ensures
        finds(r@) == found_of(entries(all@), includes@.paths),
        forall|i: int, k: int|
            0 <= i < r@.len() && 0 <= k < r@[i].by@.len() ==> (#[trigger] r@[i].by@[k])
                < includes.globs@.len(),
{
    let mut out: Vec<Found> = Vec::new();
    let ghost v = entries(all@);
    let ghost paths = includes@.paths;
    let mut i: usize = 0;
    assert(finds(out@) =~= found_of(v.take(0), paths));
    while i < all.len()
        invariant
            i <= all@.len(),
            includes.wf(),
            v == entries(all@),
            paths == includes@.paths,
            finds(out@) == found_of(v.take(i as int), paths),
            forall|i: int, k: int|
                0 <= i < out@.len() && 0 <= k < out@[i].by@.len() ==> (#[trigger] out@[i].by@[k])
                    < includes.globs@.len(),
        decreases all@.len() - i,
    {
        let ghost was = finds(out@);
        let ghost before = out@;
        assert(v.take(i + 1).drop_last() =~= v.take(i as int));
        assert(v.take(i + 1).last() == all@[i as int]@);
        if let Some(header) = header_for(&all[i]) {
            let by = matching(&includes.set, header.path.as_str());
            let ghost hv = header@;
            proof {
                naming_is_exact(paths, hv.path);
                let x = numbers(by@);
                let y = naming(paths, hv.path);
                assert forall|n: int|
                    #![trigger x.contains(n)]
                    #![trigger y.contains(n)]
                    x.contains(n) <==> y.contains(n) by {
                    if x.contains(n) {
                        let k = choose|k: int| 0 <= k < x.len() && x[k] == n;
                        assert(by@[k] == n);
                        assert(set_paths(includes.set)[n].contains(hv.path));
                    }
                    if y.contains(n) {
                        assert(set_paths(includes.set)[n].contains(hv.path));
                        let k = choose|k: int| 0 <= k < by@.len() && by@[k] == n;
                        assert(x[k] == n);
                    }
                }
                climbing_is_unique(x, y);
            }
            let f = Found { header, by };
            let ghost fv = f@;
            out.push(f);
            assert(finds(out@) =~= was.push(fv));
            assert forall|i: int, k: int|
                0 <= i < out@.len() && 0 <= k < out@[i].by@.len() implies (
            #[trigger] out@[i].by@[k]) < includes.globs@.len() by {
                if i < before.len() {
                    assert(before[i].by@[k] < includes.globs@.len());
                }
            }
        }
        i += 1;
    }
    assert(v.take(i as int) =~= v);
    out
}

/// The files to sync, keyed by path relative to the root: everything the ignore
/// files leave, plus everything an `includes` glob names. Dotfiles count
/// (.cargo/config.toml is real); `.git` and `target` never do.
///
/// `listed` is what a walk yields that heeds the ignore files, `all` what one yields that answers
/// to none. The first never yields what it ignored, so there is nothing to re-admit in a single
/// pass.
pub fn scan_local(listed: &Vec<Entry>, all: &Vec<Entry>, includes: &Includes) -> (r: Scan)
    requires
        includes.wf(),
    ensures
        r.files.wf(),
        r.files@ == as_map(
            headers_of(entries(listed@)) + named(found_of(entries(all@), includes@.paths)),
        ),
        texts(r.unmatched@) == idle(includes@.globs, found_of(entries(all@), includes@.paths)),
{
    let found = find_included(all, includes);
    merge(listed, found, &includes.globs)
}

/// Whether one of these entries is a file with the given path.
pub open spec fn yields(v: Seq<EntryView>, path: Seq<char>) -> bool {
    exists|i: int|
        0 <= i < v.len() && (#[trigger] header_of(v[i]) matches Some(h) && h.path == path)
}

proof fn headers_are_yielded(v: Seq<EntryView>, path: Seq<char>)
    ensures
        yields(v, path) <==> exists|i: int|
            0 <= i < headers_of(v).len() && #[trigger] headers_of(v)[i].path == path,
    decreases v.len(),
{
    if v.len() > 0 {
        let u = v.drop_last();
        headers_are_yielded(u, path);
        let was = headers_of(u);
        let now = headers_of(v);
        if yields(v, path) {
            let i = choose|i: int|
                0 <= i < v.len() && (#[trigger] header_of(v[i]) matches Some(h) && h.path == path);
            if i < u.len() {
                assert(header_of(u[i]) == header_of(v[i]));
                let k = choose|k: int| 0 <= k < was.len() && #[trigger] was[k].path == path;
                assert(now[k].path == path);
            } else {
                assert(now[was.len() as int].path == path);
            }
        }
        if exists|i: int| 0 <= i < now.len() && #[trigger] now[i].path == path {
            let k = choose|k: int| 0 <= k < now.len() && #[trigger] now[k].path == path;
            if k < was.len() {
                assert(was[k].path == path);
                let i = choose|i: int|
                    0 <= i < u.len() && (#[trigger] header_of(u[i]) matches Some(h) && h.path == path);
                assert(header_of(v[i]) == header_of(u[i]));
            } else {
                assert(header_of(v[v.len() - 1]) == header_of(v.last()));
            }
        }
    }
}

/// Whether some glob names a path.
pub open spec fn any_names(paths: Seq<Set<Seq<char>>>, path: Seq<char>) -> bool {
    exists|n: int| 0 <= n < paths.len() && #[trigger] paths[n].contains(path)
}

proof fn named_are_yielded(v: Seq<EntryView>, paths: Seq<Set<Seq<char>>>, path: Seq<char>)
    ensures
        yields(v, path) && any_names(paths, path) <==> exists|i: int|
            0 <= i < named(found_of(v, paths)).len() && #[trigger] named(found_of(v, paths))[i].path
                == path,
    decreases v.len(),
{
    if v.len() > 0 {
        let u = v.drop_last();
        named_are_yielded(u, paths, path);
        let was = named(found_of(u, paths));
        let now = named(found_of(v, paths));
        if let Some(h) = header_of(v.last()) {
            let f = found_of(u, paths).push(FoundView { header: h, by: naming(paths, h.path) });
            assert(f.drop_last() =~= found_of(u, paths));
            naming_is_exact(paths, h.path);
            let by = naming(paths, h.path);
            assert(by.len() > 0 <==> any_names(paths, h.path)) by {
                if by.len() > 0 {
                    assert(by.contains(by[0]));
                    assert(paths[by[0]].contains(h.path));
                }
                if any_names(paths, h.path) {
                    let n = choose|n: int| 0 <= n < paths.len() && #[trigger] paths[n].contains(h.path);
                    assert(by.contains(n));
                }
            }
        }
        if yields(v, path) && any_names(paths, path) {
            let i = choose|i: int|
                0 <= i < v.len() && (#[trigger] header_of(v[i]) matches Some(h) && h.path == path);
            if i < u.len() {
                assert(header_of(u[i]) == header_of(v[i]));
                let k = choose|k: int| 0 <= k < was.len() && #[trigger] was[k].path == path;
                assert(now[k].path == path);
            } else {
                assert(now[was.len() as int].path == path);
            }
        }
        if exists|i: int| 0 <= i < now.len() && #[trigger] now[i].path == path {
            let k = choose|k: int| 0 <= k < now.len() && #[trigger] now[k].path == path;
            if k < was.len() {
                assert(was[k].path == path);
                let i = choose|i: int|
                    0 <= i < u.len() && (#[trigger] header_of(u[i]) matches Some(h) && h.path == path);
                assert(header_of(v[i]) == header_of(u[i]));
            } else {
                assert(header_of(v[v.len() - 1]) == header_of(v.last()));
            }
        }
    }
}

/// A file reaches the server only if the ignore rules leave it or a glob names it, and then always.
pub proof fn ignored_files_are_sent_only_when_included(
    listed: Seq<EntryView>,
    all: Seq<EntryView>,
    paths: Seq<Set<Seq<char>>>,
    path: Seq<char>,
)
    ensures
        as_map(headers_of(listed) + named(found_of(all, paths))).contains_key(path) <==> yields(
            listed,
            path,
        ) || (yields(all, path) && any_names(paths, path)),
{
    let a = headers_of(listed);
    let b = named(found_of(all, paths));
    headers_are_yielded(listed, path);
    named_are_yielded(all, paths, path);
    mapped_paths(a + b);
    let both = a + b;
    if exists|i: int| 0 <= i < a.len() && #[trigger] a[i].path == path {
        let i = choose|i: int| 0 <= i < a.len() && #[trigger] a[i].path == path;
        assert(both[i].path == path);
    }
    if exists|i: int| 0 <= i < b.len() && #[trigger] b[i].path == path {
        let i = choose|i: int| 0 <= i < b.len() && #[trigger] b[i].path == path;
        assert(both[a.len() + i].path == path);
    }
    if as_map(both).contains_key(path) {
        let i = choose|i: int| 0 <= i < both.len() && #[trigger] both[i].path == path;
        if i < a.len() {
            assert(a[i].path == path);
        } else {
            assert(b[i - a.len()].path == path);
        }
    }
}

/// Every path that a scan yields is safe to send.
pub proof fn what_is_sent_is_valid(
    listed: Seq<EntryView>,
    all: Seq<EntryView>,
    paths: Seq<Set<Seq<char>>>,
    path: Seq<char>,
)
    ensures
        as_map(headers_of(listed) + named(found_of(all, paths))).contains_key(path) ==> rel_ok(path),
{
    ignored_files_are_sent_only_when_included(listed, all, paths, path);
}

/// Whether a walk that keeps out of what it is not to enter may have yielded an entry: each component
/// of its path is one component, and one that is walked into.
pub open spec fn walk_yields(e: EntryView) -> bool {
    e.under matches Some(c) ==> forall|i: int|
        0 <= i < c.len() ==> walked(#[trigger] c[i]) && (c[i] matches Some(s) ==> !s.contains('/'))
}

proof fn pieces_of_joined(parts: Seq<Seq<char>>)
    requires
        parts.len() > 0,
        forall|i: int| 0 <= i < parts.len() ==> !(#[trigger] parts[i]).contains('/'),
    ensures
        pieces(joined(parts, "/"@), '/') == parts,
    decreases parts.len(),
{
    reveal_strlit("/");
    assert("/"@ =~= seq!['/']);
    let last = parts[parts.len() - 1];
    one_piece(last, '/');
    if parts.len() == 1 {
        assert(parts =~= seq![last]);
    } else {
        let before = parts.drop_last();
        assert forall|i: int| 0 <= i < before.len() implies !(#[trigger] before[i]).contains('/') by {
            assert(!parts[i].contains('/'));
        }
        pieces_of_joined(before);
        pieces_behind_a_cut(joined(before, "/"@), '/', last);
        assert(before + seq![last] =~= parts);
    }
}

proof fn readable_are_components(c: Seq<Option<Seq<char>>>)
    ensures
        forall|k: int| 0 <= k < readable(c).len() ==> c.contains(Some(#[trigger] readable(c)[k])),
    decreases c.len(),
{
    if c.len() > 0 {
        let d = c.drop_last();
        readable_are_components(d);
        assert forall|k: int| 0 <= k < readable(c).len() implies c.contains(
            Some(#[trigger] readable(c)[k]),
        ) by {
            if k < readable(d).len() {
                assert(d.contains(Some(readable(d)[k])));
                let i = choose|i: int| 0 <= i < d.len() && d[i] == Some(readable(d)[k]);
                assert(c[i] == Some(readable(c)[k]));
            } else {
                assert(c[c.len() - 1] == Some(readable(c)[k]));
            }
        }
    }
}

proof fn a_yielded_path_is_walked(e: EntryView)
    requires
        walk_yields(e),
    ensures
        header_of(e) matches Some(h) ==> forall|k: int|
            0 <= k < pieces(h.path, '/').len() ==> walked(Some(#[trigger] pieces(h.path, '/')[k])),
{
    if let Some(h) = header_of(e) {
        let c = e.under->0;
        let parts = readable(c);
        readable_are_components(c);
        assert forall|k: int| 0 <= k < parts.len() implies walked(Some(#[trigger] parts[k]))
            && !parts[k].contains('/') by {
            assert(c.contains(Some(parts[k])));
            let i = choose|i: int| 0 <= i < c.len() && c[i] == Some(parts[k]);
            assert(walked(c[i]));
        }
        assert(parts.len() > 0) by {
            if parts.len() == 0 {
                assert(h.path.len() == 0);
            }
        }
        pieces_of_joined(parts);
    }
}

/// `.git` and `target` stay behind whatever a glob names: over walks that keep out of them, no path
/// that a scan yields has a component of either name.
pub proof fn git_and_target_stay_behind(
    listed: Seq<EntryView>,
    all: Seq<EntryView>,
    paths: Seq<Set<Seq<char>>>,
    path: Seq<char>,
)
    requires
        forall|i: int| 0 <= i < listed.len() ==> walk_yields(#[trigger] listed[i]),
        forall|i: int| 0 <= i < all.len() ==> walk_yields(#[trigger] all[i]),
        as_map(headers_of(listed) + named(found_of(all, paths))).contains_key(path),
    ensures
        !pieces(path, '/').contains(".git"@),
        !pieces(path, '/').contains("target"@),
{
    ignored_files_are_sent_only_when_included(listed, all, paths, path);
    let e = if yields(listed, path) {
        listed[choose|i: int|
            0 <= i < listed.len() && (#[trigger] header_of(listed[i]) matches Some(h) && h.path
                == path)]
    } else {
        all[choose|i: int|
            0 <= i < all.len() && (#[trigger] header_of(all[i]) matches Some(h) && h.path == path)]
    };
    a_yielded_path_is_walked(e);
    let p = pieces(path, '/');
    if p.contains(".git"@) {
        let k = choose|k: int| 0 <= k < p.len() && p[k] == ".git"@;
        assert(walked(Some(p[k])));
    }
    if p.contains("target"@) {
        let k = choose|k: int| 0 <= k < p.len() && p[k] == "target"@;
        assert(walked(Some(p[k])));
    }
}

/// A glob is reported as having matched nothing exactly if it names none of the files of the tree.
pub proof fn a_glob_that_names_nothing_is_reported(
    globs: Seq<Seq<char>>,
    all: Seq<EntryView>,
    paths: Seq<Set<Seq<char>>>,
    glob: Seq<char>,
)
    requires
        globs.len() == paths.len(),
    ensures
        idle(globs, found_of(all, paths)).contains(glob) <==> exists|n: int|
            0 <= n < globs.len() && globs[n] == glob && !#[trigger] names_any(all, paths[n]),
{
    idle_is_exact(globs, found_of(all, paths), glob);
    assert forall|n: int| 0 <= n < paths.len() implies #[trigger] hits(found_of(all, paths), n)
        == names_any(all, paths[n]) by {
        hits_are_names(all, paths, n);
    }
    if exists|n: int| 0 <= n < globs.len() && globs[n] == glob && !#[trigger] names_any(all, paths[n]) {
        let n = choose|n: int|
            0 <= n < globs.len() && globs[n] == glob && !#[trigger] names_any(all, paths[n]);
        assert(!hits(found_of(all, paths), n));
    }
    if idle(globs, found_of(all, paths)).contains(glob) {
        let n = choose|n: int|
            0 <= n < globs.len() && globs[n] == glob && !#[trigger] hits(found_of(all, paths), n);
        assert(!names_any(all, paths[n]));
    }
}

/// Whether a glob with the given paths names any file among the entries.
pub open spec fn names_any(all: Seq<EntryView>, paths: Set<Seq<char>>) -> bool {
    exists|i: int|
        0 <= i < all.len() && (#[trigger] header_of(all[i]) matches Some(h) && paths.contains(h.path))
}

proof fn idle_is_exact(globs: Seq<Seq<char>>, v: Seq<FoundView>, glob: Seq<char>)
    ensures
        idle(globs, v).contains(glob) <==> exists|n: int|
            0 <= n < globs.len() && globs[n] == glob && !#[trigger] hits(v, n),
    decreases globs.len(),
{
    if globs.len() > 0 {
        let g = globs.drop_last();
        idle_is_exact(g, v, glob);
        let was = idle(g, v);
        let now = idle(globs, v);
        if now.contains(glob) {
            let k = choose|k: int| 0 <= k < now.len() && now[k] == glob;
            if k < was.len() {
                assert(was[k] == glob);
                let n = choose|n: int| 0 <= n < g.len() && g[n] == glob && !#[trigger] hits(v, n);
                assert(globs[n] == glob && !hits(v, n));
            } else {
                assert(!hits(v, globs.len() - 1));
            }
        }
        if exists|n: int| 0 <= n < globs.len() && globs[n] == glob && !#[trigger] hits(v, n) {
            let n = choose|n: int|
                0 <= n < globs.len() && globs[n] == glob && !#[trigger] hits(v, n);
            if n < g.len() {
                assert(g[n] == glob && !hits(v, n));
                let k = choose|k: int| 0 <= k < was.len() && was[k] == glob;
                assert(now[k] == glob);
            } else {
                assert(now[was.len() as int] == glob);
            }
        }
    }
}

proof fn hits_are_names(all: Seq<EntryView>, paths: Seq<Set<Seq<char>>>, n: int)
    requires
        0 <= n < paths.len(),
    ensures
        hits(found_of(all, paths), n) <==> names_any(all, paths[n]),
    decreases all.len(),
{
    if all.len() > 0 {
        let u = all.drop_last();
        hits_are_names(u, paths, n);
        let was = found_of(u, paths);
        let now = found_of(all, paths);
        if let Some(h) = header_of(all.last()) {
            naming_is_exact(paths, h.path);
        }
        if hits(now, n) {
            let i = choose|i: int| 0 <= i < now.len() && #[trigger] now[i].by.contains(n);
            if i < was.len() {
                assert(was[i].by.contains(n));
                let j = choose|j: int|
                    0 <= j < u.len() && (#[trigger] header_of(u[j]) matches Some(h) && paths[n].contains(
                        h.path,
                    ));
                assert(header_of(all[j]) == header_of(u[j]));
            } else {
                assert(header_of(all[all.len() - 1]) == header_of(all.last()));
            }
        }
        if names_any(all, paths[n]) {
            let j = choose|j: int|
                0 <= j < all.len() && (#[trigger] header_of(all[j]) matches Some(h) && paths[n].contains(
                    h.path,
                ));
            if j < u.len() {
                assert(header_of(u[j]) == header_of(all[j]));
                let i = choose|i: int| 0 <= i < was.len() && #[trigger] was[i].by.contains(n);
                assert(now[i].by.contains(n));
            } else {
                assert(now[was.len() as int].by.contains(n));
            }
        }
    }
}

/// A walk goes on below every name but two.
pub proof fn where_a_walk_goes_on(name: Seq<char>)
    ensures
        walked(None),
        walked(Some(name)) <==> name != ".git"@ && name != "target"@,
{
}

proof fn readable_filter(
    c: Seq<Option<Seq<char>>>,
    keep: spec_fn(Option<Seq<char>>) -> bool,
    text: spec_fn(Option<Seq<char>>) -> Seq<char>,
)
    requires
        forall|x: Option<Seq<char>>| #[trigger] keep(x) == (x is Some),
        forall|x: Option<Seq<char>>| #[trigger] text(x) == x->0,
    ensures
        readable(c) == c.filter(keep).map_values(text),
    decreases c.len(),
{
    reveal(Seq::filter);
    if c.len() > 0 {
        readable_filter(c.drop_last(), keep, text);
        let before = c.drop_last().filter(keep);
        assert(before.push(c.last()).map_values(text) =~= before.map_values(text).push(text(c.last())));
    } else {
        assert(c.filter(keep).map_values(text) =~= Seq::<Seq<char>>::empty());
    }
}

proof fn readable_whole(c: Seq<Option<Seq<char>>>, parts: Seq<Seq<char>>)
    requires
        c.len() == parts.len(),
        forall|i: int| 0 <= i < c.len() ==> #[trigger] c[i] == Some(parts[i]),
    ensures
        readable(c) == parts,
    decreases c.len(),
{
    if c.len() > 0 {
        let d = c.drop_last();
        let p = parts.drop_last();
        assert forall|i: int| 0 <= i < d.len() implies #[trigger] d[i] == Some(p[i]) by {
            assert(c[i] == Some(parts[i]));
        }
        readable_whole(d, p);
        assert(c[c.len() - 1] == Some(parts[parts.len() - 1]));
        assert(p.push(parts.last()) =~= parts);
    } else {
        assert(parts =~= Seq::<Seq<char>>::empty());
    }
}

/// What is sent of a file: its path in forward slashes, its size and its time in whole seconds, none of
/// them before the epoch, if all of its path is text and valid, and its time is known.
pub proof fn what_is_sent_of_a_file(f: Facts, c: Seq<Option<Seq<char>>>, parts: Seq<Seq<char>>)
    requires
        c.len() == parts.len(),
        forall|i: int| 0 <= i < c.len() ==> #[trigger] c[i] == Some(parts[i]),
    ensures
        ({
            let e = EntryView { file: true, facts: Some(f), under: Some(c) };
            let path = joined(parts, "/"@);
            &&& !rel_ok(path) ==> header_of(e) is None
            &&& rel_ok(path) ==> match f.modified {
                Modified::Unknown => header_of(e) is None,
                Modified::BeforeEpoch => header_of(e) == Some(HeaderView { path, size: f.size, mtime: 0 }),
                Modified::At(s) => header_of(e) matches Some(h) && h.path == path && h.size == f.size && h.mtime
                    == (if s <= i64::MAX {
                    s as int
                } else {
                    s - 0x1_0000_0000_0000_0000
                }),
            }
        }),
{
    readable_whole(c, parts);
    assert forall|i: int| 0 <= i < c.len() implies #[trigger] c[i] is Some by {
        assert(c[i] == Some(parts[i]));
    }
    if let Modified::At(s) = f.modified {
        times_wrap(s);
    }
}

/// Nothing is sent of what is no file, cannot be read, is not below the root, or has a name that is not
/// text anywhere in its path.
pub proof fn what_is_not_sent(e: EntryView)
    ensures
        !e.file || e.facts is None || e.under is None ==> header_of(e) is None && reported(e) is None,
        e.under matches Some(c) ==> ((exists|i: int| 0 <= i < c.len() && #[trigger] c[i] is None) ==> header_of(
            e,
        ) is None),
{
}

/// What the server says of a file: its path in forward slashes, without what is not text in it, its size
/// and its time, which is zero where it is not known.
pub proof fn what_is_reported_of_a_file(f: Facts, c: Seq<Option<Seq<char>>>)
    ensures
        ({
            let e = EntryView { file: true, facts: Some(f), under: Some(c) };
            &&& reported(e) matches Some(h)
            &&& h.path == joined(
                c.filter(|x: Option<Seq<char>>| x is Some).map_values(|x: Option<Seq<char>>| x->0),
                "/"@,
            )
            &&& h.size == f.size
            &&& match f.modified {
                Modified::At(s) => h.mtime == (if s <= i64::MAX {
                    s as int
                } else {
                    s - 0x1_0000_0000_0000_0000
                }),
                _ => h.mtime == 0,
            }
        }),
{
    readable_filter(c, |x: Option<Seq<char>>| x is Some, |x: Option<Seq<char>>| x->0);
    if let Modified::At(s) = f.modified {
        times_wrap(s);
    }
}

proof fn times_wrap(s: u64)
    ensures
        s as i64 == (if s <= i64::MAX {
            s as int
        } else {
            s - 0x1_0000_0000_0000_0000
        }),
{
    if s > i64::MAX {
        assert(s as i64 == s - 0x1_0000_0000_0000_0000) by (bit_vector)
            requires
                s > 0x7fff_ffff_ffff_ffff,
        ;
    }
}

proof fn headers_filter(
    v: Seq<EntryView>,
    keep: spec_fn(EntryView) -> bool,
    each: spec_fn(EntryView) -> HeaderView,
)
    requires
        forall|e: EntryView| #[trigger] keep(e) == (header_of(e) is Some),
        forall|e: EntryView| #[trigger] each(e) == header_of(e)->0,
    ensures
        headers_of(v) == v.filter(keep).map_values(each),
    decreases v.len(),
{
    reveal(Seq::filter);
    if v.len() > 0 {
        headers_filter(v.drop_last(), keep, each);
        let before = v.drop_last().filter(keep);
        assert(before.push(v.last()).map_values(each) =~= before.map_values(each).push(each(v.last())));
    } else {
        assert(v.filter(keep).map_values(each) =~= Seq::<HeaderView>::empty());
    }
}

proof fn reported_filter(
    v: Seq<EntryView>,
    keep: spec_fn(EntryView) -> bool,
    each: spec_fn(EntryView) -> HeaderView,
)
    requires
        forall|e: EntryView| #[trigger] keep(e) == (reported(e) is Some),
        forall|e: EntryView| #[trigger] each(e) == reported(e)->0,
    ensures
        all_reported(v) == v.filter(keep).map_values(each),
    decreases v.len(),
{
    reveal(Seq::filter);
    if v.len() > 0 {
        reported_filter(v.drop_last(), keep, each);
        let before = v.drop_last().filter(keep);
        assert(before.push(v.last()).map_values(each) =~= before.map_values(each).push(each(v.last())));
    } else {
        assert(v.filter(keep).map_values(each) =~= Seq::<HeaderView>::empty());
    }
}

proof fn named_filter(
    v: Seq<FoundView>,
    keep: spec_fn(FoundView) -> bool,
    each: spec_fn(FoundView) -> HeaderView,
)
    requires
        forall|e: FoundView| #[trigger] keep(e) == (e.by.len() > 0),
        forall|e: FoundView| #[trigger] each(e) == e.header,
    ensures
        named(v) == v.filter(keep).map_values(each),
    decreases v.len(),
{
    reveal(Seq::filter);
    if v.len() > 0 {
        named_filter(v.drop_last(), keep, each);
        let before = v.drop_last().filter(keep);
        assert(before.push(v.last()).map_values(each) =~= before.map_values(each).push(each(v.last())));
    } else {
        assert(v.filter(keep).map_values(each) =~= Seq::<HeaderView>::empty());
    }
}

proof fn found_filter(
    v: Seq<EntryView>,
    paths: Seq<Set<Seq<char>>>,
    keep: spec_fn(EntryView) -> bool,
    each: spec_fn(EntryView) -> FoundView,
)
    requires
        forall|e: EntryView| #[trigger] keep(e) == (header_of(e) is Some),
        forall|e: EntryView| #[trigger] each(e) == (FoundView { header: header_of(e)->0, by: naming(paths, (header_of(e)->0).path) }),
    ensures
        found_of(v, paths) == v.filter(keep).map_values(each),
    decreases v.len(),
{
    reveal(Seq::filter);
    if v.len() > 0 {
        found_filter(v.drop_last(), paths, keep, each);
        let before = v.drop_last().filter(keep);
        assert(before.push(v.last()).map_values(each) =~= before.map_values(each).push(each(v.last())));
    } else {
        assert(v.filter(keep).map_values(each) =~= Seq::<FoundView>::empty());
    }
}

/// What walks yield, in their own order: of the server's tree every file that it reports, of this one
/// every file that is sent; with each of those the globs that name it, and of those the ones that some
/// glob names.
pub proof fn what_walks_yield(v: Seq<EntryView>, paths: Seq<Set<Seq<char>>>, f: Seq<FoundView>)
    ensures
        all_reported(v) == v.filter(|e: EntryView| reported(e) is Some).map_values(
            |e: EntryView| reported(e)->0,
        ),
        headers_of(v) == v.filter(|e: EntryView| header_of(e) is Some).map_values(
            |e: EntryView| header_of(e)->0,
        ),
        found_of(v, paths) == v.filter(|e: EntryView| header_of(e) is Some).map_values(
            |e: EntryView|
                (FoundView { header: header_of(e)->0, by: naming(paths, (header_of(e)->0).path) }),
        ),
        named(f) == f.filter(|e: FoundView| e.by.len() > 0).map_values(|e: FoundView| e.header),
{
    reported_filter(v, |e: EntryView| reported(e) is Some, |e: EntryView| reported(e)->0);
    headers_filter(v, |e: EntryView| header_of(e) is Some, |e: EntryView| header_of(e)->0);
    found_filter(
        v,
        paths,
        |e: EntryView| header_of(e) is Some,
        |e: EntryView|
            (FoundView { header: header_of(e)->0, by: naming(paths, (header_of(e)->0).path) }),
    );
    named_filter(f, |e: FoundView| e.by.len() > 0, |e: FoundView| e.header);
}

/// The globs that name a path are given by their numbers, from the first on, each once.
pub proof fn which_globs_name_a_path(paths: Seq<Set<Seq<char>>>, path: Seq<char>)
    ensures
        forall|a: int, b: int|
            0 <= a < b < naming(paths, path).len() ==> #[trigger] naming(paths, path)[a]
                < #[trigger] naming(paths, path)[b],
        forall|n: int| #[trigger]
            naming(paths, path).contains(n) <==> 0 <= n < paths.len() && paths[n].contains(path),
{
    naming_is_exact(paths, path);
}

proof fn idle_filter(
    globs: Seq<Seq<char>>,
    v: Seq<FoundView>,
    keep: spec_fn(int) -> bool,
    glob: spec_fn(int) -> Seq<char>,
    n: nat,
)
    requires
        n <= globs.len(),
        forall|i: int| #[trigger] keep(i) == !hits(v, i),
        forall|i: int| #[trigger] glob(i) == globs[i],
    ensures
        idle(globs.take(n as int), v) == Seq::new(n, |i: int| i).filter(keep).map_values(glob),
    decreases n,
{
    reveal(Seq::filter);
    let all = Seq::new(n, |i: int| i);
    if n > 0 {
        let m = (n - 1) as nat;
        idle_filter(globs, v, keep, glob, m);
        assert(all.drop_last() =~= Seq::new(m, |i: int| i));
        assert(all.last() == m as int);
        assert(globs.take(n as int).drop_last() =~= globs.take(m as int));
        assert(globs.take(n as int).last() == globs[m as int]);
        let before = all.drop_last().filter(keep);
        assert(before.push(m as int).map_values(glob) =~= before.map_values(glob).push(globs[m as int]));
    } else {
        assert(all.filter(keep).map_values(glob) =~= Seq::<Seq<char>>::empty());
        assert(globs.take(0).len() == 0);
    }
}

/// The globs that are reported are exactly those by whose number no file was found, in their order.
pub proof fn idle_globs_are_reported_in_order(globs: Seq<Seq<char>>, v: Seq<FoundView>)
    ensures
        idle(globs, v) == Seq::new(globs.len(), |i: int| i).filter(
            |i: int| !(exists|k: int| 0 <= k < v.len() && #[trigger] v[k].by.contains(i)),
        ).map_values(|i: int| globs[i]),
{
    let keep = |i: int| !(exists|k: int| 0 <= k < v.len() && #[trigger] v[k].by.contains(i));
    assert forall|i: int| #[trigger] keep(i) == !hits(v, i) by {}
    idle_filter(globs, v, keep, |i: int| globs[i], globs.len());
    assert(globs.take(globs.len() as int) =~= globs);
}

} // verus!
