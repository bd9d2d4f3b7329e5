//! The files of a tree by their paths, and what it takes to make another tree hold the same.
use vstd::prelude::*;
use vstd::string::*;

use crate::order::{before, before_is_total, before_is_transitive, sorts_before};
use crate::paths::rel_ok;
use crate::text::{same, texts};
use crate::wire::{headers, FileHeader, HeaderView};

verus! {

/// Whether headers stand in the order of their paths, no path twice.
pub open spec fn by_path(v: Seq<HeaderView>) -> bool {
    forall|i: int, j: int| 0 <= i < j < v.len() ==> before(#[trigger] v[i].path, #[trigger] v[j].path)
}

/// The files that headers describe, by their paths. Of two for one path the later counts.
pub open spec fn as_map(v: Seq<HeaderView>) -> Map<Seq<char>, HeaderView>
    decreases v.len(),
{
    if v.len() == 0 {
        Map::empty()
    } else {
        as_map(v.drop_last()).insert(v.last().path, v.last())
    }
}

/// A tree's files: one header for each path.
#[derive(Debug)]
pub struct Files {
    /// In the order of their paths, no path twice.
    pub entries: Vec<FileHeader>,
}

impl View for Files {
    type V = Map<Seq<char>, HeaderView>;

    open spec fn view(&self) -> Map<Seq<char>, HeaderView> {
        as_map(headers(self.entries@))
    }
}

/// Every path of `as_map` is one of the headers', and has a header that names it.
pub proof fn mapped_paths(v: Seq<HeaderView>)
    ensures
        forall|k: Seq<char>| #[trigger]
            as_map(v).contains_key(k) <==> exists|i: int| 0 <= i < v.len() && #[trigger] v[i].path == k,
        forall|k: Seq<char>| #[trigger]
            as_map(v).contains_key(k) ==> as_map(v)[k].path == k && v.contains(as_map(v)[k]),
    decreases v.len(),
{
    if v.len() > 0 {
        let w = v.drop_last();
        mapped_paths(w);
        assert forall|k: Seq<char>| #[trigger] as_map(v).contains_key(k) <==> exists|i: int|
            0 <= i < v.len() && #[trigger] v[i].path == k by {
            if as_map(v).contains_key(k) {
                if k == v.last().path {
                    assert(v[v.len() - 1].path == k);
                } else {
                    assert(as_map(w).contains_key(k));
                    let i = choose|i: int| 0 <= i < w.len() && #[trigger] w[i].path == k;
                    assert(v[i].path == k);
                }
            }
            if exists|i: int| 0 <= i < v.len() && #[trigger] v[i].path == k {
                let i = choose|i: int| 0 <= i < v.len() && #[trigger] v[i].path == k;
                if i < w.len() {
                    assert(w[i].path == k);
                    assert(as_map(w).contains_key(k));
                }
            }
        }
        assert forall|k: Seq<char>| #[trigger] as_map(v).contains_key(k) implies as_map(v)[k].path == k
            && v.contains(as_map(v)[k]) by {
            if k == v.last().path {
                assert(v[v.len() - 1] == as_map(v)[k]);
            } else {
                assert(as_map(w).contains_key(k));
                let i = choose|i: int| 0 <= i < w.len() && w[i] == as_map(w)[k];
                assert(v[i] == as_map(v)[k]);
            }
        }
    }
}

/// With no path twice, every header is the one that its path has.
pub proof fn mapped_headers(v: Seq<HeaderView>)
    requires
        by_path(v),
    ensures
        forall|i: int|
            0 <= i < v.len() ==> as_map(v).contains_key(#[trigger] v[i].path) && as_map(v)[v[i].path]
                == v[i],
    decreases v.len(),
{
    if v.len() > 0 {
        let w = v.drop_last();
        assert forall|i: int, j: int| 0 <= i < j < w.len() implies before(
            #[trigger] w[i].path,
            #[trigger] w[j].path,
        ) by {
            assert(before(v[i].path, v[j].path));
        }
        mapped_headers(w);
        assert forall|i: int| 0 <= i < v.len() implies as_map(v).contains_key(#[trigger] v[i].path)
            && as_map(v)[v[i].path] == v[i] by {
            if i < w.len() {
                assert(w[i].path == v[i].path);
                assert(before(v[i].path, v[v.len() - 1].path));
                before_is_total(v[i].path, v[v.len() - 1].path);
            }
        }
    }
}

impl Files {
    /// The entries stand in the order of their paths, no path twice.
    pub open spec fn wf(&self) -> bool {
        by_path(headers(self.entries@))
    }

    pub fn new() -> (r: Files)
        ensures
            r.wf(),
            r@ == Map::<Seq<char>, HeaderView>::empty(),
    {
        Files { entries: Vec::new() }
    }

    /// Where the entry for a path is, or where it would have to be.
    fn find(&self, path: &str) -> (r: Result<usize, usize>)
        requires
            self.wf(),
        ensures
            match r {
                Ok(i) => i < self.entries@.len() && self.entries@[i as int]@.path == path@,
                Err(i) => {
                    &&& i <= self.entries@.len()
                    &&& forall|j: int|
                        0 <= j < i ==> before(#[trigger] headers(self.entries@)[j].path, path@)
                    &&& forall|j: int|
                        i <= j < self.entries@.len() ==> before(
                            path@,
                            #[trigger] headers(self.entries@)[j].path,
                        )
                },
            },
    {
        let ghost v = headers(self.entries@);
        let mut lo: usize = 0;
        let mut hi: usize = self.entries.len();
        while lo < hi
            invariant
                by_path(v),
                v == headers(self.entries@),
                lo <= hi <= self.entries@.len(),
                forall|j: int| 0 <= j < lo ==> before(#[trigger] v[j].path, path@),
                forall|j: int| hi <= j < v.len() ==> before(path@, #[trigger] v[j].path),
            decreases hi - lo,
        {
            let mid: usize = lo + (hi - lo) / 2;
            let p = self.entries[mid].path.as_str();
            assert(v[mid as int].path == p@);
            if same(p, path) {
                return Ok(mid);
            }
            if sorts_before(p, path) {
                assert forall|j: int| 0 <= j < mid + 1 implies before(
                    #[trigger] v[j].path,
                    path@,
                ) by {
                    if j < mid {
                        before_is_transitive(v[j].path, v[mid as int].path, path@);
                    }
                }
                lo = mid + 1;
            } else {
                proof {
                    before_is_total(p@, path@);
                }
                assert forall|j: int| mid <= j < v.len() implies before(
                    path@,
                    #[trigger] v[j].path,
                ) by {
                    if j > mid {
                        before_is_transitive(path@, v[mid as int].path, v[j].path);
                    }
                }
                hi = mid;
            }
        }
        Err(lo)
    }

    /// The header for a path.
    pub fn get(&self, path: &str) -> (r: Option<&FileHeader>)
        requires
            self.wf(),
        ensures
            match r {
                Some(h) => self@.contains_key(path@) && self@[path@] == h@,
                None => !self@.contains_key(path@),
            },
    {
        proof {
            mapped_paths(headers(self.entries@));
            mapped_headers(headers(self.entries@));
        }
        match self.find(path) {
            Ok(i) => {
                assert(headers(self.entries@)[i as int].path == path@);
                Some(&self.entries[i])
            },
            Err(i) => {
                assert forall|j: int| 0 <= j < self.entries@.len() implies #[trigger] headers(
                    self.entries@,
                )[j].path != path@ by {
                    before_is_total(headers(self.entries@)[j].path, path@);
                }
                None
            },
        }
    }

    /// Takes in a header, in place of the one for its path if there is one.
    pub fn insert(&mut self, h: FileHeader)
        requires
            old(self).wf(),
        ensures
            final(self).wf(),
            final(self)@ == old(self)@.insert(h@.path, h@),
    {
        let ghost v = headers(self.entries@);
        let ghost hv = h@;
        match self.find(h.path.as_str()) {
            Ok(i) => {
                self.entries.set(i, h);
                let ghost w = headers(self.entries@);
                proof {
                    assert(w =~= v.update(i as int, hv));
                    assert forall|a: int, b: int| 0 <= a < b < w.len() implies before(
                        #[trigger] w[a].path,
                        #[trigger] w[b].path,
                    ) by {
                        assert(before(v[a].path, v[b].path));
                    }
                    replaced(v, i as int, hv);
                }
            },
            Err(i) => {
                self.entries.insert(i, h);
                let ghost w = headers(self.entries@);
                proof {
                    assert(w =~= v.insert(i as int, hv));
                    assert forall|a: int, b: int| 0 <= a < b < w.len() implies before(
                        #[trigger] w[a].path,
                        #[trigger] w[b].path,
                    ) by {
                        let a2 = if a < i {
                            a
                        } else {
                            a - 1
                        };
                        let b2 = if b < i {
                            b
                        } else {
                            b - 1
                        };
                        if a != i && b != i {
                            assert(before(v[a2].path, v[b2].path));
                        } else if a == i {
                            assert(before(hv.path, v[b2].path));
                        } else {
                            assert(before(v[a2].path, hv.path));
                        }
                    }
                    put_in(v, i as int, hv);
                }
            },
        }
    }
}

proof fn replaced(v: Seq<HeaderView>, i: int, h: HeaderView)
    requires
        by_path(v),
        by_path(v.update(i, h)),
        0 <= i < v.len(),
        v[i].path == h.path,
    ensures
        as_map(v.update(i, h)) == as_map(v).insert(h.path, h),
{
    let w = v.update(i, h);
    mapped_paths(v);
    mapped_headers(v);
    mapped_paths(w);
    mapped_headers(w);
    assert(as_map(w) =~= as_map(v).insert(h.path, h)) by {
        assert forall|k: Seq<char>| as_map(w).contains_key(k) <==> as_map(v).insert(
            h.path,
            h,
        ).contains_key(k) by {
            if as_map(w).contains_key(k) {
                let j = choose|j: int| 0 <= j < w.len() && #[trigger] w[j].path == k;
                assert(v[j].path == k);
            }
            if as_map(v).contains_key(k) {
                let j = choose|j: int| 0 <= j < v.len() && #[trigger] v[j].path == k;
                assert(w[j].path == k);
            }
            assert(w[i].path == h.path);
        }
        assert forall|k: Seq<char>| as_map(w).contains_key(k) implies as_map(w)[k] == as_map(v).insert(
            h.path,
            h,
        )[k] by {
            let j = choose|j: int| 0 <= j < w.len() && #[trigger] w[j].path == k;
            assert(v[j].path == k);
            if j != i {
                assert(w[j] == v[j]);
                assert(k != h.path) by {
                    if j < i {
                        assert(before(v[j].path, v[i].path));
                    } else {
                        assert(before(v[i].path, v[j].path));
                    }
                    before_is_total(v[i].path, v[j].path);
                }
            }
        }
    }
}

proof fn put_in(v: Seq<HeaderView>, i: int, h: HeaderView)
    requires
        by_path(v),
        by_path(v.insert(i, h)),
        0 <= i <= v.len(),
    ensures
        as_map(v.insert(i, h)) == as_map(v).insert(h.path, h),
{
    let w = v.insert(i, h);
    mapped_paths(v);
    mapped_headers(v);
    mapped_paths(w);
    mapped_headers(w);
    assert(w[i] == h);
    assert(as_map(w) =~= as_map(v).insert(h.path, h)) by {
        assert forall|k: Seq<char>| as_map(w).contains_key(k) <==> as_map(v).insert(
            h.path,
            h,
        ).contains_key(k) by {
            if as_map(w).contains_key(k) && k != h.path {
                let j = choose|j: int| 0 <= j < w.len() && #[trigger] w[j].path == k;
                assert(v[if j < i {
                    j
                } else {
                    j - 1
                }].path == k);
            }
            if as_map(v).contains_key(k) {
                let j = choose|j: int| 0 <= j < v.len() && #[trigger] v[j].path == k;
                assert(w[if j < i {
                    j
                } else {
                    j + 1
                }].path == k);
            }
            assert(w[i].path == h.path);
        }
        assert forall|k: Seq<char>| as_map(w).contains_key(k) implies as_map(w)[k] == as_map(v).insert(
            h.path,
            h,
        )[k] by {
            assert(w[i].path == h.path);
            if k != h.path {
                let j = choose|j: int| 0 <= j < w.len() && #[trigger] w[j].path == k;
                let j2 = if j < i {
                    j
                } else {
                    j - 1
                };
                assert(w[j] == v[j2]);
                assert(v[j2].path == k);
            }
        }
    }
}

/// The files that a list of headers describes. Of two for one path the later counts.
pub fn collect(list: &Vec<FileHeader>) -> (r: Files)
    ensures
        r.wf(),
        r@ == as_map(headers(list@)),
{
    let mut out = Files::new();
    let ghost v = headers(list@);
    let mut i: usize = 0;
    while i < list.len()
        invariant
            i <= list@.len(),
            v == headers(list@),
            out.wf(),
            out@ == as_map(v.take(i as int)),
        decreases list@.len() - i,
    {
        assert(v.take(i + 1).drop_last() =~= v.take(i as int));
        assert(v.take(i + 1).last() == list@[i as int]@);
        out.insert(list[i].clone());
        i += 1;
    }
    assert(v.take(i as int) =~= v);
    out
}

/// rsync's quick check: size or mtime differs -> resend. 1s tolerance,
/// because NTFS and ext4 disagree about granularity.
pub open spec fn stale(have: Option<HeaderView>, h: HeaderView) -> bool {
    match have {
        Some(r) => r.size != h.size || r.mtime - h.mtime > 1 || h.mtime - r.mtime > 1,
        None => true,
    }
}

/// What a tree holds for a path.
pub open spec fn held(files: Map<Seq<char>, HeaderView>, path: Seq<char>) -> Option<HeaderView> {
    if files.contains_key(path) {
        Some(files[path])
    } else {
        None
    }
}

/// Whether texts stand in order, none twice.
pub open spec fn ascending(v: Seq<Seq<char>>) -> bool {
    forall|i: int, j: int| 0 <= i < j < v.len() ==> before(#[trigger] v[i], #[trigger] v[j])
}

/// Whether these are the files to send and the paths to delete, in order: what is missing there or
/// stale, or everything when asked, and what this tree doesn't have.
pub open spec fn settles(
    local: Map<Seq<char>, HeaderView>,
    remote: Map<Seq<char>, HeaderView>,
    full: bool,
    upload: Seq<HeaderView>,
    deletes: Seq<Seq<char>>,
) -> bool {
    &&& by_path(upload)
    &&& forall|h: HeaderView| #[trigger]
        upload.contains(h) <==> local.contains_key(h.path) && local[h.path] == h && (full || stale(
            held(remote, h.path),
            h,
        ))
    &&& ascending(deletes)
    &&& forall|p: Seq<char>| #[trigger]
        deletes.contains(p) <==> remote.contains_key(p) && !local.contains_key(p)
}

/// What a sync sends.
#[derive(Debug)]
pub struct SyncPlan {
    pub upload: Vec<FileHeader>,
    pub deletes: Vec<String>,
}

/// Whether the server's copy has to be replaced.
pub fn is_stale(have: Option<&FileHeader>, h: &FileHeader) -> (r: bool)
    ensures
        r == stale(
            match have {
                Some(x) => Some(x@),
                None => None,
            },
            h@,
        ),
        have is None ==> r,
        have matches Some(x) ==> (!r <==> x.size == h.size && -1 <= x.mtime - h.mtime <= 1),
{
    match have {
        Some(x) => {
            let d: i128 = x.mtime as i128 - h.mtime as i128;
            x.size != h.size || d > 1 || d < -1
        },
        None => true,
    }
}

/// What it takes to make the server's tree hold what this one does. With `full`, everything is
/// sent again; what this tree doesn't have comes off either way.
pub fn sync_plan(local: &Files, remote: &Files, full: bool) -> (r: SyncPlan)
    requires
        local.wf(),
        remote.wf(),
    ensures
        settles(local@, remote@, full, headers(r.upload@), texts(r.deletes@)),
        forall|h: HeaderView| #[trigger]
            headers(r.upload@).contains(h) ==> local@.contains_key(h.path) && local@[h.path] == h,
        forall|p: Seq<char>| #[trigger]
            local@.contains_key(p) && !remote@.contains_key(p) ==> headers(r.upload@).contains(
                local@[p],
            ),
        !full ==> forall|p: Seq<char>| #[trigger]
            local@.contains_key(p) && remote@.contains_key(p) ==> (!headers(r.upload@).contains(
                local@[p],
            ) <==> remote@[p].size == local@[p].size && -1 <= remote@[p].mtime - local@[p].mtime <= 1),
        full ==> forall|p: Seq<char>| #[trigger]
            local@.contains_key(p) ==> headers(r.upload@).contains(local@[p]),
        forall|p: Seq<char>| #[trigger]
            texts(r.deletes@).contains(p) <==> remote@.contains_key(p) && !local@.contains_key(p),
{
    proof {
        mapped_paths(headers(local.entries@));
    }
    let upload = to_upload(local, remote, full);
    let deletes = to_delete(local, remote);
    SyncPlan { upload, deletes }
}

fn to_upload(local: &Files, remote: &Files, full: bool) -> (r: Vec<FileHeader>)
    requires
        local.wf(),
        remote.wf(),
    ensures
        by_path(headers(r@)),
        forall|h: HeaderView| #[trigger]
            headers(r@).contains(h) <==> local@.contains_key(h.path) && local@[h.path] == h && (full
                || stale(held(remote@, h.path), h)),
{
    let ghost l = headers(local.entries@);
    let mut out: Vec<FileHeader> = Vec::new();
    let mut i: usize = 0;
    while i < local.entries.len()
        invariant
            i <= local.entries@.len(),
            l == headers(local.entries@),
            by_path(l),
            remote.wf(),
            by_path(headers(out@)),
            forall|a: int|
                0 <= a < out@.len() ==> exists|b: int|
                    0 <= b < i && l[b] == #[trigger] headers(out@)[a] && (full || stale(
                        held(remote@, l[b].path),
                        l[b],
                    )),
            forall|b: int|
                0 <= b < i && (full || stale(held(remote@, #[trigger] l[b].path), l[b])) ==> headers(
                    out@,
                ).contains(l[b]),
        decreases local.entries@.len() - i,
    {
        let h = &local.entries[i];
        assert(l[i as int] == h@);
        let ghost was = headers(out@);
        if full || is_stale(remote.get(h.path.as_str()), h) {
            out.push(h.clone());
            let ghost now = headers(out@);
            proof {
                assert(now =~= was.push(l[i as int]));
                assert forall|a: int, b: int| 0 <= a < b < now.len() implies before(
                    #[trigger] now[a].path,
                    #[trigger] now[b].path,
                ) by {
                    if b < was.len() {
                        assert(before(was[a].path, was[b].path));
                    } else {
                        let c = choose|c: int|
                            0 <= c < i && l[c] == was[a] && (full || stale(
                                held(remote@, l[c].path),
                                l[c],
                            ));
                        assert(before(l[c].path, l[i as int].path));
                    }
                }
                assert forall|a: int| 0 <= a < now.len() implies exists|b: int|
                    0 <= b < i + 1 && l[b] == #[trigger] now[a] && (full || stale(
                        held(remote@, l[b].path),
                        l[b],
                    )) by {
                    if a < was.len() {
                        let c = choose|c: int|
                            0 <= c < i && l[c] == was[a] && (full || stale(
                                held(remote@, l[c].path),
                                l[c],
                            ));
                        assert(l[c] == now[a]);
                    } else {
                        assert(l[i as int] == now[a]);
                    }
                }
                assert forall|b: int|
                    0 <= b < i + 1 && (full || stale(
                        held(remote@, #[trigger] l[b].path),
                        l[b],
                    )) implies now.contains(l[b]) by {
                    if b < i {
                        let a = choose|a: int| 0 <= a < was.len() && was[a] == l[b];
                        assert(now[a] == l[b]);
                    } else {
                        assert(now[was.len() as int] == l[b]);
                    }
                }
            }
        }
        i += 1;
    }
    proof {
        mapped_paths(l);
        mapped_headers(l);
        let now = headers(out@);
        assert forall|h: HeaderView| #[trigger] now.contains(h) <==> local@.contains_key(h.path)
            && local@[h.path] == h && (full || stale(held(remote@, h.path), h)) by {
            if now.contains(h) {
                let a = choose|a: int| 0 <= a < now.len() && now[a] == h;
                let b = choose|b: int|
                    0 <= b < i && l[b] == now[a] && (full || stale(held(remote@, l[b].path), l[b]));
                assert(l[b].path == h.path);
            }
            if local@.contains_key(h.path) && local@[h.path] == h && (full || stale(
                held(remote@, h.path),
                h,
            )) {
                assert(l.contains(h));
                let b = choose|b: int| 0 <= b < l.len() && l[b] == h;
                assert(l[b].path == h.path);
            }
        }
    }
    out
}

fn to_delete(local: &Files, remote: &Files) -> (r: Vec<String>)
    requires
        local.wf(),
        remote.wf(),
    ensures
        ascending(texts(r@)),
        forall|p: Seq<char>| #[trigger]
            texts(r@).contains(p) <==> remote@.contains_key(p) && !local@.contains_key(p),
{
    let ghost m = headers(remote.entries@);
    let mut out: Vec<String> = Vec::new();
    let mut i: usize = 0;
    while i < remote.entries.len()
        invariant
            i <= remote.entries@.len(),
            m == headers(remote.entries@),
            by_path(m),
            local.wf(),
            ascending(texts(out@)),
            forall|a: int|
                0 <= a < out@.len() ==> exists|b: int|
                    0 <= b < i && m[b].path == #[trigger] texts(out@)[a] && !local@.contains_key(
                        m[b].path,
                    ),
            forall|b: int|
                0 <= b < i && !local@.contains_key(#[trigger] m[b].path) ==> texts(out@).contains(
                    m[b].path,
                ),
        decreases remote.entries@.len() - i,
    {
        let h = &remote.entries[i];
        assert(m[i as int] == h@);
        let ghost was = texts(out@);
        if local.get(h.path.as_str()).is_none() {
            out.push(h.path.clone());
            let ghost now = texts(out@);
            proof {
                assert(now =~= was.push(m[i as int].path));
                assert forall|a: int, b: int| 0 <= a < b < now.len() implies before(
                    #[trigger] now[a],
                    #[trigger] now[b],
                ) by {
                    if b < was.len() {
                        assert(before(was[a], was[b]));
                    } else {
                        let c = choose|c: int|
                            0 <= c < i && m[c].path == was[a] && !local@.contains_key(m[c].path);
                        assert(before(m[c].path, m[i as int].path));
                    }
                }
                assert forall|a: int| 0 <= a < now.len() implies exists|b: int|
                    0 <= b < i + 1 && m[b].path == #[trigger] now[a] && !local@.contains_key(
                        m[b].path,
                    ) by {
                    if a < was.len() {
                        let c = choose|c: int|
                            0 <= c < i && m[c].path == was[a] && !local@.contains_key(m[c].path);
                        assert(m[c].path == now[a]);
                    } else {
                        assert(m[i as int].path == now[a]);
                    }
                }
                assert forall|b: int|
                    0 <= b < i + 1 && !local@.contains_key(
                        #[trigger] m[b].path,
                    ) implies now.contains(m[b].path) by {
                    if b < i {
                        let a = choose|a: int| 0 <= a < was.len() && was[a] == m[b].path;
                        assert(now[a] == m[b].path);
                    } else {
                        assert(now[was.len() as int] == m[b].path);
                    }
                }
            }
        }
        i += 1;
    }
    proof {
        mapped_paths(m);
        mapped_headers(m);
        let now = texts(out@);
        assert forall|p: Seq<char>| #[trigger] now.contains(p) <==> remote@.contains_key(p)
            && !local@.contains_key(p) by {
            if now.contains(p) {
                let a = choose|a: int| 0 <= a < now.len() && now[a] == p;
                let b = choose|b: int|
                    0 <= b < i && m[b].path == now[a] && !local@.contains_key(m[b].path);
                assert(m[b].path == p);
            }
        }
    }
    out
}

/// What the server's tree holds after a push: the valid paths among `deletes` are gone, and every
/// file that was sent stands as its header says.
pub open spec fn pushed(
    remote: Map<Seq<char>, HeaderView>,
    deletes: Seq<Seq<char>>,
    sent: Seq<HeaderView>,
) -> Map<Seq<char>, HeaderView> {
    remote.remove_keys(Set::new(|p: Seq<char>| deletes.contains(p) && rel_ok(p))).union_prefer_right(
        as_map(sent),
    )
}

/// After a sync the server holds this tree: the same paths, and for each a file that is not stale.
/// After a full one every header is this tree's own.
pub proof fn a_sync_settles_the_server(
    local: Map<Seq<char>, HeaderView>,
    remote: Map<Seq<char>, HeaderView>,
    full: bool,
    upload: Seq<HeaderView>,
    deletes: Seq<Seq<char>>,
)
    requires
        settles(local, remote, full, upload, deletes),
        forall|p: Seq<char>| #[trigger] local.contains_key(p) ==> local[p].path == p,
        forall|p: Seq<char>| #[trigger] remote.contains_key(p) ==> rel_ok(p),
    ensures
        pushed(remote, deletes, upload).dom() == local.dom(),
        forall|p: Seq<char>| #[trigger]
            local.contains_key(p) ==> !stale(Some(pushed(remote, deletes, upload)[p]), local[p]),
        forall|p: Seq<char>| #[trigger]
            local.contains_key(p) ==> pushed(remote, deletes, upload)[p].size == local[p].size && -1
                <= pushed(remote, deletes, upload)[p].mtime - local[p].mtime <= 1,
        full ==> pushed(remote, deletes, upload) == local,
{
    let after = pushed(remote, deletes, upload);
    let sent = as_map(upload);
    mapped_paths(upload);
    mapped_headers(upload);
    assert forall|p: Seq<char>| sent.contains_key(p) implies local.contains_key(p) && local[p]
        == sent[p] by {
        assert(upload.contains(sent[p]));
    }
    assert forall|p: Seq<char>| local.contains_key(p) && (full || stale(
        held(remote, p),
        local[p],
    )) implies sent.contains_key(p) by {
        assert(upload.contains(local[p]));
        let i = choose|i: int| 0 <= i < upload.len() && upload[i] == local[p];
        assert(upload[i].path == p);
    }
    assert forall|p: Seq<char>| after.contains_key(p) <==> local.contains_key(p) by {
        if remote.contains_key(p) && !local.contains_key(p) {
            assert(deletes.contains(p));
        }
    }
    assert(after.dom() =~= local.dom());
    assert forall|p: Seq<char>| #[trigger] local.contains_key(p) implies !stale(
        Some(after[p]),
        local[p],
    ) by {
        if !sent.contains_key(p) {
            assert(!stale(held(remote, p), local[p]));
            assert(after[p] == remote[p]);
        }
    }
    if full {
        assert(after =~= local);
    }
}

/// A server that already holds this tree is sent nothing and told to delete nothing.
pub proof fn a_settled_server_is_left_alone(
    local: Map<Seq<char>, HeaderView>,
    remote: Map<Seq<char>, HeaderView>,
    upload: Seq<HeaderView>,
    deletes: Seq<Seq<char>>,
)
    requires
        settles(local, remote, false, upload, deletes),
        remote.dom() == local.dom(),
        forall|p: Seq<char>| #[trigger] local.contains_key(p) ==> !stale(Some(remote[p]), local[p]),
    ensures
        upload.len() == 0,
        deletes.len() == 0,
{
    if upload.len() > 0 {
        let h = upload[0];
        assert(upload.contains(h));
        assert(local.contains_key(h.path));
        assert(remote.dom().contains(h.path));
    }
    if deletes.len() > 0 {
        assert(deletes.contains(deletes[0]));
        assert(remote.dom().contains(deletes[0]));
    }
}

/// What this tree doesn't have comes off the server, on a full run like on any other.
pub proof fn what_is_gone_here_comes_off(
    local: Map<Seq<char>, HeaderView>,
    remote: Map<Seq<char>, HeaderView>,
    full: bool,
    upload: Seq<HeaderView>,
    deletes: Seq<Seq<char>>,
    path: Seq<char>,
)
    requires
        settles(local, remote, full, upload, deletes),
        rel_ok(path),
        !local.contains_key(path),
    ensures
        !pushed(remote, deletes, upload).contains_key(path),
{
    mapped_paths(upload);
    if as_map(upload).contains_key(path) {
        assert(upload.contains(as_map(upload)[path]));
    }
    if remote.contains_key(path) {
        assert(deletes.contains(path));
    }
}

/// A sync right after a sync has nothing to do, whether the first was a full one or not.
pub proof fn a_second_sync_sends_nothing(
    local: Map<Seq<char>, HeaderView>,
    remote: Map<Seq<char>, HeaderView>,
    full: bool,
    upload: Seq<HeaderView>,
    deletes: Seq<Seq<char>>,
    again: Seq<HeaderView>,
    gone: Seq<Seq<char>>,
)
    requires
        settles(local, remote, full, upload, deletes),
        settles(local, pushed(remote, deletes, upload), false, again, gone),
        forall|p: Seq<char>| #[trigger] local.contains_key(p) ==> local[p].path == p,
        forall|p: Seq<char>| #[trigger] remote.contains_key(p) ==> rel_ok(p),
    ensures
        again.len() == 0,
        gone.len() == 0,
{
    a_sync_settles_the_server(local, remote, full, upload, deletes);
    a_settled_server_is_left_alone(local, pushed(remote, deletes, upload), again, gone);
}

proof fn in_path_order_only_one_way(x: Seq<HeaderView>, y: Seq<HeaderView>)
    requires
        by_path(x),
        by_path(y),
        forall|h: HeaderView|
            #![trigger x.contains(h)]
            #![trigger y.contains(h)]
            x.contains(h) <==> y.contains(h),
    ensures
        x == y,
    decreases x.len(),
{
    if x.len() == 0 {
        if y.len() > 0 {
            assert(y.contains(y[0]));
            assert(x.contains(y[0]));
        }
        assert(x =~= y);
    } else {
        assert(x.contains(x[0]));
        assert(y.contains(x[0]));
        let a = x[x.len() - 1];
        let b = y[y.len() - 1];
        assert(x.contains(a));
        assert(y.contains(a));
        assert(y.contains(b));
        assert(x.contains(b));
        let i = choose|i: int| 0 <= i < y.len() && y[i] == a;
        let j = choose|j: int| 0 <= j < x.len() && x[j] == b;
        if i < y.len() - 1 {
            assert(before(y[i].path, y[y.len() - 1].path));
            if j < x.len() - 1 {
                assert(before(x[j].path, x[x.len() - 1].path));
            }
            before_is_total(a.path, b.path);
        }
        assert(a == b);
        let p = x.drop_last();
        let q = y.drop_last();
        assert forall|s: int, t: int| 0 <= s < t < p.len() implies before(
            #[trigger] p[s].path,
            #[trigger] p[t].path,
        ) by {
            assert(before(x[s].path, x[t].path));
        }
        assert forall|s: int, t: int| 0 <= s < t < q.len() implies before(
            #[trigger] q[s].path,
            #[trigger] q[t].path,
        ) by {
            assert(before(y[s].path, y[t].path));
        }
        assert forall|h: HeaderView|
            #![trigger p.contains(h)]
            #![trigger q.contains(h)]
            p.contains(h) <==> q.contains(h) by {
            if p.contains(h) {
                let k = choose|k: int| 0 <= k < p.len() && p[k] == h;
                assert(x[k] == h);
                assert(x.contains(h));
                let m = choose|m: int| 0 <= m < y.len() && y[m] == h;
                assert(before(x[k].path, x[x.len() - 1].path));
                before_is_total(a.path, a.path);
                assert(q[m] == h);
            }
            if q.contains(h) {
                let k = choose|k: int| 0 <= k < q.len() && q[k] == h;
                assert(y[k] == h);
                assert(y.contains(h));
                let m = choose|m: int| 0 <= m < x.len() && x[m] == h;
                assert(before(y[k].path, y[y.len() - 1].path));
                before_is_total(a.path, a.path);
                assert(p[m] == h);
            }
        }
        in_path_order_only_one_way(p, q);
        assert(x =~= p.push(a));
        assert(y =~= q.push(b));
    }
}

/// The headers of bare paths.
spec fn bare(v: Seq<Seq<char>>) -> Seq<HeaderView> {
    v.map_values(|p: Seq<char>| HeaderView { path: p, size: 0, mtime: 0 })
}

proof fn ascending_only_one_way(x: Seq<Seq<char>>, y: Seq<Seq<char>>)
    requires
        ascending(x),
        ascending(y),
        forall|p: Seq<char>|
            #![trigger x.contains(p)]
            #![trigger y.contains(p)]
            x.contains(p) <==> y.contains(p),
    ensures
        x == y,
{
    let a = bare(x);
    let b = bare(y);
    assert forall|s: int, t: int| 0 <= s < t < a.len() implies before(
        #[trigger] a[s].path,
        #[trigger] a[t].path,
    ) by {
        assert(before(x[s], x[t]));
    }
    assert forall|s: int, t: int| 0 <= s < t < b.len() implies before(
        #[trigger] b[s].path,
        #[trigger] b[t].path,
    ) by {
        assert(before(y[s], y[t]));
    }
    assert forall|h: HeaderView|
        #![trigger a.contains(h)]
        #![trigger b.contains(h)]
        a.contains(h) <==> b.contains(h) by {
        if a.contains(h) {
            let k = choose|k: int| 0 <= k < a.len() && a[k] == h;
            assert(x.contains(x[k]));
            let m = choose|m: int| 0 <= m < y.len() && y[m] == x[k];
            assert(b[m] == h);
        }
        if b.contains(h) {
            let k = choose|k: int| 0 <= k < b.len() && b[k] == h;
            assert(y.contains(y[k]));
            let m = choose|m: int| 0 <= m < x.len() && x[m] == y[k];
            assert(a[m] == h);
        }
    }
    in_path_order_only_one_way(a, b);
    assert(x =~= y) by {
        assert(a.len() == x.len() && b.len() == y.len());
        assert forall|i: int| 0 <= i < x.len() implies x[i] == y[i] by {
            assert(a[i].path == x[i] && b[i].path == y[i]);
        }
    }
}

/// What a sync sends is settled by the two trees: there is one list of files and one of paths, in one
/// order.
pub proof fn a_sync_is_settled_one_way(
    local: Map<Seq<char>, HeaderView>,
    remote: Map<Seq<char>, HeaderView>,
    full: bool,
    upload: Seq<HeaderView>,
    deletes: Seq<Seq<char>>,
    other: Seq<HeaderView>,
    gone: Seq<Seq<char>>,
)
    requires
        settles(local, remote, full, upload, deletes),
        settles(local, remote, full, other, gone),
    ensures
        upload == other,
        deletes == gone,
{
    in_path_order_only_one_way(upload, other);
    ascending_only_one_way(deletes, gone);
}

/// Which files a sync sends and which paths it deletes: a file that is not there goes up, one that is
/// there goes up exactly if the two differ in size or in time by more than a second, earlier or later;
/// a full run sends every file; and what is there but not here is deleted, nothing else.
pub proof fn what_a_sync_sends(
    local: Map<Seq<char>, HeaderView>,
    remote: Map<Seq<char>, HeaderView>,
    full: bool,
    upload: Seq<HeaderView>,
    deletes: Seq<Seq<char>>,
    p: Seq<char>,
)
    requires
        settles(local, remote, full, upload, deletes),
        forall|q: Seq<char>| #[trigger] local.contains_key(q) ==> local[q].path == q,
    ensures
        deletes.contains(p) <==> remote.contains_key(p) && !local.contains_key(p),
        forall|h: HeaderView| #[trigger]
            upload.contains(h) && h.path == p ==> local.contains_key(p) && h == local[p],
        local.contains_key(p) && full ==> upload.contains(local[p]),
        local.contains_key(p) && !remote.contains_key(p) ==> upload.contains(local[p]),
        local.contains_key(p) && remote.contains_key(p) && !full ==> (upload.contains(local[p]) <==> {
            ||| remote[p].size != local[p].size
            ||| remote[p].mtime > local[p].mtime + 1
            ||| local[p].mtime > remote[p].mtime + 1
        }),
        forall|i: int, j: int|
            0 <= i < j < upload.len() ==> before(#[trigger] upload[i].path, #[trigger] upload[j].path),
        forall|i: int, j: int|
            0 <= i < j < deletes.len() ==> before(#[trigger] deletes[i], #[trigger] deletes[j]),
{
}

/// Whether the server's copy is taken for the same does not depend on which of the two is the later
/// one, nor on when they are, only on how far they are apart.
pub proof fn staleness_is_a_distance(a: HeaderView, b: HeaderView, shift: int, c: HeaderView, d: HeaderView)
    requires
        c.size == a.size && d.size == b.size,
        c.mtime == a.mtime + shift && d.mtime == b.mtime + shift,
    ensures
        stale(Some(a), b) == stale(Some(b), a),
        stale(Some(a), b) == stale(Some(c), d),
        !stale(Some(a), a),
        a.size == b.size && b.mtime == a.mtime + 1 ==> !stale(Some(a), b),
        b.mtime >= a.mtime + 2 ==> stale(Some(a), b),
        a.size != b.size ==> stale(Some(a), b),
{
}

/// The files that headers describe, path by path: of those with one path, the last.
pub proof fn the_last_header_counts(v: Seq<HeaderView>, i: int)
    requires
        0 <= i < v.len(),
        forall|j: int| i < j < v.len() ==> (#[trigger] v[j]).path != v[i].path,
    ensures
        as_map(v).contains_key(v[i].path),
        as_map(v)[v[i].path] == v[i],
    decreases v.len(),
{
    let w = v.drop_last();
    if i < w.len() {
        assert forall|j: int| i < j < w.len() implies (#[trigger] w[j]).path != w[i].path by {
            assert(v[j].path != v[i].path);
        }
        the_last_header_counts(w, i);
        assert(v[v.len() - 1].path != v[i].path);
    }
}

/// A header in a list of files is found under its path, and a path without one is not there.
pub proof fn headers_are_found_by_their_paths(v: Seq<HeaderView>, path: Seq<char>)
    ensures
        as_map(v).contains_key(path) ==> exists|i: int|
            0 <= i < v.len() && #[trigger] v[i] == as_map(v)[path] && v[i].path == path,
        (forall|i: int| 0 <= i < v.len() ==> (#[trigger] v[i]).path != path) ==> !as_map(v).contains_key(
            path,
        ),
{
    mapped_paths(v);
    if as_map(v).contains_key(path) {
        let i = choose|i: int| 0 <= i < v.len() && v[i] == as_map(v)[path];
        assert(v[i].path == path);
    }
}

/// What a push leaves of each path: what was sent for it last, or else nothing if it was to be deleted
/// and is a valid path, or else what was there.
pub proof fn what_a_push_leaves(
    remote: Map<Seq<char>, HeaderView>,
    deletes: Seq<Seq<char>>,
    sent: Seq<HeaderView>,
    p: Seq<char>,
)
    ensures
        as_map(sent).contains_key(p) ==> pushed(remote, deletes, sent).contains_key(p) && pushed(
            remote,
            deletes,
            sent,
        )[p] == as_map(sent)[p],
        !as_map(sent).contains_key(p) && deletes.contains(p) && rel_ok(p) ==> !pushed(
            remote,
            deletes,
            sent,
        ).contains_key(p),
        !as_map(sent).contains_key(p) && !(deletes.contains(p) && rel_ok(p)) ==> (pushed(
            remote,
            deletes,
            sent,
        ).contains_key(p) <==> remote.contains_key(p)) && (remote.contains_key(p) ==> pushed(
            remote,
            deletes,
            sent,
        )[p] == remote[p]),
{
}

} // verus!
