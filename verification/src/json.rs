//! Cargo's `--message-format=json` stream, reassembled from wire chunks.
//!
//! Cargo names every file it produced, hash and all, so nothing here has to
//! guess at a filename or know where a profile puts its output.
use vstd::prelude::*;
use vstd::string::*;

use crate::plan::Local;
use crate::text::{has_text, opt_text, same, texts};

verus! {

/// One of cargo's records, as far as it matters here.
#[derive(Debug)]
pub struct Record {
    pub reason: String,
    pub target: Option<RecordTarget>,
    pub profile: Option<RecordProfile>,
    pub executable: Option<String>,
}

#[derive(Debug)]
pub struct RecordTarget {
    pub kind: Vec<String>,
}

#[derive(Debug, Clone, Copy)]
pub struct RecordProfile {
    pub test: bool,
}

/// The model of a [`Record`].
#[verifier::ext_equal]
pub struct RecordView {
    pub reason: Seq<char>,
    /// The target's kinds.
    pub kind: Option<Seq<Seq<char>>>,
    /// Whether the profile is one for tests.
    pub test: Option<bool>,
    pub executable: Option<Seq<char>>,
}

impl View for Record {
    type V = RecordView;

    open spec fn view(&self) -> RecordView {
        RecordView {
            reason: self.reason@,
            kind: match self.target {
                Some(t) => Some(texts(t.kind@)),
                None => None,
            },
            test: match self.profile {
                Some(p) => Some(p.test),
                None => None,
            },
            executable: opt_text(self.executable),
        }
    }
}

/// One executable cargo reported, and whether it is a harness.
#[derive(Debug)]
pub struct Made {
    /// True for a binary built to be *run by* `cargo test` or `cargo bench`.
    /// The same bin target yields both: the program itself, and a harness with
    /// the test and bench functions linked in.
    pub harness: bool,
    pub path: String,
}

/// The model of a [`Made`].
#[verifier::ext_equal]
pub struct MadeView {
    pub harness: bool,
    pub path: Seq<char>,
}

impl View for Made {
    type V = MadeView;

    open spec fn view(&self) -> MadeView {
        MadeView { harness: self.harness, path: self.path@ }
    }
}

/// The views of a list of executables.
pub open spec fn all_made(v: Seq<Made>) -> Seq<MadeView> {
    v.map_values(|m: Made| m@)
}

/// The executable that a record reports, if it reports one that somebody asked for. A build script
/// is an executable cargo produced and nobody asked for.
pub open spec fn made_by(r: RecordView) -> Option<MadeView> {
    match (r.executable, r.kind) {
        (Some(path), Some(kind)) => if r.reason == "compiler-artifact"@ && !kind.contains(
            "custom-build"@,
        ) {
            Some(MadeView { harness: r.test == Some(true), path })
        } else {
            None
        },
        _ => None,
    }
}

/// Whether an execution kind calls for an executable.
///
/// Building a bench or a test also builds the package's plain bins, because
/// a harness may launch one through `CARGO_BIN_EXE`. Running those too would
/// start the GUI in the middle of a benchmark, so the harness flag, not the
/// target kind, decides.
pub open spec fn called_for(here: Local, m: MadeView) -> bool {
    match here {
        Local::Nothing => true,
        Local::One => !m.harness,
        Local::Every => m.harness,
    }
}

/// The paths of the executables that an execution kind calls for, in the order they were reported.
pub open spec fn executables_of(v: Seq<MadeView>, here: Local) -> Seq<Seq<char>>
    decreases v.len(),
{
    if v.len() == 0 {
        seq![]
    } else if called_for(here, v.last()) {
        executables_of(v.drop_last(), here).push(v.last().path)
    } else {
        executables_of(v.drop_last(), here)
    }
}

/// Where the first line ends, or the length of a stream that holds no whole line.
pub open spec fn line_end(s: Seq<u8>) -> int
    decreases s.len(),
{
    if s.len() == 0 || s[0] == 10 {
        0
    } else {
        1 + line_end(s.skip(1))
    }
}

proof fn line_end_is_first(s: Seq<u8>)
    ensures
        0 <= line_end(s) <= s.len(),
        line_end(s) < s.len() ==> s[line_end(s)] == 10,
        forall|i: int| 0 <= i < line_end(s) ==> s[i] != 10,
    decreases s.len(),
{
    if s.len() > 0 && s[0] != 10 {
        let t = s.skip(1);
        line_end_is_first(t);
        assert forall|i: int| 0 <= i < line_end(s) implies s[i] != 10 by {
            if i > 0 {
                assert(t[i - 1] == s[i]);
            }
        }
        if line_end(s) < s.len() {
            assert(t[line_end(t)] == s[line_end(s)]);
        }
    }
}

proof fn line_end_at(s: Seq<u8>, at: int)
    requires
        0 <= at <= s.len(),
        at < s.len() ==> s[at] == 10,
        forall|i: int| 0 <= i < at ==> s[i] != 10,
    ensures
        line_end(s) == at,
{
    line_end_is_first(s);
    let e = line_end(s);
    if e < at {
        assert(s[e] == 10);
    } else if at < e {
        assert(s[at] != 10);
    }
}

/// The whole lines of a stream, each with its end.
pub open spec fn lines_in(s: Seq<u8>) -> Seq<Seq<u8>>
    decreases s.len(),
{
    let at = line_end(s);
    if 0 <= at < s.len() {
        seq![s.take(at + 1)] + lines_in(s.skip(at + 1))
    } else {
        seq![]
    }
}

/// What is behind the last whole line of a stream.
pub open spec fn tail_of(s: Seq<u8>) -> Seq<u8>
    decreases s.len(),
{
    let at = line_end(s);
    if 0 <= at < s.len() {
        tail_of(s.skip(at + 1))
    } else {
        s
    }
}

/// The views of a list of byte strings.
pub open spec fn byte_strings(v: Seq<Vec<u8>>) -> Seq<Seq<u8>> {
    v.map_values(|b: Vec<u8>| b@)
}

/// A copy of part of a byte string.
fn part(v: &Vec<u8>, from: usize, to: usize) -> (r: Vec<u8>)
    requires
        from <= to <= v@.len(),
    ensures
        r@ == v@.subrange(from as int, to as int),
{
    let mut out: Vec<u8> = Vec::new();
    let mut i: usize = from;
    while i < to
        invariant
            from <= i <= to <= v@.len(),
            out@ == v@.subrange(from as int, i as int),
        decreases to - i,
    {
        out.push(v[i]);
        assert(out@ =~= v@.subrange(from as int, i + 1));
        i += 1;
    }
    out
}

/// What cargo has reported so far.
#[derive(Debug)]
pub struct Json {
    /// A chunk boundary lands wherever the socket felt like it, which is rarely
    /// the end of a line.
    pub partial: Vec<u8>,
    pub made: Vec<Made>,
}

/// The model of a [`Json`].
#[verifier::ext_equal]
pub struct JsonView {
    pub partial: Seq<u8>,
    pub made: Seq<MadeView>,
}

impl View for Json {
    type V = JsonView;

    open spec fn view(&self) -> JsonView {
        JsonView { partial: self.partial@, made: all_made(self.made@) }
    }
}

/// What has been reported before anything has.
pub open spec fn nothing_reported() -> JsonView {
    JsonView { partial: seq![], made: seq![] }
}

impl Json {
    pub fn new() -> (r: Json)
        ensures
            r@ == nothing_reported(),
    {
        let r = Json { partial: Vec::new(), made: Vec::new() };
        assert(r@ =~= nothing_reported());
        r
    }

    /// Takes in a chunk, and gives back the lines that it completes, each with its end.
    pub fn feed(&mut self, data: &[u8]) -> (r: Vec<Vec<u8>>)
        ensures
            byte_strings(r@) == lines_in(old(self).partial@ + data@),
            final(self).partial@ == tail_of(old(self).partial@ + data@),
            final(self).made@ == old(self).made@,
    {
        let ghost s = self.partial@ + data@;
        self.partial.extend_from_slice(data);
        assert(self.partial@ =~= s);
        let mut out: Vec<Vec<u8>> = Vec::new();
        let mut from: usize = 0;
        let mut i: usize = 0;
        let n: usize = self.partial.len();
        assert(s.skip(0) =~= s);
        assert(byte_strings(out@) + lines_in(s) =~= lines_in(s));
        while i < n
            invariant
                self.partial@ == s,
                self.made@ == old(self).made@,
                n == s.len(),
                from <= i <= n,
                forall|k: int| from <= k < i ==> s[k] != 10,
                lines_in(s) == byte_strings(out@) + lines_in(s.skip(from as int)),
                tail_of(s) == tail_of(s.skip(from as int)),
            decreases n - i,
        {
            if self.partial[i] == 10 {
                let ghost t = s.skip(from as int);
                let ghost was = byte_strings(out@);
                let line = part(&self.partial, from, i + 1);
                let ghost lv = line@;
                proof {
                    assert(t[i - from] == 10);
                    assert forall|k: int| 0 <= k < i - from implies t[k] != 10 by {
                        assert(s[from + k] != 10);
                    }
                    line_end_at(t, i - from);
                    assert(t.take(i - from + 1) =~= lv);
                    assert(t.skip(i - from + 1) =~= s.skip(i + 1));
                }
                out.push(line);
                assert(byte_strings(out@) =~= was.push(lv));
                assert(was + (seq![lv] + lines_in(s.skip(i + 1))) =~= was.push(lv) + lines_in(
                    s.skip(i + 1),
                ));
                from = i + 1;
            }
            i += 1;
        }
        proof {
            let t = s.skip(from as int);
            assert forall|k: int| 0 <= k < t.len() implies t[k] != 10 by {
                assert(s[from + k] != 10);
            }
            line_end_at(t, t.len() as int);
            assert(byte_strings(out@) + Seq::<Seq<u8>>::empty() =~= byte_strings(out@));
        }
        let rest = part(&self.partial, from, n);
        assert(rest@ =~= s.skip(from as int));
        self.partial = rest;
        out
    }

    /// Takes in what a line holds. `None` stands for one that is no record.
    pub fn take(&mut self, rec: Option<Record>)
        ensures
            final(self).partial@ == old(self).partial@,
            all_made(final(self).made@) == (match rec {
                Some(r) => match made_by(r@) {
                    Some(m) => all_made(old(self).made@).push(m),
                    None => all_made(old(self).made@),
                },
                None => all_made(old(self).made@),
            }),
            rec matches Some(r) ==> ((r.reason@ == "compiler-artifact"@ && r.executable is Some
                && r.target is Some && !texts(r.target->0.kind@).contains("custom-build"@)) ==> {
                &&& final(self).made@.len() == old(self).made@.len() + 1
                &&& all_made(final(self).made@) == all_made(old(self).made@).push(
                    MadeView { harness: r.profile matches Some(p) && p.test, path: r.executable->0@ },
                )
            }),
            rec matches Some(r) ==> (r.reason@ != "compiler-artifact"@ || r.executable is None
                || r.target is None || texts(r.target->0.kind@).contains("custom-build"@) ==> all_made(
                final(self).made@,
            ) == all_made(old(self).made@)),
            rec is None ==> all_made(final(self).made@) == all_made(old(self).made@),
    {
        let ghost was = all_made(self.made@);
        let rec = match rec {
            Some(r) => r,
            None => {
                return ;
            },
        };
        if !same(rec.reason.as_str(), "compiler-artifact") {
            return ;
        }
        match (rec.executable, rec.target) {
            (Some(path), Some(target)) => {
                if has_text(&target.kind, "custom-build") {
                    return ;
                }
                let harness = match rec.profile {
                    Some(p) => p.test,
                    None => false,
                };
                let m = Made { harness, path };
                let ghost mv = m@;
                self.made.push(m);
                assert(all_made(self.made@) =~= was.push(mv));
            },
            _ => {},
        }
    }

    /// The binaries `here` calls for.
    pub fn executables(&self, here: Local) -> (r: Vec<String>)
        ensures
            texts(r@) == executables_of(all_made(self.made@), here),
    {
        let mut out: Vec<String> = Vec::new();
        let ghost v = all_made(self.made@);
        let mut i: usize = 0;
        assert(texts(out@) =~= executables_of(v.take(0), here));
        while i < self.made.len()
            invariant
                i <= self.made@.len(),
                v == all_made(self.made@),
                texts(out@) == executables_of(v.take(i as int), here),
            decreases self.made@.len() - i,
        {
            let ghost was = texts(out@);
            assert(v.take(i + 1).drop_last() =~= v.take(i as int));
            assert(v.take(i + 1).last() == self.made@[i as int]@);
            let m = &self.made[i];
            let wanted = match here {
                Local::Nothing => true,
                Local::One => !m.harness,
                Local::Every => m.harness,
            };
            if wanted {
                out.push(m.path.clone());
                assert(texts(out@) =~= was.push(m.path@));
            }
            i += 1;
        }
        assert(v.take(i as int) =~= v);
        out
    }
}

/// However the stream is cut into chunks, the lines are the same.
pub proof fn chunks_do_not_change_the_lines(a: Seq<u8>, b: Seq<u8>)
    ensures
        lines_in(a + b) == lines_in(a) + lines_in(tail_of(a) + b),
        tail_of(a + b) == tail_of(tail_of(a) + b),
    decreases a.len(),
{
    line_end_is_first(a);
    let at = line_end(a);
    if at < a.len() {
        let s = a + b;
        assert(s[at] == 10);
        assert forall|i: int| 0 <= i < at implies s[i] != 10 by {
            assert(s[i] == a[i]);
        }
        line_end_at(s, at);
        assert(s.take(at + 1) =~= a.take(at + 1));
        assert(s.skip(at + 1) =~= a.skip(at + 1) + b);
        chunks_do_not_change_the_lines(a.skip(at + 1), b);
        assert(lines_in(s) =~= lines_in(a) + lines_in(tail_of(a) + b));
    } else {
        assert(lines_in(a) =~= Seq::<Seq<u8>>::empty());
        assert(tail_of(a) == a);
        assert(lines_in(a) + lines_in(a + b) =~= lines_in(a + b));
    }
}

/// Nothing of the stream is lost: its lines and what is behind them are the stream.
pub proof fn lines_hold_the_stream(s: Seq<u8>)
    ensures
        lines_in(s).fold_left(Seq::<u8>::empty(), |x: Seq<u8>, l: Seq<u8>| x + l) + tail_of(s) == s,
    decreases s.len(),
{
    whole_stream(s, Seq::empty());
    assert(Seq::<u8>::empty() + s =~= s);
}

proof fn whole_stream(s: Seq<u8>, before: Seq<u8>)
    ensures
        lines_in(s).fold_left(before, |x: Seq<u8>, l: Seq<u8>| x + l) + tail_of(s) == before + s,
    decreases s.len(),
{
    let f = |x: Seq<u8>, l: Seq<u8>| x + l;
    line_end_is_first(s);
    let at = line_end(s);
    if at < s.len() {
        let first = s.take(at + 1);
        let rest = s.skip(at + 1);
        whole_stream(rest, before + first);
        assert(s =~= first + rest);
        assert(before + first + rest =~= before + s);
        let v = lines_in(s);
        assert(v =~= seq![first] + lines_in(rest));
        seq![first].lemma_fold_left_split(before, f, 0);
        v.lemma_fold_left_split(before, f, 1);
        assert(v.subrange(0, 1) =~= seq![first]);
        assert(v.subrange(1, v.len() as int) =~= lines_in(rest));
        reveal_with_fuel(Seq::fold_left, 2);
    }
}

/// A test or bench run takes only what cargo reported as a harness, and a run only what it did not.
pub proof fn the_harness_flag_decides(v: Seq<MadeView>, path: Seq<char>)
    ensures
        executables_of(v, Local::Every).contains(path) ==> exists|i: int|
            0 <= i < v.len() && #[trigger] v[i].path == path && v[i].harness,
        executables_of(v, Local::One).contains(path) ==> exists|i: int|
            0 <= i < v.len() && #[trigger] v[i].path == path && !v[i].harness,
    decreases v.len(),
{
    if v.len() > 0 {
        let u = v.drop_last();
        the_harness_flag_decides(u, path);
        let every = executables_of(v, Local::Every);
        if every.contains(path) {
            let k = choose|k: int| 0 <= k < every.len() && every[k] == path;
            let was = executables_of(u, Local::Every);
            if k < was.len() {
                assert(was[k] == path);
                let i = choose|i: int| 0 <= i < u.len() && #[trigger] u[i].path == path && u[i].harness;
                assert(v[i].path == path);
            } else {
                assert(v[v.len() - 1].path == path);
            }
        }
        let one = executables_of(v, Local::One);
        if one.contains(path) {
            let k = choose|k: int| 0 <= k < one.len() && one[k] == path;
            let was = executables_of(u, Local::One);
            if k < was.len() {
                assert(was[k] == path);
                let i = choose|i: int|
                    0 <= i < u.len() && #[trigger] u[i].path == path && !u[i].harness;
                assert(v[i].path == path);
            } else {
                assert(v[v.len() - 1].path == path);
            }
        }
    }
}

/// An artifact with an executable and a target counts whatever the target's kinds, unless a build script
/// is among them, and it counts as a harness exactly if its profile is one for tests. No other record
/// counts.
pub proof fn which_records_count(r: RecordView)
    ensures
        (r.reason == "compiler-artifact"@ && r.executable is Some && r.kind is Some && !r.kind->0.contains(
            "custom-build"@,
        )) ==> made_by(r) == Some(MadeView { harness: r.test == Some(true), path: r.executable->0 }),
        made_by(r) is Some ==> r.reason == "compiler-artifact"@ && r.executable is Some && r.kind is Some
            && !r.kind->0.contains("custom-build"@),
{
}

proof fn executables_filter(
    v: Seq<MadeView>,
    here: Local,
    keep: spec_fn(MadeView) -> bool,
    path: spec_fn(MadeView) -> Seq<char>,
)
    requires
        forall|m: MadeView| #[trigger] keep(m) == called_for(here, m),
        forall|m: MadeView| #[trigger] path(m) == m.path,
    ensures
        executables_of(v, here) == v.filter(keep).map_values(path),
    decreases v.len(),
{
    reveal(Seq::filter);
    if v.len() > 0 {
        executables_filter(v.drop_last(), here, keep, path);
        let before = v.drop_last().filter(keep);
        assert(before.push(v.last()).map_values(path) =~= before.map_values(path).push(v.last().path));
    } else {
        assert(v.filter(keep).map_values(path) =~= Seq::<Seq<char>>::empty());
    }
}

/// What is fetched, in the order it was reported: for a test or a bench every harness, for a run
/// everything that is none, and otherwise everything.
pub proof fn which_executables_are_called_for(v: Seq<MadeView>)
    ensures
        executables_of(v, Local::Every) == v.filter(|m: MadeView| m.harness).map_values(
            |m: MadeView| m.path,
        ),
        executables_of(v, Local::One) == v.filter(|m: MadeView| !m.harness).map_values(
            |m: MadeView| m.path,
        ),
        executables_of(v, Local::Nothing) == v.map_values(|m: MadeView| m.path),
        forall|i: int|
            0 <= i < v.len() ==> executables_of(v, Local::Nothing).contains((#[trigger] v[i]).path) && (
            if v[i].harness {
                executables_of(v, Local::Every).contains(v[i].path)
            } else {
                executables_of(v, Local::One).contains(v[i].path)
            }),
{
    executables_filter(v, Local::Every, |m: MadeView| m.harness, |m: MadeView| m.path);
    executables_filter(v, Local::One, |m: MadeView| !m.harness, |m: MadeView| m.path);
    executables_filter(v, Local::Nothing, |m: MadeView| true, |m: MadeView| m.path);
    all_pass(v, |m: MadeView| true);
    assert forall|i: int| 0 <= i < v.len() implies executables_of(v, Local::Nothing).contains(
        (#[trigger] v[i]).path,
    ) && (if v[i].harness {
        executables_of(v, Local::Every).contains(v[i].path)
    } else {
        executables_of(v, Local::One).contains(v[i].path)
    }) by {
        called_for_is_there(v, Local::Nothing, i);
        called_for_is_there(
            v,
            if v[i].harness {
                Local::Every
            } else {
                Local::One
            },
            i,
        );
    }
}

proof fn all_pass(v: Seq<MadeView>, keep: spec_fn(MadeView) -> bool)
    requires
        forall|m: MadeView| #[trigger] keep(m),
    ensures
        v.filter(keep) == v,
    decreases v.len(),
{
    reveal(Seq::filter);
    if v.len() > 0 {
        all_pass(v.drop_last(), keep);
        assert(v.drop_last().push(v.last()) =~= v);
    }
}

proof fn called_for_is_there(v: Seq<MadeView>, here: Local, i: int)
    requires
        0 <= i < v.len(),
        called_for(here, v[i]),
    ensures
        executables_of(v, here).contains(v[i].path),
    decreases v.len(),
{
    let all = executables_of(v, here);
    let was = executables_of(v.drop_last(), here);
    if i == v.len() - 1 {
        assert(all[all.len() - 1] == v[i].path);
    } else {
        called_for_is_there(v.drop_last(), here, i);
        let k = choose|k: int| 0 <= k < was.len() && was[k] == v[i].path;
        assert(all[k] == v[i].path);
    }
}

/// A line is whole once its end has come: each line holds one line feed, its last byte, and what is
/// behind the last line holds none.
pub proof fn lines_end_at_line_feeds(s: Seq<u8>)
    ensures
        forall|i: int, k: int|
            0 <= i < lines_in(s).len() && 0 <= k < lines_in(s)[i].len() ==> (#[trigger] lines_in(s)[i][k] == 10
                <==> k == lines_in(s)[i].len() - 1),
        forall|i: int| 0 <= i < lines_in(s).len() ==> (#[trigger] lines_in(s)[i]).len() > 0,
        !tail_of(s).contains(10u8),
    decreases s.len(),
{
    line_end_is_first(s);
    let at = line_end(s);
    if at < s.len() {
        let rest = s.skip(at + 1);
        lines_end_at_line_feeds(rest);
        let v = lines_in(s);
        let w = lines_in(rest);
        assert(v[0] == s.take(at + 1));
        assert forall|i: int, k: int| 0 <= i < v.len() && 0 <= k < v[i].len() implies (#[trigger] v[i][k] == 10
            <==> k == v[i].len() - 1) by {
            if i > 0 {
                assert(v[i] == w[i - 1]);
                assert(w[i - 1][k] == 10 <==> k == w[i - 1].len() - 1);
            }
        }
        assert forall|i: int| 0 <= i < v.len() implies (#[trigger] v[i]).len() > 0 by {
            if i > 0 {
                assert(v[i] == w[i - 1]);
            }
        }
    }
}

} // verus!
