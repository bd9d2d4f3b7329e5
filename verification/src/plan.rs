//! Which binary a command means, and the `cargo build` that produces it.
use vstd::prelude::*;
use vstd::string::*;

use crate::flags::{
    a_plural_flag_selects_its_kind, artifacts, attached_and_separate_names_are_one, cut_at, dashed, flag_views,
    flags_add_up, flags_of, nameless, one_kind, other_words_select_nothing, parse_flags, Artifact,
    ArtifactView, Flag, FlagView, Kind,
};
use crate::meta::{list_names, listing, opt_meta, Meta, MetaView};
use crate::number::{decimal, digits};
use crate::order::{sorted, sorted_texts};
use crate::text::{
    copy_texts, has_text, join, joined, quoted, quoted_text, same, starts, starts_with, texts,
};

verus! {

/// What runs on this machine once the server has built it.
#[derive(Debug, Clone, Copy, PartialEq, Eq, Structural)]
pub enum Local {
    Nothing,
    /// The single binary `run` selected.
    One,
    /// Every binary the build produced, in the order cargo reported them, the
    /// way `cargo test` and `cargo bench` work through theirs.
    Every,
}

/// What `run` is answered when nothing is there to run.
pub open spec fn nothing_to_run() -> Seq<char> {
    "no executable target selected to run"@
}

/// What `run` is answered when there are several binaries and nothing says which.
pub open spec fn which_binary(bins: Seq<Seq<char>>) -> Seq<char> {
    digits(bins.len()) + " binaries ("@ + joined(sorted_texts(bins), ", "@)
        + ") and no `default-run` \u{2014} say which with --bin <name>"@
}

/// What a plural flag is answered where there is no manifest.
pub open spec fn no_manifest() -> Seq<char> {
    "no manifest to read here, so a plural target flag has nothing to list"@
}

/// What the name of a target that is not there is answered.
pub open spec fn no_target(a: ArtifactView, m: MetaView) -> Seq<char> {
    "no "@ + a.kind.spelled() + " target named "@ + quoted_text(a.name) + " in "@ + m.labelled()
        + ". Available: "@ + listing(m.of_kind(a.kind))
}

/// How targets read in a message.
pub open spec fn labels(v: Seq<ArtifactView>) -> Seq<Seq<char>> {
    v.map_values(|a: ArtifactView| a.labelled())
}

/// What `run` is answered when several targets are named.
pub open spec fn one_target(v: Seq<ArtifactView>) -> Seq<char> {
    "run needs exactly one target, but "@ + digits(v.len()) + " were selected: "@ + joined(
        labels(v),
        ", "@,
    )
}

/// Targets of one kind.
pub open spec fn all_of(kind: Kind, names: Seq<Seq<char>>) -> Seq<ArtifactView> {
    names.map_values(|n: Seq<char>| ArtifactView { kind, name: n })
}

/// Every target that a manifest knows.
pub open spec fn every_target(m: MetaView) -> Seq<ArtifactView> {
    all_of(Kind::Bin, m.bins) + all_of(Kind::Example, m.examples) + all_of(Kind::Test, m.tests)
        + all_of(Kind::Bench, m.benches)
}

/// The targets that flags name, in order. A plural flag names no target by itself, so only it needs
/// the manifest.
pub open spec fn named_by(flags: Seq<FlagView>, meta: Option<MetaView>) -> Result<
    Seq<ArtifactView>,
    Seq<char>,
>
    decreases flags.len(),
{
    if flags.len() == 0 {
        Ok(seq![])
    } else {
        match named_by(flags.drop_last(), meta) {
            Err(e) => Err(e),
            Ok(v) => match flags.last() {
                FlagView::Lib => Ok(v),
                FlagView::One(kind, name) => Ok(v.push(ArtifactView { kind, name })),
                FlagView::All(kind) => match meta {
                    Some(m) => Ok(v + all_of(kind, m.of_kind(kind))),
                    None => Err(no_manifest()),
                },
                FlagView::AllTargets => match meta {
                    Some(m) => Ok(v + every_target(m)),
                    None => Err(no_manifest()),
                },
            },
        }
    }
}

/// Whether a manifest knows a target.
pub open spec fn knows(m: MetaView, a: ArtifactView) -> bool {
    m.of_kind(a.kind).contains(a.name)
}

/// The position of the first target that a manifest does not know, or their number.
pub open spec fn first_stranger(v: Seq<ArtifactView>, m: MetaView) -> int
    decreases v.len(),
{
    if v.len() == 0 || !knows(m, v[0]) {
        0
    } else {
        1 + first_stranger(v.skip(1), m)
    }
}

/// `v` with every run of the same target reduced to one.
pub open spec fn without_repeats(v: Seq<ArtifactView>) -> Seq<ArtifactView>
    decreases v.len(),
{
    if v.len() == 0 {
        seq![]
    } else {
        let before = without_repeats(v.drop_last());
        if before.len() > 0 && before.last() == v.last() {
            before
        } else {
            before.push(v.last())
        }
    }
}

/// The binaries of a manifest, or the guess that the project's name is the name of its only one.
pub open spec fn binaries(meta: Option<MetaView>, proj: Seq<char>) -> Seq<Seq<char>> {
    match meta {
        Some(m) => m.bins,
        None => seq![proj],
    }
}

/// The manifest's default binary.
pub open spec fn default_binary(meta: Option<MetaView>) -> Option<Seq<char>> {
    match meta {
        Some(m) => m.default_run,
        None => None,
    }
}

/// What a command line without a selection flag selects: every binary, of which `run` demands one.
pub open spec fn unflagged(meta: Option<MetaView>, proj: Seq<char>, run: bool) -> Result<
    Seq<ArtifactView>,
    Seq<char>,
> {
    let bins = binaries(meta, proj);
    if run && bins.len() == 0 {
        Err(nothing_to_run())
    } else if run && bins.len() > 1 {
        match default_binary(meta) {
            Some(d) => Ok(seq![ArtifactView { kind: Kind::Bin, name: d }]),
            None => Err(which_binary(bins)),
        }
    } else {
        Ok(all_of(Kind::Bin, bins))
    }
}

/// What the targets that flags name come to: a name the manifest doesn't know is a typo, and `run`
/// demands exactly one.
pub open spec fn checked(v: Seq<ArtifactView>, meta: Option<MetaView>, run: bool) -> Result<
    Seq<ArtifactView>,
    Seq<char>,
> {
    let out = without_repeats(v);
    if meta is Some && first_stranger(v, meta->0) < v.len() {
        Err(no_target(v[first_stranger(v, meta->0)], meta->0))
    } else if run && out.len() == 0 {
        Err(nothing_to_run())
    } else if run && out.len() != 1 {
        Err(one_target(out))
    } else {
        Ok(out)
    }
}

/// The executable targets that a command line selects.
pub open spec fn selects(
    meta: Option<MetaView>,
    proj: Seq<char>,
    args: Seq<Seq<char>>,
    run: bool,
) -> Result<Seq<ArtifactView>, Seq<char>> {
    match flags_of(args) {
        Err(e) => Err(e),
        Ok(flags) => if flags.len() == 0 {
            unflagged(meta, proj, run)
        } else {
            match named_by(flags, meta) {
                Err(e) => Err(e),
                Ok(v) => checked(v, meta, run),
            }
        },
    }
}

/// Appends the targets of a kind.
fn add_all(out: &mut Vec<Artifact>, kind: Kind, names: &Vec<String>)
    ensures
        artifacts(final(out)@) == artifacts(old(out)@) + all_of(kind, texts(names@)),
{
    let ghost was = artifacts(out@);
    let ghost more = all_of(kind, texts(names@));
    let mut i: usize = 0;
    assert(was + more.take(0) =~= was);
    while i < names.len()
        invariant
            i <= names@.len(),
            more == all_of(kind, texts(names@)),
            artifacts(out@) == was + more.take(i as int),
        decreases names@.len() - i,
    {
        let ghost now = artifacts(out@);
        let a = Artifact::new(kind, names[i].clone());
        let ghost av = a@;
        out.push(a);
        assert(artifacts(out@) =~= now.push(av));
        assert(more[i as int] == av);
        assert(was + more.take(i + 1) =~= now.push(av));
        i += 1;
    }
    assert(more.take(i as int) =~= more);
}

/// The targets that flags name.
fn gather(flags: &Vec<Flag>, meta: &Option<Meta>) -> (r: Result<Vec<Artifact>, String>)
    ensures
        match r {
            Ok(v) => named_by(flag_views(flags@), opt_meta(*meta)) == Ok::<Seq<ArtifactView>, Seq<char>>(
                artifacts(v@),
            ),
            Err(e) => named_by(flag_views(flags@), opt_meta(*meta)) == Err::<Seq<ArtifactView>, Seq<char>>(
                e@,
            ),
        },
{
    let mut out: Vec<Artifact> = Vec::new();
    let ghost fs = flag_views(flags@);
    let ghost mv = opt_meta(*meta);
    let mut i: usize = 0;
    assert(fs.take(0) =~= Seq::<FlagView>::empty());
    assert(artifacts(out@) =~= Seq::<ArtifactView>::empty());
    while i < flags.len()
        invariant
            i <= flags@.len(),
            fs == flag_views(flags@),
            mv == opt_meta(*meta),
            named_by(fs.take(i as int), mv) == Ok::<Seq<ArtifactView>, Seq<char>>(artifacts(out@)),
        decreases flags@.len() - i,
    {
        let ghost was = artifacts(out@);
        assert(fs.take(i + 1).drop_last() =~= fs.take(i as int));
        assert(fs.take(i + 1).last() == flags@[i as int]@);
        match &flags[i] {
            Flag::Lib => {},
            Flag::One(k, n) => {
                let a = Artifact::new(*k, n.clone());
                let ghost av = a@;
                out.push(a);
                assert(artifacts(out@) =~= was.push(av));
            },
            Flag::All(k) => match meta {
                Some(m) => {
                    add_all(&mut out, *k, m.named(*k));
                },
                None => {
                    proof {
                        stays_an_error(fs, mv, i + 1);
                    }
                    return Err(
                        "no manifest to read here, so a plural target flag has nothing to list".to_owned(),
                    );
                },
            },
            Flag::AllTargets => match meta {
                Some(m) => {
                    add_all(&mut out, Kind::Bin, &m.bins);
                    add_all(&mut out, Kind::Example, &m.examples);
                    add_all(&mut out, Kind::Test, &m.tests);
                    add_all(&mut out, Kind::Bench, &m.benches);
                    assert(artifacts(out@) =~= was + every_target(m@));
                },
                None => {
                    proof {
                        stays_an_error(fs, mv, i + 1);
                    }
                    return Err(
                        "no manifest to read here, so a plural target flag has nothing to list".to_owned(),
                    );
                },
            },
        }
        i += 1;
    }
    assert(fs.take(i as int) =~= fs);
    Ok(out)
}

proof fn stays_an_error(fs: Seq<FlagView>, mv: Option<MetaView>, n: int)
    requires
        0 <= n <= fs.len(),
        named_by(fs.take(n), mv) is Err,
    ensures
        named_by(fs, mv) == named_by(fs.take(n), mv),
    decreases fs.len() - n,
{
    if n < fs.len() {
        assert(fs.take(n + 1).drop_last() =~= fs.take(n));
        stays_an_error(fs, mv, n + 1);
    } else {
        assert(fs.take(n) =~= fs);
    }
}

/// Whether two artifacts name the same target.
fn same_artifact(a: &Artifact, b: &Artifact) -> (r: bool)
    ensures
        r == (a@ == b@),
{
    a.kind == b.kind && same(a.name.as_str(), b.name.as_str())
}

/// Reduces every run of the same target to one.
fn drop_repeats(v: &Vec<Artifact>) -> (r: Vec<Artifact>)
    ensures
        artifacts(r@) == without_repeats(artifacts(v@)),
{
    let mut out: Vec<Artifact> = Vec::new();
    let ghost a = artifacts(v@);
    let mut i: usize = 0;
    assert(artifacts(out@) =~= without_repeats(a.take(0)));
    while i < v.len()
        invariant
            i <= v@.len(),
            a == artifacts(v@),
            artifacts(out@) == without_repeats(a.take(i as int)),
        decreases v@.len() - i,
    {
        let ghost was = artifacts(out@);
        assert(a.take(i + 1).drop_last() =~= a.take(i as int));
        assert(a.take(i + 1).last() == v@[i as int]@);
        if out.len() > 0 {
            assert(was.last() == out@[out@.len() - 1]@);
        }
        if out.len() == 0 || !same_artifact(&out[out.len() - 1], &v[i]) {
            let c = v[i].clone();
            let ghost cv = c@;
            out.push(c);
            assert(artifacts(out@) =~= was.push(cv));
        }
        i += 1;
    }
    assert(a.take(i as int) =~= a);
    out
}

/// The labels of targets.
fn labels_of(v: &Vec<Artifact>) -> (r: Vec<String>)
    ensures
        texts(r@) == labels(artifacts(v@)),
{
    let mut out: Vec<String> = Vec::new();
    let ghost l = labels(artifacts(v@));
    let mut i: usize = 0;
    while i < v.len()
        invariant
            i <= v@.len(),
            l == labels(artifacts(v@)),
            texts(out@) == l.take(i as int),
        decreases v@.len() - i,
    {
        let ghost was = texts(out@);
        let s = v[i].label();
        let ghost sv = s@;
        out.push(s);
        assert(texts(out@) =~= was.push(sv));
        assert(l[i as int] == sv);
        assert(texts(out@) =~= l.take(i + 1));
        i += 1;
    }
    assert(l.take(i as int) =~= l);
    out
}

/// The first of `v` that the manifest does not know, if there is one.
fn find_stranger(v: &Vec<Artifact>, m: &Meta) -> (r: Option<usize>)
    ensures
        match r {
            Some(i) => i < v@.len() && first_stranger(artifacts(v@), m@) == i,
            None => first_stranger(artifacts(v@), m@) == v@.len(),
        },
{
    let ghost a = artifacts(v@);
    let mut i: usize = 0;
    assert(a.skip(0) =~= a);
    while i < v.len()
        invariant
            i <= v@.len(),
            a == artifacts(v@),
            first_stranger(a, m@) == i + first_stranger(a.skip(i as int), m@),
        decreases v@.len() - i,
    {
        assert(a.skip(i as int)[0] == v@[i as int]@);
        assert(a.skip(i as int).skip(1) =~= a.skip(i + 1));
        if !has_text(m.named(v[i].kind), v[i].name.as_str()) {
            return Some(i);
        }
        i += 1;
    }
    assert(a.skip(i as int).len() == 0);
    None
}

/// What the targets that flags name come to.
fn check_all(v: Vec<Artifact>, meta: &Option<Meta>, run: bool) -> (r: Result<Vec<Artifact>, String>)
    ensures
        match r {
            Ok(o) => checked(artifacts(v@), opt_meta(*meta), run) == Ok::<Seq<ArtifactView>, Seq<char>>(
                artifacts(o@),
            ),
            Err(e) => checked(artifacts(v@), opt_meta(*meta), run) == Err::<
                Seq<ArtifactView>,
                Seq<char>,
            >(e@),
        },
{
    // A name cargo doesn't know is a typo, and the remote build would fail on it
    // anyway. Say so before spending a build on it.
    if let Some(m) = meta {
        if let Some(i) = find_stranger(&v, m) {
            let a = &v[i];
            assert(artifacts(v@)[i as int] == a@);
            let mut e = "no ".to_owned();
            e.append(a.kind.word());
            e.append(" target named ");
            let q = quoted(a.name.as_str());
            e.append(q.as_str());
            e.append(" in ");
            let l = m.label();
            e.append(l.as_str());
            e.append(". Available: ");
            let n = list_names(m.named(a.kind));
            e.append(n.as_str());
            return Err(e);
        }
    }
    let out = drop_repeats(&v);
    if run && out.len() == 0 {
        return Err("no executable target selected to run".to_owned());
    }
    if run && out.len() != 1 {
        let mut e = "run needs exactly one target, but ".to_owned();
        let n = decimal(out.len() as u64);
        e.append(n.as_str());
        e.append(" were selected: ");
        let l = labels_of(&out);
        let j = join(&l, ", ");
        e.append(j.as_str());
        return Err(e);
    }
    Ok(out)
}

/// The executable targets the given cargo args select.
///
/// `run` demands exactly one, so `rbuild run` can never launch a target other
/// than the one that was asked for. Which file each becomes is cargo's business,
/// not ours: it reports that in its JSON once the build has run.
pub fn select(meta: &Option<Meta>, proj: &str, args: &Vec<String>, run: bool) -> (r: Result<
    Vec<Artifact>,
    String,
>)
    ensures
        match r {
            Ok(v) => selects(opt_meta(*meta), proj@, texts(args@), run) == Ok::<
                Seq<ArtifactView>,
                Seq<char>,
            >(artifacts(v@)),
            Err(e) => selects(opt_meta(*meta), proj@, texts(args@), run) == Err::<
                Seq<ArtifactView>,
                Seq<char>,
            >(e@),
        },
{
    let flags = match parse_flags(args) {
        Ok(f) => f,
        Err(e) => {
            return Err(e);
        },
    };
    if flags.len() == 0 {
        // cargo's default for `build`: the lib and every bin.
        let mut bins: Vec<String> = match meta {
            Some(m) => copy_texts(&m.bins),
            // No manifest to read: the old guess, which is right for the common
            // single-bin crate and is what the remote build will look for too.
            None => {
                let mut v: Vec<String> = Vec::new();
                v.push(proj.to_owned());
                v
            },
        };
        assert(texts(bins@) =~= binaries(opt_meta(*meta), proj@));
        if run && bins.len() == 0 {
            return Err("no executable target selected to run".to_owned());
        }
        if run && bins.len() > 1 {
            let d = match meta {
                Some(m) => match &m.default_run {
                    Some(d) => Some(d.clone()),
                    None => None,
                },
                None => None,
            };
            match d {
                Some(d) => {
                    let a = Artifact::new(Kind::Bin, d);
                    let mut out: Vec<Artifact> = Vec::new();
                    out.push(a);
                    assert(artifacts(out@) =~= seq![a@]);
                    return Ok(out);
                },
                None => {
                    let names = sorted(&bins);
                    let mut e = decimal(bins.len() as u64);
                    e.append(" binaries (");
                    let j = join(&names, ", ");
                    e.append(j.as_str());
                    e.append(") and no `default-run` \u{2014} say which with --bin <name>");
                    return Err(e);
                },
            }
        }
        let mut out: Vec<Artifact> = Vec::new();
        add_all(&mut out, Kind::Bin, &bins);
        assert(artifacts(out@) =~= all_of(Kind::Bin, texts(bins@)));
        return Ok(out);
    }
    match gather(&flags, meta) {
        Ok(v) => check_all(v, meta, run),
        Err(e) => Err(e),
    }
}

/// Whether a word asks cargo for a message format.
pub open spec fn asks_format(word: Seq<char>) -> bool {
    starts(word, "--message-format"@)
}

/// Whether any word asks cargo for a message format.
pub open spec fn any_format(words: Seq<Seq<char>>) -> bool {
    exists|i: int| 0 <= i < words.len() && asks_format(#[trigger] words[i])
}

/// Whether a word picks cargo's profile.
pub open spec fn picks_profile(word: Seq<char>) -> bool {
    word == "--release"@ || starts(word, "--profile"@)
}

/// Whether any word picks cargo's profile.
pub open spec fn profiled(words: Seq<Seq<char>>) -> bool {
    exists|i: int| 0 <= i < words.len() && picks_profile(#[trigger] words[i])
}

/// What a command line that asks for a message format is answered.
pub open spec fn format_taken() -> Seq<char> {
    "rbuild needs --message-format for itself: it reads cargo's JSON to learn the built binary's real filename"@
}

/// The word that has cargo report what it built.
pub open spec fn report_word() -> Seq<char> {
    "--message-format=json-render-diagnostics"@
}

/// What a fetched test run says of the doctests.
pub open spec fn doctest_notice() -> Seq<char> {
    "doctests stay on the server. To include them: cargo rbuild test --remote"@
}

/// The words with the target and profile flags that the subcommand implies. `--benches` and
/// `--tests` are cargo's own "every target with bench = true / test = true", which is the set that
/// the bare subcommand would run; an unoptimised bench is not a measurement.
pub open spec fn implied(sub: Seq<char>, words: Seq<Seq<char>>, chosen: bool) -> Seq<Seq<char>> {
    if sub == "bench"@ {
        let w = if chosen {
            words
        } else {
            words.push("--benches"@)
        };
        if profiled(w) {
            w
        } else {
            w.push("--profile"@).push("bench"@)
        }
    } else if sub == "test"@ {
        if chosen {
            words
        } else {
            words.push("--tests"@)
        }
    } else {
        words
    }
}

/// The words that the server's `cargo build` is given, and the error when there is one.
pub open spec fn planned(
    proj: Seq<char>,
    sub: Seq<char>,
    words: Seq<Seq<char>>,
    meta: Option<MetaView>,
) -> (Seq<Seq<char>>, Option<Seq<char>>) {
    if any_format(words) {
        (words, Some(format_taken()))
    } else {
        match flags_of(words) {
            Err(e) => (words, Some(e)),
            Ok(flags) => if sub == "run"@ {
                match selects(meta, proj, words, true) {
                    Err(e) => (words, Some(e)),
                    Ok(one) => (
                        (if flags.len() > 0 {
                            words
                        } else {
                            words + one[0].flagged()
                        }).push(report_word()),
                        None,
                    ),
                }
            } else {
                let w = implied(sub, words, flags.len() > 0);
                match selects(meta, proj, w, false) {
                    Err(e) => (w, Some(e)),
                    Ok(_) => (w.push(report_word()), None),
                }
            },
        }
    }
}

fn has_format(args: &Vec<String>) -> (r: bool)
    ensures
        r == any_format(texts(args@)),
{
    let mut i: usize = 0;
    while i < args.len()
        invariant
            i <= args@.len(),
            forall|j: int| 0 <= j < i ==> !asks_format(#[trigger] texts(args@)[j]),
        decreases args@.len() - i,
    {
        if starts_with(args[i].as_str(), "--message-format") {
            assert(asks_format(texts(args@)[i as int]));
            return true;
        }
        i += 1;
    }
    false
}

fn has_profile(args: &Vec<String>) -> (r: bool)
    ensures
        r == profiled(texts(args@)),
{
    let mut i: usize = 0;
    while i < args.len()
        invariant
            i <= args@.len(),
            forall|j: int| 0 <= j < i ==> !picks_profile(#[trigger] texts(args@)[j]),
        decreases args@.len() - i,
    {
        if same(args[i].as_str(), "--release") || starts_with(args[i].as_str(), "--profile") {
            assert(picks_profile(texts(args@)[i as int]));
            return true;
        }
        i += 1;
    }
    false
}

/// Appends a word.
pub fn push_word(args: &mut Vec<String>, word: &str)
    ensures
        texts(final(args)@) == texts(old(args)@).push(word@),
{
    let w = word.to_owned();
    args.push(w);
    assert(texts(args@) =~= texts(old(args)@).push(word@));
}

/// Rewrites `args` into the `cargo build` that produces what the subcommand
/// would have run, and refuses the cases where that binary would be ambiguous.
///
/// `cargo bench` and `cargo test` build and run in one step, so neither can hand
/// a binary back. `build` can, so that is what the server is asked for, with the
/// target flags the original subcommand implies.
///
/// `Ok` holds what is to be said out loud: a doctest has no file to fetch, because rustdoc
/// compiles and runs it in one step, on the machine holding the source.
pub fn plan(proj: &str, sub: &str, here: Local, args: &mut Vec<String>, meta: &Option<Meta>) -> (r:
    Result<Option<String>, String>)
    ensures
        texts(final(args)@) == planned(proj@, sub@, texts(old(args)@), opt_meta(*meta)).0,
        match (r, planned(proj@, sub@, texts(old(args)@), opt_meta(*meta)).1) {
            (Ok(notice), None) => match notice {
                Some(n) => here == Local::Every && sub@ == "test"@ && n@ == doctest_notice() && n@
                    == "doctests stay on the server. To include them: cargo rbuild test --remote"@,
                None => !(here == Local::Every && sub@ == "test"@),
            },
            (Err(e), Some(m)) => e@ == m,
            _ => false,
        },
{
    let ghost typed = texts(args@);
    let ghost mv = opt_meta(*meta);
    if has_format(args) {
        return Err(
            "rbuild needs --message-format for itself: it reads cargo's JSON to learn the built binary's real filename".to_owned(),
        );
    }
    let chosen = match parse_flags(args) {
        Ok(f) => f.len() > 0,
        Err(e) => {
            return Err(e);
        },
    };
    if same(sub, "run") {
        // Ambiguity is the whole risk here: fetch the wrong binary and the user
        // watches something they didn't ask for. `select` refuses instead, and
        // then says out loud which target the bare `run` meant.
        let one = match select(meta, proj, args, true) {
            Ok(v) => v,
            Err(e) => {
                return Err(e);
            },
        };
        proof {
            run_selects_exactly_one(mv, proj@, typed);
        }
        if !chosen {
            assert(artifacts(one@)[0] == one@[0]@);
            let words = one[0].flag();
            push_word(args, words[0].as_str());
            push_word(args, words[1].as_str());
            assert(texts(words@)[0] == words@[0]@ && texts(words@)[1] == words@[1]@);
            assert(texts(args@) =~= typed + one@[0]@.flagged());
        }
    } else {
        if same(sub, "bench") {
            if !chosen {
                push_word(args, "--benches");
            }
            if !has_profile(args) {
                push_word(args, "--profile");
                push_word(args, "bench");
            }
        } else if same(sub, "test") {
            if !chosen {
                push_word(args, "--tests");
            }
        }
        assert(texts(args@) == implied(sub@, typed, chosen));
        if let Err(e) = select(meta, proj, args, false) {
            return Err(e);
        }
    }
    // Cargo names each binary it produced, hash and all, so nothing here has to
    // reconstruct a filename.
    push_word(args, "--message-format=json-render-diagnostics");
    if here == Local::Every && same(sub, "test") {
        Ok(Some("doctests stay on the server. To include them: cargo rbuild test --remote".to_owned()))
    } else {
        Ok(None)
    }
}

/// A run never has more or fewer than one target: whatever else a command line may select, it is
/// refused.
pub proof fn run_selects_exactly_one(meta: Option<MetaView>, proj: Seq<char>, words: Seq<Seq<char>>)
    ensures
        selects(meta, proj, words, true) matches Ok(v) ==> v.len() == 1,
{
}

/// Once the manifest is known, every target that a selection flag brought in is one of its own.
pub proof fn flags_select_only_known_targets(
    m: MetaView,
    proj: Seq<char>,
    words: Seq<Seq<char>>,
    run: bool,
)
    requires
        flags_of(words) matches Ok(f) && f.len() > 0,
    ensures
        selects(Some(m), proj, words, run) matches Ok(v) ==> forall|i: int|
            0 <= i < v.len() ==> knows(m, #[trigger] v[i]),
{
    if let Ok(flags) = flags_of(words) {
        if let Ok(all) = named_by(flags, Some(m)) {
            if first_stranger(all, m) >= all.len() {
                no_stranger(all, m);
                repeats_are_members(all);
                let out = without_repeats(all);
                assert forall|i: int| 0 <= i < out.len() implies knows(m, #[trigger] out[i]) by {
                    assert(all.contains(out[i]));
                }
            }
        }
    }
}

proof fn no_stranger(v: Seq<ArtifactView>, m: MetaView)
    requires
        first_stranger(v, m) >= v.len(),
    ensures
        forall|i: int| 0 <= i < v.len() ==> knows(m, #[trigger] v[i]),
    decreases v.len(),
{
    if v.len() > 0 {
        no_stranger(v.skip(1), m);
        assert forall|i: int| 0 <= i < v.len() implies knows(m, #[trigger] v[i]) by {
            if i > 0 {
                assert(v.skip(1)[i - 1] == v[i]);
            }
        }
    }
}

proof fn repeats_are_members(v: Seq<ArtifactView>)
    ensures
        forall|i: int|
            0 <= i < without_repeats(v).len() ==> v.contains(#[trigger] without_repeats(v)[i]),
    decreases v.len(),
{
    if v.len() > 0 {
        let w = v.drop_last();
        repeats_are_members(w);
        assert forall|i: int| 0 <= i < without_repeats(v).len() implies v.contains(
            #[trigger] without_repeats(v)[i],
        ) by {
            if i < without_repeats(w).len() {
                assert(w.contains(without_repeats(w)[i]));
                let k = choose|k: int| 0 <= k < w.len() && w[k] == without_repeats(w)[i];
                assert(v[k] == w[k]);
            } else {
                assert(v[v.len() - 1] == without_repeats(v)[i]);
            }
        }
    }
}

/// What was typed reaches the server's cargo as it was typed, in front of what is added to it.
pub proof fn typed_words_stay_in_front(
    proj: Seq<char>,
    sub: Seq<char>,
    words: Seq<Seq<char>>,
    meta: Option<MetaView>,
)
    ensures
        words.is_prefix_of(planned(proj, sub, words, meta).0),
{
    let out = planned(proj, sub, words, meta).0;
    assert(out.len() >= words.len());
    assert(words =~= out.take(words.len() as int));
}

/// A bench that is to be run here is never built without a profile of its own.
pub proof fn a_bench_is_always_profiled(
    proj: Seq<char>,
    words: Seq<Seq<char>>,
    meta: Option<MetaView>,
)
    ensures
        planned(proj, "bench"@, words, meta).1 is None ==> profiled(
            planned(proj, "bench"@, words, meta).0,
        ),
{
    let out = planned(proj, "bench"@, words, meta);
    reveal_strlit("bench");
    reveal_strlit("run");
    reveal_strlit("--profile");
    if out.1 is None {
        let flags = flags_of(words)->Ok_0;
        let w = implied("bench"@, words, flags.len() > 0);
        assert("bench"@ != "run"@) by {
            assert("bench"@.len() == 5 && "run"@.len() == 3);
        }
        assert(out.0 == w.push(report_word()));
        assert(profiled(w)) by {
            let v = if flags.len() > 0 {
                words
            } else {
                words.push("--benches"@)
            };
            if !profiled(v) {
                assert(w[v.len() as int] == "--profile"@);
                assert("--profile"@.take("--profile"@.len() as int) =~= "--profile"@);
                assert(picks_profile(w[v.len() as int]));
            }
        }
        let i = choose|i: int| 0 <= i < w.len() && picks_profile(#[trigger] w[i]);
        assert(out.0[i] == w[i]);
    }
}

/// Words without a selection flag add nothing to those of the words after them.
pub proof fn plain_words_select_nothing(words: Seq<Seq<char>>, more: Seq<Seq<char>>)
    requires
        flags_of(words) matches Ok(f) && f.len() == 0,
    ensures
        flags_of(words + more) == flags_of(more),
    decreases words.len(),
{
    if words.len() == 0 {
        assert(words + more =~= more);
    } else {
        assert((words + more)[0] == words[0]);
        assert((words + more).skip(1) =~= words.skip(1) + more);
        plain_words_select_nothing(words.skip(1), more);
    }
}

proof fn a_report_word_selects_nothing()
    ensures
        flags_of(seq![report_word()]) == Ok::<Seq<FlagView>, Seq<char>>(seq![]),
{
    reveal_strlit("--message-format=json-render-diagnostics");
    reveal_strlit("--bin");
    reveal_strlit("--example");
    reveal_strlit("--test");
    reveal_strlit("--bench");
    reveal_strlit("--lib");
    reveal_strlit("--bins");
    reveal_strlit("--examples");
    reveal_strlit("--tests");
    reveal_strlit("--benches");
    reveal_strlit("--all-targets");
    let head = report_word().take(16);
    let tail = report_word().skip(17);
    assert(report_word() =~= head + seq!['='] + tail);
    assert(!head.contains('='));
    cut_at(head, '=', tail);
    let w = seq![report_word()];
    assert(w.skip(1) =~= Seq::<Seq<char>>::empty());
    assert(one_kind(head) is None);
    assert(nameless(head) is None);
    assert(flags_of(w.skip(1)) == Ok::<Seq<FlagView>, Seq<char>>(seq![]));
}

/// The words that a bare `run` is given name the target that it selected and no other, so the
/// server's cargo cannot build a second one.
pub proof fn a_bare_run_is_pinned(
    proj: Seq<char>,
    words: Seq<Seq<char>>,
    meta: Option<MetaView>,
)
    requires
        flags_of(words) matches Ok(f) && f.len() == 0,
        selects(meta, proj, words, true) matches Ok(v) && !dashed(v[0].name),
    ensures
        ({
            let one = selects(meta, proj, words, true)->Ok_0[0];
            planned(proj, "run"@, words, meta).1 is None ==> flags_of(
                planned(proj, "run"@, words, meta).0,
            ) == Ok::<Seq<FlagView>, Seq<char>>(seq![FlagView::One(one.kind, one.name)])
        }),
{
    let one = selects(meta, proj, words, true)->Ok_0[0];
    let more = one.flagged().push(report_word());
    let out = planned(proj, "run"@, words, meta);
    if out.1 is None {
        assert(out.0 =~= words + more);
        plain_words_select_nothing(words, more);
        attached_and_separate_names_are_one(one.kind, one.name, seq![report_word()]);
        a_report_word_selects_nothing();
        assert(more =~= seq!["--"@ + one.kind.spelled(), one.name] + seq![report_word()]);
        assert(seq![FlagView::One(one.kind, one.name)] + Seq::<FlagView>::empty() =~= seq![
            FlagView::One(one.kind, one.name),
        ]);
    }
}

/// What is put behind the words that were typed, and nothing else is: what the subcommand implies where
/// no target was picked, then the profile of a bench that has none, then the word that has cargo report
/// what it built. Whether a target was picked depends on the selection flags alone.
pub proof fn what_is_planned(
    proj: Seq<char>,
    sub: Seq<char>,
    words: Seq<Seq<char>>,
    meta: Option<MetaView>,
)
    requires
        planned(proj, sub, words, meta).1 is None,
    ensures
        flags_of(words) is Ok,
        forall|i: int| 0 <= i < words.len() ==> !"--message-format"@.is_prefix_of(#[trigger] words[i]),
        ({
            let out = planned(proj, sub, words, meta).0;
            let none = flags_of(words)->Ok_0.len() == 0;
            let set = exists|i: int|
                0 <= i < words.len() && (#[trigger] words[i] == "--release"@ || "--profile"@.is_prefix_of(
                    words[i],
                ));
            &&& sub == "test"@ && none ==> out == words + seq![
                "--tests"@,
                "--message-format=json-render-diagnostics"@,
            ]
            &&& sub == "test"@ && !none ==> out == words + seq!["--message-format=json-render-diagnostics"@]
            &&& sub == "bench"@ && none && set ==> out == words + seq![
                "--benches"@,
                "--message-format=json-render-diagnostics"@,
            ]
            &&& sub == "bench"@ && none && !set ==> out == words + seq![
                "--benches"@,
                "--profile"@,
                "bench"@,
                "--message-format=json-render-diagnostics"@,
            ]
            &&& sub == "bench"@ && !none && set ==> out == words + seq![
                "--message-format=json-render-diagnostics"@,
            ]
            &&& sub == "bench"@ && !none && !set ==> out == words + seq![
                "--profile"@,
                "bench"@,
                "--message-format=json-render-diagnostics"@,
            ]
            &&& sub == "run"@ && !none ==> out == words + seq!["--message-format=json-render-diagnostics"@]
            &&& sub == "run"@ && none ==> (selects(meta, proj, words, true) matches Ok(v) && v.len() == 1
                && out == words + v[0].flagged() + seq!["--message-format=json-render-diagnostics"@])
            &&& sub != "test"@ && sub != "bench"@ && sub != "run"@ ==> out == words + seq![
                "--message-format=json-render-diagnostics"@,
            ]
        }),
{
    let out = planned(proj, sub, words, meta).0;
    reveal_strlit("test");
    reveal_strlit("bench");
    reveal_strlit("run");
    reveal_strlit("--benches");
    reveal_strlit("--release");
    reveal_strlit("--profile");
    assert("test"@.len() == 4 && "bench"@.len() == 5 && "run"@.len() == 3);
    assert forall|i: int| 0 <= i < words.len() implies !"--message-format"@.is_prefix_of(
        #[trigger] words[i],
    ) by {
        assert(!asks_format(words[i]));
    }
    run_selects_exactly_one(meta, proj, words);
    let set = exists|i: int|
        0 <= i < words.len() && (#[trigger] words[i] == "--release"@ || "--profile"@.is_prefix_of(words[i]));
    let more = words.push("--benches"@);
    assert(!picks_profile("--benches"@)) by {
        assert("--benches"@[2] == 'b' && "--profile"@[2] == 'p' && "--release"@[2] == 'r');
        if starts("--benches"@, "--profile"@) {
            assert("--benches"@.take(9)[2] == 'b');
        }
    }
    assert(set == profiled(words)) by {
        if set {
            let i = choose|i: int|
                0 <= i < words.len() && (#[trigger] words[i] == "--release"@ || "--profile"@.is_prefix_of(
                    words[i],
                ));
            assert(picks_profile(words[i]));
        }
        if profiled(words) {
            let i = choose|i: int| 0 <= i < words.len() && picks_profile(#[trigger] words[i]);
            assert(words[i] == "--release"@ || "--profile"@.is_prefix_of(words[i]));
        }
    }
    assert(profiled(more) == profiled(words)) by {
        if profiled(words) {
            let i = choose|i: int| 0 <= i < words.len() && picks_profile(#[trigger] words[i]);
            assert(more[i] == words[i]);
        }
        if profiled(more) {
            let i = choose|i: int| 0 <= i < more.len() && picks_profile(#[trigger] more[i]);
            assert(i < words.len() ==> more[i] == words[i]);
        }
    }
}

/// A test without a picked target builds every test, and a bench every bench, whatever other words were
/// typed; where one was picked, neither word is added to those that were typed.
pub proof fn tests_and_benches_are_implied(proj: Seq<char>, words: Seq<Seq<char>>, meta: Option<MetaView>)
    ensures
        planned(proj, "test"@, words, meta).1 is None && flags_of(words) == Ok::<
            Seq<FlagView>,
            Seq<char>,
        >(seq![]) ==> planned(proj, "test"@, words, meta).0.contains("--tests"@),
        planned(proj, "bench"@, words, meta).1 is None && flags_of(words) == Ok::<
            Seq<FlagView>,
            Seq<char>,
        >(seq![]) ==> planned(proj, "bench"@, words, meta).0.contains("--benches"@),
        planned(proj, "test"@, words, meta).1 is None && (flags_of(words) matches Ok(f) && f.len() > 0)
            && !words.contains("--tests"@) ==> !planned(proj, "test"@, words, meta).0.contains("--tests"@),
        planned(proj, "bench"@, words, meta).1 is None && (flags_of(words) matches Ok(f) && f.len() > 0)
            && !words.contains("--benches"@) ==> !planned(proj, "bench"@, words, meta).0.contains(
            "--benches"@,
        ),
{
    reveal_strlit("--tests");
    reveal_strlit("--benches");
    reveal_strlit("--profile");
    reveal_strlit("bench");
    reveal_strlit("--message-format=json-render-diagnostics");
    assert("--benches"@[2] == 'b' && "--profile"@[2] == 'p');
    assert("--tests"@.len() == 7 && "bench"@.len() == 5 && "--benches"@.len() == 9);
    let r = "--message-format=json-render-diagnostics"@;
    assert(r.len() == 40);
    let n = words.len() as int;
    if planned(proj, "test"@, words, meta).1 is None {
        what_is_planned(proj, "test"@, words, meta);
        let out = planned(proj, "test"@, words, meta).0;
        if flags_of(words)->Ok_0.len() == 0 {
            assert(out[n] == "--tests"@);
        } else if out.contains("--tests"@) {
            let i = choose|i: int| 0 <= i < out.len() && out[i] == "--tests"@;
            assert(i < n ==> words[i] == "--tests"@);
            assert(out[n] == r);
        }
    }
    if planned(proj, "bench"@, words, meta).1 is None {
        what_is_planned(proj, "bench"@, words, meta);
        let out = planned(proj, "bench"@, words, meta).0;
        if flags_of(words)->Ok_0.len() == 0 {
            assert(out[n] == "--benches"@);
        } else if out.contains("--benches"@) {
            let i = choose|i: int| 0 <= i < out.len() && out[i] == "--benches"@;
            assert(i < n ==> words[i] == "--benches"@);
            assert(out.len() == n + 1 || out.len() == n + 3);
            assert(out[out.len() - 1] == r);
            assert(out.len() == n + 3 ==> out[n] == "--profile"@ && out[n + 1] == "bench"@);
        }
    }
}

proof fn implied_flags(sub: Seq<char>, words: Seq<Seq<char>>)
    requires
        sub == "test"@ || sub == "bench"@,
        flags_of(words) is Ok,
    ensures
        flags_of(words)->Ok_0.len() == 0 && sub == "test"@ ==> flags_of(implied(sub, words, false)) == Ok::<
            Seq<FlagView>,
            Seq<char>,
        >(seq![FlagView::All(Kind::Test)]),
        flags_of(words)->Ok_0.len() == 0 && sub == "bench"@ ==> flags_of(implied(sub, words, false)) == Ok::<
            Seq<FlagView>,
            Seq<char>,
        >(seq![FlagView::All(Kind::Bench)]),
        flags_of(implied(sub, words, true)) == flags_of(words),
{
    let nothing = Seq::<Seq<char>>::empty();
    let none = Seq::<FlagView>::empty();
    let tail = seq!["--profile"@, "bench"@];
    not_a_target(nothing);
    assert(seq!["--profile"@] + (seq!["bench"@] + nothing) =~= tail);
    not_a_target(seq!["bench"@] + nothing);
    assert(flags_of(tail) == Ok::<Seq<FlagView>, Seq<char>>(none));
    reveal_strlit("test");
    reveal_strlit("bench");
    assert("test"@.len() == 4 && "bench"@.len() == 5);
    a_plural_flag_selects_its_kind(seq![], nothing);
    a_plural_flag_selects_its_kind(seq![], tail);
    flags_add_up(words, seq!["--tests"@] + nothing);
    flags_add_up(words, seq!["--benches"@] + nothing);
    flags_add_up(words, seq!["--benches"@] + tail);
    flags_add_up(words, tail);
    let f = flags_of(words)->Ok_0;
    assert(f + none =~= f);
    assert(f.len() == 0 ==> f =~= none);
    assert(none + (seq![FlagView::All(Kind::Test)] + none) =~= seq![FlagView::All(Kind::Test)]);
    assert(none + (seq![FlagView::All(Kind::Bench)] + none) =~= seq![FlagView::All(Kind::Bench)]);
    assert(words.push("--tests"@) =~= words + (seq!["--tests"@] + nothing));
    assert(words.push("--benches"@) =~= words + (seq!["--benches"@] + nothing));
    assert(words.push("--benches"@).push("--profile"@).push("bench"@) =~= words + (seq!["--benches"@] + tail));
    assert(words.push("--profile"@).push("bench"@) =~= words + tail);
}

proof fn not_a_target(post: Seq<Seq<char>>)
    ensures
        flags_of(seq!["--profile"@] + post) == flags_of(post),
        flags_of(seq!["bench"@] + post) == flags_of(post),
        flags_of(Seq::<Seq<char>>::empty()) == Ok::<Seq<FlagView>, Seq<char>>(seq![]),
{
    reveal_strlit("--profile");
    reveal_strlit("bench");
    reveal_strlit("--bin");
    reveal_strlit("--bin=");
    assert("--bin"@[2] == 'b' && "--bin="@[2] == 'b' && "--bin"@[0] == '-' && "--bin="@[0] == '-');
    reveal_strlit("--example");
    reveal_strlit("--example=");
    assert("--example"@[2] == 'e' && "--example="@[2] == 'e');
    assert("--example"@[0] == '-' && "--example="@[0] == '-');
    reveal_strlit("--test");
    reveal_strlit("--test=");
    assert("--test"@[2] == 't' && "--test="@[2] == 't' && "--test"@[0] == '-' && "--test="@[0] == '-');
    reveal_strlit("--bench");
    reveal_strlit("--bench=");
    assert("--bench"@[2] == 'b' && "--bench="@[2] == 'b' && "--bench"@[0] == '-' && "--bench="@[0] == '-');
    reveal_strlit("--lib");
    reveal_strlit("--lib=");
    assert("--lib"@[2] == 'l' && "--lib="@[2] == 'l' && "--lib"@[0] == '-' && "--lib="@[0] == '-');
    reveal_strlit("--bins");
    reveal_strlit("--bins=");
    assert("--bins"@[2] == 'b' && "--bins="@[2] == 'b' && "--bins"@[0] == '-' && "--bins="@[0] == '-');
    reveal_strlit("--examples");
    reveal_strlit("--examples=");
    assert("--examples"@[2] == 'e' && "--examples="@[2] == 'e');
    assert("--examples"@[0] == '-' && "--examples="@[0] == '-');
    reveal_strlit("--tests");
    reveal_strlit("--tests=");
    assert("--tests"@[2] == 't' && "--tests="@[2] == 't' && "--tests"@[0] == '-' && "--tests="@[0] == '-');
    reveal_strlit("--benches");
    reveal_strlit("--benches=");
    assert("--benches"@[2] == 'b' && "--benches="@[2] == 'b');
    assert("--benches"@[0] == '-' && "--benches="@[0] == '-');
    reveal_strlit("--all-targets");
    reveal_strlit("--all-targets=");
    assert("--all-targets"@[2] == 'a' && "--all-targets="@[2] == 'a');
    assert("--all-targets"@[0] == '-' && "--all-targets="@[0] == '-');
    assert("--profile"@[2] == 'p' && "bench"@[0] == 'b');
    other_words_select_nothing("--profile"@, post);
    other_words_select_nothing("bench"@, post);
}

proof fn all_known(m: MetaView, v: Seq<ArtifactView>)
    requires
        forall|i: int| 0 <= i < v.len() ==> knows(m, #[trigger] v[i]),
    ensures
        first_stranger(v, m) == v.len(),
    decreases v.len(),
{
    if v.len() > 0 {
        assert(knows(m, v[0]));
        assert forall|i: int| 0 <= i < v.skip(1).len() implies knows(m, #[trigger] v.skip(1)[i]) by {
            assert(knows(m, v[i + 1]));
        }
        all_known(m, v.skip(1));
    }
}

/// A line is refused for asking for a message format before anything else, then for a flag that lacks
/// its name. A line that picks no target is refused only where the manifest is needed and cannot be
/// read: for `test` and `bench`, which stand for all targets of a kind.
pub proof fn when_a_line_is_refused(
    proj: Seq<char>,
    sub: Seq<char>,
    words: Seq<Seq<char>>,
    meta: Option<MetaView>,
)
    ensures
        (exists|i: int| 0 <= i < words.len() && "--message-format"@.is_prefix_of(#[trigger] words[i])) ==> planned(
            proj,
            sub,
            words,
            meta,
        ) == (words, Some("rbuild needs --message-format for itself: it reads cargo's JSON to learn the built binary's real filename"@)),
        (forall|i: int| 0 <= i < words.len() ==> !"--message-format"@.is_prefix_of(#[trigger] words[i])) ==> {
            &&& flags_of(words) matches Err(e) ==> planned(proj, sub, words, meta) == (words, Some(e))
            &&& (flags_of(words) matches Ok(f) && f.len() == 0) ==> {
                &&& (sub == "test"@ || sub == "bench"@) && meta is Some ==> planned(proj, sub, words, meta).1 is None
                &&& (sub == "test"@ || sub == "bench"@) && meta is None ==> planned(proj, sub, words, meta).1
                    == Some("no manifest to read here, so a plural target flag has nothing to list"@)
                &&& sub != "test"@ && sub != "bench"@ && sub != "run"@ ==> planned(proj, sub, words, meta).1 is None
            }
            &&& (flags_of(words) is Ok && sub == "run"@) ==> match selects(meta, proj, words, true) {
                Ok(_) => planned(proj, sub, words, meta).1 is None,
                Err(e) => planned(proj, sub, words, meta) == (words, Some(e)),
            }
            &&& (flags_of(words) matches Ok(f) && f.len() > 0 && sub != "run"@) ==> match selects(
                meta,
                proj,
                words,
                false,
            ) {
                Ok(_) => planned(proj, sub, words, meta).1 is None,
                Err(e) => planned(proj, sub, words, meta).1 == Some(e),
            }
        },
{
    reveal_strlit("test");
    reveal_strlit("bench");
    reveal_strlit("run");
    assert("test"@.len() == 4 && "bench"@.len() == 5 && "run"@.len() == 3);
    if exists|i: int| 0 <= i < words.len() && "--message-format"@.is_prefix_of(#[trigger] words[i]) {
        let i = choose|i: int| 0 <= i < words.len() && "--message-format"@.is_prefix_of(#[trigger] words[i]);
        assert(asks_format(words[i]));
    } else if flags_of(words) is Ok {
        assert(!any_format(words)) by {
            if any_format(words) {
                let i = choose|i: int| 0 <= i < words.len() && asks_format(#[trigger] words[i]);
                assert("--message-format"@.is_prefix_of(words[i]));
            }
        }
        if sub == "test"@ || sub == "bench"@ {
            implied_flags(sub, words);
            if flags_of(words)->Ok_0.len() == 0 {
                let kind = if sub == "test"@ {
                    Kind::Test
                } else {
                    Kind::Bench
                };
                let f = seq![FlagView::All(kind)];
                assert(f.drop_last() =~= Seq::<FlagView>::empty());
                assert(named_by(f.drop_last(), meta) == Ok::<Seq<ArtifactView>, Seq<char>>(seq![]));
                if let Some(m) = meta {
                    let v = all_of(kind, m.of_kind(kind));
                    assert(Seq::<ArtifactView>::empty() + v =~= v);
                    assert forall|i: int| 0 <= i < v.len() implies knows(m, #[trigger] v[i]) by {
                        assert(v[i].name == m.of_kind(kind)[i]);
                    }
                    all_known(m, v);
                }
            }
        }
    }
}

/// A line without a selection flag selects every binary, in the manifest's order, or the one that the
/// project is named for where there is no manifest. A run takes the only binary; of several, the
/// default one; and it is refused if there is none, or no default to settle it.
pub proof fn what_a_bare_line_selects(
    meta: Option<MetaView>,
    proj: Seq<char>,
    words: Seq<Seq<char>>,
    run: bool,
)
    requires
        flags_of(words) == Ok::<Seq<FlagView>, Seq<char>>(seq![]),
    ensures
        meta is None ==> selects(meta, proj, words, run) == Ok::<Seq<ArtifactView>, Seq<char>>(
            seq![ArtifactView { kind: Kind::Bin, name: proj }],
        ),
        meta matches Some(m) ==> {
            &&& !run ==> (selects(meta, proj, words, run) matches Ok(v) && v.len() == m.bins.len()
                && forall|i: int|
                0 <= i < v.len() ==> #[trigger] v[i] == (ArtifactView { kind: Kind::Bin, name: m.bins[i] }))
            &&& run && m.bins.len() == 0 ==> selects(meta, proj, words, run) == Err::<
                Seq<ArtifactView>,
                Seq<char>,
            >("no executable target selected to run"@)
            &&& run && m.bins.len() == 1 ==> selects(meta, proj, words, run) == Ok::<
                Seq<ArtifactView>,
                Seq<char>,
            >(seq![ArtifactView { kind: Kind::Bin, name: m.bins[0] }])
            &&& run && m.bins.len() > 1 ==> match m.default_run {
                Some(d) => selects(meta, proj, words, run) == Ok::<Seq<ArtifactView>, Seq<char>>(
                    seq![ArtifactView { kind: Kind::Bin, name: d }],
                ),
                None => selects(meta, proj, words, run) == Err::<Seq<ArtifactView>, Seq<char>>(
                    digits(m.bins.len()) + " binaries ("@ + joined(sorted_texts(m.bins), ", "@)
                        + ") and no `default-run` \u{2014} say which with --bin <name>"@,
                ),
            }
        },
{
    let bins = binaries(meta, proj);
    if bins.len() == 1 {
        assert(all_of(Kind::Bin, bins) =~= seq![ArtifactView { kind: Kind::Bin, name: bins[0] }]);
    }
}

/// What each flag names: a named flag that target alone, a plural one all of its kind in the manifest's
/// order, `--all-targets` all of every kind, and `--lib` none; only what a plural one names depends on
/// the manifest.
pub proof fn what_a_flag_names(meta: Option<MetaView>, kind: Kind, name: Seq<char>)
    ensures
        named_by(seq![], meta) == Ok::<Seq<ArtifactView>, Seq<char>>(seq![]),
        named_by(seq![FlagView::Lib], meta) == Ok::<Seq<ArtifactView>, Seq<char>>(seq![]),
        named_by(seq![FlagView::One(kind, name)], meta) == Ok::<Seq<ArtifactView>, Seq<char>>(
            seq![ArtifactView { kind, name }],
        ),
        meta is None ==> named_by(seq![FlagView::All(kind)], meta) == Err::<Seq<ArtifactView>, Seq<char>>(
            "no manifest to read here, so a plural target flag has nothing to list"@,
        ) && named_by(seq![FlagView::AllTargets], meta) == Err::<Seq<ArtifactView>, Seq<char>>(
            "no manifest to read here, so a plural target flag has nothing to list"@,
        ),
        meta matches Some(m) ==> (named_by(seq![FlagView::AllTargets], meta) matches Ok(v) && {
            &&& v.len() == m.bins.len() + m.examples.len() + m.tests.len() + m.benches.len()
            &&& forall|i: int|
                0 <= i < m.bins.len() ==> #[trigger] v[i] == (ArtifactView {
                    kind: Kind::Bin,
                    name: m.bins[i],
                })
            &&& forall|i: int|
                0 <= i < m.examples.len() ==> #[trigger] v[m.bins.len() + i] == (ArtifactView {
                    kind: Kind::Example,
                    name: m.examples[i],
                })
            &&& forall|i: int|
                0 <= i < m.tests.len() ==> #[trigger] v[m.bins.len() + m.examples.len() + i] == (ArtifactView {
                    kind: Kind::Test,
                    name: m.tests[i],
                })
            &&& forall|i: int|
                0 <= i < m.benches.len() ==> #[trigger] v[m.bins.len() + m.examples.len() + m.tests.len() + i] == (ArtifactView {
                    kind: Kind::Bench,
                    name: m.benches[i],
                })
        }),
        meta matches Some(m) ==> (named_by(seq![FlagView::All(Kind::Bin)], meta) matches Ok(v) && {
            &&& v.len() == m.bins.len()
            &&& forall|i: int|
                0 <= i < m.bins.len() ==> #[trigger] v[i] == (ArtifactView {
                    kind: Kind::Bin,
                    name: m.bins[i],
                })
        }),
        meta matches Some(m) ==> (named_by(seq![FlagView::All(Kind::Example)], meta) matches Ok(v) && {
            &&& v.len() == m.examples.len()
            &&& forall|i: int|
                0 <= i < m.examples.len() ==> #[trigger] v[i] == (ArtifactView {
                    kind: Kind::Example,
                    name: m.examples[i],
                })
        }),
        meta matches Some(m) ==> (named_by(seq![FlagView::All(Kind::Test)], meta) matches Ok(v) && {
            &&& v.len() == m.tests.len()
            &&& forall|i: int|
                0 <= i < m.tests.len() ==> #[trigger] v[i] == (ArtifactView {
                    kind: Kind::Test,
                    name: m.tests[i],
                })
        }),
        meta matches Some(m) ==> (named_by(seq![FlagView::All(Kind::Bench)], meta) matches Ok(v) && {
            &&& v.len() == m.benches.len()
            &&& forall|i: int|
                0 <= i < m.benches.len() ==> #[trigger] v[i] == (ArtifactView {
                    kind: Kind::Bench,
                    name: m.benches[i],
                })
        }),
{
    let none = Seq::<FlagView>::empty();
    let nothing = Seq::<ArtifactView>::empty();
    assert(named_by(none, meta) == Ok::<Seq<ArtifactView>, Seq<char>>(nothing));
    assert(seq![FlagView::Lib].drop_last() =~= none);
    assert(seq![FlagView::AllTargets].drop_last() =~= none);
    assert(seq![FlagView::One(kind, name)].drop_last() =~= none);
    assert(nothing.push(ArtifactView { kind, name }) =~= seq![ArtifactView { kind, name }]);
    assert(seq![FlagView::All(kind)].drop_last() =~= none);
    assert(seq![FlagView::All(Kind::Bin)].drop_last() =~= none);
    assert(seq![FlagView::All(Kind::Example)].drop_last() =~= none);
    assert(seq![FlagView::All(Kind::Test)].drop_last() =~= none);
    assert(seq![FlagView::All(Kind::Bench)].drop_last() =~= none);
    if let Some(m) = meta {
        assert(nothing + every_target(m) =~= every_target(m));
    }
}

/// What flags name is what the first of them name, then what the rest do; where some cannot be told, the
/// first that cannot decides.
pub proof fn what_flags_name_adds_up(f: Seq<FlagView>, g: Seq<FlagView>, meta: Option<MetaView>)
    ensures
        match (named_by(f, meta), named_by(g, meta)) {
            (Ok(v), Ok(w)) => named_by(f + g, meta) == Ok::<Seq<ArtifactView>, Seq<char>>(v + w),
            (Err(e), _) => named_by(f + g, meta) == Err::<Seq<ArtifactView>, Seq<char>>(e),
            (Ok(_), Err(e)) => named_by(f + g, meta) == Err::<Seq<ArtifactView>, Seq<char>>(e),
        },
    decreases g.len(),
{
    if g.len() == 0 {
        assert(f + g =~= f);
        if let Ok(v) = named_by(f, meta) {
            assert(v + Seq::<ArtifactView>::empty() =~= v);
        }
    } else {
        let h = g.drop_last();
        what_flags_name_adds_up(f, h, meta);
        assert((f + g).drop_last() =~= f + h);
        assert((f + g).last() == g.last());
        if let (Ok(v), Ok(w)) = (named_by(f, meta), named_by(h, meta)) {
            match g.last() {
                FlagView::Lib => {},
                FlagView::One(kind, name) => {
                    let a = ArtifactView { kind, name };
                    assert((v + w).push(a) =~= v + w.push(a));
                },
                FlagView::All(kind) => {
                    if let Some(m) = meta {
                        let x = all_of(kind, m.of_kind(kind));
                        assert((v + w) + x =~= v + (w + x));
                    }
                },
                FlagView::AllTargets => {
                    if let Some(m) = meta {
                        let x = every_target(m);
                        assert((v + w) + x =~= v + (w + x));
                    }
                },
            }
        }
    }
}

proof fn first_stranger_is(v: Seq<ArtifactView>, m: MetaView, i: int)
    requires
        0 <= i <= v.len(),
        i < v.len() ==> !m.of_kind(v[i].kind).contains(v[i].name),
        forall|j: int| 0 <= j < i ==> m.of_kind((#[trigger] v[j]).kind).contains(v[j].name),
    ensures
        first_stranger(v, m) == i,
    decreases v.len(),
{
    if i > 0 {
        let w = v.skip(1);
        assert(m.of_kind(v[0].kind).contains(v[0].name));
        assert forall|j: int| 0 <= j < i - 1 implies m.of_kind((#[trigger] w[j]).kind).contains(w[j].name) by {
            assert(m.of_kind(v[j + 1].kind).contains(v[j + 1].name));
        }
        first_stranger_is(w, m, i - 1);
    }
}

/// What a line with selection flags selects: what they name, each run of one target once. It is refused
/// for the first target that the manifest does not list under its kind, and a run, which needs one
/// target, for none or several.
pub proof fn what_flags_select(
    meta: Option<MetaView>,
    proj: Seq<char>,
    words: Seq<Seq<char>>,
    run: bool,
    flags: Seq<FlagView>,
    v: Seq<ArtifactView>,
    i: int,
)
    requires
        flags_of(words) == Ok::<Seq<FlagView>, Seq<char>>(flags),
        flags.len() > 0,
        named_by(flags, meta) == Ok::<Seq<ArtifactView>, Seq<char>>(v),
        0 <= i <= v.len(),
        meta is None ==> i == v.len(),
        meta matches Some(m) ==> (forall|j: int| 0 <= j < i ==> m.of_kind((#[trigger] v[j]).kind).contains(v[j].name)) && (i < v.len()
            ==> !m.of_kind(v[i].kind).contains(v[i].name)),
    ensures
        i < v.len() ==> selects(meta, proj, words, run) == Err::<Seq<ArtifactView>, Seq<char>>(
            "no "@ + v[i].kind.spelled() + " target named "@ + quoted_text(v[i].name) + " in "@
                + meta->0.labelled() + ". Available: "@ + listing(meta->0.of_kind(v[i].kind)),
        ),
        i == v.len() && (!run || without_repeats(v).len() == 1) ==> selects(meta, proj, words, run) == Ok::<
            Seq<ArtifactView>,
            Seq<char>,
        >(without_repeats(v)),
        i == v.len() && run && without_repeats(v).len() == 0 ==> selects(meta, proj, words, run) == Err::<
            Seq<ArtifactView>,
            Seq<char>,
        >("no executable target selected to run"@),
        i == v.len() && run && without_repeats(v).len() > 1 ==> selects(meta, proj, words, run) == Err::<
            Seq<ArtifactView>,
            Seq<char>,
        >(
            "run needs exactly one target, but "@ + digits(without_repeats(v).len()) + " were selected: "@
                + joined(without_repeats(v).map_values(|a: ArtifactView| a.labelled()), ", "@),
        ),
{
    if let Some(m) = meta {
        first_stranger_is(v, m, i);
    }
    let out = without_repeats(v);
    assert(labels(out) =~= out.map_values(|a: ArtifactView| a.labelled()));
}

/// A line whose flags cannot be read, or name targets that nothing lists, is refused for that.
pub proof fn flags_that_name_nothing(
    meta: Option<MetaView>,
    proj: Seq<char>,
    words: Seq<Seq<char>>,
    run: bool,
)
    ensures
        flags_of(words) matches Err(e) ==> selects(meta, proj, words, run) == Err::<
            Seq<ArtifactView>,
            Seq<char>,
        >(e),
        flags_of(words) matches Ok(f) ==> (f.len() > 0 ==> (named_by(f, meta) matches Err(e) ==> selects(
            meta,
            proj,
            words,
            run,
        ) == Err::<Seq<ArtifactView>, Seq<char>>(e))),
{
}

proof fn last_without_repeats(v: Seq<ArtifactView>)
    ensures
        v.len() == 0 <==> without_repeats(v).len() == 0,
        v.len() > 0 ==> without_repeats(v).last() == v.last(),
    decreases v.len(),
{
    if v.len() > 0 {
        last_without_repeats(v.drop_last());
    }
}

/// A target that comes twice in a row is one: dropping the second changes nothing.
pub proof fn a_repeated_target_is_one(v: Seq<ArtifactView>, a: ArtifactView, w: Seq<ArtifactView>)
    ensures
        without_repeats(v + seq![a, a] + w) == without_repeats(v + seq![a] + w),
    decreases w.len(),
{
    let two = v + seq![a, a] + w;
    let one = v + seq![a] + w;
    if w.len() == 0 {
        assert(two.drop_last() =~= one);
        assert(two.last() == a);
        assert(one.last() == a);
        last_without_repeats(one);
    } else {
        let x = w.drop_last();
        assert(two.drop_last() =~= v + seq![a, a] + x);
        assert(one.drop_last() =~= v + seq![a] + x);
        assert(two.last() == w.last() && one.last() == w.last());
        a_repeated_target_is_one(v, a, x);
    }
}

/// Targets of which no two in a row are the same stay as they are.
pub proof fn different_targets_stay(v: Seq<ArtifactView>)
    requires
        forall|i: int| 0 <= i < v.len() - 1 ==> #[trigger] v[i] != v[i + 1],
    ensures
        without_repeats(v) == v,
    decreases v.len(),
{
    if v.len() > 0 {
        let w = v.drop_last();
        assert forall|i: int| 0 <= i < w.len() - 1 implies #[trigger] w[i] != w[i + 1] by {
            assert(v[i] != v[i + 1]);
        }
        different_targets_stay(w);
        if w.len() > 0 {
            assert(v[w.len() - 1] != v[w.len() - 1 + 1]);
        }
        assert(w.push(v.last()) =~= v);
    }
}

/// The words of a line that is refused hold what its subcommand implies and nothing more.
pub proof fn what_a_refused_line_holds(
    proj: Seq<char>,
    sub: Seq<char>,
    words: Seq<Seq<char>>,
    meta: Option<MetaView>,
)
    requires
        planned(proj, sub, words, meta).1 is Some,
    ensures
        ({
            let out = planned(proj, sub, words, meta).0;
            let read = flags_of(words) is Ok && forall|i: int|
                0 <= i < words.len() ==> !"--message-format"@.is_prefix_of(#[trigger] words[i]);
            let none = flags_of(words)->Ok_0.len() == 0;
            &&& !read || (sub != "test"@ && sub != "bench"@) ==> out == words
            &&& read && none && sub == "test"@ ==> out == words + seq!["--tests"@]
            &&& read && !none && sub == "test"@ ==> out == words
            &&& read && none && sub == "bench"@ ==> out.len() > words.len() && out[words.len() as int]
                == "--benches"@
        }),
{
    reveal_strlit("test");
    reveal_strlit("bench");
    reveal_strlit("run");
    assert("test"@.len() == 4 && "bench"@.len() == 5 && "run"@.len() == 3);
    let asked = exists|i: int| 0 <= i < words.len() && "--message-format"@.is_prefix_of(#[trigger] words[i]);
    assert(asked == any_format(words)) by {
        if asked {
            let i = choose|i: int| 0 <= i < words.len() && "--message-format"@.is_prefix_of(#[trigger] words[i]);
            assert(asks_format(words[i]));
        }
        if any_format(words) {
            let i = choose|i: int| 0 <= i < words.len() && asks_format(#[trigger] words[i]);
            assert("--message-format"@.is_prefix_of(words[i]));
        }
    }
}

} // verus!
