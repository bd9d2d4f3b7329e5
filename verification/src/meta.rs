//! What cargo's manifest says of the packages and targets that a command selects.
use vstd::prelude::*;
use vstd::string::*;

use crate::flags::{parse_package_selection, selection_of, Kind, PkgSel, PkgView};
use crate::order::{sorted, sorted_texts};
use crate::text::{
    chars_of, extend_texts, find, find_from, has_text, join, joined, lossy_text, opt_text,
    quoted, quoted_text, same, same_bytes, end_trimmed, text_from_bytes, texts, trim_end,
};

verus! {

/// A target, as `cargo metadata` reports it.
#[derive(Debug)]
pub struct TgtJson {
    pub name: String,
    pub kind: Vec<String>,
    pub crate_types: Vec<String>,
}

/// The model of a [`TgtJson`].
#[verifier::ext_equal]
pub struct TgtView {
    pub name: Seq<char>,
    pub kind: Seq<Seq<char>>,
    pub crate_types: Seq<Seq<char>>,
}

impl View for TgtJson {
    type V = TgtView;

    open spec fn view(&self) -> TgtView {
        TgtView { name: self.name@, kind: texts(self.kind@), crate_types: texts(self.crate_types@) }
    }
}

/// A package, as `cargo metadata` reports it.
#[derive(Debug)]
pub struct PkgJson {
    pub id: String,
    pub name: String,
    /// The canonical form of the path of the package's manifest, if it has one.
    pub manifest: Option<Vec<u8>>,
    pub default_run: Option<String>,
    pub targets: Vec<TgtJson>,
}

/// The model of a [`PkgJson`].
#[verifier::ext_equal]
pub struct PkgJsonView {
    pub id: Seq<char>,
    pub name: Seq<char>,
    pub manifest: Option<Seq<u8>>,
    pub default_run: Option<Seq<char>>,
    pub targets: Seq<TgtView>,
}

/// The views of a list of targets.
pub open spec fn targets(v: Seq<TgtJson>) -> Seq<TgtView> {
    v.map_values(|t: TgtJson| t@)
}

/// The view of an optional byte string.
pub open spec fn opt_bytes(o: Option<Vec<u8>>) -> Option<Seq<u8>> {
    match o {
        Some(b) => Some(b@),
        None => None,
    }
}

impl View for PkgJson {
    type V = PkgJsonView;

    open spec fn view(&self) -> PkgJsonView {
        PkgJsonView {
            id: self.id@,
            name: self.name@,
            manifest: opt_bytes(self.manifest),
            default_run: opt_text(self.default_run),
            targets: targets(self.targets@),
        }
    }
}

/// The views of a list of packages.
pub open spec fn packages(v: Seq<PkgJson>) -> Seq<PkgJsonView> {
    v.map_values(|p: PkgJson| p@)
}

/// The workspace, as `cargo metadata` reports it.
#[derive(Debug)]
pub struct MetaJson {
    pub packages: Vec<PkgJson>,
    pub workspace_root: String,
    /// Absent on a cargo old enough not to report it; `Meta::load` falls back
    /// to every member when that happens.
    pub workspace_default_members: Option<Vec<String>>,
}

/// The model of a [`MetaJson`].
#[verifier::ext_equal]
pub struct MetaJsonView {
    pub packages: Seq<PkgJsonView>,
    pub workspace_root: Seq<char>,
    pub workspace_default_members: Option<Seq<Seq<char>>>,
}

impl View for MetaJson {
    type V = MetaJsonView;

    open spec fn view(&self) -> MetaJsonView {
        MetaJsonView {
            packages: packages(self.packages@),
            workspace_root: self.workspace_root@,
            workspace_default_members: match self.workspace_default_members {
                Some(v) => Some(texts(v@)),
                None => None,
            },
        }
    }
}

/// What came of running `cargo metadata`.
#[derive(Debug)]
pub enum MetadataRun {
    /// There was no cargo to run.
    NotRun,
    /// It ran and failed, with this on its stderr.
    Failed(Vec<u8>),
    /// It succeeded, with this report, or with something that is none.
    Report(Option<MetaJson>),
}

/// The canonical forms of the paths that say where a command was typed, as far as they have one.
#[derive(Debug)]
pub struct Here {
    /// The workspace's root.
    pub root: Option<Vec<u8>>,
    /// The directory the command was typed in.
    pub cwd: Option<Vec<u8>>,
    /// The manifest in that directory.
    pub manifest: Option<Vec<u8>>,
}

/// The target names cargo knows for the selected package(s), straight from the
/// manifest, plus enough of the workspace shape to sync and route correctly.
#[derive(Debug)]
pub struct Meta {
    /// The one tree cargo actually builds from. Always the workspace root,
    /// even a standalone, non-workspace package reports itself as one.
    pub workspace_root: String,
    /// True when the command was typed in that root, so nothing needs telling the server
    /// which package was meant.
    pub is_workspace_root: bool,
    /// The package whose manifest is here, if any. Only stands in for an
    /// unstated selection: an explicit `-p`/`--package`/`--workspace` on the
    /// command line always wins, the same way plain `cargo` lets a flag
    /// override the directory you're standing in.
    pub at_package: Option<String>,
    /// True if the command line already carried `-p`/`--package`/`--workspace`,
    /// so nothing here should add another one.
    pub explicit_selection: bool,
    /// The packages this invocation resolved to: the `-p`/`--workspace`
    /// flags, or `at_package` when neither was said, or the workspace's own
    /// default members when neither `at_package` applies either.
    pub selected: Vec<String>,
    pub bins: Vec<String>,
    pub examples: Vec<String>,
    pub tests: Vec<String>,
    pub benches: Vec<String>,
    /// Only set when exactly one package is selected: with more than one on
    /// the table, "the default binary" isn't a well-formed question.
    pub default_run: Option<String>,
}

/// The model of a [`Meta`].
#[verifier::ext_equal]
pub struct MetaView {
    pub workspace_root: Seq<char>,
    pub is_workspace_root: bool,
    pub at_package: Option<Seq<char>>,
    pub explicit_selection: bool,
    pub selected: Seq<Seq<char>>,
    pub bins: Seq<Seq<char>>,
    pub examples: Seq<Seq<char>>,
    pub tests: Seq<Seq<char>>,
    pub benches: Seq<Seq<char>>,
    pub default_run: Option<Seq<char>>,
}

impl View for Meta {
    type V = MetaView;

    open spec fn view(&self) -> MetaView {
        MetaView {
            workspace_root: self.workspace_root@,
            is_workspace_root: self.is_workspace_root,
            at_package: opt_text(self.at_package),
            explicit_selection: self.explicit_selection,
            selected: texts(self.selected@),
            bins: texts(self.bins@),
            examples: texts(self.examples@),
            tests: texts(self.tests@),
            benches: texts(self.benches@),
            default_run: opt_text(self.default_run),
        }
    }
}

impl MetaView {
    /// The names of the targets of a kind.
    pub open spec fn of_kind(self, kind: Kind) -> Seq<Seq<char>> {
        match kind {
            Kind::Bin => self.bins,
            Kind::Example => self.examples,
            Kind::Test => self.tests,
            Kind::Bench => self.benches,
        }
    }

    /// How the selected package set reads in an error message.
    pub open spec fn labelled(self) -> Seq<char> {
        if self.selected.len() == 1 {
            self.selected[0]
        } else {
            "{"@ + joined(self.selected, ", "@) + "}"@
        }
    }
}

/// The view of an optional manifest.
pub open spec fn opt_meta(m: Option<Meta>) -> Option<MetaView> {
    match m {
        Some(m) => Some(m@),
        None => None,
    }
}

/// Names in order and commas, or a word that says there are none.
pub open spec fn listing(names: Seq<Seq<char>>) -> Seq<char> {
    if names.len() == 0 {
        "(none)"@
    } else {
        joined(sorted_texts(names), ", "@)
    }
}

/// Lists names in order and commas.
pub fn list_names(names: &Vec<String>) -> (r: String)
    ensures
        r@ == listing(texts(names@)),
{
    if names.len() == 0 {
        "(none)".to_owned()
    } else {
        let v = sorted(names);
        join(&v, ", ")
    }
}

/// The names of packages, in the order cargo reports them.
pub open spec fn package_names(p: Seq<PkgJsonView>) -> Seq<Seq<char>> {
    p.map_values(|q: PkgJsonView| q.name)
}

/// The package of the manifest that is here: the first whose manifest it is, or the only one.
pub open spec fn package_here(p: Seq<PkgJsonView>, manifest: Option<Seq<u8>>) -> Option<Seq<char>> {
    let at = first_at(p, manifest);
    if at < p.len() {
        Some(p[at].name)
    } else if p.len() == 1 {
        Some(p[0].name)
    } else {
        None
    }
}

/// The position of the first package with the given manifest, or the number of packages.
pub open spec fn first_at(p: Seq<PkgJsonView>, manifest: Option<Seq<u8>>) -> int
    decreases p.len(),
{
    if p.len() == 0 || p[0].manifest == manifest {
        0
    } else {
        1 + first_at(p.skip(1), manifest)
    }
}

/// The names of the packages whose id is among `ids`, in the order cargo reports them.
pub open spec fn named_by_id(p: Seq<PkgJsonView>, ids: Seq<Seq<char>>) -> Seq<Seq<char>>
    decreases p.len(),
{
    if p.len() == 0 {
        seq![]
    } else {
        let before = named_by_id(p.drop_last(), ids);
        if ids.contains(p.last().id) {
            before.push(p.last().name)
        } else {
            before
        }
    }
}

/// What a `-p` that names no package of the workspace is answered.
pub open spec fn no_package(name: Seq<char>, known: Seq<Seq<char>>) -> Seq<char> {
    "no package named "@ + quoted_text(name) + " in this workspace. Available: "@ + listing(known)
}

/// The first of `names` that is not known, or their number when all are.
pub open spec fn first_unknown(names: Seq<Seq<char>>, known: Seq<Seq<char>>) -> int
    decreases names.len(),
{
    if names.len() == 0 || !known.contains(names[0]) {
        0
    } else {
        1 + first_unknown(names.skip(1), known)
    }
}

/// The packages that a command resolves to. What the line says always wins; what is here only
/// stands in for an unstated selection, and the workspace's own default for that.
pub open spec fn resolved(
    sel: PkgView,
    here: Option<Seq<char>>,
    p: Seq<PkgJsonView>,
    default_members: Option<Seq<Seq<char>>>,
) -> Result<Seq<Seq<char>>, Seq<char>> {
    let all = package_names(p);
    match sel {
        PkgView::Named(names) => {
            let at = first_unknown(names, all);
            if at < names.len() {
                Err(no_package(names[at], all))
            } else {
                Ok(names)
            }
        },
        PkgView::Workspace => Ok(all),
        PkgView::Default => match here {
            Some(name) => Ok(seq![name]),
            None => match default_members {
                Some(ids) => Ok(
                    if named_by_id(p, ids).len() == 0 {
                        all
                    } else {
                        named_by_id(p, ids)
                    },
                ),
                None => Ok(all),
            },
        },
    }
}

/// The packages among `p` that are selected.
pub open spec fn chosen(p: Seq<PkgJsonView>, selected: Seq<Seq<char>>) -> Seq<PkgJsonView>
    decreases p.len(),
{
    if p.len() == 0 {
        seq![]
    } else {
        let before = chosen(p.drop_last(), selected);
        if selected.contains(p.last().name) {
            before.push(p.last())
        } else {
            before
        }
    }
}

/// Whether a target is of a kind and becomes a program. An example may be a lib
/// (`crate-type = ["cdylib"]`); only bins run.
pub open spec fn runs_as(t: TgtView, kind: Kind) -> bool {
    t.kind.contains(kind.spelled()) && t.crate_types.contains("bin"@)
}

/// The names of the targets of a kind that become programs.
pub open spec fn target_names(t: Seq<TgtView>, kind: Kind) -> Seq<Seq<char>>
    decreases t.len(),
{
    if t.len() == 0 {
        seq![]
    } else {
        let before = target_names(t.drop_last(), kind);
        if runs_as(t.last(), kind) {
            before.push(t.last().name)
        } else {
            before
        }
    }
}

/// The names of the targets of a kind over several packages, package by package.
pub open spec fn all_target_names(p: Seq<PkgJsonView>, kind: Kind) -> Seq<Seq<char>>
    decreases p.len(),
{
    if p.len() == 0 {
        seq![]
    } else {
        all_target_names(p.drop_last(), kind) + target_names(p.last().targets, kind)
    }
}

/// What cargo says where there is no manifest at all.
pub open spec fn no_manifest_text() -> Seq<char> {
    "could not find `Cargo.toml`"@
}

/// What a workspace, a place in it and a command line come to.
pub open spec fn loaded(
    json: MetaJsonView,
    root: Option<Seq<u8>>,
    cwd: Option<Seq<u8>>,
    manifest: Option<Seq<u8>>,
    args: Seq<Seq<char>>,
) -> Result<MetaView, Seq<char>> {
    let here = package_here(json.packages, manifest);
    match selection_of(args) {
        Err(e) => Err(e),
        Ok(sel) => match resolved(sel, here, json.packages, json.workspace_default_members) {
            Err(e) => Err(e),
            Ok(selected) => {
                let pkgs = chosen(json.packages, selected);
                Ok(
                    MetaView {
                        workspace_root: json.workspace_root,
                        is_workspace_root: root is Some && root == cwd,
                        at_package: here,
                        explicit_selection: !(sel is Default),
                        selected,
                        bins: all_target_names(pkgs, Kind::Bin),
                        examples: all_target_names(pkgs, Kind::Example),
                        tests: all_target_names(pkgs, Kind::Test),
                        benches: all_target_names(pkgs, Kind::Bench),
                        default_run: if pkgs.len() == 1 {
                            pkgs[0].default_run
                        } else {
                            None
                        },
                    },
                )
            },
        },
    }
}

/// Whether two optional byte strings are the same.
fn same_opt(a: &Option<Vec<u8>>, b: &Option<Vec<u8>>) -> (r: bool)
    ensures
        r == (opt_bytes(*a) == opt_bytes(*b)),
{
    match (a, b) {
        (Some(x), Some(y)) => same_bytes(x.as_slice(), y.as_slice()),
        (None, None) => true,
        _ => false,
    }
}

impl Meta {
    pub fn named(&self, kind: Kind) -> (r: &Vec<String>)
        ensures
            texts(r@) == self@.of_kind(kind),
    {
        match kind {
            Kind::Bin => &self.bins,
            Kind::Example => &self.examples,
            Kind::Test => &self.tests,
            Kind::Bench => &self.benches,
        }
    }

    /// How the selected package set reads in an error message.
    pub fn label(&self) -> (r: String)
        ensures
            r@ == self@.labelled(),
    {
        if self.selected.len() == 1 {
            self.selected[0].clone()
        } else {
            let mut out = "{".to_owned();
            let names = join(&self.selected, ", ");
            out.append(names.as_str());
            out.append("}");
            out
        }
    }

    /// `Ok(None)` means there's no manifest to read at all: not a cargo
    /// directory, so every caller falls back to its own pre-workspace guess.
    /// `Err` means there is one, but what this command line asked of it (an
    /// unknown `-p`, an unsupported `--exclude`) doesn't parse against it;
    /// that's a real failure, not something to quietly work around.
    pub fn load(run: MetadataRun, here: &Here, args: &Vec<String>) -> (r: Result<Option<Meta>, String>)
        ensures
            match run {
                MetadataRun::NotRun => r == Ok::<Option<Meta>, String>(None),
                MetadataRun::Report(None) => r == Ok::<Option<Meta>, String>(None),
                MetadataRun::Failed(b) => if find_from(lossy_text(b@), no_manifest_text(), 0) is Some {
                    r == Ok::<Option<Meta>, String>(None)
                } else {
                    r matches Err(e) && e@ == end_trimmed(lossy_text(b@))
                },
                MetadataRun::Report(Some(json)) => match loaded(
                    json@,
                    opt_bytes(here.root),
                    opt_bytes(here.cwd),
                    opt_bytes(here.manifest),
                    texts(args@),
                ) {
                    Ok(m) => r matches Ok(Some(meta)) && meta@ == m,
                    Err(e) => r matches Err(f) && f@ == e,
                },
            },
    {
        let json = match run {
            MetadataRun::NotRun => {
                return Ok(None);
            },
            // Not a cargo directory at all is the one failure with a fallback
            // that makes sense; anything else cargo said about this manifest
            // (a parse error, a broken workspace) is a real failure to report,
            // not to quietly swallow: swallowing it here would fall back to
            // guessing the current directory as the sync root, syncing only a
            // member's subtree and leaving the server to fail on a missing
            // workspace root instead of on the diagnostic that explains it.
            MetadataRun::Failed(b) => {
                let stderr = text_from_bytes(b.as_slice());
                let x = chars_of(stderr.as_str());
                let y = chars_of("could not find `Cargo.toml`");
                if find(&x, &y).is_some() {
                    return Ok(None);
                }
                return Err(trim_end(stderr.as_str()));
            },
            MetadataRun::Report(None) => {
                return Ok(None);
            },
            MetadataRun::Report(Some(json)) => json,
        };
        Meta::from_report(json, here, args)
    }

    fn from_report(json: MetaJson, here: &Here, args: &Vec<String>) -> (r: Result<Option<Meta>, String>)
        ensures
            match loaded(
                json@,
                opt_bytes(here.root),
                opt_bytes(here.cwd),
                opt_bytes(here.manifest),
                texts(args@),
            ) {
                Ok(m) => r matches Ok(Some(meta)) && meta@ == m,
                Err(e) => r matches Err(f) && f@ == e,
            },
    {
        let is_workspace_root = here.root.is_some() && same_opt(&here.root, &here.cwd);
        let at_package = find_here(&json.packages, &here.manifest);
        let sel = match parse_package_selection(args) {
            Ok(s) => s,
            Err(e) => {
                return Err(e);
            },
        };
        let explicit_selection = match sel {
            PkgSel::Default => false,
            _ => true,
        };
        let selected = match resolve(sel, &at_package, &json) {
            Ok(s) => s,
            Err(e) => {
                return Err(e);
            },
        };
        let bins = names_of_kind(&json.packages, &selected, Kind::Bin);
        let examples = names_of_kind(&json.packages, &selected, Kind::Example);
        let tests = names_of_kind(&json.packages, &selected, Kind::Test);
        let benches = names_of_kind(&json.packages, &selected, Kind::Bench);
        let default_run = only_default_run(&json.packages, &selected);
        Ok(
            Some(
                Meta {
                    workspace_root: json.workspace_root,
                    is_workspace_root,
                    at_package,
                    explicit_selection,
                    selected,
                    bins,
                    examples,
                    tests,
                    benches,
                    default_run,
                },
            ),
        )
    }
}

/// The package of the manifest that is here.
fn find_here(p: &Vec<PkgJson>, manifest: &Option<Vec<u8>>) -> (r: Option<String>)
    ensures
        opt_text(r) == package_here(packages(p@), opt_bytes(*manifest)),
{
    let ghost v = packages(p@);
    let ghost m = opt_bytes(*manifest);
    let mut i: usize = 0;
    assert(v.skip(0) =~= v);
    while i < p.len()
        invariant
            i <= p@.len(),
            v == packages(p@),
            m == opt_bytes(*manifest),
            first_at(v, m) == i + first_at(v.skip(i as int), m),
        decreases p@.len() - i,
    {
        assert(v.skip(i as int)[0] == p@[i as int]@);
        assert(v.skip(i as int).skip(1) =~= v.skip(i + 1));
        if same_opt(&p[i].manifest, manifest) {
            assert(v[i as int].name == p@[i as int].name@);
            return Some(p[i].name.clone());
        }
        i += 1;
    }
    assert(v.skip(i as int).len() == 0);
    if p.len() == 1 {
        assert(v[0].name == p@[0].name@);
        Some(p[0].name.clone())
    } else {
        None
    }
}

/// The names of packages.
fn names_of(p: &Vec<PkgJson>) -> (r: Vec<String>)
    ensures
        texts(r@) == package_names(packages(p@)),
{
    let mut out: Vec<String> = Vec::new();
    let ghost all = package_names(packages(p@));
    let mut i: usize = 0;
    while i < p.len()
        invariant
            i <= p@.len(),
            all == package_names(packages(p@)),
            texts(out@) == all.take(i as int),
        decreases p@.len() - i,
    {
        let ghost was = texts(out@);
        out.push(p[i].name.clone());
        assert(texts(out@) =~= was.push(p@[i as int].name@));
        assert(all[i as int] == p@[i as int].name@);
        assert(texts(out@) =~= all.take(i + 1));
        i += 1;
    }
    assert(all.take(i as int) =~= all);
    out
}

/// The names of the packages with the given ids.
fn names_by_id(p: &Vec<PkgJson>, ids: &Vec<String>) -> (r: Vec<String>)
    ensures
        texts(r@) == named_by_id(packages(p@), texts(ids@)),
{
    let mut out: Vec<String> = Vec::new();
    let ghost v = packages(p@);
    let mut i: usize = 0;
    assert(texts(out@) =~= named_by_id(v.take(0), texts(ids@)));
    while i < p.len()
        invariant
            i <= p@.len(),
            v == packages(p@),
            texts(out@) == named_by_id(v.take(i as int), texts(ids@)),
        decreases p@.len() - i,
    {
        let ghost was = texts(out@);
        assert(v.take(i + 1).drop_last() =~= v.take(i as int));
        assert(v.take(i + 1).last() == p@[i as int]@);
        if has_text(ids, p[i].id.as_str()) {
            out.push(p[i].name.clone());
            assert(texts(out@) =~= was.push(p@[i as int].name@));
        }
        i += 1;
    }
    assert(v.take(i as int) =~= v);
    out
}

/// The packages that a selection resolves to.
fn resolve(sel: PkgSel, at_package: &Option<String>, json: &MetaJson) -> (r: Result<Vec<String>, String>)
    ensures
        match r {
            Ok(v) => resolved(
                sel@,
                opt_text(*at_package),
                json@.packages,
                json@.workspace_default_members,
            ) == Ok::<Seq<Seq<char>>, Seq<char>>(texts(v@)),
            Err(e) => resolved(
                sel@,
                opt_text(*at_package),
                json@.packages,
                json@.workspace_default_members,
            ) == Err::<Seq<Seq<char>>, Seq<char>>(e@),
        },
{
    let all = names_of(&json.packages);
    match sel {
        PkgSel::Named(names) => {
            let ghost n = texts(names@);
            let ghost known = texts(all@);
            let mut i: usize = 0;
            assert(n.skip(0) =~= n);
            while i < names.len()
                invariant
                    i <= names@.len(),
                    n == texts(names@),
                    known == texts(all@),
                    known == package_names(json@.packages),
                    sel@ == PkgView::Named(n),
                    first_unknown(n, known) == i + first_unknown(n.skip(i as int), known),
                decreases names@.len() - i,
            {
                assert(n.skip(i as int)[0] == names@[i as int]@);
                assert(n.skip(i as int).skip(1) =~= n.skip(i + 1));
                if !has_text(&all, names[i].as_str()) {
                    let mut e = "no package named ".to_owned();
                    let q = quoted(names[i].as_str());
                    e.append(q.as_str());
                    e.append(" in this workspace. Available: ");
                    let l = list_names(&all);
                    e.append(l.as_str());
                    assert(n[i as int] == names@[i as int]@);
                    return Err(e);
                }
                i += 1;
            }
            assert(n.skip(i as int).len() == 0);
            Ok(names)
        },
        PkgSel::Workspace => Ok(all),
        PkgSel::Default => match at_package {
            Some(name) => {
                let mut v: Vec<String> = Vec::new();
                v.push(name.clone());
                assert(texts(v@) =~= seq![name@]);
                Ok(v)
            },
            None => match &json.workspace_default_members {
                Some(ids) => {
                    let named = names_by_id(&json.packages, ids);
                    if named.len() == 0 {
                        Ok(all)
                    } else {
                        Ok(named)
                    }
                },
                None => Ok(all),
            },
        },
    }
}

/// The names of the targets of a kind in one package.
fn names_in(t: &Vec<TgtJson>, kind: Kind) -> (r: Vec<String>)
    ensures
        texts(r@) == target_names(targets(t@), kind),
{
    let mut out: Vec<String> = Vec::new();
    let ghost v = targets(t@);
    let mut i: usize = 0;
    assert(texts(out@) =~= target_names(v.take(0), kind));
    while i < t.len()
        invariant
            i <= t@.len(),
            v == targets(t@),
            texts(out@) == target_names(v.take(i as int), kind),
        decreases t@.len() - i,
    {
        let ghost was = texts(out@);
        assert(v.take(i + 1).drop_last() =~= v.take(i as int));
        assert(v.take(i + 1).last() == t@[i as int]@);
        if has_text(&t[i].kind, kind.word()) && has_text(&t[i].crate_types, "bin") {
            out.push(t[i].name.clone());
            assert(texts(out@) =~= was.push(t@[i as int].name@));
        }
        i += 1;
    }
    assert(v.take(i as int) =~= v);
    out
}

/// The names of the targets of a kind over the selected packages.
fn names_of_kind(p: &Vec<PkgJson>, selected: &Vec<String>, kind: Kind) -> (r: Vec<String>)
    ensures
        texts(r@) == all_target_names(chosen(packages(p@), texts(selected@)), kind),
{
    let mut out: Vec<String> = Vec::new();
    let ghost v = packages(p@);
    let ghost s = texts(selected@);
    let mut i: usize = 0;
    assert(texts(out@) =~= all_target_names(chosen(v.take(0), s), kind));
    while i < p.len()
        invariant
            i <= p@.len(),
            v == packages(p@),
            s == texts(selected@),
            texts(out@) == all_target_names(chosen(v.take(i as int), s), kind),
        decreases p@.len() - i,
    {
        assert(v.take(i + 1).drop_last() =~= v.take(i as int));
        assert(v.take(i + 1).last() == p@[i as int]@);
        if has_text(selected, p[i].name.as_str()) {
            let names = names_in(&p[i].targets, kind);
            extend_texts(&mut out, &names);
            assert(chosen(v.take(i + 1), s).drop_last() =~= chosen(v.take(i as int), s));
        }
        i += 1;
    }
    assert(v.take(i as int) =~= v);
    out
}

/// The default binary of the selected package, if only one is selected.
fn only_default_run(p: &Vec<PkgJson>, selected: &Vec<String>) -> (r: Option<String>)
    ensures
        opt_text(r) == ({
            let pkgs = chosen(packages(p@), texts(selected@));
            if pkgs.len() == 1 {
                pkgs[0].default_run
            } else {
                None
            }
        }),
{
    let ghost v = packages(p@);
    let ghost s = texts(selected@);
    let mut at: Vec<usize> = Vec::new();
    let mut i: usize = 0;
    assert(chosen(v.take(0), s).len() == 0);
    while i < p.len()
        invariant
            i <= p@.len(),
            v == packages(p@),
            s == texts(selected@),
            at@.len() == chosen(v.take(i as int), s).len(),
            forall|k: int| 0 <= k < at@.len() ==> (#[trigger] at@[k]) < p@.len() && chosen(v.take(i as int), s)[k]
                == v[at@[k] as int],
        decreases p@.len() - i,
    {
        assert(v.take(i + 1).drop_last() =~= v.take(i as int));
        assert(v.take(i + 1).last() == p@[i as int]@);
        if has_text(selected, p[i].name.as_str()) {
            at.push(i);
        }
        i += 1;
    }
    assert(v.take(i as int) =~= v);
    if at.len() == 1 {
        assert(v[at@[0] as int] == p@[at@[0] as int]@);
        match &p[at[0]].default_run {
            Some(d) => Some(d.clone()),
            None => None,
        }
    } else {
        None
    }
}

/// Packages that the command line names are the ones it gets, wherever it was typed.
pub proof fn an_explicit_selection_ignores_the_place(
    json: MetaJsonView,
    root: Option<Seq<u8>>,
    cwd: Option<Seq<u8>>,
    one: Option<Seq<u8>>,
    other: Option<Seq<u8>>,
    args: Seq<Seq<char>>,
)
    requires
        selection_of(args) matches Ok(sel) && !(sel is Default),
    ensures
        match (loaded(json, root, cwd, one, args), loaded(json, root, cwd, other, args)) {
            (Ok(a), Ok(b)) => a == (MetaView { at_package: a.at_package, ..b }),
            (Err(a), Err(b)) => a == b,
            _ => false,
        },
{
}

/// Every package that a command resolves to is one of the workspace's.
pub proof fn every_selected_package_is_known(
    json: MetaJsonView,
    root: Option<Seq<u8>>,
    cwd: Option<Seq<u8>>,
    manifest: Option<Seq<u8>>,
    args: Seq<Seq<char>>,
)
    ensures
        loaded(json, root, cwd, manifest, args) matches Ok(m) ==> forall|i: int|
            0 <= i < m.selected.len() ==> package_names(json.packages).contains(#[trigger] m.selected[i]),
{
    let p = json.packages;
    let all = package_names(p);
    if let Ok(m) = loaded(json, root, cwd, manifest, args) {
        let sel = selection_of(args)->Ok_0;
        assert forall|i: int| 0 <= i < m.selected.len() implies all.contains(
            #[trigger] m.selected[i],
        ) by {
            if sel is Named {
                none_unknown(sel->Named_0, all);
            } else if sel is Default {
                first_at_bounds(p, manifest);
                let at = first_at(p, manifest);
                if at < p.len() {
                    assert(all[at] == p[at].name);
                } else if p.len() == 1 {
                    assert(all[0] == p[0].name);
                } else if json.workspace_default_members is Some {
                    by_id_are_members(p, json.workspace_default_members->0);
                }
            }
        }
    }
}

proof fn none_unknown(names: Seq<Seq<char>>, known: Seq<Seq<char>>)
    requires
        first_unknown(names, known) >= names.len(),
    ensures
        forall|i: int| 0 <= i < names.len() ==> known.contains(#[trigger] names[i]),
    decreases names.len(),
{
    if names.len() > 0 {
        none_unknown(names.skip(1), known);
        assert forall|i: int| 0 <= i < names.len() implies known.contains(#[trigger] names[i]) by {
            if i > 0 {
                assert(names.skip(1)[i - 1] == names[i]);
            }
        }
    }
}

proof fn first_at_bounds(p: Seq<PkgJsonView>, manifest: Option<Seq<u8>>)
    ensures
        0 <= first_at(p, manifest) <= p.len(),
    decreases p.len(),
{
    if p.len() > 0 {
        first_at_bounds(p.skip(1), manifest);
    }
}

proof fn by_id_are_members(p: Seq<PkgJsonView>, ids: Seq<Seq<char>>)
    ensures
        forall|i: int|
            0 <= i < named_by_id(p, ids).len() ==> package_names(p).contains(
                #[trigger] named_by_id(p, ids)[i],
            ),
    decreases p.len(),
{
    if p.len() > 0 {
        let q = p.drop_last();
        by_id_are_members(q, ids);
        assert forall|i: int| 0 <= i < named_by_id(p, ids).len() implies package_names(p).contains(
            #[trigger] named_by_id(p, ids)[i],
        ) by {
            if i < named_by_id(q, ids).len() {
                let n = named_by_id(q, ids)[i];
                assert(package_names(q).contains(n));
                let k = choose|k: int| 0 <= k < package_names(q).len() && package_names(q)[k] == n;
                assert(package_names(p)[k] == n);
            } else {
                assert(package_names(p)[p.len() - 1] == p.last().name);
            }
        }
    }
}

/// Whether some program of the given kind and name is a target of a package among `p` that is
/// selected.
pub open spec fn offered(
    p: Seq<PkgJsonView>,
    selected: Seq<Seq<char>>,
    kind: Kind,
    name: Seq<char>,
) -> bool {
    exists|i: int, j: int|
        0 <= i < p.len() && 0 <= j < p[i].targets.len() && selected.contains(p[i].name) && runs_as(
            #[trigger] p[i].targets[j],
            kind,
        ) && p[i].targets[j].name == name
}

/// The targets that a command may name are exactly the programs of the packages it selected: a
/// package that was left out offers none of its own.
pub proof fn listed_targets_are_those_of_the_selected_packages(
    json: MetaJsonView,
    root: Option<Seq<u8>>,
    cwd: Option<Seq<u8>>,
    manifest: Option<Seq<u8>>,
    args: Seq<Seq<char>>,
    kind: Kind,
    name: Seq<char>,
)
    ensures
        loaded(json, root, cwd, manifest, args) matches Ok(m) ==> (m.of_kind(kind).contains(name)
            <==> offered(json.packages, m.selected, kind, name)),
{
    if let Ok(m) = loaded(json, root, cwd, manifest, args) {
        all_names_offered(json.packages, m.selected, kind, name);
    }
}

proof fn all_names_offered(
    p: Seq<PkgJsonView>,
    selected: Seq<Seq<char>>,
    kind: Kind,
    name: Seq<char>,
)
    ensures
        all_target_names(chosen(p, selected), kind).contains(name) <==> offered(
            p,
            selected,
            kind,
            name,
        ),
    decreases p.len(),
{
    if p.len() > 0 {
        let q = p.drop_last();
        let last = p.last();
        all_names_offered(q, selected, kind, name);
        let before = chosen(q, selected);
        let now = chosen(p, selected);
        let own = target_names(last.targets, kind);
        names_offered(last.targets, kind, name);
        if selected.contains(last.name) {
            assert(now.drop_last() =~= before);
            let a = all_target_names(before, kind);
            assert(all_target_names(now, kind) == a + own);
            assert((a + own).contains(name) <==> a.contains(name) || own.contains(name)) by {
                if a.contains(name) {
                    let k = choose|k: int| 0 <= k < a.len() && a[k] == name;
                    assert((a + own)[k] == name);
                }
                if own.contains(name) {
                    let k = choose|k: int| 0 <= k < own.len() && own[k] == name;
                    assert((a + own)[a.len() + k] == name);
                }
            }
        }
        assert(offered(p, selected, kind, name) <==> offered(q, selected, kind, name) || (
        selected.contains(last.name) && own.contains(name))) by {
            if offered(q, selected, kind, name) {
                let (i, j) = choose|i: int, j: int|
                    0 <= i < q.len() && 0 <= j < q[i].targets.len() && selected.contains(q[i].name)
                        && runs_as(#[trigger] q[i].targets[j], kind) && q[i].targets[j].name == name;
                assert(p[i] == q[i]);
                assert(runs_as(p[i].targets[j], kind));
            }
            if selected.contains(last.name) && own.contains(name) {
                let j = choose|j: int|
                    0 <= j < last.targets.len() && runs_as(#[trigger] last.targets[j], kind)
                        && last.targets[j].name == name;
                assert(runs_as(p[p.len() - 1].targets[j], kind));
            }
            if offered(p, selected, kind, name) {
                let (i, j) = choose|i: int, j: int|
                    0 <= i < p.len() && 0 <= j < p[i].targets.len() && selected.contains(p[i].name)
                        && runs_as(#[trigger] p[i].targets[j], kind) && p[i].targets[j].name == name;
                if i < q.len() {
                    assert(runs_as(q[i].targets[j], kind));
                } else {
                    assert(runs_as(last.targets[j], kind));
                }
            }
        }
    }
}

proof fn names_offered(t: Seq<TgtView>, kind: Kind, name: Seq<char>)
    ensures
        target_names(t, kind).contains(name) <==> exists|j: int|
            0 <= j < t.len() && runs_as(#[trigger] t[j], kind) && t[j].name == name,
    decreases t.len(),
{
    if t.len() > 0 {
        let u = t.drop_last();
        let before = target_names(u, kind);
        let now = target_names(t, kind);
        names_offered(u, kind, name);
        if now.contains(name) {
            let k = choose|k: int| 0 <= k < now.len() && now[k] == name;
            if k < before.len() {
                assert(before[k] == name);
                let j = choose|j: int|
                    0 <= j < u.len() && runs_as(#[trigger] u[j], kind) && u[j].name == name;
                assert(runs_as(t[j], kind));
            } else {
                assert(runs_as(t[t.len() - 1], kind));
            }
        }
        if exists|j: int| 0 <= j < t.len() && runs_as(#[trigger] t[j], kind) && t[j].name == name {
            let j = choose|j: int|
                0 <= j < t.len() && runs_as(#[trigger] t[j], kind) && t[j].name == name;
            if j < u.len() {
                assert(runs_as(u[j], kind));
                let k = choose|k: int| 0 <= k < before.len() && before[k] == name;
                assert(now[k] == name);
            } else {
                assert(now.last() == name);
                assert(now[now.len() - 1] == name);
            }
        }
    }
}

proof fn first_at_is(p: Seq<PkgJsonView>, manifest: Option<Seq<u8>>, i: int)
    requires
        0 <= i <= p.len(),
        i < p.len() ==> p[i].manifest == manifest,
        forall|j: int| 0 <= j < i ==> (#[trigger] p[j]).manifest != manifest,
    ensures
        first_at(p, manifest) == i,
    decreases p.len(),
{
    if i > 0 {
        let q = p.skip(1);
        assert(p[0].manifest != manifest);
        assert forall|j: int| 0 <= j < i - 1 implies (#[trigger] q[j]).manifest != manifest by {
            assert(p[j + 1].manifest != manifest);
        }
        first_at_is(q, manifest, i - 1);
    }
}

/// The package here is the one whose manifest is here, the first if several share it, at whatever place
/// it stands in cargo's report; and a line that selects no package selects that one alone.
pub proof fn the_manifest_here_picks_the_package(
    json: MetaJsonView,
    root: Option<Seq<u8>>,
    cwd: Option<Seq<u8>>,
    manifest: Option<Seq<u8>>,
    args: Seq<Seq<char>>,
    i: int,
)
    requires
        0 <= i < json.packages.len(),
        json.packages[i].manifest == manifest,
        forall|j: int| 0 <= j < i ==> (#[trigger] json.packages[j]).manifest != manifest,
    ensures
        package_here(json.packages, manifest) == Some(json.packages[i].name),
        loaded(json, root, cwd, manifest, args) matches Ok(m) ==> m.at_package == Some(
            json.packages[i].name,
        ),
        selection_of(args) == Ok::<PkgView, Seq<char>>(PkgView::Default) ==> (loaded(
            json,
            root,
            cwd,
            manifest,
            args,
        ) matches Ok(m) && m.selected == seq![json.packages[i].name]),
{
    first_at_is(json.packages, manifest, i);
}

/// Where no package's manifest is here, the package here is the only one there is; with more than one,
/// or none, there is none here.
pub proof fn without_its_manifest_only_a_lone_package_is_here(
    json: MetaJsonView,
    root: Option<Seq<u8>>,
    cwd: Option<Seq<u8>>,
    manifest: Option<Seq<u8>>,
    args: Seq<Seq<char>>,
)
    requires
        forall|j: int| 0 <= j < json.packages.len() ==> (#[trigger] json.packages[j]).manifest != manifest,
    ensures
        loaded(json, root, cwd, manifest, args) matches Ok(m) ==> (json.packages.len() == 1 ==> m.at_package
            == Some(json.packages[0].name)) && (json.packages.len() != 1 ==> m.at_package is None),
{
    first_at_is(json.packages, manifest, json.packages.len() as int);
}

proof fn first_unknown_is(names: Seq<Seq<char>>, known: Seq<Seq<char>>, i: int)
    requires
        0 <= i <= names.len(),
        i < names.len() ==> !known.contains(names[i]),
        forall|j: int| 0 <= j < i ==> known.contains(#[trigger] names[j]),
    ensures
        first_unknown(names, known) == i,
    decreases names.len(),
{
    if i > 0 {
        let rest = names.skip(1);
        assert(known.contains(names[0]));
        assert forall|j: int| 0 <= j < i - 1 implies known.contains(#[trigger] rest[j]) by {
            assert(known.contains(names[j + 1]));
        }
        first_unknown_is(rest, known, i - 1);
    }
}

proof fn known_by_index(p: Seq<PkgJsonView>, name: Seq<char>)
    ensures
        package_names(p).contains(name) <==> exists|k: int| 0 <= k < p.len() && (#[trigger] p[k]).name == name,
{
    let all = package_names(p);
    if all.contains(name) {
        let k = choose|k: int| 0 <= k < all.len() && all[k] == name;
        assert(p[k].name == name);
    }
    if exists|k: int| 0 <= k < p.len() && (#[trigger] p[k]).name == name {
        let k = choose|k: int| 0 <= k < p.len() && (#[trigger] p[k]).name == name;
        assert(all[k] == name);
    }
}

/// A line that names packages gets them as it names them, if each is the name of one of the workspace's;
/// else it is refused for the first that is not.
pub proof fn named_packages_must_be_there(
    json: MetaJsonView,
    root: Option<Seq<u8>>,
    cwd: Option<Seq<u8>>,
    manifest: Option<Seq<u8>>,
    args: Seq<Seq<char>>,
    names: Seq<Seq<char>>,
    i: int,
)
    requires
        selection_of(args) == Ok::<PkgView, Seq<char>>(PkgView::Named(names)),
        0 <= i <= names.len(),
        forall|j: int|
            0 <= j < i ==> exists|k: int|
                0 <= k < json.packages.len() && (#[trigger] json.packages[k]).name == #[trigger] names[j],
        i < names.len() ==> forall|k: int|
            0 <= k < json.packages.len() ==> (#[trigger] json.packages[k]).name != names[i],
    ensures
        i == names.len() ==> (loaded(json, root, cwd, manifest, args) matches Ok(m) && m.selected == names),
        i < names.len() ==> loaded(json, root, cwd, manifest, args) == Err::<MetaView, Seq<char>>(
            "no package named "@ + quoted_text(names[i]) + " in this workspace. Available: "@ + listing(
                json.packages.map_values(|q: PkgJsonView| q.name),
            ),
        ),
{
    let all = package_names(json.packages);
    assert(all =~= json.packages.map_values(|q: PkgJsonView| q.name));
    assert forall|j: int| 0 <= j < i implies all.contains(#[trigger] names[j]) by {
        known_by_index(json.packages, names[j]);
    }
    if i < names.len() {
        known_by_index(json.packages, names[i]);
    }
    first_unknown_is(names, all, i);
}

proof fn by_id_filter(
    p: Seq<PkgJsonView>,
    ids: Seq<Seq<char>>,
    keep: spec_fn(PkgJsonView) -> bool,
    name: spec_fn(PkgJsonView) -> Seq<char>,
)
    requires
        forall|q: PkgJsonView| #[trigger] keep(q) == ids.contains(q.id),
        forall|q: PkgJsonView| #[trigger] name(q) == q.name,
    ensures
        named_by_id(p, ids) == p.filter(keep).map_values(name),
    decreases p.len(),
{
    reveal(Seq::filter);
    if p.len() > 0 {
        by_id_filter(p.drop_last(), ids, keep, name);
        let before = p.drop_last().filter(keep);
        assert(before.push(p.last()).map_values(name) =~= before.map_values(name).push(p.last().name));
    } else {
        assert(p.filter(keep).map_values(name) =~= Seq::<Seq<char>>::empty());
    }
}

/// What a line that names no package resolves to: all of them if it asks for all, in cargo's order; else
/// the one that is here; else the workspace's default members, in cargo's order, or all if there is none.
pub proof fn unnamed_packages(
    json: MetaJsonView,
    root: Option<Seq<u8>>,
    cwd: Option<Seq<u8>>,
    manifest: Option<Seq<u8>>,
    args: Seq<Seq<char>>,
)
    ensures
        selection_of(args) matches Err(e) ==> loaded(json, root, cwd, manifest, args) == Err::<
            MetaView,
            Seq<char>,
        >(e),
        selection_of(args) == Ok::<PkgView, Seq<char>>(PkgView::Workspace) ==> (loaded(
            json,
            root,
            cwd,
            manifest,
            args,
        ) matches Ok(m) && m.selected == json.packages.map_values(|q: PkgJsonView| q.name)),
        selection_of(args) == Ok::<PkgView, Seq<char>>(PkgView::Default) ==> (loaded(
            json,
            root,
            cwd,
            manifest,
            args,
        ) matches Ok(m) && match (m.at_package, json.workspace_default_members) {
            (Some(name), _) => m.selected == seq![name],
            (None, None) => m.selected == json.packages.map_values(|q: PkgJsonView| q.name),
            (None, Some(ids)) => {
                let named = json.packages.filter(|q: PkgJsonView| ids.contains(q.id)).map_values(
                    |q: PkgJsonView| q.name,
                );
                &&& named.len() > 0 ==> m.selected == named
                &&& named.len() == 0 ==> m.selected == json.packages.map_values(|q: PkgJsonView| q.name)
            },
        }),
{
    let all = package_names(json.packages);
    assert(all =~= json.packages.map_values(|q: PkgJsonView| q.name));
    if let Some(ids) = json.workspace_default_members {
        by_id_filter(
            json.packages,
            ids,
            |q: PkgJsonView| ids.contains(q.id),
            |q: PkgJsonView| q.name,
        );
    }
}

/// What is noted of the place and the line: the workspace's root, whether the line was typed there, and
/// whether it selected packages itself.
pub proof fn what_is_noted_of_the_place(
    json: MetaJsonView,
    root: Option<Seq<u8>>,
    cwd: Option<Seq<u8>>,
    manifest: Option<Seq<u8>>,
    args: Seq<Seq<char>>,
)
    ensures
        loaded(json, root, cwd, manifest, args) matches Ok(m) ==> {
            &&& m.workspace_root == json.workspace_root
            &&& m.is_workspace_root <==> (root matches Some(r) && cwd == Some(r))
            &&& m.explicit_selection <==> selection_of(args) != Ok::<PkgView, Seq<char>>(PkgView::Default)
        },
{
}

proof fn chosen_filter(p: Seq<PkgJsonView>, selected: Seq<Seq<char>>, keep: spec_fn(PkgJsonView) -> bool)
    requires
        forall|q: PkgJsonView| #[trigger] keep(q) == selected.contains(q.name),
    ensures
        chosen(p, selected) == p.filter(keep),
    decreases p.len(),
{
    reveal(Seq::filter);
    if p.len() > 0 {
        chosen_filter(p.drop_last(), selected, keep);
    } else {
        assert(p.filter(keep) =~= Seq::<PkgJsonView>::empty());
    }
}

proof fn targets_filter(
    t: Seq<TgtView>,
    kind: Kind,
    word: Seq<char>,
    keep: spec_fn(TgtView) -> bool,
    name: spec_fn(TgtView) -> Seq<char>,
)
    requires
        kind.spelled() == word,
        forall|x: TgtView| #[trigger] keep(x) == (x.kind.contains(word) && x.crate_types.contains("bin"@)),
        forall|x: TgtView| #[trigger] name(x) == x.name,
    ensures
        target_names(t, kind) == t.filter(keep).map_values(name),
    decreases t.len(),
{
    reveal(Seq::filter);
    if t.len() > 0 {
        targets_filter(t.drop_last(), kind, word, keep, name);
        let before = t.drop_last().filter(keep);
        assert(before.push(t.last()).map_values(name) =~= before.map_values(name).push(t.last().name));
    } else {
        assert(t.filter(keep).map_values(name) =~= Seq::<Seq<char>>::empty());
    }
}

proof fn all_names_flatten(p: Seq<PkgJsonView>, kind: Kind, each: spec_fn(PkgJsonView) -> Seq<Seq<char>>)
    requires
        forall|q: PkgJsonView| #[trigger] each(q) == target_names(q.targets, kind),
    ensures
        all_target_names(p, kind) == p.map_values(each).flatten(),
    decreases p.len(),
{
    let v = p.map_values(each);
    v.lemma_flatten_and_flatten_alt_are_equivalent();
    if p.len() > 0 {
        let w = p.drop_last().map_values(each);
        w.lemma_flatten_and_flatten_alt_are_equivalent();
        all_names_flatten(p.drop_last(), kind, each);
        assert(v.drop_last() =~= w);
        assert(v.last() == each(p.last()));
    }
}

proof fn bins_in_order(json: MetaJsonView, m: MetaView)
    requires
        m.bins == all_target_names(chosen(json.packages, m.selected), Kind::Bin),
    ensures
        m.bins == json.packages.filter(
            |q: PkgJsonView| m.selected.contains(q.name),
        ).map_values(
            |q: PkgJsonView|
                q.targets.filter(
                    |t: TgtView| t.kind.contains("bin"@) && t.crate_types.contains("bin"@),
                ).map_values(|t: TgtView| t.name),
        ).flatten(),
{
    let keep = |q: PkgJsonView| m.selected.contains(q.name);
    let each = |q: PkgJsonView|
        q.targets.filter(
            |t: TgtView| t.kind.contains("bin"@) && t.crate_types.contains("bin"@),
        ).map_values(|t: TgtView| t.name);
    chosen_filter(json.packages, m.selected, keep);
    assert forall|q: PkgJsonView| #[trigger] each(q) == target_names(q.targets, Kind::Bin) by {
        targets_filter(
            q.targets,
            Kind::Bin,
            "bin"@,
            |t: TgtView| t.kind.contains("bin"@) && t.crate_types.contains("bin"@),
            |t: TgtView| t.name,
        );
    }
    all_names_flatten(json.packages.filter(keep), Kind::Bin, each);
}

proof fn examples_in_order(json: MetaJsonView, m: MetaView)
    requires
        m.examples == all_target_names(chosen(json.packages, m.selected), Kind::Example),
    ensures
        m.examples == json.packages.filter(
            |q: PkgJsonView| m.selected.contains(q.name),
        ).map_values(
            |q: PkgJsonView|
                q.targets.filter(
                    |t: TgtView| t.kind.contains("example"@) && t.crate_types.contains("bin"@),
                ).map_values(|t: TgtView| t.name),
        ).flatten(),
{
    let keep = |q: PkgJsonView| m.selected.contains(q.name);
    let each = |q: PkgJsonView|
        q.targets.filter(
            |t: TgtView| t.kind.contains("example"@) && t.crate_types.contains("bin"@),
        ).map_values(|t: TgtView| t.name);
    chosen_filter(json.packages, m.selected, keep);
    assert forall|q: PkgJsonView| #[trigger] each(q) == target_names(q.targets, Kind::Example) by {
        targets_filter(
            q.targets,
            Kind::Example,
            "example"@,
            |t: TgtView| t.kind.contains("example"@) && t.crate_types.contains("bin"@),
            |t: TgtView| t.name,
        );
    }
    all_names_flatten(json.packages.filter(keep), Kind::Example, each);
}

proof fn tests_in_order(json: MetaJsonView, m: MetaView)
    requires
        m.tests == all_target_names(chosen(json.packages, m.selected), Kind::Test),
    ensures
        m.tests == json.packages.filter(
            |q: PkgJsonView| m.selected.contains(q.name),
        ).map_values(
            |q: PkgJsonView|
                q.targets.filter(
                    |t: TgtView| t.kind.contains("test"@) && t.crate_types.contains("bin"@),
                ).map_values(|t: TgtView| t.name),
        ).flatten(),
{
    let keep = |q: PkgJsonView| m.selected.contains(q.name);
    let each = |q: PkgJsonView|
        q.targets.filter(
            |t: TgtView| t.kind.contains("test"@) && t.crate_types.contains("bin"@),
        ).map_values(|t: TgtView| t.name);
    chosen_filter(json.packages, m.selected, keep);
    assert forall|q: PkgJsonView| #[trigger] each(q) == target_names(q.targets, Kind::Test) by {
        targets_filter(
            q.targets,
            Kind::Test,
            "test"@,
            |t: TgtView| t.kind.contains("test"@) && t.crate_types.contains("bin"@),
            |t: TgtView| t.name,
        );
    }
    all_names_flatten(json.packages.filter(keep), Kind::Test, each);
}

proof fn benches_in_order(json: MetaJsonView, m: MetaView)
    requires
        m.benches == all_target_names(chosen(json.packages, m.selected), Kind::Bench),
    ensures
        m.benches == json.packages.filter(
            |q: PkgJsonView| m.selected.contains(q.name),
        ).map_values(
            |q: PkgJsonView|
                q.targets.filter(
                    |t: TgtView| t.kind.contains("bench"@) && t.crate_types.contains("bin"@),
                ).map_values(|t: TgtView| t.name),
        ).flatten(),
{
    let keep = |q: PkgJsonView| m.selected.contains(q.name);
    let each = |q: PkgJsonView|
        q.targets.filter(
            |t: TgtView| t.kind.contains("bench"@) && t.crate_types.contains("bin"@),
        ).map_values(|t: TgtView| t.name);
    chosen_filter(json.packages, m.selected, keep);
    assert forall|q: PkgJsonView| #[trigger] each(q) == target_names(q.targets, Kind::Bench) by {
        targets_filter(
            q.targets,
            Kind::Bench,
            "bench"@,
            |t: TgtView| t.kind.contains("bench"@) && t.crate_types.contains("bin"@),
            |t: TgtView| t.name,
        );
    }
    all_names_flatten(json.packages.filter(keep), Kind::Bench, each);
}

/// The names of the targets of each kind are those of the selected packages' programs of that kind,
/// package by package and target by target in cargo's order; and the default binary is that of the
/// selected package if there is exactly one.
pub proof fn what_is_listed_of_the_targets(
    json: MetaJsonView,
    root: Option<Seq<u8>>,
    cwd: Option<Seq<u8>>,
    manifest: Option<Seq<u8>>,
    args: Seq<Seq<char>>,
)
    ensures
        loaded(json, root, cwd, manifest, args) matches Ok(m) ==> {
            &&& m.bins == json.packages.filter(
                |q: PkgJsonView| m.selected.contains(q.name),
            ).map_values(
                |q: PkgJsonView|
                    q.targets.filter(
                        |t: TgtView| t.kind.contains("bin"@) && t.crate_types.contains("bin"@),
                    ).map_values(|t: TgtView| t.name),
            ).flatten()
            &&& m.examples == json.packages.filter(
                |q: PkgJsonView| m.selected.contains(q.name),
            ).map_values(
                |q: PkgJsonView|
                    q.targets.filter(
                        |t: TgtView| t.kind.contains("example"@) && t.crate_types.contains("bin"@),
                    ).map_values(|t: TgtView| t.name),
            ).flatten()
            &&& m.tests == json.packages.filter(
                |q: PkgJsonView| m.selected.contains(q.name),
            ).map_values(
                |q: PkgJsonView|
                    q.targets.filter(
                        |t: TgtView| t.kind.contains("test"@) && t.crate_types.contains("bin"@),
                    ).map_values(|t: TgtView| t.name),
            ).flatten()
            &&& m.benches == json.packages.filter(
                |q: PkgJsonView| m.selected.contains(q.name),
            ).map_values(
                |q: PkgJsonView|
                    q.targets.filter(
                        |t: TgtView| t.kind.contains("bench"@) && t.crate_types.contains("bin"@),
                    ).map_values(|t: TgtView| t.name),
            ).flatten()
            &&& json.packages.filter(|q: PkgJsonView| m.selected.contains(q.name)).len() == 1
                ==> m.default_run == json.packages.filter(
                |q: PkgJsonView| m.selected.contains(q.name),
            )[0].default_run
            &&& json.packages.filter(|q: PkgJsonView| m.selected.contains(q.name)).len() != 1
                ==> m.default_run is None
        },
{
    if let Ok(m) = loaded(json, root, cwd, manifest, args) {
        bins_in_order(json, m);
        examples_in_order(json, m);
        tests_in_order(json, m);
        benches_in_order(json, m);
        chosen_filter(json.packages, m.selected, |q: PkgJsonView| m.selected.contains(q.name));
    }
}

/// Each list of names is that of its kind.
pub proof fn names_go_by_kind(m: MetaView)
    ensures
        m.of_kind(Kind::Bin) == m.bins,
        m.of_kind(Kind::Example) == m.examples,
        m.of_kind(Kind::Test) == m.tests,
        m.of_kind(Kind::Bench) == m.benches,
{
}

/// One selected package is called by its name, several by all their names between braces.
pub proof fn how_the_selection_is_called(m: MetaView)
    ensures
        m.selected.len() == 1 ==> m.labelled() == m.selected[0],
        m.selected.len() != 1 ==> m.labelled() == "{"@ + joined(m.selected, ", "@) + "}"@,
{
}

/// Names are listed in order, and their absence is said.
pub proof fn how_names_are_listed(names: Seq<Seq<char>>)
    ensures
        names.len() == 0 ==> listing(names) == "(none)"@,
        names.len() > 0 ==> listing(names) == joined(sorted_texts(names), ", "@),
{
}

/// By what a failed report is told to have found no manifest at all.
pub proof fn how_a_missing_manifest_is_told()
    ensures
        no_manifest_text() == "could not find `Cargo.toml`"@,
{
}

} // verus!
