//! What a command line asks for: which cargo command the server runs, what is fetched, what runs
//! here, and what becomes of a failure.
use vstd::prelude::*;
use vstd::string::*;

use crate::flags::{
    own_of, selection_of, take_own_flags, words_after_the_dashes_belong_to_the_program, Own, OwnView,
    PkgView,
};
use crate::globs::{
    a_malformed_glob_does_not_compile, compile_to, compiles, has_backslash, parsed_glob, refused,
    Includes,
};
use crate::meta::{
    loaded, opt_meta, package_here, the_manifest_here_picks_the_package, what_is_noted_of_the_place, Meta,
    MetaJsonView, MetaView,
};
use crate::number::{decimal, digits, number_of, parse_port};
use crate::paths::{project_ok, valid_project};
use crate::plan::{doctest_notice, plan, planned, push_word, Local};
use crate::report::{exit_byte, exit_of};
use crate::text::{
    copy_texts, extend_texts, opt_text, quoted, quoted_text, same, texts, trim, trimmed,
};
use crate::wire::PORT;

verus! {

/// The platform that binaries are built for that run here.
pub const TARGET: &'static str = "x86_64-pc-windows-msvc";

/// What the server is being asked for.
#[derive(Debug, Clone, Copy, PartialEq, Eq, Structural)]
pub enum Mode {
    /// Build for the server's platform and run it there, streaming.
    Exec,
    /// Cross-build, then fetch the binaries the local execution kind calls for.
    Fetch(Local),
    /// Build or check, and bring nothing back.
    Plain,
}

/// A command line, read.
#[derive(Debug)]
pub struct Command {
    /// The subcommand as typed.
    pub sub: String,
    /// The subcommand that the server is asked for.
    pub asked: String,
    pub here: Local,
    pub full: bool,
    pub native: bool,
    pub remote: bool,
    /// Cargo's words.
    pub args: Vec<String>,
    /// The words of the program that is run.
    pub exe_args: Vec<String>,
}

/// The model of a [`Command`].
#[verifier::ext_equal]
pub struct CommandView {
    pub sub: Seq<char>,
    pub asked: Seq<char>,
    pub here: Local,
    pub full: bool,
    pub native: bool,
    pub remote: bool,
    pub args: Seq<Seq<char>>,
    pub exe_args: Seq<Seq<char>>,
}

impl View for Command {
    type V = CommandView;

    open spec fn view(&self) -> CommandView {
        CommandView {
            sub: self.sub@,
            asked: self.asked@,
            here: self.here,
            full: self.full,
            native: self.native,
            remote: self.remote,
            args: texts(self.args@),
            exe_args: texts(self.exe_args@),
        }
    }
}

/// The words without the name that cargo re-passes in front of them. A direct call doesn't.
pub open spec fn without_name(raw: Seq<Seq<char>>) -> Seq<Seq<char>> {
    if raw.len() > 0 && raw[0] == "rbuild"@ {
        raw.skip(1)
    } else {
        raw
    }
}

/// Takes off the name that cargo re-passes.
pub fn drop_name(raw: Vec<String>) -> (r: Vec<String>)
    ensures
        texts(r@) == without_name(texts(raw@)),
{
    let mut raw = raw;
    let ghost t = texts(raw@);
    if raw.len() > 0 && same(raw[0].as_str(), "rbuild") {
        let _ = raw.remove(0);
        assert(texts(raw@) =~= t.skip(1));
    }
    raw
}

/// Whether a subcommand is one that is passed on.
pub open spec fn passes_through(sub: Seq<char>) -> bool {
    ||| sub == "build"@
    ||| sub == "check"@
    ||| sub == "clippy"@
    ||| sub == "test"@
    ||| sub == "bench"@
    ||| sub == "run"@
    ||| sub == "doc"@
}

/// What runs here. Where a program executes is said, never inferred: without `--remote` every
/// subcommand that runs something runs it here, off a fetched binary, whatever kind of target it was
/// built from.
pub open spec fn here_of(sub: Seq<char>, remote: bool) -> Local {
    if remote {
        Local::Nothing
    } else if sub == "run"@ {
        Local::One
    } else if sub == "test"@ || sub == "bench"@ {
        Local::Every
    } else {
        Local::Nothing
    }
}

/// What an unknown subcommand is answered.
pub open spec fn unknown_sub(sub: Seq<char>) -> Seq<char> {
    "unknown subcommand "@ + quoted_text(sub)
}

/// What `--remote` is answered on a subcommand that runs nothing.
pub open spec fn nothing_to_execute(sub: Seq<char>) -> Seq<char> {
    "--remote executes a program, and `cargo "@ + sub
        + "` doesn't run one.\n  To build on the server for its own platform: cargo rbuild "@ + sub
        + " --native"@
}

/// What `--native` is answered on a subcommand that runs something here.
pub open spec fn cannot_execute(sub: Seq<char>) -> Seq<char> {
    "--native builds for the server's platform, which this machine can't execute.\n  To run it there too: cargo rbuild "@
        + sub + " --remote"@
}

/// Where the words of the program begin: at the first `--`, or behind everything.
pub open spec fn dashes_at(words: Seq<Seq<char>>) -> int
    decreases words.len(),
{
    if words.len() == 0 || words[0] == "--"@ {
        0
    } else {
        1 + dashes_at(words.skip(1))
    }
}

/// Cargo's words: those before the first `--`.
pub open spec fn cargo_words(words: Seq<Seq<char>>) -> Seq<Seq<char>> {
    words.take(dashes_at(words))
}

/// The program's words: those behind the first `--`.
pub open spec fn program_words(words: Seq<Seq<char>>) -> Seq<Seq<char>> {
    if dashes_at(words) < words.len() {
        words.skip(dashes_at(words) + 1)
    } else {
        seq![]
    }
}

/// The subcommand that words begin with, which is `build` where there are none.
pub open spec fn sub_of(rest: Seq<Seq<char>>) -> Seq<char> {
    if rest.len() == 0 {
        "build"@
    } else {
        rest[0]
    }
}

/// The words behind the subcommand.
pub open spec fn behind_sub(rest: Seq<Seq<char>>) -> Seq<Seq<char>> {
    if rest.len() == 0 {
        rest
    } else {
        rest.skip(1)
    }
}

/// What the words of a command line ask for, once rbuild's own are taken off.
pub open spec fn asked_for(own: OwnView) -> Result<CommandView, Seq<char>> {
    let sub = sub_of(own.rest);
    let words = behind_sub(own.rest);
    let here = here_of(sub, own.remote);
    if !passes_through(sub) {
        Err(unknown_sub(sub))
    } else if own.remote && !(sub == "run"@ || sub == "test"@ || sub == "bench"@) {
        Err(nothing_to_execute(sub))
    } else if own.native && here != Local::Nothing {
        Err(cannot_execute(sub))
    } else {
        Ok(
            CommandView {
                sub,
                asked: if here != Local::Nothing {
                    "build"@
                } else {
                    sub
                },
                here,
                full: own.full,
                native: own.native,
                remote: own.remote,
                args: cargo_words(words),
                exe_args: program_words(words),
            },
        )
    }
}

proof fn dashes_bound(words: Seq<Seq<char>>)
    ensures
        0 <= dashes_at(words) <= words.len(),
        forall|i: int| 0 <= i < dashes_at(words) ==> #[trigger] words[i] != "--"@,
        dashes_at(words) < words.len() ==> words[dashes_at(words)] == "--"@,
    decreases words.len(),
{
    if words.len() > 0 && words[0] != "--"@ {
        let t = words.skip(1);
        dashes_bound(t);
        assert forall|i: int| 0 <= i < dashes_at(words) implies #[trigger] words[i] != "--"@ by {
            if i > 0 {
                assert(t[i - 1] == words[i]);
            }
        }
    }
}

proof fn dashes_first(words: Seq<Seq<char>>, at: int)
    requires
        0 <= at <= words.len(),
        at < words.len() ==> words[at] == "--"@,
        forall|i: int| 0 <= i < at ==> #[trigger] words[i] != "--"@,
    ensures
        dashes_at(words) == at,
{
    dashes_bound(words);
    let d = dashes_at(words);
    if d < at {
        assert(words[d] == "--"@);
    } else if at < d {
        assert(words[at] != "--"@);
    }
}

/// Splits the program's words off cargo's.
pub fn split_program(words: Vec<String>) -> (r: (Vec<String>, Vec<String>))
    ensures
        texts(r.0@) == cargo_words(texts(words@)),
        texts(r.1@) == program_words(texts(words@)),
{
    let ghost t = texts(words@);
    let mut args: Vec<String> = Vec::new();
    let mut exe_args: Vec<String> = Vec::new();
    let mut i: usize = 0;
    while i < words.len() && !same(words[i].as_str(), "--")
        invariant
            i <= words@.len(),
            t == texts(words@),
            texts(args@) == t.take(i as int),
            forall|j: int| 0 <= j < i ==> #[trigger] t[j] != "--"@,
        decreases words@.len() - i,
    {
        assert(t[i as int] == words@[i as int]@);
        let ghost was = texts(args@);
        args.push(words[i].clone());
        assert(texts(args@) =~= was.push(t[i as int]));
        assert(t.take(i + 1) =~= was.push(t[i as int]));
        i += 1;
    }
    proof {
        if i < words@.len() {
            assert(t[i as int] == words@[i as int]@);
        }
        dashes_first(t, i as int);
    }
    let ghost at = i as int;
    if i < words.len() {
        i += 1;
        assert(texts(exe_args@) =~= t.subrange(at + 1, i as int));
        while i < words.len()
            invariant
                at + 1 <= i <= words@.len(),
                0 <= at,
                t == texts(words@),
                texts(exe_args@) == t.subrange(at + 1, i as int),
            decreases words@.len() - i,
        {
            let ghost was = texts(exe_args@);
            assert(t[i as int] == words@[i as int]@);
            exe_args.push(words[i].clone());
            assert(texts(exe_args@) =~= was.push(t[i as int]));
            assert(t.subrange(at + 1, i + 1) =~= was.push(t[i as int]));
            i += 1;
        }
        assert(t.subrange(at + 1, i as int) =~= t.skip(at + 1));
    } else {
        assert(texts(exe_args@) =~= Seq::<Seq<char>>::empty());
    }
    (args, exe_args)
}

fn is_passed_through(sub: &str) -> (r: bool)
    ensures
        r == passes_through(sub@),
{
    same(sub, "build") || same(sub, "check") || same(sub, "clippy") || same(sub, "test") || same(
        sub,
        "bench",
    ) || same(sub, "run") || same(sub, "doc")
}

/// Reads the words of a command line, once rbuild's own are taken off, and refuses what makes no
/// sense.
pub fn read_command(own: Own) -> (r: Result<Command, String>)
    ensures
        match r {
            Ok(c) => asked_for(own@) == Ok::<CommandView, Seq<char>>(c@),
            Err(e) => asked_for(own@) == Err::<CommandView, Seq<char>>(e@),
        },
{
    let Own { full, native, remote, includes, rest } = own;
    let mut rest = rest;
    let ghost words = texts(rest@);
    let sub = if rest.len() == 0 {
        "build".to_owned()
    } else {
        rest.remove(0)
    };
    assert(texts(rest@) =~= behind_sub(words));
    assert(sub@ == sub_of(words));
    if !is_passed_through(sub.as_str()) {
        let mut e = "unknown subcommand ".to_owned();
        let q = quoted(sub.as_str());
        e.append(q.as_str());
        return Err(e);
    }
    let here = if remote {
        Local::Nothing
    } else if same(sub.as_str(), "run") {
        Local::One
    } else if same(sub.as_str(), "test") || same(sub.as_str(), "bench") {
        // cargo runs every test or bench binary it built, and so do we.
        Local::Every
    } else {
        Local::Nothing
    };
    if remote && !(same(sub.as_str(), "run") || same(sub.as_str(), "test") || same(
        sub.as_str(),
        "bench",
    )) {
        let mut e = "--remote executes a program, and `cargo ".to_owned();
        e.append(sub.as_str());
        e.append(
            "` doesn't run one.\n  To build on the server for its own platform: cargo rbuild ",
        );
        e.append(sub.as_str());
        e.append(" --native");
        return Err(e);
    }
    if native && here != Local::Nothing {
        let mut e =
            "--native builds for the server's platform, which this machine can't execute.\n  To run it there too: cargo rbuild ".to_owned();
        e.append(sub.as_str());
        e.append(" --remote");
        return Err(e);
    }
    // Everything we execute here, we execute ourselves, off the fetched file.
    // The server only ever builds it.
    let asked = if here != Local::Nothing {
        "build".to_owned()
    } else {
        sub.clone()
    };
    let (args, exe_args) = split_program(rest);
    Ok(Command { sub, asked, here, full, native, remote, args, exe_args })
}

/// Reads a whole command line. The globs are compiled before anything connects: a bad one is a usage
/// error, not a sync that dies half way. It is also said before anything else that is wrong with the
/// line, but for an `--include` without a glob.
pub fn command(raw: Vec<String>) -> (r: Result<(Command, Includes), String>)
    ensures
        match own_of(without_name(texts(raw@))) {
            Err(e) => r matches Err(m) && m@ == e,
            Ok(own) => match r {
                Ok((c, i)) => asked_for(own) == Ok::<CommandView, Seq<char>>(c@) && i.wf()
                    && i@.globs == own.includes && compile_to(own.includes, i@.paths),
                Err(m) => refused(own.includes, m@) || (compiles(own.includes) && asked_for(own)
                    == Err::<CommandView, Seq<char>>(m@)),
            },
        },
        own_of(without_name(texts(raw@))) matches Ok(own) ==> forall|k: int|
            0 <= k < own.includes.len() && !has_backslash(#[trigger] own.includes[k]) && parsed_glob(
                own.includes[k],
            ) is Err ==> (r matches Err(m) && refused(own.includes, m@)),
{
    let words = drop_name(raw);
    let own = match take_own_flags(words) {
        Ok(o) => o,
        Err(e) => {
            return Err(e);
        },
    };
    proof {
        let g = own@.includes;
        assert forall|k: int|
            0 <= k < g.len() && !has_backslash(#[trigger] g[k]) && parsed_glob(
                g[k],
            ) is Err implies !compiles(g) by {
            a_malformed_glob_does_not_compile(g, k);
        }
    }
    let globs = copy_texts(&own.includes);
    match Includes::compile(globs) {
        Ok(i) => match read_command(own) {
            Ok(c) => Ok((c, i)),
            Err(e) => Err(e),
        },
        Err(e) => Err(e),
    }
}

/// What a project without a name is answered.
pub open spec fn no_name() -> Seq<char> {
    "cannot derive project name from the workspace root"@
}

/// What a project with a name that cannot be sent is answered.
pub open spec fn bad_name(name: Seq<char>) -> Seq<char> {
    "project name "@ + quoted_text(name) + " has characters I won't send"@
}

/// The project's name, from that of the directory that is synced.
pub fn project_name(name: Option<String>) -> (r: Result<String, String>)
    ensures
        match name {
            None => r matches Err(e) && e@ == no_name(),
            Some(n) => if project_ok(n@) {
                r matches Ok(p) && p@ == n@
            } else {
                r matches Err(e) && e@ == bad_name(n@)
            },
        },
{
    match name {
        None => Err("cannot derive project name from the workspace root".to_owned()),
        Some(n) => if valid_project(n.as_str()) {
            Ok(n)
        } else {
            let mut e = "project name ".to_owned();
            let q = quoted(n.as_str());
            e.append(q.as_str());
            e.append(" has characters I won't send");
            Err(e)
        },
    }
}

/// The package that the server's cargo has to be told: it runs at the synced root, and the directory
/// the command was typed in names one package inside it. Not if the command line already says so.
pub open spec fn told_package(meta: Option<MetaView>) -> Option<Seq<char>> {
    match meta {
        Some(m) => if !m.is_workspace_root && !m.explicit_selection {
            m.at_package
        } else {
            None
        },
        None => None,
    }
}

/// Cargo's words with the package that it has to be told.
pub open spec fn with_package(words: Seq<Seq<char>>, meta: Option<MetaView>) -> Seq<Seq<char>> {
    match told_package(meta) {
        Some(p) => words.push("-p"@).push(p),
        None => words,
    }
}

/// What the server is asked for, and what is done with it.
#[derive(Debug)]
pub struct Job {
    /// The subcommand.
    pub asked: String,
    pub args: Vec<String>,
    /// The platform to build for, unless it is the server's own.
    pub target: Option<String>,
    /// What follows `--` on the server's command line.
    pub trailing: Vec<String>,
    pub mode: Mode,
    /// What is to be said before anything is sent.
    pub notice: Option<String>,
}

/// The model of a [`Job`].
#[verifier::ext_equal]
pub struct JobView {
    pub asked: Seq<char>,
    pub args: Seq<Seq<char>>,
    pub target: Option<Seq<char>>,
    pub trailing: Seq<Seq<char>>,
    pub mode: Mode,
    pub notice: Option<Seq<char>>,
}

impl View for Job {
    type V = JobView;

    open spec fn view(&self) -> JobView {
        JobView {
            asked: self.asked@,
            args: texts(self.args@),
            target: opt_text(self.target),
            trailing: texts(self.trailing@),
            mode: self.mode,
            notice: opt_text(self.notice),
        }
    }
}

impl JobView {
    /// What is fetched was built for a platform that is named.
    pub open spec fn wf(self) -> bool {
        self.mode is Fetch ==> self.target is Some
    }
}

/// Whether a binary comes back: only a cross build leaves behind one that this machine can run.
pub open spec fn fetches(c: CommandView) -> bool {
    !c.remote && !c.native && c.asked == "build"@
}

/// What a command comes to against a manifest.
pub open spec fn job_of(c: CommandView, proj: Seq<char>, meta: Option<MetaView>) -> Result<
    JobView,
    Seq<char>,
> {
    let words = with_package(c.args, meta);
    let plan = planned(proj, c.sub, words, meta);
    let job = JobView {
        asked: c.asked,
        args: if fetches(c) {
            plan.0
        } else {
            words
        },
        target: if c.remote || c.native {
            None
        } else {
            Some(TARGET@)
        },
        trailing: if c.here == Local::Nothing {
            c.exe_args
        } else {
            seq![]
        },
        mode: if c.remote {
            Mode::Exec
        } else if fetches(c) {
            Mode::Fetch(c.here)
        } else {
            Mode::Plain
        },
        notice: if fetches(c) && c.here == Local::Every && c.sub == "test"@ {
            Some(doctest_notice())
        } else {
            None
        },
    };
    if fetches(c) {
        match plan.1 {
            Some(e) => Err(e),
            None => Ok(job),
        }
    } else {
        Ok(job)
    }
}

/// Works out what the server is asked for.
pub fn job(c: &Command, proj: &str, meta: &Option<Meta>) -> (r: Result<Job, String>)
    ensures
        match r {
            Ok(j) => job_of(c@, proj@, opt_meta(*meta)) == Ok::<JobView, Seq<char>>(j@),
            Err(e) => job_of(c@, proj@, opt_meta(*meta)) == Err::<JobView, Seq<char>>(e@),
        },
        r matches Ok(j) ==> j@.wf(),
{
    let mut args = copy_texts(&c.args);
    if let Some(m) = meta {
        if let Some(pkg) = &m.at_package {
            if !m.is_workspace_root && !m.explicit_selection {
                push_word(&mut args, "-p");
                push_word(&mut args, pkg.as_str());
            }
        }
    }
    let ghost words = texts(args@);
    assert(words == with_package(c@.args, opt_meta(*meta)));
    let fetching = !c.remote && !c.native && same(c.asked.as_str(), "build");
    let mut notice: Option<String> = None;
    if fetching {
        match plan(proj, c.sub.as_str(), c.here, &mut args, meta) {
            Ok(n) => {
                notice = n;
            },
            Err(e) => {
                return Err(e);
            },
        }
    }
    // `cargo build -- x` forwards x to rustc, so argv for a program we run here
    // must not ride along with the build. Under --remote the one cargo command
    // both builds and runs, so there it is exactly the program's argv.
    let trailing: Vec<String> = if c.here == Local::Nothing {
        copy_texts(&c.exe_args)
    } else {
        Vec::new()
    };
    let mode = if c.remote {
        Mode::Exec
    } else if fetching {
        Mode::Fetch(c.here)
    } else {
        Mode::Plain
    };
    let target = if c.remote || c.native {
        None
    } else {
        Some(TARGET.to_owned())
    };
    let j = Job { asked: c.asked.clone(), args, target, trailing, mode, notice };
    proof {
        if c.here != Local::Nothing {
            assert(j@.trailing =~= Seq::<Seq<char>>::empty());
        }
        let want = job_of(c@, proj@, opt_meta(*meta));
        assert(want is Ok);
        assert(want->Ok_0 =~= j@);
    }
    Ok(j)
}

/// What becomes of a run that could not be finished with the server.
#[derive(Debug)]
pub enum Fallback {
    /// It fails, with this.
    Fail(String),
    /// It is made up for here, after this has been said.
    Here(String),
}

/// The model of a [`Fallback`].
#[verifier::ext_equal]
pub enum FallbackView {
    Fail(Seq<char>),
    Here(Seq<char>),
}

impl View for Fallback {
    type V = FallbackView;

    open spec fn view(&self) -> FallbackView {
        match self {
            Fallback::Fail(m) => FallbackView::Fail(m@),
            Fallback::Here(m) => FallbackView::Here(m@),
        }
    }
}

/// What becomes of a run that failed on the way. An explicit server mode must not silently fall back
/// to local cargo.
pub open spec fn fallback_of(
    remote: bool,
    native: bool,
    unresolved: bool,
    error: Seq<char>,
) -> FallbackView {
    if remote {
        FallbackView::Fail("remote run: "@ + error)
    } else if native {
        FallbackView::Fail("remote build: "@ + error)
    } else if unresolved {
        FallbackView::Here("[rbuild] can't resolve host, check RBUILD_HOST. Building locally."@)
    } else {
        FallbackView::Here("[rbuild] "@ + error + " \u{2014} building locally"@)
    }
}

/// Decides what becomes of a run that failed on the way. `unresolved` says that the server's name
/// could not be resolved.
pub fn fallback(remote: bool, native: bool, unresolved: bool, error: &str) -> (r: Fallback)
    ensures
        r@ == fallback_of(remote, native, unresolved, error@),
{
    if remote {
        let mut m = "remote run: ".to_owned();
        m.append(error);
        Fallback::Fail(m)
    } else if native {
        let mut m = "remote build: ".to_owned();
        m.append(error);
        Fallback::Fail(m)
    } else if unresolved {
        Fallback::Here(
            "[rbuild] can't resolve host, check RBUILD_HOST. Building locally.".to_owned(),
        )
    } else {
        let mut m = "[rbuild] ".to_owned();
        m.append(error);
        m.append(" \u{2014} building locally");
        Fallback::Here(m)
    }
}

/// The words of plain cargo: with no server to build on, the command means what plain cargo would
/// have made of it, argv and all.
pub open spec fn plain_words(sub: Seq<char>, args: Seq<Seq<char>>, exe_args: Seq<Seq<char>>) -> Seq<
    Seq<char>,
> {
    let words = seq![sub] + args;
    if exe_args.len() == 0 {
        words
    } else {
        words.push("--"@) + exe_args
    }
}

/// The words of plain cargo. `run`, `test` and `bench` build and run in one
/// step here, so nothing needs fetching.
pub fn plain_cargo(sub: &str, args: &Vec<String>, exe_args: &Vec<String>) -> (r: Vec<String>)
    ensures
        texts(r@) == plain_words(sub@, texts(args@), texts(exe_args@)),
{
    let mut words: Vec<String> = Vec::new();
    push_word(&mut words, sub);
    assert(texts(words@) =~= seq![sub@]);
    extend_texts(&mut words, args);
    if exe_args.len() > 0 {
        push_word(&mut words, "--");
        extend_texts(&mut words, exe_args);
    }
    words
}

/// The words that a program is given that runs here. A libtest harness runs its benches only when
/// asked, and cargo asks by appending this. A `harness = false` bench sees it as one more argument,
/// which is what its own arg parsing is already written against.
pub open spec fn argv_of(sub: Seq<char>, exe_args: Seq<Seq<char>>) -> Seq<Seq<char>> {
    if sub == "bench"@ {
        exe_args.push("--bench"@)
    } else {
        exe_args
    }
}

/// The words that a program is given that runs here.
pub fn program_argv(sub: &str, exe_args: &Vec<String>) -> (r: Vec<String>)
    ensures
        texts(r@) == argv_of(sub@, texts(exe_args@)),
{
    let mut argv = copy_texts(exe_args);
    if same(sub, "bench") {
        push_word(&mut argv, "--bench");
    }
    argv
}

/// What comes after the server's cargo has spoken.
#[derive(Debug)]
pub enum After {
    /// The run is over, with this exit code.
    Exit(u8),
    /// The run fails, with this.
    Fail(String),
    /// The binaries that were fetched are run, one after the other. There may be none.
    Run,
}

/// The model of an [`After`].
#[verifier::ext_equal]
pub enum AfterView {
    Exit(int),
    Fail(Seq<char>),
    Run,
}

impl View for After {
    type V = AfterView;

    open spec fn view(&self) -> AfterView {
        match self {
            After::Exit(c) => AfterView::Exit(*c as int),
            After::Fail(m) => AfterView::Fail(m@),
            After::Run => AfterView::Run,
        }
    }
}

/// What comes after a build that ended with `code` and left `fetched` binaries here.
pub open spec fn after_of(code: int, here: Local, fetched: nat) -> AfterView {
    if code != 0 {
        AfterView::Exit(exit_of(code))
    } else {
        match here {
            Local::Nothing => AfterView::Exit(0),
            Local::One => if fetched == 1 {
                AfterView::Run
            } else {
                AfterView::Fail("expected one binary to run, cargo built "@ + digits(fetched))
            },
            Local::Every => AfterView::Run,
        }
    }
}

/// Decides what comes after the server's cargo has spoken. Its verdict stands.
pub fn after_build(code: i32, here: Local, fetched: usize) -> (r: After)
    ensures
        r@ == after_of(code as int, here, fetched as nat),
{
    if code != 0 {
        return After::Exit(exit_byte(Some(code)));
    }
    match here {
        Local::Nothing => After::Exit(0),
        Local::One => if fetched == 1 {
            After::Run
        } else {
            // `plan` pins run to a single target, so cargo cannot have built two.
            let mut m = "expected one binary to run, cargo built ".to_owned();
            let n = decimal(fetched as u64);
            m.append(n.as_str());
            After::Fail(m)
        },
        Local::Every => After::Run,
    }
}

/// What is said where every binary is to be run and there is none.
pub fn idle_notice(here: Local, fetched: usize) -> (r: Option<String>)
    ensures
        opt_text(r) == (if here == Local::Every && fetched == 0 {
            Some("[rbuild] nothing to run"@)
        } else {
            None
        }),
{
    if here == Local::Every && fetched == 0 {
        Some("[rbuild] nothing to run".to_owned())
    } else {
        None
    }
}

/// What is done next with the binaries that were fetched.
#[derive(Debug, Clone, Copy, PartialEq, Eq, Structural)]
pub enum Turn {
    /// The binary with this number is run.
    Run(usize),
    /// That was all, and this is the exit code.
    Done(u8),
}

/// The next turn, once `done` of `count` binaries have run, the last of them with the exit code
/// `last`.
pub open spec fn turn_of(count: usize, done: usize, last: u8) -> Turn {
    if done > 0 && last != 0 {
        Turn::Done(last)
    } else if done < count {
        Turn::Run(done)
    } else {
        Turn::Done(0)
    }
}

/// The next turn, once `done` of `count` binaries have run, the last of them with the exit code
/// `last`. The first that fails ends it.
pub fn next_turn(count: usize, done: usize, last: u8) -> (r: Turn)
    ensures
        r == (if done > 0 && last != 0 {
            Turn::Done(last)
        } else if done < count {
            Turn::Run(done)
        } else {
            Turn::Done(0)
        }),
        r == turn_of(count, done, last),
{
    if done > 0 && last != 0 {
        Turn::Done(last)
    } else if done < count {
        Turn::Run(done)
    } else {
        Turn::Done(0)
    }
}

/// The server's name: what the environment says, or the usual one.
pub fn choose_host(env: Option<String>) -> (r: String)
    ensures
        r@ == (match env {
            Some(h) => h@,
            None => "truenas.lan"@,
        }),
{
    match env {
        Some(h) => h,
        None => "truenas.lan".to_owned(),
    }
}

/// The server's port: the number that the environment gives, or the usual one.
pub open spec fn port_of(env: Option<Seq<char>>) -> u16 {
    match env {
        Some(s) => match number_of(trimmed(s)) {
            Some(n) => if n <= 65535 {
                n as u16
            } else {
                PORT
            },
            None => PORT,
        },
        None => PORT,
    }
}

/// The server's port.
pub fn choose_port(env: Option<String>) -> (r: u16)
    ensures
        r == port_of(opt_text(env)),
{
    match env {
        Some(s) => {
            let t = trim(s.as_str());
            match parse_port(t.as_str()) {
                Some(p) => p,
                None => PORT,
            }
        },
        None => PORT,
    }
}

/// The `CARGO_TERM_COLOR` the server's cargo runs with. A value set here
/// stands; `auto`, or none, is settled against this process's stderr, where
/// cargo's diagnostics land, since the server's cargo writes into a pipe. A
/// piped stderr sends `None`, and cargo, seeing its own pipe, reaches the same
/// answer unless the project's `term.color` says otherwise.
pub open spec fn color_of(env: Option<Seq<char>>, terminal: bool) -> Option<Seq<char>> {
    match env {
        Some(v) => if v != "auto"@ {
            Some(v)
        } else if terminal {
            Some("always"@)
        } else {
            None
        },
        None => if terminal {
            Some("always"@)
        } else {
            None
        },
    }
}

/// The `CARGO_TERM_COLOR` the server's cargo runs with.
pub fn term_color(env: Option<String>, terminal: bool) -> (r: Option<String>)
    ensures
        opt_text(r) == color_of(opt_text(env), terminal),
{
    if let Some(v) = env {
        if !same(v.as_str(), "auto") {
            return Some(v);
        }
    }
    if terminal {
        Some("always".to_owned())
    } else {
        None
    }
}

/// How an error reads on the terminal.
pub fn error_line(message: &str) -> (r: String)
    ensures
        r@ == "[rbuild] error: "@ + message@,
{
    let mut s = "[rbuild] error: ".to_owned();
    s.append(message);
    s
}

/// An explicit server mode never falls back to this machine, whatever went wrong.
pub proof fn a_server_mode_never_falls_back(
    remote: bool,
    native: bool,
    unresolved: bool,
    error: Seq<char>,
)
    ensures
        fallback_of(remote, native, unresolved, error) is Fail <==> remote || native,
{
}

/// A command runs something either here or on the server, and says which: what `--remote` runs is
/// never fetched, and what runs here is built for this machine.
pub proof fn where_a_program_runs_is_said(own: OwnView, proj: Seq<char>, meta: Option<MetaView>)
    ensures
        asked_for(own) matches Ok(c) ==> (job_of(c, proj, meta) matches Ok(j) ==> {
            &&& own.remote ==> j.mode == Mode::Exec && j.target is None && c.here == Local::Nothing
            &&& c.here != Local::Nothing ==> j.mode == Mode::Fetch(c.here) && j.target == Some(
                TARGET@,
            ) && j.trailing.len() == 0 && j.asked == "build"@
            &&& own.native ==> j.target is None && c.here == Local::Nothing && !(j.mode is Fetch)
        }),
{
}

/// Packages that the command line names are all that the server's cargo is told: nothing is added to
/// them for where the line was typed.
pub proof fn an_explicit_selection_is_left_alone(
    json: MetaJsonView,
    root: Option<Seq<u8>>,
    cwd: Option<Seq<u8>>,
    manifest: Option<Seq<u8>>,
    args: Seq<Seq<char>>,
)
    requires
        selection_of(args) matches Ok(sel) && !(sel is Default),
    ensures
        loaded(json, root, cwd, manifest, args) matches Ok(m) ==> with_package(args, Some(m)) == args,
{
}

/// A line without a selection, typed in a package's own directory below the root, means that package:
/// it is the one selected here, and the one that the server's cargo is told.
pub proof fn a_member_directory_means_its_package(
    json: MetaJsonView,
    root: Option<Seq<u8>>,
    cwd: Option<Seq<u8>>,
    manifest: Option<Seq<u8>>,
    args: Seq<Seq<char>>,
)
    requires
        selection_of(args) matches Ok(sel) && sel is Default,
        root is None || root != cwd,
        package_here(json.packages, manifest) is Some,
    ensures
        loaded(json, root, cwd, manifest, args) matches Ok(m) && m.selected == seq![
            package_here(json.packages, manifest)->0,
        ] && with_package(args, Some(m)) == args.push("-p"@).push(
            package_here(json.packages, manifest)->0,
        ),
{
}

/// Words past `--` reach the program that is run as they stand, flags spelled like rbuild's own among
/// them, and change nothing else.
pub proof fn the_program_gets_its_words(pre: Seq<Seq<char>>, tail: Seq<Seq<char>>)
    requires
        forall|i: int| 0 <= i < pre.len() ==> #[trigger] pre[i] != "--"@,
        own_of(pre) matches Ok(o) && o.rest.len() > 0,
    ensures
        own_of(pre + seq!["--"@] + tail) matches Ok(o) && match (
            asked_for(o),
            asked_for(own_of(pre)->Ok_0),
        ) {
            (Ok(c), Ok(d)) => c == (CommandView { exe_args: tail, ..d }),
            (Err(e), Err(f)) => e == f,
            _ => false,
        },
{
    words_after_the_dashes_belong_to_the_program(pre, tail);
    ended_by_dashes(pre);
    no_dashes_before(pre);
    let plain = own_of(pre)->Ok_0;
    let o = own_of(pre + seq!["--"@] + tail)->Ok_0;
    let rest = plain.rest;
    assert(o.rest =~= rest + seq!["--"@] + tail);
    let words = behind_sub(o.rest);
    assert(o.rest[0] == rest[0]);
    assert(words =~= rest.skip(1) + seq!["--"@] + tail);
    let at = rest.len() - 1;
    assert forall|i: int| 0 <= i < at implies #[trigger] words[i] != "--"@ by {
        assert(words[i] == rest[i + 1]);
    }
    dashes_first(words, at as int);
    assert(words.take(at as int) =~= rest.skip(1));
    assert(words.skip(at + 1) =~= tail);
    assert forall|i: int| 0 <= i < at implies #[trigger] rest.skip(1)[i] != "--"@ by {
        assert(rest.skip(1)[i] == rest[i + 1]);
    }
    dashes_first(rest.skip(1), at as int);
    assert(rest.skip(1).take(at as int) =~= rest.skip(1));
    assert(seq![] =~= program_words(rest.skip(1)));
}

proof fn ended_by_dashes(pre: Seq<Seq<char>>)
    requires
        forall|i: int| 0 <= i < pre.len() ==> #[trigger] pre[i] != "--"@,
        own_of(pre) is Ok,
    ensures
        own_of(pre + seq!["--"@]) is Ok,
        own_of(pre + seq!["--"@])->Ok_0 == (OwnView {
            rest: own_of(pre)->Ok_0.rest + seq!["--"@],
            ..own_of(pre)->Ok_0
        }),
    decreases pre.len(),
{
    let long = pre + seq!["--"@];
    if pre.len() == 0 {
        assert(long[0] == "--"@);
        assert(own_of(pre)->Ok_0.rest + seq!["--"@] =~= long);
    } else {
        assert(long[0] == pre[0]);
        assert(long.skip(1) =~= pre.skip(1) + seq!["--"@]);
        if pre[0] == "--include"@ {
            assert(long[1] == pre[1]);
            assert(long.skip(2) =~= pre.skip(2) + seq!["--"@]);
            ended_by_dashes(pre.skip(2));
        } else {
            ended_by_dashes(pre.skip(1));
            let t = own_of(pre.skip(1))->Ok_0;
            assert((seq![pre[0]] + t.rest) + seq!["--"@] =~= seq![pre[0]] + (t.rest + seq!["--"@]));
        }
    }
}

proof fn no_dashes_before(pre: Seq<Seq<char>>)
    requires
        forall|i: int| 0 <= i < pre.len() ==> #[trigger] pre[i] != "--"@,
        own_of(pre) is Ok,
    ensures
        forall|i: int|
            0 <= i < own_of(pre)->Ok_0.rest.len() ==> #[trigger] own_of(pre)->Ok_0.rest[i] != "--"@,
    decreases pre.len(),
{
    if pre.len() > 0 {
        if pre[0] == "--include"@ {
            no_dashes_before(pre.skip(2));
        } else {
            no_dashes_before(pre.skip(1));
            let t = own_of(pre.skip(1))->Ok_0;
            let o = own_of(pre)->Ok_0;
            assert forall|i: int| 0 <= i < o.rest.len() implies #[trigger] o.rest[i] != "--"@ by {
                if o.rest.len() == t.rest.len() {
                    assert(o.rest[i] == t.rest[i]);
                } else if i > 0 {
                    assert(o.rest[i] == t.rest[i - 1]);
                }
            }
        }
    }
}

proof fn subcommands_differ()
    ensures
        "build"@ != "check"@,
        "build"@ != "clippy"@,
        "build"@ != "test"@,
        "build"@ != "bench"@,
        "build"@ != "run"@,
        "build"@ != "doc"@,
        "check"@ != "clippy"@,
        "check"@ != "test"@,
        "check"@ != "bench"@,
        "check"@ != "run"@,
        "check"@ != "doc"@,
        "clippy"@ != "test"@,
        "clippy"@ != "bench"@,
        "clippy"@ != "run"@,
        "clippy"@ != "doc"@,
        "test"@ != "bench"@,
        "test"@ != "run"@,
        "test"@ != "doc"@,
        "bench"@ != "run"@,
        "bench"@ != "doc"@,
        "run"@ != "doc"@,
{
    reveal_strlit("build");
    reveal_strlit("check");
    reveal_strlit("clippy");
    reveal_strlit("test");
    reveal_strlit("bench");
    reveal_strlit("run");
    reveal_strlit("doc");
    assert("build"@.len() == 5 && "build"@[0] == 'b' && "build"@[1] == 'u');
    assert("check"@.len() == 5 && "check"@[0] == 'c' && "check"@[1] == 'h');
    assert("clippy"@.len() == 6 && "clippy"@[0] == 'c' && "clippy"@[1] == 'l');
    assert("test"@.len() == 4 && "test"@[0] == 't' && "test"@[1] == 'e');
    assert("bench"@.len() == 5 && "bench"@[0] == 'b' && "bench"@[1] == 'e');
    assert("run"@.len() == 3 && "run"@[0] == 'r' && "run"@[1] == 'u');
    assert("doc"@.len() == 3 && "doc"@[0] == 'd' && "doc"@[1] == 'o');
}

/// What a line asks for, by its subcommand and rbuild's switches: which subcommands there are, what
/// runs here, what the server is asked for, and what is refused. No subcommand means `build`.
pub proof fn what_a_line_asks_for(own: OwnView, sub: Seq<char>)
    requires
        own.rest.len() == 0 ==> sub == "build"@,
        own.rest.len() > 0 ==> sub == own.rest[0],
    ensures
        ({
            let runs = sub == "run"@ || sub == "test"@ || sub == "bench"@;
            let known = runs || sub == "build"@ || sub == "check"@ || sub == "clippy"@ || sub == "doc"@;
            &&& !known ==> asked_for(own) == Err::<CommandView, Seq<char>>(
                "unknown subcommand "@ + quoted_text(sub),
            )
            &&& known && own.remote && !runs ==> asked_for(own) == Err::<CommandView, Seq<char>>(
                "--remote executes a program, and `cargo "@ + sub
                    + "` doesn't run one.\n  To build on the server for its own platform: cargo rbuild "@ + sub
                    + " --native"@,
            )
            &&& own.native && !own.remote && runs ==> asked_for(own) == Err::<CommandView, Seq<char>>(
                "--native builds for the server's platform, which this machine can't execute.\n  To run it there too: cargo rbuild "@
                    + sub + " --remote"@,
            )
            &&& asked_for(own) is Ok <==> known && (own.remote ==> runs) && (own.native && !own.remote ==> !runs)
            &&& asked_for(own) matches Ok(c) ==> {
                &&& c.sub == sub
                &&& c.full == own.full && c.native == own.native && c.remote == own.remote
                &&& own.remote ==> c.here == Local::Nothing && c.asked == sub
                &&& !own.remote && sub == "run"@ ==> c.here == Local::One && c.asked == "build"@
                &&& !own.remote && (sub == "test"@ || sub == "bench"@) ==> c.here == Local::Every && c.asked
                    == "build"@
                &&& !runs ==> c.here == Local::Nothing && c.asked == sub
            }
        }),
{
    subcommands_differ();
}

/// Words are split at the first `--`, which neither side keeps: those before it are cargo's, those
/// behind it the program's. Without one, all are cargo's.
pub proof fn where_words_are_split(words: Seq<Seq<char>>, at: int)
    requires
        0 <= at <= words.len(),
        at < words.len() ==> words[at] == "--"@,
        forall|i: int| 0 <= i < at ==> #[trigger] words[i] != "--"@,
    ensures
        cargo_words(words) == words.subrange(0, at),
        at < words.len() ==> program_words(words) == words.subrange(at + 1, words.len() as int),
        at == words.len() ==> program_words(words) == Seq::<Seq<char>>::empty(),
{
    dashes_first(words, at);
}

/// The words behind the subcommand are split at the first `--` among them into cargo's and the
/// program's.
pub proof fn whose_words_they_are(own: OwnView, at: int)
    requires
        1 <= at <= own.rest.len(),
        at < own.rest.len() ==> own.rest[at] == "--"@,
        forall|i: int| 1 <= i < at ==> #[trigger] own.rest[i] != "--"@,
    ensures
        asked_for(own) matches Ok(c) ==> {
            &&& c.args == own.rest.subrange(1, at)
            &&& at < own.rest.len() ==> c.exe_args == own.rest.subrange(at + 1, own.rest.len() as int)
            &&& at == own.rest.len() ==> c.exe_args.len() == 0
        },
{
    let words = own.rest.skip(1);
    assert forall|i: int| 0 <= i < at - 1 implies #[trigger] words[i] != "--"@ by {
        assert(own.rest[i + 1] != "--"@);
    }
    dashes_first(words, at - 1);
    assert(words.take(at - 1) =~= own.rest.subrange(1, at));
    assert(at < own.rest.len() ==> words.skip(at) =~= own.rest.subrange(at + 1, own.rest.len() as int));
}

/// An empty line has no words for cargo or a program.
pub proof fn an_empty_line_is_a_build(own: OwnView)
    requires
        own.rest.len() == 0,
    ensures
        asked_for(own) matches Ok(c) ==> c.sub == "build"@ && c.args.len() == 0 && c.exe_args.len() == 0,
{
}

/// The server's cargo is told the package that is here exactly if the line was typed below the root and
/// selects no package itself: its name is put behind what was typed, after a `-p`.
pub proof fn when_the_package_is_told(words: Seq<Seq<char>>, m: MetaView)
    ensures
        !m.is_workspace_root && !m.explicit_selection && m.at_package is Some ==> with_package(words, Some(m))
            == words + seq!["-p"@, m.at_package->0],
        m.is_workspace_root || m.explicit_selection || m.at_package is None ==> with_package(words, Some(m))
            == words,
        with_package(words, None) == words,
{
}

/// A line without a selection, typed below the root in the directory of the package at `i`, the first
/// whose manifest is there: that package is the one selected, and the words end in its name.
pub proof fn the_package_at_hand_is_told_by_name(
    json: MetaJsonView,
    root: Option<Seq<u8>>,
    cwd: Option<Seq<u8>>,
    manifest: Option<Seq<u8>>,
    args: Seq<Seq<char>>,
    i: int,
)
    requires
        selection_of(args) == Ok::<PkgView, Seq<char>>(PkgView::Default),
        root is None || root != cwd,
        0 <= i < json.packages.len(),
        json.packages[i].manifest == manifest,
        forall|j: int| 0 <= j < i ==> (#[trigger] json.packages[j]).manifest != manifest,
    ensures
        loaded(json, root, cwd, manifest, args) matches Ok(m) && m.at_package == Some(json.packages[i].name)
            && m.selected == seq![json.packages[i].name] && with_package(args, Some(m)) == args + seq![
            "-p"@,
            json.packages[i].name,
        ],
{
    the_manifest_here_picks_the_package(json, root, cwd, manifest, args, i);
    what_is_noted_of_the_place(json, root, cwd, manifest, args);
}

/// What the server is asked for. A binary comes back exactly if a build is asked for, for the usual
/// platform; then the words are those that were planned, and the line is refused where the plan is.
/// Otherwise the words go as they are, and nothing is refused.
pub proof fn what_the_server_is_asked_for(c: CommandView, proj: Seq<char>, meta: Option<MetaView>)
    ensures
        ({
            let words = with_package(c.args, meta);
            let back = !c.remote && !c.native && c.asked == "build"@;
            &&& back ==> match planned(proj, c.sub, words, meta).1 {
                Some(e) => job_of(c, proj, meta) == Err::<JobView, Seq<char>>(e),
                None => job_of(c, proj, meta) matches Ok(j) && j.args == planned(proj, c.sub, words, meta).0
                    && j.mode == Mode::Fetch(c.here),
            }
            &&& !back ==> (job_of(c, proj, meta) matches Ok(j) && j.args == words && j.notice is None && j.mode
                == (if c.remote {
                Mode::Exec
            } else {
                Mode::Plain
            }))
            &&& job_of(c, proj, meta) matches Ok(j) ==> {
                &&& j.asked == c.asked
                &&& c.remote || c.native ==> j.target is None
                &&& !c.remote && !c.native ==> j.target == Some("x86_64-pc-windows-msvc"@)
                &&& c.here == Local::Nothing ==> j.trailing == c.exe_args
                &&& c.here != Local::Nothing ==> j.trailing.len() == 0
                &&& back && c.here == Local::Every && c.sub == "test"@ ==> j.notice == Some(
                    "doctests stay on the server. To include them: cargo rbuild test --remote"@,
                )
                &&& c.here != Local::Every || c.sub != "test"@ ==> j.notice is None
            }
        }),
{
}

/// What is said of a run that failed on the way, and whether it is made up for here.
pub proof fn what_is_said_of_a_failure(unresolved: bool, native: bool, error: Seq<char>)
    ensures
        fallback_of(true, native, unresolved, error) == FallbackView::Fail("remote run: "@ + error),
        fallback_of(false, true, unresolved, error) == FallbackView::Fail("remote build: "@ + error),
        fallback_of(false, false, true, error) == FallbackView::Here(
            "[rbuild] can't resolve host, check RBUILD_HOST. Building locally."@,
        ),
        fallback_of(false, false, false, error) == FallbackView::Here(
            "[rbuild] "@ + error + " \u{2014} building locally"@,
        ),
{
}

/// Cargo's command line here is the subcommand, cargo's words and, behind a `--` that stands there only
/// for them, the program's.
pub proof fn how_plain_cargo_is_called(sub: Seq<char>, args: Seq<Seq<char>>, exe_args: Seq<Seq<char>>)
    ensures
        exe_args.len() == 0 ==> plain_words(sub, args, exe_args) == seq![sub] + args,
        exe_args.len() > 0 ==> plain_words(sub, args, exe_args) == seq![sub] + args + seq!["--"@] + exe_args,
        sub != "--"@ && !args.contains("--"@) ==> cargo_words(plain_words(sub, args, exe_args)) == seq![sub]
            + args && program_words(plain_words(sub, args, exe_args)) == exe_args,
{
    let words = plain_words(sub, args, exe_args);
    assert(words =~= if exe_args.len() == 0 {
        seq![sub] + args
    } else {
        seq![sub] + args + seq!["--"@] + exe_args
    });
    if sub != "--"@ && !args.contains("--"@) {
        let at = 1 + args.len() as int;
        assert forall|i: int| 0 <= i < at implies #[trigger] words[i] != "--"@ by {
            if i > 0 {
                assert(words[i] == args[i - 1]);
            }
        }
        dashes_first(words, at);
        assert(words.take(at) =~= seq![sub] + args);
        assert(exe_args.len() > 0 ==> words.skip(at + 1) =~= exe_args);
    }
}

/// A program gets the words that were typed for it, and a bench one more behind them.
pub proof fn what_a_program_is_given(sub: Seq<char>, exe_args: Seq<Seq<char>>)
    ensures
        sub == "bench"@ ==> argv_of(sub, exe_args) == exe_args + seq!["--bench"@],
        sub != "bench"@ ==> argv_of(sub, exe_args) == exe_args,
{
}

/// A failed build ends the run with its code. After one that succeeded, a run goes on with exactly one
/// binary, a test or a bench with as many as there are, and anything else ends well.
pub proof fn what_comes_after_a_build(code: int, here: Local, fetched: nat)
    ensures
        after_of(code, here, fetched) is Run <==> code == 0 && (here == Local::Every || (here == Local::One
            && fetched == 1)),
        code != 0 ==> after_of(code, here, fetched) == AfterView::Exit(exit_of(code)),
        code == 0 && here == Local::Nothing ==> after_of(code, here, fetched) == AfterView::Exit(0),
        code == 0 && here == Local::One && fetched != 1 ==> after_of(code, here, fetched) == AfterView::Fail(
            "expected one binary to run, cargo built "@ + digits(fetched),
        ),
{
}

/// The port is the number that is given, if it is one that a port can have, and the usual one otherwise.
pub proof fn which_port_is_used(env: Option<Seq<char>>)
    ensures
        env is None ==> port_of(env) == 7878,
        env matches Some(s) ==> (number_of(trimmed(s)) is None ==> port_of(env) == 7878),
        env matches Some(s) ==> (number_of(trimmed(s)) matches Some(n) ==> if n <= 65535 {
            port_of(env) as nat == n
        } else {
            port_of(env) == 7878
        }),
{
}

/// A color setting stands unless it is `auto`; without one, cargo is told to use colors exactly if there
/// is a terminal to show them.
pub proof fn which_color_is_asked_for(env: Option<Seq<char>>, terminal: bool)
    ensures
        env matches Some(v) ==> (v != "auto"@ ==> color_of(env, terminal) == Some(v)),
        env is None || env == Some("auto"@) ==> color_of(env, true) == Some("always"@) && color_of(
            env,
            false,
        ) is None,
{
}

/// The name that cargo puts in front is taken off, and no other word.
pub proof fn only_the_name_is_taken_off(raw: Seq<Seq<char>>)
    ensures
        without_name(seq!["rbuild"@] + raw) == raw,
        raw.len() == 0 || raw[0] != "rbuild"@ ==> without_name(raw) == raw,
{
    assert((seq!["rbuild"@] + raw).skip(1) =~= raw);
}

/// What is said of a project whose name cannot be had or cannot be sent.
pub proof fn what_is_said_of_a_bad_name(name: Seq<char>)
    ensures
        no_name() == "cannot derive project name from the workspace root"@,
        bad_name(name) == "project name "@ + quoted_text(name) + " has characters I won't send"@,
{
}

/// Binaries are run one after the other, from the first on: each that succeeds leads to the one behind it,
/// and the end of the last to a good end; the first that fails ends the run with its own code.
pub proof fn binaries_run_until_one_fails(codes: Seq<u8>, last: u8, k: int)
    requires
        0 <= k <= codes.len() <= usize::MAX,
        forall|i: int| 0 <= i < k ==> #[trigger] codes[i] == 0,
    ensures
        codes.len() > 0 ==> turn_of(codes.len() as usize, 0, last) == Turn::Run(0),
        codes.len() == 0 ==> turn_of(0, 0, last) == Turn::Done(0),
        0 < k < codes.len() ==> turn_of(codes.len() as usize, k as usize, codes[k - 1]) == Turn::Run(k as usize),
        0 < k && k == codes.len() ==> turn_of(codes.len() as usize, k as usize, codes[k - 1]) == Turn::Done(0),
        k < codes.len() && codes[k] != 0 ==> turn_of(codes.len() as usize, (k + 1) as usize, codes[k])
            == Turn::Done(codes[k]),
{
    if 0 < k {
        assert(codes[k - 1] == 0);
    }
}

} // verus!
