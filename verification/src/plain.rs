//! The plain client: it builds for one platform, and fetches the one program that is named after the
//! project.
use vstd::prelude::*;
use vstd::string::*;

use crate::command::{
    bad_name, behind_sub, cargo_words, program_words, split_program, sub_of, where_words_are_split, TARGET,
};
use crate::files::{as_map, collect, settles, sync_plan, what_a_sync_sends, Files};
use crate::keys::bytes_or;
use crate::pack::{file_of, unpack_file};
use crate::paths::{project_ok, valid_project};
use crate::report::{exit_byte, exit_of, human, mark, marked, size_text};
use crate::session::{
    copy_headers, nothing_settles_only_alone, Action, ActionView, Event, EventView,
};
use crate::text::{copy_texts, has_text, quoted, same, texts};
use crate::wire::{headers, ClientMsg, ClientView, HeaderView, ServerMsg, ServerView};

verus! {

/// A command line of the plain client, read.
#[derive(Debug)]
pub struct PlainCommand {
    /// The subcommand that cargo is given, here or on the server.
    pub sub: String,
    pub full: bool,
    /// Whether the program runs here once it is built.
    pub run: bool,
    /// Cargo's words.
    pub args: Vec<String>,
    /// The words behind `--`.
    pub exe_args: Vec<String>,
}

/// The model of a [`PlainCommand`].
#[verifier::ext_equal]
pub struct PlainView {
    pub sub: Seq<char>,
    pub full: bool,
    pub run: bool,
    pub args: Seq<Seq<char>>,
    pub exe_args: Seq<Seq<char>>,
}

impl View for PlainCommand {
    type V = PlainView;

    open spec fn view(&self) -> PlainView {
        PlainView {
            sub: self.sub@,
            full: self.full,
            run: self.run,
            args: texts(self.args@),
            exe_args: texts(self.exe_args@),
        }
    }
}

/// The words that are not `--full`.
pub open spec fn without_full(raw: Seq<Seq<char>>) -> Seq<Seq<char>>
    decreases raw.len(),
{
    if raw.len() == 0 {
        seq![]
    } else if raw.last() == "--full"@ {
        without_full(raw.drop_last())
    } else {
        without_full(raw.drop_last()).push(raw.last())
    }
}

/// How a command line of the plain client reads. `cargo run` on a Linux host cross-compiling to
/// Windows would try to exec a PE binary, so `run` is a `build`, and what it built is executed here.
pub open spec fn plain_of(raw: Seq<Seq<char>>) -> PlainView {
    let rest = without_full(raw);
    let run = sub_of(rest) == "run"@;
    PlainView {
        sub: if run {
            "build"@
        } else {
            sub_of(rest)
        },
        full: raw.contains("--full"@),
        run,
        args: cargo_words(behind_sub(rest)),
        exe_args: program_words(behind_sub(rest)),
    }
}

impl PlainView {
    /// Whether the build leaves a program behind.
    pub open spec fn produces(self) -> bool {
        self.sub == "build"@
    }

    /// The directory that cargo puts the program in.
    pub open spec fn profile(self) -> Seq<char> {
        if self.args.contains("--release"@) {
            "release"@
        } else {
            "debug"@
        }
    }

    /// What follows `--` on cargo's command line: a program's words are its own.
    pub open spec fn trailing(self) -> Seq<Seq<char>> {
        if self.produces() {
            seq![]
        } else {
            self.exe_args
        }
    }
}

fn drop_full(raw: &Vec<String>) -> (r: Vec<String>)
    ensures
        texts(r@) == without_full(texts(raw@)),
{
    let mut out: Vec<String> = Vec::new();
    let ghost t = texts(raw@);
    let mut i: usize = 0;
    assert(texts(out@) =~= without_full(t.take(0)));
    while i < raw.len()
        invariant
            i <= raw@.len(),
            t == texts(raw@),
            texts(out@) == without_full(t.take(i as int)),
        decreases raw@.len() - i,
    {
        let ghost was = texts(out@);
        assert(t.take(i + 1).drop_last() =~= t.take(i as int));
        assert(t.take(i + 1).last() == raw@[i as int]@);
        if !same(raw[i].as_str(), "--full") {
            out.push(raw[i].clone());
            assert(texts(out@) =~= was.push(raw@[i as int]@));
        }
        i += 1;
    }
    assert(t.take(i as int) =~= t);
    out
}

/// Reads a command line of the plain client.
pub fn read_plain(raw: Vec<String>) -> (r: PlainCommand)
    ensures
        r@ == plain_of(texts(raw@)),
{
    let full = has_text(&raw, "--full");
    let mut rest = drop_full(&raw);
    let ghost words = texts(rest@);
    let typed = if rest.len() == 0 {
        "build".to_owned()
    } else {
        rest.remove(0)
    };
    assert(texts(rest@) =~= behind_sub(words));
    assert(typed@ == sub_of(words));
    let run = same(typed.as_str(), "run");
    let sub = if run {
        "build".to_owned()
    } else {
        typed
    };
    let (args, exe_args) = split_program(rest);
    PlainCommand { sub, full, run, args, exe_args }
}

impl PlainCommand {
    /// Whether the build leaves a program behind.
    pub fn produces(&self) -> (r: bool)
        ensures
            r == self@.produces(),
    {
        same(self.sub.as_str(), "build")
    }

    /// The directory that cargo puts the program in.
    pub fn profile(&self) -> (r: &'static str)
        ensures
            r@ == self@.profile(),
    {
        if has_text(&self.args, "--release") {
            "release"
        } else {
            "debug"
        }
    }

    /// What follows `--` on cargo's command line, here or on the server.
    pub fn trailing(&self) -> (r: Vec<String>)
        ensures
            texts(r@) == self@.trailing(),
    {
        let words: Vec<String> = if self.produces() {
            Vec::new()
        } else {
            copy_texts(&self.exe_args)
        };
        assert(texts(words@) =~= self@.trailing());
        words
    }

    /// Whether the program of a build that ended here with `code` is put where a fetched one would
    /// be. One that was killed has no code, and left none.
    pub fn puts_in_place(&self, code: Option<i32>) -> (r: bool)
        ensures
            r == (code == Some(0i32) && self@.produces()),
    {
        match code {
            Some(c) => c == 0 && self.produces(),
            None => false,
        }
    }
}

/// The project's name, from that of the directory the command was typed in.
pub fn plain_project(name: Option<String>) -> (r: Result<String, String>)
    ensures
        match name {
            None => r matches Err(e) && e@ == "cannot derive project name from cwd"@,
            Some(n) => if project_ok(n@) {
                r matches Ok(p) && p@ == n@
            } else {
                r matches Err(e) && e@ == bad_name(n@)
            },
        },
{
    match name {
        None => Err("cannot derive project name from cwd".to_owned()),
        Some(n) => if valid_project(n.as_str()) {
            Ok(n)
        } else {
            let mut e = "project name ".to_owned();
            let q = quoted(n.as_str());
            e.append(q.as_str());
            e.append(" has characters I won't send");
            Err(e)
        },
    }
}

/// The program's file name.
pub open spec fn program_file(proj: Seq<char>) -> Seq<char> {
    proj + ".exe"@
}

/// The program's file name.
pub fn program_name(proj: &str) -> (r: String)
    ensures
        r@ == program_file(proj@),
{
    let mut s = proj.to_owned();
    s.append(".exe");
    s
}

/// Where the program is, below the project's builds on the server.
pub open spec fn program_rel(profile: Seq<char>, proj: Seq<char>) -> Seq<char> {
    TARGET@ + "/"@ + profile + "/"@ + program_file(proj)
}

/// What a fetched program is reported as.
pub fn program_line(n: u64, profile: &str, proj: &str) -> (r: String)
    ensures
        r@ == marked(
            size_text(n as nat) + " -> target\\remote\\"@ + profile@ + "\\"@ + program_file(proj@),
        ),
{
    let mut s = human(n);
    s.append(" -> target\\remote\\");
    s.append(profile);
    s.append("\\");
    let p = program_name(proj);
    s.append(p.as_str());
    mark(s.as_str())
}

/// How far a session of the plain client is.
#[derive(Debug)]
pub enum PlainPhase {
    Hello,
    Signing,
    Auth,
    Scanning,
    Manifest(Files),
    Pushing,
    Building,
    /// The program is coming, and this has come of it, packed.
    Fetching(Vec<u8>),
    /// The program is put in its place.
    Keeping,
    Over,
}

/// The model of a [`PlainPhase`].
#[verifier::ext_equal]
pub enum PlainPhaseView {
    Hello,
    Signing,
    Auth,
    Scanning,
    Manifest(Map<Seq<char>, HeaderView>),
    Pushing,
    Building,
    Fetching(Seq<u8>),
    Keeping,
    Over,
}

impl View for PlainPhase {
    type V = PlainPhaseView;

    open spec fn view(&self) -> PlainPhaseView {
        match self {
            PlainPhase::Hello => PlainPhaseView::Hello,
            PlainPhase::Signing => PlainPhaseView::Signing,
            PlainPhase::Auth => PlainPhaseView::Auth,
            PlainPhase::Scanning => PlainPhaseView::Scanning,
            PlainPhase::Manifest(f) => PlainPhaseView::Manifest(f@),
            PlainPhase::Pushing => PlainPhaseView::Pushing,
            PlainPhase::Building => PlainPhaseView::Building,
            PlainPhase::Fetching(packed) => PlainPhaseView::Fetching(packed@),
            PlainPhase::Keeping => PlainPhaseView::Keeping,
            PlainPhase::Over => PlainPhaseView::Over,
        }
    }
}

impl PlainPhase {
    /// The files are in order.
    pub open spec fn wf(&self) -> bool {
        match self {
            PlainPhase::Manifest(f) => f.wf(),
            _ => true,
        }
    }
}

/// What asks the server for the build.
pub open spec fn build_view(c: PlainView, proj: Seq<char>) -> ClientView {
    ClientView::Build {
        project: proj,
        subcommand: c.sub,
        args: c.args,
        target: Some(TARGET@),
        trailing: c.trailing(),
    }
}

/// What starts the build.
pub open spec fn plain_start(c: PlainView, proj: Seq<char>, idle: bool) -> ActionView {
    ActionView::Start { idle, say: None, msg: build_view(c, proj) }
}

/// The end of a session that failed.
pub open spec fn plain_failed(m: Seq<char>) -> (PlainPhaseView, ActionView) {
    (PlainPhaseView::Over, ActionView::Fail(m))
}

/// Whether a tree and what the server has of it lead to a phase and an action.
pub open spec fn plain_syncs(
    c: PlainView,
    proj: Seq<char>,
    local: Map<Seq<char>, HeaderView>,
    remote: Map<Seq<char>, HeaderView>,
    next: PlainPhaseView,
    act: ActionView,
) -> bool {
    if settles(local, remote, false, seq![], seq![]) {
        next is Building && act == plain_start(c, proj, true)
    } else {
        &&& next is Pushing
        &&& act matches ActionView::Push(msg, files)
        &&& msg matches ClientView::Push { project, deletes, files: sent }
        &&& project == proj && sent == files
        &&& settles(local, remote, false, files, deletes)
    }
}

/// What a message leads to while cargo is running.
pub open spec fn plain_hears_cargo(c: PlainView, proj: Seq<char>, msg: ServerView) -> (
    PlainPhaseView,
    ActionView,
) {
    match msg {
        ServerView::Output(data) => (
            PlainPhaseView::Building,
            ActionView::Write { err: true, data },
        ),
        // cargo has spoken. Its verdict stands: rebuilding locally would only
        // reprint the same errors, slower.
        ServerView::Exit(code) => if code == 0 && c.produces() {
            (
                PlainPhaseView::Fetching(seq![]),
                ActionView::Fetch(
                    ClientView::Fetch { project: proj, rel: program_rel(c.profile(), proj) },
                    program_file(proj),
                ),
            )
        } else {
            (PlainPhaseView::Over, ActionView::Finish(code as int))
        },
        ServerView::Error(m) => plain_failed(m),
        _ => plain_failed("unexpected message during build"@),
    }
}

/// What a program that has come leads to, unpacked or not.
pub open spec fn program_has_come(wire: nat, raw: int, file: Result<Seq<u8>, Seq<char>>) -> (
    PlainPhaseView,
    ActionView,
) {
    match file {
        Ok(data) => (
            PlainPhaseView::Keeping,
            ActionView::Keep { wire: wire as int, raw, data },
        ),
        Err(m) => plain_failed(m),
    }
}

/// What a message leads to while the program is coming.
pub open spec fn plain_hears_data(packed: Seq<u8>, msg: ServerView) -> (PlainPhaseView, ActionView) {
    match msg {
        ServerView::Data(d) => (PlainPhaseView::Fetching(packed + d), ActionView::Listen),
        ServerView::DataEnd { raw } => program_has_come(packed.len(), raw as int, file_of(packed)),
        ServerView::Error(m) => plain_failed("fetch: "@ + m),
        _ => plain_failed("unexpected message during fetch"@),
    }
}

/// Whether a phase and an event lead to a phase and an action. A full run does not ask what the
/// server has: it sends everything, and deletes nothing.
pub open spec fn plain_leads(
    c: PlainView,
    proj: Seq<char>,
    p: PlainPhaseView,
    ev: EventView,
    next: PlainPhaseView,
    act: ActionView,
) -> bool {
    match (p, ev) {
        (PlainPhaseView::Hello, EventView::Heard(m)) => match m {
            ServerView::Hello { nonce, host_pubkey } => next is Signing && act == (
            ActionView::Greet { nonce, host_pubkey }),
            _ => (next, act) == plain_failed("expected Hello"@),
        },
        (PlainPhaseView::Signing, EventView::Signed(r)) => match r {
            Ok(m) => next is Auth && act == ActionView::Send(m),
            Err(m) => (next, act) == plain_failed(m),
        },
        (PlainPhaseView::Auth, EventView::Heard(m)) => match m {
            ServerView::AuthOk => next is Scanning && act is Walk,
            ServerView::Error(m) => (next, act) == plain_failed("auth: "@ + m),
            _ => (next, act) == plain_failed("expected AuthOk"@),
        },
        (PlainPhaseView::Scanning, EventView::Scanned(files, _)) => if c.full {
            plain_syncs(c, proj, files, Map::empty(), next, act)
        } else {
            &&& next == PlainPhaseView::Manifest(files)
            &&& act == ActionView::Ask(None, ClientView::Manifest { project: proj })
        },
        (PlainPhaseView::Manifest(local), EventView::Heard(m)) => match m {
            ServerView::Manifest(v) => plain_syncs(c, proj, local, as_map(v), next, act),
            ServerView::Error(m) => (next, act) == plain_failed(m),
            _ => (next, act) == plain_failed("expected Manifest"@),
        },
        (PlainPhaseView::Pushing, EventView::Heard(m)) => match m {
            ServerView::PushOk { .. } => next is Building && act == plain_start(c, proj, false),
            ServerView::Error(m) => (next, act) == plain_failed(m),
            _ => (next, act) == plain_failed("expected PushOk"@),
        },
        (PlainPhaseView::Building, EventView::Heard(m)) => (next, act) == plain_hears_cargo(c, proj, m),
        (PlainPhaseView::Fetching(packed), EventView::Heard(m)) => (next, act) == plain_hears_data(
            packed,
            m,
        ),
        (PlainPhaseView::Keeping, EventView::Kept) => next is Over && act == ActionView::Finish(0),
        _ => (next, act) == plain_failed("out of turn"@),
    }
}

fn fail(m: &str) -> (r: (PlainPhase, Action))
    ensures
        (r.0@, r.1@) == plain_failed(m@),
        r.0.wf(),
{
    (PlainPhase::Over, Action::Fail(m.to_owned()))
}

fn start(c: &PlainCommand, proj: &str, idle: bool) -> (r: Action)
    ensures
        r@ == plain_start(c@, proj@, idle),
{
    let msg = ClientMsg::Build {
        project: proj.to_owned(),
        subcommand: c.sub.clone(),
        args: copy_texts(&c.args),
        target: Some(TARGET.to_owned()),
        trailing: c.trailing(),
    };
    Action::Start { idle, say: None, msg }
}

fn sync(c: &PlainCommand, proj: &str, local: &Files, remote: &Files) -> (r: (PlainPhase, Action))
    requires
        local.wf(),
        remote.wf(),
    ensures
        plain_syncs(c@, proj@, local@, remote@, r.0@, r.1@),
        r.0.wf(),
{
    let plan = sync_plan(local, remote, false);
    proof {
        nothing_settles_only_alone(
            local@,
            remote@,
            false,
            headers(plan.upload@),
            texts(plan.deletes@),
        );
    }
    if plan.upload.len() == 0 && plan.deletes.len() == 0 {
        return (PlainPhase::Building, start(c, proj, true));
    }
    let files = copy_headers(&plan.upload);
    let msg = ClientMsg::Push {
        project: proj.to_owned(),
        deletes: plan.deletes,
        files: plan.upload,
    };
    (PlainPhase::Pushing, Action::Push(msg, files))
}

fn hears_build(c: &PlainCommand, proj: &str, msg: ServerMsg) -> (r: (PlainPhase, Action))
    ensures
        (r.0@, r.1@) == plain_hears_cargo(c@, proj@, msg@),
        r.0.wf(),
{
    match msg {
        ServerMsg::Output(data) => (PlainPhase::Building, Action::Write { err: true, data }),
        ServerMsg::Exit(code) => if code == 0 && c.produces() {
            let to = program_name(proj);
            let mut rel = TARGET.to_owned();
            rel.append("/");
            rel.append(c.profile());
            rel.append("/");
            rel.append(to.as_str());
            let msg = ClientMsg::Fetch { project: proj.to_owned(), rel };
            let nothing: Vec<u8> = Vec::new();
            assert(nothing@ =~= Seq::<u8>::empty());
            (PlainPhase::Fetching(nothing), Action::Fetch(msg, to))
        } else {
            (PlainPhase::Over, Action::Finish(code))
        },
        ServerMsg::Error(m) => fail(m.as_str()),
        _ => fail("unexpected message during build"),
    }
}

/// What a program that has come leads to, unpacked or not.
pub fn program_arrived(wire: usize, raw: u64, file: Result<Vec<u8>, String>) -> (r: (
    PlainPhase,
    Action,
))
    ensures
        (r.0@, r.1@) == program_has_come(wire as nat, raw as int, bytes_or(file)),
        r.0.wf(),
{
    match file {
        Ok(data) => (PlainPhase::Keeping, Action::Keep { wire: wire as u64, raw, data }),
        Err(m) => fail(m.as_str()),
    }
}

fn hears_fetch(packed: Vec<u8>, msg: ServerMsg) -> (r: (PlainPhase, Action))
    ensures
        (r.0@, r.1@) == plain_hears_data(packed@, msg@),
        r.0.wf(),
{
    match msg {
        ServerMsg::Data(d) => {
            let mut all = packed;
            all.extend_from_slice(d.as_slice());
            assert(all@ =~= packed@ + d@);
            (PlainPhase::Fetching(all), Action::Listen)
        },
        ServerMsg::DataEnd { raw } => {
            let file = unpack_file(&packed);
            program_arrived(packed.len(), raw, file)
        },
        ServerMsg::Error(m) => {
            let mut s = "fetch: ".to_owned();
            s.append(m.as_str());
            fail(s.as_str())
        },
        _ => fail("unexpected message during fetch"),
    }
}

/// The next step of a session of the plain client.
pub fn plain_step(c: &PlainCommand, proj: &str, p: PlainPhase, ev: Event) -> (r: (
    PlainPhase,
    Action,
))
    requires
        p.wf(),
        ev.wf(),
    ensures
        plain_leads(c@, proj@, p@, ev@, r.0@, r.1@),
        r.0.wf(),
{
    match (p, ev) {
        (PlainPhase::Hello, Event::Heard(m)) => match m {
            ServerMsg::Hello { nonce, host_pubkey } => (
                PlainPhase::Signing,
                Action::Greet { nonce, host_pubkey },
            ),
            _ => fail("expected Hello"),
        },
        (PlainPhase::Signing, Event::Signed(s)) => match s {
            Ok(m) => (PlainPhase::Auth, Action::Send(m)),
            Err(m) => fail(m.as_str()),
        },
        (PlainPhase::Auth, Event::Heard(m)) => match m {
            ServerMsg::AuthOk => (PlainPhase::Scanning, Action::Walk),
            ServerMsg::Error(m) => {
                let mut s = "auth: ".to_owned();
                s.append(m.as_str());
                fail(s.as_str())
            },
            _ => fail("expected AuthOk"),
        },
        (PlainPhase::Scanning, Event::Scanned(s)) => if c.full {
            let nothing = Files::new();
            sync(c, proj, &s.files, &nothing)
        } else {
            let msg = ClientMsg::Manifest { project: proj.to_owned() };
            (PlainPhase::Manifest(s.files), Action::Ask(None, msg))
        },
        (PlainPhase::Manifest(local), Event::Heard(m)) => match m {
            ServerMsg::Manifest(v) => {
                let remote = collect(&v);
                sync(c, proj, &local, &remote)
            },
            ServerMsg::Error(m) => fail(m.as_str()),
            _ => fail("expected Manifest"),
        },
        (PlainPhase::Pushing, Event::Heard(m)) => match m {
            ServerMsg::PushOk { received: _ } => (PlainPhase::Building, start(c, proj, false)),
            ServerMsg::Error(m) => fail(m.as_str()),
            _ => fail("expected PushOk"),
        },
        (PlainPhase::Building, Event::Heard(m)) => hears_build(c, proj, m),
        (PlainPhase::Fetching(packed), Event::Heard(m)) => hears_fetch(packed, m),
        (PlainPhase::Keeping, Event::Kept) => (PlainPhase::Over, Action::Finish(0)),
        _ => fail("out of turn"),
    }
}

/// What comes after a build that ended with `code`, here or on the server.
#[derive(Debug, Clone, Copy, PartialEq, Eq, Structural)]
pub enum PlainAfter {
    /// The run is over, with this exit code.
    Exit(u8),
    /// The program is run.
    Run,
}

/// Decides what comes after a build that ended with `code`. One that was killed has none, and
/// failed.
pub fn plain_after(c: &PlainCommand, code: Option<i32>) -> (r: PlainAfter)
    ensures
        ({
            let n = match code {
                Some(n) => n as int,
                None => 1,
            };
            match r {
                PlainAfter::Exit(e) => e == exit_of(n) && (n != 0 || !c@.run),
                PlainAfter::Run => n == 0 && c@.run,
            }
        }),
        r == PlainAfter::Run <==> code == Some(0i32) && c@.run,
        code == Some(0i32) && !c@.run ==> r == PlainAfter::Exit(0),
        code is None ==> r == PlainAfter::Exit(1),
        code matches Some(n) ==> (0 < n <= 255 ==> r == PlainAfter::Exit(n as u8)),
{
    let n: i32 = match code {
        Some(n) => n,
        None => 1,
    };
    if n == 0 && c.run {
        PlainAfter::Run
    } else {
        PlainAfter::Exit(exit_byte(Some(n)))
    }
}

/// A `run` is a build: the program's words stay here, and the program that the build leaves is
/// fetched.
pub proof fn a_run_is_a_build_whose_program_is_fetched(raw: Seq<Seq<char>>, proj: Seq<char>)
    ensures
        plain_of(raw).run ==> plain_of(raw).produces() && plain_of(raw).trailing().len() == 0
            && plain_hears_cargo(plain_of(raw), proj, ServerView::Exit(0)) == (
            PlainPhaseView::Fetching(seq![]),
            ActionView::Fetch(
                ClientView::Fetch {
                    project: proj,
                    rel: program_rel(plain_of(raw).profile(), proj),
                },
                program_file(proj),
            ),
        ),
{
}

/// A line of the plain client is read without its `--full`s, wherever they stand; what is left is the
/// subcommand, `build` if there is none, and its words.
pub proof fn how_a_plain_line_reads(raw: Seq<Seq<char>>, words: Seq<Seq<char>>)
    requires
        words == raw.filter(|w: Seq<char>| w != "--full"@),
    ensures
        plain_of(raw).full <==> exists|i: int| 0 <= i < raw.len() && #[trigger] raw[i] == "--full"@,
        words.len() == 0 ==> plain_of(raw).sub == "build"@ && !plain_of(raw).run && plain_of(raw).args.len()
            == 0 && plain_of(raw).exe_args.len() == 0,
        words.len() > 0 && words[0] == "run"@ ==> plain_of(raw).sub == "build"@ && plain_of(raw).run,
        words.len() > 0 && words[0] != "run"@ ==> plain_of(raw).sub == words[0] && !plain_of(raw).run,
{
    full_is_filtered(raw, |w: Seq<char>| w != "--full"@);
    reveal_strlit("build");
    reveal_strlit("run");
    assert("build"@.len() == 5 && "run"@.len() == 3);
}

proof fn full_is_filtered(raw: Seq<Seq<char>>, keep: spec_fn(Seq<char>) -> bool)
    requires
        forall|w: Seq<char>| #[trigger] keep(w) == (w != "--full"@),
    ensures
        without_full(raw) == raw.filter(keep),
    decreases raw.len(),
{
    reveal(Seq::filter);
    if raw.len() > 0 {
        full_is_filtered(raw.drop_last(), keep);
    } else {
        assert(raw.filter(keep) =~= Seq::<Seq<char>>::empty());
    }
}

/// The words behind the subcommand are split at the first `--` among them: cargo gets those before it,
/// and the program those behind it.
pub proof fn whose_plain_words_they_are(raw: Seq<Seq<char>>, words: Seq<Seq<char>>, at: int)
    requires
        words == raw.filter(|w: Seq<char>| w != "--full"@),
        1 <= at <= words.len(),
        at < words.len() ==> words[at] == "--"@,
        forall|i: int| 1 <= i < at ==> #[trigger] words[i] != "--"@,
    ensures
        plain_of(raw).args == words.subrange(1, at),
        at < words.len() ==> plain_of(raw).exe_args == words.subrange(at + 1, words.len() as int),
        at == words.len() ==> plain_of(raw).exe_args.len() == 0,
{
    full_is_filtered(raw, |w: Seq<char>| w != "--full"@);
    let rest = words.skip(1);
    assert forall|i: int| 0 <= i < at - 1 implies #[trigger] rest[i] != "--"@ by {
        assert(words[i + 1] != "--"@);
    }
    where_words_are_split(rest, at - 1);
    assert(rest.subrange(0, at - 1) =~= words.subrange(1, at));
    assert(at < words.len() ==> rest.subrange(at, rest.len() as int) =~= words.subrange(
        at + 1,
        words.len() as int,
    ));
}

/// After a build that succeeded, the program is fetched from where cargo puts it: below the platform, in
/// `release` if cargo was given `--release` and in `debug` otherwise, under the project's name. A build
/// that failed, or a command that leaves no program, ends the session with cargo's exit code.
pub proof fn where_the_program_is_fetched_from(
    c: PlainView,
    proj: Seq<char>,
    code: i32,
    next: PlainPhaseView,
    act: ActionView,
)
    requires
        plain_leads(c, proj, PlainPhaseView::Building, EventView::Heard(ServerView::Exit(code)), next, act),
    ensures
        code == 0 && c.sub == "build"@ && c.args.contains("--release"@) ==> next == PlainPhaseView::Fetching(
            seq![],
        ) && act == ActionView::Fetch(
            ClientView::Fetch {
                project: proj,
                rel: "x86_64-pc-windows-msvc/release/"@ + proj + ".exe"@,
            },
            proj + ".exe"@,
        ),
        code == 0 && c.sub == "build"@ && !c.args.contains("--release"@) ==> next == PlainPhaseView::Fetching(
            seq![],
        ) && act == ActionView::Fetch(
            ClientView::Fetch {
                project: proj,
                rel: "x86_64-pc-windows-msvc/debug/"@ + proj + ".exe"@,
            },
            proj + ".exe"@,
        ),
        code != 0 || c.sub != "build"@ ==> next == PlainPhaseView::Over && act == ActionView::Finish(
            code as int,
        ),
{
    reveal_strlit("x86_64-pc-windows-msvc");
    reveal_strlit("/");
    reveal_strlit("release");
    reveal_strlit("debug");
    reveal_strlit("x86_64-pc-windows-msvc/release/");
    reveal_strlit("x86_64-pc-windows-msvc/debug/");
    assert("x86_64-pc-windows-msvc"@ + "/"@ + "release"@ + "/"@ =~= "x86_64-pc-windows-msvc/release/"@);
    assert("x86_64-pc-windows-msvc"@ + "/"@ + "debug"@ + "/"@ =~= "x86_64-pc-windows-msvc/debug/"@);
    assert("x86_64-pc-windows-msvc"@ + "/"@ + "release"@ + "/"@ + (proj + ".exe"@) =~= "x86_64-pc-windows-msvc/release/"@ + proj
        + ".exe"@);
    assert("x86_64-pc-windows-msvc"@ + "/"@ + "debug"@ + "/"@ + (proj + ".exe"@) =~= "x86_64-pc-windows-msvc/debug/"@ + proj
        + ".exe"@);
}

/// How a session of the plain client opens, up to the scan of this tree.
pub proof fn how_a_plain_session_opens(
    c: PlainView,
    proj: Seq<char>,
    p: PlainPhaseView,
    ev: EventView,
    next: PlainPhaseView,
    act: ActionView,
)
    requires
        plain_leads(c, proj, p, ev, next, act),
    ensures
        p is Hello ==> (ev matches EventView::Heard(m) ==> match m {
            ServerView::Hello { nonce, host_pubkey } => next == PlainPhaseView::Signing && act
                == (ActionView::Greet { nonce, host_pubkey }),
            _ => next == PlainPhaseView::Over && act == ActionView::Fail("expected Hello"@),
        }),
        p is Signing ==> (ev matches EventView::Signed(r) ==> match r {
            Ok(m) => next == PlainPhaseView::Auth && act == ActionView::Send(m),
            Err(m) => next == PlainPhaseView::Over && act == ActionView::Fail(m),
        }),
        p is Auth ==> (ev matches EventView::Heard(m) ==> match m {
            ServerView::AuthOk => next == PlainPhaseView::Scanning && act == ActionView::Walk,
            ServerView::Error(x) => next == PlainPhaseView::Over && act == ActionView::Fail("auth: "@ + x),
            _ => next == PlainPhaseView::Over && act == ActionView::Fail("expected AuthOk"@),
        }),
        p is Scanning && !c.full ==> (ev matches EventView::Scanned(files, unmatched) ==> next
            == PlainPhaseView::Manifest(files) && act == ActionView::Ask(
            None,
            ClientView::Manifest { project: proj },
        )),
        p is Manifest ==> (ev matches EventView::Heard(m) ==> {
            &&& m matches ServerView::Error(x) ==> next == PlainPhaseView::Over && act == ActionView::Fail(x)
            &&& !(m is Error) && !(m is Manifest) ==> next
                == PlainPhaseView::Over && act == ActionView::Fail("expected Manifest"@)
        }),
        p is Over ==> next == PlainPhaseView::Over && act == ActionView::Fail("out of turn"@),
        !(ev is Heard) && (p is Hello || p is Auth || p is Manifest || p is Pushing || p is Building
            || p is Fetching) ==> next == PlainPhaseView::Over && act == ActionView::Fail("out of turn"@),
        !(ev is Signed) && p is Signing ==> next
            == PlainPhaseView::Over && act == ActionView::Fail("out of turn"@),
        !(ev is Scanned) && p is Scanning ==> next
            == PlainPhaseView::Over && act == ActionView::Fail("out of turn"@),
        !(ev is Kept) && p is Keeping ==> next
            == PlainPhaseView::Over && act == ActionView::Fail("out of turn"@),
{
}

/// What the plain client sends: against what the server has, each file that is not there, or is of
/// another size, or more than a second apart; in a full run every file. What is there but not here is
/// deleted, except in a full run, which does not ask. If nothing is to be sent or deleted, the build
/// starts at once.
pub proof fn what_a_plain_sync_sends(
    c: PlainView,
    proj: Seq<char>,
    p: PlainPhaseView,
    ev: EventView,
    next: PlainPhaseView,
    act: ActionView,
    local: Map<Seq<char>, HeaderView>,
    there: Map<Seq<char>, HeaderView>,
)
    requires
        plain_leads(c, proj, p, ev, next, act),
        forall|q: Seq<char>| #[trigger] local.contains_key(q) ==> local[q].path == q,
        ({
            ||| p is Scanning && c.full && there == Map::<Seq<char>, HeaderView>::empty() && (
            ev matches EventView::Scanned(files, _) && files == local)
            ||| p == PlainPhaseView::Manifest(local) && (ev matches EventView::Heard(ServerView::Manifest(v))
                && there == as_map(v))
        }),
    ensures
        ({
            let same = (forall|q: Seq<char>| #[trigger] local.contains_key(q) <==> there.contains_key(q)) && (
            forall|q: Seq<char>| #[trigger]
                local.contains_key(q) ==> there[q].size == local[q].size && -1 <= there[q].mtime
                    - local[q].mtime <= 1);
            &&& act is Start <==> same
            &&& act is Push <==> !same
            &&& act matches ActionView::Start { idle, say, msg } ==> idle && next == PlainPhaseView::Building
            &&& act matches ActionView::Push(m, files) ==> {
                &&& next == PlainPhaseView::Pushing
                &&& m matches ClientView::Push { project, deletes, files: sent }
                &&& project == proj && sent == files
                &&& forall|q: Seq<char>| #[trigger]
                    deletes.contains(q) <==> there.contains_key(q) && !local.contains_key(q)
                &&& forall|h: HeaderView| #[trigger]
                    files.contains(h) ==> local.contains_key(h.path) && local[h.path] == h
                &&& forall|q: Seq<char>| #[trigger]
                    local.contains_key(q) ==> (files.contains(local[q]) <==> !there.contains_key(q)
                        || there[q].size != local[q].size || there[q].mtime > local[q].mtime + 1
                        || local[q].mtime > there[q].mtime + 1)
            }
        }),
{
    let none = Seq::<HeaderView>::empty();
    let nothing = Seq::<Seq<char>>::empty();
    let same = (forall|q: Seq<char>| #[trigger] local.contains_key(q) <==> there.contains_key(q)) && (
    forall|q: Seq<char>| #[trigger]
        local.contains_key(q) ==> there[q].size == local[q].size && -1 <= there[q].mtime
            - local[q].mtime <= 1);
    assert(plain_syncs(c, proj, local, there, next, act));
    if settles(local, there, false, none, nothing) {
        assert forall|q: Seq<char>| #[trigger] local.contains_key(q) <==> there.contains_key(q) by {
            what_a_sync_sends(local, there, false, none, nothing, q);
            assert(!nothing.contains(q));
            if local.contains_key(q) {
                assert(!none.contains(local[q]));
            }
        }
        assert forall|q: Seq<char>| #[trigger] local.contains_key(q) implies there[q].size == local[q].size
            && -1 <= there[q].mtime - local[q].mtime <= 1 by {
            what_a_sync_sends(local, there, false, none, nothing, q);
            assert(!none.contains(local[q]));
        }
    }
    if same {
        assert(settles(local, there, false, none, nothing));
    }
    if let ActionView::Push(m, files) = act {
        if let ClientView::Push { project, deletes, files: sent } = m {
            assert forall|q: Seq<char>| #[trigger]
                deletes.contains(q) <==> there.contains_key(q) && !local.contains_key(q) by {
                what_a_sync_sends(local, there, false, files, deletes, q);
            }
            assert forall|h: HeaderView| #[trigger] files.contains(h) implies local.contains_key(h.path)
                && local[h.path] == h by {
                what_a_sync_sends(local, there, false, files, deletes, h.path);
            }
            assert forall|q: Seq<char>| #[trigger] local.contains_key(q) implies (files.contains(local[q])
                <==> !there.contains_key(q) || there[q].size != local[q].size || there[q].mtime
                > local[q].mtime + 1 || local[q].mtime > there[q].mtime + 1) by {
                what_a_sync_sends(local, there, false, files, deletes, q);
            }
        }
    }
}

/// What starts the build on the server: cargo's words for the usual platform, with a program's words
/// behind them only where the server's cargo runs it.
pub proof fn how_a_plain_build_is_started(
    c: PlainView,
    proj: Seq<char>,
    p: PlainPhaseView,
    ev: EventView,
    next: PlainPhaseView,
    idle: bool,
    say: Option<Seq<char>>,
    msg: ClientView,
)
    requires
        plain_leads(c, proj, p, ev, next, ActionView::Start { idle, say, msg }),
    ensures
        next == PlainPhaseView::Building,
        say is None,
        idle <==> !(p is Pushing),
        c.sub == "build"@ ==> msg == (ClientView::Build {
            project: proj,
            subcommand: c.sub,
            args: c.args,
            target: Some("x86_64-pc-windows-msvc"@),
            trailing: seq![],
        }),
        c.sub != "build"@ ==> msg == (ClientView::Build {
            project: proj,
            subcommand: c.sub,
            args: c.args,
            target: Some("x86_64-pc-windows-msvc"@),
            trailing: c.exe_args,
        }),
{
}

/// What a confirmed push, cargo's output and the pieces of the program lead to.
pub proof fn how_a_plain_session_goes_on(
    c: PlainView,
    proj: Seq<char>,
    p: PlainPhaseView,
    msg: ServerView,
    next: PlainPhaseView,
    act: ActionView,
)
    requires
        plain_leads(c, proj, p, EventView::Heard(msg), next, act),
    ensures
        p is Pushing ==> {
            &&& msg is PushOk ==> act is Start
            &&& msg matches ServerView::Error(m) ==> next == PlainPhaseView::Over && act == ActionView::Fail(m)
            &&& !(msg is PushOk) && !(msg is Error) ==> next
                == PlainPhaseView::Over && act == ActionView::Fail("expected PushOk"@)
        },
        p is Building ==> {
            &&& msg matches ServerView::Output(d) ==> next == PlainPhaseView::Building && act
                == (ActionView::Write { err: true, data: d })
            &&& msg matches ServerView::Error(m) ==> next == PlainPhaseView::Over && act == ActionView::Fail(m)
            &&& !(msg is Output) && !(msg is Exit) && !(msg is Error) ==> next
                == PlainPhaseView::Over && act == ActionView::Fail("unexpected message during build"@)
        },
        p matches PlainPhaseView::Fetching(packed) ==> {
            &&& msg matches ServerView::Data(d) ==> next == PlainPhaseView::Fetching(packed + d) && act
                == ActionView::Listen
            &&& msg matches ServerView::DataEnd { raw } ==> match file_of(packed) {
                Ok(data) => next == PlainPhaseView::Keeping && act == (ActionView::Keep {
                    wire: packed.len() as int,
                    raw: raw as int,
                    data,
                }),
                Err(m) => next == PlainPhaseView::Over && act == ActionView::Fail(m),
            }
            &&& msg matches ServerView::Error(m) ==> next
                == PlainPhaseView::Over && act == ActionView::Fail("fetch: "@ + m)
            &&& !(msg is Data) && !(msg is DataEnd) && !(msg is Error) ==> next
                == PlainPhaseView::Over && act == ActionView::Fail("unexpected message during fetch"@)
        },
{
}

/// Once the program is in its place the session ends well.
pub proof fn a_kept_program_is_the_end(
    c: PlainView,
    proj: Seq<char>,
    next: PlainPhaseView,
    act: ActionView,
)
    requires
        plain_leads(c, proj, PlainPhaseView::Keeping, EventView::Kept, next, act),
    ensures
        next == PlainPhaseView::Over,
        act == ActionView::Finish(0),
{
}

/// A program that has come is kept if it could be unpacked, with both sizes; else the session fails.
pub proof fn what_a_program_that_came_leads_to(
    wire: nat,
    raw: int,
    file: Result<Seq<u8>, Seq<char>>,
)
    ensures
        file matches Ok(data) ==> program_has_come(wire, raw, file) == (
            PlainPhaseView::Keeping,
            (ActionView::Keep { wire: wire as int, raw, data }),
        ),
        file matches Err(m) ==> program_has_come(wire, raw, file) == (PlainPhaseView::Over, ActionView::Fail(m)),
{
}

/// What a plain command leaves and where, and what its cargo is given behind `--`: a build leaves a program,
/// whose words are its own; anything else leaves none, and its words go to cargo.
pub proof fn what_a_plain_command_leaves(c: PlainView)
    ensures
        c.produces() <==> c.sub == "build"@,
        c.args.contains("--release"@) ==> c.profile() == "release"@,
        !c.args.contains("--release"@) ==> c.profile() == "debug"@,
        c.sub == "build"@ ==> c.trailing().len() == 0,
        c.sub != "build"@ ==> c.trailing() == c.exe_args,
{
}

} // verus!
