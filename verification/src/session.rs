//! The client's side of a session: what it does next after each thing that happens.
//!
//! Whoever drives the session performs the action that a step hands out, and hands back what came of
//! it: a message that was heard, or the outcome of work on this machine.
use vstd::prelude::*;
use vstd::string::*;

use crate::command::{Job, JobView, Mode};
use crate::files::{
    a_sync_settles_the_server, as_map, collect, pushed, settles, sync_plan, what_a_sync_sends,
    Files,
};
use crate::json::{
    byte_strings, executables_of, lines_in, made_by, nothing_reported, tail_of, Json, JsonView,
    MadeView, Record, RecordView,
};
use crate::paths::{fetched_name, landing, project_ok, rel_ok, rel_under_target, under_target};
use crate::keys::bytes_or;
use crate::pack::{all_of, file_of, packs, unpack_file, what_is_fetched_is_what_was_served};
use crate::scan::Scan;
use crate::server::{a_valid_push_is_taken_whole, serves, OrderView, StageView};
use crate::text::{copy_texts, join, joined, opt_text, texts};
use crate::wire::{headers, ClientMsg, ClientView, FileHeader, HeaderView, ServerMsg, ServerView};

verus! {

/// What a session is for.
#[derive(Debug)]
pub struct Errand {
    pub proj: String,
    /// The server's name, for what is said of it.
    pub host: String,
    pub full: bool,
    pub job: Job,
    pub color: Option<String>,
    /// What separates the components of a path on this machine.
    pub sep: char,
}

/// The model of an [`Errand`].
#[verifier::ext_equal]
pub struct ErrandView {
    pub proj: Seq<char>,
    pub host: Seq<char>,
    pub full: bool,
    pub job: JobView,
    pub color: Option<Seq<char>>,
    pub sep: char,
}

impl View for Errand {
    type V = ErrandView;

    open spec fn view(&self) -> ErrandView {
        ErrandView {
            proj: self.proj@,
            host: self.host@,
            full: self.full,
            job: self.job@,
            color: opt_text(self.color),
            sep: self.sep,
        }
    }
}

/// How far a session is.
#[derive(Debug)]
pub enum Phase {
    /// The server is to say hello.
    Hello,
    /// The host is checked, and the nonce signed.
    Signing,
    /// The server is to accept the key.
    Auth,
    /// This tree is scanned.
    Scanning,
    /// The server is to say what it has.
    Manifest(Files),
    /// The server is to confirm what was sent.
    Pushing,
    /// Cargo is running.
    Building(Json),
    /// Cargo is running, and lines of its report are being read.
    Reading(Json),
    /// The binary with this number is coming, and this has come of it, packed.
    Fetching(Vec<String>, usize, Vec<u8>),
    /// The binary with this number is put in its place.
    Keeping(Vec<String>, usize),
    Over,
}

/// The model of a [`Phase`].
#[verifier::ext_equal]
pub enum PhaseView {
    Hello,
    Signing,
    Auth,
    Scanning,
    Manifest(Map<Seq<char>, HeaderView>),
    Pushing,
    Building(JsonView),
    Reading(JsonView),
    Fetching(Seq<Seq<char>>, int, Seq<u8>),
    Keeping(Seq<Seq<char>>, int),
    Over,
}

impl View for Phase {
    type V = PhaseView;

    open spec fn view(&self) -> PhaseView {
        match self {
            Phase::Hello => PhaseView::Hello,
            Phase::Signing => PhaseView::Signing,
            Phase::Auth => PhaseView::Auth,
            Phase::Scanning => PhaseView::Scanning,
            Phase::Manifest(f) => PhaseView::Manifest(f@),
            Phase::Pushing => PhaseView::Pushing,
            Phase::Building(j) => PhaseView::Building(j@),
            Phase::Reading(j) => PhaseView::Reading(j@),
            Phase::Fetching(v, n, packed) => PhaseView::Fetching(texts(v@), *n as int, packed@),
            Phase::Keeping(v, n) => PhaseView::Keeping(texts(v@), *n as int),
            Phase::Over => PhaseView::Over,
        }
    }
}

impl Phase {
    /// The files are in order, and the binary that is coming is one of those that are.
    pub open spec fn wf(&self) -> bool {
        match self {
            Phase::Manifest(f) => f.wf(),
            Phase::Fetching(v, n, _) => *n < v@.len(),
            Phase::Keeping(v, n) => *n < v@.len(),
            _ => true,
        }
    }
}

impl Errand {
    /// A phase that a session on this errand can be in: nothing is fetched without a platform.
    pub open spec fn allows(&self, p: Phase) -> bool {
        p.wf() && (p is Fetching || p is Keeping ==> self.job@.target is Some)
    }
}

/// Something that happened.
#[derive(Debug)]
pub enum Event {
    /// The server said something.
    Heard(ServerMsg),
    /// The host was checked and the nonce signed, or one of the two failed.
    Signed(Result<ClientMsg, String>),
    /// This tree was scanned.
    Scanned(Scan),
    /// Lines of cargo's report were read. `None` stands for one that is no record.
    Read(Vec<Option<Record>>),
    /// A binary was put in its place.
    Kept,
}

/// The views of lines of cargo's report.
pub open spec fn records(v: Seq<Option<Record>>) -> Seq<Option<RecordView>> {
    v.map_values(
        |r: Option<Record>|
            match r {
                Some(r) => Some(r@),
                None => None,
            },
    )
}

/// The model of an [`Event`].
#[verifier::ext_equal]
pub enum EventView {
    Heard(ServerView),
    Signed(Result<ClientView, Seq<char>>),
    Scanned(Map<Seq<char>, HeaderView>, Seq<Seq<char>>),
    Read(Seq<Option<RecordView>>),
    Kept,
}

impl View for Event {
    type V = EventView;

    open spec fn view(&self) -> EventView {
        match self {
            Event::Heard(m) => EventView::Heard(m@),
            Event::Signed(Ok(m)) => EventView::Signed(Ok(m@)),
            Event::Signed(Err(e)) => EventView::Signed(Err(e@)),
            Event::Scanned(s) => EventView::Scanned(s.files@, texts(s.unmatched@)),
            Event::Read(v) => EventView::Read(records(v@)),
            Event::Kept => EventView::Kept,
        }
    }
}

impl Event {
    /// The files are in order.
    pub open spec fn wf(&self) -> bool {
        match self {
            Event::Scanned(s) => s.files.wf(),
            _ => true,
        }
    }
}

/// What is done next.
#[derive(Debug)]
pub enum Action {
    /// Check the host by its key, and sign the nonce. Then the step for what came of it.
    Greet { nonce: Vec<u8>, host_pubkey: String },
    /// Send this, and listen.
    Send(ClientMsg),
    /// Scan this tree. Then the step for what came of it.
    Walk,
    /// Say this, if anything, send the message, and listen.
    Ask(Option<String>, ClientMsg),
    /// Send the message and then the bodies of the files, one after the other, and listen.
    Push(ClientMsg, Vec<FileHeader>),
    /// Say that the sync is through, and whether it had anything to do; say this, if anything, send
    /// the message, and listen.
    Start { idle: bool, say: Option<String>, msg: ClientMsg },
    /// Write this, on stderr or on stdout, and listen.
    Write { err: bool, data: Vec<u8> },
    /// Read these lines of cargo's report. Then the step for what came of it.
    Parse(Vec<Vec<u8>>),
    /// Listen.
    Listen,
    /// Send the message for a file that is to have this name, below where binaries are put, and
    /// listen.
    Fetch(ClientMsg, String),
    /// Put the file in its place, under its own name last of all. Then the step for that. `wire` is
    /// how many bytes came, `raw` how many the server says it has.
    Keep { wire: u64, raw: u64, data: Vec<u8> },
    /// Say goodbye. This is cargo's exit code.
    Finish(i32),
    /// Fail with this.
    Fail(String),
}

/// The model of an [`Action`].
#[verifier::ext_equal]
pub enum ActionView {
    Greet { nonce: Seq<u8>, host_pubkey: Seq<char> },
    Send(ClientView),
    Walk,
    Ask(Option<Seq<char>>, ClientView),
    Push(ClientView, Seq<HeaderView>),
    Start { idle: bool, say: Option<Seq<char>>, msg: ClientView },
    Write { err: bool, data: Seq<u8> },
    Parse(Seq<Seq<u8>>),
    Listen,
    Fetch(ClientView, Seq<char>),
    Keep { wire: int, raw: int, data: Seq<u8> },
    Finish(int),
    Fail(Seq<char>),
}

impl View for Action {
    type V = ActionView;

    open spec fn view(&self) -> ActionView {
        match self {
            Action::Greet { nonce, host_pubkey } => ActionView::Greet {
                nonce: nonce@,
                host_pubkey: host_pubkey@,
            },
            Action::Send(m) => ActionView::Send(m@),
            Action::Walk => ActionView::Walk,
            Action::Ask(s, m) => ActionView::Ask(opt_text(*s), m@),
            Action::Push(m, f) => ActionView::Push(m@, headers(f@)),
            Action::Start { idle, say, msg } => ActionView::Start {
                idle: *idle,
                say: opt_text(*say),
                msg: msg@,
            },
            Action::Write { err, data } => ActionView::Write { err: *err, data: data@ },
            Action::Parse(v) => ActionView::Parse(byte_strings(v@)),
            Action::Listen => ActionView::Listen,
            Action::Fetch(m, to) => ActionView::Fetch(m@, to@),
            Action::Keep { wire, raw, data } => ActionView::Keep {
                wire: *wire as int,
                raw: *raw as int,
                data: data@,
            },
            Action::Finish(c) => ActionView::Finish(*c as int),
            Action::Fail(m) => ActionView::Fail(m@),
        }
    }
}

/// What is said of globs that matched nothing: such a glob looks just like one that worked, and the
/// file it named is the one the build is missing.
pub open spec fn unmatched_text(globs: Seq<Seq<char>>) -> Option<Seq<char>> {
    if globs.len() == 0 {
        None
    } else {
        Some("[rbuild] --include matched nothing: "@ + joined(globs, ", "@))
    }
}

/// What asks the server for cargo.
pub open spec fn cargo_view(e: ErrandView) -> ClientView {
    ClientView::Cargo {
        project: e.proj,
        subcommand: e.job.asked,
        args: e.job.args,
        target: e.job.target,
        trailing: e.job.trailing,
        color: e.color,
    }
}

/// What is said of a program that the server is to run.
pub open spec fn running_text(e: ErrandView) -> Option<Seq<char>> {
    if e.job.mode == Mode::Exec {
        Some("[rbuild] running "@ + e.job.asked + " on "@ + e.host)
    } else {
        None
    }
}

/// What starts cargo.
pub open spec fn start_view(e: ErrandView, idle: bool) -> ActionView {
    ActionView::Start { idle, say: running_text(e), msg: cargo_view(e) }
}

/// What cargo's report holds after lines of it were read.
pub open spec fn after_reading(made: Seq<MadeView>, lines: Seq<Option<RecordView>>) -> Seq<MadeView>
    decreases lines.len(),
{
    if lines.len() == 0 {
        made
    } else {
        let before = after_reading(made, lines.drop_last());
        match lines.last() {
            Some(r) => match made_by(r) {
                Some(m) => before.push(m),
                None => before,
            },
            None => before,
        }
    }
}

/// The platform that is built for.
pub open spec fn platform(e: ErrandView) -> Seq<char> {
    match e.job.target {
        Some(t) => t,
        None => seq![],
    }
}

/// What comes next once all the binaries before number `n` are in their place. The path that cargo
/// reports is absolute on the server, and the server will only serve paths under the project's
/// target dir. The platform is where one becomes the other.
pub open spec fn fetch_next(e: ErrandView, exes: Seq<Seq<char>>, n: int) -> (PhaseView, ActionView) {
    if n >= exes.len() {
        (PhaseView::Over, ActionView::Finish(0))
    } else {
        match under_target(exes[n], platform(e)) {
            Some(rel) => (
                PhaseView::Fetching(exes, n, seq![]),
                ActionView::Fetch(
                    ClientView::Fetch { project: e.proj, rel },
                    landing(rel, platform(e), e.sep),
                ),
            ),
            None => (
                PhaseView::Over,
                ActionView::Fail(
                    "cargo reported a binary outside the target dir: "@ + exes[n],
                ),
            ),
        }
    }
}

/// The end of a session that failed.
pub open spec fn failed(m: Seq<char>) -> (PhaseView, ActionView) {
    (PhaseView::Over, ActionView::Fail(m))
}

/// What a message leads to while cargo is running. Under `--message-format`, cargo's stdout is the
/// JSON, which is for us and not for the terminal. A server that merges both streams sends them as
/// `Output`.
pub open spec fn hears_cargo(e: ErrandView, j: JsonView, msg: ServerView) -> (PhaseView, ActionView) {
    match msg {
        ServerView::Output(data) => (
            PhaseView::Building(j),
            ActionView::Write { err: true, data },
        ),
        ServerView::Chunk { err, data } => if !err && e.job.mode is Fetch {
            (
                PhaseView::Reading(JsonView { partial: tail_of(j.partial + data), ..j }),
                ActionView::Parse(lines_in(j.partial + data)),
            )
        } else {
            (PhaseView::Building(j), ActionView::Write { err, data })
        },
        // cargo has spoken. Its verdict stands, and there is nothing to fetch from a
        // build that didn't happen.
        ServerView::Exit(c) => match e.job.mode {
            Mode::Fetch(here) => if c == 0 {
                fetch_next(e, executables_of(j.made, here), 0)
            } else {
                (PhaseView::Over, ActionView::Finish(c as int))
            },
            _ => (PhaseView::Over, ActionView::Finish(c as int)),
        },
        ServerView::Error(m) => failed(m),
        _ => failed("unexpected message during build"@),
    }
}

/// What a binary that has come leads to, unpacked or not.
pub open spec fn has_come(
    exes: Seq<Seq<char>>,
    n: int,
    wire: nat,
    raw: int,
    file: Result<Seq<u8>, Seq<char>>,
) -> (PhaseView, ActionView) {
    match file {
        Ok(data) => (
            PhaseView::Keeping(exes, n),
            ActionView::Keep { wire: wire as int, raw, data },
        ),
        Err(m) => failed(m),
    }
}

/// What a message leads to while a binary is coming.
pub open spec fn hears_data(exes: Seq<Seq<char>>, n: int, packed: Seq<u8>, msg: ServerView) -> (
    PhaseView,
    ActionView,
) {
    match msg {
        ServerView::Data(d) => (PhaseView::Fetching(exes, n, packed + d), ActionView::Listen),
        ServerView::DataEnd { raw } => has_come(exes, n, packed.len(), raw as int, file_of(packed)),
        ServerView::Error(m) => failed("fetch: "@ + m),
        _ => failed("unexpected message during fetch"@),
    }
}

/// Whether a phase and an event lead to a phase and an action. Everything but the order in which
/// files and paths are sent is said outright, and that is the order of their names.
pub open spec fn leads(
    e: ErrandView,
    p: PhaseView,
    ev: EventView,
    next: PhaseView,
    act: ActionView,
) -> bool {
    match (p, ev) {
        (PhaseView::Hello, EventView::Heard(m)) => match m {
            ServerView::Hello { nonce, host_pubkey } => next is Signing && act == (
            ActionView::Greet { nonce, host_pubkey }),
            _ => (next, act) == failed("expected Hello"@),
        },
        (PhaseView::Signing, EventView::Signed(r)) => match r {
            Ok(m) => next is Auth && act == ActionView::Send(m),
            Err(m) => (next, act) == failed(m),
        },
        (PhaseView::Auth, EventView::Heard(m)) => match m {
            ServerView::AuthOk => next is Scanning && act is Walk,
            ServerView::Error(m) => (next, act) == failed("auth: "@ + m),
            _ => (next, act) == failed("expected AuthOk"@),
        },
        (PhaseView::Scanning, EventView::Scanned(files, unmatched)) => {
            &&& next == PhaseView::Manifest(files)
            &&& act == ActionView::Ask(
                unmatched_text(unmatched),
                ClientView::Manifest { project: e.proj },
            )
        },
        (PhaseView::Manifest(local), EventView::Heard(m)) => match m {
            ServerView::Manifest(v) => if settles(local, as_map(v), e.full, seq![], seq![]) {
                next == PhaseView::Building(nothing_reported()) && act == start_view(e, true)
            } else {
                &&& next is Pushing
                &&& act matches ActionView::Push(msg, files)
                &&& msg matches ClientView::Push { project, deletes, files: sent }
                &&& project == e.proj && sent == files
                &&& settles(local, as_map(v), e.full, files, deletes)
            },
            ServerView::Error(m) => (next, act) == failed(m),
            _ => (next, act) == failed("expected Manifest"@),
        },
        (PhaseView::Pushing, EventView::Heard(m)) => match m {
            ServerView::PushOk { .. } => next == PhaseView::Building(nothing_reported()) && act
                == start_view(e, false),
            ServerView::Error(m) => (next, act) == failed(m),
            _ => (next, act) == failed("expected PushOk"@),
        },
        (PhaseView::Building(j), EventView::Heard(m)) => (next, act) == hears_cargo(e, j, m),
        (PhaseView::Reading(j), EventView::Read(v)) => {
            &&& next == PhaseView::Building(JsonView { made: after_reading(j.made, v), ..j })
            &&& act is Listen
        },
        (PhaseView::Fetching(exes, n, packed), EventView::Heard(m)) => (next, act) == hears_data(
            exes,
            n,
            packed,
            m,
        ),
        (PhaseView::Keeping(exes, n), EventView::Kept) => (next, act) == fetch_next(e, exes, n + 1),
        _ => (next, act) == failed("out of turn"@),
    }
}

fn fail(m: &str) -> (r: (Phase, Action))
    ensures
        (r.0@, r.1@) == failed(m@),
        r.0.wf(),
{
    (Phase::Over, Action::Fail(m.to_owned()))
}

/// What asks the server for cargo.
fn cargo_message(e: &Errand) -> (r: ClientMsg)
    ensures
        r@ == cargo_view(e@),
{
    let target = match &e.job.target {
        Some(t) => Some(t.clone()),
        None => None,
    };
    let color = match &e.color {
        Some(c) => Some(c.clone()),
        None => None,
    };
    ClientMsg::Cargo {
        project: e.proj.clone(),
        subcommand: e.job.asked.clone(),
        args: copy_texts(&e.job.args),
        target,
        trailing: copy_texts(&e.job.trailing),
        color,
    }
}

fn start(e: &Errand, idle: bool) -> (r: Action)
    ensures
        r@ == start_view(e@, idle),
{
    let say = if e.job.mode == Mode::Exec {
        let mut s = "[rbuild] running ".to_owned();
        s.append(e.job.asked.as_str());
        s.append(" on ");
        s.append(e.host.as_str());
        Some(s)
    } else {
        None
    };
    Action::Start { idle, say, msg: cargo_message(e) }
}

fn next_fetch(e: &Errand, exes: Vec<String>, n: usize) -> (r: (Phase, Action))
    requires
        e.job@.target is Some,
        n <= exes@.len(),
    ensures
        (r.0@, r.1@) == fetch_next(e@, texts(exes@), n as int),
        r.0.wf(),
{
    if n >= exes.len() {
        return (Phase::Over, Action::Finish(0));
    }
    assert(texts(exes@)[n as int] == exes@[n as int]@);
    let target = match &e.job.target {
        Some(t) => t.as_str(),
        None => "",
    };
    match rel_under_target(exes[n].as_str(), target) {
        Some(rel) => {
            let to = fetched_name(rel.as_str(), target, e.sep);
            let msg = ClientMsg::Fetch { project: e.proj.clone(), rel };
            let nothing: Vec<u8> = Vec::new();
            assert(nothing@ =~= Seq::<u8>::empty());
            (Phase::Fetching(exes, n, nothing), Action::Fetch(msg, to))
        },
        None => {
            let mut m = "cargo reported a binary outside the target dir: ".to_owned();
            m.append(exes[n].as_str());
            (Phase::Over, Action::Fail(m))
        },
    }
}

fn scanned(e: &Errand, scan: Scan) -> (r: (Phase, Action))
    requires
        scan.files.wf(),
    ensures
        leads(
            e@,
            PhaseView::Scanning,
            EventView::Scanned(scan.files@, texts(scan.unmatched@)),
            r.0@,
            r.1@,
        ),
        r.0.wf(),
{
    let say = if scan.unmatched.len() == 0 {
        None
    } else {
        let mut s = "[rbuild] --include matched nothing: ".to_owned();
        let j = join(&scan.unmatched, ", ");
        s.append(j.as_str());
        Some(s)
    };
    // Asked for on every run, `--full` included: it is the only word on what is
    // up there, and a file this run doesn't have, deleted or dropped from
    // `--include`, still has to come off.
    let msg = ClientMsg::Manifest { project: e.proj.clone() };
    (Phase::Manifest(scan.files), Action::Ask(say, msg))
}

/// There is nothing to send and nothing to delete exactly if nothing at all is what settles it.
pub proof fn nothing_settles_only_alone(
    local: Map<Seq<char>, HeaderView>,
    remote: Map<Seq<char>, HeaderView>,
    full: bool,
    upload: Seq<HeaderView>,
    deletes: Seq<Seq<char>>,
)
    requires
        settles(local, remote, full, upload, deletes),
    ensures
        settles(local, remote, full, seq![], seq![]) <==> upload.len() == 0 && deletes.len() == 0,
{
    if upload.len() == 0 && deletes.len() == 0 {
        assert(upload =~= seq![]);
        assert(deletes =~= seq![]);
    }
    if settles(local, remote, full, seq![], seq![]) {
        if upload.len() > 0 {
            let h = upload[0];
            assert(upload.contains(h));
            assert(Seq::<HeaderView>::empty().contains(h));
        }
        if deletes.len() > 0 {
            let d = deletes[0];
            assert(deletes.contains(d));
            assert(Seq::<Seq<char>>::empty().contains(d));
        }
    }
}

/// A copy of a list of headers.
pub fn copy_headers(v: &Vec<FileHeader>) -> (r: Vec<FileHeader>)
    ensures
        headers(r@) == headers(v@),
{
    let mut out: Vec<FileHeader> = Vec::new();
    let ghost h = headers(v@);
    let mut i: usize = 0;
    while i < v.len()
        invariant
            i <= v@.len(),
            h == headers(v@),
            headers(out@) == h.take(i as int),
        decreases v@.len() - i,
    {
        let ghost was = headers(out@);
        let c = v[i].clone();
        let ghost cv = c@;
        out.push(c);
        assert(headers(out@) =~= was.push(cv));
        assert(h.take(i + 1) =~= was.push(h[i as int]));
        i += 1;
    }
    assert(h.take(i as int) =~= h);
    out
}

fn hears_manifest(e: &Errand, local: Files, msg: ServerMsg) -> (r: (Phase, Action))
    requires
        local.wf(),
    ensures
        leads(e@, PhaseView::Manifest(local@), EventView::Heard(msg@), r.0@, r.1@),
        r.0.wf(),
{
    match msg {
        ServerMsg::Manifest(v) => {
            let remote = collect(&v);
            let plan = sync_plan(&local, &remote, e.full);
            proof {
                nothing_settles_only_alone(
                    local@,
                    remote@,
                    e.full,
                    headers(plan.upload@),
                    texts(plan.deletes@),
                );
            }
            if plan.upload.len() == 0 && plan.deletes.len() == 0 {
                return (Phase::Building(Json::new()), start(e, true));
            }
            let files = copy_headers(&plan.upload);
            let msg = ClientMsg::Push {
                project: e.proj.clone(),
                deletes: plan.deletes,
                files: plan.upload,
            };
            (Phase::Pushing, Action::Push(msg, files))
        },
        ServerMsg::Error(m) => fail(m.as_str()),
        _ => fail("expected Manifest"),
    }
}

fn hears_build(e: &Errand, j: Json, msg: ServerMsg) -> (r: (Phase, Action))
    requires
        e.job@.wf(),
    ensures
        (r.0@, r.1@) == hears_cargo(e@, j@, msg@),
        r.0.wf(),
{
    let mut j = j;
    match msg {
        ServerMsg::Output(data) => (Phase::Building(j), Action::Write { err: true, data }),
        ServerMsg::Chunk { err, data } => {
            let fetching = match e.job.mode {
                Mode::Fetch(_) => true,
                _ => false,
            };
            if !err && fetching {
                let lines = j.feed(data.as_slice());
                (Phase::Reading(j), Action::Parse(lines))
            } else {
                // Flushed per chunk: a bench that prints as it goes must read as
                // one here too, not arrive all at once when it exits.
                (Phase::Building(j), Action::Write { err, data })
            }
        },
        ServerMsg::Exit(c) => match e.job.mode {
            Mode::Fetch(here) => if c == 0 {
                let exes = j.executables(here);
                next_fetch(e, exes, 0)
            } else {
                (Phase::Over, Action::Finish(c))
            },
            _ => (Phase::Over, Action::Finish(c)),
        },
        ServerMsg::Error(m) => fail(m.as_str()),
        _ => fail("unexpected message during build"),
    }
}

fn read_lines(j: Json, lines: Vec<Option<Record>>) -> (r: Json)
    ensures
        r@ == (JsonView { made: after_reading(j@.made, records(lines@)), ..j@ }),
{
    let mut j = j;
    let mut rest = lines;
    let ghost v = records(rest@);
    let ghost first = j@;
    let ghost mut n: int = 0;
    assert(v.take(0).len() == 0);
    assert(rest@.skip(0) =~= rest@);
    let ghost all = rest@;
    while rest.len() > 0
        invariant
            0 <= n <= all.len(),
            rest@ == all.skip(n),
            v == records(all),
            j@ == (JsonView { made: after_reading(first.made, v.take(n)), ..first }),
        decreases rest@.len(),
    {
        let line = rest.remove(0);
        proof {
            assert(v.take(n + 1).drop_last() =~= v.take(n));
            assert(v.take(n + 1).last() == v[n]);
            assert(rest@ =~= all.skip(n + 1));
            n = n + 1;
        }
        j.take(line);
    }
    assert(v.take(n) =~= v);
    j
}

/// What a binary that has come leads to, unpacked or not.
pub fn arrived(exes: Vec<String>, n: usize, wire: usize, raw: u64, file: Result<Vec<u8>, String>) -> (r:
    (Phase, Action))
    requires
        n < exes@.len(),
    ensures
        (r.0@, r.1@) == has_come(texts(exes@), n as int, wire as nat, raw as int, bytes_or(file)),
        r.0.wf(),
{
    match file {
        Ok(data) => (Phase::Keeping(exes, n), Action::Keep { wire: wire as u64, raw, data }),
        Err(m) => fail(m.as_str()),
    }
}

fn hears_fetch(exes: Vec<String>, n: usize, packed: Vec<u8>, msg: ServerMsg) -> (r: (Phase, Action))
    requires
        n < exes@.len(),
    ensures
        (r.0@, r.1@) == hears_data(texts(exes@), n as int, packed@, msg@),
        r.0.wf(),
{
    match msg {
        ServerMsg::Data(d) => {
            let mut all = packed;
            all.extend_from_slice(d.as_slice());
            assert(all@ =~= packed@ + d@);
            (Phase::Fetching(exes, n, all), Action::Listen)
        },
        ServerMsg::DataEnd { raw } => {
            let file = unpack_file(&packed);
            arrived(exes, n, packed.len(), raw, file)
        },
        ServerMsg::Error(m) => {
            let mut s = "fetch: ".to_owned();
            s.append(m.as_str());
            fail(s.as_str())
        },
        _ => fail("unexpected message during fetch"),
    }
}

/// The next step of a session.
pub fn step(e: &Errand, p: Phase, ev: Event) -> (r: (Phase, Action))
    requires
        e.job@.wf(),
        e.allows(p),
        ev.wf(),
    ensures
        leads(e@, p@, ev@, r.0@, r.1@),
        e.allows(r.0),
{
    match (p, ev) {
        (Phase::Hello, Event::Heard(m)) => match m {
            ServerMsg::Hello { nonce, host_pubkey } => (
                Phase::Signing,
                Action::Greet { nonce, host_pubkey },
            ),
            _ => fail("expected Hello"),
        },
        (Phase::Signing, Event::Signed(s)) => match s {
            Ok(m) => (Phase::Auth, Action::Send(m)),
            Err(m) => fail(m.as_str()),
        },
        (Phase::Auth, Event::Heard(m)) => match m {
            ServerMsg::AuthOk => (Phase::Scanning, Action::Walk),
            ServerMsg::Error(m) => {
                let mut s = "auth: ".to_owned();
                s.append(m.as_str());
                fail(s.as_str())
            },
            _ => fail("expected AuthOk"),
        },
        (Phase::Scanning, Event::Scanned(s)) => scanned(e, s),
        (Phase::Manifest(local), Event::Heard(m)) => hears_manifest(e, local, m),
        (Phase::Pushing, Event::Heard(m)) => match m {
            ServerMsg::PushOk { received: _ } => (Phase::Building(Json::new()), start(e, false)),
            ServerMsg::Error(m) => fail(m.as_str()),
            _ => fail("expected PushOk"),
        },
        (Phase::Building(j), Event::Heard(m)) => hears_build(e, j, m),
        (Phase::Reading(j), Event::Read(v)) => (Phase::Building(read_lines(j, v)), Action::Listen),
        (Phase::Fetching(exes, n, packed), Event::Heard(m)) => hears_fetch(exes, n, packed, m),
        (Phase::Keeping(exes, n), Event::Kept) => {
            let count: usize = exes.len();
            assert(n < count);
            next_fetch(e, exes, n + 1)
        },
        _ => fail("out of turn"),
    }
}

/// The message that an action sends.
pub open spec fn sent_by(act: ActionView) -> Option<ClientView> {
    match act {
        ActionView::Send(m) => Some(m),
        ActionView::Ask(_, m) => Some(m),
        ActionView::Push(m, _) => Some(m),
        ActionView::Start { idle, say, msg } => Some(msg),
        ActionView::Fetch(m, _) => Some(m),
        _ => None,
    }
}

/// Nothing about the project is sent before the server has accepted the key, and nothing at all
/// before the host has been checked.
pub proof fn nothing_is_sent_before_both_sides_are_known(
    e: ErrandView,
    p: PhaseView,
    ev: EventView,
    next: PhaseView,
    act: ActionView,
)
    requires
        leads(e, p, ev, next, act),
    ensures
        p is Hello ==> sent_by(act) is None,
        p is Signing ==> (sent_by(act) matches Some(m) ==> ev == EventView::Signed(Ok(m))),
        p is Auth ==> sent_by(act) is None,
        next is Scanning ==> p is Auth && ev == EventView::Heard(ServerView::AuthOk),
{
}

/// Cargo is started only on a tree that the server has: it confirmed what was sent, or there was
/// nothing to send.
pub proof fn cargo_starts_on_a_synced_tree(
    e: ErrandView,
    p: PhaseView,
    ev: EventView,
    next: PhaseView,
    act: ActionView,
)
    requires
        leads(e, p, ev, next, act),
        sent_by(act) matches Some(m) && m is Cargo,
        !(p is Signing),
    ensures
        match p {
            PhaseView::Pushing => ev matches EventView::Heard(m) && m is PushOk,
            PhaseView::Manifest(local) => ev matches EventView::Heard(ServerView::Manifest(v)) && settles(
                local,
                as_map(v),
                e.full,
                seq![],
                seq![],
            ),
            _ => false,
        },
{
}

/// Cargo's verdict stands: a build that failed ends the session with its exit code, and nothing is
/// fetched.
pub proof fn a_failed_build_is_the_end(
    e: ErrandView,
    j: JsonView,
    code: i32,
    next: PhaseView,
    act: ActionView,
)
    requires
        leads(e, PhaseView::Building(j), EventView::Heard(ServerView::Exit(code)), next, act),
        code != 0 || !(e.job.mode is Fetch),
    ensures
        next is Over,
        act == ActionView::Finish(code as int),
{
}

/// What is fetched is a valid path, whatever cargo reported.
pub proof fn only_valid_paths_are_fetched(
    e: ErrandView,
    p: PhaseView,
    ev: EventView,
    next: PhaseView,
    act: ActionView,
)
    requires
        leads(e, p, ev, next, act),
    ensures
        act matches ActionView::Fetch(m, to) ==> (m matches ClientView::Fetch { project, rel }
            && project == e.proj && rel_ok(rel)),
{
}

/// A binary is put in its place only once all of it has come: a half-written one must never look
/// like a good one.
pub proof fn only_a_whole_binary_is_kept(
    e: ErrandView,
    p: PhaseView,
    ev: EventView,
    next: PhaseView,
    act: ActionView,
)
    requires
        leads(e, p, ev, next, act),
        act is Keep,
    ensures
        p is Fetching,
        ev matches EventView::Heard(m) && m is DataEnd,
{
}

/// A sync does what it is for: once the server has done what it is told, its tree holds the files of
/// this one, none of them stale, and no other.
pub proof fn a_session_syncs_the_tree(
    e: ErrandView,
    local: Map<Seq<char>, HeaderView>,
    manifest: Seq<HeaderView>,
    next: PhaseView,
    act: ActionView,
    authorized: Seq<Seq<u8>>,
)
    requires
        leads(
            e,
            PhaseView::Manifest(local),
            EventView::Heard(ServerView::Manifest(manifest)),
            next,
            act,
        ),
        project_ok(e.proj),
        forall|p: Seq<char>| #[trigger] local.contains_key(p) ==> local[p].path == p && rel_ok(p),
        forall|p: Seq<char>| #[trigger] as_map(manifest).contains_key(p) ==> rel_ok(p),
    ensures
        match act {
            ActionView::Push(msg, files) => {
                &&& serves(authorized, StageView::Open, msg).0 is Open
                &&& serves(authorized, StageView::Open, msg).1 matches OrderView::Take {
                    project,
                    deletes,
                    files: taken,
                    bad,
                }
                &&& project == e.proj && taken == files && bad is None
                &&& holds_tree(local, pushed(as_map(manifest), deletes, taken))
                &&& forall|q: Seq<char>|
                    local.contains_key(q) <==> #[trigger] pushed(as_map(manifest), deletes, taken).contains_key(q)
                &&& forall|q: Seq<char>| #[trigger]
                    local.contains_key(q) ==> pushed(as_map(manifest), deletes, taken)[q].size == local[q].size && -1
                        <= pushed(as_map(manifest), deletes, taken)[q].mtime - local[q].mtime <= 1
            },
            ActionView::Start { idle, say, msg } => {
                &&& idle && holds_tree(local, as_map(manifest))
                &&& forall|q: Seq<char>|
                    local.contains_key(q) <==> #[trigger] as_map(manifest).contains_key(q)
                &&& forall|q: Seq<char>| #[trigger]
                    local.contains_key(q) ==> as_map(manifest)[q].size == local[q].size && -1
                        <= as_map(manifest)[q].mtime - local[q].mtime <= 1
            },
            _ => false,
        },
{
    let remote = as_map(manifest);
    match act {
        ActionView::Push(msg, files) => {
            if let ClientView::Push { project, deletes, files: sent } = msg {
                a_sync_settles_the_server(local, remote, e.full, files, deletes);
                assert forall|i: int| 0 <= i < files.len() implies rel_ok(
                    (#[trigger] files[i]).path,
                ) by {
                    assert(files.contains(files[i]));
                    assert(local.contains_key(files[i].path));
                }
                a_valid_push_is_taken_whole(authorized, e.proj, deletes, files, remote);
            }
        },
        _ => {
            a_sync_settles_the_server(local, remote, e.full, seq![], seq![]);
            assert(pushed(remote, seq![], seq![]) =~= remote);
        },
    }
}

/// Whether a tree holds the files of another, none of them stale, and no other.
pub open spec fn holds_tree(
    local: Map<Seq<char>, HeaderView>,
    there: Map<Seq<char>, HeaderView>,
) -> bool {
    &&& there.dom() == local.dom()
    &&& forall|p: Seq<char>| #[trigger]
        local.contains_key(p) ==> there[p].size == local[p].size && -1 <= there[p].mtime
            - local[p].mtime <= 1
}

/// How far a session is once pieces of the binary with number `n` have come, and nothing else.
pub open spec fn after_pieces(exes: Seq<Seq<char>>, n: int, frames: Seq<Seq<u8>>) -> PhaseView
    decreases frames.len(),
{
    if frames.len() == 0 {
        PhaseView::Fetching(exes, n, seq![])
    } else {
        match after_pieces(exes, n, frames.drop_last()) {
            PhaseView::Fetching(e, k, packed) => hears_data(
                e,
                k,
                packed,
                ServerView::Data(frames.last()),
            ).0,
            other => other,
        }
    }
}

proof fn pieces_are_gathered(exes: Seq<Seq<char>>, n: int, frames: Seq<Seq<u8>>)
    ensures
        after_pieces(exes, n, frames) == PhaseView::Fetching(exes, n, all_of(frames)),
    decreases frames.len(),
{
    if frames.len() > 0 {
        pieces_are_gathered(exes, n, frames.drop_last());
    }
}

/// What is put in its place is the file that the server has: however it was cut into pieces to be
/// sent, the packed pieces and the end behind them lead to the whole of it.
pub proof fn a_fetch_brings_the_file(
    e: ErrandView,
    exes: Seq<Seq<char>>,
    n: int,
    pieces: Seq<Seq<u8>>,
    frames: Seq<Seq<u8>>,
    raw: u64,
    next: PhaseView,
    act: ActionView,
)
    requires
        frames.len() == pieces.len(),
        forall|i: int| 0 <= i < frames.len() ==> packs(#[trigger] frames[i], pieces[i]),
        leads(
            e,
            after_pieces(exes, n, frames),
            EventView::Heard(ServerView::DataEnd { raw }),
            next,
            act,
        ),
    ensures
        next == PhaseView::Keeping(exes, n),
        act == (ActionView::Keep {
            wire: all_of(frames).len() as int,
            raw: raw as int,
            data: all_of(pieces),
        }),
{
    pieces_are_gathered(exes, n, frames);
    what_is_fetched_is_what_was_served(pieces, frames);
}

/// How a session opens: the host is checked by what it said hello with, what was signed is sent, and the
/// tree is scanned once the server has accepted the key. Anything else ends it, and says so.
pub proof fn how_a_session_opens(e: ErrandView, p: PhaseView, ev: EventView, next: PhaseView, act: ActionView)
    requires
        leads(e, p, ev, next, act),
    ensures
        p is Hello ==> (ev matches EventView::Heard(m) ==> match m {
            ServerView::Hello { nonce, host_pubkey } => next == PhaseView::Signing && act
                == (ActionView::Greet { nonce, host_pubkey }),
            _ => next == PhaseView::Over && act == ActionView::Fail("expected Hello"@),
        }),
        p is Signing ==> (ev matches EventView::Signed(r) ==> match r {
            Ok(m) => next == PhaseView::Auth && act == ActionView::Send(m),
            Err(m) => next == PhaseView::Over && act == ActionView::Fail(m),
        }),
        p is Auth ==> (ev matches EventView::Heard(m) ==> match m {
            ServerView::AuthOk => next == PhaseView::Scanning && act == ActionView::Walk,
            ServerView::Error(x) => next == PhaseView::Over && act == ActionView::Fail("auth: "@ + x),
            _ => next == PhaseView::Over && act == ActionView::Fail("expected AuthOk"@),
        }),
        p is Scanning ==> (ev matches EventView::Scanned(files, unmatched) ==> {
            &&& next == PhaseView::Manifest(files)
            &&& unmatched.len() == 0 ==> act == ActionView::Ask(
                None,
                ClientView::Manifest { project: e.proj },
            )
            &&& unmatched.len() > 0 ==> act == ActionView::Ask(
                Some("[rbuild] --include matched nothing: "@ + joined(unmatched, ", "@)),
                ClientView::Manifest { project: e.proj },
            )
        }),
        p is Over ==> next == PhaseView::Over && act == ActionView::Fail("out of turn"@),
        !(ev is Heard) && (p is Hello || p is Auth || p is Manifest || p is Pushing || p is Building
            || p is Fetching) ==> next == PhaseView::Over && act == ActionView::Fail("out of turn"@),
        !(ev is Signed) && p is Signing ==> next == PhaseView::Over && act == ActionView::Fail("out of turn"@),
        !(ev is Scanned) && p is Scanning ==> next
            == PhaseView::Over && act == ActionView::Fail("out of turn"@),
        !(ev is Read) && p is Reading ==> next == PhaseView::Over && act == ActionView::Fail("out of turn"@),
        !(ev is Kept) && p is Keeping ==> next == PhaseView::Over && act == ActionView::Fail("out of turn"@),
{
}

/// What the server's list of files leads to. Cargo is started at once exactly if the two trees hold the
/// same paths, with files of the same size and no more than a second apart, and a full run has no file
/// to send. Otherwise what differs is sent.
pub proof fn what_a_manifest_leads_to(
    e: ErrandView,
    local: Map<Seq<char>, HeaderView>,
    msg: ServerView,
    next: PhaseView,
    act: ActionView,
)
    requires
        leads(e, PhaseView::Manifest(local), EventView::Heard(msg), next, act),
        forall|p: Seq<char>| #[trigger] local.contains_key(p) ==> local[p].path == p,
    ensures
        msg matches ServerView::Error(m) ==> next == PhaseView::Over && act == ActionView::Fail(m),
        !(msg is Error) && !(msg is Manifest) ==> next
            == PhaseView::Over && act == ActionView::Fail("expected Manifest"@),
        msg matches ServerView::Manifest(v) ==> {
            let there = as_map(v);
            let same = (forall|p: Seq<char>| #[trigger] local.contains_key(p) <==> there.contains_key(p)) && (
            forall|p: Seq<char>| #[trigger]
                local.contains_key(p) ==> !e.full && there[p].size == local[p].size && -1 <= there[p].mtime
                    - local[p].mtime <= 1);
            &&& act is Start <==> same
            &&& act is Push <==> !same
            &&& act matches ActionView::Start { idle, say, msg: m } ==> idle && next == PhaseView::Building(
                JsonView { partial: seq![], made: seq![] },
            )
            &&& act matches ActionView::Push(m, files) ==> {
                &&& next == PhaseView::Pushing
                &&& m matches ClientView::Push { project, deletes, files: sent }
                &&& project == e.proj && sent == files
                &&& forall|p: Seq<char>| #[trigger]
                    deletes.contains(p) <==> there.contains_key(p) && !local.contains_key(p)
                &&& forall|h: HeaderView| #[trigger]
                    files.contains(h) ==> local.contains_key(h.path) && local[h.path] == h
                &&& forall|p: Seq<char>| #[trigger]
                    local.contains_key(p) ==> (files.contains(local[p]) <==> e.full || !there.contains_key(p)
                        || there[p].size != local[p].size || there[p].mtime > local[p].mtime + 1
                        || local[p].mtime > there[p].mtime + 1)
            }
        },
{
    if let ServerView::Manifest(v) = msg {
        let there = as_map(v);
        let none = Seq::<HeaderView>::empty();
        let nothing = Seq::<Seq<char>>::empty();
        assert forall|p: Seq<char>| true implies !nothing.contains(p) by {}
        let same = (forall|p: Seq<char>| #[trigger] local.contains_key(p) <==> there.contains_key(p)) && (
        forall|p: Seq<char>| #[trigger]
            local.contains_key(p) ==> !e.full && there[p].size == local[p].size && -1 <= there[p].mtime
                - local[p].mtime <= 1);
        if settles(local, there, e.full, none, nothing) {
            assert forall|p: Seq<char>| #[trigger] local.contains_key(p) <==> there.contains_key(p) by {
                what_a_sync_sends(local, there, e.full, none, nothing, p);
                assert(!nothing.contains(p));
                if local.contains_key(p) {
                    assert(!none.contains(local[p]));
                }
            }
            assert forall|p: Seq<char>| #[trigger] local.contains_key(p) implies !e.full && there[p].size
                == local[p].size && -1 <= there[p].mtime - local[p].mtime <= 1 by {
                what_a_sync_sends(local, there, e.full, none, nothing, p);
                assert(!none.contains(local[p]));
            }
        }
        if same {
            assert(settles(local, there, e.full, none, nothing));
        }
        if let ActionView::Push(m, files) = act {
            if let ClientView::Push { project, deletes, files: sent } = m {
                assert forall|p: Seq<char>| #[trigger]
                    deletes.contains(p) <==> there.contains_key(p) && !local.contains_key(p) by {
                    what_a_sync_sends(local, there, e.full, files, deletes, p);
                }
                assert forall|h: HeaderView| #[trigger] files.contains(h) implies local.contains_key(h.path)
                    && local[h.path] == h by {
                    what_a_sync_sends(local, there, e.full, files, deletes, h.path);
                }
                assert forall|p: Seq<char>| #[trigger] local.contains_key(p) implies (files.contains(local[p])
                    <==> e.full || !there.contains_key(p) || there[p].size != local[p].size || there[p].mtime
                    > local[p].mtime + 1 || local[p].mtime > there[p].mtime + 1) by {
                    what_a_sync_sends(local, there, e.full, files, deletes, p);
                }
            }
        }
    }
}

/// What starts cargo, and what is said of it: the errand's own command, for its own project, and where a
/// program runs on the server, that it does.
pub proof fn how_cargo_is_started(
    e: ErrandView,
    p: PhaseView,
    ev: EventView,
    next: PhaseView,
    idle: bool,
    say: Option<Seq<char>>,
    msg: ClientView,
)
    requires
        leads(e, p, ev, next, ActionView::Start { idle, say, msg }),
    ensures
        msg == (ClientView::Cargo {
            project: e.proj,
            subcommand: e.job.asked,
            args: e.job.args,
            target: e.job.target,
            trailing: e.job.trailing,
            color: e.color,
        }),
        e.job.mode == Mode::Exec ==> say == Some("[rbuild] running "@ + e.job.asked + " on "@ + e.host),
        e.job.mode != Mode::Exec ==> say is None,
        idle <==> p is Manifest,
        next == PhaseView::Building(JsonView { partial: seq![], made: seq![] }),
{
}

/// Cargo is started once the server has what was sent.
pub proof fn what_a_confirmed_push_leads_to(e: ErrandView, msg: ServerView, next: PhaseView, act: ActionView)
    requires
        leads(e, PhaseView::Pushing, EventView::Heard(msg), next, act),
    ensures
        msg is PushOk ==> act is Start,
        msg matches ServerView::Error(m) ==> next == PhaseView::Over && act == ActionView::Fail(m),
        !(msg is PushOk) && !(msg is Error) ==> next
            == PhaseView::Over && act == ActionView::Fail("expected PushOk"@),
{
}

/// What cargo's streams lead to: its report is read where something is to be fetched, line by line, and
/// everything else is written through, each stream to its own.
pub proof fn what_cargo_says_is_written_or_read(
    e: ErrandView,
    j: JsonView,
    msg: ServerView,
    next: PhaseView,
    act: ActionView,
)
    requires
        leads(e, PhaseView::Building(j), EventView::Heard(msg), next, act),
    ensures
        msg matches ServerView::Output(d) ==> next == PhaseView::Building(j) && act == (ActionView::Write {
            err: true,
            data: d,
        }),
        msg matches ServerView::Chunk { err, data } ==> (err || !(e.job.mode is Fetch) ==> next
            == PhaseView::Building(j) && act == (ActionView::Write { err, data })),
        msg matches ServerView::Chunk { err, data } ==> (!err && e.job.mode is Fetch ==> act
            == ActionView::Parse(lines_in(j.partial + data)) && next == PhaseView::Reading(
            JsonView { partial: tail_of(j.partial + data), made: j.made },
        )),
        msg matches ServerView::Error(m) ==> next == PhaseView::Over && act == ActionView::Fail(m),
        !(msg is Output) && !(msg is Chunk) && !(msg is Exit) && !(msg is Error) ==> next
            == PhaseView::Over && act == ActionView::Fail("unexpected message during build"@),
{
}

/// A build that succeeded and is to be fetched leads to its first binary, or to the end if there is none;
/// one that is in its place leads to the one after it, or to the end.
pub proof fn binaries_are_fetched_in_turn(
    e: ErrandView,
    p: PhaseView,
    ev: EventView,
    next: PhaseView,
    act: ActionView,
    exes: Seq<Seq<char>>,
    n: int,
)
    requires
        leads(e, p, ev, next, act),
        e.job.target is Some,
        0 <= n,
        ({
            ||| n == 0 && ev == EventView::Heard(ServerView::Exit(0)) && (p matches PhaseView::Building(j)
                && e.job.mode matches Mode::Fetch(here) && exes == executables_of(j.made, here))
            ||| n > 0 && ev is Kept && p == PhaseView::Keeping(exes, n - 1)
        }),
    ensures
        n >= exes.len() ==> next == PhaseView::Over && act == ActionView::Finish(0),
        n < exes.len() ==> (under_target(exes[n], e.job.target->0) matches Some(rel) ==> next
            == PhaseView::Fetching(exes, n, seq![]) && act == ActionView::Fetch(
            ClientView::Fetch { project: e.proj, rel },
            landing(rel, e.job.target->0, e.sep),
        )),
        n < exes.len() && under_target(exes[n], e.job.target->0) is None ==> next
            == PhaseView::Over && act
                == ActionView::Fail("cargo reported a binary outside the target dir: "@ + exes[n]),
{
}

/// What the pieces of a binary lead to: they are gathered in order, and the whole is unpacked and kept
/// at the end.
pub proof fn how_a_binary_comes(
    e: ErrandView,
    exes: Seq<Seq<char>>,
    n: int,
    packed: Seq<u8>,
    msg: ServerView,
    next: PhaseView,
    act: ActionView,
)
    requires
        leads(e, PhaseView::Fetching(exes, n, packed), EventView::Heard(msg), next, act),
    ensures
        msg matches ServerView::Data(d) ==> next == PhaseView::Fetching(exes, n, packed + d) && act
            == ActionView::Listen,
        msg matches ServerView::DataEnd { raw } ==> match file_of(packed) {
            Ok(data) => next == PhaseView::Keeping(exes, n) && act == (ActionView::Keep {
                wire: packed.len() as int,
                raw: raw as int,
                data,
            }),
            Err(m) => next == PhaseView::Over && act == ActionView::Fail(m),
        },
        msg matches ServerView::Error(m) ==> next == PhaseView::Over && act == ActionView::Fail("fetch: "@ + m),
        !(msg is Data) && !(msg is DataEnd) && !(msg is Error) ==> next
            == PhaseView::Over && act == ActionView::Fail("unexpected message during fetch"@),
{
}

/// Each line of cargo's report counts for itself, in order: an artifact with an executable that no build
/// script is adds one entry, and any other line adds none.
pub proof fn each_line_counts_for_itself(
    made: Seq<MadeView>,
    a: Seq<Option<RecordView>>,
    b: Seq<Option<RecordView>>,
    r: RecordView,
)
    ensures
        after_reading(made, seq![]) == made,
        after_reading(made, a + b) == after_reading(after_reading(made, a), b),
        after_reading(made, seq![None]) == made,
        (r.reason == "compiler-artifact"@ && r.executable is Some && r.kind is Some && !r.kind->0.contains(
            "custom-build"@,
        )) ==> after_reading(made, seq![Some(r)]) == made.push(
            MadeView { harness: r.test == Some(true), path: r.executable->0 },
        ),
        (r.reason != "compiler-artifact"@ || r.executable is None || r.kind is None || r.kind->0.contains(
            "custom-build"@,
        )) ==> after_reading(made, seq![Some(r)]) == made,
    decreases b.len(),
{
    let none = Seq::<Option<RecordView>>::empty();
    assert(after_reading(made, none) == made);
    assert(seq![None::<RecordView>].drop_last() =~= none);
    assert(seq![Some(r)].drop_last() =~= none);
    if b.len() == 0 {
        assert(a + b =~= a);
    } else {
        each_line_counts_for_itself(made, a, b.drop_last(), r);
        assert((a + b).drop_last() =~= a + b.drop_last());
        assert((a + b).last() == b.last());
    }
}

/// Lines that were read leave the rest of the report as it was, and cargo is listened to again.
pub proof fn what_reading_leads_to(
    e: ErrandView,
    j: JsonView,
    lines: Seq<Option<RecordView>>,
    next: PhaseView,
    act: ActionView,
)
    requires
        leads(e, PhaseView::Reading(j), EventView::Read(lines), next, act),
    ensures
        act == ActionView::Listen,
        next == PhaseView::Building(JsonView { partial: j.partial, made: after_reading(j.made, lines) }),
{
}

/// A binary that has come is kept if it could be unpacked, with both sizes; else the session fails.
pub proof fn what_a_binary_that_came_leads_to(
    exes: Seq<Seq<char>>,
    n: int,
    wire: nat,
    raw: int,
    file: Result<Seq<u8>, Seq<char>>,
)
    ensures
        file matches Ok(data) ==> has_come(exes, n, wire, raw, file) == (
            PhaseView::Keeping(exes, n),
            (ActionView::Keep { wire: wire as int, raw, data }),
        ),
        file matches Err(m) ==> has_come(exes, n, wire, raw, file) == (PhaseView::Over, ActionView::Fail(m)),
{
}

} // verus!
