//! The server's side of a session: what it does with each thing that a client says.
use vstd::prelude::*;
use vstd::string::*;

use crate::files::pushed;
use crate::keys::{
    admission_of, check_auth, key_views, random_bytes, Admission, AdmissionView,
};
use crate::paths::{project_ok, rel_ok, valid_project, valid_rel};
use crate::plan::push_word;
use crate::text::{extend_texts, opt_text, texts};
use crate::wire::{headers, ClientMsg, ClientView, FileHeader, HeaderView, ServerMsg, ServerView};

verus! {

/// How far a session is.
#[derive(Debug)]
pub enum Stage {
    /// The nonce went out, and is to come back signed.
    Greeted(Vec<u8>),
    /// The client is known, and may ask for things.
    Open,
    Closed,
}

/// The model of a [`Stage`].
#[verifier::ext_equal]
pub enum StageView {
    Greeted(Seq<u8>),
    Open,
    Closed,
}

impl View for Stage {
    type V = StageView;

    open spec fn view(&self) -> StageView {
        match self {
            Stage::Greeted(n) => StageView::Greeted(n@),
            Stage::Open => StageView::Open,
            Stage::Closed => StageView::Closed,
        }
    }
}

/// A cargo command, spawned directly: no shell, so nothing in its words can be interpreted.
#[derive(Debug)]
pub struct CargoRun {
    /// The words behind `cargo`.
    pub argv: Vec<String>,
    /// The name of the directory that the build goes to, below where they all are.
    pub out: String,
    /// The `CARGO_TERM_COLOR` it runs with.
    pub color: Option<String>,
    /// Whether its two outputs are sent back as one.
    pub merged: bool,
}

/// The model of a [`CargoRun`].
#[verifier::ext_equal]
pub struct RunView {
    pub argv: Seq<Seq<char>>,
    pub out: Seq<char>,
    pub color: Option<Seq<char>>,
    pub merged: bool,
}

impl View for CargoRun {
    type V = RunView;

    open spec fn view(&self) -> RunView {
        RunView {
            argv: texts(self.argv@),
            out: self.out@,
            color: opt_text(self.color),
            merged: self.merged,
        }
    }
}

/// What the server does next.
#[derive(Debug)]
pub enum Order {
    /// Send this, and listen.
    Reply(ServerMsg),
    /// Send this, if anything, and end the session with an error.
    Refuse(Option<ServerMsg>, String),
    /// End the session.
    Close,
    /// Send back what the project's tree holds, and listen.
    List(String),
    /// Delete these paths in the project's tree, and the directories that this empties. Then take in
    /// these files, whose bodies follow. Then end the session with an error if there is one, or else
    /// send back how much was received, and listen.
    Take { project: String, deletes: Vec<String>, files: Vec<FileHeader>, bad: Option<String> },
    /// Run cargo in the project's tree, send back its output as it comes and then its exit code, and
    /// listen.
    Run(String, CargoRun),
    /// Send back this file of the project's builds, and listen.
    Serve { project: String, rel: String },
}

/// The model of an [`Order`].
#[verifier::ext_equal]
pub enum OrderView {
    Reply(ServerView),
    Refuse(Option<ServerView>, Seq<char>),
    Close,
    List(Seq<char>),
    Take {
        project: Seq<char>,
        deletes: Seq<Seq<char>>,
        files: Seq<HeaderView>,
        bad: Option<Seq<char>>,
    },
    Run(Seq<char>, RunView),
    Serve { project: Seq<char>, rel: Seq<char> },
}

impl View for Order {
    type V = OrderView;

    open spec fn view(&self) -> OrderView {
        match self {
            Order::Reply(m) => OrderView::Reply(m@),
            Order::Refuse(Some(m), e) => OrderView::Refuse(Some(m@), e@),
            Order::Refuse(None, e) => OrderView::Refuse(None, e@),
            Order::Close => OrderView::Close,
            Order::List(p) => OrderView::List(p@),
            Order::Take { project, deletes, files, bad } => OrderView::Take {
                project: project@,
                deletes: texts(deletes@),
                files: headers(files@),
                bad: opt_text(*bad),
            },
            Order::Run(p, r) => OrderView::Run(p@, r@),
            Order::Serve { project, rel } => OrderView::Serve { project: project@, rel: rel@ },
        }
    }
}

/// An error that is sent back.
pub open spec fn says(m: Seq<char>) -> OrderView {
    OrderView::Reply(ServerView::Error(m))
}

/// The paths that may be deleted: the valid ones, in order.
pub open spec fn valid_paths(v: Seq<Seq<char>>) -> Seq<Seq<char>>
    decreases v.len(),
{
    if v.len() == 0 {
        seq![]
    } else if rel_ok(v.last()) {
        valid_paths(v.drop_last()).push(v.last())
    } else {
        valid_paths(v.drop_last())
    }
}

/// The number of files before the first whose path is not valid, or of all of them.
pub open spec fn valid_files(v: Seq<HeaderView>) -> int
    decreases v.len(),
{
    if v.len() == 0 || !rel_ok(v[0].path) {
        0
    } else {
        1 + valid_files(v.skip(1))
    }
}

/// The words behind `cargo`. Across platforms, xwin supplies the MSVC sysroot and lld-link; for the
/// server's own it is plain cargo.
pub open spec fn argv(
    target: Option<Seq<char>>,
    sub: Seq<char>,
    args: Seq<Seq<char>>,
    trailing: Seq<Seq<char>>,
) -> Seq<Seq<char>> {
    let words = match target {
        Some(t) => seq!["xwin"@, sub, "--target"@, t] + args,
        None => seq![sub] + args,
    };
    if trailing.len() == 0 {
        words
    } else {
        words.push("--"@) + trailing
    }
}

/// Where a build goes: the two platforms don't share a directory.
pub open spec fn out_dir(project: Seq<char>, target: Option<Seq<char>>) -> Seq<char> {
    match target {
        Some(_) => project,
        None => project + "-native"@,
    }
}

/// What a session that has just begun makes of what the client says.
pub open spec fn greeted(authorized: Seq<Seq<u8>>, nonce: Seq<u8>, m: ClientView) -> (
    StageView,
    OrderView,
) {
    match m {
        ClientView::Auth { pubkey, sig_pem } => match admission_of(
            authorized,
            nonce,
            pubkey,
            sig_pem,
        ) {
            AdmissionView::Accepted => (StageView::Open, OrderView::Reply(ServerView::AuthOk)),
            AdmissionView::Denied => (
                StageView::Closed,
                OrderView::Refuse(Some(ServerView::Error("auth denied"@)), "auth denied"@),
            ),
            AdmissionView::Broken(e) => (StageView::Closed, OrderView::Refuse(None, e)),
        },
        _ => (
            StageView::Closed,
            OrderView::Refuse(
                Some(ServerView::Error("expected Auth"@)),
                "protocol: expected Auth"@,
            ),
        ),
    }
}

/// What a session with a known client makes of what it says.
pub open spec fn requested(m: ClientView) -> (StageView, OrderView) {
    match m {
        ClientView::Bye => (StageView::Closed, OrderView::Close),
        ClientView::Auth { pubkey, sig_pem } => (StageView::Open, says("already authenticated"@)),
        ClientView::Manifest { project } => (
            StageView::Open,
            if project_ok(project) {
                OrderView::List(project)
            } else {
                says("bad project name"@)
            },
        ),
        // The client is about to stream bodies we can't place, so
        // the stream is now unrecoverable. Drop the connection.
        ClientView::Push { project, deletes, files } => if !project_ok(project) {
            (
                StageView::Closed,
                OrderView::Refuse(
                    Some(ServerView::Error("bad project name"@)),
                    "bad project name on push"@,
                ),
            )
        } else {
            let n = valid_files(files);
            (
                if n < files.len() {
                    StageView::Closed
                } else {
                    StageView::Open
                },
                OrderView::Take {
                    project,
                    deletes: valid_paths(deletes),
                    files: files.take(n),
                    bad: if n < files.len() {
                        Some("bad path "@ + files[n].path)
                    } else {
                        None
                    },
                },
            )
        },
        ClientView::Build { project, subcommand, args, target, trailing } => (
            StageView::Open,
            if project_ok(project) {
                OrderView::Run(
                    project,
                    RunView {
                        argv: argv(target, subcommand, args, trailing),
                        out: out_dir(project, target),
                        color: Some("always"@),
                        merged: true,
                    },
                )
            } else {
                says("bad project name"@)
            },
        ),
        ClientView::Cargo { project, subcommand, args, target, trailing, color } => (
            StageView::Open,
            if project_ok(project) {
                OrderView::Run(
                    project,
                    RunView {
                        argv: argv(target, subcommand, args, trailing),
                        out: out_dir(project, target),
                        color,
                        merged: false,
                    },
                )
            } else {
                says("bad project name"@)
            },
        ),
        ClientView::Fetch { project, rel } => (
            StageView::Open,
            if project_ok(project) && rel_ok(rel) {
                OrderView::Serve { project, rel }
            } else {
                says("bad path"@)
            },
        ),
    }
}

/// What a session makes of what the client says.
pub open spec fn serves(authorized: Seq<Seq<u8>>, s: StageView, m: ClientView) -> (
    StageView,
    OrderView,
) {
    match s {
        StageView::Greeted(nonce) => greeted(authorized, nonce, m),
        StageView::Open => requested(m),
        StageView::Closed => (StageView::Closed, OrderView::Close),
    }
}

/// Begins a session: a nonce of its own, and the hello that holds it. `host_pubkey` is the line of
/// the server's key. It fails only where the system has no random bytes to give.
pub fn hello(host_pubkey: &str) -> (r: Result<(Stage, ServerMsg), String>)
    ensures
        r matches Ok((s, m)) ==> (s@ matches StageView::Greeted(nonce) && nonce.len() == 32 && m@ == (
        ServerView::Hello { nonce, host_pubkey: host_pubkey@ })),
{
    hello_with(random_bytes(32), host_pubkey)
}

/// Begins a session, from what asking the system for a nonce came to.
pub fn hello_with(nonce: Result<Vec<u8>, String>, host_pubkey: &str) -> (r: Result<
    (Stage, ServerMsg),
    String,
>)
    ensures
        match nonce {
            Ok(n) => r matches Ok((s, m)) && s@ == StageView::Greeted(n@) && m@ == (ServerView::Hello {
                nonce: n@,
                host_pubkey: host_pubkey@,
            }),
            Err(e) => r matches Err(m) && m@ == e@,
        },
{
    match nonce {
        Ok(n) => Ok(greet(n, host_pubkey)),
        Err(e) => Err(e),
    }
}

/// Begins a session with a nonce.
pub fn greet(nonce: Vec<u8>, host_pubkey: &str) -> (r: (Stage, ServerMsg))
    ensures
        r.0@ == StageView::Greeted(nonce@),
        r.1@ == (ServerView::Hello { nonce: nonce@, host_pubkey: host_pubkey@ }),
{
    let mut copy: Vec<u8> = Vec::new();
    copy.extend_from_slice(nonce.as_slice());
    assert(copy@ =~= nonce@);
    (Stage::Greeted(nonce), ServerMsg::Hello { nonce: copy, host_pubkey: host_pubkey.to_owned() })
}

fn error(m: &str) -> (r: Order)
    ensures
        r@ == says(m@),
{
    Order::Reply(ServerMsg::Error(m.to_owned()))
}

fn keep_valid(v: &Vec<String>) -> (r: Vec<String>)
    ensures
        texts(r@) == valid_paths(texts(v@)),
{
    let mut out: Vec<String> = Vec::new();
    let ghost t = texts(v@);
    let mut i: usize = 0;
    assert(texts(out@) =~= valid_paths(t.take(0)));
    while i < v.len()
        invariant
            i <= v@.len(),
            t == texts(v@),
            texts(out@) == valid_paths(t.take(i as int)),
        decreases v@.len() - i,
    {
        let ghost was = texts(out@);
        assert(t.take(i + 1).drop_last() =~= t.take(i as int));
        assert(t.take(i + 1).last() == v@[i as int]@);
        if valid_rel(v[i].as_str()) {
            out.push(v[i].clone());
            assert(texts(out@) =~= was.push(v@[i as int]@));
        }
        i += 1;
    }
    assert(t.take(i as int) =~= t);
    out
}

/// Takes in a push, up to the first file whose path is not valid.
fn take_files(project: String, deletes: Vec<String>, files: Vec<FileHeader>) -> (r: (Stage, Order))
    requires
        project_ok(project@),
    ensures
        (r.0@, r.1@) == requested(
            ClientView::Push { project: project@, deletes: texts(deletes@), files: headers(files@) },
        ),
{
    let deletes = keep_valid(&deletes);
    let ghost v = headers(files@);
    let mut out: Vec<FileHeader> = Vec::new();
    let mut i: usize = 0;
    assert(v.skip(0) =~= v);
    while i < files.len() && valid_rel(files[i].path.as_str())
        invariant
            i <= files@.len(),
            v == headers(files@),
            valid_files(v) == i + valid_files(v.skip(i as int)),
            headers(out@) == v.take(i as int),
        decreases files@.len() - i,
    {
        assert(v.skip(i as int)[0] == files@[i as int]@);
        assert(v.skip(i as int).skip(1) =~= v.skip(i + 1));
        let ghost was = headers(out@);
        let c = files[i].clone();
        let ghost cv = c@;
        out.push(c);
        assert(headers(out@) =~= was.push(cv));
        assert(v.take(i + 1) =~= was.push(v[i as int]));
        i += 1;
    }
    if i < files.len() {
        assert(v.skip(i as int)[0] == files@[i as int]@);
        assert(v[i as int] == files@[i as int]@);
        let mut m = "bad path ".to_owned();
        m.append(files[i].path.as_str());
        (Stage::Closed, Order::Take { project, deletes, files: out, bad: Some(m) })
    } else {
        assert(v.skip(i as int).len() == 0);
        assert(v.take(i as int) =~= v);
        (Stage::Open, Order::Take { project, deletes, files: out, bad: None })
    }
}

/// The words behind `cargo`.
pub fn cargo_argv(
    target: &Option<String>,
    sub: &str,
    args: &Vec<String>,
    trailing: &Vec<String>,
) -> (r: Vec<String>)
    ensures
        texts(r@) == argv(opt_text(*target), sub@, texts(args@), texts(trailing@)),
{
    let mut words: Vec<String> = Vec::new();
    match target {
        Some(t) => {
            push_word(&mut words, "xwin");
            push_word(&mut words, sub);
            push_word(&mut words, "--target");
            push_word(&mut words, t.as_str());
            assert(texts(words@) =~= seq!["xwin"@, sub@, "--target"@, t@]);
        },
        None => {
            push_word(&mut words, sub);
            assert(texts(words@) =~= seq![sub@]);
        },
    }
    extend_texts(&mut words, args);
    if trailing.len() > 0 {
        push_word(&mut words, "--");
        extend_texts(&mut words, trailing);
    }
    words
}

fn build_dir(project: &str, target: &Option<String>) -> (r: String)
    ensures
        r@ == out_dir(project@, opt_text(*target)),
{
    let mut dir = project.to_owned();
    if target.is_none() {
        dir.append("-native");
    }
    dir
}

fn request(m: ClientMsg) -> (r: (Stage, Order))
    ensures
        (r.0@, r.1@) == requested(m@),
{
    match m {
        ClientMsg::Bye => (Stage::Closed, Order::Close),
        ClientMsg::Auth { pubkey: _, sig_pem: _ } => (Stage::Open, error("already authenticated")),
        ClientMsg::Manifest { project } => if valid_project(project.as_str()) {
            (Stage::Open, Order::List(project))
        } else {
            (Stage::Open, error("bad project name"))
        },
        ClientMsg::Push { project, deletes, files } => if valid_project(project.as_str()) {
            take_files(project, deletes, files)
        } else {
            (
                Stage::Closed,
                Order::Refuse(
                    Some(ServerMsg::Error("bad project name".to_owned())),
                    "bad project name on push".to_owned(),
                ),
            )
        },
        ClientMsg::Build { project, subcommand, args, target, trailing } => if valid_project(
            project.as_str(),
        ) {
            let argv = cargo_argv(&target, subcommand.as_str(), &args, &trailing);
            let out = build_dir(project.as_str(), &target);
            let run = CargoRun { argv, out, color: Some("always".to_owned()), merged: true };
            (Stage::Open, Order::Run(project, run))
        } else {
            (Stage::Open, error("bad project name"))
        },
        ClientMsg::Cargo { project, subcommand, args, target, trailing, color } => if valid_project(
            project.as_str(),
        ) {
            let argv = cargo_argv(&target, subcommand.as_str(), &args, &trailing);
            let out = build_dir(project.as_str(), &target);
            let run = CargoRun { argv, out, color, merged: false };
            (Stage::Open, Order::Run(project, run))
        } else {
            (Stage::Open, error("bad project name"))
        },
        ClientMsg::Fetch { project, rel } => if valid_project(project.as_str()) && valid_rel(
            rel.as_str(),
        ) {
            (Stage::Open, Order::Serve { project, rel })
        } else {
            (Stage::Open, error("bad path"))
        },
    }
}

/// What the server does with what the client says. `authorized` are the keys that it accepts.
pub fn serve(authorized: &Vec<Vec<u8>>, s: Stage, m: ClientMsg) -> (r: (Stage, Order))
    ensures
        (r.0@, r.1@) == serves(key_views(authorized@), s@, m@),
{
    match s {
        Stage::Greeted(nonce) => match m {
            ClientMsg::Auth { pubkey, sig_pem } => match check_auth(
                authorized,
                &nonce,
                pubkey.as_str(),
                sig_pem.as_str(),
            ) {
                Admission::Accepted => (Stage::Open, Order::Reply(ServerMsg::AuthOk)),
                Admission::Denied => (
                    Stage::Closed,
                    Order::Refuse(
                        Some(ServerMsg::Error("auth denied".to_owned())),
                        "auth denied".to_owned(),
                    ),
                ),
                Admission::Broken(e) => (Stage::Closed, Order::Refuse(None, e)),
            },
            _ => (
                Stage::Closed,
                Order::Refuse(
                    Some(ServerMsg::Error("expected Auth".to_owned())),
                    "protocol: expected Auth".to_owned(),
                ),
            ),
        },
        Stage::Open => request(m),
        Stage::Closed => (Stage::Closed, Order::Close),
    }
}

/// What a chunk of cargo's output is sent back as.
pub fn output_message(merged: bool, err: bool, data: Vec<u8>) -> (r: ServerMsg)
    ensures
        r@ == (if merged {
            ServerView::Output(data@)
        } else {
            ServerView::Chunk { err, data: data@ }
        }),
{
    if merged {
        ServerMsg::Output(data)
    } else {
        ServerMsg::Chunk { err, data }
    }
}

/// What the end of cargo is sent back as. Cargo that was killed has no exit code, and fails.
pub fn exit_message(code: Option<i32>) -> (r: ServerMsg)
    ensures
        r@ == ServerView::Exit(
            match code {
                Some(c) => c,
                None => 1,
            },
        ),
{
    match code {
        Some(c) => ServerMsg::Exit(c),
        None => ServerMsg::Exit(1),
    }
}

/// What is sent back, before an exit code that says failure, where there is no tree to run cargo in.
pub fn not_synced(dir: &str) -> (r: ServerMsg)
    ensures
        r@ == ServerView::Error(dir@ + " not synced"@),
{
    let mut m = dir.to_owned();
    m.append(" not synced");
    ServerMsg::Error(m)
}

/// What is sent back where a file cannot be opened.
pub fn not_served(path: &str, error: &str) -> (r: ServerMsg)
    ensures
        r@ == ServerView::Error(path@ + ": "@ + error@),
{
    let mut m = path.to_owned();
    m.append(": ");
    m.append(error);
    ServerMsg::Error(m)
}

/// The project that an order touches.
pub open spec fn touches(o: OrderView) -> Option<Seq<char>> {
    match o {
        OrderView::List(p) => Some(p),
        OrderView::Take { project, deletes, files, bad } => Some(project),
        OrderView::Run(p, _) => Some(p),
        OrderView::Serve { project, rel } => Some(project),
        _ => None,
    }
}

/// Nothing is done for a client that is not known: only an accepted key opens a session.
pub proof fn only_a_known_client_is_served(
    authorized: Seq<Seq<u8>>,
    s: StageView,
    m: ClientView,
)
    requires
        !(s is Open),
    ensures
        touches(serves(authorized, s, m).1) is None,
        serves(authorized, s, m).0 is Open ==> {
            &&& s matches StageView::Greeted(nonce)
            &&& m matches ClientView::Auth { pubkey, sig_pem }
            &&& admission_of(authorized, nonce, pubkey, sig_pem) == AdmissionView::Accepted
        },
{
}

/// Whatever a client says, the server stays inside its two trees: projects, deleted paths, files and
/// fetched paths are all valid.
pub proof fn what_is_touched_is_valid(authorized: Seq<Seq<u8>>, s: StageView, m: ClientView)
    ensures
        touches(serves(authorized, s, m).1) matches Some(p) ==> project_ok(p),
        match serves(authorized, s, m).1 {
            OrderView::Take { project, deletes, files, bad } => {
                &&& forall|i: int| 0 <= i < deletes.len() ==> rel_ok(#[trigger] deletes[i])
                &&& forall|i: int| 0 <= i < files.len() ==> rel_ok((#[trigger] files[i]).path)
            },
            OrderView::Serve { project, rel } => rel_ok(rel),
            _ => true,
        },
{
    if s is Open {
        if let ClientView::Push { project, deletes, files } = m {
            kept_are_valid(deletes);
            first_are_valid(files);
        }
    }
}

proof fn kept_are_valid(v: Seq<Seq<char>>)
    ensures
        forall|i: int| 0 <= i < valid_paths(v).len() ==> rel_ok(#[trigger] valid_paths(v)[i]),
        forall|p: Seq<char>| #[trigger] valid_paths(v).contains(p) <==> v.contains(p) && rel_ok(p),
    decreases v.len(),
{
    if v.len() > 0 {
        let u = v.drop_last();
        kept_are_valid(u);
        let was = valid_paths(u);
        let now = valid_paths(v);
        assert forall|i: int| 0 <= i < now.len() implies rel_ok(#[trigger] now[i]) by {
            if i < was.len() {
                assert(rel_ok(was[i]));
            }
        }
        assert forall|p: Seq<char>| #[trigger] now.contains(p) <==> v.contains(p) && rel_ok(p) by {
            if now.contains(p) {
                let k = choose|k: int| 0 <= k < now.len() && now[k] == p;
                if k < was.len() {
                    assert(was[k] == p);
                    assert(was.contains(p));
                    let i = choose|i: int| 0 <= i < u.len() && u[i] == p;
                    assert(v[i] == p);
                } else {
                    assert(v[v.len() - 1] == p);
                }
            }
            if v.contains(p) && rel_ok(p) {
                let i = choose|i: int| 0 <= i < v.len() && v[i] == p;
                if i < u.len() {
                    assert(u[i] == p);
                    assert(was.contains(p));
                    let k = choose|k: int| 0 <= k < was.len() && was[k] == p;
                    assert(now[k] == p);
                } else {
                    assert(now[was.len() as int] == p);
                }
            }
        }
    }
}

proof fn first_are_valid(v: Seq<HeaderView>)
    ensures
        0 <= valid_files(v) <= v.len(),
        forall|i: int| 0 <= i < valid_files(v) ==> rel_ok((#[trigger] v[i]).path),
        valid_files(v) < v.len() ==> !rel_ok(v[valid_files(v)].path),
    decreases v.len(),
{
    if v.len() > 0 && rel_ok(v[0].path) {
        let u = v.skip(1);
        first_are_valid(u);
        assert forall|i: int| 0 <= i < valid_files(v) implies rel_ok((#[trigger] v[i]).path) by {
            if i > 0 {
                assert(u[i - 1] == v[i]);
            }
        }
    }
}

/// A push of a valid project and valid files is taken whole, and leaves on the server what the
/// client's own account of it says.
pub proof fn a_valid_push_is_taken_whole(
    authorized: Seq<Seq<u8>>,
    project: Seq<char>,
    deletes: Seq<Seq<char>>,
    files: Seq<HeaderView>,
    tree: Map<Seq<char>, HeaderView>,
)
    requires
        project_ok(project),
        forall|i: int| 0 <= i < files.len() ==> rel_ok((#[trigger] files[i]).path),
    ensures
        ({
            let (stage, order) = serves(
                authorized,
                StageView::Open,
                ClientView::Push { project, deletes, files },
            );
            &&& stage is Open
            &&& order matches OrderView::Take { project: p, deletes: d, files: f, bad }
            &&& p == project && f == files && bad is None
            &&& pushed(tree, d, f) == pushed(tree, deletes, files)
        }),
{
    first_are_valid(files);
    kept_are_valid(deletes);
    assert(valid_files(files) == files.len());
    assert(files.take(files.len() as int) =~= files);
    let d = valid_paths(deletes);
    let a = Set::new(|p: Seq<char>| d.contains(p) && rel_ok(p));
    let b = Set::new(|p: Seq<char>| deletes.contains(p) && rel_ok(p));
    assert(a =~= b);
}

proof fn valid_paths_filter(v: Seq<Seq<char>>, keep: spec_fn(Seq<char>) -> bool)
    requires
        forall|p: Seq<char>| #[trigger] keep(p) == rel_ok(p),
    ensures
        valid_paths(v) == v.filter(keep),
    decreases v.len(),
{
    reveal(Seq::filter);
    if v.len() > 0 {
        valid_paths_filter(v.drop_last(), keep);
    } else {
        assert(v.filter(keep) =~= Seq::<Seq<char>>::empty());
    }
}

proof fn valid_files_is(v: Seq<HeaderView>, i: int)
    requires
        0 <= i <= v.len(),
        i < v.len() ==> !rel_ok(v[i].path),
        forall|j: int| 0 <= j < i ==> rel_ok((#[trigger] v[j]).path),
    ensures
        valid_files(v) == i,
{
    first_are_valid(v);
    let n = valid_files(v);
    if n < i {
        assert(rel_ok(v[n].path));
    } else if i < n {
        assert(rel_ok(v[i].path));
    }
}

/// A push is taken up to the first file whose path is not valid, which ends the session; of the paths to
/// delete, the valid ones are, in order. A project whose name is not valid ends the session too.
pub proof fn how_a_push_is_taken(
    authorized: Seq<Seq<u8>>,
    project: Seq<char>,
    deletes: Seq<Seq<char>>,
    files: Seq<HeaderView>,
    i: int,
)
    requires
        0 <= i <= files.len(),
        i < files.len() ==> !rel_ok(files[i].path),
        forall|j: int| 0 <= j < i ==> rel_ok((#[trigger] files[j]).path),
    ensures
        !project_ok(project) ==> serves(
            authorized,
            StageView::Open,
            ClientView::Push { project, deletes, files },
        ) == (
            StageView::Closed,
            OrderView::Refuse(
                Some(ServerView::Error("bad project name"@)),
                "bad project name on push"@,
            ),
        ),
        project_ok(project) && i == files.len() ==> serves(
            authorized,
            StageView::Open,
            ClientView::Push { project, deletes, files },
        ) == (
            StageView::Open,
            OrderView::Take {
                project,
                deletes: deletes.filter(|p: Seq<char>| rel_ok(p)),
                files,
                bad: None,
            },
        ),
        project_ok(project) && i < files.len() ==> serves(
            authorized,
            StageView::Open,
            ClientView::Push { project, deletes, files },
        ) == (
            StageView::Closed,
            OrderView::Take {
                project,
                deletes: deletes.filter(|p: Seq<char>| rel_ok(p)),
                files: files.subrange(0, i),
                bad: Some("bad path "@ + files[i].path),
            },
        ),
{
    valid_files_is(files, i);
    valid_paths_filter(deletes, |p: Seq<char>| rel_ok(p));
    assert(files.take(files.len() as int) =~= files);
}

/// What a known client is answered, whatever it asks for but a push. An invalid project or path is
/// refused and the session goes on; only a goodbye ends it.
pub proof fn what_a_known_client_is_answered(
    authorized: Seq<Seq<u8>>,
    project: Seq<char>,
    rel: Seq<char>,
    sub: Seq<char>,
    args: Seq<Seq<char>>,
    target: Option<Seq<char>>,
    trailing: Seq<Seq<char>>,
    color: Option<Seq<char>>,
    pubkey: Seq<char>,
    sig_pem: Seq<char>,
)
    ensures
        serves(authorized, StageView::Open, ClientView::Bye) == (StageView::Closed, OrderView::Close),
        serves(authorized, StageView::Open, ClientView::Auth { pubkey, sig_pem }) == (
            StageView::Open,
            OrderView::Reply(ServerView::Error("already authenticated"@)),
        ),
        project_ok(project) ==> {
            &&& serves(authorized, StageView::Open, ClientView::Manifest { project }) == (
                StageView::Open,
                OrderView::List(project),
            )
            &&& rel_ok(rel) ==> serves(authorized, StageView::Open, ClientView::Fetch { project, rel }) == (
                StageView::Open,
                OrderView::Serve { project, rel },
            )
            &&& serves(
                authorized,
                StageView::Open,
                ClientView::Build { project, subcommand: sub, args, target, trailing },
            ) == (
                StageView::Open,
                OrderView::Run(
                    project,
                    RunView {
                        argv: argv(target, sub, args, trailing),
                        out: out_dir(project, target),
                        color: Some("always"@),
                        merged: true,
                    },
                ),
            )
            &&& serves(
                authorized,
                StageView::Open,
                ClientView::Cargo { project, subcommand: sub, args, target, trailing, color },
            ) == (
                StageView::Open,
                OrderView::Run(
                    project,
                    RunView {
                        argv: argv(target, sub, args, trailing),
                        out: out_dir(project, target),
                        color,
                        merged: false,
                    },
                ),
            )
        },
        !project_ok(project) || !rel_ok(rel) ==> serves(
            authorized,
            StageView::Open,
            ClientView::Fetch { project, rel },
        ) == (StageView::Open, OrderView::Reply(ServerView::Error("bad path"@))),
        !project_ok(project) ==> {
            let bad = (StageView::Open, OrderView::Reply(ServerView::Error("bad project name"@)));
            &&& serves(authorized, StageView::Open, ClientView::Manifest { project }) == bad
            &&& serves(
                authorized,
                StageView::Open,
                ClientView::Build { project, subcommand: sub, args, target, trailing },
            ) == bad
            &&& serves(
                authorized,
                StageView::Open,
                ClientView::Cargo { project, subcommand: sub, args, target, trailing, color },
            ) == bad
        },
{
}

/// How the server calls cargo: across platforms through xwin with the platform named, for its own plainly;
/// the client's words follow, and behind a `--` what it wants there. Each platform's builds have a
/// directory of their own, so one never answers for the other.
pub proof fn how_the_server_calls_cargo(
    project: Seq<char>,
    target: Seq<char>,
    sub: Seq<char>,
    args: Seq<Seq<char>>,
    trailing: Seq<Seq<char>>,
)
    ensures
        trailing.len() == 0 ==> argv(Some(target), sub, args, trailing) == seq![
            "xwin"@,
            sub,
            "--target"@,
            target,
        ] + args,
        trailing.len() == 0 ==> argv(None, sub, args, trailing) == seq![sub] + args,
        trailing.len() > 0 ==> argv(Some(target), sub, args, trailing) == seq![
            "xwin"@,
            sub,
            "--target"@,
            target,
        ] + args + seq!["--"@] + trailing,
        trailing.len() > 0 ==> argv(None, sub, args, trailing) == seq![sub] + args + seq!["--"@] + trailing,
        out_dir(project, Some(target)) == project,
        out_dir(project, None) == project + "-native"@,
        out_dir(project, Some(target)) != out_dir(project, None),
{
    reveal_strlit("-native");
    assert(argv(Some(target), sub, args, trailing) =~= if trailing.len() == 0 {
        seq!["xwin"@, sub, "--target"@, target] + args
    } else {
        seq!["xwin"@, sub, "--target"@, target] + args + seq!["--"@] + trailing
    });
    assert(argv(None, sub, args, trailing) =~= if trailing.len() == 0 {
        seq![sub] + args
    } else {
        seq![sub] + args + seq!["--"@] + trailing
    });
    assert(out_dir(project, None).len() == project.len() + 7);
}

/// How a session begins: an accepted key opens it, a key that is not is told so, and anything else than a
/// key is a breach. A session that is over answers nothing.
pub proof fn how_a_client_is_let_in(
    authorized: Seq<Seq<u8>>,
    nonce: Seq<u8>,
    pubkey: Seq<char>,
    sig_pem: Seq<char>,
    m: ClientView,
)
    ensures
        ({
            let out = serves(authorized, StageView::Greeted(nonce), ClientView::Auth { pubkey, sig_pem });
            match admission_of(authorized, nonce, pubkey, sig_pem) {
                AdmissionView::Accepted => out == (StageView::Open, OrderView::Reply(ServerView::AuthOk)),
                AdmissionView::Denied => out == (
                    StageView::Closed,
                    OrderView::Refuse(Some(ServerView::Error("auth denied"@)), "auth denied"@),
                ),
                AdmissionView::Broken(e) => out == (StageView::Closed, OrderView::Refuse(None, e)),
            }
        }),
        !(m is Auth) ==> serves(authorized, StageView::Greeted(nonce), m) == (
            StageView::Closed,
            OrderView::Refuse(
                Some(ServerView::Error("expected Auth"@)),
                "protocol: expected Auth"@,
            ),
        ),
        serves(authorized, StageView::Closed, m) == (StageView::Closed, OrderView::Close),
{
}

} // verus!
