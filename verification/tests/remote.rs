//! Whole runs, with a server and its tree in memory: what is typed on one end, what comes of it on
//! the other.
use std::collections::BTreeMap;

use cargo_rbuild::bodies::{Body, Intake, Piece};
use cargo_rbuild::command::{
    after_build, command, fallback, job, next_turn, plain_cargo, program_argv, project_name,
    term_color, After, Command, Fallback, Turn,
};
use cargo_rbuild::globs::Includes;
use cargo_rbuild::json::{Record, RecordProfile, RecordTarget};
use cargo_rbuild::keys::{authorized_keys, check_host, host_key, sign_in, Verdict};
use cargo_rbuild::meta::{Here, Meta, MetaJson, MetadataRun, PkgJson, TgtJson};
use cargo_rbuild::pack::Outgoing;
use cargo_rbuild::paths::emptied_by;
use cargo_rbuild::plan::Local;
use cargo_rbuild::scan::{manifest_of, scan_local, walks_into, Entry, Facts, Modified, Scan};
use cargo_rbuild::server::{
    exit_message, hello, not_synced, output_message, serve, CargoRun, Order, Stage,
};
use cargo_rbuild::session::{step, Action, Errand, Event, Phase};
use cargo_rbuild::{ClientMsg, FileHeader, ServerMsg};

const TARGET: &str = "x86_64-pc-windows-msvc";

fn words(w: &[&str]) -> Vec<String> {
    w.iter().map(|s| s.to_string()).collect()
}

// ---- manifests ------------------------------------------------------------

fn target(kind: &str, name: &str) -> TgtJson {
    TgtJson {
        name: name.to_string(),
        kind: words(&[kind]),
        crate_types: words(&["bin"]),
    }
}

fn lib(name: &str) -> TgtJson {
    TgtJson {
        name: name.to_string(),
        kind: words(&["lib"]),
        crate_types: words(&["lib"]),
    }
}

fn package(name: &str, dir: &str, targets: Vec<TgtJson>) -> PkgJson {
    PkgJson {
        id: format!("path+file://{dir}#{name}@0.1.0"),
        name: name.to_string(),
        manifest: Some(format!("{dir}/Cargo.toml").into_bytes()),
        default_run: None,
        targets,
    }
}

/// Two bins and no `default-run`, an example, and a bench.
fn probe() -> MetaJson {
    MetaJson {
        packages: vec![package(
            "probe",
            "/w/probe",
            vec![
                lib("probe"),
                target("bin", "alpha"),
                target("bin", "beta"),
                target("example", "sample"),
                target("bench", "probebench"),
            ],
        )],
        workspace_root: "/w/probe".to_string(),
        workspace_default_members: None,
    }
}

/// A virtual root with `wscore` (lib + integration test `it`) and `wsbin` (bin + integration test
/// `smoke`).
fn wsprobe() -> MetaJson {
    MetaJson {
        packages: vec![
            package(
                "wscore",
                "/w/wsprobe/crates/wscore",
                vec![lib("wscore"), target("test", "it")],
            ),
            package(
                "wsbin",
                "/w/wsprobe/crates/wsbin",
                vec![target("bin", "wsbin"), target("test", "smoke")],
            ),
        ],
        workspace_root: "/w/wsprobe".to_string(),
        workspace_default_members: None,
    }
}

/// Where a command is typed.
fn place(root: &str, cwd: &str, has_manifest: bool) -> Here {
    Here {
        root: Some(root.as_bytes().to_vec()),
        cwd: Some(cwd.as_bytes().to_vec()),
        manifest: if has_manifest {
            Some(format!("{cwd}/Cargo.toml").into_bytes())
        } else {
            None
        },
    }
}

fn in_probe() -> (MetadataRun, Here) {
    (
        MetadataRun::Report(Some(probe())),
        place("/w/probe", "/w/probe", true),
    )
}

fn ws_root() -> (MetadataRun, Here) {
    (
        MetadataRun::Report(Some(wsprobe())),
        place("/w/wsprobe", "/w/wsprobe", true),
    )
}

fn ws_member(name: &str) -> (MetadataRun, Here) {
    (
        MetadataRun::Report(Some(wsprobe())),
        place("/w/wsprobe", &format!("/w/wsprobe/crates/{name}"), true),
    )
}

// ---- a client -------------------------------------------------------------

/// A command line that got as far as knowing what to ask the server for.
struct Ready {
    command: Command,
    includes: Includes,
    proj: String,
    job: cargo_rbuild::command::Job,
}

/// Everything a client does before it connects.
fn prepare(at: (MetadataRun, Here), args: &[&str]) -> Result<Ready, String> {
    let (command, includes) = command(words(args))?;
    let meta = Meta::load(at.0, &at.1, &command.args)?;
    let root = match &meta {
        Some(m) => m.workspace_root.clone(),
        None => "/w/nowhere".to_string(),
    };
    let name = root.rsplit('/').next().map(|s| s.to_string());
    let proj = project_name(name)?;
    let job = job(&command, &proj, &meta)?;
    Ok(Ready {
        command,
        includes,
        proj,
        job,
    })
}

/// What a run left behind.
#[derive(Default)]
struct Run {
    code: u8,
    out: String,
    err: String,
    /// What was run on this machine, and with which words.
    ran: Vec<(String, Vec<String>)>,
    /// What was fetched.
    kept: Vec<Vec<u8>>,
}

/// A client that never reaches a server.
fn offline(at: (MetadataRun, Here), args: &[&str]) -> Run {
    let mut run = Run::default();
    let r = match prepare(at, args) {
        Ok(r) => r,
        Err(e) => {
            run.code = 1;
            run.err = e;
            return run;
        }
    };
    match fallback(r.command.remote, r.command.native, false, "Connection refused") {
        Fallback::Fail(m) => {
            run.code = 1;
            run.err = m;
        }
        Fallback::Here(m) => {
            run.err = m;
            run.ran.push((
                "cargo".to_string(),
                plain_cargo(&r.command.sub, &r.command.args, &r.command.exe_args),
            ));
        }
    }
    run
}

// ---- a server -------------------------------------------------------------

/// What cargo does on the server: its two outputs and its exit code.
type Cargo = fn(&CargoRun, &mut Rig) -> (String, String, i32);

/// A file: its contents, when it was changed, and whether an ignore rule holds it back.
#[derive(Clone)]
struct File {
    data: Vec<u8>,
    mtime: i64,
    ignored: bool,
}

fn file(data: &str) -> File {
    File {
        data: data.as_bytes().to_vec(),
        mtime: 1_700_000_000,
        ignored: false,
    }
}

fn ignored(data: &str) -> File {
    File {
        ignored: true,
        ..file(data)
    }
}

struct Rig {
    key: String,
    host: String,
    authorized: Vec<Vec<u8>>,
    known: String,
    /// The projects' trees: files and directories.
    src: BTreeMap<String, BTreeMap<String, File>>,
    dirs: BTreeMap<String, Vec<String>>,
    /// The projects' builds.
    builds: BTreeMap<String, Vec<u8>>,
    asked: Vec<(String, CargoRun)>,
}

fn public_line(pem: &str) -> String {
    let key = ssh_key::PrivateKey::from_openssh(pem).expect("key");
    key.public_key().to_openssh().expect("line")
}

impl Rig {
    fn start() -> Rig {
        let key = host_key(None).expect("a key").0;
        let host = host_key(None).expect("a host key").0;
        let authorized = authorized_keys(&public_line(&key));
        Rig {
            key,
            host,
            authorized,
            known: String::new(),
            src: BTreeMap::new(),
            dirs: BTreeMap::new(),
            builds: BTreeMap::new(),
            asked: Vec::new(),
        }
    }

    fn has(&self, project: &str, path: &str) -> bool {
        self.src.get(project).is_some_and(|t| t.contains_key(path))
    }

    fn manifest(&self, project: &str) -> Vec<FileHeader> {
        let mut entries = Vec::new();
        for (path, f) in self.src.get(project).into_iter().flatten() {
            entries.push(entry(path, f));
        }
        manifest_of(&entries)
    }

    fn take(
        &mut self,
        project: &str,
        deletes: &[String],
        files: &[FileHeader],
        stream: &[u8],
    ) -> (u64, usize) {
        let tree = self.src.entry(project.to_string()).or_default();
        let dirs = self.dirs.entry(project.to_string()).or_default();
        for d in deletes {
            tree.remove(d);
            for dir in emptied_by(d) {
                let inside = format!("{dir}/");
                let left = tree.keys().any(|p| p.starts_with(&inside))
                    || dirs.iter().any(|p| p.starts_with(&inside));
                if left {
                    break;
                }
                dirs.retain(|p| *p != dir);
            }
        }
        let mut intake = Intake::new();
        let mut at = 0;
        for h in files {
            for dir in emptied_by(&h.path) {
                if !dirs.contains(&dir) {
                    dirs.push(dir);
                }
            }
            intake.begin(h);
            let mut data = Vec::new();
            while intake.wants() > 0 {
                let n = intake.wants();
                data.extend_from_slice(&stream[at..at + n]);
                at += n;
                intake.took();
            }
            let f = File {
                data,
                mtime: h.mtime,
                ignored: false,
            };
            tree.insert(h.path.clone(), f);
        }
        (intake.received, at)
    }
}

fn entry(path: &str, f: &File) -> Entry {
    Entry {
        file: true,
        facts: Some(Facts {
            size: f.data.len() as u64,
            modified: Modified::At(f.mtime as u64),
        }),
        under: Some(path.split('/').map(|c| Some(c.to_string())).collect()),
    }
}

/// A walk over a local tree, with or without the ignore rules.
fn walk(tree: &BTreeMap<String, File>, ignores: bool) -> Vec<Entry> {
    tree.iter()
        .filter(|(path, f)| {
            path.split('/').all(|c| walks_into(Some(c))) && !(ignores && f.ignored)
        })
        .map(|(path, f)| entry(path, f))
        .collect()
}

fn scan(tree: &BTreeMap<String, File>, includes: &Includes) -> Scan {
    scan_local(&walk(tree, true), &walk(tree, false), includes)
}

/// The bodies of files, back to back.
fn stream(tree: &BTreeMap<String, File>, files: &[FileHeader]) -> Vec<u8> {
    let mut out = Vec::new();
    for h in files {
        let data = &tree[&h.path].data;
        let mut body = Body { left: h.size };
        let mut at = 0;
        while body.left > 0 {
            let n = body.wants().min(data.len() - at);
            match body.read(n) {
                Piece::Read => out.extend_from_slice(&data[at..at + n]),
                Piece::Zeros(z) => out.extend(vec![0u8; z as usize]),
            }
            at += n;
        }
    }
    out
}

fn record(line: &[u8]) -> Option<Record> {
    let v: serde_json::Value = serde_json::from_slice(line).ok()?;
    Some(Record {
        reason: v["reason"].as_str()?.to_string(),
        target: v["target"]["kind"].as_array().map(|k| RecordTarget {
            kind: k.iter().filter_map(|k| k.as_str().map(String::from)).collect(),
        }),
        profile: v["profile"]["test"].as_bool().map(|test| RecordProfile { test }),
        executable: v["executable"].as_str().map(String::from),
    })
}

impl Rig {
    /// A client's run from the tree that is here.
    fn client(
        &mut self,
        tree: &BTreeMap<String, File>,
        at: (MetadataRun, Here),
        args: &[&str],
        cargo: Cargo,
    ) -> Run {
        let mut run = Run::default();
        let r = match prepare(at, args) {
            Ok(r) => r,
            Err(e) => {
                run.code = 1;
                run.err = e;
                return run;
            }
        };
        if let Some(n) = &r.job.notice {
            run.err.push_str(n);
            run.err.push('\n');
        }
        let errand = Errand {
            proj: r.proj.clone(),
            host: "truenas.lan".to_string(),
            full: r.command.full,
            job: r.job,
            color: term_color(None, false),
            sep: '/',
        };

        let (mut stage, first) = hello(&public_line(&self.host)).expect("random bytes");
        let mut inbox = vec![first];
        let mut phase = Phase::Hello;
        let mut event: Option<Event> = None;
        let mut landed: Vec<String> = Vec::new();
        let mut kept: Vec<Vec<u8>> = Vec::new();
        let code = loop {
            let ev = match event.take() {
                Some(ev) => ev,
                None => Event::Heard(inbox.remove(0)),
            };
            let (next, action) = step(&errand, phase, ev);
            phase = next;
            match action {
                Action::Greet { nonce, host_pubkey } => {
                    let (verdict, fp) =
                        check_host(&errand.host, &host_pubkey, &self.known).expect("a host key");
                    assert!(!matches!(verdict, Verdict::Changed(_)));
                    if matches!(verdict, Verdict::New) {
                        let pin = cargo_rbuild::keys::pin_line(&errand.host, &fp);
                        self.known.push_str(&pin);
                    }
                    event = Some(Event::Signed(sign_in(&self.key, &nonce)));
                }
                Action::Walk => {
                    event = Some(Event::Scanned(scan(tree, &r.includes)));
                }
                Action::Send(m) => self.hear(&mut stage, m, Vec::new(), cargo, &mut inbox),
                Action::Ask(say, m) => {
                    run.err.extend(say.into_iter().map(|s| s + "\n"));
                    self.hear(&mut stage, m, Vec::new(), cargo, &mut inbox);
                }
                Action::Push(m, files) => {
                    let bodies = stream(tree, &files);
                    self.hear(&mut stage, m, bodies, cargo, &mut inbox);
                }
                Action::Start { idle, say, msg } => {
                    run.err.push_str(if idle { "sync: up to date\n" } else { "sync: done\n" });
                    run.err.extend(say.into_iter().map(|s| s + "\n"));
                    self.hear(&mut stage, msg, Vec::new(), cargo, &mut inbox);
                }
                Action::Write { err, data } => {
                    let text = String::from_utf8(data).expect("text");
                    if err {
                        run.err.push_str(&text);
                    } else {
                        run.out.push_str(&text);
                    }
                }
                Action::Parse(lines) => {
                    event = Some(Event::Read(lines.iter().map(|l| record(l)).collect()));
                }
                Action::Listen => {}
                Action::Fetch(m, to) => {
                    landed.push(to);
                    self.hear(&mut stage, m, Vec::new(), cargo, &mut inbox);
                }
                Action::Keep { wire, raw, data } => {
                    assert!(wire > 0);
                    assert_eq!(raw, data.len() as u64);
                    kept.push(data);
                    event = Some(Event::Kept);
                }
                Action::Finish(code) => break code,
                Action::Fail(m) => {
                    run.code = 1;
                    run.err.push_str(&m);
                    return run;
                }
            }
        };

        run.kept = kept;
        let argv = program_argv(&r.command.sub, &r.command.exe_args);
        match after_build(code, r.command.here, landed.len()) {
            After::Exit(c) => run.code = c,
            After::Fail(m) => {
                run.code = 1;
                run.err.push_str(&m);
            }
            After::Run => {
                let mut done = 0;
                let mut last = 0;
                loop {
                    match next_turn(landed.len(), done, last) {
                        Turn::Run(i) => {
                            let exe = format!("target/remote/{}", landed[i]);
                            run.err.push_str(&format!("running {exe}\n"));
                            last = argv
                                .iter()
                                .find_map(|a| a.parse::<u8>().ok())
                                .unwrap_or(0);
                            run.ran.push((exe, argv.clone()));
                            done += 1;
                        }
                        Turn::Done(c) => {
                            run.code = c;
                            break;
                        }
                    }
                }
            }
        }
        run
    }

    /// The server hears a message, and the bodies that follow it.
    fn hear(
        &mut self,
        stage: &mut Stage,
        m: ClientMsg,
        bodies: Vec<u8>,
        cargo: Cargo,
        inbox: &mut Vec<ServerMsg>,
    ) {
        let was = std::mem::replace(stage, Stage::Closed);
        let (next, order) = serve(&self.authorized, was, m);
        *stage = next;
        match order {
            Order::Reply(m) => inbox.push(m),
            Order::Refuse(m, _) => inbox.extend(m),
            Order::Close => {}
            Order::List(p) => inbox.push(ServerMsg::Manifest(self.manifest(&p))),
            Order::Take {
                project,
                deletes,
                files,
                bad,
            } => {
                let (received, at) = self.take(&project, &deletes, &files, &bodies);
                assert_eq!(at, bodies.len());
                assert_eq!(bad, None);
                inbox.push(ServerMsg::PushOk { received });
            }
            Order::Run(project, run) => {
                if !self.src.contains_key(&project) {
                    inbox.push(not_synced(&project));
                    inbox.push(exit_message(Some(1)));
                    return;
                }
                let (out, err, code) = cargo(&run, self);
                // Whatever the socket felt like, which is rarely the end of a line.
                for chunk in out.as_bytes().chunks(7) {
                    inbox.push(output_message(run.merged, false, chunk.to_vec()));
                }
                for chunk in err.as_bytes().chunks(7) {
                    inbox.push(output_message(run.merged, true, chunk.to_vec()));
                }
                inbox.push(exit_message(Some(code)));
                self.asked.push((project, run));
            }
            Order::Serve { project, rel } => match self.builds.get(&format!("{project}/{rel}")) {
                Some(data) => {
                    let mut out = Outgoing::new();
                    for d in data.chunks(3) {
                        inbox.push(out.piece(d).expect("packed"));
                    }
                    inbox.push(out.end());
                }
                None => inbox.push(ServerMsg::Error(format!("{rel}: not found"))),
            },
        }
    }
}

fn probe_tree() -> BTreeMap<String, File> {
    let mut t = BTreeMap::new();
    t.insert("Cargo.toml".to_string(), file("[package]\n"));
    t.insert("src/lib.rs".to_string(), file("pub fn probe() {}\n"));
    t.insert("src/bin/alpha.rs".to_string(), file("fn main() {}\n"));
    t
}

/// Cargo that succeeds, and has nothing to say.
fn quiet(_: &CargoRun, _: &mut Rig) -> (String, String, i32) {
    (String::new(), String::new(), 0)
}

/// One line of cargo's report.
fn artifact(kind: &str, test: bool, exe: &str) -> String {
    format!(
        "{{\"reason\":\"compiler-artifact\",\"target\":{{\"kind\":[\"{kind}\"]}},\
         \"profile\":{{\"test\":{test}}},\"executable\":\"{exe}\"}}\n"
    )
}

/// Cargo that runs a program which prints its own words, on both streams, and exits as it is told.
fn runs_there(run: &CargoRun, _: &mut Rig) -> (String, String, i32) {
    let at = run.argv.iter().position(|a| a == "--");
    let mut argv: Vec<String> = match at {
        Some(i) => run.argv[i + 1..].to_vec(),
        None => Vec::new(),
    };
    let who = run.argv[..at.unwrap_or(run.argv.len())].last().cloned();
    let who = who.unwrap_or_default();
    if run.argv[0] == "bench" {
        argv.push("--bench".to_string());
    }
    let out = format!(
        "PROBE={who}\nMANIFEST_DIR=/rig/src/probe\nARGV={argv:?}\nstdout tick 2\n"
    );
    if argv.first().map(|a| a.as_str()) == Some("panic") {
        return (out, "probe panicked on request\n".to_string(), 101);
    }
    let code = argv.first().and_then(|a| a.parse().ok()).unwrap_or(0);
    (out, "stderr tick 2\n".to_string(), code)
}

#[test]
fn remote_run_streams_argv_and_exit_code() {
    let mut rig = Rig::start();
    let r = rig.client(
        &probe_tree(),
        in_probe(),
        &["run", "--remote", "--bin", "alpha", "--", "7", "hello"],
        runs_there,
    );

    assert_eq!(r.code, 7, "the program's exit code is the command's\n{}", r.err);
    assert!(r.out.contains("PROBE=alpha"), "wrong target ran:\n{}", r.out);
    assert!(r.out.contains(r#"ARGV=["7", "hello"]"#), "{}", r.out);
    assert!(r.out.contains("MANIFEST_DIR=/rig/src/probe"), "{}", r.out);

    // Each stream comes back on its own, not folded together.
    assert!(r.out.contains("stdout tick 2"), "stdout missing:\n{}", r.out);
    assert!(r.err.contains("stderr tick 2"), "stderr missing:\n{}", r.err);
    assert!(!r.out.contains("stderr tick"), "{}", r.out);
    assert!(!r.err.contains("stdout tick"), "{}", r.err);

    let (project, run) = &rig.asked[0];
    assert_eq!(project, "probe");
    assert_eq!(run.argv, words(&["run", "--bin", "alpha", "--", "7", "hello"]));
    assert_eq!(run.out, "probe-native");
    assert!(!run.merged);
    assert_eq!(run.color, None);
    assert!(r.err.contains("[rbuild] running run on truenas.lan"), "{}", r.err);
    assert!(r.ran.is_empty(), "nothing runs here under --remote");
}

#[test]
fn remote_bench_runs_and_passes_argv() {
    let mut rig = Rig::start();
    let r = rig.client(
        &probe_tree(),
        in_probe(),
        &["bench", "--remote", "--bench", "probebench", "--", "0"],
        runs_there,
    );

    assert_eq!(r.code, 0, "bench should pass\n{}", r.err);
    assert!(r.out.contains("PROBE=probebench"), "{}", r.out);
    assert!(r.out.contains("--bench"), "cargo's own arg went missing:\n{}", r.out);
    assert!(r.out.contains(r#""0""#), "argv did not reach the bench:\n{}", r.out);
}

#[test]
fn remote_example_panic_fails_the_command() {
    let mut rig = Rig::start();
    let r = rig.client(
        &probe_tree(),
        in_probe(),
        &["run", "--remote", "--example", "sample", "--", "panic"],
        runs_there,
    );

    assert_eq!(r.code, 101, "a panic must fail the command");
    assert!(r.err.contains("probe panicked on request"), "{}", r.err);
}

/// Cargo that builds a bench: the plain bins come along, and the bench's own file has a hash.
fn builds_bench(run: &CargoRun, rig: &mut Rig) -> (String, String, i32) {
    assert_eq!(run.argv[..4], words(&["xwin", "build", "--target", TARGET])[..]);
    let base = format!("/targets/probe/{TARGET}/release");
    let mut out = String::new();
    out.push_str("not a record\n");
    out.push_str(&artifact("custom-build", false, &format!("{base}/build/script.exe")));
    out.push_str(&artifact("bin", false, &format!("{base}/alpha.exe")));
    out.push_str(&artifact("bench", true, &format!("{base}/deps/probebench-0a1b2c3d.exe")));
    rig.builds.insert(
        format!("probe/{TARGET}/release/deps/probebench-0a1b2c3d.exe"),
        b"a program".to_vec(),
    );
    (out, "Finished\n".to_string(), 0)
}

/// Without --remote, a bench is built on the server and run here, off the file
/// cargo named. Nothing reconstructs the hashed filename.
#[test]
fn bench_fetches_the_hashed_binary_and_runs_it_here() {
    let mut rig = Rig::start();
    let r = rig.client(
        &probe_tree(),
        in_probe(),
        &["bench", "--bench", "probebench", "--", "5"],
        builds_bench,
    );

    assert_eq!(r.code, 5, "the bench's exit code is the command's\n{}", r.err);
    assert_eq!(r.ran.len(), 1);
    assert_eq!(r.kept, vec![b"a program".to_vec()]);
    let (exe, argv) = &r.ran[0];
    assert!(exe.contains("probebench"), "wrong target ran:\n{exe}");
    assert!(argv.contains(&"5".to_string()), "argv did not reach the bench:\n{argv:?}");
    // cargo appends this to a bench's argv, and so must we.
    assert!(argv.contains(&"--bench".to_string()), "the bench flag went missing:\n{argv:?}");

    // Ran here, off a fetched file, not on the server.
    assert!(r.err.contains("running target/remote/"), "{}", r.err);
    // The name cargo hashes is the name we fetched.
    assert!(r.err.contains("deps") && r.err.contains("probebench-"), "{}", r.err);
    // An unoptimised bench is not a measurement.
    assert_eq!(
        rig.asked[0].1.argv,
        words(&[
            "xwin",
            "build",
            "--target",
            TARGET,
            "--bench",
            "probebench",
            "--profile",
            "bench",
            "--message-format=json-render-diagnostics",
        ])
    );
    assert_eq!(rig.asked[0].1.out, "probe");
}

fn builds_example(_: &CargoRun, rig: &mut Rig) -> (String, String, i32) {
    let exe = format!("C:\\\\targets\\\\probe\\\\{TARGET}\\\\debug\\\\examples\\\\sample.exe");
    rig.builds.insert(
        format!("probe/{TARGET}/debug/examples/sample.exe"),
        b"a program".to_vec(),
    );
    (artifact("example", false, &exe), String::new(), 0)
}

#[test]
fn example_fetches_and_runs_here() {
    let mut rig = Rig::start();
    let r = rig.client(
        &probe_tree(),
        in_probe(),
        &["run", "--example", "sample", "--", "3"],
        builds_example,
    );

    assert_eq!(r.code, 3, "{}", r.err);
    assert_eq!(r.ran[0].0, "target/remote/debug/examples/sample.exe");
    assert_eq!(r.ran[0].1, words(&["3"]));
    assert!(r.err.contains("examples"), "{}", r.err);
}

fn builds_tests(run: &CargoRun, rig: &mut Rig) -> (String, String, i32) {
    assert!(run.argv.contains(&"--tests".to_string()));
    let base = format!("/targets/probe/{TARGET}/debug");
    let mut out = artifact("bin", false, &format!("{base}/alpha.exe"));
    for name in ["probe-1", "alpha-2"] {
        out.push_str(&artifact("test", true, &format!("{base}/deps/{name}.exe")));
        rig.builds
            .insert(format!("probe/{TARGET}/debug/deps/{name}.exe"), b"t".to_vec());
    }
    (out, String::new(), 0)
}

/// `test` rides the identical path: cargo names the test binaries, we fetch and
/// run them. Doctests are the one thing that cannot come along.
#[test]
fn test_fetches_every_test_binary_and_runs_them_here() {
    let mut rig = Rig::start();
    let r = rig.client(&probe_tree(), in_probe(), &["test"], builds_tests);

    assert_eq!(r.code, 0, "{}", r.err);
    let ran: Vec<&str> = r.ran.iter().map(|(e, _)| e.as_str()).collect();
    assert_eq!(
        ran,
        vec![
            "target/remote/debug/deps/probe-1.exe",
            "target/remote/debug/deps/alpha-2.exe"
        ]
    );
    assert!(r.err.contains("doctests stay on the server"), "{}", r.err);
}

#[test]
fn ambiguity_is_refused() {
    // --remote runs a program; a check doesn't have one.
    let r = offline(in_probe(), &["check", "--remote"]);
    assert_eq!(r.code, 1);
    assert!(r.err.contains("--native"), "{}", r.err);

    // Two bins and no default-run: rbuild must not pick one.
    let r = offline(in_probe(), &["run"]);
    assert_eq!(r.code, 1);
    assert!(r.err.contains("default-run"), "{}", r.err);

    // A typo is cheaper to catch before the build than after it.
    let r = offline(in_probe(), &["run", "--example", "nosuch"]);
    assert_eq!(r.code, 1);
    assert!(r.err.contains("no example target"), "{}", r.err);
}

/// An explicitly native build is server-only: a transport failure must never
/// silently turn it into a local cargo invocation.
#[test]
fn native_build_does_not_fall_back_when_the_server_is_unreachable() {
    let r = offline(in_probe(), &["check", "--native"]);

    assert_eq!(r.code, 1, "an explicit native build must fail remotely\n{}", r.err);
    assert!(r.err.contains("remote build:"), "{}", r.err);
    assert!(r.ran.is_empty());
}

#[test]
fn workspace_root_bare_subcommand_is_no_longer_refused() {
    let r = offline(ws_root(), &["test"]);

    assert!(!r.err.contains("workspace root, not a package"), "{}", r.err);
    // No server on the other end of an offline run, so reaching this point
    // fell back to a local `cargo test`.
    assert_eq!(r.code, 0, "{}", r.err);
    assert_eq!(r.ran, vec![("cargo".to_string(), words(&["test"]))]);
}

#[test]
fn member_dir_build_gets_the_synced_workspace_root() {
    let mut rig = Rig::start();
    let mut tree = BTreeMap::new();
    tree.insert("Cargo.toml".to_string(), file("[workspace]\n"));
    tree.insert("crates/wscore/Cargo.toml".to_string(), file("[package]\n"));
    let r = rig.client(&tree, ws_member("wscore"), &["check"], quiet);

    assert_eq!(r.code, 0, "{}", r.err);
    assert!(rig.has("wsprobe", "Cargo.toml"));
    assert_eq!(
        rig.asked[0].1.argv,
        words(&["xwin", "check", "--target", TARGET, "-p", "wscore"])
    );
}

#[test]
fn dash_p_at_root_runs_the_named_member() {
    let mut rig = Rig::start();
    let r = rig.client(
        &probe_tree(),
        ws_root(),
        &["run", "--remote", "-p", "wsbin"],
        runs_there,
    );

    assert_eq!(r.code, 0, "{}", r.err);
    assert!(r.out.contains("PROBE=wsbin"), "{}", r.out);
    assert_eq!(rig.asked[0].1.argv, words(&["run", "-p", "wsbin"]));
}

#[test]
fn a_deleted_crate_takes_its_directory_off_the_server() {
    let mut rig = Rig::start();
    let mut tree = BTreeMap::new();
    tree.insert("Cargo.toml".to_string(), file("[workspace]\n"));
    tree.insert("crates/wscore/Cargo.toml".to_string(), file("[package]\n"));
    tree.insert("crates/wsextra/Cargo.toml".to_string(), file("[package]\n"));
    tree.insert("crates/wsextra/src/lib.rs".to_string(), file("pub fn extra() {}\n"));
    let before = rig.client(&tree, ws_root(), &["check"], quiet);
    assert_eq!(before.code, 0, "{}", before.err);
    assert!(rig.dirs["wsprobe"].contains(&"crates/wsextra/src".to_string()));

    tree.retain(|p, _| !p.starts_with("crates/wsextra/"));
    let after = rig.client(&tree, ws_root(), &["check"], quiet);

    assert_eq!(after.code, 0, "{}", after.err);
    assert!(!rig.dirs["wsprobe"].contains(&"crates/wsextra".to_string()));
    assert!(!rig.dirs["wsprobe"].contains(&"crates/wsextra/src".to_string()));
    assert!(rig.dirs["wsprobe"].contains(&"crates".to_string()));
}

fn corrupt() -> (MetadataRun, Here) {
    (
        MetadataRun::Failed(b"error: failed to parse manifest at `/w/Cargo.toml`\n\n".to_vec()),
        place("/w/wsprobe", "/w/wsprobe/crates/wscore", true),
    )
}

/// A syntax-broken manifest is a real failure, not a "no manifest here".
#[test]
fn corrupt_manifest_dies_loudly_instead_of_falling_back() {
    let r = offline(corrupt(), &["check"]);
    assert_eq!(r.code, 1, "{}", r.err);
    assert_eq!(r.err, "error: failed to parse manifest at `/w/Cargo.toml`");
}

#[test]
fn corrupt_manifest_is_caught_before_a_partial_sync_reaches_the_server() {
    let mut rig = Rig::start();
    let r = rig.client(&probe_tree(), corrupt(), &["check"], quiet);

    assert_eq!(r.code, 1, "{}", r.err);
    assert!(r.err.contains("failed to parse manifest"), "{}", r.err);
    assert!(!r.err.contains("sync:"), "{}", r.err);
    assert!(rig.src.is_empty());
}

#[test]
fn run_in_binless_package_is_a_clean_error() {
    let r = offline(ws_member("wscore"), &["run"]);
    assert_eq!(r.code, 1, "{}", r.err);
    assert!(r.err.contains("no executable target selected to run"), "{}", r.err);
}

/// A `-p` naming no real package is caught here, not after a build.
#[test]
fn unknown_dash_p_lists_the_real_packages() {
    let r = offline(ws_root(), &["build", "-p", "nosuchpkg"]);

    assert_eq!(r.code, 1);
    assert!(r.err.contains("no package named"), "{}", r.err);
    assert!(r.err.contains("wscore") && r.err.contains("wsbin"), "{}", r.err);
}

#[test]
fn explicit_dash_p_overrides_at_package_from_a_member_dir() {
    let r = offline(ws_member("wscore"), &["build", "-p", "wsbin", "--test", "smoke"]);
    assert_eq!(r.code, 0, "{}", r.err);
}

#[test]
fn explicit_dash_p_typo_from_member_dir_is_still_caught() {
    let r = offline(ws_member("wscore"), &["build", "-p", "nosuchpkg"]);
    assert_eq!(r.code, 1);
    assert!(r.err.contains("no package named"), "{}", r.err);
}

#[test]
fn dash_p_equals_form_parses_the_name_without_the_equals() {
    let r = offline(ws_member("wscore"), &["build", "-p=wsbin", "--test", "smoke"]);
    assert_eq!(r.code, 0, "{}", r.err);
}

#[test]
fn attached_dash_p_form_counts_as_explicit_selection() {
    let r = offline(ws_member("wscore"), &["build", "-pwsbin", "--test", "smoke"]);
    assert_eq!(r.code, 0, "{}", r.err);
    let ready = prepare(ws_member("wscore"), &["build", "-pwsbin", "--test", "smoke"]);
    let args = ready.ok().expect("a job").job.args;
    assert_eq!(args.iter().filter(|a| a.starts_with("-p")).count(), 1);
}

/// `--all` is cargo's deprecated spelling of `--workspace`.
#[test]
fn dash_dash_all_selects_the_whole_workspace() {
    let r = offline(ws_root(), &["build", "--all", "--test", "nosuch"]);
    assert_eq!(r.code, 1);
    assert!(r.err.contains("Available: it, smoke"), "{}", r.err);
}

#[test]
fn typo_check_lists_only_the_selected_packages() {
    let one = offline(ws_root(), &["build", "-p", "wscore", "--test", "nosuch"]);
    assert_eq!(one.code, 1);
    assert!(one.err.contains("Available: it"), "{}", one.err);
    assert!(!one.err.contains("smoke"), "{}", one.err);

    let other = offline(ws_root(), &["build", "-p", "wsbin", "--test", "nosuch"]);
    assert_eq!(other.code, 1);
    assert!(other.err.contains("Available: smoke"), "{}", other.err);

    let all = offline(ws_root(), &["build", "--workspace", "--test", "nosuch"]);
    assert_eq!(all.code, 1);
    assert!(all.err.contains("Available: it, smoke"), "{}", all.err);

    let bare = offline(ws_root(), &["build", "--test", "nosuch"]);
    assert_eq!(bare.code, 1);
    assert!(bare.err.contains("Available: it, smoke"), "{}", bare.err);
}

/// A tree with two files held back by ignore rules.
fn ignoring() -> BTreeMap<String, File> {
    let mut t = probe_tree();
    t.insert(".gitignore".to_string(), file("by-gitignore.txt\n"));
    t.insert(".ignore".to_string(), file("by-dot-ignore.txt\n"));
    t.insert("by-gitignore.txt".to_string(), ignored("not source"));
    t.insert("by-dot-ignore.txt".to_string(), ignored("not source"));
    t
}

#[test]
fn ignored_files_reach_the_server_only_when_included() {
    let tree = ignoring();
    let mut rig = Rig::start();

    let without = rig.client(&tree, in_probe(), &["check"], quiet);
    let synced_without = (
        rig.has("probe", "by-gitignore.txt"),
        rig.has("probe", "by-dot-ignore.txt"),
    );

    let with = rig.client(
        &tree,
        in_probe(),
        &[
            "check",
            "--include",
            "by-gitignore.txt",
            "--include",
            "by-dot-ignore.txt",
        ],
        quiet,
    );
    let synced_with = (
        rig.has("probe", "by-gitignore.txt"),
        rig.has("probe", "by-dot-ignore.txt"),
    );

    let forgotten = rig.client(&tree, in_probe(), &["check"], quiet);
    let kept_after = (
        rig.has("probe", "by-gitignore.txt"),
        rig.has("probe", "by-dot-ignore.txt"),
    );

    assert_eq!(without.code, 0, "{}", without.err);
    assert_eq!(with.code, 0, "{}", with.err);
    assert_eq!(forgotten.code, 0, "{}", forgotten.err);
    assert_eq!(synced_without, (false, false));
    assert_eq!(synced_with, (true, true));
    assert_eq!(kept_after, (false, false));
}

#[test]
fn include_takes_the_attached_form_and_never_reaches_cargo() {
    let mut rig = Rig::start();
    let r = rig.client(
        &ignoring(),
        in_probe(),
        &["check", "--include=**/by-*.txt"],
        quiet,
    );

    assert_eq!(r.code, 0, "{}", r.err);
    assert!(rig.has("probe", "by-gitignore.txt"), "{}", r.err);
    assert!(rig.asked[0].1.argv.iter().all(|a| !a.contains("include")));
}

#[test]
fn git_and_target_stay_behind_under_a_permissive_glob() {
    let mut tree = ignoring();
    tree.insert(".git/HEAD".to_string(), file("ref: refs/heads/main\n"));
    tree.insert("target/junk.bin".to_string(), file("build output"));

    let mut rig = Rig::start();
    let r = rig.client(&tree, in_probe(), &["check", "--include=**"], quiet);

    assert_eq!(r.code, 0, "{}", r.err);
    assert!(rig.has("probe", "by-gitignore.txt"), "{}", r.err);
    assert!(!rig.has("probe", ".git/HEAD"), ".git went to the server");
    assert!(!rig.has("probe", "target/junk.bin"), "target went to the server");
}

#[test]
fn a_glob_that_matches_nothing_says_so() {
    let mut rig = Rig::start();
    let r = rig.client(
        &ignoring(),
        in_probe(),
        &["check", "--include", "by-gitignroe.txt"],
        quiet,
    );

    assert_eq!(r.code, 0, "{}", r.err);
    assert!(
        r.err.contains("--include matched nothing: by-gitignroe.txt"),
        "{}",
        r.err
    );
}

/// A glob is required, and a malformed one is caught before anything connects.
#[test]
fn include_without_a_usable_glob_is_a_usage_error() {
    let bare = offline(in_probe(), &["check", "--include"]);
    assert_eq!(bare.code, 1);
    assert!(bare.err.contains("--include needs a glob"), "{}", bare.err);

    let flag_shaped = offline(in_probe(), &["check", "--include", "--remote"]);
    assert_eq!(flag_shaped.code, 1);
    assert!(
        flag_shaped.err.contains("--include needs a glob"),
        "{}",
        flag_shaped.err
    );

    let malformed = offline(in_probe(), &["check", "--include=a[b"]);
    assert_eq!(malformed.code, 1);
    assert!(malformed.err.contains("--include"), "{}", malformed.err);
}

#[test]
fn a_full_run_without_the_flag_still_takes_the_included_file_off() {
    let tree = ignoring();
    let mut rig = Rig::start();

    let with = rig.client(
        &tree,
        in_probe(),
        &["check", "--include", "by-gitignore.txt"],
        quiet,
    );
    let synced = rig.has("probe", "by-gitignore.txt");

    let forgotten = rig.client(&tree, in_probe(), &["check", "--full"], quiet);
    let kept = rig.has("probe", "by-gitignore.txt");

    assert_eq!(with.code, 0, "{}", with.err);
    assert_eq!(forgotten.code, 0, "{}", forgotten.err);
    assert!(synced, "--include did not send it:\n{}", with.err);
    assert!(!kept, "a --full run without the flag left it on the server");
}

/// Past `--` the words belong to the program, so a flag spelled like one of
/// rbuild's own stays in its argv.
#[test]
fn rbuild_flags_after_the_dash_dash_belong_to_the_program() {
    let mut rig = Rig::start();
    let r = rig.client(
        &probe_tree(),
        in_probe(),
        &[
            "run",
            "--remote",
            "--bin",
            "alpha",
            "--",
            "0",
            "--full",
            "--include",
        ],
        runs_there,
    );

    assert_eq!(r.code, 0, "{}", r.err);
    assert!(
        r.out.contains(r#"ARGV=["0", "--full", "--include"]"#),
        "rbuild ate the program's own arguments:\n{}",
        r.out
    );
}

#[test]
fn a_second_sync_has_nothing_to_do() {
    let tree = probe_tree();
    let mut rig = Rig::start();
    let first = rig.client(&tree, in_probe(), &["check"], quiet);
    let second = rig.client(&tree, in_probe(), &["check"], quiet);
    assert!(first.err.contains("sync: done"), "{}", first.err);
    assert!(second.err.contains("sync: up to date"), "{}", second.err);
    for (path, f) in &tree {
        assert_eq!(rig.src["probe"][path].data, f.data);
        assert_eq!(rig.src["probe"][path].mtime, f.mtime);
    }
}

fn fails(_: &CargoRun, _: &mut Rig) -> (String, String, i32) {
    (String::new(), "error: no\n".to_string(), 101)
}

#[test]
fn a_failed_build_fetches_nothing() {
    let mut rig = Rig::start();
    let r = rig.client(&probe_tree(), in_probe(), &["build"], fails);
    assert_eq!(r.code, 101);
    assert!(r.err.contains("error: no"), "{}", r.err);
    assert!(r.ran.is_empty());
}

fn builds_outside(_: &CargoRun, _: &mut Rig) -> (String, String, i32) {
    (artifact("bin", false, "/elsewhere/alpha.exe"), String::new(), 0)
}

#[test]
fn a_binary_outside_the_target_dir_is_refused() {
    let mut rig = Rig::start();
    let r = rig.client(&probe_tree(), in_probe(), &["build", "--bin", "alpha"], builds_outside);
    assert_eq!(r.code, 1);
    assert!(
        r.err
            .contains("cargo reported a binary outside the target dir: /elsewhere/alpha.exe"),
        "{}",
        r.err
    );
}

#[test]
fn a_stranger_is_turned_away() {
    let mut rig = Rig::start();
    rig.key = host_key(None).expect("another key").0;
    let r = rig.client(&probe_tree(), in_probe(), &["check"], quiet);
    assert_eq!(r.code, 1);
    assert!(r.err.contains("auth: auth denied"), "{}", r.err);
    assert!(rig.src.is_empty());
}

#[test]
fn what_runs_here_is_said() {
    let r = prepare(in_probe(), &["bench", "--native"]).err().expect("refused");
    assert!(r.contains("cargo rbuild bench --remote"), "{r}");
    let r = prepare(in_probe(), &["rbuild", "test"]).ok().expect("a job");
    assert_eq!(r.command.here, Local::Every);
    assert_eq!(r.command.asked, "build");
}
