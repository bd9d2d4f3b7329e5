//! Sessions, step by step.
use cargo_rbuild::command::{Job, Mode};
use cargo_rbuild::files::{collect, Files};
use cargo_rbuild::json::Json;
use cargo_rbuild::pack::{data_message, piece_message, unpack_file, Outgoing};
use cargo_rbuild::plain::{
    plain_after, plain_project, plain_step, program_arrived, program_line, program_name, read_plain,
    PlainAfter, PlainPhase,
};
use cargo_rbuild::plan::Local;
use cargo_rbuild::scan::Scan;
use cargo_rbuild::session::{arrived, copy_headers, step, Action, Errand, Event, Phase};
use cargo_rbuild::{ClientMsg, FileHeader, ServerMsg};

const TARGET: &str = "x86_64-pc-windows-msvc";

fn words(w: &[&str]) -> Vec<String> {
    w.iter().map(|s| s.to_string()).collect()
}

fn errand(mode: Mode, target: Option<&str>) -> Errand {
    Errand {
        proj: "p".to_string(),
        host: "h".to_string(),
        full: false,
        job: Job {
            asked: "build".to_string(),
            args: words(&["-v"]),
            target: target.map(String::from),
            trailing: words(&["x"]),
            mode,
            notice: None,
        },
        color: Some("always".to_string()),
        sep: '\\',
    }
}

fn fetching() -> Errand {
    errand(Mode::Fetch(Local::One), Some(TARGET))
}

fn failure(a: Action) -> String {
    match a {
        Action::Fail(m) => m,
        other => panic!("{other:?}"),
    }
}

fn hear(p: Phase, m: ServerMsg) -> Action {
    step(&fetching(), p, Event::Heard(m)).1
}

fn one_file() -> Files {
    collect(&vec![FileHeader {
        path: "a".to_string(),
        size: 1,
        mtime: 1,
    }])
}

#[test]
fn unexpected_messages_end_the_session() {
    let bye = || ServerMsg::DataEnd { raw: 0 };
    let err = || ServerMsg::Error("e".to_string());
    assert_eq!(failure(hear(Phase::Hello, bye())), "expected Hello");
    assert_eq!(failure(hear(Phase::Auth, bye())), "expected AuthOk");
    assert_eq!(failure(hear(Phase::Auth, err())), "auth: e");
    assert_eq!(failure(hear(Phase::Manifest(one_file()), bye())), "expected Manifest");
    assert_eq!(failure(hear(Phase::Manifest(one_file()), err())), "e");
    assert_eq!(failure(hear(Phase::Pushing, bye())), "expected PushOk");
    assert_eq!(failure(hear(Phase::Pushing, err())), "e");
    let building = || Phase::Building(Json::new());
    assert_eq!(failure(hear(building(), bye())), "unexpected message during build");
    assert_eq!(failure(hear(building(), err())), "e");
    let coming = || Phase::Fetching(words(&["x"]), 0, vec![]);
    assert_eq!(
        failure(hear(coming(), ServerMsg::AuthOk)),
        "unexpected message during fetch"
    );
    assert_eq!(failure(hear(coming(), err())), "fetch: e");
    assert_eq!(failure(hear(Phase::Over, bye())), "out of turn");
    let (p, a) = step(&fetching(), Phase::Signing, Event::Signed(Err("no".to_string())));
    assert!(matches!(p, Phase::Over));
    assert_eq!(failure(a), "no");
}

#[test]
fn cargo_is_asked_for_once_the_tree_is_there() {
    let e = errand(Mode::Exec, None);
    let scan = Scan {
        files: one_file(),
        unmatched: words(&["g", "h"]),
    };
    let (p, a) = step(&e, Phase::Scanning, Event::Scanned(scan));
    match a {
        Action::Ask(Some(s), ClientMsg::Manifest { project }) => {
            assert_eq!(s, "[rbuild] --include matched nothing: g, h");
            assert_eq!(project, "p");
        }
        other => panic!("{other:?}"),
    }
    let (p, a) = step(&e, p, Event::Heard(ServerMsg::Manifest(vec![])));
    match a {
        Action::Push(ClientMsg::Push { project, deletes, files }, sent) => {
            assert_eq!(project, "p");
            assert!(deletes.is_empty());
            assert_eq!(files.len(), 1);
            assert_eq!(copy_headers(&files).len(), sent.len());
        }
        other => panic!("{other:?}"),
    }
    let (p, a) = step(&e, p, Event::Heard(ServerMsg::PushOk { received: 1 }));
    assert!(matches!(p, Phase::Building(_)));
    match a {
        Action::Start {
            idle: false,
            say: Some(s),
            msg:
                ClientMsg::Cargo {
                    project,
                    subcommand,
                    args,
                    target,
                    trailing,
                    color,
                },
        } => {
            assert_eq!(s, "[rbuild] running build on h");
            assert_eq!((project.as_str(), subcommand.as_str()), ("p", "build"));
            assert_eq!(args, words(&["-v"]));
            assert_eq!(target, None);
            assert_eq!(trailing, words(&["x"]));
            assert_eq!(color, Some("always".to_string()));
        }
        other => panic!("{other:?}"),
    }
    let (_, a) = step(&e, p, Event::Heard(ServerMsg::Exit(-3)));
    assert!(matches!(a, Action::Finish(-3)));
}

#[test]
fn merged_output_goes_to_stderr() {
    let a = hear(Phase::Building(Json::new()), ServerMsg::Output(vec![1]));
    assert!(matches!(a, Action::Write { err: true, data } if data == [1]));
    let chunk = ServerMsg::Chunk {
        err: false,
        data: b"x\ny".to_vec(),
    };
    let (p, a) = step(&fetching(), Phase::Building(Json::new()), Event::Heard(chunk));
    assert!(matches!(a, Action::Parse(l) if l == [b"x\n".to_vec()]));
    let (p, a) = step(&fetching(), p, Event::Read(vec![None]));
    assert!(matches!(a, Action::Listen));
    assert!(matches!(p, Phase::Building(j) if j.partial == b"y"));
}

#[test]
fn binaries_come_one_after_the_other() {
    let exes = words(&[
        "/t/x86_64-pc-windows-msvc/debug/a.exe",
        "/t/x86_64-pc-windows-msvc/debug/b.exe",
    ]);
    let mut out = Outgoing::new();
    let mut p = Phase::Fetching(exes, 0, vec![]);
    for piece in [&b"half "[..], &b"and half"[..]] {
        let (q, a) = step(&fetching(), p, Event::Heard(out.piece(piece).expect("packed")));
        assert!(matches!(a, Action::Listen));
        p = q;
    }
    assert_eq!(out.raw, 13);
    let (p, a) = step(&fetching(), p, Event::Heard(out.end()));
    assert!(matches!(a, Action::Keep { raw: 13, data, .. } if data == b"half and half"));
    let (p, a) = step(&fetching(), p, Event::Kept);
    match a {
        Action::Fetch(ClientMsg::Fetch { project, rel }, to) => {
            assert_eq!(project, "p");
            assert_eq!(rel, "x86_64-pc-windows-msvc/debug/b.exe");
            assert_eq!(to, "debug\\b.exe");
        }
        other => panic!("{other:?}"),
    }
    // Of an empty file nothing comes at all.
    let (p, a) = step(&fetching(), p, Event::Heard(ServerMsg::DataEnd { raw: 0 }));
    assert!(matches!(a, Action::Keep { wire: 0, raw: 0, data } if data.is_empty()));
    let (p, a) = step(&fetching(), p, Event::Kept);
    assert!(matches!(p, Phase::Over));
    assert!(matches!(a, Action::Finish(0)));
}

#[test]
fn what_is_no_frame_is_no_file() {
    let p = Phase::Fetching(words(&["x"]), 0, vec![]);
    let (p, _) = step(&fetching(), p, Event::Heard(ServerMsg::Data(b"raw bytes".to_vec())));
    let (p, a) = step(&fetching(), p, Event::Heard(ServerMsg::DataEnd { raw: 9 }));
    assert!(matches!(p, Phase::Over));
    assert!(!failure(a).is_empty());
    match piece_message(b"abc").expect("packed") {
        ServerMsg::Data(d) => assert_eq!(unpack_file(&d), Ok(b"abc".to_vec())),
        other => panic!("{other:?}"),
    }
    assert!(matches!(data_message(Ok(vec![3])), Ok(ServerMsg::Data(d)) if d == [3]));
    assert_eq!(data_message(Err("no".to_string())).err(), Some("no".to_string()));
    let (p, a) = arrived(words(&["x"]), 0, 3, 9, Ok(vec![7]));
    assert!(matches!(p, Phase::Keeping(_, 0)));
    assert!(matches!(a, Action::Keep { wire: 3, raw: 9, data } if data == [7]));
    assert_eq!(failure(arrived(words(&["x"]), 0, 3, 9, Err("no".to_string())).1), "no");
    assert_eq!(failure(program_arrived(3, 9, Err("no".to_string())).1), "no");
}

// ---- the plain client -----------------------------------------------------

#[test]
fn plain_lines_are_read() {
    let c = read_plain(words(&["run", "--release", "--full", "--", "--flag", "x"]));
    assert_eq!(c.sub, "build");
    assert!(c.run && c.full && c.produces());
    assert_eq!(c.profile(), "release");
    assert_eq!(c.args, words(&["--release"]));
    assert_eq!(c.exe_args, words(&["--flag", "x"]));
    let c = read_plain(vec![]);
    assert_eq!(c.sub, "build");
    assert!(!c.run && !c.full);
    assert_eq!(c.profile(), "debug");
    assert!(c.trailing().is_empty());
    assert!(c.puts_in_place(Some(0)) && !c.puts_in_place(Some(1)) && !c.puts_in_place(None));
    let c = read_plain(words(&["check", "--", "x"]));
    assert!(!c.produces() && !c.puts_in_place(Some(0)));
    assert_eq!(c.trailing(), words(&["x"]));
    assert_eq!(plain_project(Some("p".to_string())), Ok("p".to_string()));
    assert_eq!(
        plain_project(None),
        Err("cannot derive project name from cwd".to_string())
    );
    assert_eq!(
        plain_project(Some("a b".to_string())),
        Err("project name \"a b\" has characters I won't send".to_string())
    );
    assert_eq!(program_name("p"), "p.exe");
    assert_eq!(
        program_line(2048, "debug", "p"),
        "[rbuild] 2.0 KB -> target\\remote\\debug\\p.exe"
    );
}

#[test]
fn a_plain_build_fetches_the_program() {
    let c = read_plain(words(&["build"]));
    let (p, a) = plain_step(&c, "p", PlainPhase::Building, Event::Heard(ServerMsg::Exit(0)));
    match a {
        Action::Fetch(ClientMsg::Fetch { project, rel }, to) => {
            assert_eq!(project, "p");
            assert_eq!(rel, "x86_64-pc-windows-msvc/debug/p.exe");
            assert_eq!(to, "p.exe");
        }
        other => panic!("{other:?}"),
    }
    let mut out = Outgoing::new();
    let (p, a) = plain_step(&c, "p", p, Event::Heard(out.piece(b"exe!").expect("packed")));
    assert!(matches!(a, Action::Listen));
    let (p, a) = plain_step(&c, "p", p, Event::Heard(out.end()));
    assert!(matches!(a, Action::Keep { raw: 4, data, .. } if data == b"exe!"));
    assert!(matches!(plain_step(&c, "p", p, Event::Kept).1, Action::Finish(0)));

    let c = read_plain(words(&["clippy", "--", "-D", "warnings"]));
    let (_, a) = plain_step(&c, "p", PlainPhase::Building, Event::Heard(ServerMsg::Exit(0)));
    assert!(matches!(a, Action::Finish(0)));
    let (_, a) = plain_step(&c, "p", PlainPhase::Pushing, Event::Heard(ServerMsg::PushOk { received: 0 }));
    match a {
        Action::Start {
            idle: false,
            say: None,
            msg:
                ClientMsg::Build {
                    subcommand,
                    target,
                    trailing,
                    ..
                },
        } => {
            assert_eq!(subcommand, "clippy");
            assert_eq!(target, Some(TARGET.to_string()));
            assert_eq!(trailing, words(&["-D", "warnings"]));
        }
        other => panic!("{other:?}"),
    }
}

#[test]
fn a_full_plain_run_does_not_ask() {
    let c = read_plain(words(&["--full", "check"]));
    let scan = || Scan {
        files: one_file(),
        unmatched: vec![],
    };
    let (_, a) = plain_step(&c, "p", PlainPhase::Scanning, Event::Scanned(scan()));
    assert!(matches!(a, Action::Push(ClientMsg::Push { deletes, .. }, f) if deletes.is_empty() && f.len() == 1));
    let c = read_plain(words(&["check"]));
    let (p, a) = plain_step(&c, "p", PlainPhase::Scanning, Event::Scanned(scan()));
    assert!(matches!(a, Action::Ask(None, ClientMsg::Manifest { .. })));
    let there = vec![FileHeader {
        path: "a".to_string(),
        size: 1,
        mtime: 2,
    }];
    let (p, a) = plain_step(&c, "p", p, Event::Heard(ServerMsg::Manifest(there)));
    assert!(matches!(p, PlainPhase::Building));
    assert!(matches!(a, Action::Start { idle: true, .. }));
}

#[test]
fn unexpected_messages_end_a_plain_session() {
    let c = read_plain(words(&["build"]));
    let hear = |p: PlainPhase, m: ServerMsg| plain_step(&c, "p", p, Event::Heard(m)).1;
    let err = || ServerMsg::Error("e".to_string());
    assert_eq!(failure(hear(PlainPhase::Hello, err())), "expected Hello");
    assert_eq!(failure(hear(PlainPhase::Auth, err())), "auth: e");
    assert_eq!(failure(hear(PlainPhase::Auth, ServerMsg::Exit(0))), "expected AuthOk");
    assert_eq!(
        failure(hear(PlainPhase::Manifest(one_file()), ServerMsg::AuthOk)),
        "expected Manifest"
    );
    assert_eq!(failure(hear(PlainPhase::Pushing, ServerMsg::AuthOk)), "expected PushOk");
    let chunk = ServerMsg::Chunk {
        err: true,
        data: vec![],
    };
    assert_eq!(
        failure(hear(PlainPhase::Building, chunk)),
        "unexpected message during build"
    );
    assert_eq!(
        failure(hear(PlainPhase::Fetching(vec![]), ServerMsg::AuthOk)),
        "unexpected message during fetch"
    );
    assert_eq!(failure(hear(PlainPhase::Fetching(vec![]), err())), "fetch: e");
    assert_eq!(failure(hear(PlainPhase::Over, err())), "out of turn");
}

#[test]
fn a_plain_run_ends() {
    let run = read_plain(words(&["run"]));
    let build = read_plain(words(&["build"]));
    assert_eq!(plain_after(&run, Some(0)), PlainAfter::Run);
    assert_eq!(plain_after(&build, Some(0)), PlainAfter::Exit(0));
    assert_eq!(plain_after(&run, Some(300)), PlainAfter::Exit(255));
    assert_eq!(plain_after(&run, None), PlainAfter::Exit(1));
}
