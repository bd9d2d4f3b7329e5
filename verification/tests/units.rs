//! The pieces, one by one.
use cargo_rbuild::bodies::{shows_progress, total, Body, Intake, Piece};
use cargo_rbuild::command::{
    after_build, choose_host, choose_port, command, error_line, fallback, idle_notice, next_turn, plain_cargo,
    program_argv, project_name, read_command, term_color, After, Fallback, Turn,
};
use cargo_rbuild::files::{collect, is_stale, sync_plan, Files};
use cargo_rbuild::flags::{
    parse_flags, parse_package_selection, take_own_flags, Artifact, Flag, Kind, Own, PkgSel,
};
use cargo_rbuild::globs::{glob_message, set_message, Includes};
use cargo_rbuild::json::{Json, Record, RecordProfile, RecordTarget};
use cargo_rbuild::keys::{
    auth_message, authorized_keys, candidate_lines, changed_message, check_auth, check_host,
    choose_home, decide_admission, host_key, host_lines, needs_passphrase, new_key, passphrase_prompt, pin_line,
    pin_notice, sign_in, unlock, unreadable_key, verify_host, Admission, Verdict,
};
use cargo_rbuild::meta::{list_names, Here, Meta, MetaJson, MetadataRun, PkgJson, TgtJson};
use cargo_rbuild::number::{decimal, parse_port};
use cargo_rbuild::order::{sorted, sorts_before};
use cargo_rbuild::paths::{emptied_by, fetched_name, rel_under_target};
use cargo_rbuild::plan::{plan, select, Local};
use cargo_rbuild::report::{exit_byte, fetch_line, human, mark, sync_line, upload_line};
use cargo_rbuild::scan::{
    find_included, header_for, header_there, merge, scan_local, walks_into, Entry, Facts, Found, Modified,
};
use cargo_rbuild::server::{
    cargo_argv, exit_message, greet, hello, hello_with, not_served, not_synced, output_message, serve, Order,
    Stage,
};
use cargo_rbuild::text::{
    find, is_white, join, lines, respell, split_on, split_once, starts_with, trim, trim_end,
};
use cargo_rbuild::wire::{body_len, FrameError, MAX_FRAME};
use cargo_rbuild::{
    recv, send, valid_project, valid_rel, ClientMsg, FileHeader, ServerMsg, CHUNK, NAMESPACE, PORT,
};

fn words(w: &[&str]) -> Vec<String> {
    w.iter().map(|s| s.to_string()).collect()
}

fn header(path: &str, size: u64, mtime: i64) -> FileHeader {
    FileHeader {
        path: path.to_string(),
        size,
        mtime,
    }
}

// ---- the wire -------------------------------------------------------------

#[test]
fn the_protocol_has_its_numbers() {
    assert_eq!(PORT, 7878);
    assert_eq!(NAMESPACE, "rbuild@local");
    assert_eq!(CHUNK, 1 << 20);
    assert_eq!(MAX_FRAME, 16 << 20);
}

#[test]
fn frames_read_back() {
    let mut w = vec![9u8];
    assert_eq!(send(&mut w, b"hello"), Ok(()));
    assert_eq!(w, vec![9, 5, 0, 0, 0, b'h', b'e', b'l', b'l', b'o']);
    assert_eq!(send(&mut w, b""), Ok(()));
    let (body, n) = recv(&w[1..]).expect("a frame");
    assert_eq!((body.as_slice(), n), (&b"hello"[..], 9));
    let (body, n) = recv(&w[1 + n..]).expect("a frame");
    assert_eq!((body.len(), n), (0, 4));
}

#[test]
fn frames_have_an_end() {
    assert_eq!(recv(&[1, 0, 0]), Err(FrameError::Truncated));
    assert_eq!(recv(&[2, 0, 0, 0, 7]), Err(FrameError::Truncated));
    assert_eq!(recv(&[1, 0, 0, 1]), Err(FrameError::TooLarge));
    assert_eq!(body_len([0, 0, 0, 1]), Ok(16 << 20));
    assert_eq!(body_len([1, 2, 0, 0]), Ok(513));
    assert_eq!(body_len([1, 0, 0, 1]), Err(FrameError::TooLarge));
    let big = vec![0u8; (16 << 20) + 1];
    let mut w = Vec::new();
    assert_eq!(send(&mut w, &big), Err(FrameError::TooLarge));
    assert!(w.is_empty());
    assert_eq!(send(&mut w, &big[1..]), Ok(()));
    assert_eq!(w.len(), 4 + (16 << 20));
    assert_eq!(FrameError::TooLarge.message(), "frame too large");
    assert_eq!(FrameError::Truncated.message(), "unexpected end of stream");
}

// ---- paths ----------------------------------------------------------------

#[test]
fn project_names_are_one_component() {
    for ok in ["a", "cargo-rbuild", "x_1.2", "...", "-"] {
        assert!(valid_project(ok), "{ok}");
    }
    for bad in ["", ".", "..", "a/b", "a\\b", "a b", "\u{e9}", "a\0"] {
        assert!(!valid_project(bad), "{bad}");
    }
    assert!(valid_project(&"a".repeat(128)));
    assert!(!valid_project(&"a".repeat(129)));
}

#[test]
fn relative_paths_stay_below() {
    for ok in ["a", "src/lib.rs", ".cargo/config.toml", "a/.../b", "./a", "\u{e9}"] {
        assert!(valid_rel(ok), "{ok}");
    }
    for bad in ["", "/a", "a//b", "a/", "../a", "a/..", "a\\b", "a\0b"] {
        assert!(!valid_rel(bad), "{bad}");
    }
    assert!(valid_rel(&"a".repeat(4096)));
    assert!(!valid_rel(&"a".repeat(4097)));
    assert!(!valid_rel(&"\u{e9}".repeat(2049)));
}

#[test]
fn binaries_are_found_below_their_target() {
    let t = "x86_64-pc-windows-msvc";
    assert_eq!(
        rel_under_target("/targets/p/x86_64-pc-windows-msvc/debug/p.exe", t),
        Some("x86_64-pc-windows-msvc/debug/p.exe".to_string())
    );
    assert_eq!(
        rel_under_target("C:\\t\\x86_64-pc-windows-msvc\\debug\\p.exe", t),
        Some("x86_64-pc-windows-msvc/debug/p.exe".to_string())
    );
    assert_eq!(rel_under_target("/targets/p/debug/p.exe", t), None);
    assert_eq!(rel_under_target("/t/x86_64-pc-windows-msvc/../p", t), None);
    assert_eq!(
        fetched_name("x86_64-pc-windows-msvc/debug/deps/p-1.exe", t, '\\'),
        "debug\\deps\\p-1.exe"
    );
}

#[test]
fn what_is_fetched_lands_below() {
    let t = "x86_64-pc-windows-msvc";
    for exe in [
        "/targets/p/x86_64-pc-windows-msvc/debug/p.exe",
        "/x86_64-pc-windows-msvc/x86_64-pc-windows-msvc/p",
        "/a/x86_64-pc-windows-msvc/x",
    ] {
        let rel = rel_under_target(exe, t).expect("below the target");
        assert!(rel.starts_with(t), "{rel}");
        assert!(valid_rel(&rel), "{rel}");
        assert!(valid_rel(&fetched_name(&rel, t, '/')), "{rel}");
        for dir in emptied_by(&rel) {
            assert!(valid_rel(&dir), "{dir}");
        }
    }
}

#[test]
fn emptied_directories_come_innermost_first() {
    assert_eq!(emptied_by("crates/a/src/lib.rs"), words(&["crates/a/src", "crates/a", "crates"]));
    assert!(emptied_by("Cargo.toml").is_empty());
}

// ---- text -----------------------------------------------------------------

#[test]
fn white_space_is_what_it_is_elsewhere() {
    for c in '\0'..=char::MAX {
        assert_eq!(is_white(c), c.is_whitespace(), "{c:?}");
    }
}

#[test]
fn texts_are_taken_apart_as_elsewhere() {
    for s in ["", "\n", "a", "a\nb", "a\r\nb\r\n", "a\r", "\r\n\n", "x\n\ny\r"] {
        let expect: Vec<String> = s.lines().map(String::from).collect();
        assert_eq!(lines(s), expect, "{s:?}");
    }
    for s in ["", " a b ", "\u{3000}x\t", "\n"] {
        assert_eq!(trim(s), s.trim());
        assert_eq!(trim_end(s), s.trim_end());
    }
    assert_eq!(split_on("a//b", '/'), words(&["a", "", "b"]));
    assert_eq!(split_on("", '/'), words(&[""]));
    assert_eq!(split_once("a=b=c", '='), ("a".to_string(), Some("b=c".to_string())));
    assert_eq!(split_once("abc", '='), ("abc".to_string(), None));
    assert_eq!(join(&words(&["a", "b", ""]), ", "), "a, b, ");
    assert_eq!(respell("a/b", '/', '\\'), "a\\b");
    assert!(starts_with("--profile=x", "--profile"));
    assert!(!starts_with("--pro", "--profile"));
    let x: Vec<char> = "could not find".chars().collect();
    assert_eq!(find(&x, &"not".chars().collect()), Some(6));
    assert_eq!(find(&x, &"nit".chars().collect()), None);
}

#[test]
fn names_sort_by_their_bytes() {
    assert!(sorts_before("Z", "a"));
    assert!(sorts_before("a", "aa"));
    assert!(!sorts_before("a", "a"));
    assert!(sorts_before("z", "\u{e9}"));
    let mut v = words(&["b", "a", "\u{10000}", "\u{ffff}", "a", ""]);
    let s = sorted(&v);
    v.sort();
    assert_eq!(s, v);
}

#[test]
fn numbers_are_decimal() {
    assert_eq!(decimal(0), "0");
    assert_eq!(decimal(u64::MAX), "18446744073709551615");
    for n in [0u16, 9, 10, 7878, 65535] {
        assert_eq!(parse_port(&decimal(n as u64)), Some(n));
    }
    for s in ["7878", "+80", "0", "007", "65535", "65536", "", "+", "-1", " 1", "1x", "99999999999"] {
        assert_eq!(parse_port(s), s.parse::<u16>().ok(), "{s:?}");
    }
}

// ---- sizes ----------------------------------------------------------------

fn with_doubles(n: u64) -> String {
    let units = ["B", "KB", "MB", "GB"];
    let mut v = n as f64;
    let mut i = 0;
    while v >= 1024.0 && i < 3 {
        v /= 1024.0;
        i += 1;
    }
    if i == 0 {
        format!("{n} B")
    } else {
        format!("{v:.1} {}", units[i])
    }
}

#[test]
fn sizes_read_as_doubles_do() {
    assert_eq!(human(0), "0 B");
    assert_eq!(human(1023), "1023 B");
    assert_eq!(human(1024), "1.0 KB");
    assert_eq!(human(1536), "1.5 KB");
    assert_eq!(human(1 << 20), "1.0 MB");
    assert_eq!(human(5 << 30), "5.0 GB");
    assert_eq!(human(u64::MAX), with_doubles(u64::MAX));
    // Ties: 1.25 KB and 1.75 KB, 0.05 off either way.
    assert_eq!(human(1280), with_doubles(1280));
    assert_eq!(human(1792), with_doubles(1792));
    let mut n: u64 = 1;
    let mut x: u64 = 0x9e37_79b9_7f4a_7c15;
    for i in 0..20_000u64 {
        x ^= x << 13;
        x ^= x >> 7;
        x ^= x << 17;
        n = x >> (i % 64);
        assert_eq!(human(n), with_doubles(n), "{n}");
    }
    for k in 10..64 {
        for d in 0..3u64 {
            n = (1u64 << k).wrapping_add(d).wrapping_sub(1);
            assert_eq!(human(n), with_doubles(n), "{n}");
        }
    }
    for n in (0..4_000_000u64).step_by(51) {
        assert_eq!(human(n), with_doubles(n), "{n}");
    }
}

#[test]
fn lines_for_the_terminal() {
    assert_eq!(mark("x"), "[rbuild] x");
    assert_eq!(
        sync_line(3, 1, 1536, "0.4"),
        "[rbuild] sync: 3 up, 1 del, 1.5 KB in 0.4s"
    );
    assert_eq!(
        fetch_line(1024, 2048, "2.0", "target/remote/x"),
        "[rbuild] 1.0 KB on the wire, 2.0 KB on disk (2.0x) -> target/remote/x"
    );
    assert_eq!(upload_line(10, 2048), "[rbuild] uploading 10 B/2.0 KB   ");
    assert_eq!(error_line("no"), "[rbuild] error: no");
}

#[test]
fn exit_codes_fit_a_byte() {
    for c in [0, 1, 7, 101, 255, 256, 300, i32::MAX, -1, -256, i32::MIN] {
        assert_eq!(exit_byte(Some(c)), c.min(255) as u8, "{c}");
    }
    assert_eq!(exit_byte(None), 1);
}

// ---- flags ----------------------------------------------------------------

#[test]
fn own_flags_come_off() {
    let own = take_own_flags(words(&[
        "--full", "check", "--include", "a*", "-v", "--include=b", "--native", "--remote", "--",
        "--full",
    ]))
    .ok()
    .expect("a line");
    assert!(own.full && own.native && own.remote);
    assert_eq!(own.includes, words(&["a*", "b"]));
    assert_eq!(own.rest, words(&["check", "-v", "--", "--full"]));
    for bad in [&["--include"][..], &["--include", "-x"], &["--include="]] {
        let e = take_own_flags(words(bad)).err().expect("an error");
        assert_eq!(e, "--include needs a glob");
    }
}

#[test]
fn target_flags_are_read() {
    let f = parse_flags(&words(&[
        "--bin", "a", "--example=b", "-v", "--lib", "--bins", "--tests", "--benches", "--examples",
        "--all-targets", "--test", "t", "--bench=x=y",
    ]))
    .expect("flags");
    assert_eq!(f.len(), 10);
    assert!(matches!(&f[0], Flag::One(Kind::Bin, n) if n == "a"));
    assert!(matches!(&f[1], Flag::One(Kind::Example, n) if n == "b"));
    assert!(matches!(&f[2], Flag::Lib));
    assert!(matches!(&f[3], Flag::All(Kind::Bin)));
    assert!(matches!(&f[7], Flag::AllTargets));
    assert!(matches!(&f[9], Flag::One(Kind::Bench, n) if n == "x=y"));
    assert_eq!(parse_flags(&words(&["--bin"])).err(), Some("--bin needs a name".to_string()));
    assert_eq!(
        parse_flags(&words(&["--test", "-x"])).err(),
        Some("--test needs a name".to_string())
    );
    let a = Artifact::new(Kind::Bench, "perf".to_string());
    assert_eq!(a.label(), "--bench perf");
    assert_eq!(a.flag(), ["--bench".to_string(), "perf".to_string()]);
}

#[test]
fn package_flags_are_read() {
    for line in [
        &["-p", "x"][..],
        &["-px"],
        &["-p=x"],
        &["--package", "x"],
        &["--package=x"],
    ] {
        let sel = parse_package_selection(&words(line)).expect("a selection");
        assert!(matches!(&sel, PkgSel::Named(v) if *v == words(&["x"])), "{line:?}");
    }
    for line in [&["--all"][..], &["--workspace"], &["-p", "x", "--all"]] {
        let sel = parse_package_selection(&words(line)).expect("a selection");
        assert!(matches!(sel, PkgSel::Workspace), "{line:?}");
    }
    let sel = parse_package_selection(&words(&["--bin", "x"])).expect("a selection");
    assert!(matches!(sel, PkgSel::Default));
    let e = parse_package_selection(&words(&["-p"])).err().expect("an error");
    assert_eq!(e, "-p needs a package name");
    assert!(parse_package_selection(&words(&["--exclude", "x"])).is_err());
}

// ---- manifests and plans --------------------------------------------------

fn one_package(bins: &[&str], default_run: Option<&str>) -> Option<Meta> {
    let json = MetaJson {
        packages: vec![PkgJson {
            id: "id".to_string(),
            name: "p".to_string(),
            manifest: Some(b"/p/Cargo.toml".to_vec()),
            default_run: default_run.map(String::from),
            targets: bins
                .iter()
                .map(|b| TgtJson {
                    name: b.to_string(),
                    kind: words(&["bin"]),
                    crate_types: words(&["bin"]),
                })
                .chain(vec![
                    TgtJson {
                        name: "c".to_string(),
                        kind: words(&["example"]),
                        crate_types: words(&["cdylib"]),
                    },
                    TgtJson {
                        name: "t".to_string(),
                        kind: words(&["test"]),
                        crate_types: words(&["bin"]),
                    },
                ])
                .collect(),
        }],
        workspace_root: "/p".to_string(),
        workspace_default_members: None,
    };
    let here = Here {
        root: Some(b"/p".to_vec()),
        cwd: Some(b"/p".to_vec()),
        manifest: Some(b"/p/Cargo.toml".to_vec()),
    };
    Meta::load(MetadataRun::Report(Some(json)), &here, &vec![]).expect("a manifest")
}

#[test]
fn manifests_are_read_or_not() {
    let here = Here {
        root: None,
        cwd: None,
        manifest: None,
    };
    assert!(matches!(Meta::load(MetadataRun::NotRun, &here, &vec![]), Ok(None)));
    assert!(matches!(Meta::load(MetadataRun::Report(None), &here, &vec![]), Ok(None)));
    let none = b"error: could not find `Cargo.toml` in `/x`".to_vec();
    assert!(matches!(Meta::load(MetadataRun::Failed(none), &here, &vec![]), Ok(None)));
    let bad = b"error: broken \xff\n".to_vec();
    let e = Meta::load(MetadataRun::Failed(bad), &here, &vec![]).err();
    assert_eq!(e, Some("error: broken \u{fffd}".to_string()));
    assert_eq!(list_names(&words(&["b", "a"])), "a, b");
    assert_eq!(list_names(&vec![]), "(none)");
    let m = one_package(&["a", "b"], None).expect("a manifest");
    assert_eq!(m.label(), "p");
    assert!(m.is_workspace_root && !m.explicit_selection);
    assert_eq!(m.bins, words(&["a", "b"]));
    assert!(m.examples.is_empty(), "a cdylib is no program");
    assert_eq!(*m.named(Kind::Test), words(&["t"]));
}

#[test]
fn a_run_means_one_target() {
    let names = |r: Result<Vec<Artifact>, String>| -> Vec<String> {
        r.expect("targets").iter().map(|a| a.label()).collect()
    };
    let two = one_package(&["b", "a"], None);
    assert_eq!(
        select(&two, "p", &vec![], true).err().expect("refused"),
        "2 binaries (a, b) and no `default-run` \u{2014} say which with --bin <name>"
    );
    assert_eq!(names(select(&two, "p", &vec![], false)), words(&["--bin b", "--bin a"]));
    assert_eq!(
        names(select(&one_package(&["b", "a"], Some("a")), "p", &vec![], true)),
        words(&["--bin a"])
    );
    assert_eq!(names(select(&None, "p", &vec![], true)), words(&["--bin p"]));
    assert_eq!(
        select(&one_package(&[], None), "p", &vec![], true).err().expect("refused"),
        "no executable target selected to run"
    );
    assert_eq!(
        select(&two, "p", &words(&["--bin", "a", "--test", "t"]), true).err().expect("refused"),
        "run needs exactly one target, but 2 were selected: --bin a, --test t"
    );
    assert_eq!(
        names(select(&two, "p", &words(&["--bin", "a", "--bin=a"]), true)),
        words(&["--bin a"])
    );
    assert_eq!(
        select(&two, "p", &words(&["--lib"]), true).err().expect("refused"),
        "no executable target selected to run"
    );
    assert_eq!(
        select(&two, "p", &words(&["--example", "c"]), false).err().expect("refused"),
        "no example target named \"c\" in p. Available: (none)"
    );
    assert_eq!(
        select(&None, "p", &words(&["--bins"]), false).err().expect("refused"),
        "no manifest to read here, so a plural target flag has nothing to list"
    );
    assert_eq!(
        names(select(&two, "p", &words(&["--all-targets"]), false)),
        words(&["--bin b", "--bin a", "--test t"])
    );
}

#[test]
fn plans_name_what_is_built() {
    let meta = one_package(&["a"], None);
    let report = "--message-format=json-render-diagnostics";

    let mut args = words(&["-v"]);
    assert_eq!(plan("p", "run", Local::One, &mut args, &meta), Ok(None));
    assert_eq!(args, words(&["-v", "--bin", "a", report]));

    let mut args = words(&[]);
    assert_eq!(plan("p", "bench", Local::Every, &mut args, &meta), Ok(None));
    assert_eq!(args, words(&["--benches", "--profile", "bench", report]));

    let mut args = words(&["--release"]);
    assert_eq!(plan("p", "bench", Local::Every, &mut args, &meta), Ok(None));
    assert_eq!(args, words(&["--release", "--benches", report]));

    let mut args = words(&["--test", "t"]);
    let said = plan("p", "test", Local::Every, &mut args, &meta).expect("a plan");
    assert_eq!(
        said,
        Some("doctests stay on the server. To include them: cargo rbuild test --remote".to_string())
    );
    assert_eq!(args, words(&["--test", "t", report]));

    let mut args = words(&["--message-format=human"]);
    let e = plan("p", "build", Local::Nothing, &mut args, &meta).err().expect("refused");
    assert!(e.starts_with("rbuild needs --message-format for itself"), "{e}");
}

// ---- commands -------------------------------------------------------------

fn own(rest: &[&str], remote: bool, native: bool) -> Own {
    Own {
        full: false,
        native,
        remote,
        includes: vec![],
        rest: words(rest),
    }
}

#[test]
fn commands_are_read() {
    let c = read_command(own(&[], false, false)).expect("a command");
    assert_eq!((c.sub.as_str(), c.asked.as_str(), c.here), ("build", "build", Local::Nothing));
    let c = read_command(own(&["run", "-v", "--", "x", "--"], false, false)).expect("a command");
    assert_eq!((c.asked.as_str(), c.here), ("build", Local::One));
    assert_eq!(c.args, words(&["-v"]));
    assert_eq!(c.exe_args, words(&["x", "--"]));
    let c = read_command(own(&["test"], true, false)).expect("a command");
    assert_eq!((c.asked.as_str(), c.here), ("test", Local::Nothing));
    assert_eq!(
        read_command(own(&["install"], false, false)).err().expect("refused"),
        "unknown subcommand \"install\""
    );
    assert_eq!(
        read_command(own(&["doc"], true, false)).err().expect("refused"),
        "--remote executes a program, and `cargo doc` doesn't run one.\n  To build on the server \
         for its own platform: cargo rbuild doc --native"
    );
    assert_eq!(
        read_command(own(&["run"], false, true)).err().expect("refused"),
        "--native builds for the server's platform, which this machine can't execute.\n  To run it \
         there too: cargo rbuild run --remote"
    );
    let (c, i) = command(words(&["rbuild", "clippy", "--include", "*.toml", "--", "-D"]))
        .ok()
        .expect("a command");
    assert_eq!(c.sub, "clippy");
    assert_eq!(c.exe_args, words(&["-D"]));
    assert_eq!(i.globs, words(&["*.toml"]));
    // A bad glob is said before a bad subcommand, and a missing one before either.
    let e = command(words(&["install", "--include=a[b"])).err().expect("refused");
    assert!(e.starts_with("--include \"a[b\": "), "{e}");
    let e = command(words(&["install", "--include=a[b", "--include"])).err().expect("refused");
    assert_eq!(e, "--include needs a glob");
}

#[test]
fn projects_have_names() {
    assert_eq!(project_name(Some("p".to_string())), Ok("p".to_string()));
    assert_eq!(
        project_name(None),
        Err("cannot derive project name from the workspace root".to_string())
    );
    assert_eq!(
        project_name(Some("my \"p\"".to_string())),
        Err("project name \"my \\\"p\\\"\" has characters I won't send".to_string())
    );
}

#[test]
fn failures_fall_back_or_not() {
    let text = |f: Fallback| match f {
        Fallback::Fail(m) => format!("fail {m}"),
        Fallback::Here(m) => format!("here {m}"),
    };
    assert_eq!(text(fallback(true, false, true, "e")), "fail remote run: e");
    assert_eq!(text(fallback(true, true, false, "e")), "fail remote run: e");
    assert_eq!(text(fallback(false, true, false, "e")), "fail remote build: e");
    assert_eq!(
        text(fallback(false, false, false, "e")),
        "here [rbuild] e \u{2014} building locally"
    );
    assert_eq!(
        text(fallback(false, false, true, "e")),
        "here [rbuild] can't resolve host, check RBUILD_HOST. Building locally."
    );
    assert_eq!(plain_cargo("run", &words(&["-v"]), &words(&[])), words(&["run", "-v"]));
    assert_eq!(
        plain_cargo("run", &words(&["-v"]), &words(&["x"])),
        words(&["run", "-v", "--", "x"])
    );
}

#[test]
fn what_was_built_is_run() {
    assert!(matches!(after_build(300, Local::One, 1), After::Exit(255)));
    assert!(matches!(after_build(0, Local::Nothing, 3), After::Exit(0)));
    assert!(matches!(after_build(0, Local::One, 1), After::Run));
    assert!(matches!(after_build(0, Local::Every, 0), After::Run));
    match after_build(0, Local::One, 2) {
        After::Fail(m) => assert_eq!(m, "expected one binary to run, cargo built 2"),
        other => panic!("{other:?}"),
    }
    assert_eq!(idle_notice(Local::Every, 0), Some("[rbuild] nothing to run".to_string()));
    assert_eq!(idle_notice(Local::Every, 1), None);
    assert_eq!(idle_notice(Local::Nothing, 0), None);
    assert_eq!(next_turn(2, 0, 9), Turn::Run(0));
    assert_eq!(next_turn(2, 1, 0), Turn::Run(1));
    assert_eq!(next_turn(2, 1, 3), Turn::Done(3));
    assert_eq!(next_turn(2, 2, 0), Turn::Done(0));
    assert_eq!(next_turn(0, 0, 0), Turn::Done(0));
    assert_eq!(program_argv("bench", &words(&["5"])), words(&["5", "--bench"]));
    assert_eq!(program_argv("run", &words(&["5"])), words(&["5"]));
}

#[test]
fn the_environment_is_heeded() {
    assert_eq!(choose_host(None), "truenas.lan");
    assert_eq!(choose_host(Some("h".to_string())), "h");
    assert_eq!(choose_port(None), 7878);
    assert_eq!(choose_port(Some(" 80\n".to_string())), 80);
    assert_eq!(choose_port(Some("x".to_string())), 7878);
    assert_eq!(choose_port(Some("70000".to_string())), 7878);
    assert_eq!(term_color(None, true), Some("always".to_string()));
    assert_eq!(term_color(None, false), None);
    assert_eq!(term_color(Some("auto".to_string()), true), Some("always".to_string()));
    assert_eq!(term_color(Some("never".to_string()), true), Some("never".to_string()));
    assert_eq!(choose_home(Some("u".to_string()), Some("h".to_string())), "u");
    assert_eq!(choose_home(None, Some("h".to_string())), "h");
    assert_eq!(choose_home(None, None), "");
}

// ---- files ----------------------------------------------------------------

#[test]
fn files_are_kept_by_path() {
    let mut f = Files::new();
    f.insert(header("b", 1, 1));
    f.insert(header("a", 2, 2));
    f.insert(header("b", 3, 3));
    assert_eq!(f.entries.len(), 2);
    assert_eq!(f.get("b").map(|h| h.size), Some(3));
    assert_eq!(f.get("a").map(|h| h.mtime), Some(2));
    assert!(f.get("c").is_none());
    let g = collect(&vec![header("x", 1, 0), header("x", 2, 0)]);
    assert_eq!(g.get("x").map(|h| h.size), Some(2));
}

#[test]
fn staleness_has_a_second_of_grace() {
    let h = header("a", 5, 100);
    assert!(is_stale(None, &h));
    assert!(!is_stale(Some(&header("a", 5, 101)), &h));
    assert!(!is_stale(Some(&header("a", 5, 99)), &h));
    assert!(is_stale(Some(&header("a", 5, 102)), &h));
    assert!(is_stale(Some(&header("a", 6, 100)), &h));
    assert!(is_stale(Some(&header("a", 5, i64::MIN)), &header("a", 5, i64::MAX)));
}

#[test]
fn syncs_send_what_differs() {
    let local = collect(&vec![header("b", 1, 10), header("a", 1, 10), header("c", 1, 10)]);
    let remote = collect(&vec![header("b", 1, 10), header("c", 2, 10), header("gone", 1, 10)]);
    let p = sync_plan(&local, &remote, false);
    let up: Vec<&str> = p.upload.iter().map(|h| h.path.as_str()).collect();
    assert_eq!(up, vec!["a", "c"]);
    assert_eq!(p.deletes, words(&["gone"]));
    let p = sync_plan(&local, &remote, true);
    assert_eq!(p.upload.len(), 3);
    assert_eq!(p.deletes, words(&["gone"]));
    let p = sync_plan(&local, &local, false);
    assert!(p.upload.is_empty() && p.deletes.is_empty());
}

// ---- scans ----------------------------------------------------------------

fn entry(path: &[Option<&str>], modified: Modified) -> Entry {
    Entry {
        file: true,
        facts: Some(Facts { size: 4, modified }),
        under: Some(path.iter().map(|c| c.map(String::from)).collect()),
    }
}

#[test]
fn entries_have_headers() {
    let e = entry(&[Some("src"), Some("lib.rs")], Modified::At(7));
    let h = header_for(&e).expect("a header");
    assert_eq!((h.path.as_str(), h.size, h.mtime), ("src/lib.rs", 4, 7));
    assert_eq!(header_for(&entry(&[Some("a")], Modified::BeforeEpoch)).map(|h| h.mtime), Some(0));
    let unknown = entry(&[Some("a")], Modified::Unknown);
    assert!(header_for(&unknown).is_none());
    assert_eq!(header_there(&unknown).map(|h| h.mtime), Some(0));
    assert!(header_for(&entry(&[], Modified::At(7))).is_none());
    assert!(header_for(&entry(&[Some("a\\b")], Modified::At(7))).is_none());
    assert_eq!(
        header_there(&entry(&[Some("a\\b")], Modified::At(7))).map(|h| h.path),
        Some("a\\b".to_string())
    );
    let half = entry(&[None, Some("b")], Modified::At(7));
    assert!(header_for(&half).is_none());
    let half = entry(&[Some("src"), None], Modified::At(7));
    assert!(header_for(&half).is_none());
    let none = Includes::compile(vec![]).ok().expect("no globs");
    let seen = scan_local(&vec![half], &vec![], &none);
    assert!(seen.files.entries.is_empty());
    let dir = Entry {
        file: false,
        ..entry(&[Some("a")], Modified::At(7))
    };
    assert!(header_for(&dir).is_none() && header_there(&dir).is_none());
    assert!(!walks_into(Some(".git")) && !walks_into(Some("target")));
    assert!(walks_into(Some(".cargo")) && walks_into(None));
}

#[test]
fn globs_say_what_they_name() {
    let inc = Includes::compile(words(&["config.toml", "**/*.pem", "nothing"]))
        .ok()
        .expect("globs");
    assert!(!inc.is_empty());
    let all = vec![
        entry(&[Some("config.toml")], Modified::At(1)),
        entry(&[Some("crates"), Some("config.toml")], Modified::At(1)),
        entry(&[Some("crates"), Some("k.pem")], Modified::At(1)),
    ];
    let found = find_included(&all, &inc);
    let by: Vec<Vec<usize>> = found.iter().map(|f| f.by.clone()).collect();
    assert_eq!(by, vec![vec![0], vec![], vec![1]]);
    let scan = merge(&vec![], found, &inc.globs);
    assert!(scan.files.get("config.toml").is_some());
    assert!(scan.files.get("crates/config.toml").is_none());
    assert!(scan.files.get("crates/k.pem").is_some());
    assert_eq!(scan.unmatched, words(&["nothing"]));
    assert!(Includes::compile(vec![]).ok().expect("no globs").is_empty());
}

#[test]
fn what_was_found_comes_on_top() {
    let listed = vec![
        entry(&[Some("a")], Modified::At(1)),
        entry(&[Some("b")], Modified::At(1)),
    ];
    let found = vec![
        Found {
            header: header("a", 9, 9),
            by: vec![1],
        },
        Found {
            header: header("c", 9, 9),
            by: vec![],
        },
    ];
    let scan = merge(&listed, found, &words(&["x", "y"]));
    assert_eq!(scan.files.get("a").map(|h| h.size), Some(9));
    assert_eq!(scan.files.get("b").map(|h| h.size), Some(4));
    assert!(scan.files.get("c").is_none());
    assert_eq!(scan.unmatched, words(&["x"]));
}

#[test]
fn bad_globs_are_named() {
    let e = Includes::compile(words(&["ok", "a[b", "{c"])).err().expect("refused");
    let inner = globset::Glob::new("a[b").err().expect("malformed").to_string();
    assert_eq!(e, format!("--include \"a[b\": {inner}"));
    assert!(e.contains("error parsing glob 'a[b': "), "{e}");
    // A glob with a backslash beside it changes nothing of what another one is.
    let e = Includes::compile(words(&["keys\\*.pem", "a[b"])).err().expect("refused");
    assert_eq!(e, format!("--include \"a[b\": {inner}"));
    let inc = Includes::compile(words(&["keys\\*.pem", "config.toml"])).ok().expect("globs");
    let found = find_included(&vec![entry(&[Some("config.toml")], Modified::At(1))], &inc);
    assert_eq!(found[0].by, vec![1]);
    let e = command(words(&["install", "--include=x\\y", "--include=a[b"])).err();
    assert_eq!(e, Some(format!("--include \"a[b\": {inner}")));
    assert_eq!(glob_message("a\"", "no"), "--include \"a\\\"\": no");
    assert_eq!(set_message("no"), "--include: no");
}

// ---- bodies ---------------------------------------------------------------

#[test]
fn a_body_keeps_its_promise() {
    let mut b = Body { left: 5 };
    assert_eq!(b.wants(), 5);
    assert_eq!(b.read(2), Piece::Read);
    assert_eq!(b.left, 3);
    assert_eq!(b.read(0), Piece::Zeros(3));
    assert_eq!(b.left, 0);
    assert_eq!(b.wants(), 0);
    let b = Body { left: 3 << 20 };
    assert_eq!(b.wants(), 1 << 20);

    let mut i = Intake::new();
    i.begin(&header("a", (1 << 20) + 3, 0));
    assert_eq!(i.wants(), 1 << 20);
    i.took();
    assert_eq!(i.wants(), 3);
    i.took();
    assert_eq!(i.wants(), 0);
    i.begin(&header("b", 2, 0));
    i.took();
    assert_eq!(i.received, (1 << 20) + 5);

    assert_eq!(total(&vec![header("a", 2, 0), header("b", 3, 0)]), 5);
    assert_eq!(total(&vec![header("a", u64::MAX, 0), header("b", 3, 0)]), 2);
    assert!(!shows_progress(1 << 20) && shows_progress((1 << 20) + 1));
}

// ---- cargo's report -------------------------------------------------------

fn artifact(kind: &str, test: Option<bool>, exe: Option<&str>) -> Option<Record> {
    Some(Record {
        reason: "compiler-artifact".to_string(),
        target: Some(RecordTarget {
            kind: words(&[kind]),
        }),
        profile: test.map(|test| RecordProfile { test }),
        executable: exe.map(String::from),
    })
}

#[test]
fn reports_come_in_chunks() {
    let mut j = Json::new();
    assert!(j.feed(b"{\"a\"").is_empty());
    assert_eq!(j.feed(b":1}\n\n{"), vec![b"{\"a\":1}\n".to_vec(), b"\n".to_vec()]);
    assert_eq!(j.partial, b"{".to_vec());

    let text = b"one\ntwo\n\nthree";
    for cut in 0..text.len() {
        let mut k = Json::new();
        let mut got = k.feed(&text[..cut]);
        got.extend(k.feed(&text[cut..]));
        assert_eq!(got, vec![b"one\n".to_vec(), b"two\n".to_vec(), b"\n".to_vec()]);
        assert_eq!(k.partial, b"three".to_vec());
    }

    j.take(None);
    j.take(artifact("lib", Some(false), None));
    j.take(artifact("custom-build", Some(false), Some("/b")));
    j.take(artifact("bin", Some(false), Some("/p")));
    j.take(artifact("bin", Some(true), Some("/p-test")));
    j.take(artifact("test", None, Some("/odd")));
    j.take(Some(Record {
        reason: "build-finished".to_string(),
        target: Some(RecordTarget {
            kind: words(&["bin"]),
        }),
        profile: None,
        executable: Some("/no".to_string()),
    }));
    assert_eq!(j.executables(Local::Nothing), words(&["/p", "/p-test", "/odd"]));
    assert_eq!(j.executables(Local::One), words(&["/p", "/odd"]));
    assert_eq!(j.executables(Local::Every), words(&["/p-test"]));
}

// ---- keys -----------------------------------------------------------------

const KEY: &str = "ssh-ed25519 AAAAC3NzaC1lZDI1NTE5AAAAILM+rvN+ot98qgEN796jTiQfZfG1KaT0PtFDJ/XFSqti user@example.com";
const FP: &str = "SHA256:UCUiLr7Pjs9wFFJMDByLgc3NrtdU344OgUM45wZPcIQ";

#[test]
fn known_hosts_pin() {
    let (v, fp) = check_host("h", KEY, "").ok().expect("a key");
    assert_eq!(fp, FP);
    assert!(matches!(v, Verdict::New));
    let known = pin_line("h", &fp);
    assert_eq!(known, format!("h {FP}\n"));
    assert!(matches!(verify_host("h", FP, &known), Verdict::Pinned));
    assert!(matches!(verify_host("i", FP, &known), Verdict::New));
    assert!(matches!(verify_host("h", "x", &known), Verdict::Changed(f) if f == FP));
    // The first line for a host counts, and a line without a space is none.
    assert!(matches!(verify_host("h", "y", "h\nh y\r\nh x\n"), Verdict::Pinned));
    // Whatever is pinned later, a host keeps its first pin.
    let more = format!("{known}{}{}", pin_line("i", "z"), pin_line("h", "z"));
    assert!(matches!(verify_host("h", FP, &more), Verdict::Pinned));
    assert!(check_host("h", "no key", "").is_err());
    assert_eq!(pin_notice("h", "f"), "[rbuild] pinning new host key for h: f");
    assert_eq!(
        changed_message("h", "a", "b", "/k"),
        "HOST KEY CHANGED for h\n  expected a\n  got      b\nIf you rebuilt the container, delete \
         the line from /k"
    );
}

#[test]
fn authorized_keys_are_listed() {
    let text = format!("# mine\n\n  {KEY}  \nnonsense\n");
    assert_eq!(candidate_lines(&text), words(&[KEY, "nonsense"]));
    let keys = authorized_keys(&text);
    assert_eq!(keys.len(), 1);
    let other = authorized_keys(&KEY.replace("user@example.com", "other"));
    assert_eq!(keys, other);
    assert!(authorized_keys("").is_empty());
}

#[test]
fn admission_takes_key_and_signature() {
    let known = vec![vec![1u8], vec![2u8]];
    let ask = |k: Result<Vec<u8>, String>, bad: Option<&str>, holds: bool| {
        decide_admission(&known, k, bad.map(String::from), holds)
    };
    assert!(matches!(ask(Ok(vec![2]), None, true), Admission::Accepted));
    assert!(matches!(ask(Ok(vec![2]), None, false), Admission::Denied));
    assert!(matches!(ask(Ok(vec![3]), None, true), Admission::Denied));
    assert!(matches!(ask(Ok(vec![2]), Some("e"), true), Admission::Broken(e) if e == "e"));
    assert!(matches!(ask(Err("f".to_string()), None, true), Admission::Broken(e) if e == "f"));
}

fn line_of(pem: &str) -> String {
    let key = ssh_key::PrivateKey::from_openssh(pem).expect("a key");
    key.public_key().to_openssh().expect("a line")
}

#[test]
fn signatures_are_checked() {
    let (pem, new) = host_key(None).expect("a key");
    assert!(new);
    let nonce = vec![7u8; 32];
    let (pubkey, sig_pem) = match sign_in(&pem, &nonce).expect("a signature") {
        ClientMsg::Auth { pubkey, sig_pem } => (pubkey, sig_pem),
        other => panic!("{other:?}"),
    };
    assert_eq!(pubkey, line_of(&pem));
    let known = authorized_keys(&pubkey);
    assert!(matches!(check_auth(&known, &nonce, &pubkey, &sig_pem), Admission::Accepted));
    // A signature of another nonce is worth nothing.
    assert!(matches!(check_auth(&known, &vec![8u8; 32], &pubkey, &sig_pem), Admission::Denied));
    assert!(matches!(check_auth(&vec![], &nonce, &pubkey, &sig_pem), Admission::Denied));
    assert!(matches!(check_auth(&known, &nonce, KEY, &sig_pem), Admission::Denied));
    assert!(matches!(check_auth(&known, &nonce, "no", &sig_pem), Admission::Broken(_)));
    assert!(matches!(check_auth(&known, &nonce, &pubkey, "no"), Admission::Broken(_)));
    assert!(sign_in("no key", &nonce).is_err());
    let e = auth_message(Err("s".to_string()), Err("p".to_string())).err();
    assert_eq!(e, Some("s".to_string()));
}

#[test]
fn private_keys_are_unlocked() {
    let (pem, _) = host_key(None).expect("a key");
    assert_eq!(needs_passphrase("/k", &pem), Ok(false));
    let key = ssh_key::PrivateKey::from_openssh(&pem).expect("a key");
    let locked = key.encrypt(&mut rand_core::OsRng, "secret").expect("encrypted");
    let locked = locked.to_openssh(ssh_key::LineEnding::LF).expect("pem").to_string();
    assert_eq!(needs_passphrase("/k", &locked), Ok(true));
    let opened = unlock(locked.clone(), Some("secret".to_string())).expect("unlocked");
    assert_eq!(needs_passphrase("/k", &opened), Ok(false));
    assert_eq!(line_of(&opened), line_of(&pem));
    assert!(unlock(locked.clone(), Some("wrong".to_string())).is_err());
    assert_eq!(unlock(locked.clone(), None), Ok(locked.clone()));
    let e = needs_passphrase("/k", "no").err().expect("an error");
    assert!(e.starts_with("reading /k: "), "{e}");
    assert_eq!(unreadable_key("/k", "no"), "reading /k: no");
    assert_eq!(passphrase_prompt("/k"), "passphrase for /k: ");
    let (same, new) = host_key(Some(pem.clone())).expect("a key");
    assert_eq!((same, new), (pem, false));
    assert!(host_key(Some("no".to_string())).is_err());
    let (line, fp) = host_lines(&opened).expect("lines");
    assert_eq!(line, line_of(&opened));
    assert!(fp.starts_with("SHA256:"), "{fp}");
    assert!(host_lines("no").is_err());
    let seeded = new_key(Ok(vec![7; 32])).expect("a key");
    let pair = ssh_key::private::Ed25519Keypair::from_seed(&[7; 32]);
    let line = ssh_key::PublicKey::from(pair.public).to_openssh().expect("a line");
    assert_eq!(line_of(&seeded), line);
    assert_eq!(new_key(Ok(vec![7; 32])), Ok(seeded));
    assert_eq!(new_key(Err("none".to_string())), Err("none".to_string()));
}

// ---- the server -----------------------------------------------------------

fn open(m: ClientMsg) -> (Stage, Order) {
    serve(&vec![], Stage::Open, m)
}

fn reply(o: Order) -> String {
    match o {
        Order::Reply(ServerMsg::Error(e)) => e,
        other => panic!("{other:?}"),
    }
}

#[test]
fn sessions_begin_with_a_nonce() {
    let (s, m) = hello("line").expect("random bytes");
    match (s, m) {
        (Stage::Greeted(a), ServerMsg::Hello { nonce, host_pubkey }) => {
            assert_eq!(a.len(), 32);
            assert_eq!(a, nonce);
            assert_eq!(host_pubkey, "line");
        }
        other => panic!("{other:?}"),
    }
    match hello_with(Ok(vec![4, 5]), "line") {
        Ok((Stage::Greeted(a), ServerMsg::Hello { nonce, host_pubkey })) => {
            assert_eq!((a, nonce), (vec![4, 5], vec![4, 5]));
            assert_eq!(host_pubkey, "line");
        }
        other => panic!("{other:?}"),
    }
    assert_eq!(hello_with(Err("none".to_string()), "line").err(), Some("none".to_string()));
    let (_, order) = serve(&vec![], greet(vec![1], "x").0, ClientMsg::Bye);
    match order {
        Order::Refuse(Some(ServerMsg::Error(m)), e) => {
            assert_eq!(m, "expected Auth");
            assert_eq!(e, "protocol: expected Auth");
        }
        other => panic!("{other:?}"),
    }
    let bad = ClientMsg::Auth {
        pubkey: "no".to_string(),
        sig_pem: "no".to_string(),
    };
    assert!(matches!(serve(&vec![], greet(vec![1], "x").0, bad).1, Order::Refuse(None, _)));
}

#[test]
fn requests_are_checked() {
    let bad = || "../x".to_string();
    let auth = ClientMsg::Auth {
        pubkey: String::new(),
        sig_pem: String::new(),
    };
    assert_eq!(reply(open(auth).1), "already authenticated");
    assert_eq!(reply(open(ClientMsg::Manifest { project: bad() }).1), "bad project name");
    let m = ClientMsg::Fetch {
        project: "p".to_string(),
        rel: bad(),
    };
    assert_eq!(reply(open(m).1), "bad path");
    let m = ClientMsg::Build {
        project: bad(),
        subcommand: "build".to_string(),
        args: vec![],
        target: None,
        trailing: vec![],
    };
    assert_eq!(reply(open(m).1), "bad project name");
    let m = ClientMsg::Push {
        project: bad(),
        deletes: vec![],
        files: vec![],
    };
    let (stage, order) = open(m);
    assert!(matches!(stage, Stage::Closed));
    match order {
        Order::Refuse(Some(ServerMsg::Error(m)), e) => {
            assert_eq!(m, "bad project name");
            assert_eq!(e, "bad project name on push");
        }
        other => panic!("{other:?}"),
    }
    assert!(matches!(open(ClientMsg::Bye), (Stage::Closed, Order::Close)));
    let m = ClientMsg::Manifest {
        project: "p".to_string(),
    };
    assert!(matches!(open(m).1, Order::List(p) if p == "p"));
    let m = ClientMsg::Fetch {
        project: "p".to_string(),
        rel: "a/b".to_string(),
    };
    assert!(matches!(open(m).1, Order::Serve { project, rel } if project == "p" && rel == "a/b"));
}

#[test]
fn a_push_ends_at_a_bad_path() {
    let m = ClientMsg::Push {
        project: "p".to_string(),
        deletes: words(&["x", "/y", "z"]),
        files: vec![header("a", 1, 1), header("../b", 1, 1), header("c", 1, 1)],
    };
    match open(m) {
        (
            Stage::Closed,
            Order::Take {
                project,
                deletes,
                files,
                bad,
            },
        ) => {
            assert_eq!(project, "p");
            assert_eq!(deletes, words(&["x", "z"]));
            assert_eq!(files.len(), 1);
            assert_eq!(bad, Some("bad path ../b".to_string()));
        }
        other => panic!("{other:?}"),
    }
}

#[test]
fn cargo_is_given_its_words() {
    let m = ClientMsg::Build {
        project: "p".to_string(),
        subcommand: "clippy".to_string(),
        args: words(&["-v"]),
        target: None,
        trailing: words(&["-D", "warnings"]),
    };
    match open(m).1 {
        Order::Run(p, run) => {
            assert_eq!(p, "p");
            assert_eq!(run.argv, words(&["clippy", "-v", "--", "-D", "warnings"]));
            assert_eq!(run.out, "p-native");
            assert_eq!(run.color, Some("always".to_string()));
            assert!(run.merged);
        }
        other => panic!("{other:?}"),
    }
    assert_eq!(
        cargo_argv(&Some("t".to_string()), "build", &words(&["-v"]), &vec![]),
        words(&["xwin", "build", "--target", "t", "-v"])
    );
    assert!(matches!(output_message(true, true, vec![1]), ServerMsg::Output(d) if d == [1]));
    assert!(matches!(
        output_message(false, true, vec![1]),
        ServerMsg::Chunk { err: true, data } if data == [1]
    ));
    assert!(matches!(exit_message(Some(3)), ServerMsg::Exit(3)));
    assert!(matches!(exit_message(None), ServerMsg::Exit(1)));
    assert!(matches!(not_synced("/src/p"), ServerMsg::Error(e) if e == "/src/p not synced"));
    assert!(matches!(not_served("/t/p", "gone"), ServerMsg::Error(e) if e == "/t/p: gone"));
}
