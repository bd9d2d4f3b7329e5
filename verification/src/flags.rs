//! The command line: which words are rbuild's own, and which of cargo's select a target or a
//! package.
use vstd::prelude::*;
use vstd::string::*;

use crate::text::{
    chars_of, cut_once, first_of, first_of_is_first, first_of_unique, opt_text, same, split_once,
    starts, starts_with, text_of, texts,
};

verus! {

/// rbuild's own flags, taken off the command line before cargo sees any of it.
pub struct Own {
    pub full: bool,
    pub native: bool,
    /// `--remote`: the server runs what it built, and nothing comes back.
    pub remote: bool,
    pub includes: Vec<String>,
    /// Everything rbuild didn't claim, in the order it was typed.
    pub rest: Vec<String>,
}

/// The model of [`Own`].
#[verifier::ext_equal]
pub struct OwnView {
    pub full: bool,
    pub native: bool,
    pub remote: bool,
    pub includes: Seq<Seq<char>>,
    pub rest: Seq<Seq<char>>,
}

impl View for Own {
    type V = OwnView;

    open spec fn view(&self) -> OwnView {
        OwnView {
            full: self.full,
            native: self.native,
            remote: self.remote,
            includes: texts(self.includes@),
            rest: texts(self.rest@),
        }
    }
}

/// What an `--include` given no glob is answered.
pub open spec fn needs_a_glob() -> Seq<char> {
    "--include needs a glob"@
}

/// Whether a word is shaped like a flag.
pub open spec fn dashed(s: Seq<char>) -> bool {
    starts(s, "-"@)
}

/// What a line reads as when `word` is put in front of the words that read as `tail`.
pub open spec fn with_word(word: Seq<char>, tail: OwnView) -> OwnView {
    if word == "--full"@ {
        OwnView { full: true, ..tail }
    } else if word == "--native"@ {
        OwnView { native: true, ..tail }
    } else if word == "--remote"@ {
        OwnView { remote: true, ..tail }
    } else {
        OwnView { rest: seq![word] + tail.rest, ..tail }
    }
}

/// What a line reads as when an included glob is put in front of the words that read as `tail`.
pub open spec fn with_glob(glob: Seq<char>, tail: OwnView) -> OwnView {
    OwnView { includes: seq![glob] + tail.includes, ..tail }
}

/// The reading of a line that is not there.
pub open spec fn nothing_typed() -> OwnView {
    OwnView { full: false, native: false, remote: false, includes: seq![], rest: seq![] }
}

/// How the words of a command line read. Reading stops at `--`: past it the words are a program's
/// own argv, and a program is entitled to an argument spelled like one of ours.
pub open spec fn own_of(words: Seq<Seq<char>>) -> Result<OwnView, Seq<char>>
    decreases words.len(),
{
    if words.len() == 0 {
        Ok(nothing_typed())
    } else if words[0] == "--"@ {
        Ok(OwnView { rest: words, ..nothing_typed() })
    } else if words[0] == "--include"@ {
        if words.len() >= 2 && !dashed(words[1]) {
            match own_of(words.skip(2)) {
                Ok(tail) => Ok(with_glob(words[1], tail)),
                Err(e) => Err(e),
            }
        } else {
            Err(needs_a_glob())
        }
    } else if is_own_switch(words[0]) || !starts(words[0], "--include="@) {
        match own_of(words.skip(1)) {
            Ok(tail) => Ok(with_word(words[0], tail)),
            Err(e) => Err(e),
        }
    } else {
        let glob = words[0].skip("--include="@.len() as int);
        if glob.len() == 0 {
            Err(needs_a_glob())
        } else {
            match own_of(words.skip(1)) {
                Ok(tail) => Ok(with_glob(glob, tail)),
                Err(e) => Err(e),
            }
        }
    }
}

/// The words that are switches of rbuild's own.
pub open spec fn is_own_switch(word: Seq<char>) -> bool {
    word == "--full"@ || word == "--native"@ || word == "--remote"@
}

/// `head` read first, then `tail`.
pub open spec fn own_then(head: OwnView, tail: OwnView) -> OwnView {
    OwnView {
        full: head.full || tail.full,
        native: head.native || tail.native,
        remote: head.remote || tail.remote,
        includes: head.includes + tail.includes,
        rest: head.rest + tail.rest,
    }
}

spec fn own_result(head: OwnView, tail: Result<OwnView, Seq<char>>) -> Result<OwnView, Seq<char>> {
    match tail {
        Ok(t) => Ok(own_then(head, t)),
        Err(e) => Err(e),
    }
}

/// Splits rbuild's flags from cargo's.
///
/// Reading stops at `--`: past it the words are a program's own argv, and a
/// program is entitled to an argument spelled like one of ours.
///
/// `Err` is the usage message for an `--include` given no glob.
pub fn take_own_flags(raw: Vec<String>) -> (r: Result<Own, String>)
    ensures
        match r {
            Ok(own) => own_of(texts(raw@)) == Ok::<OwnView, Seq<char>>(own@),
            Err(e) => own_of(texts(raw@)) == Err::<OwnView, Seq<char>>(e@),
        },
{
    let mut own = Own {
        full: false,
        native: false,
        remote: false,
        includes: Vec::new(),
        rest: Vec::new(),
    };
    let ghost words = texts(raw@);
    let mut i: usize = 0;
    proof {
        assert(words.skip(0) =~= words);
        assert(own@ =~= nothing_typed());
        lemma_own_starts(own_of(words));
    }
    while i < raw.len()
        invariant
            i <= raw@.len(),
            words == texts(raw@),
            own_of(words) == own_result(own@, own_of(words.skip(i as int))),
        decreases raw@.len() - i,
    {
        let ghost left = words.skip(i as int);
        let ghost was = own@;
        let a = raw[i].as_str();
        assert(left[0] == a@);
        assert(left.skip(1) =~= words.skip(i + 1));
        if same(a, "--") {
            let mut j: usize = i;
            while j < raw.len()
                invariant
                    i <= j <= raw@.len(),
                    words == texts(raw@),
                    own@ == (OwnView { rest: was.rest + words.subrange(i as int, j as int), ..was }),
                decreases raw@.len() - j,
            {
                let ghost rest = texts(own.rest@);
                own.rest.push(raw[j].clone());
                assert(texts(own.rest@) =~= rest.push(words[j as int]));
                assert(was.rest + words.subrange(i as int, j + 1) =~= rest.push(words[j as int]));
                j += 1;
            }
            assert(words.subrange(i as int, j as int) =~= left);
            assert(own@ == own_then(was, OwnView { rest: left, ..nothing_typed() })) by {
                assert(was.includes + Seq::<Seq<char>>::empty() =~= was.includes);
            }
            return Ok(own);
        }
        if same(a, "--include") {
            // A word starting with `-` is a forgotten glob, not a filename.
            if raw.len() - i >= 2 && !starts_with(raw[i + 1].as_str(), "-") {
                assert(left[1] == raw@[i + 1]@);
                assert(left.skip(2) =~= words.skip(i + 2));
                own.includes.push(raw[i + 1].clone());
                assert(texts(own.includes@) =~= was.includes.push(left[1]));
                proof {
                    lemma_own_glob(was, left[1], own@, own_of(left.skip(2)));
                }
                i += 2;
                continue;
            }
            assert(left.len() >= 2 ==> left[1] == raw@[i + 1]@);
            return Err("--include needs a glob".to_owned());
        }
        if same(a, "--full") {
            own.full = true;
        } else if same(a, "--native") {
            own.native = true;
        } else if same(a, "--remote") {
            own.remote = true;
        } else if starts_with(a, "--include=") {
            let x = chars_of(a);
            let p = chars_of("--include=");
            let glob = text_of(&x, p.len(), x.len());
            assert(x@.subrange(p@.len() as int, x@.len() as int) =~= left[0].skip(
                "--include="@.len() as int,
            ));
            if glob.as_str().is_empty() {
                return Err("--include needs a glob".to_owned());
            }
            let ghost g = glob@;
            own.includes.push(glob);
            assert(texts(own.includes@) =~= was.includes.push(g));
            proof {
                lemma_own_glob(was, g, own@, own_of(left.skip(1)));
            }
            i += 1;
            continue;
        } else {
            own.rest.push(raw[i].clone());
            assert(texts(own.rest@) =~= was.rest.push(left[0]));
        }
        proof {
            lemma_own_word(was, left[0], own@, own_of(left.skip(1)));
        }
        i += 1;
    }
    proof {
        let left = words.skip(i as int);
        assert(left.len() == 0);
        assert(own@ == own_then(own@, nothing_typed())) by {
            assert(own@.includes + Seq::<Seq<char>>::empty() =~= own@.includes);
            assert(own@.rest + Seq::<Seq<char>>::empty() =~= own@.rest);
        }
    }
    Ok(own)
}

proof fn lemma_own_starts(r: Result<OwnView, Seq<char>>)
    ensures
        own_result(nothing_typed(), r) == r,
{
    match r {
        Ok(t) => {
            assert(Seq::<Seq<char>>::empty() + t.includes =~= t.includes);
            assert(Seq::<Seq<char>>::empty() + t.rest =~= t.rest);
        },
        Err(_) => {},
    }
}

proof fn lemma_own_glob(was: OwnView, g: Seq<char>, now: OwnView, tail: Result<OwnView, Seq<char>>)
    requires
        now == (OwnView { includes: was.includes.push(g), ..was }),
    ensures
        match tail {
            Ok(t) => own_then(was, with_glob(g, t)) == own_then(now, t),
            Err(_) => true,
        },
{
    match tail {
        Ok(t) => {
            assert(was.includes + (seq![g] + t.includes) =~= was.includes.push(g) + t.includes);
        },
        Err(_) => {},
    }
}

proof fn lemma_own_word(was: OwnView, w: Seq<char>, now: OwnView, tail: Result<OwnView, Seq<char>>)
    requires
        now == if w == "--full"@ {
            OwnView { full: true, ..was }
        } else if w == "--native"@ {
            OwnView { native: true, ..was }
        } else if w == "--remote"@ {
            OwnView { remote: true, ..was }
        } else {
            OwnView { rest: was.rest.push(w), ..was }
        },
    ensures
        match tail {
            Ok(t) => own_then(was, with_word(w, t)) == own_then(now, t),
            Err(_) => true,
        },
{
    match tail {
        Ok(t) => {
            assert(was.rest + (seq![w] + t.rest) =~= was.rest.push(w) + t.rest);
        },
        Err(_) => {},
    }
}

/// Past `--` the words belong to the program: whatever they are, they change nothing of how the
/// words before `--` read, and they come through as they stand.
pub proof fn words_after_the_dashes_belong_to_the_program(pre: Seq<Seq<char>>, tail: Seq<Seq<char>>)
    requires
        forall|i: int| 0 <= i < pre.len() ==> #[trigger] pre[i] != "--"@,
    ensures
        own_of(pre + seq!["--"@] + tail) == match own_of(pre + seq!["--"@]) {
            Ok(o) => Ok::<OwnView, Seq<char>>(OwnView { rest: o.rest + tail, ..o }),
            Err(e) => Err(e),
        },
    decreases pre.len(),
{
    let short = pre + seq!["--"@];
    let long = pre + seq!["--"@] + tail;
    if pre.len() == 0 {
        assert(short[0] == "--"@ && long[0] == "--"@);
        assert(short + tail =~= long);
    } else {
        assert(short[0] == pre[0] && long[0] == pre[0]);
        assert(short[1] == long[1]);
        let p1 = pre.skip(1);
        assert(short.skip(1) =~= p1 + seq!["--"@]);
        assert(long.skip(1) =~= p1 + seq!["--"@] + tail);
        words_after_the_dashes_belong_to_the_program(p1, tail);
        if pre.len() >= 2 {
            let p2 = pre.skip(2);
            assert(short.skip(2) =~= p2 + seq!["--"@]);
            assert(long.skip(2) =~= p2 + seq!["--"@] + tail);
            words_after_the_dashes_belong_to_the_program(p2, tail);
        } else {
            reveal_strlit("--");
            reveal_strlit("-");
            assert("--"@.take(1) =~= "-"@);
        }
        match own_of(short) {
            Ok(o) => {
                match own_of(short.skip(1)) {
                    Ok(t) => {
                        assert((seq![pre[0]] + t.rest) + tail =~= seq![pre[0]] + (t.rest + tail));
                    },
                    Err(_) => {},
                }
            },
            Err(_) => {},
        }
    }
}

/// A word that is rbuild's own, by itself or with the glob attached.
pub open spec fn is_own_word(word: Seq<char>) -> bool {
    is_own_switch(word) || word == "--include"@ || starts(word, "--include="@)
}

/// rbuild's flags are rbuild's alone: none of what is handed on, up to a `--`, is one of them.
pub proof fn own_words_never_reach_cargo(words: Seq<Seq<char>>, i: int)
    requires
        own_of(words) is Ok,
        0 <= i < own_of(words)->Ok_0.rest.len(),
        forall|j: int| 0 <= j <= i ==> #[trigger] own_of(words)->Ok_0.rest[j] != "--"@,
    ensures
        !is_own_word(own_of(words)->Ok_0.rest[i]),
    decreases words.len(),
{
    let o = own_of(words)->Ok_0;
    assert(o.rest[0] != "--"@);
    if words[0] == "--"@ {
    } else if words[0] == "--include"@ {
        own_words_never_reach_cargo(words.skip(2), i);
    } else if is_own_switch(words[0]) || starts(words[0], "--include="@) {
        own_words_never_reach_cargo(words.skip(1), i);
    } else if i > 0 {
        let t = own_of(words.skip(1))->Ok_0;
        assert forall|j: int| 0 <= j <= i - 1 implies #[trigger] t.rest[j] != "--"@ by {
            assert(o.rest[j + 1] == t.rest[j]);
        }
        own_words_never_reach_cargo(words.skip(1), i - 1);
    }
}

/// The kinds of target that become an executable file.
#[derive(Debug, Clone, Copy, PartialEq, Eq, Structural)]
pub enum Kind {
    Bin,
    Example,
    Test,
    Bench,
}

impl Kind {
    /// The word cargo uses for a kind, in a manifest, a flag and a JSON record alike.
    pub open spec fn spelled(self) -> Seq<char> {
        match self {
            Kind::Bin => "bin"@,
            Kind::Example => "example"@,
            Kind::Test => "test"@,
            Kind::Bench => "bench"@,
        }
    }

    /// The word cargo uses for this kind, in a manifest, a flag and a JSON
    /// record alike.
    pub fn word(self) -> (r: &'static str)
        ensures
            r@ == self.spelled(),
    {
        match self {
            Kind::Bin => "bin",
            Kind::Example => "example",
            Kind::Test => "test",
            Kind::Bench => "bench",
        }
    }
}

/// An executable cargo will produce, named by the target it was built from.
#[derive(Debug)]
pub struct Artifact {
    pub kind: Kind,
    pub name: String,
}

/// The model of an [`Artifact`].
#[verifier::ext_equal]
pub struct ArtifactView {
    pub kind: Kind,
    pub name: Seq<char>,
}

impl View for Artifact {
    type V = ArtifactView;

    open spec fn view(&self) -> ArtifactView {
        ArtifactView { kind: self.kind, name: self.name@ }
    }
}

impl ArtifactView {
    /// How a target reads in a message.
    pub open spec fn labelled(self) -> Seq<char> {
        "--"@ + self.kind.spelled() + " "@ + self.name
    }

    /// The words that name this and only this target.
    pub open spec fn flagged(self) -> Seq<Seq<char>> {
        seq!["--"@ + self.kind.spelled(), self.name]
    }
}

/// The views of a list of artifacts.
pub open spec fn artifacts(v: Seq<Artifact>) -> Seq<ArtifactView> {
    v.map_values(|a: Artifact| a@)
}

impl Clone for Artifact {
    fn clone(&self) -> (r: Self)
        ensures
            r@ == self@,
    {
        Artifact { kind: self.kind, name: self.name.clone() }
    }
}

impl Artifact {
    pub fn new(kind: Kind, name: String) -> (r: Self)
        ensures
            r@ == (ArtifactView { kind, name: name@ }),
    {
        Artifact { kind, name }
    }

    /// The flag naming this and only this target, for a command line that left
    /// the choice implicit.
    pub fn flag(&self) -> (r: [String; 2])
        ensures
            texts(r@) == self@.flagged(),
    {
        let mut word = "--".to_owned();
        word.append(self.kind.word());
        let r = [word, self.name.clone()];
        assert(texts(r@) =~= self@.flagged());
        r
    }

    pub fn label(&self) -> (r: String)
        ensures
            r@ == self@.labelled(),
    {
        let mut out = "--".to_owned();
        out.append(self.kind.word());
        out.append(" ");
        out.append(self.name.as_str());
        out
    }
}

/// A cargo target-selection flag, as written on the command line.
#[derive(Debug)]
pub enum Flag {
    /// `--bin`, `--example`, `--test` or `--bench`, with the name it was given.
    One(Kind, String),
    /// `--bins`, `--examples`, `--tests` or `--benches`.
    All(Kind),
    Lib,
    AllTargets,
}

/// The model of a [`Flag`].
#[verifier::ext_equal]
pub enum FlagView {
    One(Kind, Seq<char>),
    All(Kind),
    Lib,
    AllTargets,
}

impl View for Flag {
    type V = FlagView;

    open spec fn view(&self) -> FlagView {
        match self {
            Flag::One(k, n) => FlagView::One(*k, n@),
            Flag::All(k) => FlagView::All(*k),
            Flag::Lib => FlagView::Lib,
            Flag::AllTargets => FlagView::AllTargets,
        }
    }
}

/// The views of a list of flags.
pub open spec fn flag_views(v: Seq<Flag>) -> Seq<FlagView> {
    v.map_values(|f: Flag| f@)
}

/// The kind that a singular flag names.
pub open spec fn one_kind(head: Seq<char>) -> Option<Kind> {
    if head == "--bin"@ {
        Some(Kind::Bin)
    } else if head == "--example"@ {
        Some(Kind::Example)
    } else if head == "--test"@ {
        Some(Kind::Test)
    } else if head == "--bench"@ {
        Some(Kind::Bench)
    } else {
        None
    }
}

/// The flag that takes no name and selects more than one target, or none.
pub open spec fn nameless(head: Seq<char>) -> Option<FlagView> {
    if head == "--lib"@ {
        Some(FlagView::Lib)
    } else if head == "--bins"@ {
        Some(FlagView::All(Kind::Bin))
    } else if head == "--examples"@ {
        Some(FlagView::All(Kind::Example))
    } else if head == "--tests"@ {
        Some(FlagView::All(Kind::Test))
    } else if head == "--benches"@ {
        Some(FlagView::All(Kind::Bench))
    } else if head == "--all-targets"@ {
        Some(FlagView::AllTargets)
    } else {
        None
    }
}

/// The value that the first of `words` has: attached to it, or the word that follows. With it, how
/// many words the two take up.
pub open spec fn value_of(words: Seq<Seq<char>>) -> Option<(Seq<char>, int)> {
    match cut_once(words[0], '=').1 {
        Some(v) => if dashed(v) {
            None
        } else {
            Some((v, 1))
        },
        None => if words.len() >= 2 && !dashed(words[1]) {
            Some((words[1], 2))
        } else {
            None
        },
    }
}

/// `first` in front of what the rest reads as.
pub open spec fn flag_first(
    first: FlagView,
    rest: Result<Seq<FlagView>, Seq<char>>,
) -> Result<Seq<FlagView>, Seq<char>> {
    match rest {
        Ok(v) => Ok(seq![first] + v),
        Err(e) => Err(e),
    }
}

/// The selection flags in a command line, in order. A flag's value may be attached or separate;
/// both reach cargo the same. A flag that needs a name and has none spoils the line.
pub open spec fn flags_of(words: Seq<Seq<char>>) -> Result<Seq<FlagView>, Seq<char>>
    decreases words.len(),
{
    if words.len() == 0 {
        Ok(seq![])
    } else {
        let head = cut_once(words[0], '=').0;
        match one_kind(head) {
            Some(k) => match value_of(words) {
                Some((v, n)) => flag_first(
                    FlagView::One(k, v),
                    flags_of(words.skip(if n == 1 { 1 } else { 2 })),
                ),
                None => Err(head + " needs a name"@),
            },
            None => match nameless(head) {
                Some(f) => flag_first(f, flags_of(words.skip(1))),
                None => flags_of(words.skip(1)),
            },
        }
    }
}

fn read_one_kind(head: &str) -> (r: Option<Kind>)
    ensures
        r == one_kind(head@),
{
    if same(head, "--bin") {
        Some(Kind::Bin)
    } else if same(head, "--example") {
        Some(Kind::Example)
    } else if same(head, "--test") {
        Some(Kind::Test)
    } else if same(head, "--bench") {
        Some(Kind::Bench)
    } else {
        None
    }
}

fn read_nameless(head: &str) -> (r: Option<Flag>)
    ensures
        match r {
            Some(f) => nameless(head@) == Some(f@),
            None => nameless(head@) is None,
        },
{
    if same(head, "--lib") {
        Some(Flag::Lib)
    } else if same(head, "--bins") {
        Some(Flag::All(Kind::Bin))
    } else if same(head, "--examples") {
        Some(Flag::All(Kind::Example))
    } else if same(head, "--tests") {
        Some(Flag::All(Kind::Test))
    } else if same(head, "--benches") {
        Some(Flag::All(Kind::Bench))
    } else if same(head, "--all-targets") {
        Some(Flag::AllTargets)
    } else {
        None
    }
}

/// The value of the word at `i`, whose part behind an `=` is `attached`.
fn read_value(args: &Vec<String>, i: usize, attached: Option<String>) -> (r: Option<(String, usize)>)
    requires
        i < args@.len(),
        opt_text(attached) == cut_once(args@[i as int]@, '=').1,
    ensures
        match r {
            Some((v, n)) => value_of(texts(args@).skip(i as int)) == Some((v@, n as int)) && (n == 1
                || n == 2) && i + n <= args@.len(),
            None => value_of(texts(args@).skip(i as int)) is None,
        },
{
    let ghost left = texts(args@).skip(i as int);
    assert(left[0] == args@[i as int]@);
    match attached {
        Some(v) => {
            if starts_with(v.as_str(), "-") {
                None
            } else {
                Some((v, 1))
            }
        },
        None => {
            if args.len() - i >= 2 {
                assert(left[1] == args@[i + 1]@);
                if starts_with(args[i + 1].as_str(), "-") {
                    None
                } else {
                    Some((args[i + 1].clone(), 2))
                }
            } else {
                None
            }
        },
    }
}

spec fn flags_then(
    head: Seq<FlagView>,
    tail: Result<Seq<FlagView>, Seq<char>>,
) -> Result<Seq<FlagView>, Seq<char>> {
    match tail {
        Ok(v) => Ok(head + v),
        Err(e) => Err(e),
    }
}

/// The selection flags in `args`, in order. `Err` names the malformed flag.
pub fn parse_flags(args: &Vec<String>) -> (r: Result<Vec<Flag>, String>)
    ensures
        match r {
            Ok(v) => flags_of(texts(args@)) == Ok::<Seq<FlagView>, Seq<char>>(flag_views(v@)),
            Err(e) => flags_of(texts(args@)) == Err::<Seq<FlagView>, Seq<char>>(e@),
        },
{
    let mut out: Vec<Flag> = Vec::new();
    let ghost words = texts(args@);
    let mut i: usize = 0;
    proof {
        assert(words.skip(0) =~= words);
        assert(flag_views(out@) =~= Seq::<FlagView>::empty());
        match flags_of(words) {
            Ok(v) => {
                assert(Seq::<FlagView>::empty() + v =~= v);
            },
            Err(_) => {},
        }
    }
    while i < args.len()
        invariant
            i <= args@.len(),
            words == texts(args@),
            flags_of(words) == flags_then(flag_views(out@), flags_of(words.skip(i as int))),
        decreases args@.len() - i,
    {
        let ghost left = words.skip(i as int);
        let ghost was = flag_views(out@);
        assert(left[0] == args@[i as int]@);
        assert(left.skip(1) =~= words.skip(i + 1));
        // A flag's value may be attached or separate; both reach cargo the same.
        let (head, attached) = split_once(args[i].as_str(), '=');
        match read_one_kind(head.as_str()) {
            Some(k) => match read_value(args, i, attached) {
                Some((v, n)) => {
                    let ghost f = FlagView::One(k, v@);
                    out.push(Flag::One(k, v));
                    assert(flag_views(out@) =~= was.push(f));
                    assert(left.skip(n as int) =~= words.skip(i + n));
                    proof {
                        lemma_flags(was, f, flags_of(words.skip(i + n)));
                    }
                    i += n;
                },
                None => {
                    let mut e = head;
                    e.append(" needs a name");
                    return Err(e);
                },
            },
            None => {
                match read_nameless(head.as_str()) {
                    Some(f) => {
                        let ghost fv = f@;
                        out.push(f);
                        assert(flag_views(out@) =~= was.push(fv));
                        proof {
                            lemma_flags(was, fv, flags_of(words.skip(i + 1)));
                        }
                    },
                    None => {},
                }
                i += 1;
            },
        }
    }
    assert(words.skip(i as int).len() == 0);
    assert(flag_views(out@) + Seq::<FlagView>::empty() =~= flag_views(out@));
    Ok(out)
}

proof fn lemma_flags(was: Seq<FlagView>, f: FlagView, tail: Result<Seq<FlagView>, Seq<char>>)
    ensures
        flags_then(was, flag_first(f, tail)) == flags_then(was.push(f), tail),
{
    match tail {
        Ok(v) => {
            assert(was + (seq![f] + v) =~= was.push(f) + v);
        },
        Err(_) => {},
    }
}

/// What `-p`/`--package`/`--workspace` on the command line asked for.
#[derive(Debug)]
pub enum PkgSel {
    Named(Vec<String>),
    Workspace,
    /// Neither flag was present: cargo's own bare-invocation default.
    Default,
}

/// The model of a [`PkgSel`].
#[verifier::ext_equal]
pub enum PkgView {
    Named(Seq<Seq<char>>),
    Workspace,
    Default,
}

impl View for PkgSel {
    type V = PkgView;

    open spec fn view(&self) -> PkgView {
        match self {
            PkgSel::Named(v) => PkgView::Named(texts(v@)),
            PkgSel::Workspace => PkgView::Workspace,
            PkgSel::Default => PkgView::Default,
        }
    }
}

/// The packages that a line names, and whether it asks for all of them.
#[verifier::ext_equal]
pub struct Packages {
    pub names: Seq<Seq<char>>,
    pub all: bool,
}

/// `name` in front of what the rest asks for.
pub open spec fn package_first(
    name: Seq<char>,
    rest: Result<Packages, Seq<char>>,
) -> Result<Packages, Seq<char>> {
    match rest {
        Ok(p) => Ok(Packages { names: seq![name] + p.names, ..p }),
        Err(e) => Err(e),
    }
}

/// The name attached to `-p`, as in `-pfoo` and `-p=foo`: the leading `=` is never part of it.
pub open spec fn attached_name(word: Seq<char>) -> Seq<char> {
    let rest = word.skip("-p"@.len() as int);
    if starts(rest, "="@) {
        rest.skip("="@.len() as int)
    } else {
        rest
    }
}

/// Why `--exclude` is refused.
pub open spec fn no_exclude() -> Seq<char> {
    "rbuild doesn't support --exclude yet \u{2014} select packages with -p instead"@
}

/// What the package-selection flags in a line ask for. The first that makes no sense spoils it.
pub open spec fn packages_of(words: Seq<Seq<char>>) -> Result<Packages, Seq<char>>
    decreases words.len(),
{
    if words.len() == 0 {
        Ok(Packages { names: seq![], all: false })
    } else {
        let head = cut_once(words[0], '=').0;
        if starts(words[0], "-p"@) && words[0].len() > "-p"@.len() {
            package_first(attached_name(words[0]), packages_of(words.skip(1)))
        } else if head == "-p"@ || head == "--package"@ {
            match value_of(words) {
                Some((v, n)) => package_first(v, packages_of(words.skip(if n == 1 { 1 } else { 2 }))),
                None => Err(head + " needs a package name"@),
            }
        } else if head == "--workspace"@ || head == "--all"@ {
            match packages_of(words.skip(1)) {
                Ok(p) => Ok(Packages { all: true, ..p }),
                Err(e) => Err(e),
            }
        } else if head == "--exclude"@ {
            Err(no_exclude())
        } else {
            packages_of(words.skip(1))
        }
    }
}

/// What a line asks for, all in all: everything if it says so anywhere, else what it names.
pub open spec fn selection_of(words: Seq<Seq<char>>) -> Result<PkgView, Seq<char>> {
    match packages_of(words) {
        Ok(p) => Ok(
            if p.all {
                PkgView::Workspace
            } else if p.names.len() > 0 {
                PkgView::Named(p.names)
            } else {
                PkgView::Default
            },
        ),
        Err(e) => Err(e),
    }
}

spec fn packages_then(head: Packages, tail: Result<Packages, Seq<char>>) -> Result<Packages, Seq<char>> {
    match tail {
        Ok(p) => Ok(Packages { names: head.names + p.names, all: head.all || p.all }),
        Err(e) => Err(e),
    }
}

proof fn lemma_packages(was: Packages, name: Seq<char>, tail: Result<Packages, Seq<char>>)
    ensures
        packages_then(was, package_first(name, tail)) == packages_then(
            Packages { names: was.names.push(name), ..was },
            tail,
        ),
{
    match tail {
        Ok(p) => {
            assert(was.names + (seq![name] + p.names) =~= was.names.push(name) + p.names);
        },
        Err(_) => {},
    }
}

/// The name that is attached to a `-p` with something behind it.
fn read_attached(word: &str) -> (r: String)
    requires
        starts(word@, "-p"@),
    ensures
        r@ == attached_name(word@),
{
    let x = chars_of(word);
    let p = chars_of("-p");
    let rest = text_of(&x, p.len(), x.len());
    assert(x@.subrange(p@.len() as int, x@.len() as int) =~= word@.skip("-p"@.len() as int));
    if starts_with(rest.as_str(), "=") {
        let y = chars_of(rest.as_str());
        let q = chars_of("=");
        assert(y@.subrange(q@.len() as int, y@.len() as int) =~= rest@.skip("="@.len() as int));
        text_of(&y, q.len(), y.len())
    } else {
        rest
    }
}

/// The package-selection flags in `args`. Unlike [`parse_flags`], this only
/// looks for the handful that pick *which package*, not which target inside
/// one; the rest of `args` passes through untouched.
pub fn parse_package_selection(args: &Vec<String>) -> (r: Result<PkgSel, String>)
    ensures
        match r {
            Ok(sel) => selection_of(texts(args@)) == Ok::<PkgView, Seq<char>>(sel@),
            Err(e) => selection_of(texts(args@)) == Err::<PkgView, Seq<char>>(e@),
        },
{
    let mut names: Vec<String> = Vec::new();
    let mut all = false;
    let ghost words = texts(args@);
    let mut i: usize = 0;
    proof {
        assert(words.skip(0) =~= words);
        assert(texts(names@) =~= Seq::<Seq<char>>::empty());
        match packages_of(words) {
            Ok(p) => {
                assert(Seq::<Seq<char>>::empty() + p.names =~= p.names);
            },
            Err(_) => {},
        }
    }
    while i < args.len()
        invariant
            i <= args@.len(),
            words == texts(args@),
            packages_of(words) == packages_then(
                Packages { names: texts(names@), all },
                packages_of(words.skip(i as int)),
            ),
        decreases args@.len() - i,
    {
        let ghost left = words.skip(i as int);
        let ghost was = Packages { names: texts(names@), all };
        let a = args[i].as_str();
        assert(left[0] == a@);
        assert(left.skip(1) =~= words.skip(i + 1));
        // `-p` alone takes cargo's short-option attached form too: `-pfoo`
        // means the same as `-p foo`, no `=` involved. `-p=foo` is the same
        // again: the leading `=` is stripped here, never part of the name.
        let x = chars_of(a);
        let p = chars_of("-p");
        if starts_with(a, "-p") && x.len() > p.len() {
            let name = read_attached(a);
            let ghost n = name@;
            names.push(name);
            assert(texts(names@) =~= was.names.push(n));
            proof {
                lemma_packages(was, n, packages_of(words.skip(i + 1)));
            }
            i += 1;
            continue;
        }
        let (head, attached) = split_once(a, '=');
        if same(head.as_str(), "-p") || same(head.as_str(), "--package") {
            match read_value(args, i, attached) {
                Some((v, n)) => {
                    let ghost vv = v@;
                    names.push(v);
                    assert(texts(names@) =~= was.names.push(vv));
                    assert(left.skip(n as int) =~= words.skip(i + n));
                    proof {
                        lemma_packages(was, vv, packages_of(words.skip(i + n)));
                    }
                    i += n;
                },
                None => {
                    let mut e = head;
                    e.append(" needs a package name");
                    return Err(e);
                },
            }
            continue;
        }
        // `--all` is cargo's deprecated spelling of `--workspace`.
        if same(head.as_str(), "--workspace") || same(head.as_str(), "--all") {
            all = true;
        } else if same(head.as_str(), "--exclude") {
            // Handling this properly means excluding members from a set this
            // module otherwise treats as a flat list, more than a flag parse.
            // Silently dropping it would build the wrong set instead.
            return Err(
                "rbuild doesn't support --exclude yet \u{2014} select packages with -p instead".to_owned(),
            );
        }
        i += 1;
    }
    assert(words.skip(i as int).len() == 0);
    assert(texts(names@) + Seq::<Seq<char>>::empty() =~= texts(names@));
    if all {
        Ok(PkgSel::Workspace)
    } else if names.len() > 0 {
        Ok(PkgSel::Named(names))
    } else {
        Ok(PkgSel::Default)
    }
}

/// A word that holds the character once is cut there.
pub proof fn cut_at(a: Seq<char>, c: char, b: Seq<char>)
    requires
        !a.contains(c),
    ensures
        cut_once(a + seq![c] + b, c) == (a, Some(b)),
        cut_once(a, c) == (a, None::<Seq<char>>),
{
    let s = a + seq![c] + b;
    assert forall|k: int| 0 <= k < a.len() implies s[k] != c by {
        assert(s[k] == a[k]);
    }
    assert(s[a.len() as int] == c);
    first_of_unique(s, c, a.len() as int);
    assert(s.take(a.len() as int) =~= a);
    assert(s.skip(a.len() as int + 1) =~= b);
    first_of_unique(a, c, a.len() as int);
}

/// A package may be named in any of cargo's spellings: `-p x`, `-px`, `-p=x`, `--package x` and
/// `--package=x` all ask for the package `x`.
pub proof fn every_spelling_names_the_package(name: Seq<char>, post: Seq<Seq<char>>)
    requires
        name.len() > 0,
        !dashed(name),
        name[0] != '=',
    ensures
        packages_of(seq!["-p"@, name] + post) == package_first(name, packages_of(post)),
        packages_of(seq!["-p"@ + name] + post) == package_first(name, packages_of(post)),
        packages_of(seq!["-p="@ + name] + post) == package_first(name, packages_of(post)),
        packages_of(seq!["--package"@, name] + post) == package_first(name, packages_of(post)),
        packages_of(seq!["--package="@ + name] + post) == package_first(name, packages_of(post)),
{
    reveal_strlit("-p");
    reveal_strlit("-p=");
    reveal_strlit("=");
    reveal_strlit("--package");
    reveal_strlit("--package=");
    let w1 = seq!["-p"@, name] + post;
    assert(w1.skip(2) =~= post);
    assert(!"-p"@.contains('='));
    cut_at("-p"@, '=', name);
    let w2 = seq!["-p"@ + name] + post;
    assert(w2.skip(1) =~= post);
    assert(("-p"@ + name).take(2) =~= "-p"@);
    assert(("-p"@ + name).skip(2) =~= name);
    assert(!starts(name, "="@)) by {
        if starts(name, "="@) {
            assert(name.take(1)[0] == "="@[0]);
        }
    }
    let w3 = seq!["-p="@ + name] + post;
    assert(w3.skip(1) =~= post);
    assert(("-p="@ + name).take(2) =~= "-p"@);
    let rest = ("-p="@ + name).skip(2);
    assert(rest.take(1) =~= "="@);
    assert(rest.skip(1) =~= name);
    let w4 = seq!["--package"@, name] + post;
    assert(w4.skip(2) =~= post);
    assert(!"--package"@.contains('='));
    cut_at("--package"@, '=', name);
    assert("--package"@.take(2)[1] != "-p"@[1]);
    let w5 = seq!["--package="@ + name] + post;
    assert(w5.skip(1) =~= post);
    assert("--package="@ + name =~= "--package"@ + seq!['='] + name);
    assert(("--package="@ + name).take(2)[1] != "-p"@[1]);
}

/// `--all` is `--workspace` under an older name.
pub proof fn all_is_workspace(post: Seq<Seq<char>>)
    ensures
        packages_of(seq!["--all"@] + post) == packages_of(seq!["--workspace"@] + post),
        packages_of(seq!["--all"@] + post) == match packages_of(post) {
            Ok(p) => Ok::<Packages, Seq<char>>(Packages { all: true, ..p }),
            Err(e) => Err(e),
        },
{
    reveal_strlit("-p");
    reveal_strlit("--package");
    reveal_strlit("--all");
    reveal_strlit("--workspace");
    let a = seq!["--all"@] + post;
    let w = seq!["--workspace"@] + post;
    assert(a.skip(1) =~= post);
    assert(w.skip(1) =~= post);
    cut_at("--all"@, '=', seq![]);
    cut_at("--workspace"@, '=', seq![]);
    assert("--all"@.take(2)[1] != "-p"@[1]);
    assert("--workspace"@.take(2)[1] != "-p"@[1]);
    assert("--all"@.len() != "--package"@.len());
    assert("--workspace"@.len() != "--package"@.len());
}

/// A target may be named in either of cargo's spellings: attached to the flag or behind it.
pub proof fn attached_and_separate_names_are_one(kind: Kind, name: Seq<char>, post: Seq<Seq<char>>)
    requires
        !dashed(name),
    ensures
        ({
            let flag = "--"@ + kind.spelled();
            &&& flags_of(seq![flag, name] + post) == flag_first(FlagView::One(kind, name), flags_of(post))
            &&& flags_of(seq![flag + "="@ + name] + post) == flag_first(
                FlagView::One(kind, name),
                flags_of(post),
            )
        }),
{
    reveal_strlit("--");
    reveal_strlit("=");
    reveal_strlit("bin");
    reveal_strlit("example");
    reveal_strlit("test");
    reveal_strlit("bench");
    reveal_strlit("--bin");
    reveal_strlit("--example");
    reveal_strlit("--test");
    reveal_strlit("--bench");
    let flag = "--"@ + kind.spelled();
    assert("--"@ + "bin"@ =~= "--bin"@);
    assert("--"@ + "example"@ =~= "--example"@);
    assert("--"@ + "test"@ =~= "--test"@);
    assert("--"@ + "bench"@ =~= "--bench"@);
    assert("--bin"@.len() != "--example"@.len());
    assert("--test"@.len() != "--bin"@.len() && "--test"@.len() != "--example"@.len());
    assert("--bench"@.len() != "--bin"@.len() && "--bench"@.len() != "--example"@.len()
        && "--bench"@.len() != "--test"@.len());
    assert(!flag.contains('='));
    cut_at(flag, '=', name);
    assert(flag + "="@ + name =~= flag + seq!['='] + name);
    let w1 = seq![flag, name] + post;
    assert(w1.skip(2) =~= post);
    let w2 = seq![flag + "="@ + name] + post;
    assert(w2.skip(1) =~= post);
}

/// A word is cut to `flag` exactly if it is the flag, or the flag with an `=` and a value behind it.
pub proof fn what_a_flag_heads(word: Seq<char>, flag: Seq<char>)
    requires
        !flag.contains('='),
    ensures
        cut_once(word, '=').0 == flag <==> word == flag || (flag + seq!['=']).is_prefix_of(word),
        word == flag ==> cut_once(word, '=').1 is None,
        (flag + seq!['=']).is_prefix_of(word) ==> cut_once(word, '=').1 == Some(
            word.skip(flag.len() as int + 1),
        ),
{
    let head = flag + seq!['='];
    first_of_is_first(word, '=');
    let at = first_of(word, '=');
    cut_at(flag, '=', seq![]);
    if head.is_prefix_of(word) {
        let rest = word.skip(head.len() as int);
        assert(word =~= flag + seq!['='] + rest);
        cut_at(flag, '=', rest);
        assert(rest =~= word.skip(flag.len() as int + 1));
    }
    if cut_once(word, '=').0 == flag && at < word.len() {
        assert(word.take(at) == flag);
        assert(head =~= word.subrange(0, head.len() as int));
    }
}

proof fn selection_flags_differ()
    ensures
        !"--bin"@.contains('='),
        !"--example"@.contains('='),
        !"--test"@.contains('='),
        !"--bench"@.contains('='),
        !"--lib"@.contains('='),
        !"--bins"@.contains('='),
        !"--examples"@.contains('='),
        !"--tests"@.contains('='),
        !"--benches"@.contains('='),
        !"--all-targets"@.contains('='),
        "--bin"@ != "--example"@,
        "--bin"@ != "--test"@,
        "--bin"@ != "--bench"@,
        "--bin"@ != "--lib"@,
        "--bin"@ != "--bins"@,
        "--bin"@ != "--examples"@,
        "--bin"@ != "--tests"@,
        "--bin"@ != "--benches"@,
        "--bin"@ != "--all-targets"@,
        "--example"@ != "--test"@,
        "--example"@ != "--bench"@,
        "--example"@ != "--lib"@,
        "--example"@ != "--bins"@,
        "--example"@ != "--examples"@,
        "--example"@ != "--tests"@,
        "--example"@ != "--benches"@,
        "--example"@ != "--all-targets"@,
        "--test"@ != "--bench"@,
        "--test"@ != "--lib"@,
        "--test"@ != "--bins"@,
        "--test"@ != "--examples"@,
        "--test"@ != "--tests"@,
        "--test"@ != "--benches"@,
        "--test"@ != "--all-targets"@,
        "--bench"@ != "--lib"@,
        "--bench"@ != "--bins"@,
        "--bench"@ != "--examples"@,
        "--bench"@ != "--tests"@,
        "--bench"@ != "--benches"@,
        "--bench"@ != "--all-targets"@,
        "--lib"@ != "--bins"@,
        "--lib"@ != "--examples"@,
        "--lib"@ != "--tests"@,
        "--lib"@ != "--benches"@,
        "--lib"@ != "--all-targets"@,
        "--bins"@ != "--examples"@,
        "--bins"@ != "--tests"@,
        "--bins"@ != "--benches"@,
        "--bins"@ != "--all-targets"@,
        "--examples"@ != "--tests"@,
        "--examples"@ != "--benches"@,
        "--examples"@ != "--all-targets"@,
        "--tests"@ != "--benches"@,
        "--tests"@ != "--all-targets"@,
        "--benches"@ != "--all-targets"@,
{
    reveal_strlit("--bin");
    reveal_strlit("--example");
    reveal_strlit("--test");
    reveal_strlit("--bench");
    reveal_strlit("--lib");
    reveal_strlit("--bins");
    reveal_strlit("--examples");
    reveal_strlit("--tests");
    reveal_strlit("--benches");
    reveal_strlit("--all-targets");
    assert("--bin"@.len() == 5 && "--bin"@[2] == 'b');
    assert("--example"@.len() == 9 && "--example"@[2] == 'e');
    assert("--test"@.len() == 6 && "--test"@[2] == 't');
    assert("--bench"@.len() == 7 && "--bench"@[2] == 'b');
    assert("--lib"@.len() == 5 && "--lib"@[2] == 'l');
    assert("--bins"@.len() == 6 && "--bins"@[2] == 'b');
    assert("--examples"@.len() == 10 && "--examples"@[2] == 'e');
    assert("--tests"@.len() == 7 && "--tests"@[2] == 't');
    assert("--benches"@.len() == 9 && "--benches"@[2] == 'b');
    assert("--all-targets"@.len() == 13 && "--all-targets"@[2] == 'a');
}

/// Each of cargo's flags for a single target selects the target of its kind that is named behind it
/// or attached to it, in front of what the words after it select; without a name, or with a flag in
/// its place, the line is refused.
pub proof fn a_singular_flag_selects_its_target(name: Seq<char>, post: Seq<Seq<char>>)
    ensures
        (name.len() == 0 || name[0] != '-') ==> match flags_of(post) {
            Ok(v) => flags_of(seq!["--bin"@, name] + post) == Ok::<Seq<FlagView>, Seq<char>>(
                seq![FlagView::One(Kind::Bin, name)] + v,
            ),
            Err(e) => flags_of(seq!["--bin"@, name] + post) == Err::<Seq<FlagView>, Seq<char>>(e),
        },
        (name.len() == 0 || name[0] != '-') ==> match flags_of(post) {
            Ok(v) => flags_of(seq!["--bin="@ + name] + post) == Ok::<Seq<FlagView>, Seq<char>>(
                seq![FlagView::One(Kind::Bin, name)] + v,
            ),
            Err(e) => flags_of(seq!["--bin="@ + name] + post) == Err::<Seq<FlagView>, Seq<char>>(e),
        },
        name.len() > 0 && name[0] == '-' ==> flags_of(seq!["--bin"@, name] + post) == Err::<
            Seq<FlagView>,
            Seq<char>,
        >("--bin needs a name"@),
        name.len() > 0 && name[0] == '-' ==> flags_of(seq!["--bin="@ + name] + post) == Err::<
            Seq<FlagView>,
            Seq<char>,
        >("--bin needs a name"@),
        flags_of(seq!["--bin"@]) == Err::<Seq<FlagView>, Seq<char>>("--bin needs a name"@),
        (name.len() == 0 || name[0] != '-') ==> match flags_of(post) {
            Ok(v) => flags_of(seq!["--example"@, name] + post) == Ok::<Seq<FlagView>, Seq<char>>(
                seq![FlagView::One(Kind::Example, name)] + v,
            ),
            Err(e) => flags_of(seq!["--example"@, name] + post) == Err::<Seq<FlagView>, Seq<char>>(e),
        },
        (name.len() == 0 || name[0] != '-') ==> match flags_of(post) {
            Ok(v) => flags_of(seq!["--example="@ + name] + post) == Ok::<Seq<FlagView>, Seq<char>>(
                seq![FlagView::One(Kind::Example, name)] + v,
            ),
            Err(e) => flags_of(seq!["--example="@ + name] + post) == Err::<Seq<FlagView>, Seq<char>>(e),
        },
        name.len() > 0 && name[0] == '-' ==> flags_of(seq!["--example"@, name] + post) == Err::<
            Seq<FlagView>,
            Seq<char>,
        >("--example needs a name"@),
        name.len() > 0 && name[0] == '-' ==> flags_of(seq!["--example="@ + name] + post) == Err::<
            Seq<FlagView>,
            Seq<char>,
        >("--example needs a name"@),
        flags_of(seq!["--example"@]) == Err::<Seq<FlagView>, Seq<char>>("--example needs a name"@),
        (name.len() == 0 || name[0] != '-') ==> match flags_of(post) {
            Ok(v) => flags_of(seq!["--test"@, name] + post) == Ok::<Seq<FlagView>, Seq<char>>(
                seq![FlagView::One(Kind::Test, name)] + v,
            ),
            Err(e) => flags_of(seq!["--test"@, name] + post) == Err::<Seq<FlagView>, Seq<char>>(e),
        },
        (name.len() == 0 || name[0] != '-') ==> match flags_of(post) {
            Ok(v) => flags_of(seq!["--test="@ + name] + post) == Ok::<Seq<FlagView>, Seq<char>>(
                seq![FlagView::One(Kind::Test, name)] + v,
            ),
            Err(e) => flags_of(seq!["--test="@ + name] + post) == Err::<Seq<FlagView>, Seq<char>>(e),
        },
        name.len() > 0 && name[0] == '-' ==> flags_of(seq!["--test"@, name] + post) == Err::<
            Seq<FlagView>,
            Seq<char>,
        >("--test needs a name"@),
        name.len() > 0 && name[0] == '-' ==> flags_of(seq!["--test="@ + name] + post) == Err::<
            Seq<FlagView>,
            Seq<char>,
        >("--test needs a name"@),
        flags_of(seq!["--test"@]) == Err::<Seq<FlagView>, Seq<char>>("--test needs a name"@),
        (name.len() == 0 || name[0] != '-') ==> match flags_of(post) {
            Ok(v) => flags_of(seq!["--bench"@, name] + post) == Ok::<Seq<FlagView>, Seq<char>>(
                seq![FlagView::One(Kind::Bench, name)] + v,
            ),
            Err(e) => flags_of(seq!["--bench"@, name] + post) == Err::<Seq<FlagView>, Seq<char>>(e),
        },
        (name.len() == 0 || name[0] != '-') ==> match flags_of(post) {
            Ok(v) => flags_of(seq!["--bench="@ + name] + post) == Ok::<Seq<FlagView>, Seq<char>>(
                seq![FlagView::One(Kind::Bench, name)] + v,
            ),
            Err(e) => flags_of(seq!["--bench="@ + name] + post) == Err::<Seq<FlagView>, Seq<char>>(e),
        },
        name.len() > 0 && name[0] == '-' ==> flags_of(seq!["--bench"@, name] + post) == Err::<
            Seq<FlagView>,
            Seq<char>,
        >("--bench needs a name"@),
        name.len() > 0 && name[0] == '-' ==> flags_of(seq!["--bench="@ + name] + post) == Err::<
            Seq<FlagView>,
            Seq<char>,
        >("--bench needs a name"@),
        flags_of(seq!["--bench"@]) == Err::<Seq<FlagView>, Seq<char>>("--bench needs a name"@),
{
    selection_flags_differ();
    reveal_strlit(" needs a name");
    a_dash_in_front_makes_a_flag(name);
    reveal_strlit("--bin=");
    reveal_strlit("--bin");
    reveal_strlit("--bin needs a name");
    assert("--bin="@ + name =~= "--bin"@ + seq!['='] + name);
    assert("--bin"@ + " needs a name"@ =~= "--bin needs a name"@);
    cut_at("--bin"@, '=', name);
    assert((seq!["--bin"@, name] + post).skip(2) =~= post);
    assert((seq!["--bin="@ + name] + post).skip(1) =~= post);
    reveal_strlit("--example=");
    reveal_strlit("--example");
    reveal_strlit("--example needs a name");
    assert("--example="@ + name =~= "--example"@ + seq!['='] + name);
    assert("--example"@ + " needs a name"@ =~= "--example needs a name"@);
    cut_at("--example"@, '=', name);
    assert((seq!["--example"@, name] + post).skip(2) =~= post);
    assert((seq!["--example="@ + name] + post).skip(1) =~= post);
    reveal_strlit("--test=");
    reveal_strlit("--test");
    reveal_strlit("--test needs a name");
    assert("--test="@ + name =~= "--test"@ + seq!['='] + name);
    assert("--test"@ + " needs a name"@ =~= "--test needs a name"@);
    cut_at("--test"@, '=', name);
    assert((seq!["--test"@, name] + post).skip(2) =~= post);
    assert((seq!["--test="@ + name] + post).skip(1) =~= post);
    reveal_strlit("--bench=");
    reveal_strlit("--bench");
    reveal_strlit("--bench needs a name");
    assert("--bench="@ + name =~= "--bench"@ + seq!['='] + name);
    assert("--bench"@ + " needs a name"@ =~= "--bench needs a name"@);
    cut_at("--bench"@, '=', name);
    assert((seq!["--bench"@, name] + post).skip(2) =~= post);
    assert((seq!["--bench="@ + name] + post).skip(1) =~= post);
}

/// Each of cargo's flags for targets without a name selects what it says, in front of what the words
/// after it select, whatever is attached to it.
pub proof fn a_plural_flag_selects_its_kind(value: Seq<char>, post: Seq<Seq<char>>)
    ensures
        match flags_of(post) {
            Ok(v) => flags_of(seq!["--lib"@] + post) == Ok::<Seq<FlagView>, Seq<char>>(
                seq![FlagView::Lib] + v,
            ),
            Err(e) => flags_of(seq!["--lib"@] + post) == Err::<Seq<FlagView>, Seq<char>>(e),
        },
        match flags_of(post) {
            Ok(v) => flags_of(seq!["--lib="@ + value] + post) == Ok::<Seq<FlagView>, Seq<char>>(
                seq![FlagView::Lib] + v,
            ),
            Err(e) => flags_of(seq!["--lib="@ + value] + post) == Err::<Seq<FlagView>, Seq<char>>(e),
        },
        match flags_of(post) {
            Ok(v) => flags_of(seq!["--bins"@] + post) == Ok::<Seq<FlagView>, Seq<char>>(
                seq![FlagView::All(Kind::Bin)] + v,
            ),
            Err(e) => flags_of(seq!["--bins"@] + post) == Err::<Seq<FlagView>, Seq<char>>(e),
        },
        match flags_of(post) {
            Ok(v) => flags_of(seq!["--bins="@ + value] + post) == Ok::<Seq<FlagView>, Seq<char>>(
                seq![FlagView::All(Kind::Bin)] + v,
            ),
            Err(e) => flags_of(seq!["--bins="@ + value] + post) == Err::<Seq<FlagView>, Seq<char>>(e),
        },
        match flags_of(post) {
            Ok(v) => flags_of(seq!["--examples"@] + post) == Ok::<Seq<FlagView>, Seq<char>>(
                seq![FlagView::All(Kind::Example)] + v,
            ),
            Err(e) => flags_of(seq!["--examples"@] + post) == Err::<Seq<FlagView>, Seq<char>>(e),
        },
        match flags_of(post) {
            Ok(v) => flags_of(seq!["--examples="@ + value] + post) == Ok::<Seq<FlagView>, Seq<char>>(
                seq![FlagView::All(Kind::Example)] + v,
            ),
            Err(e) => flags_of(seq!["--examples="@ + value] + post) == Err::<Seq<FlagView>, Seq<char>>(e),
        },
        match flags_of(post) {
            Ok(v) => flags_of(seq!["--tests"@] + post) == Ok::<Seq<FlagView>, Seq<char>>(
                seq![FlagView::All(Kind::Test)] + v,
            ),
            Err(e) => flags_of(seq!["--tests"@] + post) == Err::<Seq<FlagView>, Seq<char>>(e),
        },
        match flags_of(post) {
            Ok(v) => flags_of(seq!["--tests="@ + value] + post) == Ok::<Seq<FlagView>, Seq<char>>(
                seq![FlagView::All(Kind::Test)] + v,
            ),
            Err(e) => flags_of(seq!["--tests="@ + value] + post) == Err::<Seq<FlagView>, Seq<char>>(e),
        },
        match flags_of(post) {
            Ok(v) => flags_of(seq!["--benches"@] + post) == Ok::<Seq<FlagView>, Seq<char>>(
                seq![FlagView::All(Kind::Bench)] + v,
            ),
            Err(e) => flags_of(seq!["--benches"@] + post) == Err::<Seq<FlagView>, Seq<char>>(e),
        },
        match flags_of(post) {
            Ok(v) => flags_of(seq!["--benches="@ + value] + post) == Ok::<Seq<FlagView>, Seq<char>>(
                seq![FlagView::All(Kind::Bench)] + v,
            ),
            Err(e) => flags_of(seq!["--benches="@ + value] + post) == Err::<Seq<FlagView>, Seq<char>>(e),
        },
        match flags_of(post) {
            Ok(v) => flags_of(seq!["--all-targets"@] + post) == Ok::<Seq<FlagView>, Seq<char>>(
                seq![FlagView::AllTargets] + v,
            ),
            Err(e) => flags_of(seq!["--all-targets"@] + post) == Err::<Seq<FlagView>, Seq<char>>(e),
        },
        match flags_of(post) {
            Ok(v) => flags_of(seq!["--all-targets="@ + value] + post) == Ok::<Seq<FlagView>, Seq<char>>(
                seq![FlagView::AllTargets] + v,
            ),
            Err(e) => flags_of(seq!["--all-targets="@ + value] + post) == Err::<Seq<FlagView>, Seq<char>>(e),
        },
{
    selection_flags_differ();
    reveal_strlit("--lib=");
    reveal_strlit("--lib");
    assert("--lib="@ + value =~= "--lib"@ + seq!['='] + value);
    cut_at("--lib"@, '=', value);
    assert((seq!["--lib"@] + post).skip(1) =~= post);
    assert((seq!["--lib="@ + value] + post).skip(1) =~= post);
    reveal_strlit("--bins=");
    reveal_strlit("--bins");
    assert("--bins="@ + value =~= "--bins"@ + seq!['='] + value);
    cut_at("--bins"@, '=', value);
    assert((seq!["--bins"@] + post).skip(1) =~= post);
    assert((seq!["--bins="@ + value] + post).skip(1) =~= post);
    reveal_strlit("--examples=");
    reveal_strlit("--examples");
    assert("--examples="@ + value =~= "--examples"@ + seq!['='] + value);
    cut_at("--examples"@, '=', value);
    assert((seq!["--examples"@] + post).skip(1) =~= post);
    assert((seq!["--examples="@ + value] + post).skip(1) =~= post);
    reveal_strlit("--tests=");
    reveal_strlit("--tests");
    assert("--tests="@ + value =~= "--tests"@ + seq!['='] + value);
    cut_at("--tests"@, '=', value);
    assert((seq!["--tests"@] + post).skip(1) =~= post);
    assert((seq!["--tests="@ + value] + post).skip(1) =~= post);
    reveal_strlit("--benches=");
    reveal_strlit("--benches");
    assert("--benches="@ + value =~= "--benches"@ + seq!['='] + value);
    cut_at("--benches"@, '=', value);
    assert((seq!["--benches"@] + post).skip(1) =~= post);
    assert((seq!["--benches="@ + value] + post).skip(1) =~= post);
    reveal_strlit("--all-targets=");
    reveal_strlit("--all-targets");
    assert("--all-targets="@ + value =~= "--all-targets"@ + seq!['='] + value);
    cut_at("--all-targets"@, '=', value);
    assert((seq!["--all-targets"@] + post).skip(1) =~= post);
    assert((seq!["--all-targets="@ + value] + post).skip(1) =~= post);
}

/// Any other word selects nothing, wherever it stands, unless it is the name of a flag before it.
pub proof fn other_words_select_nothing(word: Seq<char>, post: Seq<Seq<char>>)
    requires
        word != "--bin"@ && !"--bin="@.is_prefix_of(word),
        word != "--example"@ && !"--example="@.is_prefix_of(word),
        word != "--test"@ && !"--test="@.is_prefix_of(word),
        word != "--bench"@ && !"--bench="@.is_prefix_of(word),
        word != "--lib"@ && !"--lib="@.is_prefix_of(word),
        word != "--bins"@ && !"--bins="@.is_prefix_of(word),
        word != "--examples"@ && !"--examples="@.is_prefix_of(word),
        word != "--tests"@ && !"--tests="@.is_prefix_of(word),
        word != "--benches"@ && !"--benches="@.is_prefix_of(word),
        word != "--all-targets"@ && !"--all-targets="@.is_prefix_of(word),
    ensures
        flags_of(seq![word] + post) == flags_of(post),
        flags_of(Seq::<Seq<char>>::empty()) == Ok::<Seq<FlagView>, Seq<char>>(seq![]),
{
    selection_flags_differ();
    assert((seq![word] + post).skip(1) =~= post);
    reveal_strlit("--bin=");
    reveal_strlit("--bin");
    assert("--bin="@ =~= "--bin"@ + seq!['=']);
    what_a_flag_heads(word, "--bin"@);
    reveal_strlit("--example=");
    reveal_strlit("--example");
    assert("--example="@ =~= "--example"@ + seq!['=']);
    what_a_flag_heads(word, "--example"@);
    reveal_strlit("--test=");
    reveal_strlit("--test");
    assert("--test="@ =~= "--test"@ + seq!['=']);
    what_a_flag_heads(word, "--test"@);
    reveal_strlit("--bench=");
    reveal_strlit("--bench");
    assert("--bench="@ =~= "--bench"@ + seq!['=']);
    what_a_flag_heads(word, "--bench"@);
    reveal_strlit("--lib=");
    reveal_strlit("--lib");
    assert("--lib="@ =~= "--lib"@ + seq!['=']);
    what_a_flag_heads(word, "--lib"@);
    reveal_strlit("--bins=");
    reveal_strlit("--bins");
    assert("--bins="@ =~= "--bins"@ + seq!['=']);
    what_a_flag_heads(word, "--bins"@);
    reveal_strlit("--examples=");
    reveal_strlit("--examples");
    assert("--examples="@ =~= "--examples"@ + seq!['=']);
    what_a_flag_heads(word, "--examples"@);
    reveal_strlit("--tests=");
    reveal_strlit("--tests");
    assert("--tests="@ =~= "--tests"@ + seq!['=']);
    what_a_flag_heads(word, "--tests"@);
    reveal_strlit("--benches=");
    reveal_strlit("--benches");
    assert("--benches="@ =~= "--benches"@ + seq!['=']);
    what_a_flag_heads(word, "--benches"@);
    reveal_strlit("--all-targets=");
    reveal_strlit("--all-targets");
    assert("--all-targets="@ =~= "--all-targets"@ + seq!['=']);
    what_a_flag_heads(word, "--all-targets"@);
}

/// A word is taken for a flag exactly if its first character is a dash.
pub proof fn a_dash_in_front_makes_a_flag(word: Seq<char>)
    ensures
        dashed(word) <==> word.len() > 0 && word[0] == '-',
{
    reveal_strlit("-");
    if word.len() > 0 {
        assert(word.take(1)[0] == word[0]);
        if word[0] == '-' {
            assert(word.take(1) =~= "-"@);
        }
    }
}

/// What each word of a command line means to rbuild, in front of the words after it: the three
/// switches are taken off the line, an `--include` is taken off with its glob, attached or behind it,
/// and any other word is handed on where it stands, as is everything from a `--` on. An `--include`
/// with no glob, or with a flag in the glob's place, spoils the line.
pub proof fn what_each_word_means(word: Seq<char>, post: Seq<Seq<char>>)
    ensures
        own_of(Seq::<Seq<char>>::empty()) == Ok::<OwnView, Seq<char>>(
            OwnView { full: false, native: false, remote: false, includes: seq![], rest: seq![] },
        ),
        own_of(seq!["--"@] + post) == Ok::<OwnView, Seq<char>>(
            OwnView {
                full: false,
                native: false,
                remote: false,
                includes: seq![],
                rest: seq!["--"@] + post,
            },
        ),
        own_of(seq!["--include"@]) == Err::<OwnView, Seq<char>>("--include needs a glob"@),
        own_of(seq!["--include="@] + post) == Err::<OwnView, Seq<char>>("--include needs a glob"@),
        word.len() > 0 && word[0] == '-' ==> own_of(seq!["--include"@, word] + post) == Err::<
            OwnView,
            Seq<char>,
        >("--include needs a glob"@),
        own_of(post) matches Err(e) ==> {
            &&& own_of(seq!["--full"@] + post) == Err::<OwnView, Seq<char>>(e)
            &&& own_of(seq!["--native"@] + post) == Err::<OwnView, Seq<char>>(e)
            &&& own_of(seq!["--remote"@] + post) == Err::<OwnView, Seq<char>>(e)
            &&& word.len() == 0 || word[0] != '-' ==> own_of(seq!["--include"@, word] + post) == Err::<
                OwnView,
                Seq<char>,
            >(e)
            &&& word.len() > 0 ==> own_of(seq!["--include="@ + word] + post) == Err::<OwnView, Seq<char>>(e)
        },
        own_of(post) matches Ok(t) ==> {
            &&& own_of(seq!["--full"@] + post) == Ok::<OwnView, Seq<char>>(
                OwnView { full: true, native: t.native, remote: t.remote, includes: t.includes, rest: t.rest },
            )
            &&& own_of(seq!["--native"@] + post) == Ok::<OwnView, Seq<char>>(
                OwnView { full: t.full, native: true, remote: t.remote, includes: t.includes, rest: t.rest },
            )
            &&& own_of(seq!["--remote"@] + post) == Ok::<OwnView, Seq<char>>(
                OwnView { full: t.full, native: t.native, remote: true, includes: t.includes, rest: t.rest },
            )
            &&& word.len() == 0 || word[0] != '-' ==> own_of(seq!["--include"@, word] + post) == Ok::<
                OwnView,
                Seq<char>,
            >(OwnView {
                full: t.full,
                native: t.native,
                remote: t.remote,
                includes: seq![word] + t.includes,
                rest: t.rest,
            })
            &&& word.len() > 0 ==> own_of(seq!["--include="@ + word] + post) == Ok::<OwnView, Seq<char>>(
                OwnView {
                    full: t.full,
                    native: t.native,
                    remote: t.remote,
                    includes: seq![word] + t.includes,
                    rest: t.rest,
                },
            )
        },
        (word != "--full"@ && word != "--native"@ && word != "--remote"@ && word != "--"@ && word
            != "--include"@ && !"--include="@.is_prefix_of(word)) ==> match own_of(post) {
            Ok(t) => own_of(seq![word] + post) == Ok::<OwnView, Seq<char>>(
                OwnView {
                    full: t.full,
                    native: t.native,
                    remote: t.remote,
                    includes: t.includes,
                    rest: seq![word] + t.rest,
                },
            ),
            Err(e) => own_of(seq![word] + post) == Err::<OwnView, Seq<char>>(e),
        },
{
    reveal_strlit("--");
    reveal_strlit("--full");
    reveal_strlit("--native");
    reveal_strlit("--remote");
    reveal_strlit("--include");
    reveal_strlit("--include=");
    assert("--"@.len() == 2);
    assert("--full"@.len() == 6);
    assert("--native"@.len() == 8);
    assert("--remote"@.len() == 8);
    assert("--include"@.len() == 9);
    assert("--include="@.len() == 10);
    assert("--native"@[2] == 'n' && "--remote"@[2] == 'r');
    a_dash_in_front_makes_a_flag(word);
    assert((seq!["--include="@] + post).skip(1) =~= post);
    assert("--include="@.take(10) =~= "--include="@);
    assert("--include="@.skip(10).len() == 0);
    assert((seq!["--include"@, word] + post).skip(2) =~= post);
    assert(("--include="@ + word).take(10) =~= "--include="@);
    assert(("--include="@ + word).skip(10) =~= word);
    assert(("--include="@ + word)[9] == '=');
    assert((seq!["--include="@ + word] + post).skip(1) =~= post);
    assert((seq!["--full"@] + post).skip(1) =~= post);
    assert((seq!["--native"@] + post).skip(1) =~= post);
    assert((seq!["--remote"@] + post).skip(1) =~= post);
    assert((seq![word] + post).skip(1) =~= post);
}

/// What each word of a command line says of the packages, in front of the words after it. A package is
/// named behind `-p` or `--package` or attached to either; `--workspace` and `--all` ask for all of
/// them; `--exclude` is refused, and so is a flag that needs a name and has none. Any other word says
/// nothing of packages.
pub proof fn what_each_word_says_of_packages(name: Seq<char>, post: Seq<Seq<char>>)
    ensures
        packages_of(Seq::<Seq<char>>::empty()) == Ok::<Packages, Seq<char>>(
            Packages { names: seq![], all: false },
        ),
        (name.len() == 0 || name[0] != '-') ==> match packages_of(post) {
            Ok(p) => packages_of(seq!["-p"@, name] + post) == Ok::<Packages, Seq<char>>(
                Packages { names: seq![name] + p.names, all: p.all },
            ),
            Err(e) => packages_of(seq!["-p"@, name] + post) == Err::<Packages, Seq<char>>(e),
        },
        name.len() > 0 && name[0] == '-' ==> packages_of(seq!["-p"@, name] + post) == Err::<
            Packages,
            Seq<char>,
        >("-p needs a package name"@),
        packages_of(seq!["-p"@]) == Err::<Packages, Seq<char>>("-p needs a package name"@),
        (name.len() == 0 || name[0] != '-') ==> match packages_of(post) {
            Ok(p) => packages_of(seq!["--package"@, name] + post) == Ok::<Packages, Seq<char>>(
                Packages { names: seq![name] + p.names, all: p.all },
            ),
            Err(e) => packages_of(seq!["--package"@, name] + post) == Err::<Packages, Seq<char>>(e),
        },
        name.len() > 0 && name[0] == '-' ==> packages_of(seq!["--package"@, name] + post) == Err::<
            Packages,
            Seq<char>,
        >("--package needs a package name"@),
        packages_of(seq!["--package"@]) == Err::<Packages, Seq<char>>("--package needs a package name"@),
        (name.len() == 0 || name[0] != '-') ==> match packages_of(post) {
            Ok(p) => packages_of(seq!["--package="@ + name] + post) == Ok::<Packages, Seq<char>>(
                Packages { names: seq![name] + p.names, all: p.all },
            ),
            Err(e) => packages_of(seq!["--package="@ + name] + post) == Err::<Packages, Seq<char>>(e),
        },
        name.len() > 0 && name[0] == '-' ==> packages_of(seq!["--package="@ + name] + post) == Err::<
            Packages,
            Seq<char>,
        >("--package needs a package name"@),
        match packages_of(post) {
            Ok(p) => packages_of(seq!["-p="@ + name] + post) == Ok::<Packages, Seq<char>>(
                Packages { names: seq![name] + p.names, all: p.all },
            ),
            Err(e) => packages_of(seq!["-p="@ + name] + post) == Err::<Packages, Seq<char>>(e),
        },
        name.len() > 0 && name[0] != '=' ==> match packages_of(post) {
            Ok(p) => packages_of(seq!["-p"@ + name] + post) == Ok::<Packages, Seq<char>>(
                Packages { names: seq![name] + p.names, all: p.all },
            ),
            Err(e) => packages_of(seq!["-p"@ + name] + post) == Err::<Packages, Seq<char>>(e),
        },
        match packages_of(post) {
            Ok(p) => packages_of(seq!["--workspace"@] + post) == Ok::<Packages, Seq<char>>(
                Packages { names: p.names, all: true },
            ),
            Err(e) => packages_of(seq!["--workspace"@] + post) == Err::<Packages, Seq<char>>(e),
        },
        match packages_of(post) {
            Ok(p) => packages_of(seq!["--workspace="@ + name] + post) == Ok::<Packages, Seq<char>>(
                Packages { names: p.names, all: true },
            ),
            Err(e) => packages_of(seq!["--workspace="@ + name] + post) == Err::<Packages, Seq<char>>(e),
        },
        match packages_of(post) {
            Ok(p) => packages_of(seq!["--all"@] + post) == Ok::<Packages, Seq<char>>(
                Packages { names: p.names, all: true },
            ),
            Err(e) => packages_of(seq!["--all"@] + post) == Err::<Packages, Seq<char>>(e),
        },
        match packages_of(post) {
            Ok(p) => packages_of(seq!["--all="@ + name] + post) == Ok::<Packages, Seq<char>>(
                Packages { names: p.names, all: true },
            ),
            Err(e) => packages_of(seq!["--all="@ + name] + post) == Err::<Packages, Seq<char>>(e),
        },
        packages_of(seq!["--exclude"@] + post) == Err::<Packages, Seq<char>>(
            "rbuild doesn't support --exclude yet \u{2014} select packages with -p instead"@,
        ),
        packages_of(seq!["--exclude="@ + name] + post) == Err::<Packages, Seq<char>>(
            "rbuild doesn't support --exclude yet \u{2014} select packages with -p instead"@,
        ),
        (!"-p"@.is_prefix_of(name) && name != "--package"@ && !"--package="@.is_prefix_of(name) && name
            != "--workspace"@ && !"--workspace="@.is_prefix_of(name) && name != "--all"@
            && !"--all="@.is_prefix_of(name) && name != "--exclude"@ && !"--exclude="@.is_prefix_of(name))
            ==> packages_of(seq![name] + post) == packages_of(post),
{
    reveal_strlit("=");
    reveal_strlit(" needs a package name");
    reveal_strlit("-p needs a package name");
    reveal_strlit("--package needs a package name");
    reveal_strlit("-p");
    reveal_strlit("--package");
    assert("-p"@ + " needs a package name"@ =~= "-p needs a package name"@);
    assert("--package"@ + " needs a package name"@ =~= "--package needs a package name"@);
    a_dash_in_front_makes_a_flag(name);
    assert((seq![name] + post).skip(1) =~= post);
    reveal_strlit("-p=");
    assert("-p"@.len() == 2 && "-p="@.len() == 3);
    assert("-p"@[1] == 'p');
    assert(!"-p"@.contains('='));
    assert("-p="@ =~= "-p"@ + seq!['=']);
    assert("-p="@ + name =~= "-p"@ + seq!['='] + name);
    cut_at("-p"@, '=', name);
    what_a_flag_heads(name, "-p"@);
    assert((seq!["-p"@, name] + post).skip(2) =~= post);
    assert((seq!["-p"@] + post).skip(1) =~= post);
    assert((seq!["-p="@ + name] + post).skip(1) =~= post);
    reveal_strlit("--package");
    reveal_strlit("--package=");
    assert("--package"@.len() == 9 && "--package="@.len() == 10);
    assert("--package"@[1] == '-');
    assert(!"--package"@.contains('='));
    assert("--package="@ =~= "--package"@ + seq!['=']);
    assert("--package="@ + name =~= "--package"@ + seq!['='] + name);
    cut_at("--package"@, '=', name);
    what_a_flag_heads(name, "--package"@);
    assert((seq!["--package"@, name] + post).skip(2) =~= post);
    assert((seq!["--package"@] + post).skip(1) =~= post);
    assert((seq!["--package="@ + name] + post).skip(1) =~= post);
    assert("--package"@.take(2)[1] != "-p"@[1]);
    assert(("--package="@ + name).take(2)[1] != "-p"@[1]);
    reveal_strlit("--workspace");
    reveal_strlit("--workspace=");
    assert("--workspace"@.len() == 11 && "--workspace="@.len() == 12);
    assert("--workspace"@[1] == '-');
    assert(!"--workspace"@.contains('='));
    assert("--workspace="@ =~= "--workspace"@ + seq!['=']);
    assert("--workspace="@ + name =~= "--workspace"@ + seq!['='] + name);
    cut_at("--workspace"@, '=', name);
    what_a_flag_heads(name, "--workspace"@);
    assert((seq!["--workspace"@, name] + post).skip(2) =~= post);
    assert((seq!["--workspace"@] + post).skip(1) =~= post);
    assert((seq!["--workspace="@ + name] + post).skip(1) =~= post);
    assert("--workspace"@.take(2)[1] != "-p"@[1]);
    assert(("--workspace="@ + name).take(2)[1] != "-p"@[1]);
    reveal_strlit("--all");
    reveal_strlit("--all=");
    assert("--all"@.len() == 5 && "--all="@.len() == 6);
    assert("--all"@[1] == '-');
    assert(!"--all"@.contains('='));
    assert("--all="@ =~= "--all"@ + seq!['=']);
    assert("--all="@ + name =~= "--all"@ + seq!['='] + name);
    cut_at("--all"@, '=', name);
    what_a_flag_heads(name, "--all"@);
    assert((seq!["--all"@, name] + post).skip(2) =~= post);
    assert((seq!["--all"@] + post).skip(1) =~= post);
    assert((seq!["--all="@ + name] + post).skip(1) =~= post);
    assert("--all"@.take(2)[1] != "-p"@[1]);
    assert(("--all="@ + name).take(2)[1] != "-p"@[1]);
    reveal_strlit("--exclude");
    reveal_strlit("--exclude=");
    assert("--exclude"@.len() == 9 && "--exclude="@.len() == 10);
    assert("--exclude"@[1] == '-');
    assert(!"--exclude"@.contains('='));
    assert("--exclude="@ =~= "--exclude"@ + seq!['=']);
    assert("--exclude="@ + name =~= "--exclude"@ + seq!['='] + name);
    cut_at("--exclude"@, '=', name);
    what_a_flag_heads(name, "--exclude"@);
    assert((seq!["--exclude"@, name] + post).skip(2) =~= post);
    assert((seq!["--exclude"@] + post).skip(1) =~= post);
    assert((seq!["--exclude="@ + name] + post).skip(1) =~= post);
    assert("--exclude"@.take(2)[1] != "-p"@[1]);
    assert(("--exclude="@ + name).take(2)[1] != "-p"@[1]);
    assert("--workspace"@.len() != "--exclude"@.len() && "--package"@[2] != "--exclude"@[2]);
    assert(("-p"@ + name).take(2) =~= "-p"@);
    assert(("-p"@ + name).skip(2) =~= name);
    assert((seq!["-p"@ + name] + post).skip(1) =~= post);
    if name.len() > 0 && name[0] != '=' {
        assert(name.take(1)[0] != "="@[0]);
    }
    assert(("-p="@ + name).take(2) =~= "-p"@);
    let rest = ("-p="@ + name).skip(2);
    assert(rest.take(1) =~= "="@);
    assert(rest.skip(1) =~= name);
}

/// All packages are asked for if any word says so; else those that are named, if there are any.
pub proof fn what_is_asked_for_of_packages(words: Seq<Seq<char>>)
    ensures
        match packages_of(words) {
            Err(e) => selection_of(words) == Err::<PkgView, Seq<char>>(e),
            Ok(p) => {
                &&& p.all ==> selection_of(words) == Ok::<PkgView, Seq<char>>(PkgView::Workspace)
                &&& !p.all && p.names.len() > 0 ==> selection_of(words) == Ok::<PkgView, Seq<char>>(
                    PkgView::Named(p.names),
                )
                &&& !p.all && p.names.len() == 0 ==> selection_of(words) == Ok::<PkgView, Seq<char>>(
                    PkgView::Default,
                )
            },
        },
{
}

/// How a target is named to a reader and to cargo, and what cargo calls its kind.
pub proof fn how_targets_are_named(a: ArtifactView)
    ensures
        a.kind == Kind::Bin ==> a.kind.spelled() == "bin"@ && a.labelled() == "--bin "@ + a.name && a.flagged()
            == seq!["--bin"@, a.name],
        a.kind == Kind::Example ==> a.kind.spelled() == "example"@
            && a.labelled() == "--example "@ + a.name && a.flagged()
            == seq!["--example"@, a.name],
        a.kind == Kind::Test ==> a.kind.spelled() == "test"@
            && a.labelled() == "--test "@ + a.name && a.flagged()
            == seq!["--test"@, a.name],
        a.kind == Kind::Bench ==> a.kind.spelled() == "bench"@
            && a.labelled() == "--bench "@ + a.name && a.flagged()
            == seq!["--bench"@, a.name],
{
    reveal_strlit("--");
    reveal_strlit(" ");
    reveal_strlit("bin");
    reveal_strlit("--bin");
    reveal_strlit("--bin ");
    assert("--"@ + "bin"@ =~= "--bin"@);
    assert("--"@ + "bin"@ + " "@ =~= "--bin "@);
    reveal_strlit("example");
    reveal_strlit("--example");
    reveal_strlit("--example ");
    assert("--"@ + "example"@ =~= "--example"@);
    assert("--"@ + "example"@ + " "@ =~= "--example "@);
    reveal_strlit("test");
    reveal_strlit("--test");
    reveal_strlit("--test ");
    assert("--"@ + "test"@ =~= "--test"@);
    assert("--"@ + "test"@ + " "@ =~= "--test "@);
    reveal_strlit("bench");
    reveal_strlit("--bench");
    reveal_strlit("--bench ");
    assert("--"@ + "bench"@ =~= "--bench"@);
    assert("--"@ + "bench"@ + " "@ =~= "--bench "@);
}

/// The flags of a line that reads well by itself come first, whatever words follow it.
pub proof fn flags_add_up(words: Seq<Seq<char>>, more: Seq<Seq<char>>)
    requires
        flags_of(words) is Ok,
    ensures
        match flags_of(more) {
            Ok(g) => flags_of(words + more) == Ok::<Seq<FlagView>, Seq<char>>(flags_of(words)->Ok_0 + g),
            Err(e) => flags_of(words + more) == Err::<Seq<FlagView>, Seq<char>>(e),
        },
    decreases words.len(),
{
    let all = words + more;
    if words.len() == 0 {
        assert(all =~= more);
        if let Ok(g) = flags_of(more) {
            assert(Seq::<FlagView>::empty() + g =~= g);
        }
    } else {
        assert(all[0] == words[0]);
        let head = cut_once(words[0], '=').0;
        assert(all.skip(1) =~= words.skip(1) + more);
        if let Some(k) = one_kind(head) {
            let pair = value_of(words)->0;
            let n: int = pair.1;
            let rest = words.skip(if n == 1 { 1 } else { 2 });
            if n != 1 {
                assert(all[1] == words[1]);
                assert(all.skip(2) =~= words.skip(2) + more);
            }
            flags_add_up(rest, more);
            if let Ok(g) = flags_of(more) {
                let f = FlagView::One(k, pair.0);
                assert(seq![f] + (flags_of(rest)->Ok_0 + g) =~= seq![f] + flags_of(rest)->Ok_0 + g);
            }
        } else {
            let rest = words.skip(1);
            flags_add_up(rest, more);
            if let Ok(g) = flags_of(more) {
                if let Some(f) = nameless(head) {
                    assert(seq![f] + (flags_of(rest)->Ok_0 + g) =~= seq![f] + flags_of(rest)->Ok_0 + g);
                }
            }
        }
    }
}

} // verus!
