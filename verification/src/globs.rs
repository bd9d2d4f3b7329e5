//! The `--include` globs.
use globset::{Glob, GlobSet, GlobSetBuilder};
use vstd::prelude::*;
use vstd::string::*;

use crate::text::{quoted, quoted_text, starts, texts};

verus! {

/// `globset::Glob`, one compiled pattern.
#[verifier::external_type_specification]
#[verifier::external_body]
pub struct ExGlob(globset::Glob);

/// `globset::GlobSetBuilder`, a list of patterns.
#[verifier::external_type_specification]
#[verifier::external_body]
pub struct ExGlobSetBuilder(globset::GlobSetBuilder);

/// `globset::GlobSet`, a list of patterns that are matched together.
#[verifier::external_type_specification]
#[verifier::external_body]
pub struct ExGlobSet(globset::GlobSet);

/// The paths without a backslash that a pattern matches.
pub uninterp spec fn glob_paths(g: Glob) -> Set<Seq<char>>;

/// The paths without a backslash that each pattern of a builder matches, in order.
pub uninterp spec fn builder_paths(b: GlobSetBuilder) -> Seq<Set<Seq<char>>>;

/// The paths without a backslash that each pattern of a set matches, in order.
pub uninterp spec fn set_paths(s: GlobSet) -> Seq<Set<Seq<char>>>;

/// The text that a pattern was made of.
pub uninterp spec fn glob_text(g: Glob) -> Seq<char>;

/// The texts that a builder's patterns were made of, in order.
pub uninterp spec fn builder_texts(b: GlobSetBuilder) -> Seq<Seq<char>>;

/// The texts that a set's patterns were made of, in order.
pub uninterp spec fn set_texts(s: GlobSet) -> Seq<Seq<char>>;

/// What a text without a backslash is as a pattern: the paths without a backslash that it matches,
/// or what is wrong with it.
pub uninterp spec fn parsed_glob(text: Seq<char>) -> Result<Set<Seq<char>>, Seq<char>>;

/// What is wrong with a builder's patterns taken together, if anything is.
pub uninterp spec fn build_error(b: GlobSetBuilder) -> Option<Seq<char>>;

/// Whether an error is one about a pattern's text.
pub open spec fn about_glob(error: Seq<char>, text: Seq<char>) -> bool {
    starts(error, "error parsing glob '"@ + text + "': "@)
}

/// `Glob::new`, with its error as a text. The pattern keeps the text it was made of, and the error
/// names it. Of a text without a backslash the outcome is that of `parsed_glob`. A backslash escapes on
/// one platform and separates on another, so whether a text that holds one is well formed, and which
/// paths it matches, is left unsaid.
#[verifier::external_body]
pub(crate) fn new_glob(text: &str) -> (r: Result<Glob, String>)
    ensures
        r matches Ok(g) ==> glob_text(g) == text@,
        r matches Err(e) ==> about_glob(e@, text@),
        !text@.contains('\\') ==> match r {
            Ok(g) => parsed_glob(text@) == Ok::<Set<Seq<char>>, Seq<char>>(glob_paths(g)),
            Err(e) => parsed_glob(text@) == Err::<Set<Seq<char>>, Seq<char>>(e@),
        },
{
    Glob::new(text).map_err(|e| e.to_string())
}

/// `GlobSetBuilder::new`: a builder without patterns.
#[verifier::external_body]
pub(crate) fn new_builder() -> (r: GlobSetBuilder)
    ensures
        builder_paths(r) == Seq::<Set<Seq<char>>>::empty(),
        builder_texts(r) == Seq::<Seq<char>>::empty(),
{
    GlobSetBuilder::new()
}

/// `GlobSetBuilder::add`: the pattern becomes the last one.
#[verifier::external_body]
pub(crate) fn add_glob(b: &mut GlobSetBuilder, g: Glob)
    ensures
        builder_paths(*final(b)) == builder_paths(*old(b)).push(glob_paths(g)),
        builder_texts(*final(b)) == builder_texts(*old(b)).push(glob_text(g)),
{
    b.add(g);
}

/// `GlobSetBuilder::build`, with its error as a text. The set holds the builder's patterns in their
/// order. A builder without patterns always builds.
#[verifier::external_body]
pub(crate) fn build_set(b: &GlobSetBuilder) -> (r: Result<GlobSet, String>)
    ensures
        match r {
            Ok(s) => set_paths(s) == builder_paths(*b) && set_texts(s) == builder_texts(*b)
                && build_error(*b) is None,
            Err(e) => build_error(*b) == Some(e@) && builder_paths(*b).len() > 0,
        },
{
    b.build().map_err(|e| e.to_string())
}

/// `GlobSet::matches`: the numbers of the patterns that match a path, in ascending order, each
/// once.
#[verifier::external_body]
pub(crate) fn matching(s: &GlobSet, path: &str) -> (r: Vec<usize>)
    requires
        !path@.contains('\\'),
    ensures
        forall|a: int, b: int| 0 <= a < b < r@.len() ==> r@[a] < r@[b],
        forall|a: int| 0 <= a < r@.len() ==> (#[trigger] r@[a]) < set_paths(*s).len(),
        forall|i: int|
            0 <= i < set_paths(*s).len() ==> (#[trigger] set_paths(*s)[i].contains(path@)
                <==> exists|a: int| 0 <= a < r@.len() && r@[a] == i),
{
    s.matches(path)
}

/// The `--include` globs and the matcher they compile to. Empty when the flag
/// never appeared.
pub struct Includes {
    /// As typed, so a run can name the ones that matched nothing.
    pub globs: Vec<String>,
    pub set: GlobSet,
}

/// The model of [`Includes`].
#[verifier::ext_equal]
pub struct IncludesView {
    /// The globs as typed.
    pub globs: Seq<Seq<char>>,
    /// The paths that each of them names.
    pub paths: Seq<Set<Seq<char>>>,
}

impl View for Includes {
    type V = IncludesView;

    open spec fn view(&self) -> IncludesView {
        IncludesView { globs: texts(self.globs@), paths: set_paths(self.set) }
    }
}

/// What a malformed glob is answered.
pub open spec fn bad_glob(text: Seq<char>, error: Seq<char>) -> Seq<char> {
    "--include "@ + quoted_text(text) + ": "@ + error
}

/// What globs that cannot be matched together are answered.
pub open spec fn bad_set(error: Seq<char>) -> Seq<char> {
    "--include: "@ + error
}

/// Puts what is wrong with a glob into words.
pub fn glob_message(text: &str, error: &str) -> (r: String)
    ensures
        r@ == bad_glob(text@, error@),
{
    let mut m = "--include ".to_owned();
    let q = quoted(text);
    m.append(q.as_str());
    m.append(": ");
    m.append(error);
    m
}

/// Puts what is wrong with the globs together into words.
pub fn set_message(error: &str) -> (r: String)
    ensures
        r@ == bad_set(error@),
{
    let mut m = "--include: ".to_owned();
    m.append(error);
    m
}

/// Whether a glob holds a backslash.
pub open spec fn has_backslash(glob: Seq<char>) -> bool {
    glob.contains('\\')
}

/// Whether paths are those of the first globs, one set for each, as far as a glob without a backslash
/// says which they are.
pub open spec fn each_parsed(globs: Seq<Seq<char>>, paths: Seq<Set<Seq<char>>>) -> bool {
    forall|i: int|
        0 <= i < paths.len() && !has_backslash(#[trigger] globs[i]) ==> parsed_glob(globs[i]) == Ok::<
            Set<Seq<char>>,
            Seq<char>,
        >(paths[i])
}

/// Whether a builder with patterns of these texts and paths fails to build, with this error.
pub open spec fn fails_to_build(
    globs: Seq<Seq<char>>,
    paths: Seq<Set<Seq<char>>>,
    error: Seq<char>,
) -> bool {
    exists|b: GlobSetBuilder|
        builder_texts(b) == globs && builder_paths(b) == paths && #[trigger] build_error(b) == Some(
            error,
        )
}

/// Whether a builder with patterns of these texts and paths builds.
pub open spec fn builds(globs: Seq<Seq<char>>, paths: Seq<Set<Seq<char>>>) -> bool {
    exists|b: GlobSetBuilder|
        builder_texts(b) == globs && builder_paths(b) == paths && #[trigger] build_error(b) is None
}

/// Whether globs compile: every one is well formed, and they build together. Of one with a backslash
/// the form is up to the platform.
pub open spec fn compiles(globs: Seq<Seq<char>>) -> bool {
    exists|paths: Seq<Set<Seq<char>>>| #[trigger] compile_to(globs, paths)
}

/// Whether globs compile to matchers of these paths.
pub open spec fn compile_to(globs: Seq<Seq<char>>, paths: Seq<Set<Seq<char>>>) -> bool {
    &&& paths.len() == globs.len()
    &&& builds(globs, paths)
    &&& each_parsed(globs, paths)
}

/// Whether the glob with number `i` may be the first malformed one, with this error. Whether one with
/// a backslash is malformed is up to the platform.
pub open spec fn malformed_at(globs: Seq<Seq<char>>, i: int, error: Seq<char>) -> bool {
    &&& 0 <= i < globs.len()
    &&& about_glob(error, globs[i])
    &&& !has_backslash(globs[i]) ==> parsed_glob(globs[i]) == Err::<Set<Seq<char>>, Seq<char>>(error)
    &&& forall|j: int|
        0 <= j < i && !has_backslash(#[trigger] globs[j]) ==> parsed_glob(globs[j]) is Ok
}

/// Whether globs do not build together, with this error, though every one is well formed.
pub open spec fn clash(globs: Seq<Seq<char>>, error: Seq<char>) -> bool {
    exists|paths: Seq<Set<Seq<char>>>| #[trigger]
        fails_to_build(globs, paths, error) && paths.len() == globs.len() && each_parsed(globs, paths)
}

/// Whether globs may be refused with a message: with that of the first malformed one, or, with every
/// one well formed, because they do not build together. Without a glob there is nothing to refuse.
pub open spec fn refused(globs: Seq<Seq<char>>, message: Seq<char>) -> bool {
    &&& globs.len() > 0
    &&& {
        ||| exists|i: int, e: Seq<char>| #[trigger]
            malformed_at(globs, i, e) && message == bad_glob(globs[i], e)
        ||| exists|e: Seq<char>| #[trigger] clash(globs, e) && message == bad_set(e)
    }
}

/// A malformed glob without a backslash keeps the whole list from compiling, whatever else is in it.
pub proof fn a_malformed_glob_does_not_compile(globs: Seq<Seq<char>>, i: int)
    requires
        0 <= i < globs.len(),
        !has_backslash(globs[i]),
        parsed_glob(globs[i]) is Err,
    ensures
        !compiles(globs),
{
    if compiles(globs) {
        let paths = choose|paths: Seq<Set<Seq<char>>>| #[trigger] compile_to(globs, paths);
        assert(parsed_glob(globs[i]) == Ok::<Set<Seq<char>>, Seq<char>>(paths[i]));
    }
}

/// A list is refused for its first malformed glob, and with that glob's own error, unless the platform
/// has a say about one before it.
pub proof fn the_first_malformed_glob_is_named(
    globs: Seq<Seq<char>>,
    i: int,
    error: Seq<char>,
    message: Seq<char>,
)
    requires
        0 <= i < globs.len(),
        forall|j: int| 0 <= j <= i ==> !has_backslash(#[trigger] globs[j]),
        forall|j: int| 0 <= j < i ==> parsed_glob(#[trigger] globs[j]) is Ok,
        parsed_glob(globs[i]) == Err::<Set<Seq<char>>, Seq<char>>(error),
        refused(globs, message),
    ensures
        message == bad_glob(globs[i], error),
{
    if exists|k: int, e: Seq<char>| #[trigger]
        malformed_at(globs, k, e) && message == bad_glob(globs[k], e) {
        let (k, e) = choose|k: int, e: Seq<char>| #[trigger]
            malformed_at(globs, k, e) && message == bad_glob(globs[k], e);
        if k < i {
            assert(!has_backslash(globs[k]));
            assert(parsed_glob(globs[k]) is Ok);
        } else if i < k {
            assert(!has_backslash(globs[i]));
        }
        assert(k == i);
    } else {
        let e = choose|e: Seq<char>| #[trigger] clash(globs, e) && message == bad_set(e);
        let paths = choose|paths: Seq<Set<Seq<char>>>| #[trigger]
            fails_to_build(globs, paths, e) && paths.len() == globs.len() && each_parsed(globs, paths);
        assert(!has_backslash(globs[i]));
        assert(parsed_glob(globs[i]) == Ok::<Set<Seq<char>>, Seq<char>>(paths[i]));
    }
}

impl Includes {
    /// Each glob has its matcher, made of its own text.
    pub open spec fn wf(&self) -> bool {
        &&& self@.paths.len() == self@.globs.len()
        &&& set_texts(self.set) == self@.globs
    }

    /// Compiles the globs, or says which of them is malformed.
    pub fn compile(globs: Vec<String>) -> (r: Result<Includes, String>)
        ensures
            match r {
                Ok(i) => {
                    &&& i.wf()
                    &&& i@.globs == texts(globs@)
                    &&& compile_to(texts(globs@), i@.paths)
                },
                Err(e) => refused(texts(globs@), e@),
            },
    {
        let mut b = new_builder();
        let ghost t = texts(globs@);
        let mut i: usize = 0;
        while i < globs.len()
            invariant
                i <= globs@.len(),
                t == texts(globs@),
                builder_paths(b).len() == i,
                builder_texts(b) == t.take(i as int),
                each_parsed(t, builder_paths(b)),
            decreases globs@.len() - i,
        {
            assert(t[i as int] == globs@[i as int]@);
            let ghost was = builder_paths(b);
            match new_glob(globs[i].as_str()) {
                Ok(g) => {
                    add_glob(&mut b, g);
                    assert(builder_texts(b) =~= t.take(i + 1));
                    assert forall|j: int|
                        0 <= j < builder_paths(b).len() && !has_backslash(
                            #[trigger] t[j],
                        ) implies parsed_glob(t[j]) == Ok::<Set<Seq<char>>, Seq<char>>(
                        builder_paths(b)[j],
                    ) by {
                        if j < i {
                            assert(builder_paths(b)[j] == was[j]);
                        }
                    }
                },
                Err(e) => {
                    assert(malformed_at(t, i as int, e@));
                    return Err(glob_message(globs[i].as_str(), e.as_str()));
                },
            }
            i += 1;
        }
        assert(t.take(i as int) =~= t);
        match build_set(&b) {
            Ok(set) => {
                assert(builds(t, builder_paths(b)));
                Ok(Includes { globs, set })
            },
            Err(e) => {
                assert(fails_to_build(t, builder_paths(b), e@));
                assert(clash(t, e@));
                Err(set_message(e.as_str()))
            },
        }
    }

    pub fn is_empty(&self) -> (r: bool)
        ensures
            r == (self@.globs.len() == 0),
    {
        self.globs.len() == 0
    }
}

/// What a malformed glob, and globs that do not go together, are answered, word for word.
pub proof fn what_is_said_of_globs(text: Seq<char>, error: Seq<char>)
    ensures
        bad_glob(text, error) == "--include "@ + quoted_text(text) + ": "@ + error,
        bad_set(error) == "--include: "@ + error,
{
}

/// Globs that compile have one matcher each, and it is the glob's own as far as the platform has no say
/// in it.
pub proof fn each_glob_has_its_matcher(globs: Seq<Seq<char>>, paths: Seq<Set<Seq<char>>>)
    requires
        compile_to(globs, paths),
    ensures
        paths.len() == globs.len(),
        forall|i: int|
            0 <= i < globs.len() && !globs[i].contains('\\') ==> parsed_glob(#[trigger] globs[i]) == Ok::<
                Set<Seq<char>>,
                Seq<char>,
            >(paths[i]),
{
    assert forall|i: int| 0 <= i < globs.len() && !globs[i].contains('\\') implies parsed_glob(
        #[trigger] globs[i],
    ) == Ok::<Set<Seq<char>>, Seq<char>>(paths[i]) by {
        assert(!has_backslash(globs[i]));
    }
}

/// Globs are never refused where there are none, and where every one is well formed and none holds a
/// backslash, only for not going together.
pub proof fn well_formed_globs_are_refused_only_together(globs: Seq<Seq<char>>, message: Seq<char>)
    requires
        refused(globs, message),
    ensures
        globs.len() > 0,
        (forall|i: int|
            0 <= i < globs.len() ==> !(#[trigger] globs[i]).contains('\\') && parsed_glob(globs[i]) is Ok)
            ==> exists|e: Seq<char>| message == #[trigger] ("--include: "@ + e),
{
    if forall|i: int|
        0 <= i < globs.len() ==> !(#[trigger] globs[i]).contains('\\') && parsed_glob(globs[i]) is Ok {
        if exists|i: int, e: Seq<char>| #[trigger] malformed_at(globs, i, e) && message == bad_glob(globs[i], e) {
            let (i, e) = choose|i: int, e: Seq<char>| #[trigger]
                malformed_at(globs, i, e) && message == bad_glob(globs[i], e);
            assert(!globs[i].contains('\\'));
        }
        let e = choose|e: Seq<char>| #[trigger] clash(globs, e) && message == bad_set(e);
        assert(message == "--include: "@ + e);
    }
}

} // verus!
