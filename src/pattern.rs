//! Ignore patterns: each pattern is classified once as an extension, an
//! exact name or a general glob; a name is matched by the fast checks first
//! and by the compiled glob set last.

use vstd::prelude::*;
use globset::{Glob, GlobSet, GlobSetBuilder};
use crate::entry::{extension, extension_of, Display, Layout};
use crate::flags::Config;
use crate::text::{contains_char, has_char, lower_of, lowercase, owned, str_eq};

verus! {

#[verifier::external_type_specification]
#[verifier::external_body]
pub struct ExGlob(globset::Glob);

#[verifier::external_type_specification]
#[verifier::external_body]
pub struct ExGlobSet(globset::GlobSet);

#[verifier::external_type_specification]
#[verifier::external_body]
pub struct ExGlobSetBuilder(globset::GlobSetBuilder);

#[verifier::external_type_specification]
#[verifier::external_body]
pub struct ExGlobError(globset::Error);

/// Whether `globset` accepts a pattern as a glob.
pub uninterp spec fn glob_parses(p: Seq<char>) -> bool;

/// Whether the glob written `p` matches the name `name`.
pub uninterp spec fn glob_matches(p: Seq<char>, name: Seq<char>) -> bool;

/// The pattern text a compiled glob holds.
pub uninterp spec fn glob_text(g: Glob) -> Seq<char>;

/// Whether `globset` compiles these globs into one set.
pub uninterp spec fn set_builds(ps: Seq<Seq<char>>) -> bool;

/// The patterns added to a builder, in order.
pub uninterp spec fn builder_patterns(b: GlobSetBuilder) -> Seq<Seq<char>>;

/// The patterns a built glob set holds, in order.
pub uninterp spec fn set_patterns(s: GlobSet) -> Seq<Seq<char>>;

/// Some pattern of `gs` matches `name`.
pub open spec fn any_glob(gs: Seq<Seq<char>>, name: Seq<char>) -> bool
    decreases gs.len(),
{
    gs.len() > 0 && (any_glob(gs.drop_last(), name) || glob_matches(gs.last(), name))
}

/// Relies on `globset::Glob::new`: it succeeds exactly on the patterns it
/// accepts, and the glob keeps the pattern text.
#[verifier::external_body]
fn new_glob(pattern: &str) -> (r: Result<Glob, globset::Error>)
    ensures
        r is Ok <==> glob_parses(pattern@),
        r matches Ok(g) ==> glob_text(g) == pattern@,
{
    Glob::new(pattern)
}

/// Relies on `globset::GlobSetBuilder::new`: a builder with no pattern.
#[verifier::external_body]
fn new_builder() -> (r: GlobSetBuilder)
    ensures
        builder_patterns(r) == Seq::<Seq<char>>::empty(),
{
    GlobSetBuilder::new()
}

/// Relies on `globset::GlobSetBuilder::add`: appends the glob.
#[verifier::external_body]
fn builder_add(b: &mut GlobSetBuilder, g: Glob)
    ensures
        builder_patterns(*final(b)) == builder_patterns(*old(b)).push(glob_text(g)),
{
    b.add(g);
}

/// Relies on `globset::GlobSetBuilder::build`: whether it succeeds depends
/// on the added patterns alone, an empty builder always succeeds, and a set
/// built holds the added patterns.
#[verifier::external_body]
fn builder_build(b: &GlobSetBuilder) -> (r: Result<GlobSet, globset::Error>)
    ensures
        r is Ok <==> set_builds(builder_patterns(*b)),
        builder_patterns(*b).len() == 0 ==> r is Ok,
        r matches Ok(s) ==> set_patterns(s) == builder_patterns(*b),
{
    b.build()
}

/// Relies on `globset::GlobSet::empty`: a set that matches nothing.
#[verifier::external_body]
fn empty_set() -> (r: GlobSet)
    ensures
        set_patterns(r) == Seq::<Seq<char>>::empty(),
{
    GlobSet::empty()
}

/// Relies on `globset::GlobSet::is_match`: true when any glob of the set
/// matches the name.
#[verifier::external_body]
fn set_matches(s: &GlobSet, name: &str) -> (r: bool)
    ensures
        r == any_glob(set_patterns(*s), name@),
        r == (exists|i: int| 0 <= i < set_patterns(*s).len() && #[trigger] glob_matches(set_patterns(*s)[i], name@)),
{
    s.is_match(name)
}

/// A glob metacharacter: `*`, `?`, `[` or `]`.
pub open spec fn has_glob_meta(p: Seq<char>) -> bool {
    has_char(p, '*') || has_char(p, '?') || has_char(p, '[') || has_char(p, ']')
}

/// A pattern of the form `*.ext` whose `ext` holds no metacharacter and no dot.
pub open spec fn is_extension_pattern(p: Seq<char>) -> bool {
    p.len() >= 2 && p[0] == '*' && p[1] == '.' && !has_glob_meta(p.subrange(2, p.len() as int))
        && !has_char(p.subrange(2, p.len() as int), '.')
}

/// A pattern with no glob metacharacter, matched literally.
pub open spec fn is_exact_pattern(p: Seq<char>) -> bool {
    !is_extension_pattern(p) && !has_glob_meta(p)
}

/// Neither an extension nor an exact pattern: matched as a glob.
pub open spec fn is_complex_pattern(p: Seq<char>) -> bool {
    !is_extension_pattern(p) && has_glob_meta(p)
}

/// What one pattern says of a name: an extension pattern matches names whose
/// extension is the same ignoring case, an exact pattern the name itself, any
/// other pattern the names its glob matches.
pub open spec fn pattern_matches(p: Seq<char>, name: Seq<char>) -> bool {
    if is_extension_pattern(p) {
        match extension_of(name) {
            Some(e) => lower_of(e) == lower_of(p.subrange(2, p.len() as int)),
            None => false,
        }
    } else if is_exact_pattern(p) {
        name == p
    } else {
        glob_matches(p, name)
    }
}

/// Some pattern of `ps` matches `name`.
pub open spec fn any_pattern(ps: Seq<Seq<char>>, name: Seq<char>) -> bool
    decreases ps.len(),
{
    ps.len() > 0 && (any_pattern(ps.drop_last(), name) || pattern_matches(ps.last(), name))
}

/// The patterns of `ps` that a lenient construction keeps: every extension and
/// exact pattern, and the globs that parse when `globs` is true.
pub open spec fn kept_patterns(ps: Seq<Seq<char>>, globs: bool) -> Seq<Seq<char>>
    decreases ps.len(),
{
    if ps.len() == 0 {
        ps
    } else {
        let rest = kept_patterns(ps.drop_last(), globs);
        let p = ps.last();
        if !is_complex_pattern(p) || (globs && glob_parses(p)) {
            rest.push(p)
        } else {
            rest
        }
    }
}

/// The patterns of `ps` that go to the glob set: the globs that parse, in
/// order.
pub open spec fn glob_patterns(ps: Seq<Seq<char>>) -> Seq<Seq<char>>
    decreases ps.len(),
{
    if ps.len() == 0 {
        ps
    } else if is_complex_pattern(ps.last()) && glob_parses(ps.last()) {
        glob_patterns(ps.drop_last()).push(ps.last())
    } else {
        glob_patterns(ps.drop_last())
    }
}

/// The patterns of `ps` that are rejected: the globs that do not parse, in
/// order.
pub open spec fn rejected_patterns(ps: Seq<Seq<char>>) -> Seq<Seq<char>>
    decreases ps.len(),
{
    if ps.len() == 0 {
        ps
    } else if is_complex_pattern(ps.last()) && !glob_parses(ps.last()) {
        rejected_patterns(ps.drop_last()).push(ps.last())
    } else {
        rejected_patterns(ps.drop_last())
    }
}

/// How a pattern is matched.
pub enum PatternType {
    /// Lowercased extension, compared with a name's lowercased extension.
    Extension(String),
    /// A literal name, compared exactly.
    ExactName(String),
    /// A compiled glob.
    Complex(Glob),
}

/// A pattern that could not be used.
#[derive(Clone, Debug, PartialEq, Eq)]
pub enum IgnoreGlobError {
    /// The pattern is not a valid glob.
    InvalidPattern(String),
    /// The globs could not be compiled together.
    BuildFailed,
}

/// The classification of `p`, as `classify_pattern` produces it.
pub open spec fn classified_as(p: Seq<char>, t: PatternType) -> bool {
    match t {
        PatternType::Extension(e) => is_extension_pattern(p) && e@ == lower_of(p.subrange(2, p.len() as int)),
        PatternType::ExactName(n) => is_exact_pattern(p) && n@ == p,
        PatternType::Complex(g) => is_complex_pattern(p) && glob_parses(p) && glob_text(g) == p,
    }
}

fn has_meta(s: &str) -> (r: bool)
    ensures
        r == has_glob_meta(s@),
{
    contains_char(s, '*') || contains_char(s, '?') || contains_char(s, '[') || contains_char(s, ']')
}

/// Sorts a pattern into the fast extension check, the fast exact-name check,
/// or the glob set; a glob that does not parse is an error.
pub fn classify_pattern(pattern: &str) -> (r: Result<PatternType, IgnoreGlobError>)
    ensures
        r is Err <==> (is_complex_pattern(pattern@) && !glob_parses(pattern@)),
        r matches Ok(t) ==> classified_as(pattern@, t),
        r matches Err(e) ==> e == IgnoreGlobError::InvalidPattern(e->InvalidPattern_0) && e->InvalidPattern_0@ == pattern@,
{
    let n = pattern.unicode_len();
    if n >= 2 && pattern.get_char(0) == '*' && pattern.get_char(1) == '.' {
        let rest = pattern.substring_char(2, n);
        if !has_meta(rest) && !contains_char(rest, '.') {
            return Ok(PatternType::Extension(lowercase(rest)));
        }
    }
    if !has_meta(pattern) {
        return Ok(PatternType::ExactName(owned(pattern)));
    }
    match new_glob(pattern) {
        Ok(g) => Ok(PatternType::Complex(g)),
        Err(_) => Err(IgnoreGlobError::InvalidPattern(owned(pattern))),
    }
}

/// Some string of `v` equals `s`.
fn holds(v: &Vec<String>, s: &str) -> (r: bool)
    ensures
        r == views(v@).contains(s@),
{
    let mut i: usize = 0;
    while i < v.len()
        invariant
            i <= v@.len(),
            forall|j: int| 0 <= j < i ==> v@[j]@ != s@,
        decreases v@.len() - i,
    {
        if str_eq(v[i].as_str(), s) {
            assert(views(v@)[i as int] == s@);
            return true;
        }
        i = i + 1;
    }
    proof {
        if views(v@).contains(s@) {
            let j = choose|j: int| 0 <= j < v@.len() && #[trigger] views(v@)[j] == s@;
            assert(v@[j]@ == s@);
        }
    }
    false
}

/// Views of a sequence of string slices.
pub open spec fn str_views(v: Seq<&str>) -> Seq<Seq<char>> {
    v.map_values(|x: &str| x@)
}

/// Views of a vector of strings.
pub open spec fn views(v: Seq<String>) -> Seq<Seq<char>> {
    v.map_values(|x: String| x@)
}

/// The built-in patterns.
pub open spec fn builtin_patterns() -> Seq<Seq<char>> {
    seq![
        ".git"@,
        ".svn"@,
        ".hg"@,
        ".bzr"@,
        "node_modules"@,
        "target"@,
        "dist"@,
        "build"@,
        "vendor"@,
        "out"@,
        ".next"@,
        ".nuxt"@,
        ".output"@,
        "_build"@,
        "site"@,
        "__pycache__"@,
        "*.pyc"@,
        "*.pyo"@,
        ".pytest_cache"@,
        ".mypy_cache"@,
        ".ruff_cache"@,
        ".tox"@,
        ".hypothesis"@,
        "venv"@,
        ".venv"@,
        "env"@,
        ".env"@,
        "*.egg-info"@,
        ".idea"@,
        ".vscode"@,
        "*.swp"@,
        "*.swo"@,
        "*~"@,
        ".DS_Store"@,
        "Thumbs.db"@,
        ".yarn"@,
        ".pnp.*"@,
        ".npm"@,
        "coverage"@,
        ".coverage"@,
        "*.cover"@,
        ".nyc_output"@,
        "*.lcov"@,
        "*.o"@,
        "*.so"@,
        "*.dll"@,
        "*.exe"@,
        "*.bin"@,
        "*.class"@,
        "*.log"@,
        "*.sqlite"@,
        "*.db"@,
        "*.lock"@,
        "package-lock.json"@,
        "yarn.lock"@,
        "Cargo.lock"@,
        "poetry.lock"@,
        "Pipfile.lock"@,
        "*.zip"@,
        "*.tar"@,
        "*.tar.gz"@,
        "*.tar.bz2"@,
        "*.tar.xz"@,
        "*.rar"@,
        "*.7z"@,
        "*.gz"@,
        "*.bz2"@,
        "*.xz"@,
        "*.iso"@,
        "*.dmg"@,
        "*.pkg"@,
        "*.deb"@,
        "*.rpm"@,
        "*.msi"@,
        "*.exe"@,
        "*.app"@,
        "*.jpg"@,
        "*.jpeg"@,
        "*.png"@,
        "*.gif"@,
        "*.bmp"@,
        "*.ico"@,
        "*.svg"@,
        "*.webp"@,
        "*.tiff"@,
        "*.tif"@,
        "*.psd"@,
        "*.ai"@,
        "*.eps"@,
        "*.mp4"@,
        "*.mov"@,
        "*.avi"@,
        "*.mkv"@,
        "*.webm"@,
        "*.flv"@,
        "*.wmv"@,
        "*.mpg"@,
        "*.mpeg"@,
        "*.m4v"@,
        "*.3gp"@,
        "*.mp3"@,
        "*.wav"@,
        "*.ogg"@,
        "*.flac"@,
        "*.aac"@,
        "*.wma"@,
        "*.m4a"@,
        "*.opus"@,
        "*.pdf"@,
        "*.docx"@,
        "*.doc"@,
        "*.xlsx"@,
        "*.xls"@,
        "*.pptx"@,
        "*.ppt"@,
        "*.odt"@,
        "*.ods"@,
        "*.odp"@,
        "*.pkl"@,
        "*.npy"@,
        "*.npz"@,
        "*.parquet"@,
        "*.hdf5"@,
        "*.h5"@,
        "*.mat"@,
        "*.feather"@,
        "*.msgpack"@,
        ".cache"@,
        ".parcel-cache"@,
        ".turbo"@,
        ".vercel"@,
        ".netlify"@,
        ".serverless"@,
        ".terraform"@,
        "*.min.js"@,
        "*.min.css"@,
        "*.map"@,
        ".sass-cache"@,
        ".gradle"@,
        ".m2"@,
        ".stack-work"@,
        ".cabal-sandbox"@,
        "bower_components"@,
        "jspm_packages"@,
        ".pnp"@,
        "*.pid"@,
        "*.seed"@,
        "*.pid.lock"@,
    ]
}

/// What a build from the patterns `ps` gives: success exactly when the
/// globs that parse compile together (always when there is none), the
/// patterns that are not valid globs returned as rejected, and a matcher for
/// all the other patterns.
pub open spec fn built_from(r: Result<(IgnoreGlobs, Vec<String>), IgnoreGlobError>, ps: Seq<Seq<char>>) -> bool {
    &&& (r is Ok <==> set_builds(glob_patterns(ps)))
    &&& (glob_patterns(ps).len() == 0 ==> r is Ok)
    &&& (r matches Err(e) ==> e == IgnoreGlobError::BuildFailed)
    &&& (r matches Ok((g, rejected)) ==> views(rejected@) == rejected_patterns(ps) && forall|name: Seq<char>| #[trigger] g.verdict(name)
        == any_pattern(kept_patterns(ps, true), name))
}

/// Ignore patterns, classified for matching.
pub struct IgnoreGlobs {
    extensions: Vec<String>,
    exact_names: Vec<String>,
    complex_globs: GlobSet,
}

/// The verdict of the three checks on `name`.
pub open spec fn three_way(exts: Seq<Seq<char>>, exacts: Seq<Seq<char>>, globs: Seq<Seq<char>>, name: Seq<char>) -> bool {
    (match extension_of(name) {
        Some(e) => exts.contains(lower_of(e)),
        None => false,
    }) || exacts.contains(name) || any_glob(globs, name)
}

impl IgnoreGlobs {
    /// Whether these patterns match `name`.
    pub closed spec fn verdict(&self, name: Seq<char>) -> bool {
        three_way(views(self.extensions@), views(self.exact_names@), set_patterns(self.complex_globs), name)
    }

    /// Builds the matcher from `patterns`. A pattern that is not a valid glob
    /// is dropped and returned among the rejected ones; every other pattern is
    /// kept. The build fails only when the kept globs cannot be compiled
    /// together, and never when there is no glob to compile. A name then
    /// matches exactly when one of the kept patterns matches it.
    pub fn from_patterns(patterns: &Vec<&str>) -> (r: Result<(IgnoreGlobs, Vec<String>), IgnoreGlobError>)
        ensures
            built_from(r, str_views(patterns@)),
    {
        let (built, rejected) = Self::build(patterns, false);
        match built {
            Ok(g) => Ok((g, rejected)),
            Err(e) => Err(e),
        }
    }

    /// Shared construction. Invalid globs are skipped and returned. When the
    /// globs cannot be compiled together the build fails, or, with
    /// `fallback`, keeps only the extension and exact-name checks.
    fn build(patterns: &Vec<&str>, fallback: bool) -> (r: (Result<IgnoreGlobs, IgnoreGlobError>, Vec<String>))
        ensures
            views(r.1@) == rejected_patterns(str_views(patterns@)),
            !fallback ==> (r.0 is Ok <==> set_builds(glob_patterns(str_views(patterns@)))),
            !fallback ==> (glob_patterns(str_views(patterns@)).len() == 0 ==> r.0 is Ok),
            !fallback ==> (r.0 matches Err(e) ==> e == IgnoreGlobError::BuildFailed),
            r.0 matches Ok(g) ==> (set_builds(glob_patterns(str_views(patterns@))) ==> forall|name: Seq<char>| #[trigger] g.verdict(name)
                == any_pattern(kept_patterns(str_views(patterns@), true), name)),
            fallback ==> r.0 is Ok,
            fallback ==> (r.0 matches Ok(g) ==> (!set_builds(glob_patterns(str_views(patterns@))) ==> forall|name: Seq<char>| #[trigger] g.verdict(name)
                == any_pattern(kept_patterns(str_views(patterns@), false), name))),
    {
        let ghost ps = str_views(patterns@);
        let mut extensions: Vec<String> = Vec::new();
        let mut exact_names: Vec<String> = Vec::new();
        let mut builder = new_builder();
        let mut rejected: Vec<String> = Vec::new();
        let mut i: usize = 0;
        while i < patterns.len()
            invariant
                i <= patterns@.len(),
                ps == str_views(patterns@),
                builder_patterns(builder) == glob_patterns(ps.subrange(0, i as int)),
                views(rejected@) == rejected_patterns(ps.subrange(0, i as int)),
                forall|name: Seq<char>| #[trigger] three_way(views(extensions@), views(exact_names@), builder_patterns(builder), name)
                    == any_pattern(kept_patterns(ps.subrange(0, i as int), true), name),
                forall|name: Seq<char>| #[trigger] three_way(views(extensions@), views(exact_names@), Seq::empty(), name)
                    == any_pattern(kept_patterns(ps.subrange(0, i as int), false), name),
            decreases patterns@.len() - i,
        {
            let p = patterns[i];
            let ghost before = ps.subrange(0, i as int);
            let ghost after = ps.subrange(0, i + 1);
            assert(after.drop_last() == before);
            assert(after.last() == p@);
            proof {
                lemma_any_pattern_push(kept_patterns(before, true), p@);
                lemma_any_pattern_push(kept_patterns(before, false), p@);
            }
            let ghost old_ext = views(extensions@);
            let ghost old_exact = views(exact_names@);
            let ghost old_globs = builder_patterns(builder);
            match classify_pattern(p) {
                Ok(PatternType::Extension(e)) => {
                    extensions.push(e);
                    assert(views(extensions@) == old_ext.push(e@));
                    assert forall|name: Seq<char>| #[trigger] three_way(views(extensions@), views(exact_names@), builder_patterns(builder), name)
                        == any_pattern(kept_patterns(after, true), name) by {
                        lemma_push_contains(old_ext, e@);
                        assert(any_pattern(kept_patterns(before, true).push(p@), name) == (any_pattern(kept_patterns(before, true), name) || pattern_matches(p@, name)));
                        assert(three_way(old_ext, old_exact, old_globs, name) == any_pattern(kept_patterns(before, true), name));
                    }
                    assert forall|name: Seq<char>| #[trigger] three_way(views(extensions@), views(exact_names@), Seq::empty(), name)
                        == any_pattern(kept_patterns(after, false), name) by {
                        lemma_push_contains(old_ext, e@);
                        assert(any_pattern(kept_patterns(before, false).push(p@), name) == (any_pattern(kept_patterns(before, false), name) || pattern_matches(p@, name)));
                        assert(three_way(old_ext, old_exact, Seq::empty(), name) == any_pattern(kept_patterns(before, false), name));
                    }
                },
                Ok(PatternType::ExactName(x)) => {
                    exact_names.push(x);
                    assert(views(exact_names@) == old_exact.push(x@));
                    assert forall|name: Seq<char>| #[trigger] three_way(views(extensions@), views(exact_names@), builder_patterns(builder), name)
                        == any_pattern(kept_patterns(after, true), name) by {
                        lemma_push_contains(old_exact, x@);
                        assert(any_pattern(kept_patterns(before, true).push(p@), name) == (any_pattern(kept_patterns(before, true), name) || pattern_matches(p@, name)));
                        assert(three_way(old_ext, old_exact, old_globs, name) == any_pattern(kept_patterns(before, true), name));
                    }
                    assert forall|name: Seq<char>| #[trigger] three_way(views(extensions@), views(exact_names@), Seq::empty(), name)
                        == any_pattern(kept_patterns(after, false), name) by {
                        lemma_push_contains(old_exact, x@);
                        assert(any_pattern(kept_patterns(before, false).push(p@), name) == (any_pattern(kept_patterns(before, false), name) || pattern_matches(p@, name)));
                        assert(three_way(old_ext, old_exact, Seq::empty(), name) == any_pattern(kept_patterns(before, false), name));
                    }
                },
                Ok(PatternType::Complex(g)) => {
                    builder_add(&mut builder, g);
                    assert(glob_patterns(after) == glob_patterns(before).push(p@));
                    assert(builder_patterns(builder) == old_globs.push(p@));
                    assert forall|name: Seq<char>| #[trigger] three_way(views(extensions@), views(exact_names@), builder_patterns(builder), name)
                        == any_pattern(kept_patterns(after, true), name) by {
                        assert(builder_patterns(builder).drop_last() == old_globs);
                        assert(any_pattern(kept_patterns(before, true).push(p@), name) == (any_pattern(kept_patterns(before, true), name) || pattern_matches(p@, name)));
                        assert(three_way(old_ext, old_exact, old_globs, name) == any_pattern(kept_patterns(before, true), name));
                    }
                    assert forall|name: Seq<char>| #[trigger] three_way(views(extensions@), views(exact_names@), Seq::empty(), name)
                        == any_pattern(kept_patterns(after, false), name) by {
                        assert(three_way(old_ext, old_exact, Seq::empty(), name) == any_pattern(kept_patterns(before, false), name));
                    }
                },
                Err(_) => {
                    let ghost old_rejected = views(rejected@);
                    let bad = owned(p);
                    rejected.push(bad);
                    assert(views(rejected@) =~= old_rejected.push(p@));
                    assert forall|name: Seq<char>| #[trigger] three_way(views(extensions@), views(exact_names@), builder_patterns(builder), name)
                        == any_pattern(kept_patterns(after, true), name) by {
                        assert(three_way(old_ext, old_exact, old_globs, name) == any_pattern(kept_patterns(before, true), name));
                    }
                    assert forall|name: Seq<char>| #[trigger] three_way(views(extensions@), views(exact_names@), Seq::empty(), name)
                        == any_pattern(kept_patterns(after, false), name) by {
                        assert(three_way(old_ext, old_exact, Seq::empty(), name) == any_pattern(kept_patterns(before, false), name));
                    }
                },
            }
            i = i + 1;
        }
        assert(ps.subrange(0, patterns@.len() as int) == ps);
        match builder_build(&builder) {
            Ok(complex_globs) => {
                let r = IgnoreGlobs { extensions, exact_names, complex_globs };
                assert forall|name: Seq<char>| #[trigger] r.verdict(name) == any_pattern(kept_patterns(ps, true), name) by {
                    assert(three_way(views(r.extensions@), views(r.exact_names@), builder_patterns(builder), name)
                        == any_pattern(kept_patterns(ps, true), name));
                }
                (Ok(r), rejected)
            },
            Err(_) => {
                if !fallback {
                    return (Err(IgnoreGlobError::BuildFailed), rejected);
                }
                let r = IgnoreGlobs { extensions, exact_names, complex_globs: empty_set() };
                assert forall|name: Seq<char>| #[trigger] r.verdict(name) == any_pattern(kept_patterns(ps, false), name) by {
                    assert(three_way(views(r.extensions@), views(r.exact_names@), Seq::empty(), name)
                        == any_pattern(kept_patterns(ps, false), name));
                }
                (Ok(r), rejected)
            },
        }
    }

    /// Whether `name` is to be ignored: the extension check first, the exact
    /// name check next, the glob set last.
    pub fn is_match(&self, name: &str) -> (r: bool)
        ensures
            r == self.verdict(name@),
    {
        if let Some(ext) = extension(name) {
            let lower = lowercase(ext.as_str());
            if holds(&self.extensions, lower.as_str()) {
                return true;
            }
        }
        if holds(&self.exact_names, name) {
            return true;
        }
        set_matches(&self.complex_globs, name)
    }

    /// The built-in patterns: version-control and build directories, caches,
    /// lock files, archives, media and data files.
    pub fn default_patterns() -> (r: Vec<&'static str>)
        ensures
            str_views(r@) == builtin_patterns(),
    {
        let v = vec![
            ".git",
            ".svn",
            ".hg",
            ".bzr",
            "node_modules",
            "target",
            "dist",
            "build",
            "vendor",
            "out",
            ".next",
            ".nuxt",
            ".output",
            "_build",
            "site",
            "__pycache__",
            "*.pyc",
            "*.pyo",
            ".pytest_cache",
            ".mypy_cache",
            ".ruff_cache",
            ".tox",
            ".hypothesis",
            "venv",
            ".venv",
            "env",
            ".env",
            "*.egg-info",
            ".idea",
            ".vscode",
            "*.swp",
            "*.swo",
            "*~",
            ".DS_Store",
            "Thumbs.db",
            ".yarn",
            ".pnp.*",
            ".npm",
            "coverage",
            ".coverage",
            "*.cover",
            ".nyc_output",
            "*.lcov",
            "*.o",
            "*.so",
            "*.dll",
            "*.exe",
            "*.bin",
            "*.class",
            "*.log",
            "*.sqlite",
            "*.db",
            "*.lock",
            "package-lock.json",
            "yarn.lock",
            "Cargo.lock",
            "poetry.lock",
            "Pipfile.lock",
            "*.zip",
            "*.tar",
            "*.tar.gz",
            "*.tar.bz2",
            "*.tar.xz",
            "*.rar",
            "*.7z",
            "*.gz",
            "*.bz2",
            "*.xz",
            "*.iso",
            "*.dmg",
            "*.pkg",
            "*.deb",
            "*.rpm",
            "*.msi",
            "*.exe",
            "*.app",
            "*.jpg",
            "*.jpeg",
            "*.png",
            "*.gif",
            "*.bmp",
            "*.ico",
            "*.svg",
            "*.webp",
            "*.tiff",
            "*.tif",
            "*.psd",
            "*.ai",
            "*.eps",
            "*.mp4",
            "*.mov",
            "*.avi",
            "*.mkv",
            "*.webm",
            "*.flv",
            "*.wmv",
            "*.mpg",
            "*.mpeg",
            "*.m4v",
            "*.3gp",
            "*.mp3",
            "*.wav",
            "*.ogg",
            "*.flac",
            "*.aac",
            "*.wma",
            "*.m4a",
            "*.opus",
            "*.pdf",
            "*.docx",
            "*.doc",
            "*.xlsx",
            "*.xls",
            "*.pptx",
            "*.ppt",
            "*.odt",
            "*.ods",
            "*.odp",
            "*.pkl",
            "*.npy",
            "*.npz",
            "*.parquet",
            "*.hdf5",
            "*.h5",
            "*.mat",
            "*.feather",
            "*.msgpack",
            ".cache",
            ".parcel-cache",
            ".turbo",
            ".vercel",
            ".netlify",
            ".serverless",
            ".terraform",
            "*.min.js",
            "*.min.css",
            "*.map",
            ".sass-cache",
            ".gradle",
            ".m2",
            ".stack-work",
            ".cabal-sandbox",
            "bower_components",
            "jspm_packages",
            ".pnp",
            "*.pid",
            "*.seed",
            "*.pid.lock",
        ];
        assert(str_views(v@) =~= builtin_patterns());
        v
    }
}

impl IgnoreGlobs {
    /// The matcher for patterns given on the command line, if any were.
    pub fn from_cli(cli_globs: &Vec<String>) -> (r: Option<Result<(IgnoreGlobs, Vec<String>), IgnoreGlobError>>)
        ensures
            cli_globs@.len() == 0 <==> r is None,
            r matches Some(b) ==> built_from(b, views(cli_globs@)),
    {
        if cli_globs.len() == 0 {
            return None;
        }
        Some(Self::from_strings(cli_globs))
    }

    /// The matcher for patterns of a configuration file, if it sets any.
    pub fn from_config(config: &Config) -> (r: Option<Result<(IgnoreGlobs, Vec<String>), IgnoreGlobError>>)
        ensures
            config.ignore_globs is None <==> r is None,
            r matches Some(b) ==> built_from(b, views(config.ignore_globs->Some_0@)),
    {
        match &config.ignore_globs {
            Some(globs) => Some(Self::from_strings(globs)),
            None => None,
        }
    }

    /// The matcher from the command line if patterns were given there, else
    /// from the configuration file if it sets any, else the built-in one.
    pub fn configure_from(cli_globs: &Vec<String>, config: &Config) -> (r: Result<(IgnoreGlobs, Vec<String>), IgnoreGlobError>)
        ensures
            cli_globs@.len() > 0 ==> built_from(r, views(cli_globs@)),
            cli_globs@.len() == 0 && config.ignore_globs is Some ==> built_from(r, views(config.ignore_globs->Some_0@)),
            cli_globs@.len() == 0 && config.ignore_globs is None ==> (r matches Ok((g, rejected)) && rejected@.len() == 0
                && builtin_matcher(g)),
    {
        if let Some(value) = Self::from_cli(cli_globs) {
            return value;
        }
        if let Some(value) = Self::from_config(config) {
            return value;
        }
        Ok((IgnoreGlobs::default(), Vec::new()))
    }

    /// `from_patterns` on owned strings.
    fn from_strings(globs: &Vec<String>) -> (r: Result<(IgnoreGlobs, Vec<String>), IgnoreGlobError>)
        ensures
            built_from(r, views(globs@)),
    {
        let mut patterns: Vec<&str> = Vec::new();
        let mut i: usize = 0;
        while i < globs.len()
            invariant
                i <= globs@.len(),
                str_views(patterns@) == views(globs@).subrange(0, i as int),
            decreases globs@.len() - i,
        {
            let ghost before = str_views(patterns@);
            patterns.push(globs[i].as_str());
            assert(str_views(patterns@) =~= before.push(globs@[i as int]@));
            assert(views(globs@).subrange(0, i + 1) =~= views(globs@).subrange(0, i as int).push(globs@[i as int]@));
            i = i + 1;
        }
        assert(views(globs@).subrange(0, globs@.len() as int) == views(globs@));
        Self::from_patterns(&patterns)
    }
}

/// The built-in matcher: every built-in pattern that is valid kept; when its
/// globs cannot be compiled together, only the extension and exact-name
/// patterns.
pub open spec fn builtin_matcher(g: IgnoreGlobs) -> bool {
    &&& set_builds(glob_patterns(builtin_patterns())) ==> forall|name: Seq<char>| #[trigger] g.verdict(name)
        == any_pattern(kept_patterns(builtin_patterns(), true), name)
    &&& !set_builds(glob_patterns(builtin_patterns())) ==> forall|name: Seq<char>| #[trigger] g.verdict(name)
        == any_pattern(kept_patterns(builtin_patterns(), false), name)
}

/// Whether an entry survives the per-entry filter: in visible-only mode an
/// ignored or dot-prefixed name is dropped; a tree of directories only drops
/// everything but directories.
pub open spec fn admitted(display: Display, layout: Layout, g: IgnoreGlobs, name: Seq<char>, is_dir: bool) -> bool {
    &&& (display == Display::VisibleOnly ==> !g.verdict(name) && !(name.len() > 0 && name[0] == '.'))
    &&& (layout == Layout::Tree && display == Display::DirectoryOnly ==> is_dir)
}

/// Whether an entry survives the per-entry filter (see `admitted`).
pub fn process_entry(display: Display, layout: Layout, globs: &IgnoreGlobs, name: &str, is_dir: bool) -> (r: bool)
    ensures
        r == admitted(display, layout, *globs, name@, is_dir),
{
    if display == Display::VisibleOnly {
        if globs.is_match(name) {
            return false;
        }
        if name.unicode_len() > 0 && name.get_char(0) == '.' {
            return false;
        }
    }
    if layout == Layout::Tree && display == Display::DirectoryOnly && !is_dir {
        return false;
    }
    true
}

impl Default for IgnoreGlobs {
    /// The matcher for the built-in patterns (see `builtin_matcher`).
    fn default() -> (r: IgnoreGlobs)
        ensures
            builtin_matcher(r),
    {
        let patterns = IgnoreGlobs::default_patterns();
        let (built, _) = IgnoreGlobs::build(&patterns, true);
        match built {
            Ok(g) => g,
            Err(_) => IgnoreGlobs { extensions: Vec::new(), exact_names: Vec::new(), complex_globs: empty_set() },
        }
    }
}

/// A name is ignored under a list of patterns exactly when one of the
/// patterns, taken alone, matches it: sorting the patterns into the extension
/// check, the exact-name check and the glob set does not change any verdict,
/// nor does the order of the patterns.
pub proof fn lemma_verdict_is_any_single_pattern(ps: Seq<Seq<char>>, name: Seq<char>)
    ensures
        any_pattern(ps, name) <==> exists|i: int| 0 <= i < ps.len() && #[trigger] pattern_matches(ps[i], name),
    decreases ps.len(),
{
    if ps.len() > 0 {
        lemma_verdict_is_any_single_pattern(ps.drop_last(), name);
        if any_pattern(ps.drop_last(), name) {
            let i = choose|i: int| 0 <= i < ps.drop_last().len() && #[trigger] pattern_matches(ps.drop_last()[i], name);
            assert(ps[i] == ps.drop_last()[i]);
        }
        if exists|i: int| 0 <= i < ps.len() && #[trigger] pattern_matches(ps[i], name) {
            let i = choose|i: int| 0 <= i < ps.len() && #[trigger] pattern_matches(ps[i], name);
            if i < ps.len() - 1 {
                assert(ps.drop_last()[i] == ps[i]);
            }
        }
    }
}

proof fn lemma_any_pattern_push(s: Seq<Seq<char>>, p: Seq<char>)
    ensures
        forall|name: Seq<char>| #[trigger] any_pattern(s.push(p), name) == (any_pattern(s, name) || pattern_matches(p, name)),
{
    assert(s.push(p).drop_last() == s);
}

proof fn lemma_push_contains(s: Seq<Seq<char>>, x: Seq<char>)
    ensures
        forall|y: Seq<char>| #[trigger] s.push(x).contains(y) == (s.contains(y) || y == x),
{
    assert forall|y: Seq<char>| #[trigger] s.push(x).contains(y) == (s.contains(y) || y == x) by {
        if s.contains(y) {
            let j = choose|j: int| 0 <= j < s.len() && s[j] == y;
            assert(s.push(x)[j] == y);
        }
        if y == x {
            assert(s.push(x)[s.len() as int] == y);
        }
        if s.push(x).contains(y) {
            let j = choose|j: int| 0 <= j < s.push(x).len() && s.push(x)[j] == y;
            if j < s.len() {
                assert(s[j] == y);
            }
        }
    }
}

} // verus!
