//! Exclusion of files from a file backup by `.gitignore`-style glob
//! patterns, matched with globset.

use vstd::prelude::*;
use globset::{Glob, GlobSet, GlobSetBuilder};
use crate::text::{
    append, chars_of, drop_back, drop_front, find, find_char, lacks, lemma_drop_back_lacks,
    lemma_drop_front_lacks, slice, split_words, string_of, trim_back, trim_front, words, CharClass,
};

verus! {

#[verifier::external_type_specification]
#[verifier::external_body]
pub struct ExGlob(Glob);

#[verifier::external_type_specification]
#[verifier::external_body]
pub struct ExGlobSet(GlobSet);

#[verifier::external_type_specification]
#[verifier::external_body]
pub struct ExGlobSetBuilder(GlobSetBuilder);

#[verifier::external_type_specification]
#[verifier::external_body]
pub struct ExGlobError(globset::Error);

/// The pattern a glob was built from.
pub uninterp spec fn glob_pattern(g: Glob) -> Seq<char>;

/// The patterns a builder holds, in the order they were added.
pub uninterp spec fn builder_patterns(b: GlobSetBuilder) -> Seq<Seq<char>>;

/// The patterns a set was built from.
pub uninterp spec fn set_patterns(s: GlobSet) -> Seq<Seq<char>>;

/// Whether globset accepts `pattern` (with default options), for a pattern
/// without `\`.
pub uninterp spec fn glob_accepts(pattern: Seq<char>) -> bool;

/// Whether the glob `pattern` (default options) matches `path`, for a
/// pattern and a path without `\`.
pub uninterp spec fn glob_matches(pattern: Seq<char>, path: Seq<char>) -> bool;

/// Whether no text of a list holds a `\`.
pub open spec fn all_lack_backslash(ps: Seq<Seq<char>>) -> bool {
    forall|i: int| 0 <= i < ps.len() ==> lacks(#[trigger] ps[i], '\\')
}

/// Calls `globset::Glob::new`. Claimed of it: on a pattern without `\` it
/// succeeds exactly on the patterns that globset accepts, and a glob it gives
/// was built from the pattern passed (`Glob::glob` returns it). Whether a `\`
/// escapes the next character or separates path components depends on the
/// platform, so for a pattern that holds one nothing is said of success.
#[verifier::external_body]
fn glob_new(pattern: &str) -> (r: Result<Glob, globset::Error>)
    ensures
        lacks(pattern@, '\\') ==> (r is Ok) == glob_accepts(pattern@),
        r matches Ok(g) ==> glob_pattern(g) == pattern@,
{
    Glob::new(pattern)
}

/// Calls `globset::GlobSetBuilder::new`. Claimed: it holds no pattern.
#[verifier::external_body]
fn builder_new() -> (b: GlobSetBuilder)
    ensures
        builder_patterns(b) == Seq::<Seq<char>>::empty(),
{
    GlobSetBuilder::new()
}

/// Calls `globset::GlobSetBuilder::add`. Claimed: the glob is appended to
/// the builder's patterns.
#[verifier::external_body]
fn builder_add(b: &mut GlobSetBuilder, g: Glob)
    ensures
        builder_patterns(*final(b)) == builder_patterns(*old(b)).push(glob_pattern(g)),
{
    b.add(g);
}

/// Whether globset can build a set of these patterns (it fails only when
/// their combined regular expressions cannot be compiled).
pub uninterp spec fn set_builds(patterns: Seq<Seq<char>>) -> bool;

/// Calls `globset::GlobSetBuilder::build`. Claimed: when no pattern of the
/// builder holds a `\`, it succeeds exactly when the named condition holds of
/// the builder's patterns; it always succeeds for an empty builder, and a set
/// it gives holds the builder's patterns. The regular expressions built from a
/// pattern with `\` differ between platforms, so nothing more is said of
/// those.
#[verifier::external_body]
fn builder_build(b: &GlobSetBuilder) -> (r: Result<GlobSet, globset::Error>)
    ensures
        all_lack_backslash(builder_patterns(*b)) ==> (r is Ok) == set_builds(builder_patterns(*b)),
        builder_patterns(*b).len() == 0 ==> r is Ok,
        r matches Ok(s) ==> set_patterns(s) == builder_patterns(*b),
{
    b.build()
}

/// Calls `globset::GlobSet::is_match`. Claimed, as its documentation says:
/// true exactly when some glob of the set matches the path, where neither the
/// path nor any glob holds a `\`. On Windows globset turns each `\` of the
/// path into `/` before matching, and a `\` of a glob is read by the
/// platform's rule, so for such inputs nothing is said.
#[verifier::external_body]
fn set_is_match(s: &GlobSet, path: &str) -> (r: bool)
    ensures
        lacks(path@, '\\') && all_lack_backslash(set_patterns(*s)) ==> r == (exists|i: int|
            0 <= i < set_patterns(*s).len() && #[trigger] glob_matches(set_patterns(*s)[i], path@)),
{
    s.is_match(path)
}

/// Calls `Display::fmt` of `globset::Error` (through `to_string`): globset's
/// own description of the error. Nothing is claimed of the text.
#[verifier::external_body]
fn glob_error_text(e: &globset::Error) -> String {
    e.to_string()
}

/// Why exclusion patterns could not be compiled.
#[derive(Debug)]
pub enum ExcludeError {
    /// globset refused a glob of this pattern, for the reason given.
    Pattern(String, String),
    /// globset could not build the set, for the reason given.
    Build(String),
}

/// A compiled set of exclusion patterns.
pub struct ExcludeSet {
    set: GlobSet,
}

impl ExcludeSet {
    /// The patterns of the set.
    pub closed spec fn patterns(&self) -> Seq<Seq<char>> {
        set_patterns(self.set)
    }

    /// Whether no pattern of the set holds a `\`.
    pub open spec fn portable(&self) -> bool {
        all_lack_backslash(self.patterns())
    }

    /// Whether a path (relative, with `/` separators) is excluded: some
    /// pattern matches it (stated for a path and patterns without `\`).
    pub fn is_excluded(&self, path: &str) -> (r: bool)
        ensures
            lacks(path@, '\\') && self.portable() ==> r == exists|i: int|
                0 <= i < self.patterns().len() && #[trigger] glob_matches(self.patterns()[i], path@),
    {
        set_is_match(&self.set, path)
    }
}

pub open spec fn opt_chars(o: Option<&str>) -> Option<Seq<char>> {
    match o {
        Some(p) => Some(p@),
        None => None,
    }
}

/// The white-space separated patterns of an `exclude` setting.
pub open spec fn exclude_patterns(patterns: Option<Seq<char>>) -> Seq<Seq<char>> {
    match patterns {
        Some(p) => words(p),
        None => Seq::empty(),
    }
}

/// The globs of one `.gitignore`-style pattern. A trailing `/` limits it to
/// directories; a `/` at the start or in the middle anchors it at the top,
/// otherwise it matches at any depth (`**/` before it); it matches what it
/// names and, for a directory, everything below (`/**` after it).
pub open spec fn gitignore_globs(p: Seq<char>) -> Seq<Seq<char>> {
    let dir_only = p.len() > 0 && p.last() == '/';
    let core0 = drop_back(p, CharClass::Exactly('/'));
    let anchored = find(core0, '/') < core0.len();
    let core = drop_front(core0, CharClass::Exactly('/'));
    let base = if anchored {
        core
    } else {
        "**/"@ + core
    };
    if dir_only {
        seq![base + "/**"@]
    } else {
        seq![base, base + "/**"@]
    }
}

/// Whether globset accepts every glob of a pattern.
pub open spec fn pattern_accepted(p: Seq<char>) -> bool {
    forall|k: int| 0 <= k < gitignore_globs(p).len() ==> glob_accepts(#[trigger] gitignore_globs(p)[k])
}

/// The globs of all patterns, in order.
pub open spec fn expand_globs(ps: Seq<Seq<char>>) -> Seq<Seq<char>>
    decreases ps.len(),
{
    if ps.len() == 0 {
        Seq::empty()
    } else {
        expand_globs(ps.drop_last()) + gitignore_globs(ps.last())
    }
}

/// The globs of a `.gitignore`-style pattern.
pub fn pattern_globs(p: &Vec<char>) -> (r: Vec<Vec<char>>)
    ensures
        r@.len() == gitignore_globs(p@).len(),
        forall|k: int| 0 <= k < r@.len() ==> #[trigger] r@[k]@ == gitignore_globs(p@)[k],
{
    let dir_only = p.len() > 0 && p[p.len() - 1] == '/';
    let core0 = trim_back(p, CharClass::Exactly('/'));
    let anchored = find_char(&core0, '/') < core0.len();
    let core = trim_front(&core0, CharClass::Exactly('/'));
    let base = if anchored {
        core
    } else {
        let mut b = chars_of("**/");
        append(&mut b, &core);
        b
    };
    let mut below = slice(&base, 0, base.len());
    append(&mut below, &chars_of("/**"));
    let mut r: Vec<Vec<char>> = Vec::new();
    if !dir_only {
        r.push(base);
    }
    r.push(below);
    r
}

proof fn lemma_expand_step(ps: Seq<Seq<char>>, i: int)
    requires
        0 <= i < ps.len(),
    ensures
        expand_globs(ps.take(i + 1)) == expand_globs(ps.take(i)) + gitignore_globs(ps[i]),
{
    assert(ps.take(i + 1).drop_last() =~= ps.take(i));
}

/// Adds the globs of one pattern; fails with globset's reason when it
/// refuses one of them.
fn add_globs(builder: &mut GlobSetBuilder, globs: &Vec<Vec<char>>) -> (r: Result<(), String>)
    ensures
        all_lack_backslash(globs@.map_values(|g: Vec<char>| g@)) ==> ((r is Ok) == forall|k: int|
            0 <= k < globs@.len() ==> glob_accepts(#[trigger] globs@[k]@)),
        r is Ok ==> builder_patterns(*final(builder)) == builder_patterns(*old(builder)) + globs@.map_values(
            |g: Vec<char>| g@,
        ),
{
    let ghost gs = globs@.map_values(|g: Vec<char>| g@);
    let mut k: usize = 0;
    assert(gs.take(0) =~= Seq::<Seq<char>>::empty());
    assert(builder_patterns(*builder) =~= builder_patterns(*old(builder)) + gs.take(0));
    while k < globs.len()
        invariant
            k <= globs@.len() == gs.len(),
            gs == globs@.map_values(|g: Vec<char>| g@),
            all_lack_backslash(gs) ==> forall|j: int| 0 <= j < k ==> glob_accepts(#[trigger] globs@[j]@),
            builder_patterns(*builder) == builder_patterns(*old(builder)) + gs.take(k as int),
        decreases globs.len() - k,
    {
        let text = string_of(&globs[k]);
        proof {
            if all_lack_backslash(gs) {
                assert(lacks(gs[k as int], '\\'));
            }
        }
        match glob_new(text.as_str()) {
            Ok(g) => {
                builder_add(builder, g);
                assert(gs.take(k + 1) =~= gs.take(k as int).push(gs[k as int]));
                assert(builder_patterns(*builder) =~= builder_patterns(*old(builder)) + gs.take(k + 1));
            },
            Err(e) => {
                return Err(glob_error_text(&e));
            },
        }
        k = k + 1;
    }
    assert(gs.take(globs.len() as int) =~= gs);
    Ok(())
}

/// The globs of a pattern without `\` hold none either.
proof fn lemma_globs_lack(p: Seq<char>)
    requires
        lacks(p, '\\'),
    ensures
        all_lack_backslash(gitignore_globs(p)),
{
    let core0 = drop_back(p, CharClass::Exactly('/'));
    lemma_drop_back_lacks(p, CharClass::Exactly('/'), '\\');
    lemma_drop_front_lacks(core0, CharClass::Exactly('/'), '\\');
    reveal_strlit("**/");
    reveal_strlit("/**");
    let core = drop_front(core0, CharClass::Exactly('/'));
    assert(lacks("**/"@ + core, '\\')) by {
        assert forall|i: int| 0 <= i < ("**/"@ + core).len() implies ("**/"@ + core)[i] != '\\' by {
            if i >= 3 {
                assert(("**/"@ + core)[i] == core[i - 3]);
            }
        }
    }
    assert forall|b: Seq<char>| lacks(b, '\\') implies lacks(b + "/**"@, '\\') by {
        assert forall|i: int| 0 <= i < (b + "/**"@).len() implies (b + "/**"@)[i] != '\\' by {
            if i < b.len() {
                assert((b + "/**"@)[i] == b[i]);
            }
        }
    }
}

/// The globs of patterns without `\` hold none either.
proof fn lemma_expand_lack(ps: Seq<Seq<char>>)
    requires
        all_lack_backslash(ps),
    ensures
        all_lack_backslash(expand_globs(ps)),
    decreases ps.len(),
{
    if ps.len() > 0 {
        let init = ps.drop_last();
        assert(all_lack_backslash(init)) by {
            assert forall|i: int| 0 <= i < init.len() implies lacks(#[trigger] init[i], '\\') by {
                assert(init[i] == ps[i]);
            }
        }
        lemma_expand_lack(init);
        assert(lacks(ps[ps.len() - 1], '\\'));
        lemma_globs_lack(ps.last());
        let a = expand_globs(init);
        let b = gitignore_globs(ps.last());
        assert forall|i: int| 0 <= i < (a + b).len() implies lacks(#[trigger] (a + b)[i], '\\') by {
            if i < a.len() {
                assert((a + b)[i] == a[i]);
            } else {
                assert((a + b)[i] == b[i - a.len()]);
            }
        }
    }
}

/// Compiles the white-space separated `.gitignore`-style patterns of an
/// `exclude` setting (see `gitignore_globs`). Fails with the first pattern
/// whose globs globset refuses, or when globset cannot build the set;
/// succeeds otherwise, and always without patterns. Which patterns globset
/// refuses is stated for patterns without `\`, the only ones that every
/// platform reads alike.
pub fn build_exclude_set(patterns: Option<&str>) -> (r: Result<ExcludeSet, ExcludeError>)
    ensures
        ({
            let ps = exclude_patterns(opt_chars(patterns));
            &&& all_lack_backslash(ps) ==> ((r is Ok) <==> (forall|i: int|
                0 <= i < ps.len() ==> pattern_accepted(#[trigger] ps[i])) && set_builds(expand_globs(ps)))
            &&& r matches Ok(s) ==> s.patterns() == expand_globs(ps)
            &&& all_lack_backslash(ps) ==> (r matches Ok(s) ==> s.portable())
            &&& r matches Err(ExcludeError::Pattern(p, _)) ==> exists|i: int|
                0 <= i < ps.len() && p@ == #[trigger] ps[i]
            &&& all_lack_backslash(ps) ==> (r matches Err(ExcludeError::Pattern(p, _)) ==> exists|i: int|
                0 <= i < ps.len() && !pattern_accepted(#[trigger] ps[i]) && p@ == ps[i] && forall|j: int|
                    0 <= j < i ==> pattern_accepted(#[trigger] ps[j]))
            &&& all_lack_backslash(ps) ==> ((r matches Err(ExcludeError::Build(_))) ==> (forall|i: int|
                0 <= i < ps.len() ==> pattern_accepted(#[trigger] ps[i])))
            &&& patterns is None ==> r is Ok
        }),
{
    let ghost ps = exclude_patterns(opt_chars(patterns));
    let mut builder = builder_new();
    let list: Vec<Vec<char>> = match patterns {
        Some(p) => split_words(&chars_of(p)),
        None => Vec::new(),
    };
    assert(list@.len() == ps.len());
    let mut i: usize = 0;
    assert(ps.take(0) =~= Seq::<Seq<char>>::empty());
    while i < list.len()
        invariant
            i <= list@.len() == ps.len(),
            ps == exclude_patterns(opt_chars(patterns)),
            forall|k: int| 0 <= k < list@.len() ==> #[trigger] list@[k]@ == ps[k],
            builder_patterns(builder) == expand_globs(ps.take(i as int)),
            all_lack_backslash(ps) ==> forall|j: int| 0 <= j < i ==> pattern_accepted(#[trigger] ps[j]),
        decreases list.len() - i,
    {
        let globs = pattern_globs(&list[i]);
        let ghost gv = globs@.map_values(|g: Vec<char>| g@);
        assert(gv =~= gitignore_globs(ps[i as int]));
        proof {
            lemma_expand_step(ps, i as int);
            if all_lack_backslash(ps) {
                assert(lacks(ps[i as int], '\\'));
                lemma_globs_lack(ps[i as int]);
            }
        }
        if let Err(why) = add_globs(&mut builder, &globs) {
            let text = string_of(&list[i]);
            proof {
                if all_lack_backslash(ps) {
                    assert(!pattern_accepted(ps[i as int])) by {
                        let k = choose|k: int| 0 <= k < globs@.len() && !glob_accepts(#[trigger] globs@[k]@);
                        assert(gitignore_globs(ps[i as int])[k] == globs@[k]@);
                    }
                }
            }
            return Err(ExcludeError::Pattern(text, why));
        }
        proof {
            if all_lack_backslash(ps) {
                assert forall|k: int| 0 <= k < gitignore_globs(ps[i as int]).len() implies glob_accepts(
                    #[trigger] gitignore_globs(ps[i as int])[k],
                ) by {
                    assert(gitignore_globs(ps[i as int])[k] == globs@[k]@);
                }
            }
        }
        i = i + 1;
    }
    assert(ps.take(list.len() as int) =~= ps);
    proof {
        if patterns is None {
            assert(ps.len() == 0);
            assert(expand_globs(ps).len() == 0);
        }
        if all_lack_backslash(ps) {
            lemma_expand_lack(ps);
        }
    }
    match builder_build(&builder) {
        Ok(set) => Ok(ExcludeSet { set }),
        Err(e) => Err(ExcludeError::Build(glob_error_text(&e))),
    }
}

impl ExcludeError {
    /// The error as a sentence, ending with globset's reason.
    pub fn message(&self) -> (m: String)
        ensures
            m@ == (match self {
                ExcludeError::Pattern(p, why) => "invalid exclude pattern '"@ + p@ + "': "@ + why@,
                ExcludeError::Build(why) => "cannot compile the exclude patterns: "@ + why@,
            }),
    {
        match self {
            ExcludeError::Pattern(p, why) => {
                let mut v = chars_of("invalid exclude pattern '");
                append(&mut v, &chars_of(p.as_str()));
                append(&mut v, &chars_of("': "));
                append(&mut v, &chars_of(why.as_str()));
                string_of(&v)
            },
            ExcludeError::Build(why) => {
                let mut v = chars_of("cannot compile the exclude patterns: ");
                append(&mut v, &chars_of(why.as_str()));
                string_of(&v)
            },
        }
    }
}

} // verus!
