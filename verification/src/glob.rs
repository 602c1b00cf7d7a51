//! Glob patterns compiled with the `globset` crate. A glob set is held as an
//! outside collection: its contents are the (pattern, literal-separator)
//! pairs it was built from, and every wrapper below says what it does to them.
use vstd::prelude::*;

verus! {

#[verifier::external_type_specification]
#[verifier::external_body]
pub struct ExGlobSet(globset::GlobSet);

#[verifier::external_type_specification]
#[verifier::external_body]
pub struct ExGlobSetBuilder(globset::GlobSetBuilder);

#[verifier::external_type_specification]
#[verifier::external_body]
pub struct ExGlobError(globset::Error);

/// The globs a set was built from, each a pattern and its `literal_separator` option.
pub uninterp spec fn glob_set_globs(s: globset::GlobSet) -> Seq<(Seq<char>, bool)>;

/// The globs added to a builder so far.
pub uninterp spec fn glob_builder_globs(b: globset::GlobSetBuilder) -> Seq<(Seq<char>, bool)>;

/// `GlobBuilder::build` accepts `pattern` under the given `literal_separator` option.
/// Like `glob_matches`, this is fixed for one build of the crate: globset
/// takes its default for backslash escapes from the target's path
/// separator.
pub uninterp spec fn glob_compiles(pattern: Seq<char>, literal_separator: bool) -> bool;

/// `GlobSetBuilder::build` succeeds on these globs.
pub uninterp spec fn glob_set_builds(globs: Seq<(Seq<char>, bool)>) -> bool;

/// The compiled glob (pattern, option) matches `path` (with globset's
/// backslash-escape default of the build target).
pub uninterp spec fn glob_matches(pattern: Seq<char>, literal_separator: bool, path: Seq<char>) -> bool;

/// `GlobSetBuilder::new`: a builder with no glob.
#[verifier::external_body]
pub(crate) fn glob_builder_new() -> (b: globset::GlobSetBuilder)
    ensures
        glob_builder_globs(b) == Seq::<(Seq<char>, bool)>::empty(),
{
    globset::GlobSetBuilder::new()
}

/// `GlobBuilder::new(pattern).literal_separator(ls).build()` followed by
/// `GlobSetBuilder::add`: on success the builder holds one more glob; when
/// the pattern is refused the builder is left as it was.
#[verifier::external_body]
pub(crate) fn glob_builder_add(b: &mut globset::GlobSetBuilder, pattern: &str, literal_separator: bool) -> (r: Result<(), globset::Error>)
    ensures
        r is Ok <==> glob_compiles(pattern@, literal_separator),
        r is Ok ==> glob_builder_globs(*final(b)) == glob_builder_globs(*old(b)).push((pattern@, literal_separator)),
        r is Err ==> glob_builder_globs(*final(b)) == glob_builder_globs(*old(b)),
{
    let g = globset::GlobBuilder::new(pattern).literal_separator(literal_separator).build()?;
    b.add(g);
    Ok(())
}

/// `GlobSetBuilder::build`: the set holds the builder's globs. The source
/// returns an empty set, never an error, when no glob was added.
#[verifier::external_body]
pub(crate) fn glob_builder_build(b: &globset::GlobSetBuilder) -> (r: Result<globset::GlobSet, globset::Error>)
    ensures
        r is Ok <==> glob_set_builds(glob_builder_globs(*b)),
        glob_builder_globs(*b).len() == 0 ==> r is Ok,
        r matches Ok(s) ==> glob_set_globs(s) == glob_builder_globs(*b),
{
    b.build()
}

/// The message of a `globset` error, as its `Display` writes it.
#[verifier::external_body]
pub(crate) fn glob_error_text(e: &globset::Error) -> (r: String) {
    e.to_string()
}

/// `GlobSet::is_match`: true if any glob of the set matches `path`.
#[verifier::external_body]
pub(crate) fn glob_set_is_match(s: &globset::GlobSet, path: &str) -> (r: bool)
    ensures
        r == (exists|i: int|
            0 <= i < glob_set_globs(*s).len() && glob_matches(
                #[trigger] glob_set_globs(*s)[i].0,
                glob_set_globs(*s)[i].1,
                path@,
            )),
{
    s.is_match(path)
}

} // verus!
