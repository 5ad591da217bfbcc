//! Glob patterns of files to leave out of the output.

use vstd::prelude::*;

use crate::paths::views;
use crate::rewrite::RewriteError;

verus! {

#[verifier::external_type_specification]
#[verifier::external_body]
pub struct ExGlobSetBuilder(globset::GlobSetBuilder);

#[verifier::external_type_specification]
#[verifier::external_body]
pub struct ExGlobSet(globset::GlobSet);

#[verifier::external_type_specification]
#[verifier::external_body]
pub struct ExGlobError(globset::Error);

/// The patterns added to a glob set builder, in order.
pub uninterp spec fn glob_builder_patterns(b: globset::GlobSetBuilder) -> Seq<Seq<char>>;

/// The patterns that a glob set was built from, in order.
pub uninterp spec fn glob_set_patterns(s: globset::GlobSet) -> Seq<Seq<char>>;

/// Whether `pattern` compiles as a glob with globset's default options.
pub uninterp spec fn glob_compiles(pattern: Seq<char>) -> bool;

/// Whether globset builds a set from these patterns, each of which compiles.
pub uninterp spec fn set_builds(patterns: Seq<Seq<char>>) -> bool;

/// Whether the glob `pattern`, with globset's default options, matches `path`.
pub uninterp spec fn glob_matches(pattern: Seq<char>, path: Seq<char>) -> bool;

/// Relies on `globset::GlobSetBuilder::new`: a builder with no patterns.
#[verifier::external_body]
fn new_builder() -> (r: globset::GlobSetBuilder)
    ensures
        glob_builder_patterns(r) == Seq::<Seq<char>>::empty(),
{
    globset::GlobSetBuilder::new()
}

/// Relies on `globset::GlobSetBuilder::add`, given the pattern compiled by
/// `globset::Glob::new`: the pattern is appended; where it does not compile,
/// the builder is left as it was.
#[verifier::external_body]
fn add_pattern(b: &mut globset::GlobSetBuilder, pattern: &str) -> (r: Result<(), globset::Error>)
    ensures
        r is Ok <==> glob_compiles(pattern@),
        r is Ok ==> glob_builder_patterns(*final(b)) == glob_builder_patterns(*old(b)).push(pattern@),
        r is Err ==> glob_builder_patterns(*final(b)) == glob_builder_patterns(*old(b)),
{
    let glob = globset::Glob::new(pattern)?;
    b.add(glob);
    Ok(())
}

/// Relies on `globset::GlobSetBuilder::build`: a set of the builder's
/// patterns, whose success depends on the patterns alone, and which always
/// succeeds for no patterns.
#[verifier::external_body]
fn build_set(b: &globset::GlobSetBuilder) -> (r: Result<globset::GlobSet, globset::Error>)
    ensures
        r is Ok <==> set_builds(glob_builder_patterns(*b)),
        glob_builder_patterns(*b).len() == 0 ==> r is Ok,
        r matches Ok(s) ==> glob_set_patterns(s) == glob_builder_patterns(*b),
{
    b.build()
}

/// Relies on `globset::GlobSet::is_match`: true when any glob of the set
/// matches the path.
#[verifier::external_body]
fn set_matches(s: &globset::GlobSet, path: &str) -> (r: bool)
    ensures
        r == (exists|i: int| 0 <= i < glob_set_patterns(*s).len() && glob_matches(glob_set_patterns(*s)[i], path@)),
{
    s.is_match(path)
}

/// Whether any of `patterns` matches `path`.
pub open spec fn any_glob_matches(patterns: Seq<Seq<char>>, path: Seq<char>) -> bool {
    exists|i: int| 0 <= i < patterns.len() && glob_matches(patterns[i], path)
}

/// A compiled list of glob patterns.
pub struct IgnoreGlobs {
    set: globset::GlobSet,
}

impl IgnoreGlobs {
    /// The patterns, in order.
    pub closed spec fn patterns(&self) -> Seq<Seq<char>> {
        glob_set_patterns(self.set)
    }

    /// Compiles `patterns`; an error where one of them is not a valid glob.
    pub fn new(patterns: &Vec<String>) -> (r: Result<IgnoreGlobs, RewriteError>)
        ensures
            r is Ok <==> (forall|i: int| 0 <= i < patterns@.len() ==> glob_compiles(#[trigger] patterns@[i]@))
                && set_builds(views(patterns@)),
            patterns@.len() == 0 ==> r is Ok,
            r matches Ok(g) ==> g.patterns() == views(patterns@),
            r matches Err(e) ==> e == RewriteError::InvalidGlob,
    {
        let mut builder = new_builder();
        let mut i: usize = 0;
        while i < patterns.len()
            invariant
                i <= patterns@.len(),
                glob_builder_patterns(builder) == views(patterns@).take(i as int),
                forall|j: int| 0 <= j < i ==> glob_compiles(#[trigger] patterns@[j]@),
            decreases patterns@.len() - i,
        {
            if add_pattern(&mut builder, patterns[i].as_str()).is_err() {
                proof {
                    assert(!glob_compiles(patterns@[i as int]@));
                }
                return Err(RewriteError::InvalidGlob);
            }
            i = i + 1;
            proof {
                assert(views(patterns@).take(i as int) =~= views(patterns@).take(i - 1).push(patterns@[i - 1]@));
            }
        }
        proof {
            assert(views(patterns@).take(i as int) =~= views(patterns@));
        }
        match build_set(&builder) {
            Ok(set) => Ok(IgnoreGlobs { set }),
            Err(_) => Err(RewriteError::InvalidGlob),
        }
    }

    /// Whether any pattern matches `path`.
    pub fn is_match(&self, path: &str) -> (r: bool)
        ensures
            r == any_glob_matches(self.patterns(), path@),
    {
        set_matches(&self.set, path)
    }
}

} // verus!
