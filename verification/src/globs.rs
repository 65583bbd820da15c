//! The patterns of files that the watcher ignores.

use vstd::prelude::*;
use vstd::string::*;

use crate::text;
use crate::text::{quote, views};

verus! {

/// `globset::GlobSetBuilder`: patterns that are being gathered.
#[verifier::external_type_specification]
#[verifier::external_body]
pub struct ExGlobSetBuilder(globset::GlobSetBuilder);

/// `globset::GlobSet`: patterns that are matched together.
#[verifier::external_type_specification]
#[verifier::external_body]
pub struct ExGlobSet(globset::GlobSet);

/// The patterns that a builder has gathered, in order.
pub uninterp spec fn gathered(b: globset::GlobSetBuilder) -> Seq<Seq<char>>;

/// The patterns of a set, in order.
pub uninterp spec fn patterns_of(s: globset::GlobSet) -> Seq<Seq<char>>;

/// Why a pattern is no glob, where it is none.
pub uninterp spec fn glob_fault(pattern: Seq<char>) -> Option<Seq<char>>;

/// Why patterns that are globs cannot be matched together, where they cannot.
pub uninterp spec fn set_fault(patterns: Seq<Seq<char>>) -> Option<Seq<char>>;

/// The message of a failure.
pub open spec fn fault_view<T>(r: Result<T, String>) -> Option<Seq<char>> {
    match r {
        Ok(_) => None,
        Err(e) => Some(e@),
    }
}

/// `globset::GlobSetBuilder::new`: no pattern is gathered yet.
#[verifier::external_body]
fn new_builder() -> (b: globset::GlobSetBuilder)
    ensures
        gathered(b) == Seq::<Seq<char>>::empty(),
{
    globset::GlobSetBuilder::new()
}

/// `globset::Glob::new` and `globset::GlobSetBuilder::add`: a pattern that is a glob
/// is gathered behind the others; for one that is none, the message says why, and
/// nothing is gathered. Whether it is one depends on the pattern alone, on systems
/// where a backslash does not part paths.
#[verifier::external_body]
fn add_pattern(b: &mut globset::GlobSetBuilder, pattern: &str) -> (r: Result<(), String>)
    ensures
        fault_view(r) == glob_fault(pattern@),
        r is Ok ==> gathered(*final(b)) == gathered(*old(b)).push(pattern@),
        r is Err ==> gathered(*final(b)) == gathered(*old(b)),
{
    let glob = globset::Glob::new(pattern).map_err(|e| e.to_string())?;
    b.add(glob);
    Ok(())
}

/// `globset::GlobSetBuilder::build`: the set of the patterns gathered, or the message
/// that says why there is none. Which it is depends on the patterns alone. Which paths
/// the set matches is not said.
#[verifier::external_body]
fn build_set(b: &globset::GlobSetBuilder) -> (r: Result<globset::GlobSet, String>)
    ensures
        fault_view(r) == set_fault(gathered(*b)),
        r is Ok ==> patterns_of(r->Ok_0) == gathered(*b),
{
    b.build().map_err(|e| e.to_string())
}

/// Why the ignored patterns could not be compiled.
#[derive(Debug, Clone)]
pub struct GlobError {
    /// What was tried.
    pub context: String,
    /// What went wrong.
    pub cause: String,
}

/// Whether every pattern before `n` is a glob.
pub open spec fn globs_before(patterns: Seq<Seq<char>>, n: int) -> bool {
    forall|i: int| 0 <= i < n ==> glob_fault(#[trigger] patterns[i]) is None
}

/// Whether `i` is the first pattern that is no glob.
pub open spec fn first_bad(patterns: Seq<Seq<char>>, i: int) -> bool {
    0 <= i < patterns.len() && globs_before(patterns, i) && glob_fault(patterns[i]) is Some
}

/// Whether `e` says that the pattern with index `i` is no glob.
pub open spec fn blames(e: GlobError, patterns: Seq<Seq<char>>, i: int) -> bool {
    e.context@ == "Invalid ignore_glob pattern: "@ + text::quoted(patterns[i]) && glob_fault(
        patterns[i],
    ) == Some(e.cause@)
}

/// Compiles the ignored patterns into one set. The first pattern that is no glob is
/// reported.
pub fn build_ignore_glob_set(patterns: &Vec<String>) -> (r: Result<globset::GlobSet, GlobError>)
    ensures
        match r {
            Ok(s) => {
                &&& globs_before(views(patterns@), patterns@.len() as int)
                &&& set_fault(views(patterns@)) is None
                &&& patterns_of(s) == views(patterns@)
            },
            Err(e) => {
                ||| exists|i: int|
                    #[trigger] first_bad(views(patterns@), i) && blames(e, views(patterns@), i)
                ||| globs_before(views(patterns@), patterns@.len() as int) && e.context@
                    == "Failed to build ignore_glob set"@ && set_fault(views(patterns@)) == Some(
                    e.cause@,
                )
            },
        },
{
    let ghost ps = views(patterns@);
    let mut b = new_builder();
    let mut i: usize = 0;
    assert(gathered(b) =~= ps.take(0));
    while i < patterns.len()
        invariant
            i <= patterns@.len(),
            ps == views(patterns@),
            globs_before(ps, i as int),
            gathered(b) == ps.take(i as int),
        decreases patterns@.len() - i,
    {
        match add_pattern(&mut b, patterns[i].as_str()) {
            Ok(_) => {
                assert(ps.take(i + 1) =~= ps.take(i as int).push(ps[i as int]));
            },
            Err(cause) => {
                let mut context = String::from_str("Invalid ignore_glob pattern: ");
                context.append(quote(patterns[i].as_str()).as_str());
                let e = GlobError { context, cause };
                assert(first_bad(ps, i as int) && blames(e, ps, i as int));
                return Err(e);
            },
        }
        i = i + 1;
    }
    assert(ps.take(i as int) =~= ps);
    match build_set(&b) {
        Ok(s) => Ok(s),
        Err(cause) => Err(
            GlobError { context: String::from_str("Failed to build ignore_glob set"), cause },
        ),
    }
}

} // verus!
