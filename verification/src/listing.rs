//! Compiling the pattern that lists the replays, with the `glob` crate.
//!
//! Compiling only checks the pattern; the directories are read later, as the caller
//! walks the listing that comes back.
use vstd::prelude::*;

verus! {

/// `glob::Paths`: a compiled listing, not yet walked.
#[verifier::external_type_specification]
#[verifier::external_body]
pub struct ExPaths(glob::Paths);

/// `glob::GlobError`: a path that could not be read while walking a listing (the item
/// type of `glob::Paths`, declared for that alone).
#[verifier::external_type_specification]
#[verifier::external_body]
pub struct ExGlobError(glob::GlobError);

/// `std::path::PathBuf`: a path that a listing yields (the item type of `glob::Paths`,
/// declared for that alone).
#[verifier::external_type_specification]
#[verifier::external_body]
pub struct ExPathBuf(std::path::PathBuf);

/// Why a pattern does not compile: where in the pattern, and glob's message.
pub struct PatternFault {
    pub pos: usize,
    pub msg: String,
}

/// A compiled listing, with the pattern it was compiled from and whether names that
/// start with a dot match only a literal dot.
pub struct Listing {
    pub paths: glob::Paths,
    pub pattern: Ghost<Seq<char>>,
    pub literal_leading_dot: Ghost<bool>,
}

/// The position and message of the error that `glob::glob_with` gives for `pattern`,
/// or `None` when the pattern compiles. It depends on the pattern alone.
pub uninterp spec fn glob_pattern_error(pattern: Seq<char>) -> Option<(usize, Seq<char>)>;

/// `glob::glob_with` with `require_literal_leading_dot` as given and the other options
/// at their defaults. The contract claims that it fails exactly when
/// `glob_pattern_error` names an error, and then with that error; on success, that the
/// listing was compiled from `pattern` with that option. It says nothing of the paths
/// that walking the listing will yield.
#[verifier::external_body]
fn glob_with_leading_dot(pattern: &str, require_literal_leading_dot: bool) -> (r: Result<
    Listing,
    PatternFault,
>)
    ensures
        match glob_pattern_error(pattern@) {
            None => r matches Ok(l) && l.pattern@ == pattern@ && l.literal_leading_dot@
                == require_literal_leading_dot,
            Some((pos, msg)) => r matches Err(f) && f.pos == pos && f.msg@ == msg,
        },
{
    let options = glob::MatchOptions { require_literal_leading_dot, ..Default::default() };
    match glob::glob_with(pattern, options) {
        Ok(paths) => Ok(Listing {
            paths,
            pattern: Ghost(pattern@),
            literal_leading_dot: Ghost(require_literal_leading_dot),
        }),
        Err(e) => Err(PatternFault { pos: e.pos, msg: e.msg.to_string() }),
    }
}

/// The listing of `pattern`, in which names that start with a dot match only a literal
/// dot unless hidden files are shown.
pub fn compile_listing(pattern: &str, show_hidden_files: bool) -> (r: Result<Listing, PatternFault>)
    ensures
        match glob_pattern_error(pattern@) {
            None => r matches Ok(l) && l.pattern@ == pattern@ && l.literal_leading_dot@
                == !show_hidden_files,
            Some((pos, msg)) => r matches Err(f) && f.pos == pos && f.msg@ == msg,
        },
{
    glob_with_leading_dot(pattern, !show_hidden_files)
}

} // verus!
