//! Glob patterns over metric names.

use vstd::prelude::*;
use vstd::utf8::encode_utf8;

verus! {

/// Whether the glob `pattern` matches the whole of `path`, as the `glob_match`
/// crate decides it.
pub uninterp spec fn glob_matches(pattern: Seq<char>, path: Seq<char>) -> bool;

/// The matcher keeps its place in the text it is matching as a 32-bit number.
/// A metric is within its reach where it takes fewer than `u32::MAX` bytes of
/// UTF-8.
pub open spec fn matchable(metric: Seq<char>) -> bool {
    encode_utf8(metric).len() < u32::MAX
}

/// Tests whether a metric is within the matcher's reach.
pub fn is_matchable(metric: &str) -> (ok: bool)
    ensures
        ok == matchable(metric@),
{
    metric.as_bytes().len() < 0xffff_ffff
}

/// Calls `glob_match::glob_match`. Trusted: on one platform the answer is a
/// function of the two strings alone, and `glob_matches` is the name of that
/// function. The matcher adds one to a place in `path` held in 32 bits, so
/// `path` has to be shorter than that.
#[verifier::external_body]
pub(crate) fn glob_match_str(pattern: &str, path: &str) -> (matched: bool)
    requires
        matchable(path@),
    ensures
        matched == glob_matches(pattern@, path@),
{
    glob_match::glob_match(pattern, path)
}

} // verus!
