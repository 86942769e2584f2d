//! How std's `Debug` quotes a string and a path: the text of both depends on
//! std's escaping rules alone, so it is named here, not spelled out.
use vstd::prelude::*;

verus! {

/// The text that `format!("{:?}", s)` gives for a string slice `s`.
pub uninterp spec fn str_debug(s: Seq<char>) -> Seq<char>;

/// The text that `format!("{:?}", Path::new(s))` gives for a path `s`.
pub uninterp spec fn path_debug(s: Seq<char>) -> Seq<char>;

/// The `Debug` text of a string slice: calls `<str as Debug>::fmt` through
/// `format!`. The contract claims only that the result is the value of
/// `str_debug` on the characters of `s`, that is, that it depends on them
/// alone.
#[verifier::external_body]
pub(crate) fn debug_str(s: &str) -> (r: String)
    ensures
        r@ == str_debug(s@),
{
    format!("{:?}", s)
}

/// The `Debug` text of a path held as a string: calls `<Path as Debug>::fmt`
/// through `format!`. The contract claims only that the result is the value of
/// `path_debug` on the characters of `s`.
#[verifier::external_body]
pub(crate) fn debug_path(s: &str) -> (r: String)
    ensures
        r@ == path_debug(s@),
{
    format!("{:?}", std::path::Path::new(s))
}

} // verus!
