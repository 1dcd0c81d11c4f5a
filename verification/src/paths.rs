//! File-system paths, carried through the library as opaque values.
use vstd::prelude::*;

use std::path::PathBuf;

verus! {

/// `std::path::PathBuf`, known to the verifier as an opaque type.
#[verifier::external_type_specification]
#[verifier::external_body]
pub struct ExPathBuf(PathBuf);

/// `<PathBuf as Clone>::clone`: the copy is the same path.
pub assume_specification[ <PathBuf as Clone>::clone ](p: &PathBuf) -> (c: PathBuf)
    ensures
        c == *p,
;

/// The path that `PathBuf::from` makes of a string. It depends on the
/// string alone.
pub uninterp spec fn path_named(text: Seq<char>) -> PathBuf;

/// `PathBuf::from(String)`: the path that the text names.
#[verifier::external_body]
pub(crate) fn path_from(text: String) -> (p: PathBuf)
    ensures
        p == path_named(text@),
{
    PathBuf::from(text)
}

} // verus!
