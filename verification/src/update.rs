//! The update check's decision: whether a release tag names a version other
//! than the running one. The tag carries a leading `v`, the running version
//! does not.

use crate::text::str_eq;
use vstd::prelude::*;
use vstd::string::StringExecFns;

verus! {

/// Whether the latest release tag differs from `v` followed by the running
/// version, in which case an update is worth announcing.
pub fn update_available(tag: &str, current_version: &str) -> (r: bool)
    ensures
        r == (tag@ != "v"@ + current_version@),
{
    let mut expected = String::new();
    expected.append("v");
    expected.append(current_version);
    proof {
        assert(expected@ =~= "v"@ + current_version@);
    }
    !str_eq(tag, expected.as_str())
}

} // verus!
