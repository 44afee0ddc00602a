//! Source-URL handling: rewriting a repository URL so that the fetch step
//! authenticates as the platform's account.

use vstd::prelude::*;

verus! {

use vstd::string::StringExecFns;
use vstd::string::StrSliceExecFns;
use crate::text::find_str;
use crate::text::occurs_at;
use crate::text::seq_contains;

/// Rewrites a repository URL to carry the platform account: everything from
/// the first `https://github.com/` onward is kept, with that prefix replaced
/// by the account-qualified one. A URL without the prefix is returned
/// unchanged.
pub fn modify_github_url(github_url: &str) -> (r: String)
    ensures
        !seq_contains(github_url@, "https://github.com/"@) ==> r@ == github_url@,
        forall|i: int|
            occurs_at(github_url@, "https://github.com/"@, i) && (forall|j: int|
                0 <= j < i ==> !occurs_at(github_url@, "https://github.com/"@, j)) ==> r@
                == "https://damien-mathieu1@github.com/"@ + github_url@.skip(
                i + "https://github.com/"@.len(),
            ),
{
    let pattern = "https://github.com/";
    match find_str(github_url, pattern) {
        Some(pos) => {
            let plen = pattern.unicode_len();
            let len = github_url.unicode_len();
            let rest = github_url.substring_char(pos + plen, len);
            assert(rest@ =~= github_url@.skip(pos + pattern@.len()));
            String::from_str("https://damien-mathieu1@github.com/").concat(rest)
        },
        None => github_url.to_owned(),
    }
}

} // verus!
