use vstd::prelude::*;
use vstd::string::*;

verus! {

/// Number of characters kept by [`shorten_commit`].
pub const SHORT_COMMIT_LEN: usize = 7;

/// The short display form of a commit identifier: its first seven characters.
pub fn shorten_commit(commit: &str) -> (r: String)
    requires
        commit@.len() >= SHORT_COMMIT_LEN,
    ensures
        r@ == commit@.subrange(0, SHORT_COMMIT_LEN as int),
{
    String::from_str(commit.substring_char(0, SHORT_COMMIT_LEN))
}

} // verus!
