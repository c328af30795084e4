//! Cosmetic path cleanup for display: stripping the Windows extended-path
//! marker `\\?\` that canonicalization prepends on some platforms.

use vstd::prelude::*;
use vstd::string::StrSliceExecFns;

verus! {

/// True when the character sequence begins with the extended-path marker
/// `\\?\`.
pub open spec fn has_extended_prefix(s: Seq<char>) -> bool {
    s.len() >= 4 && s[0] == '\\' && s[1] == '\\' && s[2] == '?' && s[3] == '\\'
}

/// The character sequence with one leading extended-path marker removed, or
/// the sequence itself when no marker is present.
pub open spec fn without_extended_prefix(s: Seq<char>) -> Seq<char> {
    if has_extended_prefix(s) {
        s.skip(4)
    } else {
        s
    }
}

/// Strips a single leading `\\?\` marker from a path rendered as a string.
/// Purely cosmetic: matching and deletion decisions never depend on it.
pub fn remove_weird_prefix_on_pathstr<'a>(pathstr: &'a str) -> (r: &'a str)
    ensures
        r@ == without_extended_prefix(pathstr@),
{
    let n: usize = pathstr.unicode_len();
    if n >= 4 && pathstr.get_char(0) == '\\' && pathstr.get_char(1) == '\\' && pathstr.get_char(2)
        == '?' && pathstr.get_char(3) == '\\' {
        let rest = pathstr.substring_char(4, n);
        proof {
            assert(rest@ =~= pathstr@.skip(4));
        }
        rest
    } else {
        pathstr
    }
}

} // verus!
