//! File paths, held as strings.

use vstd::prelude::*;
use crate::text::chars_of;

verus! {

/// The extension of a path as `Path::extension` finds it: the part of the
/// file name after its last dot, if the name has a dot that does not start it.
pub uninterp spec fn path_extension(path: Seq<char>) -> Option<Seq<char>>;

/// Calls `Path::extension` on a path given as a string; its result is named
/// `path_extension`.
#[verifier::external_body]
pub fn extension_of(path: &str) -> (r: Option<String>)
    ensures
        match r {
            Some(e) => path_extension(path@) == Some(e@),
            None => path_extension(path@) is None,
        },
{
    std::path::Path::new(path).extension().map(|e| e.to_string_lossy().into_owned())
}

/// The path `Path::join` makes of a base and a further path.
pub uninterp spec fn joined_path(base: Seq<char>, rest: Seq<char>) -> Seq<char>;

/// Calls `Path::join`; its result is named `joined_path`.  As the
/// documentation of `PathBuf::push` says, an absolute further path replaces
/// the base, and a relative one extends it after a separator.  What it makes
/// of an empty base or a base that already ends in a separator is left
/// unstated.
#[verifier::external_body]
pub fn join_path(base: &str, rest: &str) -> (r: String)
    ensures
        r@ == joined_path(base@, rest@),
        rest@.len() > 0 && rest@[0] == '/' ==> r@ == rest@,
        !(rest@.len() > 0 && rest@[0] == '/') && base@.len() > 0 && base@.last() != '/' ==> r@
            == base@ + seq!['/'] + rest@,
{
    std::path::Path::new(base).join(rest).to_string_lossy().into_owned()
}

/// Whether a `.git` component starts at `i` in path `p`: the four
/// characters there are `.git`, with a separator or the path's end on both
/// sides.
pub open spec fn git_component_at(p: Seq<char>, i: int) -> bool {
    &&& 0 <= i
    &&& i + 4 <= p.len()
    &&& p[i] == '.' && p[i + 1] == 'g' && p[i + 2] == 'i' && p[i + 3] == 't'
    &&& (i == 0 || p[i - 1] == '/')
    &&& (i + 4 == p.len() || p[i + 4] == '/')
}

/// Whether a relative path lies in a `.git` directory or names one: one of
/// its components is `.git`.
pub open spec fn in_git_dir(p: Seq<char>) -> bool {
    exists|i: int| git_component_at(p, i)
}

/// Whether a relative path has a `.git` component; the file list leaves
/// such paths out.
pub fn has_git_component(path: &str) -> (r: bool)
    ensures
        r == in_git_dir(path@),
{
    let cs = chars_of(path);
    let n = cs.len();
    let mut i: usize = 0;
    while n >= 4 && i <= n - 4
        invariant
            i <= n,
            cs@ == path@,
            n == cs@.len(),
            forall|k: int| 0 <= k < i ==> !git_component_at(path@, k),
        decreases n - i,
    {
        if cs[i] == '.' && cs[i + 1] == 'g' && cs[i + 2] == 'i' && cs[i + 3] == 't' && (i == 0
            || cs[i - 1] == '/') && (i + 4 == n || cs[i + 4] == '/') {
            assert(git_component_at(path@, i as int));
            return true;
        }
        i = i + 1;
    }
    proof {
        assert forall|k: int| !git_component_at(path@, k) by {
            if 0 <= k < i {
            }
        }
    }
    false
}

} // verus!
