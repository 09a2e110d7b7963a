//! Small verified string helpers: equality of string slices and path joining.

use vstd::prelude::*;
use vstd::string::StrSliceExecFns;
use vstd::string::StringExecFns;

verus! {

/// Character-wise equality of two string slices.
pub fn str_eq(a: &str, b: &str) -> (r: bool)
    ensures
        r == (a@ == b@),
{
    let n: usize = a.unicode_len();
    let m: usize = b.unicode_len();
    if n != m {
        return false;
    }
    let mut i: usize = 0;
    while i < n
        invariant
            n == a@.len(),
            n == b@.len(),
            i <= n,
            forall|k: int| 0 <= k < i ==> a@[k] == b@[k],
        decreases n - i,
    {
        if a.get_char(i) != b.get_char(i) {
            return false;
        }
        i = i + 1;
    }
    proof {
        assert(a@ =~= b@);
    }
    true
}

/// A directory path extended by one component: `base`, a slash, `sub`.
pub open spec fn join(base: Seq<char>, sub: Seq<char>) -> Seq<char> {
    base + "/"@ + sub
}

/// Joins a base directory and one component with a slash.
pub fn path_join(base: &str, sub: &str) -> (r: String)
    ensures
        r@ == join(base@, sub@),
{
    let mut s = base.to_owned();
    s.append("/");
    s.append(sub);
    s
}

/// The directory where a dependency package of the given name is expected:
/// `node_modules/<name>` under the project root.
pub open spec fn dep_dir(root: Seq<char>, name: Seq<char>) -> Seq<char> {
    root + "/node_modules/"@ + name
}

/// Computes the expected directory of a dependency package under the project
/// root.
pub fn dep_dir_of(root: &str, name: &str) -> (r: String)
    ensures
        r@ == dep_dir(root@, name@),
{
    let mut s = root.to_owned();
    s.append("/node_modules/");
    s.append(name);
    s
}

} // verus!
