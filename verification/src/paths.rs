//! Verified path handling over `/`-separated path strings: file names,
//! extensions, joining, and component-wise prefix tests.

use vstd::prelude::*;
use crate::text::{eq_str, spec_starts_with, starts_with_str};

verus! {

/// Index where the file name of `s` starts: just after the last `/`.
pub open spec fn file_name_start(s: Seq<char>) -> int
    decreases s.len(),
{
    if s.len() == 0 {
        0
    } else if s.last() == '/' {
        s.len() as int
    } else {
        file_name_start(s.drop_last())
    }
}

/// The file name of a path: everything after the last `/`.
pub open spec fn spec_file_name(s: Seq<char>) -> Seq<char> {
    s.subrange(file_name_start(s), s.len() as int)
}

proof fn lemma_file_name_start(s: Seq<char>, j: int)
    requires
        0 <= j <= s.len(),
        j == 0 || s[j - 1] == '/',
        forall|k: int| j <= k < s.len() ==> s[k] != '/',
    ensures
        file_name_start(s) == j,
    decreases s.len(),
{
    if s.len() == 0 {
    } else if s.last() == '/' {
        assert(j == s.len());
    } else {
        let t = s.drop_last();
        lemma_file_name_start(t, if j == s.len() { j - 1 } else { j });
        if j == s.len() {
            assert(s[j - 1] != '/');
            assert(false);
        }
    }
}

/// Index where the extension of a file name starts: just after the last `.`,
/// or `-1` when the name holds no `.`.
pub open spec fn last_dot(name: Seq<char>) -> int
    decreases name.len(),
{
    if name.len() == 0 {
        -1
    } else if name.last() == '.' {
        name.len() - 1
    } else {
        last_dot(name.drop_last())
    }
}

proof fn lemma_last_dot(name: Seq<char>, j: int)
    requires
        -1 <= j < name.len(),
        j == -1 || name[j] == '.',
        forall|k: int| j < k < name.len() ==> name[k] != '.',
    ensures
        last_dot(name) == j,
    decreases name.len(),
{
    if name.len() == 0 {
    } else if name.last() == '.' {
        assert(j == name.len() - 1);
    } else {
        let t = name.drop_last();
        assert(j < name.len() - 1);
        lemma_last_dot(t, j);
    }
}

/// The extension of a path, as `Path::extension` sees it: the part of the
/// file name after its last `.`, none when the name has no `.` or only a
/// leading one.
pub open spec fn spec_extension(path: Seq<char>) -> Option<Seq<char>> {
    let name = spec_file_name(path);
    let k = last_dot(name);
    if k <= 0 {
        None
    } else {
        Some(name.subrange(k + 1, name.len() as int))
    }
}

/// The file name of a path.
pub fn file_name_of(path: &str) -> (r: String)
    ensures
        r@ == spec_file_name(path@),
{
    let n = path.unicode_len();
    let mut j = n;
    while j > 0 && path.get_char(j - 1) != '/'
        invariant
            0 <= j <= n,
            n == path@.len(),
            forall|k: int| j <= k < n ==> path@[k] != '/',
        decreases j,
    {
        j -= 1;
    }
    proof {
        lemma_file_name_start(path@, j as int);
    }
    path.substring_char(j, n).to_owned()
}

/// The extension of a path.
pub fn extension_of(path: &str) -> (r: Option<String>)
    ensures
        r matches Some(e) ==> spec_extension(path@) == Some(e@),
        r is None ==> spec_extension(path@) is None,
{
    let name = file_name_of(path);
    let s = name.as_str();
    let n = s.unicode_len();
    let mut j = n;
    while j > 0 && s.get_char(j - 1) != '.'
        invariant
            0 <= j <= n,
            n == s@.len(),
            forall|k: int| j <= k < n ==> s@[k] != '.',
        decreases j,
    {
        j -= 1;
    }
    proof {
        lemma_last_dot(s@, j as int - 1);
    }
    if j <= 1 {
        None
    } else {
        Some(s.substring_char(j, n).to_owned())
    }
}

/// What joining two path segments yields: a `/` is added unless the base is
/// empty or already ends with one.
pub open spec fn spec_join(a: Seq<char>, b: Seq<char>) -> Seq<char> {
    if a.len() > 0 && a.last() != '/' {
        a + "/"@ + b
    } else {
        a + b
    }
}

/// Joins two path segments with a `/`, as `Path::join` does for a relative
/// second segment.
pub fn join_path(base: &str, rest: &str) -> (r: String)
    ensures
        r@ == spec_join(base@, rest@),
{
    let n = base.unicode_len();
    let mut out = base.to_owned();
    if n > 0 && base.get_char(n - 1) != '/' {
        out.append("/");
    }
    out.append(rest);
    out
}

/// Component-wise path prefix, as `Path::starts_with` sees it: `scope`
/// (ignoring trailing `/`) is a whole-component prefix of `path`.
pub open spec fn spec_path_starts_with(path: Seq<char>, scope: Seq<char>) -> bool {
    let s = trim_trailing_slash(scope);
    s.len() == 0 || (spec_starts_with(path, s) && (path.len() == s.len() || path[s.len() as int]
        == '/'))
}

/// `s` without trailing `/` characters.
pub open spec fn trim_trailing_slash(s: Seq<char>) -> Seq<char>
    decreases s.len(),
{
    if s.len() > 0 && s.last() == '/' {
        trim_trailing_slash(s.drop_last())
    } else {
        s
    }
}

proof fn lemma_trim_trailing_slash(s: Seq<char>, b: int)
    requires
        0 <= b <= s.len(),
        forall|k: int| b <= k < s.len() ==> s[k] == '/',
        b == 0 || s[b - 1] != '/',
    ensures
        trim_trailing_slash(s) == s.subrange(0, b),
    decreases s.len(),
{
    if b == s.len() {
        if s.len() > 0 && s.last() == '/' {
            assert(false);
        }
        assert(s.subrange(0, b) =~= s);
    } else {
        let t = s.drop_last();
        lemma_trim_trailing_slash(t, b);
        assert(t.subrange(0, b) =~= s.subrange(0, b));
    }
}

/// Whether `path` lies under `scope`, component-wise.
pub fn path_starts_with(path: &str, scope: &str) -> (r: bool)
    ensures
        r == spec_path_starts_with(path@, scope@),
{
    let n = scope.unicode_len();
    let mut b = n;
    while b > 0 && scope.get_char(b - 1) == '/'
        invariant
            0 <= b <= n,
            n == scope@.len(),
            forall|k: int| b <= k < n ==> scope@[k] == '/',
        decreases b,
    {
        b -= 1;
    }
    proof {
        lemma_trim_trailing_slash(scope@, b as int);
    }
    if b == 0 {
        return true;
    }
    let s = scope.substring_char(0, b);
    if !starts_with_str(path, s) {
        return false;
    }
    let pl = path.unicode_len();
    if pl == b {
        true
    } else {
        path.get_char(b) == '/'
    }
}

} // verus!
