//! Paths as texts. How a path splits into parts depends on the platform; what
//! is stated here holds on every one of them.
use crate::text;
use vstd::prelude::*;

verus! {

/// Whether a character separates the parts of a path on some platform.
pub open spec fn is_separator(c: char) -> bool {
    c == '/' || c == '\\'
}

// ── The last part ──────────────────────────────────────────────────────────

/// Where the last slash among the first `n` characters stands, or -1.
pub open spec fn last_slash(path: Seq<char>, n: int) -> int
    decreases n,
{
    if n <= 0 {
        -1
    } else if path[n - 1] == '/' {
        n - 1
    } else {
        last_slash(path, n - 1)
    }
}

/// What stands behind the last slash.
pub open spec fn last_part(path: Seq<char>) -> Seq<char> {
    path.skip(last_slash(path, path.len() as int) + 1)
}

/// What stands before the last slash.
pub open spec fn leading_part(path: Seq<char>) -> Seq<char> {
    let slash = last_slash(path, path.len() as int);
    if slash < 0 {
        Seq::empty()
    } else {
        path.take(slash)
    }
}

/// Whether a text begins like no share or device of any platform.
pub open spec fn begins_plainly(path: Seq<char>) -> bool {
    path.len() == 0 || !is_separator(path[0]) || (path.len() > 1 && !is_separator(path[1]))
}

/// Whether a part of a path is a name on every platform.
pub open spec fn is_name(part: Seq<char>) -> bool {
    &&& part.len() > 0
    &&& part != seq!['.']
    &&& part != seq!['.', '.']
    &&& forall|i: int| 0 <= i < part.len() ==> !is_separator(#[trigger] part[i]) && part[i] != ':'
}

/// Whether every platform takes what stands behind the last slash for the
/// path's last part.
pub open spec fn ends_in_name(path: Seq<char>) -> bool {
    begins_plainly(leading_part(path)) && is_name(last_part(path))
}

/// Whether a path has no last part on any platform.
pub open spec fn ends_in_no_name(path: Seq<char>) -> bool {
    path == seq!['/'] || (begins_plainly(leading_part(path)) && last_part(path) == seq!['.', '.'])
}

/// `std::path::Path::file_name` gives the last part of a path: what stands
/// behind its last separator. It gives nothing for the root, and for a path
/// that ends in two dots. What else separates parts, and which beginnings
/// stand for themselves, depends on the platform; on any of them the result is
/// a piece of the path.
#[verifier::external_body]
pub(crate) fn last_component(path: &str) -> (name: Option<String>)
    ensures
        ends_in_name(path@) ==> text::text_view(name) == Some(last_part(path@)),
        ends_in_no_name(path@) ==> name is None,
        name matches Some(name) ==> text::occurs_in(path@, name@),
{
    std::path::Path::new(path).file_name().and_then(|name| name.to_str()).map(
        |name| name.to_owned(),
    )
}

// ── Paths under others ─────────────────────────────────────────────────────

/// Whether a path names a directory from the root on every platform.
pub open spec fn from_root(path: Seq<char>) -> bool {
    path.len() > 1 && path[0] == '/' && !is_separator(path[1]) && !is_separator(path.last())
        && path.last() != '.'
}

/// Whether a text goes on behind another.
pub open spec fn goes_on(path: Seq<char>, root: Seq<char>) -> bool {
    path.len() > root.len() && path.take(root.len() as int) == root
}

/// Whether two texts part at a place, inside a name.
pub open spec fn parts_at(path: Seq<char>, root: Seq<char>, at: int) -> bool {
    &&& 0 <= at < path.len() && at < root.len()
    &&& path.take(at) == root.take(at)
    &&& path[at] != root[at]
    &&& !is_separator(path[at]) && !is_separator(root[at])
    &&& path[at] != '.' && root[at] != '.'
}

/// Whether a path lies under another on every platform.
pub open spec fn surely_under(path: Seq<char>, root: Seq<char>) -> bool {
    path == root || root.len() == 0 || (from_root(root) && goes_on(path, root) && path[
        root.len() as int
    ] == '/')
}

/// Whether a path lies under another on no platform: it does not start at the
/// root, it goes on inside the other's last name, or it parts from the other
/// inside a name.
pub open spec fn surely_outside(path: Seq<char>, root: Seq<char>) -> bool {
    from_root(root) && (path.len() == 0 || !is_separator(path[0]) || (goes_on(path, root)
        && !is_separator(path[root.len() as int])) || exists|at: int| #[trigger]
        parts_at(path, root, at))
}

/// `std::path::Path::starts_with`: whether a path lies under another, part by
/// part. How a path splits into parts depends on the platform.
#[verifier::external_body]
pub(crate) fn path_starts_with(path: &str, root: &str) -> (result: bool)
    ensures
        surely_under(path@, root@) ==> result,
        surely_outside(path@, root@) ==> !result,
{
    std::path::Path::new(path).starts_with(std::path::Path::new(root))
}

/// What stands behind another text and a separator.
pub open spec fn remainder(path: Seq<char>, root: Seq<char>) -> Seq<char> {
    path.skip(root.len() as int + 1)
}

/// Whether a path goes on behind another with a text that is kept as it is on
/// every platform: nothing at its ends is skipped.
pub open spec fn leaves_its_text(path: Seq<char>, root: Seq<char>) -> bool {
    let rest = remainder(path, root);
    &&& from_root(root) && goes_on(path, root) && path[root.len() as int] == '/'
    &&& rest.len() > 0
    &&& !is_separator(rest[0]) && !is_separator(rest.last())
    &&& !(rest[0] == '.' && (rest.len() == 1 || is_separator(rest[1])))
    &&& !(rest.last() == '.' && is_separator(rest[rest.len() - 2]))
}

/// `std::path::Path::strip_prefix`: what is left of a path under another, or
/// nothing where it does not lie there. Of a path under itself an empty text is
/// left. How a path splits into parts depends on the platform; on every
/// platform what is left is a piece of the path.
#[verifier::external_body]
pub(crate) fn path_under(path: &str, root: &str) -> (rest: Option<String>)
    ensures
        surely_under(path@, root@) ==> rest is Some,
        surely_outside(path@, root@) ==> rest is None,
        path@ == root@ ==> (rest matches Some(rest) && rest@.len() == 0),
        leaves_its_text(path@, root@) ==> text::text_view(rest) == Some(remainder(path@, root@)),
        rest matches Some(rest) ==> text::occurs_in(path@, rest@),
{
    match std::path::Path::new(path).strip_prefix(std::path::Path::new(root)) {
        Ok(rest) => Some(rest.display().to_string()),
        Err(_) => None,
    }
}

// ── Two spellings of one path ──────────────────────────────────────────────

/// Whether a path reads the same on every platform: it begins plainly and is
/// written with slashes alone.
pub open spec fn plain(path: Seq<char>) -> bool {
    &&& begins_plainly(path) || path == seq!['/']
    &&& forall|i: int| 0 <= i < path.len() ==> #[trigger] path[i] != '\\' && path[i] != ':'
}

/// The parts of a plain path. Repeated and trailing slashes count once, and a
/// single dot counts only at the beginning.
pub open spec fn parts(path: Seq<char>) -> Seq<Seq<char>>
    decreases path.len(),
{
    let slash = last_slash(path, path.len() as int);
    let last = last_part(path);
    let earlier = if 0 <= slash < path.len() {
        parts(path.take(slash))
    } else {
        Seq::empty()
    };
    if last.len() == 0 || (last == seq!['.'] && slash >= 0) {
        earlier
    } else {
        earlier.push(last)
    }
}

/// Whether a path starts at the root.
pub open spec fn rooted(path: Seq<char>) -> bool {
    path.len() > 0 && path[0] == '/'
}

/// Whether two plain paths have the same parts.
pub open spec fn same_parts(a: Seq<char>, b: Seq<char>) -> bool {
    rooted(a) == rooted(b) && parts(a) == parts(b)
}

/// Whether two texts are one path on every platform.
pub open spec fn surely_same(a: Seq<char>, b: Seq<char>) -> bool {
    a == b || (plain(a) && plain(b) && same_parts(a, b))
}

/// Whether two texts may be found to be one path, or not to be. Where the
/// texts do not settle it, the platform's rules for paths do.
pub open spec fn may_be_same(a: Seq<char>, b: Seq<char>, same: bool) -> bool {
    &&& surely_same(a, b) ==> same
    &&& plain(a) && plain(b) ==> same == same_parts(a, b)
}

/// A slash at the end of a path makes no other path of it.
pub proof fn a_trailing_slash_does_not_count(path: Seq<char>)
    requires
        path.len() > 1,
        plain(path),
    ensures
        surely_same(path, path.push('/')),
{
    let longer = path.push('/');
    assert(last_slash(longer, longer.len() as int) == path.len());
    assert(longer.take(path.len() as int) =~= path);
    assert(last_part(longer).len() == 0);
    assert forall|i: int| 0 <= i < longer.len() implies #[trigger] longer[i] != '\\'
        && longer[i] != ':' by {
        if i < path.len() {
            assert(longer[i] == path[i]);
        }
    }
    assert(begins_plainly(path)) by {
        assert(seq!['/'].len() == 1);
    }
    assert(longer[0] == path[0]);
    assert(longer[1] == path[1]);
}

/// `std::path::Path` compared with `==`: whether two paths are equal, part by
/// part. How a path splits into parts depends on the platform.
#[verifier::external_body]
pub(crate) fn same_path(a: &str, b: &str) -> (same: bool)
    ensures
        may_be_same(a@, b@, same),
{
    std::path::Path::new(a) == std::path::Path::new(b)
}

} // verus!
