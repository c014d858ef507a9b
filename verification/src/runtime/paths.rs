//! Unix paths as text.

use vstd::prelude::*;
use vstd::string::*;

use crate::text::owned;

verus! {

/// A path extended by another: an absolute one replaces it, a relative one
/// follows it after a separator.
pub open spec fn joined(base: Seq<char>, part: Seq<char>) -> Seq<char> {
    if base.len() == 0 || (part.len() > 0 && part[0] == '/') {
        part
    } else if base.last() == '/' {
        base + part
    } else {
        base + "/"@ + part
    }
}

/// A path without leading separators.
pub open spec fn relative(path: Seq<char>) -> Seq<char>
    decreases path.len(),
{
    if path.len() > 0 && path[0] == '/' {
        relative(path.skip(1))
    } else {
        path
    }
}

/// Where a path of a root filesystem lies on the host.
pub open spec fn below(rootfs: Seq<char>, path: Seq<char>) -> Seq<char> {
    joined(rootfs, relative(path))
}

/// Find where a path of a root filesystem lies on the host.
pub fn path_below(rootfs: &str, path: &str) -> (r: String)
    ensures
        r@ == below(rootfs@, path@),
{
    let n: usize = path.unicode_len();
    let mut from: usize = 0;
    assert(path@.skip(0) =~= path@);
    while from < n && path.get_char(from) == '/'
        invariant
            from <= n,
            n == path@.len(),
            relative(path@) == relative(path@.skip(from as int)),
        decreases n - from,
    {
        assert(path@.skip(from as int).skip(1) =~= path@.skip(from + 1));
        from += 1;
    }
    assert(path@.subrange(from as int, n as int) =~= path@.skip(from as int));
    join(rootfs, path.substring_char(from, n))
}

/// Extend a path by another.
pub fn join(base: &str, part: &str) -> (r: String)
    ensures
        r@ == joined(base@, part@),
{
    let n: usize = base.unicode_len();
    if n == 0 {
        return owned(part);
    }
    if part.unicode_len() > 0 && part.get_char(0) == '/' {
        return owned(part);
    }
    let mut r = owned(base);
    if base.get_char(n - 1) != '/' {
        r.append("/");
    }
    r.append(part);
    r
}

/// Joining puts exactly one separator between two parts that bring none, keeps one that
/// is there, and lets an absolute part stand alone.
pub proof fn joining_separates_once(base: Seq<char>, part: Seq<char>)
    ensures
        base.len() > 0 && base.last() != '/' && (part.len() == 0 || part[0] != '/') ==> joined(
            base,
            part,
        ) == base.push('/') + part,
        base.len() > 0 && base.last() == '/' && (part.len() == 0 || part[0] != '/') ==> joined(
            base,
            part,
        ) == base + part,
        part.len() > 0 && part[0] == '/' ==> joined(base, part) == part,
        base.len() == 0 ==> joined(base, part) == part,
{
    reveal_strlit("/");
    assert(base + "/"@ =~= base.push('/'));
}

proof fn relative_is_suffix(path: Seq<char>)
    ensures
        relative(path).len() <= path.len(),
        path.skip(path.len() - relative(path).len()) == relative(path),
        forall|k: int|
            0 <= k < path.len() - relative(path).len() ==> #[trigger] path[k] == '/',
        relative(path).len() > 0 ==> relative(path)[0] != '/',
    decreases path.len(),
{
    if path.len() > 0 && path[0] == '/' {
        let rest = path.skip(1);
        relative_is_suffix(rest);
        let n = path.len() - relative(path).len();
        assert(path.skip(n) =~= rest.skip(n - 1));
        assert forall|k: int| 0 <= k < n implies #[trigger] path[k] == '/' by {
            if k > 0 {
                assert(path[k] == rest[k - 1]);
            }
        }
    } else {
        assert(path.skip(0) =~= path);
    }
}

/// A path of a root filesystem lies below that root filesystem on the host, absolute or
/// not: the root, a separator, and the path without its leading separators.
pub proof fn paths_stay_below_the_root(rootfs: Seq<char>, path: Seq<char>)
    requires
        rootfs.len() > 0,
    ensures
        rootfs.is_prefix_of(below(rootfs, path)),
        rootfs.last() != '/' && path.len() > 0 && path[0] != '/' ==> below(rootfs, path)
            == rootfs.push('/') + path,
        rootfs.last() != '/' && path.len() > 1 && path[0] == '/' && path[1] != '/' ==> below(
            rootfs,
            path,
        ) == rootfs + path,
{
    relative_is_suffix(path);
    joining_separates_once(rootfs, relative(path));
    assert(path.skip(0) =~= path);
    if path.len() > 1 && path[0] == '/' && path[1] != '/' {
        assert(relative(path) == relative(path.skip(1)));
        assert(path.skip(1)[0] == path[1]);
        assert(relative(path) == path.skip(1));
        assert(rootfs.push('/') + path.skip(1) =~= rootfs + path);
    }
}

} // verus!
