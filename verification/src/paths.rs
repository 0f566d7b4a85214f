//! Paths, as far as Unix and Windows agree on them.

use vstd::prelude::*;

verus! {

/// Whether a character separates the parts of a path, on Windows at least.
pub open spec fn is_separator(c: char) -> bool {
    c == '/' || c == '\\'
}

/// Whether a path has no prefix, on Unix and on Windows: neither a drive, which ends in a colon, nor
/// a share or a device, which start with two separators.
pub open spec fn unprefixed(path: Seq<char>) -> bool {
    &&& !path.contains(':')
    &&& !(path.len() >= 2 && is_separator(path[0]) && is_separator(path[1]))
}

/// Whether a path is relative, on Unix and on Windows.
pub open spec fn relative_everywhere(path: Seq<char>) -> bool {
    &&& path.len() > 0
    &&& unprefixed(path)
    &&& !is_separator(path[0])
}

/// Whether a path extends the one that it is joined to, on Unix and on Windows.
pub open spec fn extends_everywhere(path: Seq<char>) -> bool {
    path.len() == 0 || relative_everywhere(path)
}

/// Whether a path starts at the root of the file system, or of the current drive where there are
/// drives.
pub open spec fn rooted(path: Seq<char>) -> bool {
    &&& path.len() > 0
    &&& unprefixed(path)
    &&& path[0] == '/'
}

/// Whether `joined` is `base` followed by `path`, with a separator between them unless `base` is
/// empty or ends in one. Whether a backslash at the end is one, and whether a drive alone takes one,
/// is the platform's matter.
pub open spec fn adjoined(base: Seq<char>, path: Seq<char>, joined: Seq<char>) -> bool {
    if base.len() == 0 || base.last() == '/' {
        joined == base + path
    } else if base.last() == '\\' || base.last() == ':' {
        joined == base + path || joined == base + seq!['/'] + path || joined == base + seq!['\\']
            + path
    } else {
        joined == base + seq!['/'] + path || joined == base + seq!['\\'] + path
    }
}

/// Whether `located` is where `path` leads for someone in `base`, as far as Unix and Windows agree:
/// a relative path leads below `base`, an empty one to `base`, written as a directory, and one that
/// starts at the root leads to itself. A base that
/// starts with a backslash may be one that Windows takes literally; nothing is said of it.
pub open spec fn leads_to(base: Seq<char>, path: Seq<char>, located: Seq<char>) -> bool {
    &&& extends_everywhere(path) && !(base.len() > 0 && base[0] == '\\') ==> adjoined(
        base,
        path,
        located,
    )
    &&& rooted(path) && unprefixed(base) ==> located == path
}

/// `std::path::Path::is_absolute`: whether `path` is absolute, which depends on the platform. A path
/// with neither a prefix nor a root is not.
#[verifier::external_body]
pub(crate) fn path_is_absolute(path: &str) -> (absolute: bool)
    ensures
        extends_everywhere(path@) ==> !absolute,
{
    std::path::Path::new(path).is_absolute()
}

/// `std::path::Path::join`: a relative path extends `base`, with the platform's separator between
/// them, and so does an empty one; a path with a root replaces all of `base` but its prefix. What a platform takes for a
/// prefix is left open.
#[verifier::external_body]
pub(crate) fn join_paths(base: &str, path: &str) -> (joined: String)
    ensures
        leads_to(base@, path@, joined@),
{
    std::path::Path::new(base).join(path).to_string_lossy().to_string()
}

/// Whether the part of a path that starts at `i` is one or two dots and nothing else.
pub open spec fn dots_at(path: Seq<char>, i: int) -> bool {
    &&& path[i] == '.'
    &&& {
        ||| i + 1 == path.len()
        ||| path[i + 1] == '/'
        ||| path[i + 1] == '.' && (i + 2 == path.len() || path[i + 2] == '/')
    }
}

/// Whether a path is written alike and means the same on Unix and on Windows: it starts at the root,
/// its parts are separated by single slashes, and none of them is `.` or `..`.
pub open spec fn plain(path: Seq<char>) -> bool {
    &&& path.len() > 1
    &&& path[0] == '/'
    &&& path.last() != '/'
    &&& !path.contains(':')
    &&& !path.contains('\\')
    &&& forall|i: int|
        0 < i < path.len() && path[i - 1] == '/' ==> #[trigger] path[i] != '/' && !dots_at(path, i)
}

/// A path as seen from a directory, where it is that directory or below it.
pub open spec fn seen_from(path: Seq<char>, dir: Seq<char>) -> Option<Seq<char>> {
    if path == dir {
        Some(seq![])
    } else if path.len() > dir.len() && path.take(dir.len() as int) == dir && path[dir.len() as int]
        == '/' {
        Some(path.skip(dir.len() as int + 1))
    } else {
        None
    }
}

/// A text that may be missing, as a value.
pub open spec fn text_view(text: Option<String>) -> Option<Seq<char>> {
    match text {
        Some(text) => Some(text@),
        None => None,
    }
}

/// `std::path::Path::strip_prefix`: `path` as seen from `dir`, where it is below it. What other
/// paths are below a directory depends on the platform.
#[verifier::external_body]
pub(crate) fn relative_path(path: &str, dir: &str) -> (relative: Option<String>)
    ensures
        plain(path@) && plain(dir@) ==> text_view(relative) == seen_from(path@, dir@),
{
    std::path::Path::new(path).strip_prefix(dir).ok().map(|relative| relative.display().to_string())
}

/// Whether a part of a path is an ordinary name, which may start with dots.
pub open spec fn ordinary(part: Seq<char>) -> bool {
    &&& part.len() > 0
    &&& part != seq!['.']
    &&& part != seq!['.', '.']
    &&& !part.contains('/')
    &&& !part.contains('\\')
    &&& !part.contains(':')
}

/// Whether a path is written to its end: it neither ends in a slash nor, behind one, in a lone dot.
pub open spec fn ends_in_a_part(dir: Seq<char>) -> bool {
    &&& dir.len() > 0
    &&& dir.last() != '/'
    &&& !(dir.len() > 1 && dir.last() == '.' && dir[dir.len() - 2] == '/')
}

/// What `name` is called from where the directory `dir` is called so.
pub open spec fn under(dir: Seq<char>, name: Seq<char>) -> Seq<char> {
    if dir.len() == 0 || dir.last() == '/' {
        dir + name
    } else {
        dir + seq!['/'] + name
    }
}

/// Whether `path` leads to the ordinary name `name` in `dir`: the current directory, where that is
/// empty, the root, or one that is written to its end.
pub open spec fn lies_in(path: Seq<char>, dir: Seq<char>, name: Seq<char>) -> bool {
    &&& ordinary(name)
    &&& dir.len() == 0 || dir == seq!['/'] || ends_in_a_part(dir)
    &&& path == under(dir, name)
    &&& unprefixed(path)
    &&& !path.contains('\\')
}

/// `std::path::Path::parent`: a path without its final part, or `None` for a path that ends in a
/// root and for the empty one. What is the final part of other paths depends on the platform.
#[verifier::external_body]
pub(crate) fn parent_path(path: &str) -> (parent: Option<String>)
    ensures
        path@.len() == 0 || path@ == seq!['/'] ==> parent is None,
        forall|dir: Seq<char>, name: Seq<char>| #[trigger]
            lies_in(path@, dir, name) ==> text_view(parent) == Some(dir),
{
    std::path::Path::new(path).parent().map(|parent| parent.display().to_string())
}

/// A path with a slash for every separator.
pub open spec fn unified(path: Seq<char>) -> Seq<char> {
    path.map_values(
        |c: char|
            if c == '\\' {
                '/'
            } else {
                c
            },
    )
}

/// Joining puts one separator between two paths, unless the first is empty or ends in one: a path
/// that extends another is below it.
pub proof fn joining_takes_one_separator(base: Seq<char>, path: Seq<char>, joined: Seq<char>)
    requires
        leads_to(base, path, joined),
        extends_everywhere(path),
        base.len() > 0 ==> base[0] != '\\' && base.last() != '\\' && base.last() != ':',
    ensures
        unified(joined) == under(unified(base), unified(path)),
        base.len() > 0 ==> joined.len() > 0 && joined[0] == base[0],
        path.len() > 0 ==> joined.len() > 0 && joined.last() == path.last(),
{
    assert(unified(joined) =~= under(unified(base), unified(path)));
}

/// Whether `located` is `name` in the directory of `path`. Which separators stand in it is the
/// platform's matter, and so is what lies next to an extraordinary path.
pub open spec fn lies_beside(path: Seq<char>, name: Seq<char>, located: Option<Seq<char>>) -> bool {
    &&& path.len() == 0 || path == seq!['/'] ==> located is None
    &&& forall|dir: Seq<char>, file: Seq<char>| #[trigger]
        lies_in(path, dir, file) && relative_everywhere(name) ==> {
            &&& located is Some
            &&& located->0.len() > 0
            &&& located->0[0] != '\\'
            &&& located->0.last() == name.last()
            &&& unified(located->0) == under(dir, unified(name))
        }
}

/// `name` in the directory of `path`, where that has one.
pub(crate) fn beside(path: &str, name: &str) -> (located: Option<String>)
    ensures
        lies_beside(path@, name@, text_view(located)),
{
    match parent_path(path) {
        Some(parent) => {
            let located = join_paths(parent.as_str(), name);
            proof {
                assert forall|dir: Seq<char>, file: Seq<char>| #[trigger]
                    lies_in(path@, dir, file) && relative_everywhere(name@) implies {
                    &&& located@.len() > 0
                    &&& located@[0] != '\\'
                    &&& located@.last() == name@.last()
                    &&& unified(located@) == under(dir, unified(name@))
                } by {
                    assert(parent@ == dir);
                    lemma_directory(path@, dir, file);
                    joining_takes_one_separator(dir, name@, located@);
                    if dir.len() == 0 {
                        assert(located@ =~= name@);
                    }
                }
            }
            Some(located)
        },
        None => None,
    }
}

/// A directory that a path leads through is separated by slashes.
pub proof fn lemma_directory(path: Seq<char>, dir: Seq<char>, name: Seq<char>)
    requires
        lies_in(path, dir, name),
    ensures
        dir.len() > 0 ==> dir[0] != '\\' && dir.last() != '\\' && dir.last() != ':',
        unified(dir) == dir,
        unprefixed(dir),
{
    assert forall|i: int| 0 <= i < dir.len() implies #[trigger] dir[i] != '\\' && dir[i] != ':' by {
        assert(path[i] == dir[i]);
        assert(path.contains(path[i]));
    }
    assert(unified(dir) =~= dir);
}

} // verus!
