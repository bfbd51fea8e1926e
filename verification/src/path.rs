//! Paths as `/`-separated byte strings without empty and `.` components.
//! Separators at the end of a path do not count where a directory is looked
//! for or two paths are compared.

use crate::text::{append, last_index_of, matches_at, rfind_byte, starts_with_at, to_vec};
use vstd::prelude::*;

verus! {

/// The separator `/`.
pub open spec fn separator() -> u8 {
    0x2f
}

/// `name` without its extension: what stands before its last `.`, or all of
/// it where it has no `.` or only starts with one.
pub open spec fn file_stem(name: Seq<u8>) -> Seq<u8> {
    let dot = last_index_of(name, 0x2e);
    if dot <= 0 || name == seq![0x2eu8, 0x2eu8] {
        name
    } else {
        name.take(dot)
    }
}

/// `path` with the extension of its last component taken off.
pub open spec fn without_extension(path: Seq<u8>) -> Seq<u8> {
    let slash = last_index_of(path, separator());
    path.take(slash + 1) + file_stem(path.skip(slash + 1))
}

/// The name of the file at `path`: what stands behind its last separator.
pub open spec fn file_name(path: Seq<u8>) -> Seq<u8> {
    path.skip(last_index_of(path, separator()) + 1)
}

/// The extension of the file at `path`: what stands behind the last `.` of
/// its name; none where the name has no `.` or only starts with one.
pub open spec fn extension(path: Seq<u8>) -> Option<Seq<u8>> {
    let name = file_name(path);
    let dot = last_index_of(name, 0x2e);
    if dot <= 0 || name == seq![0x2eu8, 0x2eu8] {
        None
    } else {
        Some(name.skip(dot + 1))
    }
}

/// `path` with `extension` in place of the extension of its last component.
/// A path without a file name stays as it is.
pub open spec fn with_extension(path: Seq<u8>, extension: Seq<u8>) -> Seq<u8> {
    if file_name(path).len() == 0 || file_name(path) == seq![0x2eu8, 0x2eu8] {
        path
    } else {
        without_extension(path) + seq![0x2eu8] + extension
    }
}

/// `name` below the directory `base`. An absolute `name` is itself.
pub open spec fn join(base: Seq<u8>, name: Seq<u8>) -> Seq<u8> {
    if base.len() == 0 || (name.len() > 0 && name[0] == separator()) {
        name
    } else if base.last() == separator() {
        base + name
    } else {
        base + seq![separator()] + name
    }
}

/// `path` without the separators it ends with; the root stays the root.
pub open spec fn normalized(path: Seq<u8>) -> Seq<u8>
    decreases path.len(),
{
    if path.len() > 1 && path.last() == separator() {
        normalized(path.drop_last())
    } else {
        path
    }
}

/// The directory that holds `path`; none for the empty path and for the
/// root. Separators at the end of `path` do not count.
pub open spec fn parent(path: Seq<u8>) -> Option<Seq<u8>> {
    let path = normalized(path);
    let slash = last_index_of(path, separator());
    if path.len() == 0 || path == seq![separator()] {
        None
    } else if slash < 0 {
        Some(Seq::empty())
    } else if slash == 0 {
        Some(seq![separator()])
    } else {
        Some(path.take(slash))
    }
}

/// Whether two paths name the same place: they are equal but for the
/// separators they end with.
pub open spec fn same_path(a: Seq<u8>, b: Seq<u8>) -> bool {
    normalized(a) == normalized(b)
}

/// A path without the separators it ends with is no longer than the path.
pub proof fn lemma_normalized_shorter(path: Seq<u8>)
    ensures
        normalized(path).len() <= path.len(),
    decreases path.len(),
{
    if path.len() > 1 && path.last() == separator() {
        lemma_normalized_shorter(path.drop_last());
    }
}

/// `path` relative to `base`, where it lies below `base` or is `base`.
pub open spec fn strip_prefix(path: Seq<u8>, base: Seq<u8>) -> Option<Seq<u8>> {
    if path == base {
        Some(Seq::empty())
    } else if base.len() == 0 {
        if path[0] == separator() {
            None
        } else {
            Some(path)
        }
    } else if !matches_at(path, base, 0) {
        None
    } else if base.last() == separator() {
        Some(path.skip(base.len() as int))
    } else if path.len() > base.len() && path[base.len() as int] == separator() {
        Some(path.skip(base.len() as int + 1))
    } else {
        None
    }
}

/// The directory above a path is shorter than the path.
pub proof fn lemma_parent_shorter(path: Seq<u8>)
    ensures
        parent(path) matches Some(dir) ==> dir.len() < path.len(),
{
    lemma_normalized_shorter(path);
    let path = normalized(path);
    lemma_last_index_bounds(path, separator());
    let slash = last_index_of(path, separator());
    if slash == 0 && path.len() == 1 {
        assert(path =~= seq![separator()]);
    }
}

/// `last_index_of` is -1 or the offset of a byte that equals `b`.
pub proof fn lemma_last_index_bounds(s: Seq<u8>, b: u8)
    ensures
        -1 <= last_index_of(s, b) < s.len(),
        last_index_of(s, b) >= 0 ==> s[last_index_of(s, b)] == b,
    decreases s.len(),
{
    if s.len() > 0 && s.last() != b {
        lemma_last_index_bounds(s.drop_last(), b);
    }
}

/// The name of a file without its extension.
pub fn file_stem_of(name: &[u8]) -> (r: &[u8])
    ensures
        r@ == file_stem(name@),
{
    if name.len() == 2 && name[0] == 0x2e && name[1] == 0x2e {
        assert(name@ =~= seq![0x2eu8, 0x2eu8]);
        return name;
    }
    match rfind_byte(name, 0x2e) {
        Some(dot) => {
            proof {
                lemma_last_index_bounds(name@, 0x2e);
            }
            if dot == 0 {
                name
            } else {
                vstd::slice::slice_subrange(name, 0, dot)
            }
        },
        None => name,
    }
}

/// Takes the extension off the last component of a path.
pub fn remove_extension(path: &[u8]) -> (r: Vec<u8>)
    ensures
        r@ == without_extension(path@),
{
    proof {
        lemma_last_index_bounds(path@, separator());
    }
    let cut: usize = match rfind_byte(path, 0x2f) {
        Some(slash) => slash + 1,
        None => 0,
    };
    let mut out = to_vec(vstd::slice::slice_subrange(path, 0, cut));
    let name = vstd::slice::slice_subrange(path, cut, path.len());
    assert(name@ =~= path@.skip(cut as int));
    append(&mut out, file_stem_of(name));
    out
}

/// The name of the file at a path.
pub fn file_name_of(path: &[u8]) -> (r: &[u8])
    ensures
        r@ == file_name(path@),
{
    proof {
        lemma_last_index_bounds(path@, separator());
    }
    let cut: usize = match rfind_byte(path, 0x2f) {
        Some(slash) => slash + 1,
        None => 0,
    };
    let name = vstd::slice::slice_subrange(path, cut, path.len());
    assert(name@ =~= path@.skip(cut as int));
    name
}

/// The extension of the file at a path.
pub fn extension_of(path: &[u8]) -> (r: Option<&[u8]>)
    ensures
        r matches Some(found) ==> extension(path@) == Some(found@),
        r is None ==> extension(path@) is None,
{
    let name = file_name_of(path);
    if name.len() == 2 && name[0] == 0x2e && name[1] == 0x2e {
        assert(name@ =~= seq![0x2eu8, 0x2eu8]);
        return None;
    }
    match rfind_byte(name, 0x2e) {
        None => None,
        Some(dot) => {
            if dot == 0 {
                None
            } else {
                let found = vstd::slice::slice_subrange(name, dot + 1, name.len());
                assert(found@ =~= name@.skip(dot + 1));
                Some(found)
            }
        },
    }
}

/// Puts `extension` in the place of the extension of a path.
pub fn replace_extension(path: &[u8], extension: &[u8]) -> (r: Vec<u8>)
    ensures
        r@ == with_extension(path@, extension@),
{
    let name = file_name_of(path);
    if name.len() == 0 {
        return to_vec(path);
    }
    if name.len() == 2 && name[0] == 0x2e && name[1] == 0x2e {
        assert(name@ =~= seq![0x2eu8, 0x2eu8]);
        return to_vec(path);
    }
    let mut out = remove_extension(path);
    out.push(0x2e);
    append(&mut out, extension);
    out
}

/// The path of `name` below the directory `base`.
pub fn join_path(base: &[u8], name: &[u8]) -> (r: Vec<u8>)
    ensures
        r@ == join(base@, name@),
{
    if base.len() == 0 || (name.len() > 0 && name[0] == 0x2f) {
        return to_vec(name);
    }
    let mut out = to_vec(base);
    if base[base.len() - 1] != 0x2f {
        out.push(0x2f);
    }
    append(&mut out, name);
    out
}

/// A path without the separators it ends with.
pub fn normalize(path: &[u8]) -> (r: &[u8])
    ensures
        r@ == normalized(path@),
{
    let mut end: usize = path.len();
    assert(path@.take(end as int) =~= path@);
    while end > 1 && path[end - 1] == 0x2f
        invariant
            end <= path.len(),
            normalized(path@) == normalized(path@.take(end as int)),
        decreases end,
    {
        assert(path@.take(end as int).drop_last() =~= path@.take(end - 1));
        end -= 1;
    }
    vstd::slice::slice_subrange(path, 0, end)
}

/// Whether two paths name the same place.
pub fn is_same_path(a: &[u8], b: &[u8]) -> (r: bool)
    ensures
        r == same_path(a@, b@),
{
    crate::text::bytes_eq(normalize(a), normalize(b))
}

/// The directory that holds a path.
pub fn parent_of(path: &[u8]) -> (r: Option<&[u8]>)
    ensures
        r matches Some(dir) ==> parent(path@) == Some(dir@),
        r is None ==> parent(path@) is None,
{
    let path = normalize(path);
    proof {
        lemma_last_index_bounds(path@, separator());
    }
    if path.len() == 0 {
        return None;
    }
    if path.len() == 1 && path[0] == 0x2f {
        assert(path@ =~= seq![separator()]);
        return None;
    }
    match rfind_byte(path, 0x2f) {
        None => Some(vstd::slice::slice_subrange(path, 0, 0)),
        Some(slash) => {
            if slash == 0 {
                let root = vstd::slice::slice_subrange(path, 0, 1);
                assert(root@ =~= seq![separator()]);
                Some(root)
            } else {
                Some(vstd::slice::slice_subrange(path, 0, slash))
            }
        },
    }
}

/// The path relative to `base`, where it lies below `base`.
pub fn strip_path_prefix<'a>(path: &'a [u8], base: &[u8]) -> (r: Option<&'a [u8]>)
    ensures
        r matches Some(rest) ==> strip_prefix(path@, base@) == Some(rest@),
        r is None ==> strip_prefix(path@, base@) is None,
{
    if crate::text::bytes_eq(path, base) {
        return Some(vstd::slice::slice_subrange(path, 0, 0));
    }
    if base.len() == 0 {
        assert(path@.len() > 0) by {
            if path@.len() == 0 {
                assert(path@ =~= base@);
            }
        }
        if path[0] == 0x2f {
            return None;
        }
        return Some(path);
    }
    if !starts_with_at(path, base, 0) {
        return None;
    }
    if base[base.len() - 1] == 0x2f {
        return Some(vstd::slice::slice_subrange(path, base.len(), path.len()));
    }
    if path.len() > base.len() && path[base.len()] == 0x2f {
        return Some(vstd::slice::slice_subrange(path, base.len() + 1, path.len()));
    }
    None
}

} // verus!
