//! Paths as text. A path is a sequence of characters in which `/` separates
//! the segments; nothing here looks at a disk.

use crate::text::{begins_with, slice, to_chars};
use vstd::prelude::*;

verus! {

/// `rel` under the directory `base`: `rel` itself when it starts at the root,
/// else `base`, one separator unless `base` is empty or ends with one, and
/// `rel`.
pub open spec fn join(base: Seq<char>, rel: Seq<char>) -> Seq<char> {
    if rel.len() > 0 && rel[0] == '/' {
        rel
    } else if base.len() == 0 || base.last() == '/' {
        base + rel
    } else {
        base + seq!['/'] + rel
    }
}

/// The last position of `c` in `s`.
pub open spec fn last_index_of(s: Seq<char>, c: char) -> Option<int>
    decreases s.len(),
{
    if s.len() == 0 {
        None
    } else if s.last() == c {
        Some(s.len() - 1)
    } else {
        last_index_of(s.drop_last(), c)
    }
}

/// What follows the last separator of `path`; all of `path` if it has none.
pub open spec fn final_segment(path: Seq<char>) -> Seq<char> {
    match last_index_of(path, '/') {
        Some(i) => path.skip(i + 1),
        None => path,
    }
}

/// The name of the file or directory that `path` leads to: its last segment
/// that is neither empty nor `.`, unless that segment is `..`.
pub open spec fn file_name(path: Seq<char>) -> Option<Seq<char>>
    decreases path.len(),
{
    if path.len() == 0 {
        None
    } else {
        let segment = final_segment(path);
        if segment.len() == 0 || segment == seq!['.'] {
            file_name(path.drop_last())
        } else if segment == seq!['.', '.'] {
            None
        } else {
            Some(segment)
        }
    }
}

/// A file name without its extension: what stands before the last dot, or the
/// whole name when it has no dot or only a leading one.
pub open spec fn stem_of(name: Seq<char>) -> Seq<char> {
    match last_index_of(name, '.') {
        Some(i) => if i == 0 {
            name
        } else {
            name.take(i)
        },
        None => name,
    }
}

/// The extension of a file name: what follows the last dot, if the name has
/// one that is not its first character.
pub open spec fn extension_of(name: Seq<char>) -> Option<Seq<char>> {
    match last_index_of(name, '.') {
        Some(i) => if i == 0 {
            None
        } else {
            Some(name.skip(i + 1))
        },
        None => None,
    }
}

/// The file name of `path` without its extension.
pub open spec fn file_stem(path: Seq<char>) -> Option<Seq<char>> {
    match file_name(path) {
        Some(name) => Some(stem_of(name)),
        None => None,
    }
}

/// The extension of the file name of `path`.
pub open spec fn extension(path: Seq<char>) -> Option<Seq<char>> {
    match file_name(path) {
        Some(name) => extension_of(name),
        None => None,
    }
}

/// The extension of a markdown file.
pub open spec fn md() -> Seq<char> {
    seq!['m', 'd']
}

/// Whether `path` names a markdown file: its extension is exactly `md`.
pub open spec fn is_markdown(path: Seq<char>) -> bool {
    extension(path) == Some(md())
}

/// `s` without the separators at its end.
pub open spec fn without_trailing_separators(s: Seq<char>) -> Seq<char>
    decreases s.len(),
{
    if s.len() > 0 && s.last() == '/' {
        without_trailing_separators(s.drop_last())
    } else {
        s
    }
}

/// `s` without the separators at its start.
pub open spec fn without_leading_separators(s: Seq<char>) -> Seq<char>
    decreases s.len(),
{
    if s.len() > 0 && s[0] == '/' {
        without_leading_separators(s.drop_first())
    } else {
        s
    }
}

/// `path` as seen from the directory `base`, if it lies in it.
///
/// Every path lies in the empty base and is its own relative path. Otherwise
/// `path` must begin with `base` (taken without the separators at its end),
/// and either end there or go on with a separator; the relative path is what
/// follows, without the separators at its start.
pub open spec fn relative_to(path: Seq<char>, base: Seq<char>) -> Option<Seq<char>> {
    if base.len() == 0 {
        Some(path)
    } else {
        let b = without_trailing_separators(base);
        if b.is_prefix_of(path) {
            let rest = path.skip(b.len() as int);
            if rest.len() == 0 || rest[0] == '/' {
                Some(without_leading_separators(rest))
            } else {
                None
            }
        } else {
            None
        }
    }
}

/// `without_trailing_separators` removes a run of separators from the end,
/// and all of it.
pub proof fn lemma_without_trailing_separators(s: Seq<char>)
    ensures
        ({
            let t = without_trailing_separators(s);
            &&& t.len() <= s.len()
            &&& t == s.take(t.len() as int)
            &&& forall|j: int| t.len() <= j < s.len() ==> s[j] == '/'
            &&& t.len() > 0 ==> t.last() != '/'
        }),
    decreases s.len(),
{
    if s.len() > 0 && s.last() == '/' {
        let r = s.drop_last();
        lemma_without_trailing_separators(r);
        let t = without_trailing_separators(r);
        assert(r.take(t.len() as int) == s.take(t.len() as int));
        assert forall|j: int| t.len() <= j < s.len() implies s[j] == '/' by {
            if j < r.len() {
                assert(s[j] == r[j]);
            }
        }
    } else {
        assert(s.take(s.len() as int) == s);
    }
}

/// Law. A path that stands under a directory is found again from it: for a
/// base that is not empty and a relative path that does not start with a
/// separator, `relative_to(join(base, rel), base)` is `rel`.
pub proof fn lemma_relative_of_joined(base: Seq<char>, rel: Seq<char>)
    requires
        base.len() > 0,
        rel.len() == 0 || rel[0] != '/',
    ensures
        relative_to(join(base, rel), base) == Some(rel),
{
    let path = join(base, rel);
    let b = without_trailing_separators(base);
    lemma_without_trailing_separators(base);
    let n = b.len() as int;
    let k = base.len() - n;
    if base.last() == '/' {
        assert(path == base + rel);
        assert(n < base.len());
        let rest = path.skip(n);
        assert(path.subrange(0, n) == b);
        assert(rest.len() == k + rel.len());
        assert(rest.skip(k) == rel);
        assert forall|j: int| 0 <= j < k implies rest[j] == '/' by {
            assert(rest[j] == base[n + j]);
        }
        assert(rest[0] == '/');
        if k < rest.len() {
            assert(rest[k] == rel[0]);
        }
        lemma_leading_separators_are(rest, k);
    } else {
        assert(n == base.len());
        assert(b == base);
        assert(path == base + seq!['/'] + rel);
        let rest = path.skip(n);
        assert(path.subrange(0, n) == b);
        assert(rest.len() == 1 + rel.len());
        assert(rest.skip(1) == rel);
        assert(rest[0] == '/');
        if 1 < rest.len() {
            assert(rest[1] == rel[0]);
        }
        lemma_leading_separators_are(rest, 1);
    }
}

/// A run of separators followed by something else is what
/// `without_leading_separators` removes.
pub proof fn lemma_leading_separators_are(s: Seq<char>, k: int)
    requires
        0 <= k <= s.len(),
        forall|j: int| 0 <= j < k ==> s[j] == '/',
        k < s.len() ==> s[k] != '/',
    ensures
        without_leading_separators(s) == s.skip(k),
    decreases k,
{
    if k > 0 {
        let r = s.drop_first();
        assert forall|j: int| 0 <= j < k - 1 implies r[j] == '/' by {
            assert(r[j] == s[j + 1]);
        }
        lemma_leading_separators_are(r, k - 1);
        assert(r.skip(k - 1) == s.skip(k));
    } else {
        assert(s.skip(0) == s);
    }
}

/// The last position of `c` in `v` between `lo` and `hi`.
pub(crate) fn last_position(v: &Vec<char>, lo: usize, hi: usize, c: char) -> (r: Option<usize>)
    requires
        lo <= hi <= v.len(),
    ensures
        match r {
            Some(i) => lo <= i < hi && last_index_of(v@.subrange(lo as int, hi as int), c) == Some(
                i - lo,
            ),
            None => last_index_of(v@.subrange(lo as int, hi as int), c) is None,
        },
{
    let mut k: usize = hi;
    while k > lo
        invariant
            lo <= k <= hi <= v.len(),
            match last_index_of(v@.subrange(lo as int, k as int), c) {
                Some(i) => last_index_of(v@.subrange(lo as int, hi as int), c) == Some(i),
                None => last_index_of(v@.subrange(lo as int, hi as int), c) is None,
            },
        decreases k - lo,
    {
        proof {
            let s = v@.subrange(lo as int, k as int);
            assert(s.drop_last() == v@.subrange(lo as int, k - 1));
        }
        if v[k - 1] == c {
            return Some(k - 1);
        }
        k = k - 1;
    }
    None
}

/// Where the file name of the path `v` stands in it.
pub fn file_name_range(v: &Vec<char>) -> (r: Option<(usize, usize)>)
    ensures
        match r {
            Some((from, to)) => from < to <= v.len() && file_name(v@) == Some(
                v@.subrange(from as int, to as int),
            ),
            None => file_name(v@) is None,
        },
{
    let mut hi: usize = v.len();
    assert(v@.take(hi as int) == v@);
    while hi > 0
        invariant
            hi <= v.len(),
            file_name(v@.take(hi as int)) == file_name(v@),
        decreases hi,
    {
        let ghost p = v@.take(hi as int);
        let from: usize = match last_position(v, 0, hi, '/') {
            Some(i) => i + 1,
            None => 0,
        };
        assert(final_segment(p) == v@.subrange(from as int, hi as int));
        let ghost segment = v@.subrange(from as int, hi as int);
        if from == hi || (hi - from == 1 && v[from] == '.') {
            proof {
                if from < hi {
                    assert(segment == seq!['.']);
                }
                assert(p.drop_last() == v@.take(hi - 1));
            }
            hi = hi - 1;
        } else if hi - from == 2 && v[from] == '.' && v[from + 1] == '.' {
            assert(segment == seq!['.', '.']);
            return None;
        } else {
            proof {
                if segment == seq!['.'] {
                    assert(segment.len() == 1 && segment[0] == '.');
                }
            }
            return Some((from, hi));
        }
    }
    None
}

/// Where the stem of the file name that stands in `v` between `from` and `to`
/// ends.
pub(crate) fn stem_end(v: &Vec<char>, from: usize, to: usize) -> (r: usize)
    requires
        from <= to <= v.len(),
    ensures
        from <= r <= to,
        v@.subrange(from as int, r as int) == stem_of(v@.subrange(from as int, to as int)),
{
    let ghost name = v@.subrange(from as int, to as int);
    match last_position(v, from, to, '.') {
        Some(i) => {
            if i == from {
                to
            } else {
                i
            }
        },
        None => to,
    }
}

/// Where the extension of the file name that stands in `v` between `from` and
/// `to` starts, if the name has one.
pub(crate) fn extension_start(v: &Vec<char>, from: usize, to: usize) -> (r: Option<usize>)
    requires
        from <= to <= v.len(),
    ensures
        match r {
            Some(k) => from < k <= to && extension_of(v@.subrange(from as int, to as int)) == Some(
                v@.subrange(k as int, to as int),
            ),
            None => extension_of(v@.subrange(from as int, to as int)) is None,
        },
{
    match last_position(v, from, to, '.') {
        Some(i) => {
            if i == from {
                None
            } else {
                Some(i + 1)
            }
        },
        None => None,
    }
}

/// Whether the path `v` names a markdown file.
pub fn names_markdown(v: &Vec<char>) -> (b: bool)
    ensures
        b == is_markdown(v@),
{
    match file_name_range(v) {
        Some((from, to)) => {
            match extension_start(v, from, to) {
                Some(k) => {
                    let ghost ext = v@.subrange(k as int, to as int);
                    let b = to - k == 2 && v[k] == 'm' && v[k + 1] == 'd';
                    proof {
                        if b {
                            assert(ext == md());
                        } else if ext == md() {
                            assert(ext.len() == 2 && ext[0] == 'm' && ext[1] == 'd');
                        }
                    }
                    b
                },
                None => false,
            }
        },
        None => false,
    }
}

/// The path of `rel` under the directory `base`.
pub fn join_path(base: &str, rel: &str) -> (r: String)
    ensures
        r@ == join(base@, rel@),
{
    let b = to_chars(base);
    let r = to_chars(rel);
    if r.len() > 0 && r[0] == '/' {
        rel.to_owned()
    } else if b.len() == 0 || b[b.len() - 1] == '/' {
        base.to_owned().concat(rel)
    } else {
        proof {
            reveal_strlit("/");
        }
        base.to_owned().concat("/").concat(rel)
    }
}

/// The file name of `path` without its extension.
pub fn file_stem_of(path: &str) -> (r: Option<String>)
    ensures
        match r {
            Some(s) => file_stem(path@) == Some(s@),
            None => file_stem(path@) is None,
        },
{
    let v = to_chars(path);
    match file_name_range(&v) {
        Some((from, to)) => {
            let end = stem_end(&v, from, to);
            Some(slice(path, from, end))
        },
        None => None,
    }
}

/// What follows the last separator of `path`.
pub fn final_segment_of(path: &str) -> (r: String)
    ensures
        r@ == final_segment(path@),
{
    let v = to_chars(path);
    assert(v@.subrange(0, v.len() as int) == v@);
    let from: usize = match last_position(&v, 0, v.len(), '/') {
        Some(i) => i + 1,
        None => 0,
    };
    slice(path, from, v.len())
}

/// The name of the file or directory that `path` leads to.
pub fn file_name_of(path: &str) -> (r: Option<String>)
    ensures
        match r {
            Some(s) => file_name(path@) == Some(s@),
            None => file_name(path@) is None,
        },
{
    let v = to_chars(path);
    match file_name_range(&v) {
        Some((from, to)) => Some(slice(path, from, to)),
        None => None,
    }
}

/// Whether `path` names a markdown file.
pub fn is_markdown_path(path: &str) -> (b: bool)
    ensures
        b == is_markdown(path@),
{
    let v = to_chars(path);
    names_markdown(&v)
}

/// The path of the file `file_path` as seen from the vault directory, if the
/// file lies in it.
pub fn get_relative_path(file_path: &str, vault_directory: &str) -> (r: Option<String>)
    ensures
        match r {
            Some(s) => relative_to(file_path@, vault_directory@) == Some(s@),
            None => relative_to(file_path@, vault_directory@) is None,
        },
{
    let path = to_chars(file_path);
    let mut base = to_chars(vault_directory);
    if base.len() == 0 {
        return Some(file_path.to_owned());
    }
    let ghost whole = base@;
    while base.len() > 0 && base[base.len() - 1] == '/'
        invariant
            without_trailing_separators(base@) == without_trailing_separators(whole),
        decreases base.len(),
    {
        base.truncate(base.len() - 1);
    }
    if !begins_with(&path, &base) {
        return None;
    }
    let mut k: usize = base.len();
    if k < path.len() && path[k] != '/' {
        return None;
    }
    let ghost rest = path@.skip(k as int);
    while k < path.len() && path[k] == '/'
        invariant
            base.len() <= k <= path.len(),
            rest == path@.skip(base.len() as int),
            without_leading_separators(path@.skip(k as int)) == without_leading_separators(rest),
        decreases path.len() - k,
    {
        proof {
            let s = path@.skip(k as int);
            assert(s.drop_first() == path@.skip(k + 1));
        }
        k = k + 1;
    }
    proof {
        let s = path@.skip(k as int);
    }
    Some(slice(file_path, k, path.len()))
}

} // verus!
