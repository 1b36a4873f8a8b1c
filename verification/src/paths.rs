//! File-name parsing of `/`-separated paths, as `std::path::Path` reads them
//! on Unix: the last component, its stem and its extension, and joining a
//! relative component onto a directory.

use vstd::prelude::*;

verus! {

/// Index of the last occurrence of `c` in `s`, or -1 when there is none.
pub open spec fn last_index_of(s: Seq<char>, c: char) -> int
    decreases s.len(),
{
    if s.len() == 0 {
        -1
    } else if s.last() == c {
        s.len() - 1
    } else {
        last_index_of(s.drop_last(), c)
    }
}

/// `last_index_of` finds the last occurrence, or reports that there is none.
pub proof fn lemma_last_index_of(s: Seq<char>, c: char)
    ensures
        -1 <= last_index_of(s, c) < s.len(),
        last_index_of(s, c) >= 0 ==> s[last_index_of(s, c)] == c,
        forall|j: int| last_index_of(s, c) < j < s.len() ==> s[j] != c,
    decreases s.len(),
{
    if s.len() > 0 && s.last() != c {
        let t = s.drop_last();
        lemma_last_index_of(t, c);
        assert forall|j: int| last_index_of(s, c) < j < s.len() implies s[j] != c by {
            if j < s.len() - 1 {
                assert(s[j] == t[j]);
            }
        }
    }
}

/// Index of the first occurrence of `c` in `s`, or -1 when there is none.
pub open spec fn first_index_of(s: Seq<char>, c: char) -> int
    decreases s.len(),
{
    if s.len() == 0 {
        -1
    } else if s[0] == c {
        0
    } else {
        let r = first_index_of(s.drop_first(), c);
        if r < 0 {
            -1
        } else {
            r + 1
        }
    }
}

/// `first_index_of` finds the first occurrence, or reports that there is none.
pub proof fn lemma_first_index_of(s: Seq<char>, c: char)
    ensures
        -1 <= first_index_of(s, c) < s.len(),
        first_index_of(s, c) >= 0 ==> s[first_index_of(s, c)] == c,
        forall|j: int|
            0 <= j < s.len() && (first_index_of(s, c) == -1 || j < first_index_of(s, c)) ==> s[j]
                != c,
    decreases s.len(),
{
    if s.len() > 0 && s[0] != c {
        let t = s.drop_first();
        lemma_first_index_of(t, c);
        assert forall|j: int|
            0 <= j < s.len() && (first_index_of(s, c) == -1 || j < first_index_of(s, c)) implies s[j]
            != c by {
            if j > 0 {
                assert(s[j] == t[j - 1]);
            }
        }
    }
}

/// The last component of a path, as the text of its final `Normal`, `..` or
/// empty when the path has no such component (`""`, `"/"`, `"."`, `"./"`).
/// Trailing separators and `.` components are skipped.
pub open spec fn last_component(s: Seq<char>) -> Seq<char>
    decreases s.len(),
{
    if s.len() == 0 {
        s
    } else if s.last() == '/' {
        last_component(s.drop_last())
    } else {
        let k = last_index_of(s, '/') + 1;
        if s.skip(k) == seq!['.'] {
            if k == 0 {
                Seq::empty()
            } else {
                proof {
                    lemma_last_index_of(s, '/');
                }
                last_component(s.take(k))
            }
        } else {
            s.skip(k)
        }
    }
}

/// The final component of a path when it is a normal file or directory name
/// (`Path::file_name`).
pub open spec fn file_name(path: Seq<char>) -> Option<Seq<char>> {
    let c = last_component(path);
    if c.len() == 0 || c == seq!['.', '.'] {
        None
    } else {
        Some(c)
    }
}

/// The part of a file name before its last `.`; the whole name when it has no
/// `.` or its only dot is the first character.
pub open spec fn stem_of(name: Seq<char>) -> Seq<char> {
    let k = last_index_of(name, '.');
    if k <= 0 {
        name
    } else {
        name.take(k)
    }
}

/// The part of a file name after its last `.`, when there is a `.` that is
/// not the first character.
pub open spec fn extension_of(name: Seq<char>) -> Option<Seq<char>> {
    let k = last_index_of(name, '.');
    if k <= 0 {
        None
    } else {
        Some(name.skip(k + 1))
    }
}

/// `Path::file_stem`.
pub open spec fn file_stem(path: Seq<char>) -> Option<Seq<char>> {
    match file_name(path) {
        Some(n) => Some(stem_of(n)),
        None => None,
    }
}

/// `Path::extension`.
pub open spec fn extension(path: Seq<char>) -> Option<Seq<char>> {
    match file_name(path) {
        Some(n) => extension_of(n),
        None => None,
    }
}

/// `base` joined with the relative path `rel` (`Path::join` on Unix).
pub open spec fn joined(base: Seq<char>, rel: Seq<char>) -> Seq<char> {
    if base.len() == 0 || base.last() == '/' {
        base + rel
    } else {
        base + seq!['/'] + rel
    }
}

/// Index of the last `c` in `cs[0..end]`, if any.
fn find_last(cs: &Vec<char>, end: usize, c: char) -> (r: Option<usize>)
    requires
        end <= cs.len(),
    ensures
        match r {
            Some(k) => k == last_index_of(cs@.take(end as int), c),
            None => last_index_of(cs@.take(end as int), c) == -1,
        },
{
    let mut k: usize = end;
    while k > 0
        invariant
            k <= end <= cs.len(),
            last_index_of(cs@.take(end as int), c) == last_index_of(cs@.take(k as int), c),
        decreases k,
    {
        if cs[k - 1] == c {
            return Some(k - 1);
        }
        assert(cs@.take(k as int).drop_last() =~= cs@.take(k - 1));
        k = k - 1;
    }
    None
}

/// The bounds `(start, end)` of the last component of the path `cs`, with
/// `start == end` when there is none.
fn last_component_range(cs: &Vec<char>) -> (r: (usize, usize))
    ensures
        r.0 <= r.1 <= cs.len(),
        cs@.subrange(r.0 as int, r.1 as int) == last_component(cs@),
{
    let mut end: usize = cs.len();
    assert(cs@.take(end as int) =~= cs@);
    loop
        invariant
            end <= cs.len(),
            last_component(cs@.take(end as int)) == last_component(cs@),
        decreases end,
    {
        let ghost s = cs@.take(end as int);
        if end == 0 {
            assert(cs@.subrange(0, 0) =~= last_component(cs@));
            return (0, 0);
        }
        if cs[end - 1] == '/' {
            assert(s.drop_last() =~= cs@.take(end - 1));
            end = end - 1;
        } else {
            let j = find_last(cs, end, '/');
            proof {
                lemma_last_index_of(s, '/');
            }
            let k: usize = match j {
                Some(j) => j + 1,
                None => 0,
            };
            let ghost seg = s.skip(k as int);
            assert(seg =~= cs@.subrange(k as int, end as int));
            if end - k == 1 && cs[k] == '.' {
                assert(seg =~= seq!['.']);
                if k == 0 {
                    assert(cs@.subrange(0, 0) =~= last_component(cs@));
                    return (0, 0);
                }
                assert(s.take(k as int) =~= cs@.take(k as int));
                end = k;
            } else {
                assert(seg != seq!['.']) by {
                    if end - k == 1 {
                        assert(seg[0] == cs@[k as int]);
                    }
                }
                return (k, end);
            }
        }
    }
}

/// The file name of `path` (`Path::file_name`).
pub fn path_file_name(path: &Vec<char>) -> (r: Option<Vec<char>>)
    ensures
        match r {
            Some(n) => file_name(path@) == Some(n@) && n@.len() <= path@.len(),
            None => file_name(path@) is None,
        },
{
    let (start, end) = last_component_range(path);
    if start == end {
        return None;
    }
    if end - start == 2 && path[start] == '.' && path[start + 1] == '.' {
        assert(path@.subrange(start as int, end as int) =~= seq!['.', '.']);
        return None;
    }
    let n = crate::text::slice_chars(path, start, end);
    assert(n@ != seq!['.', '.']) by {
        if n@.len() == 2 {
            assert(n@[0] == path@[start as int]);
            assert(n@[1] == path@[start + 1]);
        }
    }
    Some(n)
}

/// The file stem of `path` (`Path::file_stem`).
pub fn path_file_stem(path: &Vec<char>) -> (r: Option<Vec<char>>)
    ensures
        match r {
            Some(n) => file_stem(path@) == Some(n@),
            None => file_stem(path@) is None,
        },
{
    match path_file_name(path) {
        None => None,
        Some(name) => {
            let k = find_last(&name, name.len(), '.');
            assert(name@.take(name.len() as int) =~= name@);
            proof {
                lemma_last_index_of(name@, '.');
            }
            match k {
                Some(k) if k > 0 => {
                    let stem = crate::text::slice_chars(&name, 0, k);
                    assert(stem@ =~= name@.take(k as int));
                    Some(stem)
                },
                _ => Some(name),
            }
        },
    }
}

/// The extension of `path` (`Path::extension`).
pub fn path_extension(path: &Vec<char>) -> (r: Option<Vec<char>>)
    ensures
        match r {
            Some(e) => extension(path@) == Some(e@),
            None => extension(path@) is None,
        },
{
    match path_file_name(path) {
        None => None,
        Some(name) => {
            let k = find_last(&name, name.len(), '.');
            assert(name@.take(name.len() as int) =~= name@);
            proof {
                lemma_last_index_of(name@, '.');
            }
            match k {
                Some(k) if k > 0 => {
                    let ext = crate::text::slice_chars(&name, k + 1, name.len());
                    assert(ext@ =~= name@.skip(k + 1));
                    Some(ext)
                },
                _ => None,
            }
        },
    }
}

/// `base` joined with the relative path `rel` (`Path::join` on Unix).
pub fn join_path(base: &str, rel: &str) -> (r: String)
    ensures
        r@ == joined(base@, rel@),
{
    let cs = crate::text::chars_of(base);
    let mut r = crate::text::string_of(&cs);
    if cs.len() > 0 && cs[cs.len() - 1] != '/' {
        crate::text::push_char(&mut r, '/');
    }
    crate::text::push_str(&mut r, rel);
    r
}

} // verus!
