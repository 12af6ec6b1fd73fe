//! Paths as Unix writes them: the directory a file stands in, and its extension.

use vstd::prelude::*;
use vstd::string::*;
use crate::text;

verus! {

/// `s` without the separators and the `.` components that it ends with; the
/// separator that a path starts with stays.
pub open spec fn without_tail(s: Seq<char>) -> Seq<char>
    decreases s.len(),
{
    if s.len() > 1 && s.last() == '/' {
        without_tail(s.drop_last())
    } else if s.len() > 1 && s.last() == '.' && s[s.len() - 2] == '/' {
        without_tail(s.drop_last())
    } else {
        s
    }
}

/// How many characters of `s` there are up to and with its last `c`.
pub open spec fn through_last(s: Seq<char>, c: char) -> nat
    decreases s.len(),
{
    if s.len() == 0 || s.last() == c {
        s.len()
    } else {
        through_last(s.drop_last(), c)
    }
}

/// The last component of a path, as written.
pub open spec fn last_component(s: Seq<char>) -> Seq<char> {
    let t = without_tail(s);
    t.skip(through_last(t, '/') as int)
}

/// The file that a path names: its last component, unless that is empty, `.` or `..`.
pub open spec fn file_name(s: Seq<char>) -> Option<Seq<char>> {
    let name = last_component(s);
    if name.len() == 0 || name == "."@ || name == ".."@ {
        None
    } else {
        Some(name)
    }
}

/// What follows the last dot of the file name, if a dot stands there and not at
/// the start alone.
pub open spec fn extension(s: Seq<char>) -> Option<Seq<char>> {
    match file_name(s) {
        None => None,
        Some(name) => {
            let n = through_last(name, '.');
            if n <= 1 {
                None
            } else {
                Some(name.skip(n as int))
            }
        },
    }
}

/// The path without its last component, if it has one.
pub open spec fn parent(s: Seq<char>) -> Option<Seq<char>> {
    let t = without_tail(s);
    if last_component(s).len() == 0 {
        None
    } else {
        Some(without_tail(t.take(through_last(t, '/') as int)))
    }
}

/// The length of [`without_tail`] of `v[..len]`.
fn tail_start(v: &Vec<char>, len: usize) -> (r: usize)
    requires
        len <= v@.len(),
    ensures
        r <= len,
        without_tail(v@.take(len as int)) == v@.take(r as int),
{
    let mut n: usize = len;
    while n > 1 && (v[n - 1] == '/' || (v[n - 1] == '.' && v[n - 2] == '/'))
        invariant
            n <= len <= v@.len(),
            without_tail(v@.take(len as int)) == without_tail(v@.take(n as int)),
        decreases n,
    {
        assert(v@.take(n as int).drop_last() =~= v@.take(n - 1));
        n -= 1;
    }
    n
}

/// [`through_last`] of `v[..len]`.
fn end_of_last(v: &Vec<char>, len: usize, c: char) -> (r: usize)
    requires
        len <= v@.len(),
    ensures
        r == through_last(v@.take(len as int), c),
        r <= len,
{
    let mut n: usize = len;
    while n > 0 && v[n - 1] != c
        invariant
            n <= len <= v@.len(),
            through_last(v@.take(len as int), c) == through_last(v@.take(n as int), c),
        decreases n,
    {
        assert(v@.take(n as int).drop_last() =~= v@.take(n - 1));
        n -= 1;
    }
    n
}

/// The extension of the file that a path names.
pub fn extension_of(path: &str) -> (r: Option<String>)
    ensures
        match r {
            Some(e) => extension(path@) == Some(e@),
            None => extension(path@) is None,
        },
{
    let v = text::chars_of(path);
    assert(v@.take(v@.len() as int) =~= v@);
    let end = tail_start(&v, v.len());
    let start = end_of_last(&v, end, '/');
    let name = text::text_of(&v, start, end);
    assert(name@ =~= v@.take(end as int).skip(start as int));
    if name.as_str().is_empty() || text::same_text(name.as_str(), ".") || text::same_text(
        name.as_str(),
        "..",
    ) {
        return None;
    }
    let w = text::chars_of(name.as_str());
    assert(w@.take(w@.len() as int) =~= w@);
    let n = end_of_last(&w, w.len(), '.');
    if n <= 1 {
        None
    } else {
        let e = text::text_of(&w, n, w.len());
        assert(e@ =~= w@.skip(n as int));
        Some(e)
    }
}

/// The directory that holds `path`, or the current one if `path` has no last component.
pub fn parent_or_current(path: &str) -> (r: String)
    ensures
        r@ == match parent(path@) {
            Some(p) => p,
            None => "."@,
        },
{
    let v = text::chars_of(path);
    assert(v@.take(v@.len() as int) =~= v@);
    let end = tail_start(&v, v.len());
    let start = end_of_last(&v, end, '/');
    let ghost t = v@.take(end as int);
    assert(last_component(path@) == t.skip(start as int));
    if start == end {
        return ".".to_string();
    }
    assert(t.take(start as int) =~= v@.take(start as int));
    let head = tail_start(&v, start);
    let r = text::text_of(&v, 0, head);
    assert(r@ =~= v@.take(head as int));
    r
}

} // verus!
