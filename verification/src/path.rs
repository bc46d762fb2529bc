//! Paths as text, with `/` between their components.
//!
//! The library never touches the file system. It takes and gives paths as
//! strings and works out from them which path comes next.

use crate::text::catenate;
use vstd::prelude::*;

verus! {

/// The character that stands between two components of a path.
pub open spec fn separator() -> char {
    '/'
}

/// A path that starts at the root of the file system.
pub open spec fn is_absolute(path: Seq<char>) -> bool {
    path.len() > 0 && path[0] == separator()
}

/// A single component of a path: a name that is not empty, holds no separator
/// and is neither `.` nor `..`. Joined to a directory, a component is a place
/// in that directory and nowhere else.
pub open spec fn is_component(name: Seq<char>) -> bool {
    &&& name.len() > 0
    &&& forall|i: int| 0 <= i < name.len() ==> name[i] != separator()
    &&& name != seq!['.']
    &&& name != seq!['.', '.']
}

/// The path `rel` as seen from `base`: `rel` itself where it is absolute or
/// `base` is empty, else `base`, one separator unless `base` ends with one, and
/// `rel`.
pub open spec fn joined(base: Seq<char>, rel: Seq<char>) -> Seq<char> {
    if is_absolute(rel) || base.len() == 0 {
        rel
    } else if base.last() == separator() {
        base + rel
    } else {
        base + seq![separator()] + rel
    }
}

/// The length of `path` without the separators at its end.
pub open spec fn trimmed_len(path: Seq<char>) -> nat
    decreases path.len(),
{
    if path.len() > 0 && path.last() == separator() {
        trimmed_len(path.drop_last())
    } else {
        path.len()
    }
}

/// The position of the last separator among the first `end` characters of
/// `path`, or -1 where there is none.
pub open spec fn last_separator(path: Seq<char>, end: int) -> int
    decreases end,
{
    if end <= 0 || end > path.len() {
        -1
    } else if path[end - 1] == separator() {
        end - 1
    } else {
        last_separator(path, end - 1)
    }
}

/// The directory that holds `path`: the path without its last component and
/// without the separators before it. A single name lies in the empty path,
/// which stands for the current directory. The root and the empty path lie in
/// nothing.
///
/// The path is taken as text. The components `.` and `..` are names like any
/// other: the parent of `/a/.` is `/a` and that of `/a/..` is `/a`, whatever
/// these paths lead to on a file system.
pub open spec fn parent(path: Seq<char>) -> Option<Seq<char>> {
    let end = trimmed_len(path);
    if end == 0 {
        None
    } else {
        let cut = last_separator(path, end as int);
        if cut < 0 {
            Some(Seq::empty())
        } else {
            let keep = trimmed_len(path.subrange(0, cut));
            if keep == 0 {
                Some(seq![separator()])
            } else {
                Some(path.subrange(0, keep as int))
            }
        }
    }
}

/// The trimmed length is at most the length, and the character before it is
/// no separator.
pub proof fn lemma_trimmed_len(path: Seq<char>)
    ensures
        trimmed_len(path) <= path.len(),
        trimmed_len(path) > 0 ==> path[trimmed_len(path) - 1] != separator(),
        forall|i: int| trimmed_len(path) <= i < path.len() ==> path[i] == separator(),
    decreases path.len(),
{
    if path.len() > 0 && path.last() == separator() {
        let rest = path.drop_last();
        lemma_trimmed_len(rest);
        assert forall|i: int| trimmed_len(path) <= i < path.len() implies path[i]
            == separator() by {
            if i < rest.len() {
                assert(rest[i] == path[i]);
            }
        }
    }
}

/// The last separator lies before `end`.
pub proof fn lemma_last_separator(path: Seq<char>, end: int)
    requires
        0 <= end <= path.len(),
    ensures
        -1 <= last_separator(path, end) < end,
        last_separator(path, end) >= 0 ==> path[last_separator(path, end)] == separator(),
        forall|i: int| last_separator(path, end) < i < end ==> path[i] != separator(),
    decreases end,
{
    if end > 0 && path[end - 1] != separator() {
        lemma_last_separator(path, end - 1);
    }
}

/// A parent is shorter than its child, so that going from parent to parent
/// comes to an end.
pub proof fn lemma_parent_is_shorter(path: Seq<char>)
    ensures
        parent(path) is Some ==> parent(path)->0.len() < path.len(),
{
    lemma_trimmed_len(path);
    let end = trimmed_len(path);
    if end > 0 {
        lemma_last_separator(path, end as int);
        let cut = last_separator(path, end as int);
        if cut >= 0 {
            lemma_trimmed_len(path.subrange(0, cut));
        }
    }
}

/// Whether `name` is a single component of a path.
pub fn is_component_name(name: &str) -> (r: bool)
    ensures
        r == is_component(name@),
{
    let chars = crate::text::chars_of(name);
    let n: usize = chars.len();
    if n == 0 {
        return false;
    }
    if chars[0] == '.' && (n == 1 || (n == 2 && chars[1] == '.')) {
        proof {
            if n == 1 {
                assert(name@ =~= seq!['.']);
            } else {
                assert(name@ =~= seq!['.', '.']);
            }
        }
        return false;
    }
    let mut i: usize = 0;
    while i < n
        invariant
            n == chars.len(),
            chars@ == name@,
            i <= n,
            forall|j: int| 0 <= j < i ==> name@[j] != separator(),
        decreases n - i,
    {
        if chars[i] == '/' {
            return false;
        }
        i += 1;
    }
    true
}

/// The path `rel` as seen from `base`.
pub fn join(base: &str, rel: &str) -> (path: String)
    ensures
        path@ == joined(base@, rel@),
{
    let n: usize = base.unicode_len();
    let m: usize = rel.unicode_len();
    if n == 0 || (m > 0 && rel.get_char(0) == '/') {
        rel.to_owned()
    } else if base.get_char(n - 1) == '/' {
        catenate(base, rel)
    } else {
        proof {
            reveal_strlit("/");
            assert("/"@ =~= seq![separator()]);
        }
        let head = catenate(base, "/");
        catenate(head.as_str(), rel)
    }
}

/// The directory that holds `path`, as [`parent`] defines it.
pub fn parent_dir(path: &str) -> (dir: Option<String>)
    ensures
        dir is Some == parent(path@) is Some,
        dir is Some ==> dir->0@ == parent(path@)->0,
{
    let chars = crate::text::chars_of(path);
    let end = trim_end(&chars, chars.len());
    assert(chars@.subrange(0, chars.len() as int) =~= path@);
    if end == 0 {
        return None;
    }
    let mut cut: usize = end;
    while cut > 0 && chars[cut - 1] != '/'
        invariant
            cut <= end <= chars.len(),
            last_separator(chars@, end as int) == last_separator(chars@, cut as int),
        decreases cut,
    {
        cut -= 1;
    }
    if cut == 0 {
        assert(last_separator(path@, end as int) == -1);
        return Some(String::new());
    }
    assert(last_separator(path@, end as int) == cut - 1);
    let keep = trim_end(&chars, cut - 1);
    assert(chars@.subrange(0, cut - 1).subrange(0, keep as int) =~= chars@.subrange(
        0,
        keep as int,
    ));
    if keep == 0 {
        proof {
            reveal_strlit("/");
            assert("/"@ =~= seq![separator()]);
        }
        Some("/".to_owned())
    } else {
        Some(path.substring_char(0, keep).to_owned())
    }
}

/// The length of the first `len` characters of `chars` without the separators
/// at their end.
fn trim_end(chars: &Vec<char>, len: usize) -> (end: usize)
    requires
        len <= chars.len(),
    ensures
        end == trimmed_len(chars@.subrange(0, len as int)),
        end <= len,
{
    let mut end: usize = len;
    while end > 0 && chars[end - 1] == '/'
        invariant
            end <= len <= chars.len(),
            trimmed_len(chars@.subrange(0, len as int)) == trimmed_len(
                chars@.subrange(0, end as int),
            ),
        decreases end,
    {
        assert(chars@.subrange(0, end as int).drop_last() =~= chars@.subrange(0, end - 1));
        end -= 1;
    }
    end
}

} // verus!
