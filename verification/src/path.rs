//! File paths as text, with `/` between their parts.
use vstd::prelude::*;

use crate::text::{chars_of, pieces, same_list, same_str, split, texts};

verus! {

/// `name` within the directory `dir`; an absolute `name` stands alone.
pub open spec fn path_joined(dir: Seq<char>, name: Seq<char>) -> Seq<char> {
    if name.len() > 0 && name[0] == '/' {
        name
    } else if dir.len() == 0 || dir.last() == '/' {
        dir + name
    } else {
        dir.push('/') + name
    }
}

/// `name` within the directory `dir`; an absolute `name` stands alone.
pub fn join_path(dir: &str, name: &str) -> (r: String)
    ensures
        r@ == path_joined(dir@, name@),
{
    let dir_chars = chars_of(dir);
    let name_chars = chars_of(name);
    if name_chars.len() > 0 && name_chars[0] == '/' {
        return name.to_string();
    }
    let mut out: String = dir.to_string();
    if dir_chars.len() > 0 && dir_chars[dir_chars.len() - 1] != '/' {
        out.push('/');
    }
    out.append(name);
    out
}

/// Whether a part of a path names something: it is neither empty nor `.`.
pub open spec fn names_something(part: Seq<char>) -> bool {
    part.len() > 0 && part != "."@
}

/// The last of the parts that names something.
pub open spec fn last_name(parts: Seq<Seq<char>>) -> Option<Seq<char>>
    decreases parts.len(),
{
    if parts.len() == 0 {
        None
    } else if names_something(parts.last()) {
        Some(parts.last())
    } else {
        last_name(parts.drop_last())
    }
}

/// The file name at the end of a path; empty where the path ends in `..` or names nothing.
pub open spec fn file_name_of(path: Seq<char>) -> Seq<char> {
    match last_name(pieces(path, '/')) {
        Some(name) => if name == ".."@ {
            Seq::empty()
        } else {
            name
        },
        None => Seq::empty(),
    }
}

/// The file name at the end of a path; empty where the path ends in `..` or names nothing.
pub fn file_name(path: &str) -> (r: String)
    ensures
        r@ == file_name_of(path@),
{
    let parts = split(path, '/');
    let ghost all = texts(parts@);
    let mut n: usize = parts.len();
    assert(all.take(all.len() as int) =~= all);
    while n > 0
        invariant
            n <= parts@.len(),
            all == texts(parts@),
            all == pieces(path@, '/'),
            last_name(all) == last_name(all.take(n as int)),
        decreases n,
    {
        assert(all.take(n as int).drop_last() =~= all.take(n - 1));
        let part = parts[n - 1].as_str();
        if !part.is_empty() && !same_str(part, ".") {
            return if same_str(part, "..") {
                String::new()
            } else {
                part.to_string()
            };
        }
        n = n - 1;
    }
    String::new()
}

/// Whether a path starts at the root.
pub open spec fn rooted(path: Seq<char>) -> bool {
    path.len() > 0 && path[0] == '/'
}

/// The parts that count: those that name something, and a `.` at the very start.
pub open spec fn counting(parts: Seq<Seq<char>>) -> Seq<Seq<char>>
    decreases parts.len(),
{
    if parts.len() == 0 {
        parts
    } else {
        let before = counting(parts.drop_last());
        if names_something(parts.last()) || parts.len() == 1 && parts[0].len() > 0 {
            before.push(parts.last())
        } else {
            before
        }
    }
}

/// Whether two paths are the same but for repeated or trailing slashes and for `.` within them.
pub open spec fn same_path_text(a: Seq<char>, b: Seq<char>) -> bool {
    &&& rooted(a) == rooted(b)
    &&& counting(pieces(a, '/')) == counting(pieces(b, '/'))
}

fn is_rooted(path: &str) -> (r: bool)
    ensures
        r == rooted(path@),
{
    let chars = chars_of(path);
    chars.len() > 0 && chars[0] == '/'
}

fn counting_parts(path: &str) -> (r: Vec<String>)
    ensures
        texts(r@) == counting(pieces(path@, '/')),
{
    let parts = split(path, '/');
    let ghost all = texts(parts@);
    let mut out: Vec<String> = Vec::new();
    assert(texts(out@) =~= counting(all.take(0)));
    for i in 0..parts.len()
        invariant
            all == texts(parts@),
            texts(out@) == counting(all.take(i as int)),
    {
        assert(all.take(i + 1).drop_last() =~= all.take(i as int));
        let part = parts[i].as_str();
        if !part.is_empty() && (i == 0 || !same_str(part, ".")) {
            let ghost was = out@;
            out.push(part.to_string());
            assert(texts(out@) =~= texts(was).push(part@));
        }
    }
    assert(all.take(all.len() as int) =~= all);
    out
}

/// Whether two paths are the same but for repeated or trailing slashes and for `.` within them.
pub fn same_path(a: &str, b: &str) -> (r: bool)
    ensures
        r == same_path_text(a@, b@),
{
    is_rooted(a) == is_rooted(b) && same_list(&counting_parts(a), &counting_parts(b))
}

} // verus!
