//! Joining a directory and a file name as `Path::join` does, and taking a
//! path's file name as `Path::file_name` does.
use vstd::prelude::*;
use crate::text::{chars_of, opt_view, string_of, views};
use crate::words::{extend, same, split, split_vec};

verus! {

/// `Path::join` of a directory and a name: an absolute name replaces the
/// directory, and a separator is put between them unless the directory is
/// empty or already ends in one.
pub open spec fn path_join(dir: Seq<char>, name: Seq<char>) -> Seq<char> {
    if name.len() > 0 && name[0] == '/' {
        name
    } else if dir.len() == 0 {
        name
    } else if dir.last() == '/' {
        dir + name
    } else {
        dir + "/"@ + name
    }
}

/// The path of `name` inside `dir`.
pub fn join_path(dir: &str, name: &str) -> (r: String)
    ensures
        r@ == path_join(dir@, name@),
{
    let d = chars_of(dir);
    let n = chars_of(name);
    if n.len() > 0 && n[0] == '/' {
        return string_of(n.as_slice());
    }
    if d.len() == 0 {
        return string_of(n.as_slice());
    }
    let mut v = d;
    if v[v.len() - 1] != '/' {
        extend(&mut v, chars_of("/").as_slice());
    }
    extend(&mut v, n.as_slice());
    string_of(v.as_slice())
}

/// The last component of a path split at its separators that is neither
/// empty nor `.`: what a path's components end with.
pub open spec fn last_part(parts: Seq<Seq<char>>) -> Option<Seq<char>>
    decreases parts.len(),
{
    if parts.len() == 0 {
        None
    } else if parts.last().len() == 0 || parts.last() == "."@ {
        last_part(parts.drop_last())
    } else {
        Some(parts.last())
    }
}

/// A path's file name, as `Path::file_name` gives it: its last component,
/// when that is a name, and none when the path is empty, the root, `.` or
/// ends in `..`.
pub open spec fn file_name_of(p: Seq<char>) -> Option<Seq<char>> {
    match last_part(split(p, '/')) {
        Some(n) => if n == ".."@ {
            None
        } else {
            Some(n)
        },
        None => None,
    }
}

/// The file name of a path.
pub fn file_name(p: &str) -> (r: Option<String>)
    ensures
        opt_view(r) == file_name_of(p@),
{
    let parts = split_vec(chars_of(p).as_slice(), '/');
    let ghost ps = views(parts@);
    let dot = chars_of(".");
    proof {
        reveal_strlit(".");
        reveal_strlit("..");
    }
    let mut i: usize = parts.len();
    assert(ps.take(i as int) =~= ps);
    while i > 0 && (parts[i - 1].len() == 0 || same(parts[i - 1].as_slice(), dot.as_slice()))
        invariant
            i <= parts@.len(),
            ps == views(parts@),
            dot@ == "."@,
            last_part(ps.take(i as int)) == last_part(ps),
        decreases i,
    {
        assert(ps.take(i as int).drop_last() =~= ps.take(i - 1));
        i -= 1;
    }
    if i == 0 {
        assert(ps.take(0) =~= Seq::<Seq<char>>::empty());
        return None;
    }
    let last = &parts[i - 1];
    assert(ps.take(i as int).last() == last@);
    if same(last.as_slice(), chars_of("..").as_slice()) {
        None
    } else {
        Some(string_of(last.as_slice()))
    }
}

} // verus!
