//! Reading the small text files the kernel publishes about a process: when it
//! started, who its parent is, and which user unit it runs under.
use vstd::prelude::*;
use crate::text::{chars_of, string_of, views};
use crate::words::{
    contains, contains_vec, ends_with, ends_with_vec, lines, lines_vec, slice_vec, split,
    split_vec, starts_with, starts_with_vec, trim, trim_vec, words, words_vec, lemma_split_nonempty,
    extend, join, join_vec,
};
use crate::numbers::{nat_chars, nat_text, parse_u32, parse_u32_spec, parse_u64, parse_u64_spec};
use crate::search::{first_where, lemma_first_where};

verus! {

/// Where the last `") "` in `s` begins, or -1 when there is none.
pub open spec fn last_close_paren(s: Seq<char>) -> int
    decreases s.len(),
{
    if s.len() < 2 {
        -1
    } else if s[s.len() - 2] == ')' && s[s.len() - 1] == ' ' {
        s.len() - 2
    } else {
        last_close_paren(s.drop_last())
    }
}

/// The start time in `/proc/<pid>/stat`: the twentieth field after the
/// command name, which ends at the last `") "` because the name itself may
/// hold spaces and brackets.
pub open spec fn start_time_spec(stat: Seq<char>) -> Option<u64> {
    let i = last_close_paren(stat);
    if i < 0 {
        None
    } else {
        let w = words(stat.skip(i + 2));
        if w.len() > 19 {
            parse_u64_spec(w[19])
        } else {
            None
        }
    }
}

/// When a process started, in clock ticks since boot, from the text of its
/// `stat` file.
pub fn start_time_from_stat(stat: &str) -> (r: Option<u64>)
    ensures
        r == start_time_spec(stat@),
{
    let s = chars_of(stat);
    let mut j: usize = s.len();
    assert(s@.take(s@.len() as int) =~= s@);
    while j >= 2 && !(s[j - 2] == ')' && s[j - 1] == ' ')
        invariant
            j <= s@.len(),
            last_close_paren(s@) == last_close_paren(s@.take(j as int)),
        decreases j,
    {
        assert(s@.take(j as int).drop_last() =~= s@.take(j - 1));
        j -= 1;
    }
    proof {
        assert(s@.take(s@.len() as int) =~= s@);
    }
    if j < 2 {
        return None;
    }
    let after = slice_vec(s.as_slice(), j, s.len());
    assert(after@ =~= s@.skip(j as int));
    let w = words_vec(after.as_slice());
    if w.len() > 19 {
        parse_u64(w[19].as_slice())
    } else {
        None
    }
}

/// Whether a line of a status file names the parent process.
pub open spec fn ppid_line() -> spec_fn(Seq<char>) -> bool {
    |l: Seq<char>| starts_with(l, "PPid:"@)
}

/// The parent pid in `/proc/<pid>/status`: the first `PPid:` line, trimmed.
pub open spec fn ppid_spec(status: Seq<char>) -> Option<u32> {
    let ls = lines(status);
    let k = first_where(ls, ppid_line());
    if k < ls.len() {
        parse_u32_spec(trim(ls[k].skip(5)))
    } else {
        None
    }
}

/// The parent of a process, from the text of its `status` file.
pub fn ppid_from_status(status: &str) -> (r: Option<u32>)
    ensures
        r == ppid_spec(status@),
{
    let ls = lines_vec(chars_of(status).as_slice());
    let prefix = chars_of("PPid:");
    proof {
        reveal_strlit("PPid:");
    }
    let mut i: usize = 0;
    while i < ls.len() && !starts_with_vec(ls[i].as_slice(), prefix.as_slice())
        invariant
            i <= ls@.len(),
            prefix@ == "PPid:"@,
            forall|k: int| 0 <= k < i ==> !ppid_line()(#[trigger] views(ls@)[k]),
        decreases ls.len() - i,
    {
        assert(views(ls@)[i as int] == ls@[i as int]@);
        i += 1;
    }
    proof {
        lemma_first_where(views(ls@), ppid_line(), i as int);
    }
    if i < ls.len() {
        let l = &ls[i];
        assert(views(ls@)[i as int] == l@);
        let rest = slice_vec(l.as_slice(), 5, l.len());
        assert(rest@ =~= l@.skip(5));
        parse_u32(trim_vec(rest.as_slice()).as_slice())
    } else {
        None
    }
}

/// The last `/`-separated segment of a line.
pub open spec fn last_segment(l: Seq<char>) -> Seq<char> {
    split(l, '/').last()
}

/// The last `/`-separated segment of a line.
pub fn last_segment_vec(l: &[char]) -> (r: Vec<char>)
    ensures
        r@ == last_segment(l@),
{
    let parts = split_vec(l, '/');
    proof {
        lemma_split_nonempty(l@, '/');
    }
    let n = parts.len();
    assert(views(parts@)[n - 1] == parts@[n - 1]@);
    slice_vec(parts[n - 1].as_slice(), 0, parts[n - 1].len())
}

/// What marks a cgroup line as belonging to the manager of the given user.
pub open spec fn user_marker(uid: u32) -> Seq<char> {
    "/user@"@ + nat_text(uid as nat) + ".service/"@
}

/// The user unit a cgroup line names: its last segment, when the line lies
/// under the user's manager and that segment is a service.
pub open spec fn unit_in_line(l: Seq<char>, uid: u32) -> Option<Seq<char>> {
    if contains(l, user_marker(uid)) && ends_with(last_segment(l), ".service"@) {
        Some(last_segment(l))
    } else {
        None
    }
}

pub open spec fn names_user_unit(uid: u32) -> spec_fn(Seq<char>) -> bool {
    |l: Seq<char>| unit_in_line(l, uid) is Some
}

/// The systemd **user** unit a process belongs to, from the text of its
/// `cgroup` file: the first line that names one.
///
/// Only a user unit counts. A user unit sits under `user@<uid>.service` and can
/// be stopped and started again without privilege, which is what makes it safe
/// to borrow the capture device from. A system unit looks the same at the end of
/// the cgroup path but is not ours to touch.
pub open spec fn user_unit_spec(cgroup: Seq<char>, uid: u32) -> Option<Seq<char>> {
    let ls = lines(cgroup);
    let k = first_where(ls, names_user_unit(uid));
    if k < ls.len() {
        unit_in_line(ls[k], uid)
    } else {
        None
    }
}

fn unit_in_line_vec(l: &[char], marker: &[char], uid: Ghost<u32>) -> (r: Option<Vec<char>>)
    requires
        marker@ == user_marker(uid@),
    ensures
        match r {
            Some(u) => unit_in_line(l@, uid@) == Some(u@),
            None => unit_in_line(l@, uid@) is None,
        },
{
    if !contains_vec(l, marker) {
        return None;
    }
    let last = last_segment_vec(l);
    let service = chars_of(".service");
    if ends_with_vec(last.as_slice(), service.as_slice()) {
        Some(last)
    } else {
        None
    }
}

/// The user unit of a process, from the text of its `cgroup` file and the
/// user's own uid.
pub fn user_unit_from_cgroup(cgroup: &str, uid: u32) -> (r: Option<String>)
    ensures
        match r {
            Some(u) => user_unit_spec(cgroup@, uid) == Some(u@),
            None => user_unit_spec(cgroup@, uid) is None,
        },
{
    let ls = lines_vec(chars_of(cgroup).as_slice());
    let mut marker = chars_of("/user@");
    extend(&mut marker, nat_chars(uid as u64).as_slice());
    extend(&mut marker, chars_of(".service/").as_slice());
    let mut i: usize = 0;
    while i < ls.len()
        invariant
            i <= ls@.len(),
            views(ls@) == lines(cgroup@),
            marker@ == user_marker(uid),
            forall|k: int| 0 <= k < i ==> !names_user_unit(uid)(#[trigger] views(ls@)[k]),
        decreases ls.len() - i,
    {
        assert(views(ls@)[i as int] == ls@[i as int]@);
        match unit_in_line_vec(ls[i].as_slice(), marker.as_slice(), Ghost(uid)) {
            Some(u) => {
                proof {
                    lemma_first_where(views(ls@), names_user_unit(uid), i as int);
                }
                return Some(string_of(u.as_slice()));
            },
            None => {},
        }
        i += 1;
    }
    proof {
        lemma_first_where(views(ls@), names_user_unit(uid), i as int);
    }
    None
}

/// The non-empty pieces, in order.
pub open spec fn nonempty(ps: Seq<Seq<char>>) -> Seq<Seq<char>>
    decreases ps.len(),
{
    if ps.len() == 0 {
        Seq::empty()
    } else if ps.last().len() == 0 {
        nonempty(ps.drop_last())
    } else {
        nonempty(ps.drop_last()).push(ps.last())
    }
}

/// A process's command as a person reads it: the arguments in its `cmdline`
/// (separated by NUL characters) joined by spaces, or, when there are none,
/// its name from `comm`, trimmed.
pub open spec fn command_spec(cmdline: Seq<char>, comm: Seq<char>) -> Seq<char> {
    let text = join(nonempty(split(cmdline, '\0')), " "@);
    if text.len() == 0 {
        trim(comm)
    } else {
        text
    }
}

pub fn command_text(cmdline: &str, comm: &str) -> (r: String)
    ensures
        r@ == command_spec(cmdline@, comm@),
{
    let ps = split_vec(chars_of(cmdline).as_slice(), '\0');
    let ghost pv = views(ps@);
    let mut kept: Vec<Vec<char>> = Vec::new();
    let mut i: usize = 0;
    while i < ps.len()
        invariant
            i <= ps@.len(),
            pv == views(ps@),
            views(kept@) == nonempty(pv.take(i as int)),
        decreases ps.len() - i,
    {
        assert(pv.take(i + 1).drop_last() =~= pv.take(i as int));
        assert(pv.take(i + 1).last() == ps@[i as int]@);
        if ps[i].len() > 0 {
            let ghost before = views(kept@);
            let piece = slice_vec(ps[i].as_slice(), 0, ps[i].len());
            assert(piece@ =~= ps@[i as int]@);
            kept.push(piece);
            assert(views(kept@) =~= before.push(ps@[i as int]@));
        }
        i += 1;
    }
    assert(pv.take(ps@.len() as int) =~= pv);
    let text = join_vec(&kept, chars_of(" ").as_slice());
    if text.len() == 0 {
        string_of(trim_vec(chars_of(comm).as_slice()).as_slice())
    } else {
        string_of(text.as_slice())
    }
}

} // verus!
