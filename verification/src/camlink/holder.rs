//! The processes that hold the capture device open, and what to tell the user
//! about them.
use vstd::prelude::*;
use vstd::multiset::Multiset;
use crate::text::{chars_of, string_of};
use crate::words::{extend, join, join_vec, slice_vec};
use crate::numbers::{nat_chars, nat_text};
use crate::search::{first_where, lemma_first_where};
use crate::text::{opt_view, views};

verus! {

/// A process holding the capture device open.
#[derive(Debug, Clone)]
pub struct Holder {
    pub pid: u32,
    /// When the process started, in clock ticks since boot. Together with the
    /// pid it names one process even across pid reuse.
    pub start: u64,
    pub command: String,
    /// The systemd user unit the process belongs to.
    pub unit: Option<String>,
}

/// The unit that can be stopped to free the device: the first holder's unit,
/// when every holder has that same unit.
pub open spec fn borrowable_spec(s: Seq<Holder>) -> Option<Seq<char>> {
    if s.len() > 0 && s[0].unit is Some && (forall|i: int|
        0 <= i < s.len() ==> opt_view(#[trigger] s[i].unit) == opt_view(s[0].unit)) {
        opt_view(s[0].unit)
    } else {
        None
    }
}

/// The one user unit that owns every holder. Stopping only one of several owners
/// would disrupt it without making the device available.
pub fn borrowable_unit(found: &[Holder]) -> (r: Option<String>)
    ensures
        opt_view(r) == borrowable_spec(found@),
{
    if found.len() == 0 {
        return None;
    }
    let first = match &found[0].unit {
        Some(u) => u.clone(),
        None => return None,
    };
    let mut i: usize = 0;
    while i < found.len()
        invariant
            i <= found@.len(),
            found@.len() > 0,
            opt_view(found@[0].unit) == Some(first@),
            forall|k: int| 0 <= k < i ==> opt_view(#[trigger] found@[k].unit) == Some(first@),
        decreases found.len() - i,
    {
        let same = match &found[i].unit {
            Some(u) => *u == first,
            None => false,
        };
        if !same {
            return None;
        }
        i += 1;
    }
    Some(first)
}

/// The (pid, start) pairs that name the holders' processes.
pub open spec fn process_keys(s: Seq<Holder>) -> Seq<(u32, u64)> {
    s.map_values(|h: Holder| (h.pid, h.start))
}

/// How often `x` occurs in `s`.
pub open spec fn occurrences<A>(s: Seq<A>, x: A) -> nat
    decreases s.len(),
{
    if s.len() == 0 {
        0
    } else {
        occurrences(s.drop_last(), x) + if s.last() == x {
            1nat
        } else {
            0nat
        }
    }
}

proof fn lemma_occurrences_count<A>(s: Seq<A>, x: A)
    ensures
        s.to_multiset().count(x) == occurrences(s, x),
    decreases s.len(),
{
    broadcast use vstd::seq_lib::group_to_multiset_ensures;
    broadcast use vstd::multiset::group_multiset_axioms;
    if s.len() == 0 {
        assert(s.to_multiset() =~= Multiset::empty());
    } else {
        lemma_occurrences_count(s.drop_last(), x);
        assert(s.drop_last().push(s.last()) =~= s);
    }
}

proof fn lemma_occurrences_witness<A>(s: Seq<A>, x: A)
    requires
        occurrences(s, x) > 0,
    ensures
        exists|k: int| 0 <= k < s.len() && s[k] == x,
    decreases s.len(),
{
    if s.last() != x {
        lemma_occurrences_witness(s.drop_last(), x);
        let k = choose|k: int| 0 <= k < s.drop_last().len() && s.drop_last()[k] == x;
        assert(s[k] == x);
    } else {
        assert(s[s.len() - 1] == x);
    }
}

fn count_key(s: &[Holder], pid: u32, start: u64) -> (r: usize)
    ensures
        r == occurrences(process_keys(s@), (pid, start)),
{
    let ghost keys = process_keys(s@);
    let mut r: usize = 0;
    let mut i: usize = 0;
    while i < s.len()
        invariant
            i <= s@.len(),
            keys == process_keys(s@),
            r <= i,
            r == occurrences(keys.take(i as int), (pid, start)),
        decreases s.len() - i,
    {
        assert(keys.take(i + 1).drop_last() =~= keys.take(i as int));
        assert(keys.take(i + 1).last() == (s@[i as int].pid, s@[i as int].start));
        if s[i].pid == pid && s[i].start == start {
            r += 1;
        }
        i += 1;
    }
    assert(keys.take(s@.len() as int) =~= keys);
    r
}

/// Whether two lists of holders name the same processes, counted with
/// multiplicity: a process is the same only if both its pid and its start
/// time match.
pub fn same_processes(left: &[Holder], right: &[Holder]) -> (r: bool)
    ensures
        r == (process_keys(left@).to_multiset() == process_keys(right@).to_multiset()),
{
    let ghost lk = process_keys(left@);
    let ghost rk = process_keys(right@);
    let mut ok = true;
    let mut i: usize = 0;
    while i < left.len()
        invariant
            i <= left@.len(),
            lk == process_keys(left@),
            rk == process_keys(right@),
            ok ==> forall|k: int| 0 <= k < i ==> occurrences(lk, #[trigger] lk[k]) == occurrences(rk, lk[k]),
            !ok ==> exists|x: (u32, u64)| occurrences(lk, x) != occurrences(rk, x),
        decreases left.len() - i,
    {
        let a = count_key(left, left[i].pid, left[i].start);
        let b = count_key(right, left[i].pid, left[i].start);
        assert(lk[i as int] == (left@[i as int].pid, left@[i as int].start));
        if a != b {
            ok = false;
        }
        i += 1;
    }
    let mut j: usize = 0;
    while j < right.len()
        invariant
            j <= right@.len(),
            lk == process_keys(left@),
            rk == process_keys(right@),
            ok ==> forall|k: int| 0 <= k < left@.len() ==> occurrences(lk, #[trigger] lk[k]) == occurrences(rk, lk[k]),
            ok ==> forall|k: int| 0 <= k < j ==> occurrences(lk, #[trigger] rk[k]) == occurrences(rk, rk[k]),
            !ok ==> exists|x: (u32, u64)| occurrences(lk, x) != occurrences(rk, x),
        decreases right.len() - j,
    {
        let a = count_key(left, right[j].pid, right[j].start);
        let b = count_key(right, right[j].pid, right[j].start);
        assert(rk[j as int] == (right@[j as int].pid, right@[j as int].start));
        if a != b {
            ok = false;
        }
        j += 1;
    }
    proof {
        if ok {
            assert forall|x: (u32, u64)| lk.to_multiset().count(x) == rk.to_multiset().count(x) by {
                lemma_occurrences_count(lk, x);
                lemma_occurrences_count(rk, x);
                if occurrences(lk, x) > 0 {
                    lemma_occurrences_witness(lk, x);
                } else if occurrences(rk, x) > 0 {
                    lemma_occurrences_witness(rk, x);
                }
            }
            assert(lk.to_multiset() =~= rk.to_multiset());
        } else {
            let x = choose|x: (u32, u64)| occurrences(lk, x) != occurrences(rk, x);
            lemma_occurrences_count(lk, x);
            lemma_occurrences_count(rk, x);
        }
    }
    ok
}

/// Whether a holder belongs to a unit.
pub open spec fn has_unit() -> spec_fn(Holder) -> bool {
    |h: Holder| h.unit is Some
}

/// What to run to free the device: stop the first holder's unit that is
/// known, else kill the first holder, else nothing.
pub open spec fn remedy_text(s: Seq<Holder>) -> Seq<char> {
    let i = first_where(s, has_unit());
    if i < s.len() {
        "stop it with: systemctl --user stop "@ + s[i].unit.unwrap()@
    } else if s.len() > 0 {
        "stop it with: kill "@ + nat_text(s[0].pid as nat)
    } else {
        Seq::empty()
    }
}

/// How to actually free the device, given who is holding it.
pub fn remedy(found: &[Holder]) -> (r: String)
    ensures
        r@ == remedy_text(found@),
{
    let mut i: usize = 0;
    while i < found.len() && found[i].unit.is_none()
        invariant
            i <= found@.len(),
            forall|k: int| 0 <= k < i ==> !has_unit()(#[trigger] found@[k]),
        decreases found.len() - i,
    {
        i += 1;
    }
    proof {
        lemma_first_where(found@, has_unit(), i as int);
    }
    if i < found.len() {
        let mut v = chars_of("stop it with: systemctl --user stop ");
        match &found[i].unit {
            Some(u) => {
                extend(&mut v, chars_of(u.as_str()).as_slice());
            },
            None => {},
        }
        string_of(v.as_slice())
    } else if found.len() > 0 {
        let mut v = chars_of("stop it with: kill ");
        extend(&mut v, nat_chars(found[0].pid as u64).as_slice());
        string_of(v.as_slice())
    } else {
        String::new()
    }
}

/// A command shortened for a notification: over sixty characters it keeps the
/// first fifty-seven and adds an ellipsis.
pub open spec fn short_command(c: Seq<char>) -> Seq<char> {
    if c.len() > 60 {
        c.take(57) + "..."@
    } else {
        c
    }
}

/// How one holder is named in a summary.
pub open spec fn holder_text(h: Holder) -> Seq<char> {
    match h.unit {
        Some(u) => u@ + " (pid "@ + nat_text(h.pid as nat) + ")"@,
        None => "pid "@ + nat_text(h.pid as nat) + " ("@ + short_command(h.command@) + ")"@,
    }
}

/// The summary of all holders, separated by commas.
pub open spec fn describe_text(s: Seq<Holder>) -> Seq<char> {
    join(s.map_values(|h: Holder| holder_text(h)), ", "@)
}

fn holder_chars(h: &Holder) -> (r: Vec<char>)
    ensures
        r@ == holder_text(*h),
{
    let pid = nat_chars(h.pid as u64);
    match &h.unit {
        Some(u) => {
            let mut v = chars_of(u.as_str());
            extend(&mut v, chars_of(" (pid ").as_slice());
            extend(&mut v, pid.as_slice());
            extend(&mut v, chars_of(")").as_slice());
            v
        },
        None => {
            let cmd = chars_of(h.command.as_str());
            let mut v = chars_of("pid ");
            extend(&mut v, pid.as_slice());
            extend(&mut v, chars_of(" (").as_slice());
            if cmd.len() > 60 {
                extend(&mut v, slice_vec(cmd.as_slice(), 0, 57).as_slice());
                extend(&mut v, chars_of("...").as_slice());
            } else {
                extend(&mut v, cmd.as_slice());
            }
            extend(&mut v, chars_of(")").as_slice());
            assert(v@ =~= holder_text(*h));
            v
        },
    }
}

/// A one-line summary naming what to stop, short enough for a notification.
pub fn describe(found: &[Holder]) -> (r: String)
    ensures
        r@ == describe_text(found@),
{
    let mut parts: Vec<Vec<char>> = Vec::new();
    let mut i: usize = 0;
    while i < found.len()
        invariant
            i <= found@.len(),
            parts@.len() == i,
            forall|k: int| 0 <= k < i ==> #[trigger] parts@[k]@ == holder_text(found@[k]),
        decreases found.len() - i,
    {
        parts.push(holder_chars(&found[i]));
        i += 1;
    }
    let joined = join_vec(&parts, chars_of(", ").as_slice());
    assert(views(parts@) =~= found@.map_values(|h: Holder| holder_text(h)));
    string_of(joined.as_slice())
}

} // verus!
