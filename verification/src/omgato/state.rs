//! The panel's remembered state: bounded undo histories of what the lights,
//! the deck, the camera and the recorder were set to, and the snapshot of a
//! light that they hold.
use vstd::prelude::*;

verus! {

/// A history keeps at most this many entries.
pub const HISTORY_MAX: usize = 11;

/// The file each history and the saved default are kept in.
pub const LIGHTS_HISTORY: &'static str = "history.json";
pub const DECK_HISTORY: &'static str = "deck-history.json";
pub const CAMERA_HISTORY: &'static str = "camera-history.json";
pub const SCOPE_HISTORY: &'static str = "scope-history.json";
pub const LIGHTS_DEFAULT: &'static str = "lights-default.json";

/// One light's settings as remembered.
#[derive(Debug)]
pub struct Snap {
    pub name: String,
    pub ip: String,
    pub mac: String,
    pub on: bool,
    pub brightness: u8,
    pub kelvin: u32,
}

/// A copy of a remembered light.
pub fn copy_snap(s: &Snap) -> (r: Snap)
    ensures
        r == *s,
{
    Snap {
        name: s.name.clone(),
        ip: s.ip.clone(),
        mac: s.mac.clone(),
        on: s.on,
        brightness: s.brightness,
        kelvin: s.kelvin,
    }
}

/// Something a history records, with what makes two entries the same:
/// recording an entry that is the same as the current one changes nothing.
pub trait Recorded: Sized {
    spec fn same_record(&self, other: &Self) -> bool;

    fn same_as(&self, other: &Self) -> (r: bool)
        ensures
            r == self.same_record(other),
    ;
}

/// Scopes are recorded as their text.
impl Recorded for String {
    open spec fn same_record(&self, other: &Self) -> bool {
        self@ == other@
    }

    fn same_as(&self, other: &Self) -> (r: bool) {
        *self == *other
    }
}

/// What a remembered light holds.
pub open spec fn snap_view(s: Snap) -> (Seq<char>, Seq<char>, Seq<char>, bool, u8, u32) {
    (s.name@, s.ip@, s.mac@, s.on, s.brightness, s.kelvin)
}

pub open spec fn snap_views(s: Seq<Snap>) -> Seq<(Seq<char>, Seq<char>, Seq<char>, bool, u8, u32)> {
    s.map_values(|x: Snap| snap_view(x))
}

/// Snapshots of the lights are the same when every light holds the same.
impl Recorded for Vec<Snap> {
    open spec fn same_record(&self, other: &Self) -> bool {
        snap_views(self@) == snap_views(other@)
    }

    fn same_as(&self, other: &Self) -> (r: bool) {
        if self.len() != other.len() {
            proof {
                assert(snap_views(self@).len() != snap_views(other@).len());
            }
            return false;
        }
        let mut i: usize = 0;
        while i < self.len()
            invariant
                i <= self@.len(),
                self@.len() == other@.len(),
                forall|k: int| 0 <= k < i ==> snap_view(#[trigger] self@[k]) == snap_view(other@[k]),
            decreases self.len() - i,
        {
            let a = &self[i];
            let b = &other[i];
            if !(a.name == b.name && a.ip == b.ip && a.mac == b.mac && a.on == b.on && a.brightness
                == b.brightness && a.kelvin == b.kelvin) {
                proof {
                    assert(snap_views(self@)[i as int] != snap_views(other@)[i as int]);
                }
                return false;
            }
            i += 1;
        }
        proof {
            assert(snap_views(self@) =~= snap_views(other@));
        }
        true
    }
}

/// The position of an empty history.
pub fn empty_pos() -> (r: i64)
    ensures
        r == -1,
{
    -1
}

/// What undo and redo can do from where a history stands.
#[derive(Debug, Clone, Copy, PartialEq, Eq, Structural)]
pub struct Flags {
    pub can_undo: bool,
    pub can_redo: bool,
}

/// A bounded undo history: the entries, oldest first, and the position of
/// the current one (-1 when there is none).
#[derive(Debug)]
pub struct History<T> {
    pub stack: Vec<T>,
    pub pos: i64,
}

/// The position a loaded history starts at: none when it is empty, else the
/// stored position brought into range.
pub open spec fn loaded_pos(len: int, pos: i64) -> i64 {
    if len == 0 {
        -1i64
    } else if pos < 0 {
        0i64
    } else if pos > len - 1 {
        (len - 1) as i64
    } else {
        pos
    }
}

/// The entries a fold leaves: those up to and including the current one,
/// then the new one, keeping only the newest `HISTORY_MAX`.
pub open spec fn folded<A>(s: Seq<A>, pos: i64, v: A) -> Seq<A> {
    let keep = if pos + 1 < 0 { 0 } else { pos + 1 };
    let t = (if keep < s.len() { s.take(keep) } else { s }).push(v);
    if t.len() > HISTORY_MAX {
        t.skip(t.len() - HISTORY_MAX)
    } else {
        t
    }
}

impl<T: Recorded> History<T> {
    /// The position points at an entry, or there are none and it is -1.
    pub open spec fn well_formed(&self) -> bool {
        ||| self.stack@.len() == 0 && self.pos == -1
        ||| 0 <= self.pos < self.stack@.len()
    }

    /// An empty history.
    pub fn empty() -> (r: Self)
        ensures
            r.stack@.len() == 0,
            r.pos == -1,
            r.well_formed(),
    {
        History { stack: Vec::new(), pos: -1 }
    }

    /// A history as read back (an empty one when nothing could be read), its
    /// position brought into range.
    pub fn load(read: Option<History<T>>) -> (r: Self)
        ensures
            r.well_formed(),
            match read {
                Some(h) => r.stack@ == h.stack@ && r.pos == loaded_pos(h.stack@.len() as int, h.pos),
                None => r.stack@.len() == 0 && r.pos == -1,
            },
    {
        match read {
            None => History { stack: Vec::new(), pos: -1 },
            Some(h) => {
                let n = h.stack.len();
                let pos = if n == 0 {
                    -1
                } else if h.pos < 0 {
                    0
                } else if h.pos as i128 > n as i128 - 1 {
                    (n - 1) as i64
                } else {
                    h.pos
                };
                proof {
                    if n > 0 && !(h.pos < 0) && !(h.pos as i128 > n as i128 - 1) {
                        assert(h.pos <= n - 1);
                    }
                    if n > 0 && !(h.pos < 0) && h.pos as i128 > n as i128 - 1 {
                        assert(n - 1 < h.pos);
                    }
                }
                History { stack: h.stack, pos }
            },
        }
    }

    /// Whether undo and redo are possible.
    pub fn flags(&self) -> (r: Flags)
        ensures
            r.can_undo == (self.pos > 0),
            r.can_redo == (self.pos >= 0 && self.pos < self.stack@.len() - 1),
    {
        Flags {
            can_undo: self.pos > 0,
            can_redo: self.pos >= 0 && (self.pos as i128) < self.stack.len() as i128 - 1,
        }
    }

    /// Whether a step of `step` through the history finds an entry.
    pub open spec fn finds(&self, step: int) -> bool {
        0 <= self.pos + step < self.stack@.len()
    }

    /// The undo and redo flags say exactly whether a step back or a step
    /// forward finds an entry: the conditions under which [`Self::flags`]
    /// sets them are those under which [`Self::seek`] by -1 and by 1 gives
    /// one. A step back can always be asked for; a step forward whenever the
    /// position is below the largest `i64` (past it the step overflows).
    pub proof fn lemma_flags_agree_with_seek(&self)
        requires
            self.well_formed(),
        ensures
            i64::MIN <= self.pos + -1 <= i64::MAX,
            self.pos < i64::MAX ==> i64::MIN <= self.pos + 1 <= i64::MAX,
            (self.pos > 0) == self.finds(-1),
            (self.pos >= 0 && self.pos < self.stack@.len() - 1) == self.finds(1),
    {
    }

    /// The current entry.
    pub fn current(&self) -> (r: Option<&T>)
        ensures
            0 <= self.pos < self.stack@.len() ==> r == Some(&self.stack@[self.pos as int]),
            !(0 <= self.pos < self.stack@.len()) ==> r is None,
    {
        if self.pos >= 0 && (self.pos as i128) < self.stack.len() as i128 {
            Some(&self.stack[self.pos as usize])
        } else {
            None
        }
    }

    /// Records a value: nothing changes when it is the current entry;
    /// otherwise entries after the current one are dropped, the value is
    /// appended, the oldest entries beyond `HISTORY_MAX` are dropped, and the
    /// value becomes current. Says whether anything changed, which is when
    /// the history must be saved.
    pub fn fold(&mut self, value: T) -> (changed: bool)
        requires
            old(self).pos < i64::MAX,
        ensures
            (0 <= old(self).pos < old(self).stack@.len() && old(self).stack@[old(self).pos as int].same_record(&value))
                ==> !changed && *final(self) == *old(self),
            !(0 <= old(self).pos < old(self).stack@.len() && old(self).stack@[old(self).pos as int].same_record(&value))
                ==> changed && final(self).stack@ == folded(old(self).stack@, old(self).pos, value)
                && final(self).pos == final(self).stack@.len() - 1,
    {
        let same = match self.current() {
            Some(c) => c.same_as(&value),
            None => false,
        };
        if same {
            return false;
        }
        let ghost s0 = self.stack@;
        let keep: i64 = if self.pos < -1 {
            0
        } else {
            self.pos + 1
        };
        if (keep as i128) < self.stack.len() as i128 {
            self.stack.truncate(keep as usize);
        }
        assert(self.stack@ == (if keep < s0.len() { s0.take(keep as int) } else { s0 }));
        self.stack.push(value);
        let ghost t = self.stack@;
        if self.stack.len() > HISTORY_MAX {
            let excess = self.stack.len() - HISTORY_MAX;
            let mut i: usize = 0;
            while i < excess
                invariant
                    i <= excess,
                    excess == t.len() - HISTORY_MAX,
                    self.stack@ == t.skip(i as int),
                decreases excess - i,
            {
                self.stack.remove(0);
                assert(t.skip(i as int).drop_first() =~= t.skip(i + 1));
                i += 1;
            }
        }
        self.pos = self.stack.len() as i64 - 1;
        true
    }

    /// The entry `step` places from the current one, with its position.
    pub fn seek(&self, step: i64) -> (r: Option<(i64, &T)>)
        requires
            i64::MIN <= self.pos + step <= i64::MAX,
        ensures
            self.finds(step as int) ==> r == Some(
                ((self.pos + step) as i64, &self.stack@[self.pos + step]),
            ),
            !self.finds(step as int) ==> r is None,
    {
        let target = self.pos + step;
        if target >= 0 && (target as i128) < self.stack.len() as i128 {
            Some((target, &self.stack[target as usize]))
        } else {
            None
        }
    }
}

/// A fold leaves between one and `HISTORY_MAX` entries, the newest being
/// the value folded in (which is then the current entry).
pub proof fn lemma_fold_bounded<A>(s: Seq<A>, pos: i64, v: A)
    ensures
        folded(s, pos, v).len() <= HISTORY_MAX,
        folded(s, pos, v).len() >= 1,
        folded(s, pos, v).last() == v,
{
}

/// Undoing right after a fold goes back to what was current before it: the
/// entry before the newest is the one that was current.
pub proof fn lemma_fold_then_undo<A>(s: Seq<A>, pos: i64, v: A)
    requires
        0 <= pos < s.len(),
    ensures
        folded(s, pos, v).len() >= 2,
        folded(s, pos, v)[folded(s, pos, v).len() - 2] == s[pos as int],
{
    let keep = pos + 1;
    let t = (if keep < s.len() { s.take(keep as int) } else { s }).push(v);
    assert(t.len() == keep + 1);
    assert(t[t.len() - 2] == s[pos as int]);
    if t.len() > HISTORY_MAX {
        let u = t.skip(t.len() - HISTORY_MAX);
        assert(u.len() == HISTORY_MAX);
        assert(u[u.len() - 2] == t[t.len() - 2]);
    }
}

} // verus!
