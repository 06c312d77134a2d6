//! Whether the camera is in use, from what PipeWire and `/proc` report.
use vstd::prelude::*;
use crate::text::chars_of;
use crate::words::{contains, contains_vec, same};
use crate::search::{first_where, lemma_first_where};
use crate::text::opt_view;

verus! {

/// What the camera is doing.
#[derive(Debug, Clone, PartialEq)]
pub enum CamState {
    /// In use; the text names the user, such as a program or "PipeWire client".
    On(String),
    /// Present and idle; the text is PipeWire's node state, such as "suspended".
    Off(String),
    Disconnected,
    /// The user paused the camera.
    Disabled,
}

/// Whether PipeWire reports the camera's node as running.
pub open spec fn running(pw: Option<Seq<char>>) -> bool {
    pw == Some("running"@)
}

/// Whether the state depends on which process holds the device: when PipeWire
/// reports the node running, or knows no node at all.
pub fn needs_holder(paused: bool, pw_state: &Option<String>) -> (r: bool)
    ensures
        r == (!paused && (opt_view(*pw_state) is None || running(opt_view(*pw_state)))),
{
    if paused {
        return false;
    }
    match pw_state {
        None => true,
        Some(s) => same(chars_of(s.as_str()).as_slice(), chars_of("running").as_slice()),
    }
}

/// The camera's state from the pause flag, PipeWire's node state and the
/// process found holding the device (asked for only when `needs_holder`).
pub fn detect_state(paused: bool, pw_state: Option<String>, holder: Option<String>) -> (r: CamState)
    ensures
        paused ==> r is Disabled,
        !paused && running(opt_view(pw_state)) ==> (r matches CamState::On(s) && s@ == match holder {
            Some(h) => h@,
            None => "PipeWire client"@,
        }),
        !paused && pw_state is Some && !running(opt_view(pw_state)) ==> (r matches CamState::Off(s)
            && Some(s@) == opt_view(pw_state)),
        !paused && pw_state is None && holder is Some ==> (r matches CamState::On(s) && Some(s@)
            == opt_view(holder)),
        !paused && pw_state is None && holder is None ==> r is Disconnected,
{
    if paused {
        return CamState::Disabled;
    }
    match pw_state {
        Some(s) => {
            if same(chars_of(s.as_str()).as_slice(), chars_of("running").as_slice()) {
                match holder {
                    Some(h) => CamState::On(h),
                    None => CamState::On(String::from_str("PipeWire client")),
                }
            } else {
                CamState::Off(s)
            }
        },
        None => match holder {
            Some(h) => CamState::On(h),
            None => CamState::Disconnected,
        },
    }
}

/// A PipeWire node as `pw-dump` describes it: its media class, description,
/// name and state (empty, or "unknown" for the state, when missing).
#[derive(Debug)]
pub struct PwNode {
    pub media_class: String,
    pub description: String,
    pub name: String,
    pub state: String,
}

/// `str::replace` of one character by another.
pub open spec fn spaced(p: Seq<char>) -> Seq<char> {
    p.map_values(|c: char| if c == '_' { ' ' } else { c })
}

/// Whether a node is the camera: a video source whose description holds the
/// pattern with underscores as spaces, or whose name holds the pattern.
pub open spec fn is_camera(pattern: Seq<char>) -> spec_fn(PwNode) -> bool {
    |n: PwNode| n.media_class@ == "Video/Source"@ && (contains(n.description@, spaced(pattern)) || contains(n.name@, pattern))
}

/// The state of the camera's node: that of the first node that is the
/// camera, if any.
pub fn pw_state(nodes: &[PwNode], pattern: &str) -> (r: Option<String>)
    ensures
        ({
            let k = first_where(nodes@, is_camera(pattern@));
            if k < nodes@.len() {
                opt_view(r) == Some(nodes@[k].state@)
            } else {
                r is None
            }
        }),
{
    let pat = chars_of(pattern);
    let mut sp: Vec<char> = Vec::new();
    let mut i: usize = 0;
    while i < pat.len()
        invariant
            i <= pat@.len(),
            pat@ == pattern@,
            sp@ == spaced(pat@.take(i as int)),
        decreases pat.len() - i,
    {
        sp.push(if pat[i] == '_' { ' ' } else { pat[i] });
        assert(spaced(pat@.take(i + 1)) =~= spaced(pat@.take(i as int)).push(if pat@[i as int] == '_' { ' ' } else { pat@[i as int] }));
        i += 1;
    }
    assert(pat@.take(pat@.len() as int) =~= pat@);
    let video = chars_of("Video/Source");
    let mut k: usize = 0;
    while k < nodes.len()
        invariant
            k <= nodes@.len(),
            pat@ == pattern@,
            sp@ == spaced(pattern@),
            video@ == "Video/Source"@,
            forall|j: int| 0 <= j < k ==> !is_camera(pattern@)(#[trigger] nodes@[j]),
        decreases nodes.len() - k,
    {
        let n = &nodes[k];
        if same(chars_of(n.media_class.as_str()).as_slice(), video.as_slice()) && (contains_vec(
            chars_of(n.description.as_str()).as_slice(),
            sp.as_slice(),
        ) || contains_vec(chars_of(n.name.as_str()).as_slice(), pat.as_slice())) {
            proof {
                lemma_first_where(nodes@, is_camera(pattern@), k as int);
            }
            return Some(n.state.clone());
        }
        k += 1;
    }
    proof {
        lemma_first_where(nodes@, is_camera(pattern@), k as int);
    }
    None
}

} // verus!
