//! The overlay viewer process: how it is recorded in the pid file, how its
//! liveness is read from `/proc`, and the command line it is started with.
use vstd::prelude::*;
use crate::camlink::blocker::{identity, identity_spec};
use crate::camlink::holder::{Holder, describe, describe_text, remedy, remedy_text};
use crate::camlink::procfs::last_close_paren;
use crate::camctl::config::Config;
use crate::numbers::{nat_chars, nat_text, parse_u32, parse_u32_spec, parse_u64, parse_u64_spec};
use crate::text::{chars_of, string_of, string_views, strings_of, views};
use crate::words::{contains, contains_vec, ends_with, ends_with_vec, extend, same, trim, trim_vec, words, words_vec};

verus! {

/// What waiting for the overlay's window came to.
pub enum WaitResult {
    /// The window appeared; the text is its compositor address.
    Mapped(String),
    /// The viewer exited before its window appeared.
    Died,
    Timeout,
}

/// The viewer process as the pid file records it: its pid and, when it was
/// known, its start time, which tells a reused pid apart.
#[derive(Clone, Copy, Debug)]
pub struct ProcessRef {
    pub pid: u32,
    pub start: Option<u64>,
}

/// One look at the viewer while waiting for its window.
#[derive(Debug)]
pub enum Poll {
    /// The viewer is gone: it died before its window appeared.
    Died,
    /// No window yet: look again.
    Again,
    /// The window at this address is mapped; check a moment later that the
    /// viewer still runs.
    Settle(String),
}

/// What one look finds, from whether the viewer runs and the overlay
/// window, if the compositor lists one (whether it is mapped, its address).
pub fn poll_window(alive: bool, window: Option<(bool, String)>) -> (r: Poll)
    ensures
        !alive ==> r is Died,
        alive ==> match window {
            Some((mapped, address)) => if mapped {
                r matches Poll::Settle(a) && a@ == address@
            } else {
                r is Again
            },
            None => r is Again,
        },
{
    if !alive {
        return Poll::Died;
    }
    match window {
        Some((mapped, address)) => {
            if mapped {
                Poll::Settle(address)
            } else {
                Poll::Again
            }
        },
        None => Poll::Again,
    }
}

/// How waiting ends once the window was mapped: with its address when the
/// viewer still runs a moment later, else the viewer died.
pub fn settled(address: String, alive: bool) -> (r: WaitResult)
    ensures
        alive ==> (r matches WaitResult::Mapped(a) && a@ == address@),
        !alive ==> r is Died,
{
    if alive {
        WaitResult::Mapped(address)
    } else {
        WaitResult::Died
    }
}

/// The pid file's contents read back: the first field must be a pid; the
/// second is the start time when it reads as one.
pub open spec fn process_spec(text: Seq<char>) -> Option<ProcessRef> {
    let w = words(text);
    if w.len() >= 1 && parse_u32_spec(w[0]) is Some {
        Some(ProcessRef {
            pid: parse_u32_spec(w[0]).unwrap(),
            start: if w.len() >= 2 {
                parse_u64_spec(w[1])
            } else {
                None
            },
        })
    } else {
        None
    }
}

/// What the pid file records reads back as the same process: its pid and
/// start time.
pub proof fn lemma_process_round_trip(process: ProcessRef)
    ensures
        process_spec(identity_spec(process.pid, process.start)) == Some(process),
{
    crate::camlink::blocker::lemma_owner_round_trip(process.pid, process.start);
    let w = words(identity_spec(process.pid, process.start));
    crate::numbers::lemma_nat_text_parses(process.pid as nat);
    match process.start {
        Some(st) => {
            crate::numbers::lemma_nat_text_parses(st as nat);
            assert(w[1] == nat_text(st as nat));
        },
        None => {},
    }
}

/// Reads the pid file's contents.
pub fn read_process(text: &str) -> (r: Option<ProcessRef>)
    ensures
        r == process_spec(text@),
{
    let w = words_vec(chars_of(text).as_slice());
    if w.len() < 1 {
        return None;
    }
    assert(views(w@)[0] == w@[0]@);
    match parse_u32(w[0].as_slice()) {
        Some(pid) => {
            let start = if w.len() >= 2 {
                assert(views(w@)[1] == w@[1]@);
                parse_u64(w[1].as_slice())
            } else {
                None
            };
            Some(ProcessRef { pid, start })
        },
        None => None,
    }
}

/// The pid file's contents for a process.
pub fn write_process(process: ProcessRef) -> (r: String)
    ensures
        r@ == identity_spec(process.pid, process.start),
{
    identity(process.pid, process.start)
}

/// A process that the pid file recorded is still the viewer when its pid is
/// alive and, if a start time was recorded, it is the same one.
pub fn process_alive(process: ProcessRef, pid_alive: bool, current_start: Option<u64>) -> (r: bool)
    ensures
        r == (pid_alive && match process.start {
            None => true,
            Some(wanted) => current_start == Some(wanted),
        }),
{
    pid_alive && match process.start {
        None => true,
        Some(wanted) => match current_start {
            Some(s) => s == wanted,
            None => false,
        },
    }
}

/// The reference to record for a pid: none when the process is gone.
pub fn process_ref(pid: u32, pid_alive: bool, start: Option<u64>) -> (r: Option<ProcessRef>)
    ensures
        r == (if pid_alive {
            Some(ProcessRef { pid, start })
        } else {
            None
        }),
{
    if pid_alive {
        Some(ProcessRef { pid, start })
    } else {
        None
    }
}

/// Whether the state letter after the command name in a `stat` file says the
/// process still runs: not a zombie (`Z`), not dead (`X`), and present.
pub open spec fn stat_running_spec(stat: Seq<char>) -> bool {
    let i = last_close_paren(stat);
    i >= 0 && i + 2 < stat.len() && stat[i + 2] != 'Z' && stat[i + 2] != 'X'
}

/// Whether a process still runs, from the text of its `stat` file. The
/// viewer becomes a zombie when it exits early because it is never reaped,
/// so a plain existence check would lie.
pub fn stat_running(stat: &str) -> (r: bool)
    ensures
        r == stat_running_spec(stat@),
{
    let s = chars_of(stat);
    let mut j: usize = s.len();
    assert(s@.take(s@.len() as int) =~= s@);
    while j >= 2 && !(s[j - 2] == ')' && s[j - 1] == ' ')
        invariant
            j <= s@.len(),
            last_close_paren(s@) == last_close_paren(s@.take(j as int)),
        decreases j,
    {
        assert(s@.take(j as int).drop_last() =~= s@.take(j - 1));
        j -= 1;
    }
    if j < 2 {
        return false;
    }
    j < s.len() && s[j] != 'Z' && s[j] != 'X'
}

/// Whether a process's `comm` names the viewer.
pub fn is_viewer_comm(comm: &str) -> (r: bool)
    ensures
        r == (trim(comm@) == "mpv"@),
{
    same(trim_vec(chars_of(comm).as_slice()).as_slice(), chars_of("mpv").as_slice())
}

/// Whether a `/dev/v4l/by-id` entry is the capture device's video node.
pub fn is_capture_node(name: &str, pattern: &str) -> (r: bool)
    ensures
        r == (contains(name@, pattern@) && ends_with(name@, "video-index0"@)),
{
    let n = chars_of(name);
    contains_vec(n.as_slice(), chars_of(pattern).as_slice()) && ends_with_vec(
        n.as_slice(),
        chars_of("video-index0").as_slice(),
    )
}

/// What to say when the device is already held: which node, by whom, and
/// how to free it.
pub open spec fn busy_text(node: Seq<char>, found: Seq<Holder>) -> Seq<char> {
    node + " is already in use by "@ + describe_text(found) + "; "@ + remedy_text(found)
}

/// The error for a device that is already held.
pub fn busy_message(node: &str, found: &[Holder]) -> (r: String)
    ensures
        r@ == busy_text(node@, found@),
{
    let mut v = chars_of(node);
    extend(&mut v, chars_of(" is already in use by ").as_slice());
    extend(&mut v, chars_of(describe(found).as_str()).as_slice());
    extend(&mut v, chars_of("; ").as_slice());
    extend(&mut v, chars_of(remedy(found).as_str()).as_slice());
    string_of(v.as_slice())
}

/// The viewer's command line: no configuration or controls of its own, low
/// latency, a borderless window on top of the given size and title, and the
/// capture device read at the configured size and frame rate.
pub open spec fn viewer_argv(cfg: Config, device: Seq<char>) -> Seq<Seq<char>> {
    let win = nat_text(cfg.size[0] as nat) + "x"@ + nat_text(cfg.size[1] as nat);
    seq![
        "mpv"@,
        "--no-config"@,
        "--no-input-default-bindings"@,
        "--no-osc"@,
        "--no-osd-bar"@,
        "--osd-level=0"@,
        "--profile=low-latency"@,
        "--untimed"@,
        "--force-window=immediate"@,
        "--keepaspect-window=no"@,
        "--border=no"@,
        "--ontop"@,
        "--geometry="@ + win,
        "--autofit="@ + win,
        "--title="@ + cfg.window_title@,
        "--demuxer-lavf-o=video_size="@ + nat_text(cfg.capture_size[0] as nat) + "x"@ + nat_text(
            cfg.capture_size[1] as nat,
        ) + ",framerate="@ + nat_text(cfg.framerate as nat),
        "av://v4l2:"@ + device,
    ]
}

pub fn viewer_command(cfg: &Config, device: &str) -> (r: Vec<String>)
    ensures
        string_views(r@) == viewer_argv(*cfg, device@),
{
    let mut win = nat_chars(cfg.size[0] as u64);
    extend(&mut win, chars_of("x").as_slice());
    extend(&mut win, nat_chars(cfg.size[1] as u64).as_slice());
    let mut argv: Vec<Vec<char>> = Vec::new();
    argv.push(chars_of("mpv"));
    argv.push(chars_of("--no-config"));
    argv.push(chars_of("--no-input-default-bindings"));
    argv.push(chars_of("--no-osc"));
    argv.push(chars_of("--no-osd-bar"));
    argv.push(chars_of("--osd-level=0"));
    argv.push(chars_of("--profile=low-latency"));
    argv.push(chars_of("--untimed"));
    argv.push(chars_of("--force-window=immediate"));
    argv.push(chars_of("--keepaspect-window=no"));
    argv.push(chars_of("--border=no"));
    argv.push(chars_of("--ontop"));
    let mut g = chars_of("--geometry=");
    extend(&mut g, win.as_slice());
    argv.push(g);
    let mut a = chars_of("--autofit=");
    extend(&mut a, win.as_slice());
    argv.push(a);
    let mut t = chars_of("--title=");
    extend(&mut t, chars_of(cfg.window_title.as_str()).as_slice());
    argv.push(t);
    let mut d = chars_of("--demuxer-lavf-o=video_size=");
    extend(&mut d, nat_chars(cfg.capture_size[0] as u64).as_slice());
    extend(&mut d, chars_of("x").as_slice());
    extend(&mut d, nat_chars(cfg.capture_size[1] as u64).as_slice());
    extend(&mut d, chars_of(",framerate=").as_slice());
    extend(&mut d, nat_chars(cfg.framerate as u64).as_slice());
    argv.push(d);
    let mut i = chars_of("av://v4l2:");
    extend(&mut i, chars_of(device).as_slice());
    argv.push(i);
    assert(views(argv@) =~= viewer_argv(*cfg, device@));
    strings_of(&argv)
}

/// Whether the viewer runs, and what to do to its pid file.
#[derive(Debug, Clone, Copy)]
pub struct Running {
    pub running: bool,
    /// The pid file no longer names the viewer and goes.
    pub remove_record: bool,
    /// What to write to the pid file.
    pub record: Option<ProcessRef>,
}

/// Whether the viewer runs, from what the pid file records (and whether that
/// process is still the viewer), and the overlay window's process as the
/// compositor reports it (whether it is alive as the viewer, and its start
/// time). A recorded process with a start time is trusted; one without is
/// upgraded with a start time when the window belongs to it. Otherwise the
/// pid file goes, and the window's process, when alive, is recorded anew.
/// What the viewer's pid file and the overlay window together say.
pub open spec fn running_spec(
    stored: Option<ProcessRef>,
    stored_alive: bool,
    window_pid: Option<u32>,
    window_alive: bool,
    window_start: Option<u64>,
) -> Running {
    let fresh = match window_pid {
        Some(p) => if p > 0 && window_alive {
            Running { running: true, remove_record: true, record: Some(ProcessRef { pid: p, start: window_start }) }
        } else {
            Running { running: false, remove_record: true, record: None }
        },
        None => Running { running: false, remove_record: true, record: None },
    };
    match stored {
        Some(s) => if stored_alive && s.start is Some {
            Running { running: true, remove_record: false, record: None }
        } else if stored_alive && window_pid == Some(s.pid) && window_alive {
            Running { running: true, remove_record: false, record: Some(ProcessRef { pid: s.pid, start: window_start }) }
        } else {
            fresh
        },
        None => fresh,
    }
}

pub fn is_running(stored: Option<ProcessRef>, stored_alive: bool, window_pid: Option<u32>, window_alive: bool, window_start: Option<u64>) -> (r: Running)
    ensures
        r == running_spec(stored, stored_alive, window_pid, window_alive, window_start),
{
    match stored {
        Some(s) => {
            if stored_alive {
                if s.start.is_some() {
                    return Running { running: true, remove_record: false, record: None };
                }
                match window_pid {
                    Some(p) => {
                        if p == s.pid && window_alive {
                            return Running {
                                running: true,
                                remove_record: false,
                                record: Some(ProcessRef { pid: s.pid, start: window_start }),
                            };
                        }
                    },
                    None => {},
                }
            }
        },
        None => {},
    }
    match window_pid {
        Some(p) => {
            if p > 0 && window_alive {
                Running { running: true, remove_record: true, record: Some(ProcessRef { pid: p, start: window_start }) }
            } else {
                Running { running: false, remove_record: true, record: None }
            }
        },
        None => Running { running: false, remove_record: true, record: None },
    }
}

} // verus!
