//! Screen recording: which part of the screen, the recorder's command line,
//! how long it has been running, and what the panel shows of it.
use vstd::prelude::*;
use crate::numbers::{nat_chars, nat_text, parse_u32, parse_u32_spec, parse_u64, parse_u64_spec};
use crate::omgato::state::{Flags, History};
use crate::text::{chars_of, digit_char, is_digit, is_whitespace, opt_view, string_of, string_views, strings_of, views};
use crate::words::{
    extend, first_ws_index, has_ws, lines, lines_vec, same, split_once, split_once_vec, split_once_ws,
    split_once_ws_vec, starts_with, starts_with_vec, strip_prefix, strip_prefix_vec, trim, trim_vec,
    words, words_vec,
};

verus! {

/// Where the recording options, the recorder's pid and the file being
/// recorded are kept.
pub const OPTIONS_FILE: &'static str = "record.json";
pub const PID_FILE: &'static str = "recorder-pid.json";
pub const RECORDING_FILE: &'static str = "recording.json";

/// Clock ticks per second in `/proc/<pid>/stat`.
pub const USER_HZ: u64 = 100;

/// What to record besides the picture.
#[derive(Debug, Clone, Copy, PartialEq, Eq, Structural)]
pub struct Options {
    pub desktop_audio: bool,
    pub mic: bool,
}

impl Default for Options {
    fn default() -> (r: Options)
        ensures
            !r.desktop_audio && !r.mic,
    {
        Options { desktop_audio: false, mic: false }
    }
}

/// What the panel shows of recording.
#[derive(Debug)]
pub struct Status {
    pub active: bool,
    pub seconds: u64,
    pub options: Options,
    pub directory: String,
    pub scope: String,
    pub history: Flags,
}

/// The options as read back, or none of them when they could not be read.
pub fn load_options(read: Option<Options>) -> (r: Options)
    ensures
        r == match read {
            Some(o) => o,
            None => Options { desktop_audio: false, mic: false },
        },
{
    match read {
        Some(o) => o,
        None => Options::default(),
    }
}

/// A scope as a person reads it: "screen NAME" for a monitor, "area WxH at
/// X,Y" for a region, anything else as it is.
pub open spec fn readable_spec(scope: Seq<char>) -> Seq<char> {
    match split_once(scope, ':') {
        Some((kind, rest)) => if kind == "monitor"@ {
            "screen "@ + rest
        } else if kind == "region"@ {
            match split_once(rest, '+') {
                Some((size, at)) => "area "@ + size + " at "@ + at.map_values(|c: char| if c == '+' { ',' } else { c }),
                None => "area "@ + rest,
            }
        } else {
            scope
        },
        None => scope,
    }
}

pub fn readable(scope: &str) -> (r: String)
    ensures
        r@ == readable_spec(scope@),
{
    let s = chars_of(scope);
    match split_once_vec(s.as_slice(), ':') {
        Some((kind, rest)) => {
            if same(kind.as_slice(), chars_of("monitor").as_slice()) {
                let mut v = chars_of("screen ");
                extend(&mut v, rest.as_slice());
                string_of(v.as_slice())
            } else if same(kind.as_slice(), chars_of("region").as_slice()) {
                match split_once_vec(rest.as_slice(), '+') {
                    Some((size, at)) => {
                        let mut v = chars_of("area ");
                        extend(&mut v, size.as_slice());
                        extend(&mut v, chars_of(" at ").as_slice());
                        let mut i: usize = 0;
                        let ghost start = v@;
                        while i < at.len()
                            invariant
                                i <= at@.len(),
                                v@ == start + at@.take(i as int).map_values(|c: char| if c == '+' { ',' } else { c }),
                            decreases at.len() - i,
                        {
                            let c = at[i];
                            v.push(if c == '+' { ',' } else { c });
                            assert(at@.take(i + 1).map_values(|c: char| if c == '+' { ',' } else { c }) =~= at@.take(
                                i as int,
                            ).map_values(|c: char| if c == '+' { ',' } else { c }).push(if c == '+' { ',' } else { c }));
                            i += 1;
                        }
                        assert(at@.take(at@.len() as int) =~= at@);
                        string_of(v.as_slice())
                    },
                    None => {
                        let mut v = chars_of("area ");
                        extend(&mut v, rest.as_slice());
                        string_of(v.as_slice())
                    },
                }
            } else {
                String::from_str(scope)
            }
        },
        None => String::from_str(scope),
    }
}

/// The scope a pick gives: nothing for an empty pick; a monitor as it is
/// named; else "X,Y WxH" becomes "region:WxH+X+Y". A pick of another shape is
/// nothing.
pub open spec fn picked_scope(picked: Seq<char>) -> Option<Seq<char>> {
    let p = trim(picked);
    if p.len() == 0 {
        None
    } else if starts_with(p, "monitor:"@) {
        Some(p)
    } else {
        match split_once_ws(p) {
            None => None,
            Some((origin, size)) => match split_once(origin, ',') {
                None => None,
                Some((x, y)) => Some("region:"@ + size + "+"@ + x + "+"@ + y),
            },
        }
    }
}

/// The scope the region picker's output names.
pub fn scope_from_pick(picked: &str) -> (r: Option<String>)
    ensures
        opt_view(r) == picked_scope(picked@),
{
    let p = trim_vec(chars_of(picked).as_slice());
    if p.len() == 0 {
        return None;
    }
    if starts_with_vec(p.as_slice(), chars_of("monitor:").as_slice()) {
        return Some(string_of(p.as_slice()));
    }
    match split_once_ws_vec(p.as_slice()) {
        None => None,
        Some((origin, size)) => match split_once_vec(origin.as_slice(), ',') {
            None => None,
            Some((x, y)) => {
                let mut v = chars_of("region:");
                extend(&mut v, size.as_slice());
                extend(&mut v, chars_of("+").as_slice());
                extend(&mut v, x.as_slice());
                extend(&mut v, chars_of("+").as_slice());
                extend(&mut v, y.as_slice());
                Some(string_of(v.as_slice()))
            },
        },
    }
}

/// Whether a scope can be recorded: one that ends in `:` names nothing.
pub fn usable_scope(scope: &str) -> (r: bool)
    ensures
        r == !(scope@.len() > 0 && scope@.last() == ':'),
{
    let s = chars_of(scope);
    !(s.len() > 0 && s[s.len() - 1] == ':')
}

/// The scope of the focused monitor.
pub fn monitor_scope(name: &str) -> (r: String)
    ensures
        r@ == "monitor:"@ + trim(name@),
{
    let mut v = chars_of("monitor:");
    extend(&mut v, trim_vec(chars_of(name).as_slice()).as_slice());
    string_of(v.as_slice())
}

/// The recorder's pid from `pgrep`: the first line, trimmed, as a number.
pub open spec fn pgrep_pid(out: Seq<char>) -> Option<u32> {
    let ls = lines(out);
    if ls.len() > 0 {
        parse_u32_spec(trim(ls[0]))
    } else {
        None
    }
}

pub fn pid_from_pgrep(out: &str) -> (r: Option<u32>)
    ensures
        r == pgrep_pid(out@),
{
    let ls = lines_vec(chars_of(out).as_slice());
    if ls.len() == 0 {
        return None;
    }
    assert(views(ls@)[0] == ls@[0]@);
    parse_u32(trim_vec(ls[0].as_slice()).as_slice())
}

/// Where the last `)` in `s` is, or -1.
pub open spec fn last_paren(s: Seq<char>) -> int
    decreases s.len(),
{
    if s.len() == 0 {
        -1
    } else if s.last() == ')' {
        s.len() - 1
    } else {
        last_paren(s.drop_last())
    }
}

/// When the recorder started, in clock ticks since boot: the twentieth field
/// after the last `)` of its `stat` file, or zero when that cannot be read.
pub open spec fn started_ticks(stat: Seq<char>) -> u64 {
    let i = last_paren(stat);
    let w = words(stat.skip(i + 1));
    if i >= 0 && w.len() > 19 && parse_u64_spec(w[19]) is Some {
        parse_u64_spec(w[19]).unwrap()
    } else {
        0
    }
}

/// How long the recorder has been running, in seconds, from the system's
/// uptime (whole seconds) and the recorder's `stat` file; zero when it seems
/// to have started later.
pub fn elapsed_seconds(uptime: u64, stat: &str) -> (r: u64)
    ensures
        r == (if uptime >= started_ticks(stat@) / USER_HZ {
            uptime - started_ticks(stat@) / USER_HZ
        } else {
            0
        }),
{
    let s = chars_of(stat);
    let mut j: usize = s.len();
    assert(s@.take(s@.len() as int) =~= s@);
    while j > 0 && s[j - 1] != ')'
        invariant
            j <= s@.len(),
            last_paren(s@) == last_paren(s@.take(j as int)),
        decreases j,
    {
        assert(s@.take(j as int).drop_last() =~= s@.take(j - 1));
        j -= 1;
    }
    let started: u64 = if j == 0 {
        0
    } else {
        let rest = crate::words::slice_vec(s.as_slice(), j, s.len());
        assert(rest@ =~= s@.skip(j as int));
        let w = words_vec(rest.as_slice());
        if w.len() > 19 {
            assert(views(w@)[19] == w@[19]@);
            match parse_u64(w[19].as_slice()) {
                Some(v) => v,
                None => 0,
            }
        } else {
            0
        }
    };
    let t = started / USER_HZ;
    if uptime >= t {
        uptime - t
    } else {
        0
    }
}

/// The recorder's command line: the scope's target (what follows `:`), the
/// fixed capture settings, the output file, and the audio sources chosen.
pub open spec fn record_argv(scope: Seq<char>, file: Seq<char>, options: Options) -> Seq<Seq<char>> {
    let target = match split_once(scope, ':') {
        Some((_, v)) => v,
        None => scope,
    };
    let base = seq!["gpu-screen-recorder"@, "-w"@, target, "-k"@, "auto"@, "-f"@, "60"@, "-fm"@, "cfr"@,
        "-fallback-cpu-encoding"@, "yes"@, "-o"@, file];
    let sources: Seq<Seq<char>> = if options.desktop_audio && options.mic {
        seq!["default_output|default_input"@]
    } else if options.desktop_audio {
        seq!["default_output"@]
    } else if options.mic {
        seq!["default_input"@]
    } else {
        Seq::empty()
    };
    if sources.len() > 0 {
        base + seq!["-a"@, sources[0], "-ac"@, "aac"@]
    } else {
        base
    }
}

pub fn record_command(scope: &str, file: &str, options: Options) -> (r: Vec<String>)
    ensures
        string_views(r@) == record_argv(scope@, file@, options),
{
    let s = chars_of(scope);
    let target = match split_once_vec(s.as_slice(), ':') {
        Some((_, v)) => v,
        None => s,
    };
    let mut argv: Vec<Vec<char>> = Vec::new();
    argv.push(chars_of("gpu-screen-recorder"));
    argv.push(chars_of("-w"));
    argv.push(target);
    argv.push(chars_of("-k"));
    argv.push(chars_of("auto"));
    argv.push(chars_of("-f"));
    argv.push(chars_of("60"));
    argv.push(chars_of("-fm"));
    argv.push(chars_of("cfr"));
    argv.push(chars_of("-fallback-cpu-encoding"));
    argv.push(chars_of("yes"));
    argv.push(chars_of("-o"));
    argv.push(chars_of(file));
    if options.desktop_audio || options.mic {
        argv.push(chars_of("-a"));
        if options.desktop_audio && options.mic {
            argv.push(chars_of("default_output|default_input"));
        } else if options.desktop_audio {
            argv.push(chars_of("default_output"));
        } else {
            argv.push(chars_of("default_input"));
        }
        argv.push(chars_of("-ac"));
        argv.push(chars_of("aac"));
    }
    assert(views(argv@) =~= record_argv(scope@, file@, options));
    strings_of(&argv)
}

/// Whether the `date` output can name a file: not empty, only digits, `-`
/// and `_`.
pub fn timestamp_ok(value: &str) -> (r: bool)
    ensures
        r == (value@.len() > 0 && forall|i: int| 0 <= i < value@.len() ==> (is_digit(#[trigger] value@[i])
            || value@[i] == '-' || value@[i] == '_')),
{
    let v = chars_of(value);
    if v.len() == 0 {
        return false;
    }
    let mut i: usize = 0;
    while i < v.len()
        invariant
            i <= v@.len(),
            v@ == value@,
            forall|k: int| 0 <= k < i ==> (is_digit(#[trigger] v@[k]) || v@[k] == '-' || v@[k] == '_'),
        decreases v.len() - i,
    {
        let c = v[i];
        if !(digit_char(c) || c == '-' || c == '_') {
            return false;
        }
        i += 1;
    }
    true
}

/// The command that trims the start of a finished recording into
/// `processed`, muting and fading in the first moment and levelling the
/// loudness when it has sound.
pub open spec fn finalize_argv(file: Seq<char>, processed: Seq<char>, has_audio: bool) -> Seq<Seq<char>> {
    let head = seq!["ffmpeg"@, "-y"@, "-ss"@, "0.1"@, "-i"@, file, "-c:v"@, "copy"@];
    let audio: Seq<Seq<char>> = if has_audio {
        seq!["-af"@, "volume=enable='lt(t,0.4)':volume=0,afade=t=in:st=0.4:d=0.05,loudnorm=I=-14:TP=-1.5:LRA=11"@]
    } else {
        Seq::empty()
    };
    head + audio + seq!["-loglevel"@, "quiet"@, processed]
}

pub fn finalize_command(file: &str, processed: &str, has_audio: bool) -> (r: Vec<String>)
    ensures
        string_views(r@) == finalize_argv(file@, processed@, has_audio),
{
    let mut argv: Vec<Vec<char>> = Vec::new();
    argv.push(chars_of("ffmpeg"));
    argv.push(chars_of("-y"));
    argv.push(chars_of("-ss"));
    argv.push(chars_of("0.1"));
    argv.push(chars_of("-i"));
    argv.push(chars_of(file));
    argv.push(chars_of("-c:v"));
    argv.push(chars_of("copy"));
    if has_audio {
        argv.push(chars_of("-af"));
        argv.push(chars_of("volume=enable='lt(t,0.4)':volume=0,afade=t=in:st=0.4:d=0.05,loudnorm=I=-14:TP=-1.5:LRA=11"));
    }
    argv.push(chars_of("-loglevel"));
    argv.push(chars_of("quiet"));
    argv.push(chars_of(processed));
    assert(views(argv@) =~= finalize_argv(file@, processed@, has_audio));
    strings_of(&argv)
}

/// The file a recording goes to: named by the time it started, with a
/// number after a dash when an earlier try found the name taken.
pub open spec fn recording_name_spec(stamp: Seq<char>, collision: u32) -> Seq<char> {
    "screenrecording-"@ + stamp + (if collision == 0 {
        Seq::empty()
    } else {
        "-"@ + nat_text(collision as nat)
    }) + ".mp4"@
}

pub fn recording_name(stamp: &str, collision: u32) -> (r: String)
    ensures
        r@ == recording_name_spec(stamp@, collision),
{
    let mut v = chars_of("screenrecording-");
    extend(&mut v, chars_of(stamp).as_slice());
    if collision != 0 {
        extend(&mut v, chars_of("-").as_slice());
        extend(&mut v, nat_chars(collision as u64).as_slice());
    }
    extend(&mut v, chars_of(".mp4").as_slice());
    string_of(v.as_slice())
}

/// The file the trimmed recording is written to before it replaces the
/// original: the original's stem, "-processed-", and this process's id.
pub fn processed_name(stem: &str, pid: u32) -> (r: String)
    ensures
        r@ == stem@ + "-processed-"@ + nat_text(pid as nat) + ".mp4"@,
{
    let mut v = chars_of(stem);
    extend(&mut v, chars_of("-processed-").as_slice());
    extend(&mut v, nat_chars(pid as u64).as_slice());
    extend(&mut v, chars_of(".mp4").as_slice());
    string_of(v.as_slice())
}

/// What the panel shows of recording: whether the recorder runs and for how
/// long, the options, the output directory, the current scope made readable,
/// and what undo and redo can do in the scope history.
pub fn status(pid: Option<u32>, seconds: u64, options: Options, directory: String, scopes: &History<String>) -> (r: Status)
    ensures
        r.active == pid is Some,
        r.seconds == (if pid is Some { seconds } else { 0 }),
        r.options == options,
        r.directory == directory,
        r.scope@ == (if 0 <= scopes.pos < scopes.stack@.len() {
            readable_spec(scopes.stack@[scopes.pos as int]@)
        } else {
            Seq::empty()
        }),
        r.history.can_undo == (scopes.pos > 0),
        r.history.can_redo == (scopes.pos >= 0 && scopes.pos < scopes.stack@.len() - 1),
{
    let scope = match scopes.current() {
        Some(s) => readable(s.as_str()),
        None => String::new(),
    };
    Status {
        active: pid.is_some(),
        seconds: if pid.is_some() { seconds } else { 0 },
        options,
        directory,
        scope,
        history: scopes.flags(),
    }
}

/// The position to commit when moving `step` places through the scope
/// history: none when there is no entry there.
pub fn travel(scopes: &History<String>, step: i64) -> (r: Option<i64>)
    requires
        i64::MIN <= scopes.pos + step <= i64::MAX,
    ensures
        0 <= scopes.pos + step < scopes.stack@.len() ==> r == Some((scopes.pos + step) as i64),
        !(0 <= scopes.pos + step < scopes.stack@.len()) ==> r is None,
{
    match scopes.seek(step) {
        Some((pos, _)) => Some(pos),
        None => None,
    }
}

} // verus!
