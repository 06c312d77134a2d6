//! The interactive prompt: what a typed line asks for.
use vstd::prelude::*;
use crate::text::{chars_of, string_of, strings_of, string_views, views};
use crate::words::{same, trim, trim_vec, words, words_vec};

verus! {

/// What a line typed at the prompt asks for.
pub enum ReplAction {
    /// Nothing: the line was blank.
    Skip,
    Quit,
    Help,
    /// A command, as the arguments of the program.
    Run(Vec<String>),
}

/// The prompt's help text.
pub fn help_text() -> (r: &'static str)
    ensures
        r@ == "commands:\n  ls                              list lights with live state\n  discover                        rescan mDNS and refresh cache\n  on  [name|all]                  turn on\n  off [name|all]                  turn off\n  toggle [name|all]               toggle\n  brightness <0-100> [name|all]   set brightness percent\n  temperature <2900-7000> [n|all] set color temperature (kelvin)\n  help                            show this\n  quit                            exit\n"@,
{
    "commands:\n  ls                              list lights with live state\n  discover                        rescan mDNS and refresh cache\n  on  [name|all]                  turn on\n  off [name|all]                  turn off\n  toggle [name|all]               toggle\n  brightness <0-100> [name|all]   set brightness percent\n  temperature <2900-7000> [n|all] set color temperature (kelvin)\n  help                            show this\n  quit                            exit\n"
}

/// What a typed line asks for: it is trimmed; blank is nothing; `quit`,
/// `exit` and `q` leave; `help` and `?` show the help; anything else runs as
/// the program's arguments, split at white space.
pub open spec fn repl_spec(line: Seq<char>) -> Option<Seq<Seq<char>>> {
    let t = trim(line);
    if t.len() == 0 || t == "quit"@ || t == "exit"@ || t == "q"@ || t == "help"@ || t == "?"@ {
        None
    } else {
        Some(seq!["keylight-ctl"@] + words(t))
    }
}

pub fn repl_action(line: &str) -> (r: ReplAction)
    ensures
        trim(line@).len() == 0 ==> r is Skip,
        trim(line@) == "quit"@ || trim(line@) == "exit"@ || trim(line@) == "q"@ ==> r is Quit,
        trim(line@) == "help"@ || trim(line@) == "?"@ ==> r is Help,
        repl_spec(line@) matches Some(argv) ==> (r matches ReplAction::Run(a) && string_views(a@) == argv),
{
    proof {
        reveal_strlit("quit");
        reveal_strlit("exit");
        reveal_strlit("q");
        reveal_strlit("help");
        reveal_strlit("?");
        assert("quit"@[0] != "help"@[0]);
        assert("exit"@[0] != "help"@[0]);
        assert("q"@[0] != "?"@[0]);
    }
    let t = trim_vec(chars_of(line).as_slice());
    if t.len() == 0 {
        return ReplAction::Skip;
    }
    if same(t.as_slice(), chars_of("quit").as_slice()) || same(t.as_slice(), chars_of("exit").as_slice())
        || same(t.as_slice(), chars_of("q").as_slice()) {
        return ReplAction::Quit;
    }
    if same(t.as_slice(), chars_of("help").as_slice()) || same(t.as_slice(), chars_of("?").as_slice()) {
        return ReplAction::Help;
    }
    let mut argv: Vec<Vec<char>> = Vec::new();
    argv.push(chars_of("keylight-ctl"));
    let w = words_vec(t.as_slice());
    let mut i: usize = 0;
    while i < w.len()
        invariant
            i <= w@.len(),
            views(argv@) == seq!["keylight-ctl"@] + views(w@).take(i as int),
        decreases w.len() - i,
    {
        let ghost before = views(argv@);
        let piece = crate::words::slice_vec(w[i].as_slice(), 0, w[i].len());
        assert(piece@ =~= w@[i as int]@);
        argv.push(piece);
        assert(views(w@).take(i + 1) =~= views(w@).take(i as int).push(w@[i as int]@));
        assert(views(argv@) =~= before.push(w@[i as int]@));
        i += 1;
    }
    assert(views(w@).take(w@.len() as int) =~= views(w@));
    ReplAction::Run(strings_of(&argv))
}

} // verus!
