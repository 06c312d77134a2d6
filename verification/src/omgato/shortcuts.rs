//! Keyboard shortcuts the plugin owns. They live in a Lua file of their own,
//! sourced by one guarded line, so the user's own bindings file is never
//! rewritten and removing the plugin cannot break their config.
use vstd::prelude::*;
use crate::search::{first_where, lemma_first_where, lemma_first_where_bounds, lemma_first_where_push, lemma_first_where_same};
use crate::text::{chars_of, debug_str, debug_text, opt_view, string_of, views};
use crate::omgato::lights::{key_is, lookup, pairs};
use crate::words::{
    ascii_upper_vec, eq_ignore_ascii_case, eq_ignore_ascii_case_vec, extend, join, join_vec,
    lines, lines_vec, same, split, split_vec, starts_with, starts_with_vec, strip_cr, to_ascii_upper, trim,
    trim_vec,
};

verus! {

/// Where the user's own key settings are kept.
pub const SETTINGS: &'static str = "shortcuts.json";

/// What the plugin's bindings are described with.
pub const MARKER: &'static str = "Omgato:";

/// The marker written before the plugin was renamed. Still matched when reading
/// so shortcuts installed under the old name are recognised and can be removed
/// or replaced rather than left orphaned in the user's bindings.
pub const LEGACY_MARKER: &'static str = "Elgato:";

/// The line that sources the plugin's bindings, now and before the rename.
pub const REQUIRE_LINE: &'static str = "pcall(require, \"hypr.omgato-bindings\")";
pub const LEGACY_REQUIRE_LINE: &'static str = "pcall(require, \"hypr.elgato-bindings\")";

/// The comment above that line, now and before the rename.
pub const SOURCE_COMMENT: &'static str = "-- Omgato plugin shortcuts. Safe to delete along with the plugin.";
pub const LEGACY_SOURCE_COMMENT: &'static str = "-- Omarchy Elgato plugin shortcuts. Safe to delete along with the plugin.";

// ------------------------------------------------------- the sourcing line

/// Whether a line is one the plugin writes into the user's file, in either
/// generation.
pub open spec fn plugin_line(l: Seq<char>) -> bool {
    let t = trim(l);
    t == REQUIRE_LINE@ || t == LEGACY_REQUIRE_LINE@ || t == SOURCE_COMMENT@ || t == LEGACY_SOURCE_COMMENT@
}

/// The lines that are not the plugin's, in order.
pub open spec fn user_lines(ls: Seq<Seq<char>>) -> Seq<Seq<char>>
    decreases ls.len(),
{
    if ls.len() == 0 {
        Seq::empty()
    } else if plugin_line(ls.last()) {
        user_lines(ls.drop_last())
    } else {
        user_lines(ls.drop_last()).push(ls.last())
    }
}

/// The lines without the empty lines at the end.
pub open spec fn without_trailing_blank(ls: Seq<Seq<char>>) -> Seq<Seq<char>>
    decreases ls.len(),
{
    if ls.len() > 0 && ls.last().len() == 0 {
        without_trailing_blank(ls.drop_last())
    } else {
        ls
    }
}

/// The user's bindings file with the plugin's lines taken out and, when
/// installing, put back once at the end after a blank line: one comment and
/// the line that sources the plugin's file.
pub open spec fn source_spec(text: Seq<char>, install: bool) -> Seq<char> {
    let kept = without_trailing_blank(user_lines(lines(text)));
    let all = if install {
        (if kept.len() > 0 {
            kept.push(Seq::empty())
        } else {
            kept
        }).push(SOURCE_COMMENT@).push(REQUIRE_LINE@)
    } else {
        kept
    };
    let out = join(all, "\n"@);
    if out.len() > 0 {
        out.push('\n')
    } else {
        out
    }
}

/// Whether a line ends in a carriage return, which reading it back after a
/// line feed would take away.
pub open spec fn ends_in_cr(l: Seq<char>) -> bool {
    l.len() > 0 && l.last() == '\r'
}

/// A line that can be written back and read again as it is: it holds no
/// line feed and does not end in a carriage return.
pub open spec fn clean_line(l: Seq<char>) -> bool {
    !l.contains('\n') && !ends_in_cr(l)
}

proof fn lemma_user_lines_kept(ls: Seq<Seq<char>>)
    ensures
        forall|i: int| 0 <= i < user_lines(ls).len() ==> !plugin_line(#[trigger] user_lines(ls)[i]),
        (forall|j: int| 0 <= j < ls.len() ==> !(#[trigger] ls[j]).contains('\n')) ==> forall|i: int|
            0 <= i < user_lines(ls).len() ==> !(#[trigger] user_lines(ls)[i]).contains('\n'),
    decreases ls.len(),
{
    if ls.len() > 0 {
        let t = ls.drop_last();
        lemma_user_lines_kept(t);
        if forall|j: int| 0 <= j < ls.len() ==> !(#[trigger] ls[j]).contains('\n') {
            assert forall|j: int| 0 <= j < t.len() implies !(#[trigger] t[j]).contains('\n') by {
                assert(t[j] == ls[j]);
            }
            assert(!ls[ls.len() - 1].contains('\n'));
        }
        assert forall|i: int| 0 <= i < user_lines(ls).len() implies !plugin_line(#[trigger] user_lines(ls)[i]) by {
            if i < user_lines(t).len() {
                assert(user_lines(ls)[i] == user_lines(t)[i]);
            }
        }
        if forall|j: int| 0 <= j < ls.len() ==> !(#[trigger] ls[j]).contains('\n') {
            assert forall|i: int| 0 <= i < user_lines(ls).len() implies !(#[trigger] user_lines(ls)[i]).contains('\n') by {
                if i < user_lines(t).len() {
                    assert(user_lines(ls)[i] == user_lines(t)[i]);
                } else {
                    assert(user_lines(ls)[i] == ls[ls.len() - 1]);
                }
            }
        }
    }
}

proof fn lemma_user_lines_fixed(ls: Seq<Seq<char>>)
    requires
        forall|i: int| 0 <= i < ls.len() ==> !plugin_line(#[trigger] ls[i]),
    ensures
        user_lines(ls) == ls,
    decreases ls.len(),
{
    if ls.len() > 0 {
        let t = ls.drop_last();
        assert forall|i: int| 0 <= i < t.len() implies !plugin_line(#[trigger] t[i]) by {
            assert(t[i] == ls[i]);
        }
        lemma_user_lines_fixed(t);
        assert(!plugin_line(ls[ls.len() - 1]));
        assert(t.push(ls.last()) =~= ls);
    }
}

proof fn lemma_without_trailing_blank(ls: Seq<Seq<char>>)
    ensures
        without_trailing_blank(ls).len() <= ls.len(),
        forall|i: int| 0 <= i < without_trailing_blank(ls).len() ==> #[trigger] without_trailing_blank(ls)[i] == ls[i],
        without_trailing_blank(ls).len() > 0 ==> without_trailing_blank(ls).last().len() > 0,
    decreases ls.len(),
{
    if ls.len() > 0 && ls.last().len() == 0 {
        let t = ls.drop_last();
        lemma_without_trailing_blank(t);
        assert forall|i: int| 0 <= i < without_trailing_blank(ls).len() implies #[trigger] without_trailing_blank(ls)[i] == ls[i] by {
            assert(t[i] == ls[i]);
        }
    }
}

/// What the plugin keeps of the user's file: the user's own lines, without
/// empty lines at the end.
pub open spec fn users_kept(text: Seq<char>) -> Seq<Seq<char>> {
    without_trailing_blank(user_lines(lines(text)))
}

proof fn lemma_kept_of(text: Seq<char>)
    ensures
        forall|i: int| 0 <= i < users_kept(text).len() ==> !(#[trigger] users_kept(text)[i]).contains('\n') && !plugin_line(users_kept(text)[i]),
        users_kept(text).len() > 0 ==> users_kept(text).last().len() > 0,
{
    let p = split(text, '\n');
    crate::words::lemma_split_pieces(text, '\n', '\n');
    crate::words::lemma_split_nonempty(text, '\n');
    let ls = lines(text);
    let body = p.drop_last().map_values(|l: Seq<char>| strip_cr(l));
    assert forall|j: int| 0 <= j < ls.len() implies !(#[trigger] ls[j]).contains('\n') by {
        if j >= body.len() {
            assert(ls[j] == p[p.len() - 1]);
        } else {
            assert(ls[j] == body[j]);
            assert(p.drop_last()[j] == p[j]);
            assert(ls[j] == strip_cr(p[j]));
            assert(!p[j].contains('\n'));
            if p[j].len() > 0 {
                assert(p[j].drop_last() =~= p[j].subrange(0, p[j].len() - 1));
                if p[j].drop_last().contains('\n') {
                    let k = choose|k: int| 0 <= k < p[j].drop_last().len() && p[j].drop_last()[k] == '\n';
                    assert(p[j][k] == '\n');
                }
            }
        }
    }
    lemma_user_lines_kept(ls);
    let u = user_lines(ls);
    lemma_without_trailing_blank(u);
}

/// Whether every line the plugin keeps of the user's file reads back as it
/// is once written: none ends in a carriage return (a line ended by `\r\n`
/// has already lost it; one ended by `\r\r\n`, or a bare `\r` at the end
/// of the file, has not).
pub open spec fn kept_lines_reread(text: Seq<char>) -> bool {
    forall|i: int| 0 <= i < users_kept(text).len() ==> !ends_in_cr(#[trigger] users_kept(text)[i])
}

/// Facts about the two lines the plugin writes.
proof fn lemma_written_lines()
    ensures
        clean_line(SOURCE_COMMENT@),
        clean_line(REQUIRE_LINE@),
        plugin_line(SOURCE_COMMENT@),
        plugin_line(REQUIRE_LINE@),
        REQUIRE_LINE@.len() > 0,
        !plugin_line(Seq::<char>::empty()),
        clean_line(Seq::<char>::empty()),
        trim(SOURCE_COMMENT@) != REQUIRE_LINE@,
{
    reveal_strlit("-- Omgato plugin shortcuts. Safe to delete along with the plugin.");
    reveal_strlit("pcall(require, \"hypr.omgato-bindings\")");
    reveal_strlit("pcall(require, \"hypr.elgato-bindings\")");
    reveal_strlit("-- Omarchy Elgato plugin shortcuts. Safe to delete along with the plugin.");
    crate::words::lemma_trim_noop(SOURCE_COMMENT@);
    crate::words::lemma_trim_noop(REQUIRE_LINE@);
    let e = Seq::<char>::empty();
    crate::words::lemma_trim_noop(e);
    assert(e.len() != REQUIRE_LINE@.len());
    assert(e.len() != LEGACY_REQUIRE_LINE@.len());
    assert(e.len() != SOURCE_COMMENT@.len());
    assert(e.len() != LEGACY_SOURCE_COMMENT@.len());
    assert(SOURCE_COMMENT@.len() != REQUIRE_LINE@.len());
}

/// The file written for lines that are clean and not the plugin's, with no
/// empty line at the end, reads back as the same lines.
proof fn lemma_reread(kept: Seq<Seq<char>>, install: bool)
    requires
        forall|i: int| 0 <= i < kept.len() ==> clean_line(#[trigger] kept[i]) && !plugin_line(kept[i]),
        kept.len() > 0 ==> kept.last().len() > 0,
    ensures
        ({
            let all = if install {
                (if kept.len() > 0 {
                    kept.push(Seq::empty())
                } else {
                    kept
                }).push(SOURCE_COMMENT@).push(REQUIRE_LINE@)
            } else {
                kept
            };
            let out = join(all, "\n"@);
            let text = if out.len() > 0 {
                out.push('\n')
            } else {
                out
            };
            users_kept(text) == kept
        }),
{
    lemma_written_lines();
    let e = Seq::<char>::empty();
    let base = if kept.len() > 0 {
        kept.push(e)
    } else {
        kept
    };
    let all = if install {
        base.push(SOURCE_COMMENT@).push(REQUIRE_LINE@)
    } else {
        kept
    };
    let out = join(all, "\n"@);
    lemma_user_lines_fixed(kept);
    if all.len() == 0 {
        assert(out =~= e);
        reveal_strlit("\n");
        assert(split(e, '\n') =~= seq![e]);
        assert(lines(e) =~= Seq::<Seq<char>>::empty());
        assert(user_lines(Seq::<Seq<char>>::empty()) =~= Seq::<Seq<char>>::empty());
    } else {
        assert(out.len() > 0) by {
            reveal_strlit("\n");
            assert(all.last().len() > 0);
            if all.len() == 1 {
                assert(out == all[0]);
            } else {
                assert(out == join(all.drop_last(), "\n"@) + "\n"@ + all.last());
            }
        }
        assert forall|i: int| 0 <= i < all.len() implies clean_line(#[trigger] all[i]) by {
            if i < kept.len() {
                assert(all[i] == kept[i]);
            } else if install && kept.len() > 0 && i == kept.len() {
                assert(all[i] == e);
            } else if install && i == all.len() - 2 {
                assert(all[i] == SOURCE_COMMENT@);
            } else if install {
                assert(all[i] == REQUIRE_LINE@);
            }
        }
        crate::words::lemma_lines_of_written(all);
        assert forall|i: int| 0 <= i < all.len() implies strip_cr(#[trigger] all[i]) == all[i] by {
            assert(clean_line(all[i]));
        }
        assert(all.map_values(|l: Seq<char>| strip_cr(l)) =~= all);
        if install {
            let b = base.push(SOURCE_COMMENT@);
            assert(all.drop_last() == b);
            assert(b.drop_last() == base);
            assert(user_lines(all) == user_lines(b));
            assert(user_lines(b) == user_lines(base));
            if kept.len() > 0 {
                assert(base.drop_last() == kept);
                assert(user_lines(base) == kept.push(e));
                assert(without_trailing_blank(kept.push(e)) == without_trailing_blank(kept));
            }
        }
    }
}

/// Installing the shortcuts twice leaves the user's bindings file as
/// installing them once does: the plugin's lines appear once.
pub proof fn lemma_install_twice(text: Seq<char>)
    requires
        kept_lines_reread(text),
    ensures
        source_spec(source_spec(text, true), true) == source_spec(text, true),
{
    lemma_kept_of(text);
    lemma_reread(users_kept(text), true);
}

/// Removing the shortcuts after installing them leaves the user's bindings
/// file as removing them from the original does, and removing them twice as
/// removing them once: nothing of the user's own is lost.
pub proof fn lemma_remove_after_install(text: Seq<char>)
    requires
        kept_lines_reread(text),
    ensures
        source_spec(source_spec(text, true), false) == source_spec(text, false),
        source_spec(source_spec(text, false), false) == source_spec(text, false),
{
    lemma_kept_of(text);
    lemma_reread(users_kept(text), true);
    lemma_reread(users_kept(text), false);
}

/// After installing, the user's bindings file ends with the comment and the
/// line that sources the plugin's bindings, and no other line sources them.
pub proof fn lemma_installed_lines(text: Seq<char>)
    ensures
        ({
            let ls = lines(source_spec(text, true));
            &&& ls.len() >= 2
            &&& ls.last() == REQUIRE_LINE@
            &&& ls[ls.len() - 2] == SOURCE_COMMENT@
            &&& forall|i: int| 0 <= i < ls.len() - 1 ==> trim(#[trigger] ls[i]) != REQUIRE_LINE@
        }),
{
    lemma_kept_of(text);
    lemma_written_lines();
    let kept = users_kept(text);
    let e = Seq::<char>::empty();
    let base = if kept.len() > 0 {
        kept.push(e)
    } else {
        kept
    };
    let all = base.push(SOURCE_COMMENT@).push(REQUIRE_LINE@);
    assert forall|i: int| 0 <= i < all.len() implies !(#[trigger] all[i]).contains('\n') by {
        if i < kept.len() {
            assert(all[i] == kept[i]);
        } else if kept.len() > 0 && i == kept.len() {
            assert(all[i] == e);
        } else if i == all.len() - 2 {
            assert(all[i] == SOURCE_COMMENT@);
        } else {
            assert(all[i] == REQUIRE_LINE@);
        }
    }
    crate::words::lemma_lines_of_written(all);
    let ls = all.map_values(|l: Seq<char>| strip_cr(l));
    assert(ls.last() == strip_cr(REQUIRE_LINE@));
    assert(ls[ls.len() - 2] == strip_cr(SOURCE_COMMENT@));
    assert forall|i: int| 0 <= i < ls.len() - 1 implies trim(#[trigger] ls[i]) != REQUIRE_LINE@ by {
        crate::words::lemma_trim_strip_cr(all[i]);
        if i < kept.len() {
            assert(all[i] == kept[i]);
            assert(!plugin_line(kept[i]));
        } else if kept.len() > 0 && i == kept.len() {
            assert(all[i] == e);
        } else {
            assert(all[i] == SOURCE_COMMENT@);
        }
        assert(ls[i] == strip_cr(all[i]));
    }
}

/// After removing, no line of the user's bindings file sources the plugin's
/// bindings, under the current name or the old one.
pub proof fn lemma_removed_lines(text: Seq<char>)
    ensures
        forall|i: int| 0 <= i < lines(source_spec(text, false)).len() ==> trim(
            #[trigger] lines(source_spec(text, false))[i],
        ) != REQUIRE_LINE@ && trim(lines(source_spec(text, false))[i]) != LEGACY_REQUIRE_LINE@,
{
    lemma_kept_of(text);
    let kept = users_kept(text);
    let e = Seq::<char>::empty();
    if kept.len() == 0 {
        reveal_strlit("\n");
        assert(join(kept, "\n"@) =~= e);
        assert(split(e, '\n') =~= seq![e]);
        assert(lines(e) =~= Seq::<Seq<char>>::empty());
    } else {
        crate::words::lemma_lines_of_written(kept);
        assert(join(kept, "\n"@).push('\n').len() > 0);
        let ls = kept.map_values(|l: Seq<char>| strip_cr(l));
        assert forall|i: int| 0 <= i < ls.len() implies trim(#[trigger] ls[i]) != REQUIRE_LINE@ && trim(ls[i])
            != LEGACY_REQUIRE_LINE@ by {
            crate::words::lemma_trim_strip_cr(kept[i]);
            assert(!plugin_line(kept[i]));
        }
    }
}

fn is_plugin_line(l: &[char]) -> (r: bool)
    ensures
        r == plugin_line(l@),
{
    let t = trim_vec(l);
    same(t.as_slice(), chars_of(REQUIRE_LINE).as_slice()) || same(t.as_slice(), chars_of(LEGACY_REQUIRE_LINE).as_slice())
        || same(t.as_slice(), chars_of(SOURCE_COMMENT).as_slice()) || same(
        t.as_slice(),
        chars_of(LEGACY_SOURCE_COMMENT).as_slice(),
    )
}

/// The user's bindings file after installing (`install`) or removing the
/// line that sources the plugin's bindings.
pub fn source_text(text: &str, install: bool) -> (r: String)
    ensures
        r@ == source_spec(text@, install),
{
    let ls = lines_vec(chars_of(text).as_slice());
    let ghost lv = views(ls@);
    let mut kept: Vec<Vec<char>> = Vec::new();
    let mut i: usize = 0;
    while i < ls.len()
        invariant
            i <= ls@.len(),
            lv == views(ls@),
            views(kept@) == user_lines(lv.take(i as int)),
        decreases ls.len() - i,
    {
        assert(lv.take(i + 1).drop_last() =~= lv.take(i as int));
        assert(lv.take(i + 1).last() == ls@[i as int]@);
        if !is_plugin_line(ls[i].as_slice()) {
            let ghost before = views(kept@);
            let piece = crate::words::slice_vec(ls[i].as_slice(), 0, ls[i].len());
            assert(piece@ =~= ls@[i as int]@);
            kept.push(piece);
            assert(views(kept@) =~= before.push(ls@[i as int]@));
        }
        i += 1;
    }
    assert(lv.take(ls@.len() as int) =~= lv);
    let ghost all_kept = views(kept@);
    while kept.len() > 0 && kept[kept.len() - 1].len() == 0
        invariant
            without_trailing_blank(views(kept@)) == without_trailing_blank(all_kept),
        decreases kept.len(),
    {
        let ghost before = views(kept@);
        kept.pop();
        assert(views(kept@) =~= before.drop_last());
    }
    assert(without_trailing_blank(views(kept@)) == views(kept@));
    if install {
        let ghost before = views(kept@);
        if kept.len() > 0 {
            kept.push(Vec::new());
        }
        kept.push(chars_of(SOURCE_COMMENT));
        kept.push(chars_of(REQUIRE_LINE));
        assert(views(kept@) =~= (if before.len() > 0 {
            before.push(Seq::empty())
        } else {
            before
        }).push(SOURCE_COMMENT@).push(REQUIRE_LINE@));
    }
    let mut out = join_vec(&kept, chars_of("\n").as_slice());
    if out.len() > 0 {
        out.push('\n');
    }
    string_of(out.as_slice())
}

/// Whether the user's bindings file sources the plugin's: some line is,
/// trimmed, the sourcing line.
pub fn sourced(text: &str) -> (r: bool)
    ensures
        r == exists|i: int| 0 <= i < lines(text@).len() && trim(#[trigger] lines(text@)[i]) == REQUIRE_LINE@,
{
    let ls = lines_vec(chars_of(text).as_slice());
    let req = chars_of(REQUIRE_LINE);
    let mut i: usize = 0;
    while i < ls.len()
        invariant
            i <= ls@.len(),
            views(ls@) == lines(text@),
            req@ == REQUIRE_LINE@,
            forall|k: int| 0 <= k < i ==> trim(#[trigger] lines(text@)[k]) != REQUIRE_LINE@,
        decreases ls.len() - i,
    {
        assert(views(ls@)[i as int] == ls@[i as int]@);
        if same(trim_vec(ls[i].as_slice()).as_slice(), req.as_slice()) {
            return true;
        }
        i += 1;
    }
    false
}

// ------------------------------------------------------------- the actions

/// One bindable action: which panel view it belongs to, what it runs, and the
/// combination it is bound to by default.
#[derive(Debug, Clone, Copy)]
pub struct Action {
    pub id: &'static str,
    pub view: &'static str,
    pub label: &'static str,
    pub command: &'static str,
    pub default_keys: &'static str,
}

pub open spec fn action_view(a: Action) -> (Seq<char>, Seq<char>, Seq<char>, Seq<char>, Seq<char>) {
    (a.id@, a.view@, a.label@, a.command@, a.default_keys@)
}

/// The actions, in the order the panel lists them. An empty default leaves
/// the action unbound: it is offered in the panel but claims no combination
/// until the user gives it one.
pub open spec fn action_table() -> Seq<(Seq<char>, Seq<char>, Seq<char>, Seq<char>, Seq<char>)> {
    seq![
        ("lights.toggle"@, "lights"@, "Toggle all lights"@, "keylight-ctl click"@, "SUPER + ALT + L"@),
        ("lights.brighter"@, "lights"@, "Lights brighter"@, "keylight-ctl brightness +10"@, ""@),
        ("lights.dimmer"@, "lights"@, "Lights dimmer"@, "keylight-ctl brightness -10"@, ""@),
        ("lights.warmer"@, "lights"@, "Lights warmer"@, "keylight-ctl temperature -300"@, ""@),
        ("lights.cooler"@, "lights"@, "Lights cooler"@, "keylight-ctl temperature +300"@, ""@),
        ("lights.sync"@, "lights"@, "Match all lights"@, "omgato-panel sync"@, ""@),
        ("deck.power"@, "deck"@, "Toggle deck display"@, "streamdeck-ctl deck power toggle"@, ""@),
        ("deck.reload"@, "deck"@, "Reload the deck"@, "streamdeck-ctl deck reload"@, ""@),
        ("camera.toggle"@, "camera"@, "Toggle camera overlay"@, "camlink-ctl toggle"@, "SUPER + ALT + C"@),
        ("camera.pick"@, "camera"@, "Place the camera"@, "camlink-ctl pick"@, "SUPER + ALT + P"@),
        ("camera.full"@, "camera"@, "Camera fullscreen"@, "camlink-ctl full"@, "SUPER + SHIFT + C"@),
        ("camera.tl"@, "camera"@, "Camera top-left"@, "camlink-ctl move tl"@, "SUPER + ALT + 1"@),
        ("camera.tr"@, "camera"@, "Camera top-right"@, "camlink-ctl move tr"@, "SUPER + ALT + 2"@),
        ("camera.bl"@, "camera"@, "Camera bottom-left"@, "camlink-ctl move bl"@, "SUPER + ALT + 3"@),
        ("camera.br"@, "camera"@, "Camera bottom-right"@, "camlink-ctl move br"@, "SUPER + ALT + 4"@),
        ("record.region"@, "camera"@, "Record an area"@, "omgato-panel record --target region"@, "SUPER + ALT + R"@),
        ("record.stop"@, "camera"@, "Stop recording"@, "omgato-panel record --stop"@, "SUPER + ALT + SHIFT + R"@),
    ]
}

fn act(id: &'static str, view: &'static str, label: &'static str, command: &'static str, default_keys: &'static str) -> (r: Action)
    ensures
        action_view(r) == (id@, view@, label@, command@, default_keys@),
{
    Action { id, view, label, command, default_keys }
}

/// The bindable actions.
pub fn actions() -> (r: Vec<Action>)
    ensures
        r@.map_values(|a: Action| action_view(a)) == action_table(),
{
    let r = vec![
        act("lights.toggle", "lights", "Toggle all lights", "keylight-ctl click", "SUPER + ALT + L"),
        act("lights.brighter", "lights", "Lights brighter", "keylight-ctl brightness +10", ""),
        act("lights.dimmer", "lights", "Lights dimmer", "keylight-ctl brightness -10", ""),
        act("lights.warmer", "lights", "Lights warmer", "keylight-ctl temperature -300", ""),
        act("lights.cooler", "lights", "Lights cooler", "keylight-ctl temperature +300", ""),
        act("lights.sync", "lights", "Match all lights", "omgato-panel sync", ""),
        act("deck.power", "deck", "Toggle deck display", "streamdeck-ctl deck power toggle", ""),
        act("deck.reload", "deck", "Reload the deck", "streamdeck-ctl deck reload", ""),
        act("camera.toggle", "camera", "Toggle camera overlay", "camlink-ctl toggle", "SUPER + ALT + C"),
        act("camera.pick", "camera", "Place the camera", "camlink-ctl pick", "SUPER + ALT + P"),
        act("camera.full", "camera", "Camera fullscreen", "camlink-ctl full", "SUPER + SHIFT + C"),
        act("camera.tl", "camera", "Camera top-left", "camlink-ctl move tl", "SUPER + ALT + 1"),
        act("camera.tr", "camera", "Camera top-right", "camlink-ctl move tr", "SUPER + ALT + 2"),
        act("camera.bl", "camera", "Camera bottom-left", "camlink-ctl move bl", "SUPER + ALT + 3"),
        act("camera.br", "camera", "Camera bottom-right", "camlink-ctl move br", "SUPER + ALT + 4"),
        act("record.region", "camera", "Record an area", "omgato-panel record --target region", "SUPER + ALT + R"),
        act("record.stop", "camera", "Stop recording", "omgato-panel record --stop", "SUPER + ALT + SHIFT + R"),
    ];
    assert(r@.map_values(|a: Action| action_view(a)) =~= action_table());
    r
}

// --------------------------------------------------------------- the keys

/// The X11 modifier bit a part of a combination names, as Hyprland reports
/// them in `hyprctl binds`; zero for a key that is no modifier.
pub open spec fn mod_bit(p: Seq<char>) -> int {
    let u = to_ascii_upper(p);
    if u == "SHIFT"@ {
        1
    } else if u == "CAPS"@ {
        2
    } else if u == "CTRL"@ || u == "CONTROL"@ {
        4
    } else if u == "ALT"@ {
        8
    } else if u == "SUPER"@ || u == "MOD"@ || u == "WIN"@ {
        64
    } else {
        0
    }
}

/// The trimmed parts of a combination, split at `+`.
pub open spec fn parts_of(keys: Seq<char>) -> Seq<Seq<char>> {
    split(keys, '+').map_values(|p: Seq<char>| trim(p))
}

/// The sum of the modifier bits of the parts.
pub open spec fn mask_sum(ps: Seq<Seq<char>>) -> int
    decreases ps.len(),
{
    if ps.len() == 0 {
        0
    } else {
        mask_sum(ps.drop_last()) + mod_bit(ps.last())
    }
}

/// The modifier mask of a combination.
pub open spec fn modmask_spec(keys: Seq<char>) -> int {
    mask_sum(parts_of(keys))
}

proof fn lemma_mask_prefix(ps: Seq<Seq<char>>, i: int)
    requires
        0 <= i <= ps.len(),
    ensures
        0 <= mask_sum(ps.take(i)) <= mask_sum(ps),
    decreases ps.len() - i,
{
    if i < ps.len() {
        assert(ps.take(i + 1).drop_last() =~= ps.take(i));
        lemma_mask_prefix(ps, i + 1);
    } else {
        assert(ps.take(i) =~= ps);
    }
    lemma_mask_nonneg(ps.take(i));
}

proof fn lemma_mask_nonneg(ps: Seq<Seq<char>>)
    ensures
        mask_sum(ps) >= 0,
    decreases ps.len(),
{
    if ps.len() > 0 {
        lemma_mask_nonneg(ps.drop_last());
    }
}

/// A modifier's bit follows Hyprland's X11 table, whatever the case it is
/// written in: SHIFT 1, CAPS 2, CTRL and CONTROL 4, ALT 8, SUPER, MOD and WIN
/// 64; any other part (the key itself) has none.
pub proof fn lemma_modifier_bits(p: Seq<char>)
    ensures
        ({
            let u = to_ascii_upper(p);
            &&& u == "SHIFT"@ ==> mod_bit(p) == 1
            &&& u == "CAPS"@ ==> mod_bit(p) == 2
            &&& (u == "CTRL"@ || u == "CONTROL"@) ==> mod_bit(p) == 4
            &&& u == "ALT"@ ==> mod_bit(p) == 8
            &&& (u == "SUPER"@ || u == "MOD"@ || u == "WIN"@) ==> mod_bit(p) == 64
            &&& !(u == "SHIFT"@ || u == "CAPS"@ || u == "CTRL"@ || u == "CONTROL"@ || u == "ALT"@ || u
                == "SUPER"@ || u == "MOD"@ || u == "WIN"@) ==> mod_bit(p) == 0
        }),
{
    reveal_strlit("SHIFT");
    reveal_strlit("CAPS");
    reveal_strlit("CTRL");
    reveal_strlit("CONTROL");
    reveal_strlit("ALT");
    reveal_strlit("SUPER");
    reveal_strlit("MOD");
    reveal_strlit("WIN");
    assert("SHIFT"@.len() == 5 && "CAPS"@.len() == 4 && "CTRL"@.len() == 4 && "CONTROL"@.len() == 7);
    assert("ALT"@.len() == 3 && "SUPER"@.len() == 5 && "MOD"@.len() == 3 && "WIN"@.len() == 3);
    assert("CAPS"@[1] != "CTRL"@[1]);
    assert("SHIFT"@[1] != "SUPER"@[1]);
    assert("ALT"@[0] != "MOD"@[0] && "ALT"@[0] != "WIN"@[0]);
}

/// A single part's mask is its modifier bit, once trimmed.
pub proof fn lemma_mask_of_part(p: Seq<char>)
    requires
        !p.contains('+'),
    ensures
        modmask_spec(p) == mod_bit(trim(p)),
{
    crate::words::lemma_split_free(p, '+');
    let ps = parts_of(p);
    assert(ps =~= seq![trim(p)]);
    assert(ps.drop_last() =~= Seq::<Seq<char>>::empty());
    assert(ps.last() == trim(p));
    assert(mask_sum(ps.drop_last()) == 0);
    assert(mask_sum(ps) == mask_sum(ps.drop_last()) + mod_bit(ps.last()));
}

proof fn lemma_mask_concat(a: Seq<Seq<char>>, b: Seq<Seq<char>>)
    ensures
        mask_sum(a + b) == mask_sum(a) + mask_sum(b),
    decreases b.len(),
{
    if b.len() == 0 {
        assert(a + b =~= a);
    } else {
        lemma_mask_concat(a, b.drop_last());
        assert((a + b).drop_last() =~= a + b.drop_last());
        assert((a + b).last() == b.last());
    }
}

/// The mask of a combination is the sum of the masks of what stands on
/// either side of a `+`.
pub proof fn lemma_mask_of_join(a: Seq<char>, b: Seq<char>)
    ensures
        modmask_spec(a + seq!['+'] + b) == modmask_spec(a) + modmask_spec(b),
{
    crate::words::lemma_split_join(a, b, '+');
    let t = |p: Seq<char>| trim(p);
    assert((split(a, '+') + split(b, '+')).map_values(t) =~= split(a, '+').map_values(t) + split(b, '+').map_values(t));
    lemma_mask_concat(parts_of(a), parts_of(b));
}

fn bit_of(p: &[char]) -> (r: u32)
    ensures
        r as int == mod_bit(p@),
        r <= 64,
{
    let u = ascii_upper_vec(p);
    proof {
        reveal_strlit("SHIFT");
        reveal_strlit("CAPS");
        reveal_strlit("CTRL");
        reveal_strlit("CONTROL");
        reveal_strlit("ALT");
        reveal_strlit("SUPER");
        reveal_strlit("MOD");
        reveal_strlit("WIN");
    }
    if same(u.as_slice(), chars_of("SHIFT").as_slice()) {
        1
    } else if same(u.as_slice(), chars_of("CAPS").as_slice()) {
        2
    } else if same(u.as_slice(), chars_of("CTRL").as_slice()) || same(u.as_slice(), chars_of("CONTROL").as_slice()) {
        4
    } else if same(u.as_slice(), chars_of("ALT").as_slice()) {
        8
    } else if same(u.as_slice(), chars_of("SUPER").as_slice()) || same(u.as_slice(), chars_of("MOD").as_slice())
        || same(u.as_slice(), chars_of("WIN").as_slice()) {
        64
    } else {
        0
    }
}

fn trimmed_parts(keys: &str) -> (r: Vec<Vec<char>>)
    ensures
        views(r@) == parts_of(keys@),
{
    let ps = split_vec(chars_of(keys).as_slice(), '+');
    let mut r: Vec<Vec<char>> = Vec::new();
    let mut i: usize = 0;
    while i < ps.len()
        invariant
            i <= ps@.len(),
            views(ps@) == split(keys@, '+'),
            views(r@) == parts_of(keys@).take(i as int),
        decreases ps.len() - i,
    {
        assert(views(ps@)[i as int] == ps@[i as int]@);
        let ghost before = views(r@);
        let t = trim_vec(ps[i].as_slice());
        assert(parts_of(keys@)[i as int] == trim(split(keys@, '+')[i as int]));
        assert(t@ == parts_of(keys@)[i as int]);
        r.push(t);
        assert(views(r@) =~= before.push(t@));
        assert(parts_of(keys@).take(i + 1) =~= parts_of(keys@).take(i as int).push(parts_of(keys@)[i as int]));
        i += 1;
    }
    assert(parts_of(keys@).take(ps@.len() as int) =~= parts_of(keys@));
    r
}

/// The modifier mask of a combination: the sum of its parts' bits. The sum
/// must fit in `u32`, as adding it up there requires.
pub fn modmask(keys: &str) -> (r: u32)
    requires
        modmask_spec(keys@) <= u32::MAX,
    ensures
        r as int == modmask_spec(keys@),
{
    let ps = trimmed_parts(keys);
    let ghost pv = views(ps@);
    let mut sum: u32 = 0;
    let mut i: usize = 0;
    while i < ps.len()
        invariant
            i <= ps@.len(),
            pv == views(ps@),
            mask_sum(pv) <= u32::MAX,
            sum == mask_sum(pv.take(i as int)),
        decreases ps.len() - i,
    {
        assert(pv.take(i + 1).drop_last() =~= pv.take(i as int));
        assert(pv.take(i + 1).last() == ps@[i as int]@);
        proof {
            lemma_mask_prefix(pv, i + 1);
        }
        sum = sum + bit_of(ps[i].as_slice());
        i += 1;
    }
    assert(pv.take(ps@.len() as int) =~= pv);
    sum
}

/// Whether a (trimmed) part is a key rather than a modifier. A part holds no
/// `+`, so this is whether its own modifier mask is zero.
pub open spec fn is_key_part() -> spec_fn(Seq<char>) -> bool {
    |p: Seq<char>| mod_bit(p) == 0
}

/// The key of a combination: its last part that is no modifier, or nothing.
pub open spec fn key_spec(keys: Seq<char>) -> Seq<char> {
    let ps = parts_of(keys).reverse();
    let k = first_where(ps, is_key_part());
    if k < ps.len() {
        ps[k]
    } else {
        Seq::empty()
    }
}

pub fn key_of(keys: &str) -> (r: String)
    ensures
        r@ == key_spec(keys@),
{
    let ps = trimmed_parts(keys);
    let ghost rv = parts_of(keys@).reverse();
    let mut j: usize = ps.len();
    while j > 0 && bit_of(ps[j - 1].as_slice()) != 0
        invariant
            j <= ps@.len(),
            rv == views(ps@).reverse(),
            forall|k: int| 0 <= k < ps@.len() - j ==> !is_key_part()(#[trigger] rv[k]),
        decreases j,
    {
        assert(rv[ps@.len() - j] == ps@[j - 1]@);
        j -= 1;
    }
    proof {
        if j > 0 {
            assert(rv[ps@.len() - j] == ps@[j - 1]@);
        }
        lemma_first_where(rv, is_key_part(), ps@.len() - j);
    }
    if j > 0 {
        string_of(ps[j - 1].as_slice())
    } else {
        String::new()
    }
}

/// How a key is shown on its cap: Hypr spells punctuation out.
pub open spec fn symbol_spec(k: Seq<char>) -> Seq<char> {
    if k == "semicolon"@ {
        ";"@
    } else if k == "apostrophe"@ {
        "'"@
    } else if k == "bracketleft"@ {
        "["@
    } else if k == "bracketright"@ {
        "]"@
    } else if k == "backslash"@ {
        "\\"@
    } else if k == "comma"@ {
        ","@
    } else if k == "period"@ {
        "."@
    } else if k == "slash"@ {
        "/"@
    } else if k == "minus"@ {
        "-"@
    } else if k == "equal"@ {
        "="@
    } else if k == "grave"@ {
        "`"@
    } else if k == "space"@ {
        "Space"@
    } else if k == "Return"@ {
        "Enter"@
    } else if k == "BackSpace"@ {
        "Backspace"@
    } else {
        k
    }
}

pub fn symbol(key: &[char]) -> (r: Vec<char>)
    ensures
        r@ == symbol_spec(key@),
{
    if same(key, chars_of("semicolon").as_slice()) {
        chars_of(";")
    } else if same(key, chars_of("apostrophe").as_slice()) {
        chars_of("'")
    } else if same(key, chars_of("bracketleft").as_slice()) {
        chars_of("[")
    } else if same(key, chars_of("bracketright").as_slice()) {
        chars_of("]")
    } else if same(key, chars_of("backslash").as_slice()) {
        chars_of("\\")
    } else if same(key, chars_of("comma").as_slice()) {
        chars_of(",")
    } else if same(key, chars_of("period").as_slice()) {
        chars_of(".")
    } else if same(key, chars_of("slash").as_slice()) {
        chars_of("/")
    } else if same(key, chars_of("minus").as_slice()) {
        chars_of("-")
    } else if same(key, chars_of("equal").as_slice()) {
        chars_of("=")
    } else if same(key, chars_of("grave").as_slice()) {
        chars_of("`")
    } else if same(key, chars_of("space").as_slice()) {
        chars_of("Space")
    } else if same(key, chars_of("Return").as_slice()) {
        chars_of("Enter")
    } else if same(key, chars_of("BackSpace").as_slice()) {
        chars_of("Backspace")
    } else {
        crate::words::slice_vec(key, 0, key.len())
    }
}

/// How a (trimmed) part is shown: a key on its cap, a modifier as written.
pub open spec fn shown_part(p: Seq<char>) -> Seq<char> {
    if mod_bit(p) == 0 {
        symbol_spec(p)
    } else {
        p
    }
}

/// The same combination written for a person to read.
pub open spec fn pretty_spec(keys: Seq<char>) -> Seq<char> {
    if trim(keys).len() == 0 {
        Seq::empty()
    } else {
        join(parts_of(keys).map_values(|p: Seq<char>| shown_part(p)), " + "@)
    }
}

pub fn pretty(keys: &str) -> (r: String)
    ensures
        r@ == pretty_spec(keys@),
{
    if trim_vec(chars_of(keys).as_slice()).len() == 0 {
        return String::new();
    }
    let ps = trimmed_parts(keys);
    let mut shown: Vec<Vec<char>> = Vec::new();
    let mut i: usize = 0;
    while i < ps.len()
        invariant
            i <= ps@.len(),
            views(ps@) == parts_of(keys@),
            shown@.len() == i,
            forall|k: int| 0 <= k < i ==> #[trigger] shown@[k]@ == shown_part(ps@[k]@),
        decreases ps.len() - i,
    {
        let p = ps[i].as_slice();
        if bit_of(p) == 0 {
            shown.push(symbol(p));
        } else {
            shown.push(crate::words::slice_vec(p, 0, p.len()));
            assert(shown@[i as int]@ =~= ps@[i as int]@);
        }
        i += 1;
    }
    assert(views(shown@) =~= parts_of(keys@).map_values(|p: Seq<char>| shown_part(p)));
    string_of(join_vec(&shown, chars_of(" + ").as_slice()).as_slice())
}

/// The keys an action is bound to: the user's, else its default.
pub open spec fn keys_for_spec(a: (Seq<char>, Seq<char>, Seq<char>, Seq<char>, Seq<char>), configured: Seq<(Seq<char>, Seq<char>)>) -> Seq<char> {
    match lookup(configured, a.0) {
        Some(k) => k,
        None => a.4,
    }
}

pub fn keys_for(action: &Action, configured: &Vec<(String, String)>) -> (r: String)
    ensures
        r@ == keys_for_spec(action_view(*action), pairs(configured@)),
{
    let id = chars_of(action.id);
    let mut i: usize = 0;
    while i < configured.len() && !same(chars_of(configured[i].0.as_str()).as_slice(), id.as_slice())
        invariant
            i <= configured@.len(),
            id@ == action.id@,
            forall|j: int| 0 <= j < i ==> !key_is(action.id@)(#[trigger] pairs(configured@)[j]),
        decreases configured.len() - i,
    {
        i += 1;
    }
    proof {
        lemma_first_where(pairs(configured@), key_is(action.id@), i as int);
    }
    if i < configured.len() {
        configured[i].1.clone()
    } else {
        String::from_str(action.default_keys)
    }
}

/// A binding as `hyprctl binds` reports it.
#[derive(Debug)]
pub struct Bind {
    pub modmask: u32,
    pub key: String,
    pub description: String,
}

/// Whether a binding owns a combination and is not the plugin's own.
pub open spec fn clashes(mask: int, key: Seq<char>) -> spec_fn(Bind) -> bool {
    |b: Bind| b.modmask == mask && eq_ignore_ascii_case(b.key@, key) && !starts_with(b.description@, MARKER@)
        && !starts_with(b.description@, LEGACY_MARKER@)
}

/// The binding that already owns a combination, described, ignoring the
/// plugin's own; nothing when the combination has no key or nothing owns it.
pub open spec fn conflict_spec(keys: Seq<char>, binds: Seq<Bind>) -> Seq<char> {
    let key = key_spec(keys);
    let k = first_where(binds, clashes(modmask_spec(keys), key));
    if key.len() == 0 || k == binds.len() {
        Seq::empty()
    } else if binds[k].description@.len() == 0 {
        "another binding"@
    } else {
        binds[k].description@
    }
}

pub fn conflict_for(keys: &str, binds: &[Bind]) -> (r: String)
    requires
        modmask_spec(keys@) <= u32::MAX,
    ensures
        r@ == conflict_spec(keys@, binds@),
{
    let mask = modmask(keys);
    let key = key_of(keys);
    if key.as_str().is_empty() {
        return String::new();
    }
    let k = chars_of(key.as_str());
    let marker = chars_of(MARKER);
    let legacy = chars_of(LEGACY_MARKER);
    let mut i: usize = 0;
    while i < binds.len()
        invariant
            i <= binds@.len(),
            mask as int == modmask_spec(keys@),
            k@ == key_spec(keys@),
            key_spec(keys@).len() > 0,
            marker@ == MARKER@,
            legacy@ == LEGACY_MARKER@,
            forall|j: int| 0 <= j < i ==> !clashes(modmask_spec(keys@), key_spec(keys@))(#[trigger] binds@[j]),
        decreases binds.len() - i,
    {
        let b = &binds[i];
        let d = chars_of(b.description.as_str());
        if b.modmask == mask && eq_ignore_ascii_case_vec(chars_of(b.key.as_str()).as_slice(), k.as_slice())
            && !starts_with_vec(d.as_slice(), marker.as_slice()) && !starts_with_vec(d.as_slice(), legacy.as_slice()) {
            assert(clashes(modmask_spec(keys@), key_spec(keys@))(binds@[i as int]));
            proof {
                lemma_first_where(binds@, clashes(modmask_spec(keys@), key_spec(keys@)), i as int);
            }
            if d.len() == 0 {
                return String::from_str("another binding");
            }
            return b.description.clone();
        }
        i += 1;
    }
    proof {
        lemma_first_where(binds@, clashes(modmask_spec(keys@), key_spec(keys@)), i as int);
    }
    String::new()
}

/// One shortcut as the panel lists it.
#[derive(Debug)]
pub struct Shortcut {
    pub id: String,
    pub view: String,
    pub label: String,
    pub keys: String,
    /// The same combination with punctuation shown as the key it is printed on.
    pub display: String,
    /// Description of the binding that already owns this combination, if any.
    pub conflict: String,
}

/// Whether the shortcuts are installed, and each of them.
#[derive(Debug)]
pub struct Status {
    pub installed: bool,
    pub shortcuts: Vec<Shortcut>,
}

/// Whether every action's combination has a modifier mask that fits in `u32`.
pub open spec fn masks_fit(configured: Seq<(Seq<char>, Seq<char>)>) -> bool {
    forall|i: int| 0 <= i < action_table().len() ==> modmask_spec(keys_for_spec(#[trigger] action_table()[i], configured)) <= u32::MAX
}

/// What the panel lists of an action.
pub open spec fn shortcut_matches(s: Shortcut, a: (Seq<char>, Seq<char>, Seq<char>, Seq<char>, Seq<char>), configured: Seq<(Seq<char>, Seq<char>)>, binds: Seq<Bind>) -> bool {
    let keys = keys_for_spec(a, configured);
    &&& s.id@ == a.0
    &&& s.view@ == a.1
    &&& s.label@ == a.2
    &&& s.keys@ == keys
    &&& s.display@ == pretty_spec(keys)
    &&& s.conflict@ == conflict_spec(keys, binds)
}

/// The shortcuts as the panel lists them, one per action, given whether the
/// plugin's file is installed and sourced, the user's keys, and the current
/// bindings (none when conflicts are not asked for).
pub fn status(installed: bool, configured: &Vec<(String, String)>, binds: &[Bind]) -> (r: Status)
    requires
        masks_fit(pairs(configured@)),
    ensures
        r.installed == installed,
        r.shortcuts@.len() == action_table().len(),
        forall|i: int| 0 <= i < r.shortcuts@.len() ==> shortcut_matches(#[trigger] r.shortcuts@[i], action_table()[i], pairs(configured@), binds@),
{
    let acts = actions();
    let mut out: Vec<Shortcut> = Vec::new();
    let mut i: usize = 0;
    while i < acts.len()
        invariant
            i <= acts@.len(),
            acts@.map_values(|a: Action| action_view(a)) == action_table(),
            masks_fit(pairs(configured@)),
            out@.len() == i,
            forall|k: int| 0 <= k < i ==> shortcut_matches(#[trigger] out@[k], action_table()[k], pairs(configured@), binds@),
        decreases acts.len() - i,
    {
        let a = &acts[i];
        assert(action_table()[i as int] == action_view(*a));
        let keys = keys_for(a, configured);
        let conflict = conflict_for(keys.as_str(), binds);
        let display = pretty(keys.as_str());
        out.push(Shortcut {
            id: String::from_str(a.id),
            view: String::from_str(a.view),
            label: String::from_str(a.label),
            keys,
            display,
            conflict,
        });
        i += 1;
    }
    Status { installed, shortcuts: out }
}

/// The first lines of the generated file.
pub open spec fn render_header() -> Seq<char> {
    "-- Generated by the Omgato plugin. Edit the shortcuts from the\n-- panel rather than here; this file is rewritten when they change.\n\n"@
}

/// The line that binds one action.
pub open spec fn bind_line(keys: Seq<char>, a: (Seq<char>, Seq<char>, Seq<char>, Seq<char>, Seq<char>)) -> Seq<char> {
    "o.bind("@ + debug_text(keys) + ", "@ + debug_text(MARKER@ + " "@ + a.2) + ", "@ + debug_text(a.3) + ")\n"@
}

/// The binding lines of the actions that are bound, in order.
pub open spec fn bind_lines(acts: Seq<(Seq<char>, Seq<char>, Seq<char>, Seq<char>, Seq<char>)>, configured: Seq<(Seq<char>, Seq<char>)>) -> Seq<char>
    decreases acts.len(),
{
    if acts.len() == 0 {
        Seq::empty()
    } else {
        let rest = bind_lines(acts.drop_last(), configured);
        let keys = keys_for_spec(acts.last(), configured);
        if trim(keys).len() == 0 {
            rest
        } else {
            rest + bind_line(keys, acts.last())
        }
    }
}

/// The generated bindings file: a header, then one line per bound action.
pub fn render(configured: &Vec<(String, String)>) -> (r: String)
    ensures
        r@ == render_header() + bind_lines(action_table(), pairs(configured@)),
{
    let acts = actions();
    let ghost table = action_table();
    let mut out = chars_of("-- Generated by the Omgato plugin. Edit the shortcuts from the\n-- panel rather than here; this file is rewritten when they change.\n\n");
    let mut i: usize = 0;
    while i < acts.len()
        invariant
            i <= acts@.len(),
            acts@.map_values(|a: Action| action_view(a)) == table,
            table == action_table(),
            out@ == render_header() + bind_lines(table.take(i as int), pairs(configured@)),
        decreases acts.len() - i,
    {
        let a = &acts[i];
        assert(table[i as int] == action_view(*a));
        assert(table.take(i + 1).drop_last() =~= table.take(i as int));
        assert(table.take(i + 1).last() == action_view(*a));
        let keys = keys_for(a, configured);
        let ghost before = out@;
        if trim_vec(chars_of(keys.as_str()).as_slice()).len() > 0 {
            let mut label = chars_of(MARKER);
            extend(&mut label, chars_of(" ").as_slice());
            extend(&mut label, chars_of(a.label).as_slice());
            let label_s = string_of(label.as_slice());
            extend(&mut out, chars_of("o.bind(").as_slice());
            extend(&mut out, chars_of(debug_str(keys.as_str()).as_str()).as_slice());
            extend(&mut out, chars_of(", ").as_slice());
            extend(&mut out, chars_of(debug_str(label_s.as_str()).as_str()).as_slice());
            extend(&mut out, chars_of(", ").as_slice());
            extend(&mut out, chars_of(debug_str(a.command).as_str()).as_slice());
            extend(&mut out, chars_of(")\n").as_slice());
            assert(out@ =~= before + bind_line(keys@, action_view(*a)));
        }
        i += 1;
    }
    assert(table.take(acts@.len() as int) =~= table);
    string_of(out.as_slice())
}

/// Whether an action of that id exists.
pub open spec fn known_id(id: Seq<char>) -> bool {
    exists|i: int| 0 <= i < action_table().len() && (#[trigger] action_table()[i]).0 == id
}

/// Refuses a shortcut that names no action.
pub fn check_id(id: &str) -> (r: Result<(), String>)
    ensures
        known_id(id@) ==> r is Ok,
        !known_id(id@) ==> (r matches Err(e) && e@ == "unknown shortcut: "@ + id@),
{
    let acts = actions();
    let want = chars_of(id);
    let mut i: usize = 0;
    while i < acts.len()
        invariant
            i <= acts@.len(),
            acts@.map_values(|a: Action| action_view(a)) == action_table(),
            want@ == id@,
            forall|k: int| 0 <= k < i ==> (#[trigger] action_table()[k]).0 != id@,
        decreases acts.len() - i,
    {
        assert(action_table()[i as int] == action_view(acts@[i as int]));
        if same(chars_of(acts[i].id).as_slice(), want.as_slice()) {
            return Ok(());
        }
        i += 1;
    }
    let mut v = chars_of("unknown shortcut: ");
    extend(&mut v, want.as_slice());
    Err(string_of(v.as_slice()))
}

/// The user's keys with one action rebound: blank keys remove its entry;
/// other keys, trimmed, replace it (in place) or are added at the end.
pub open spec fn rebound_spec(m: Seq<(Seq<char>, Seq<char>)>, id: Seq<char>, keys: Seq<char>) -> Seq<(Seq<char>, Seq<char>)>
    decreases m.len(),
{
    if trim(keys).len() == 0 {
        if m.len() == 0 {
            m
        } else if m.last().0 == id {
            rebound_spec(m.drop_last(), id, keys)
        } else {
            rebound_spec(m.drop_last(), id, keys).push(m.last())
        }
    } else {
        let i = first_where(m, key_is(id));
        if i < m.len() {
            m.update(i, (id, trim(keys)))
        } else {
            m.push((id, trim(keys)))
        }
    }
}

/// Looking a key up in a list with one more entry at the end.
proof fn lemma_lookup_push(m: Seq<(Seq<char>, Seq<char>)>, x: (Seq<char>, Seq<char>), k: Seq<char>)
    ensures
        lookup(m.push(x), k) == match lookup(m, k) {
            Some(v) => Some(v),
            None => if x.0 == k {
                Some(x.1)
            } else {
                None
            },
        },
{
    lemma_first_where_bounds(m, key_is(k));
    lemma_first_where_push(m, x, key_is(k));
    let i = first_where(m, key_is(k));
    if i < m.len() {
        assert(m.push(x)[i] == m[i]);
    } else {
        assert(m.push(x)[m.len() as int] == x);
    }
}

/// Removing every entry of one key leaves it unbound and every other key
/// bound as before.
proof fn lemma_unbind(m: Seq<(Seq<char>, Seq<char>)>, id: Seq<char>, keys: Seq<char>, k: Seq<char>)
    requires
        trim(keys).len() == 0,
    ensures
        lookup(rebound_spec(m, id, keys), k) == if k == id {
            None
        } else {
            lookup(m, k)
        },
    decreases m.len(),
{
    if m.len() > 0 {
        let t = m.drop_last();
        lemma_unbind(t, id, keys, k);
        assert(t.push(m.last()) =~= m);
        lemma_lookup_push(t, m.last(), k);
        if m.last().0 != id {
            lemma_lookup_push(rebound_spec(t, id, keys), m.last(), k);
        }
    } else {
        assert(lookup(m, k) is None);
    }
}

/// Binding a key to keys that are not blank makes it bound to them, trimmed,
/// and leaves every other key bound as before.
proof fn lemma_bind(m: Seq<(Seq<char>, Seq<char>)>, id: Seq<char>, keys: Seq<char>, k: Seq<char>)
    requires
        trim(keys).len() > 0,
    ensures
        lookup(rebound_spec(m, id, keys), k) == if k == id {
            Some(trim(keys))
        } else {
            lookup(m, k)
        },
{
    let i = first_where(m, key_is(id));
    lemma_first_where_bounds(m, key_is(id));
    if i < m.len() {
        let u = m.update(i, (id, trim(keys)));
        assert forall|j: int| 0 <= j < m.len() implies key_is(k)(#[trigger] m[j]) == key_is(k)(u[j]) by {
            if j == i {
                assert(m[j].0 == id);
            }
        }
        lemma_first_where_same(m, u, key_is(k));
        lemma_first_where_bounds(m, key_is(k));
        if k == id {
            assert forall|j: int| 0 <= j < i implies !key_is(k)(#[trigger] u[j]) by {
                assert(u[j] == m[j]);
            }
            lemma_first_where(u, key_is(k), i);
        } else {
            let f = first_where(m, key_is(k));
            if f < m.len() {
                assert(f != i);
                assert(u[f] == m[f]);
            }
        }
    } else {
        lemma_lookup_push(m, (id, trim(keys)), k);
        if k == id {
            assert(lookup(m, k) is None);
        }
    }
}

/// The keys an action is bound to after rebinding: its default when the
/// keys given are blank, else those keys trimmed. Every other action keeps
/// the keys it had.
pub proof fn lemma_rebind_keys(
    m: Seq<(Seq<char>, Seq<char>)>,
    id: Seq<char>,
    keys: Seq<char>,
    a: (Seq<char>, Seq<char>, Seq<char>, Seq<char>, Seq<char>),
)
    ensures
        a.0 == id && trim(keys).len() == 0 ==> keys_for_spec(a, rebound_spec(m, id, keys)) == a.4,
        a.0 == id && trim(keys).len() > 0 ==> keys_for_spec(a, rebound_spec(m, id, keys)) == trim(keys),
        a.0 != id ==> keys_for_spec(a, rebound_spec(m, id, keys)) == keys_for_spec(a, m),
{
    if trim(keys).len() == 0 {
        lemma_unbind(m, id, keys, a.0);
    } else {
        lemma_bind(m, id, keys, a.0);
    }
}

pub fn rebind(configured: Vec<(String, String)>, id: &str, keys: &str) -> (r: Vec<(String, String)>)
    ensures
        pairs(r@) == rebound_spec(pairs(configured@), id@, keys@),
{
    let want = chars_of(id);
    let t = trim_vec(chars_of(keys).as_slice());
    let ghost cv = pairs(configured@);
    if t.len() == 0 {
        let mut out: Vec<(String, String)> = Vec::new();
        assert(cv.len() == configured.len());
        let mut rest = configured;
        let mut k: usize = 0;
        assert(cv.skip(0) =~= cv);
        assert(cv.take(0) =~= Seq::<(Seq<char>, Seq<char>)>::empty());
        while rest.len() > 0
            invariant
                k <= cv.len(),
                cv.len() <= usize::MAX,
                pairs(rest@) == cv.skip(k as int),
                rest@.len() + k == cv.len(),
                want@ == id@,
                trim(keys@).len() == 0,
                pairs(out@) == rebound_spec(cv.take(k as int), id@, keys@),
            decreases rest.len(),
        {
            let e = rest.remove(0);
            assert(pairs(rest@) =~= cv.skip(k as int).drop_first());
            assert(cv.skip(k as int)[0] == (e.0@, e.1@));
            assert(cv.take(k + 1).drop_last() =~= cv.take(k as int));
            assert(cv.take(k + 1).last() == cv[k as int]);
            assert(cv.skip(k + 1) =~= cv.skip(k as int).drop_first());
            if !same(chars_of(e.0.as_str()).as_slice(), want.as_slice()) {
                let ghost before = pairs(out@);
                out.push(e);
                assert(pairs(out@) =~= before.push(cv[k as int]));
            }
            k += 1;
        }
        assert(cv.take(k as int) =~= cv);
        return out;
    }
    let mut m = configured;
    let mut i: usize = 0;
    while i < m.len() && !same(chars_of(m[i].0.as_str()).as_slice(), want.as_slice())
        invariant
            i <= m@.len(),
            want@ == id@,
            forall|j: int| 0 <= j < i ==> !key_is(id@)(#[trigger] pairs(m@)[j]),
        decreases m.len() - i,
    {
        i += 1;
    }
    proof {
        lemma_first_where(pairs(m@), key_is(id@), i as int);
    }
    let value = string_of(t.as_slice());
    if i < m.len() {
        m.set(i, (String::from_str(id), value));
        assert(pairs(m@) =~= cv.update(i as int, (id@, trim(keys@))));
    } else {
        m.push((String::from_str(id), value));
        assert(pairs(m@) =~= cv.push((id@, trim(keys@))));
    }
    m
}

} // verus!
