//! The stream deck as the panel draws it: its pages in order, each key (a
//! configured button, a page arrow, or blank), the pedal's gestures in words,
//! and the remembered configurations behind undo.
use vstd::prelude::*;
use crate::camlink::procfs::last_segment;
use crate::omgato::lights::{key_is, lookup, pairs};
use crate::paths::{file_name, file_name_of};
use crate::omgato::state::{Flags, Recorded};
use crate::order::{Ranked, key_lt, lex_lt, lemma_lex_irreflexive, sorted_by_rank, stable_sort, text_key, text_lt};
use crate::search::{first_where, lemma_first_where};
use crate::text::{ascii_upper, chars_of, opt_view, string_of, string_views, upper_char, views};
use crate::numbers::{nat_chars, nat_text};
use crate::words::{
    extend, join, join_vec, lines, lines_vec, same, slice_vec, split, split_vec, starts_with,
    starts_with_vec, strip_cr, strip_prefix, strip_prefix_vec, trim, trim_start, trim_start_vec, trim_vec, words,
    words_vec, split_once_str, split_once_str_vec,
};

verus! {

/// The services that drive the deck and the pedal.
pub open spec fn services() -> Seq<Seq<char>> {
    seq!["streamdeck-ctl.service"@, "streamdeck-ctl-deck.service"@]
}

/// A device as `streamdeck-ctl ls --json` reports it, which reads it from the
/// device library, so every model lays out correctly without a table here.
#[derive(Debug, Clone)]
pub struct Device {
    pub kind: String,
    pub name: String,
    pub serial: String,
    pub keys: u8,
    pub cols: u8,
    pub rows: u8,
    pub encoders: u8,
    pub visual: bool,
    pub pedal: bool,
}

/// One key as the panel draws it.
#[derive(Debug)]
pub struct Key {
    pub index: u8,
    /// "button" for a configured key, "page" for a pagination arrow, "blank" otherwise
    pub kind: String,
    pub preview: String,
    pub label: String,
    pub glyph: String,
    pub icon: String,
    pub bg: String,
    pub fg: String,
    pub action: String,
    pub target: String,
}

/// What a pedal gesture is bound to.
#[derive(Debug)]
pub struct Binding {
    pub action: String,
    /// What the gesture will actually do, in words.
    pub label: String,
}

/// One page of keys.
#[derive(Debug)]
pub struct Page {
    pub name: String,
    pub keys: Vec<Key>,
}

/// What the panel shows of the deck.
#[derive(Debug)]
pub struct Status {
    pub devices: Vec<Device>,
    pub pages: Vec<Page>,
    pub default_page: String,
    pub brightness: u8,
    pub auto_paginate: bool,
    pub display_off: bool,
    pub pedal: Vec<(String, Vec<(String, Binding)>)>,
    pub services: Vec<(String, String)>,
    pub history: Flags,
}

/// A configured button.
#[derive(Debug)]
pub struct ButtonConfig {
    pub index: i64,
    pub label: String,
    pub glyph: String,
    pub icon: String,
    pub bg: String,
    pub fg: String,
    pub action: String,
}

/// A configured page.
#[derive(Debug)]
pub struct PageConfig {
    pub buttons: Vec<ButtonConfig>,
}

/// The deck's configuration. The pages are in name order, each name once
/// (see [`DeckConfig::well_formed`]).
#[derive(Debug)]
pub struct DeckConfig {
    pub brightness: u8,
    pub default_page: String,
    pub auto_paginate: bool,
    pub display_off: bool,
    pub page_order: Vec<String>,
    pub pages: Vec<(String, PageConfig)>,
}

/// The deck's defaults, the same as the deck daemon's own: brightness 70,
/// the page "main" first, pagination arrows on, the display on, and no pages.
impl Default for DeckConfig {
    fn default() -> (r: DeckConfig)
        ensures
            r.brightness == 70,
            r.default_page@ == "main"@,
            r.auto_paginate,
            !r.display_off,
            r.page_order@.len() == 0,
            r.pages@.len() == 0,
            r.well_formed(),
    {
        DeckConfig {
            brightness: 70,
            default_page: String::from_str("main"),
            auto_paginate: true,
            display_off: false,
            page_order: Vec::new(),
            pages: Vec::new(),
        }
    }
}

/// Whether one page name comes before another in the order of texts.
pub open spec fn name_before(a: Seq<char>, b: Seq<char>) -> bool {
    lex_lt(text_key(a), text_key(b))
}

/// Pages whose names strictly increase: in name order, each name once, as a
/// map from names to pages holds them.
pub open spec fn pages_in_order(pages: Seq<(String, PageConfig)>) -> bool {
    forall|i: int, j: int| 0 <= i < j < pages.len() ==> name_before(#[trigger] pages[i].0@, #[trigger] pages[j].0@)
}

/// Whether a page is not listed before a name.
pub open spec fn not_before(name: Seq<char>) -> spec_fn((String, PageConfig)) -> bool {
    |p: (String, PageConfig)| !name_before(p.0@, name)
}

/// The pages with a page put under a name, as a map's insert does: it
/// replaces the page of that name, or else goes in where the names stay in
/// order.
pub open spec fn with_page(pages: Seq<(String, PageConfig)>, name: String, page: PageConfig) -> Seq<(String, PageConfig)> {
    let i = first_where(pages, not_before(name@));
    if i < pages.len() && pages[i].0@ == name@ {
        pages.update(i, (name, page))
    } else {
        pages.insert(i, (name, page))
    }
}

proof fn lemma_text_key_injective(a: Seq<char>, b: Seq<char>)
    requires
        text_key(a) == text_key(b),
    ensures
        a == b,
{
    assert(a.len() == text_key(a).len());
    assert forall|k: int| 0 <= k < a.len() implies a[k] == b[k] by {
        assert(text_key(a)[k] == a[k] as int);
        assert(text_key(b)[k] == b[k] as int);
    }
    assert(a =~= b);
}

impl DeckConfig {
    /// The pages are in name order, each name once.
    pub open spec fn well_formed(&self) -> bool {
        pages_in_order(self.pages@)
    }

    /// Puts a page under a name, as inserting into a map from names to pages
    /// does: the page of that name is replaced, or the page goes in where the
    /// names stay in order.
    pub fn insert_page(&mut self, name: String, page: PageConfig)
        requires
            old(self).well_formed(),
        ensures
            final(self).well_formed(),
            final(self).pages@ == with_page(old(self).pages@, name, page),
            final(self).brightness == old(self).brightness,
            final(self).default_page == old(self).default_page,
            final(self).auto_paginate == old(self).auto_paginate,
            final(self).display_off == old(self).display_off,
            final(self).page_order == old(self).page_order,
    {
        let n = chars_of(name.as_str());
        let ghost ps = self.pages@;
        let mut i: usize = 0;
        while i < self.pages.len() && text_lt(chars_of(self.pages[i].0.as_str()).as_slice(), n.as_slice())
            invariant
                i <= self.pages@.len(),
                self.pages@ == ps,
                n@ == name@,
                forall|k: int| 0 <= k < i ==> !not_before(name@)(#[trigger] ps[k]),
            decreases self.pages.len() - i,
        {
            i += 1;
        }
        proof {
            lemma_first_where(ps, not_before(name@), i as int);
        }
        let ghost entry = (name, page);
        if i < self.pages.len() && same(chars_of(self.pages[i].0.as_str()).as_slice(), n.as_slice()) {
            self.pages.set(i, (name, page));
            assert(self.pages@ == ps.update(i as int, entry));
            assert forall|a: int, b: int| 0 <= a < b < self.pages@.len() implies name_before(
                #[trigger] self.pages@[a].0@,
                #[trigger] self.pages@[b].0@,
            ) by {
                assert(ps[a].0@ == self.pages@[a].0@ && ps[b].0@ == self.pages@[b].0@);
                assert(name_before(ps[a].0@, ps[b].0@));
            }
        } else {
            self.pages.insert(i, (name, page));
            assert(self.pages@ == ps.insert(i as int, entry));
            proof {
                if i < ps.len() {
                    if text_key(ps[i as int].0@) == text_key(entry.0@) {
                        lemma_text_key_injective(ps[i as int].0@, entry.0@);
                    }
                    crate::order::lemma_lex_total(text_key(ps[i as int].0@), text_key(entry.0@));
                    assert(name_before(entry.0@, ps[i as int].0@));
                }
            }
            assert forall|a: int, b: int| 0 <= a < b < self.pages@.len() implies name_before(
                #[trigger] self.pages@[a].0@,
                #[trigger] self.pages@[b].0@,
            ) by {
                let q = self.pages@;
                if b < i {
                    assert(q[a] == ps[a] && q[b] == ps[b]);
                    assert(name_before(ps[a].0@, ps[b].0@));
                } else if b == i {
                    assert(q[a] == ps[a]);
                    assert(!not_before(name@)(ps[a]));
                } else if a == i {
                    assert(q[b] == ps[b - 1]);
                    if b - 1 > i {
                        assert(name_before(ps[i as int].0@, ps[b - 1].0@));
                        crate::order::lemma_lex_transitive(text_key(name@), text_key(ps[i as int].0@), text_key(ps[b - 1].0@));
                    }
                } else if a < i {
                    assert(q[a] == ps[a] && q[b] == ps[b - 1]);
                    assert(name_before(ps[a].0@, ps[b - 1].0@));
                } else {
                    assert(q[a] == ps[a - 1] && q[b] == ps[b - 1]);
                    assert(name_before(ps[a - 1].0@, ps[b - 1].0@));
                }
            }
        }
    }
}

// ------------------------------------------- the deck tool's text listing

/// The key grid of a model named in the deck tool's text listing, as
/// columns and rows.
pub open spec fn layout_spec(kind: Seq<char>) -> (u8, u8) {
    if kind == "XL"@ {
        (8, 4)
    } else if kind == "Mini"@ {
        (3, 2)
    } else if kind == "Plus"@ {
        (4, 2)
    } else {
        (5, 3)
    }
}

pub fn layout(kind: &str) -> (r: (u8, u8))
    ensures
        r == layout_spec(kind@),
{
    let k = chars_of(kind);
    if same(k.as_slice(), chars_of("XL").as_slice()) {
        (8, 4)
    } else if same(k.as_slice(), chars_of("Mini").as_slice()) {
        (3, 2)
    } else if same(k.as_slice(), chars_of("Plus").as_slice()) {
        (4, 2)
    } else {
        (5, 3)
    }
}

/// A device as the deck tool's text listing names it.
#[derive(Debug)]
pub struct ListedDevice {
    pub kind: String,
    pub serial: String,
    pub cols: u8,
    pub rows: u8,
    pub pedal: bool,
}

pub open spec fn listed_view(d: ListedDevice) -> (Seq<char>, Seq<char>, u8, u8, bool) {
    (d.kind@, d.serial@, d.cols, d.rows, d.pedal)
}

/// The device one line of the listing names: the model before "  serial=",
/// the serial after it, both trimmed; a line with no model names none.
pub open spec fn listed_line(line: Seq<char>) -> Option<(Seq<char>, Seq<char>, u8, u8, bool)> {
    let (k, sr) = match split_once_str(line, "  serial="@) {
        Some((a, b)) => (a, b),
        None => (line, Seq::<char>::empty()),
    };
    let kind = trim(k);
    if kind.len() == 0 {
        None
    } else {
        Some((kind, trim(sr), layout_spec(kind).0, layout_spec(kind).1, kind == "Pedal"@))
    }
}

pub open spec fn listed_spec(ls: Seq<Seq<char>>) -> Seq<(Seq<char>, Seq<char>, u8, u8, bool)>
    decreases ls.len(),
{
    if ls.len() == 0 {
        Seq::empty()
    } else {
        let rest = listed_spec(ls.drop_last());
        match listed_line(ls.last()) {
            Some(d) => rest.push(d),
            None => rest,
        }
    }
}

/// The devices the deck tool's text listing names, one per line.
pub fn listed_devices(listing: &str) -> (r: Vec<ListedDevice>)
    ensures
        r@.map_values(|d: ListedDevice| listed_view(d)) == listed_spec(lines(listing@)),
{
    let ls = lines_vec(chars_of(listing).as_slice());
    let ghost lv = views(ls@);
    let sep = chars_of("  serial=");
    let mut out: Vec<ListedDevice> = Vec::new();
    let mut i: usize = 0;
    while i < ls.len()
        invariant
            i <= ls@.len(),
            lv == views(ls@),
            lv == lines(listing@),
            sep@ == "  serial="@,
            out@.map_values(|d: ListedDevice| listed_view(d)) == listed_spec(lv.take(i as int)),
        decreases ls.len() - i,
    {
        assert(lv.take(i + 1).drop_last() =~= lv.take(i as int));
        assert(lv.take(i + 1).last() == ls@[i as int]@);
        let line = &ls[i];
        let (k, sr) = match split_once_str_vec(line.as_slice(), sep.as_slice()) {
            Some((a, b)) => (a, b),
            None => (slice_vec(line.as_slice(), 0, line.len()), Vec::new()),
        };
        proof {
            if split_once_str(line@, sep@) is None {
                assert(k@ =~= line@);
                assert(sr@ =~= Seq::<char>::empty());
            }
        }
        let kind = trim_vec(k.as_slice());
        if kind.len() > 0 {
            let kind_text = string_of(kind.as_slice());
            let (cols, rows) = layout(kind_text.as_str());
            let pedal = same(kind.as_slice(), chars_of("Pedal").as_slice());
            let ghost before = out@.map_values(|d: ListedDevice| listed_view(d));
            out.push(ListedDevice {
                kind: kind_text,
                serial: string_of(trim_vec(sr.as_slice()).as_slice()),
                cols,
                rows,
                pedal,
            });
            assert(out@.map_values(|d: ListedDevice| listed_view(d)) =~= before.push(
                listed_line(ls@[i as int]@).unwrap(),
            ));
        }
        i += 1;
    }
    assert(lv.take(ls@.len() as int) =~= lv);
    out
}

/// How round the exported key previews are.
pub const PREVIEW_RADIUS: &'static str = "9";

/// What the key previews were last exported for: the key count, the columns,
/// the corner radius and the configuration's revision. The previews are
/// exported again when this changes.
pub fn preview_stamp(keys: u8, cols: u8, revision: &str) -> (r: String)
    ensures
        r@ == "keys="@ + nat_text(keys as nat) + " cols="@ + nat_text(cols as nat) + " radius="@ + PREVIEW_RADIUS@
            + " config="@ + revision@,
{
    let mut v = chars_of("keys=");
    extend(&mut v, nat_chars(keys as u64).as_slice());
    extend(&mut v, chars_of(" cols=").as_slice());
    extend(&mut v, nat_chars(cols as u64).as_slice());
    extend(&mut v, chars_of(" radius=").as_slice());
    extend(&mut v, chars_of(PREVIEW_RADIUS).as_slice());
    extend(&mut v, chars_of(" config=").as_slice());
    extend(&mut v, chars_of(revision).as_slice());
    string_of(v.as_slice())
}

/// The position a button has when the configuration gives none.
pub fn no_index() -> (r: i64)
    ensures
        r == -1,
{
    -1
}

/// The two ends of the bottom row, matching streamdeck-ctl's own placement.
pub fn pagination_indices(keys: u8, cols: u8) -> (r: Option<(u8, u8)>)
    ensures
        (keys == 0 || cols == 0 || keys < cols) ==> r is None,
        !(keys == 0 || cols == 0 || keys < cols) ==> r == Some(((keys - cols) as u8, (keys - 1) as u8)),
{
    if keys == 0 || cols == 0 || keys < cols {
        return None;
    }
    Some((keys - cols, keys - 1))
}

// -------------------------------------------------------------- snapshots

/// A remembered configuration. Brightness and display power are left out of the
/// comparison so dragging the brightness slider cannot evict real key edits from
/// the eleven slots, while the stored text still restores them.
#[derive(Debug)]
pub struct Snapshot {
    pub text: String,
    pub key: String,
}

/// Whether a line of the configuration is left out of the comparison.
pub open spec fn volatile_line(l: Seq<char>) -> bool {
    starts_with(trim_start(l), "brightness"@) || starts_with(trim_start(l), "display_off"@)
}

/// The lines that count, in order.
pub open spec fn kept_lines(ls: Seq<Seq<char>>) -> Seq<Seq<char>>
    decreases ls.len(),
{
    if ls.len() == 0 {
        Seq::empty()
    } else if volatile_line(ls.last()) {
        kept_lines(ls.drop_last())
    } else {
        kept_lines(ls.drop_last()).push(ls.last())
    }
}

/// What a configuration is compared by.
pub open spec fn snapshot_key(text: Seq<char>) -> Seq<char> {
    join(kept_lines(lines(text)), "\n"@)
}

proof fn lemma_kept_concat(a: Seq<Seq<char>>, b: Seq<Seq<char>>)
    ensures
        kept_lines(a + b) == kept_lines(a) + kept_lines(b),
    decreases b.len(),
{
    if b.len() == 0 {
        assert(a + b =~= a);
        assert(kept_lines(a) + kept_lines(b) =~= kept_lines(a));
    } else {
        let b0 = b.drop_last();
        lemma_kept_concat(a, b0);
        assert((a + b).drop_last() =~= a + b0);
        assert((a + b).last() == b.last());
        if !volatile_line(b.last()) {
            assert((kept_lines(a) + kept_lines(b0)).push(b.last()) =~= kept_lines(a) + kept_lines(b0).push(b.last()));
        }
    }
}

/// The lines before a line that follows `x`, where `x` is empty or ends a line.
pub open spec fn lines_before(x: Seq<char>) -> Seq<Seq<char>> {
    if x.len() == 0 {
        Seq::empty()
    } else {
        split(x.drop_last(), '\n').map_values(|l: Seq<char>| strip_cr(l))
    }
}

/// The lines of text with one whole line in its middle: those before it,
/// the line, and the lines of what follows.
proof fn lemma_lines_around(x: Seq<char>, l: Seq<char>, y: Seq<char>)
    requires
        !l.contains('\n'),
        x.len() == 0 || x.last() == '\n',
    ensures
        lines(x + l + "\n"@ + y) == lines_before(x) + seq![strip_cr(l)] + lines(y),
{
    reveal_strlit("\n");
    let s = x + l + "\n"@ + y;
    let nl = seq!['\n'];
    crate::words::lemma_split_free(l, '\n');
    crate::words::lemma_split_join(l, y, '\n');
    crate::words::lemma_split_nonempty(y, '\n');
    let b = split(y, '\n');
    let a0: Seq<Seq<char>> = if x.len() == 0 {
        Seq::empty()
    } else {
        split(x.drop_last(), '\n')
    };
    if x.len() == 0 {
        assert(s =~= l + nl + y);
        assert(split(s, '\n') =~= a0 + seq![l] + b);
    } else {
        let x0 = x.drop_last();
        assert(s =~= x0 + nl + (l + nl + y));
        crate::words::lemma_split_join(x0, l + nl + y, '\n');
        assert(split(s, '\n') =~= a0 + seq![l] + b);
    }
    let p = split(s, '\n');
    assert(p.last() == b.last());
    assert(p.drop_last() =~= a0 + seq![l] + b.drop_last());
    let f = |t: Seq<char>| strip_cr(t);
    assert(p.drop_last().map_values(f) =~= a0.map_values(f) + seq![strip_cr(l)] + b.drop_last().map_values(f));
    assert(lines_before(x) =~= a0.map_values(f));
    if p.last().len() == 0 {
        assert(lines(s) =~= lines_before(x) + seq![strip_cr(l)] + lines(y));
    } else {
        assert(lines(s) =~= lines_before(x) + seq![strip_cr(l)] + lines(y));
    }
}

/// Changing one brightness or display-power line of the deck's
/// configuration leaves what a snapshot is compared by as it was, so moving
/// the brightness slider cannot push real key edits out of the history.
pub proof fn lemma_volatile_edit(x: Seq<char>, l1: Seq<char>, l2: Seq<char>, y: Seq<char>)
    requires
        x.len() == 0 || x.last() == '\n',
        !l1.contains('\n') && !l1.contains('\r'),
        !l2.contains('\n') && !l2.contains('\r'),
        volatile_line(l1),
        volatile_line(l2),
    ensures
        snapshot_key(x + l1 + "\n"@ + y) == snapshot_key(x + l2 + "\n"@ + y),
{
    lemma_lines_around(x, l1, y);
    lemma_lines_around(x, l2, y);
    assert(strip_cr(l1) == l1) by {
        if l1.len() > 0 && l1.last() == '\r' {
            assert(l1[l1.len() - 1] == '\r');
        }
    }
    assert(strip_cr(l2) == l2) by {
        if l2.len() > 0 && l2.last() == '\r' {
            assert(l2[l2.len() - 1] == '\r');
        }
    }
    let pre = lines_before(x);
    let post = lines(y);
    lemma_kept_concat(pre + seq![l1], post);
    lemma_kept_concat(pre + seq![l2], post);
    assert((pre + seq![l1]).drop_last() =~= pre);
    assert((pre + seq![l2]).drop_last() =~= pre);
    assert(kept_lines(pre + seq![l1]) == kept_lines(pre));
    assert(kept_lines(pre + seq![l2]) == kept_lines(pre));
}

impl Snapshot {
    pub fn new(text: String) -> (r: Snapshot)
        ensures
            r.text@ == text@,
            r.key@ == snapshot_key(text@),
    {
        let ls = lines_vec(chars_of(text.as_str()).as_slice());
        let ghost lv = views(ls@);
        let mut kept: Vec<Vec<char>> = Vec::new();
        let mut i: usize = 0;
        while i < ls.len()
            invariant
                i <= ls@.len(),
                lv == views(ls@),
                views(kept@) == kept_lines(lv.take(i as int)),
            decreases ls.len() - i,
        {
            assert(lv.take(i + 1).drop_last() =~= lv.take(i as int));
            assert(lv.take(i + 1).last() == ls@[i as int]@);
            let t = trim_start_vec(ls[i].as_slice());
            if !(starts_with_vec(t.as_slice(), chars_of("brightness").as_slice()) || starts_with_vec(
                t.as_slice(),
                chars_of("display_off").as_slice(),
            )) {
                let ghost before = views(kept@);
                let piece = slice_vec(ls[i].as_slice(), 0, ls[i].len());
                assert(piece@ =~= ls@[i as int]@);
                kept.push(piece);
                assert(views(kept@) =~= before.push(ls@[i as int]@));
            }
            i += 1;
        }
        assert(lv.take(ls@.len() as int) =~= lv);
        let key = string_of(join_vec(&kept, chars_of("\n").as_slice()).as_slice());
        Snapshot { text, key }
    }
}

/// A configuration is its text and the key it is compared by.
impl View for Snapshot {
    type V = (Seq<char>, Seq<char>);

    open spec fn view(&self) -> (Seq<char>, Seq<char>) {
        (self.text@, self.key@)
    }
}

impl Recorded for Snapshot {
    open spec fn same_record(&self, other: &Self) -> bool {
        self.key@ == other.key@
    }

    fn same_as(&self, other: &Self) -> (r: bool) {
        self.key == other.key
    }
}

// ------------------------------------------------------------------ pages

pub open spec fn page_names(cfg: DeckConfig) -> Seq<Seq<char>> {
    cfg.pages@.map_values(|p: (String, PageConfig)| p.0@)
}

/// Whether a page of that name is configured.
pub open spec fn has_page(cfg: DeckConfig, name: Seq<char>) -> bool {
    page_names(cfg).contains(name)
}

/// The page names in the order the deck walks them: the configured order
/// (keeping only configured pages) when there is one, else by name.
pub open spec fn ordered_spec(cfg: DeckConfig) -> Seq<Seq<char>> {
    let order = string_views(cfg.page_order@);
    if order.len() == 0 {
        page_names(cfg)
    } else {
        order.filter(|n: Seq<char>| has_page(cfg, n))
    }
}

fn configured_page(cfg: &DeckConfig, name: &[char]) -> (r: bool)
    ensures
        r == has_page(*cfg, name@),
{
    let mut i: usize = 0;
    while i < cfg.pages.len()
        invariant
            i <= cfg.pages@.len(),
            forall|k: int| 0 <= k < i ==> page_names(*cfg)[k] != name@,
        decreases cfg.pages.len() - i,
    {
        if same(chars_of(cfg.pages[i].0.as_str()).as_slice(), name) {
            assert(page_names(*cfg)[i as int] == name@);
            return true;
        }
        i += 1;
    }
    false
}

pub fn ordered_pages(cfg: &DeckConfig) -> (r: Vec<String>)
    ensures
        string_views(r@) == ordered_spec(*cfg),
{
    let mut r: Vec<String> = Vec::new();
    if cfg.page_order.len() == 0 {
        let mut i: usize = 0;
        while i < cfg.pages.len()
            invariant
                i <= cfg.pages@.len(),
                string_views(r@) == page_names(*cfg).take(i as int),
            decreases cfg.pages.len() - i,
        {
            let ghost before = string_views(r@);
            let name = cfg.pages[i].0.clone();
            assert(page_names(*cfg)[i as int] == name@);
            r.push(name);
            assert(string_views(r@) =~= before.push(name@));
            assert(page_names(*cfg).take(i + 1) =~= page_names(*cfg).take(i as int).push(name@));
            i += 1;
        }
        assert(page_names(*cfg).take(cfg.pages@.len() as int) =~= page_names(*cfg));
        return r;
    }
    let ghost order = string_views(cfg.page_order@);
    let mut i: usize = 0;
    while i < cfg.page_order.len()
        invariant
            i <= cfg.page_order@.len(),
            order == string_views(cfg.page_order@),
            string_views(r@) == order.take(i as int).filter(|n: Seq<char>| has_page(*cfg, n)),
        decreases cfg.page_order.len() - i,
    {
        let n = &cfg.page_order[i];
        assert(order.take(i + 1).drop_last() =~= order.take(i as int));
        assert(order.take(i + 1).last() == n@);
        proof {
            order.take(i as int).lemma_filter_push(n@, |n: Seq<char>| has_page(*cfg, n));
        }
        let ghost before = string_views(r@);
        if configured_page(cfg, chars_of(n.as_str()).as_slice()) {
            r.push(n.clone());
            assert(string_views(r@) =~= before.push(n@));
        }
        assert(order.take(i as int).push(n@) =~= order.take(i + 1));
        i += 1;
    }
    assert(order.take(cfg.page_order@.len() as int) =~= order);
    r
}

pub open spec fn is_name(page: Seq<char>) -> spec_fn(Seq<char>) -> bool {
    |n: Seq<char>| n == page
}

/// The pages before and after a page in the walking order, when the deck
/// paginates by itself: with auto-pagination on, the key at the bottom left
/// walks to the previous page and the one at the bottom right to the next,
/// unless a configured button already claims them.
pub open spec fn neighbours_spec(cfg: DeckConfig, page: Seq<char>) -> (Option<Seq<char>>, Option<Seq<char>>) {
    let order = ordered_spec(cfg);
    let at = first_where(order, is_name(page));
    if !cfg.auto_paginate || at == order.len() {
        (None, None)
    } else {
        (if at >= 1 {
            Some(order[at - 1])
        } else {
            None
        }, if at + 1 < order.len() {
            Some(order[at + 1])
        } else {
            None
        })
    }
}

/// With pagination on, a page's arrows lead to the pages right before and
/// right after its first place in the walking order (none past either end),
/// and a page that is not in that order gets no arrows; with pagination off
/// no page gets any.
pub proof fn lemma_neighbours_adjacent(cfg: DeckConfig, page: Seq<char>)
    ensures
        ({
            let order = ordered_spec(cfg);
            let nb = neighbours_spec(cfg, page);
            &&& (!cfg.auto_paginate || !order.contains(page)) ==> nb == (None::<Seq<char>>, None::<Seq<char>>)
            &&& forall|i: int|
                #![trigger order[i]]
                cfg.auto_paginate && 0 <= i < order.len() && order[i] == page && (forall|k: int|
                    0 <= k < i ==> order[k] != page) ==> nb == (
                    if i >= 1 { Some(order[i - 1]) } else { None::<Seq<char>> },
                    if i + 1 < order.len() { Some(order[i + 1]) } else { None::<Seq<char>> },
                )
        }),
{
    let order = ordered_spec(cfg);
    if !order.contains(page) {
        assert forall|k: int| 0 <= k < order.len() implies !is_name(page)(#[trigger] order[k]) by {}
        lemma_first_where(order, is_name(page), order.len() as int);
    }
    assert forall|i: int|
        #![trigger order[i]]
        cfg.auto_paginate && 0 <= i < order.len() && order[i] == page && (forall|k: int|
            0 <= k < i ==> order[k] != page) implies neighbours_spec(cfg, page) == (
            if i >= 1 { Some(order[i - 1]) } else { None::<Seq<char>> },
            if i + 1 < order.len() { Some(order[i + 1]) } else { None::<Seq<char>> },
        ) by {
        assert forall|k: int| 0 <= k < i implies !is_name(page)(#[trigger] order[k]) by {}
        lemma_first_where(order, is_name(page), i);
    }
}

pub fn neighbours(cfg: &DeckConfig, page: &str) -> (r: (Option<String>, Option<String>))
    requires
        cfg.well_formed(),
    ensures
        (opt_view(r.0), opt_view(r.1)) == neighbours_spec(*cfg, page@),
{
    if !cfg.auto_paginate {
        return (None, None);
    }
    let order = ordered_pages(cfg);
    let p = chars_of(page);
    let mut at: usize = 0;
    while at < order.len() && !same(chars_of(order[at].as_str()).as_slice(), p.as_slice())
        invariant
            at <= order@.len(),
            p@ == page@,
            forall|k: int| 0 <= k < at ==> !is_name(page@)(#[trigger] string_views(order@)[k]),
        decreases order.len() - at,
    {
        at += 1;
    }
    proof {
        lemma_first_where(string_views(order@), is_name(page@), at as int);
    }
    if at == order.len() {
        return (None, None);
    }
    let prev = if at >= 1 {
        Some(order[at - 1].clone())
    } else {
        None
    };
    let next = if at + 1 < order.len() {
        Some(order[at + 1].clone())
    } else {
        None
    };
    (prev, next)
}

// ---------------------------------------------------------------- actions

/// `str::trim_start_matches` with a text pattern: every leading copy of it
/// removed.
pub open spec fn strip_all(s: Seq<char>, p: Seq<char>) -> Seq<char>
    decreases s.len(),
{
    if p.len() > 0 && starts_with(s, p) {
        strip_all(s.skip(p.len() as int), p)
    } else {
        s
    }
}

fn strip_all_vec(s: &[char], p: &[char]) -> (r: Vec<char>)
    ensures
        r@ == strip_all(s@, p@),
{
    let mut cur = slice_vec(s, 0, s.len());
    assert(cur@ =~= s@);
    while p.len() > 0 && starts_with_vec(cur.as_slice(), p)
        invariant
            strip_all(cur@, p@) == strip_all(s@, p@),
        decreases cur@.len(),
    {
        let next = slice_vec(cur.as_slice(), p.len(), cur.len());
        assert(next@ =~= cur@.skip(p@.len() as int));
        cur = next;
    }
    cur
}

/// Every `a` replaced by `b`.
pub open spec fn replace_char(s: Seq<char>, a: char, b: char) -> Seq<char> {
    s.map_values(|c: char| if c == a { b } else { c })
}

fn replace_vec(s: &[char], a: char, b: char) -> (r: Vec<char>)
    ensures
        r@ == replace_char(s@, a, b),
{
    let mut r: Vec<char> = Vec::new();
    let mut i: usize = 0;
    while i < s.len()
        invariant
            i <= s@.len(),
            r@ == replace_char(s@.take(i as int), a, b),
        decreases s.len() - i,
    {
        r.push(if s[i] == a { b } else { s[i] });
        assert(replace_char(s@.take(i + 1), a, b) =~= replace_char(s@.take(i as int), a, b).push(
            if s@[i as int] == a { b } else { s@[i as int] },
        ));
        i += 1;
    }
    assert(s@.take(s@.len() as int) =~= s@);
    r
}

pub open spec fn is_url() -> spec_fn(Seq<char>) -> bool {
    |p: Seq<char>| starts_with(p, "http"@)
}

/// What an action starts, in words: nothing for no action; a key's name
/// (without `KEY_`, underscores as spaces); "Page NAME" for a page; else,
/// for a command, the site of the first URL among its arguments, the
/// launcher's name for an `omarchy-launch-` command (dashes as spaces, first
/// letter upper-cased), or the program's file name.
pub open spec fn describe_spec(action: Seq<char>) -> Seq<char> {
    let a = trim(action);
    if a.len() == 0 || a == "noop"@ {
        Seq::empty()
    } else if starts_with(a, "key:"@) {
        replace_char(strip_all(a.skip(4), "KEY_"@), '_', ' ')
    } else if starts_with(a, "page:"@) {
        "Page "@ + a.skip(5)
    } else {
        let command = trim(
            match strip_prefix(a, "exec:"@) {
                Some(c) => c,
                None => a,
            },
        );
        let ws = words(command);
        if ws.len() == 0 {
            Seq::empty()
        } else {
            let binary = last_segment(ws[0]);
            let args = ws.skip(1);
            let k = first_where(args, is_url());
            if k < args.len() {
                split(strip_all(strip_all(strip_all(args[k], "https://"@), "http://"@), "www."@), '/')[0]
            } else if starts_with(binary, "omarchy-launch-"@) {
                let name = replace_char(binary.skip(15), '-', ' ');
                if name.len() > 0 {
                    name.update(0, ascii_upper(name[0]))
                } else {
                    name
                }
            } else {
                binary
            }
        }
    }
}

/// What an action starts, in words.
pub fn describe(action: &str) -> (r: String)
    ensures
        r@ == describe_spec(action@),
{
    proof {
        reveal_strlit("noop");
        reveal_strlit("key:");
        reveal_strlit("page:");
        reveal_strlit("omarchy-launch-");
    }
    let a = trim_vec(chars_of(action).as_slice());
    if a.len() == 0 || same(a.as_slice(), chars_of("noop").as_slice()) {
        return String::new();
    }
    if starts_with_vec(a.as_slice(), chars_of("key:").as_slice()) {
        let rest = slice_vec(a.as_slice(), 4, a.len());
        assert(rest@ =~= a@.skip(4));
        let k = strip_all_vec(rest.as_slice(), chars_of("KEY_").as_slice());
        return string_of(replace_vec(k.as_slice(), '_', ' ').as_slice());
    }
    if starts_with_vec(a.as_slice(), chars_of("page:").as_slice()) {
        let rest = slice_vec(a.as_slice(), 5, a.len());
        assert(rest@ =~= a@.skip(5));
        let mut v = chars_of("Page ");
        extend(&mut v, rest.as_slice());
        return string_of(v.as_slice());
    }
    let stripped = match strip_prefix_vec(a.as_slice(), chars_of("exec:").as_slice()) {
        Some(c) => c,
        None => a,
    };
    let command = trim_vec(stripped.as_slice());
    let ws = words_vec(command.as_slice());
    if ws.len() == 0 {
        return String::new();
    }
    assert(views(ws@)[0] == ws@[0]@);
    let binary = crate::camlink::procfs::last_segment_vec(ws[0].as_slice());
    let ghost args = views(ws@).skip(1);
    let mut k: usize = 1;
    while k < ws.len() && !starts_with_vec(ws[k].as_slice(), chars_of("http").as_slice())
        invariant
            1 <= k <= ws@.len(),
            args == views(ws@).skip(1),
            forall|j: int| 0 <= j < k - 1 ==> !is_url()(#[trigger] args[j]),
        decreases ws.len() - k,
    {
        assert(args[k - 1] == ws@[k as int]@);
        k += 1;
    }
    proof {
        if k < ws@.len() {
            assert(args[k - 1] == ws@[k as int]@);
        }
        lemma_first_where(args, is_url(), k - 1);
    }
    if k < ws.len() {
        let u1 = strip_all_vec(ws[k].as_slice(), chars_of("https://").as_slice());
        let u2 = strip_all_vec(u1.as_slice(), chars_of("http://").as_slice());
        let u3 = strip_all_vec(u2.as_slice(), chars_of("www.").as_slice());
        let parts = split_vec(u3.as_slice(), '/');
        proof {
            crate::words::lemma_split_nonempty(u3@, '/');
        }
        assert(views(parts@)[0] == parts@[0]@);
        return string_of(parts[0].as_slice());
    }
    if starts_with_vec(binary.as_slice(), chars_of("omarchy-launch-").as_slice()) {
        let rest = slice_vec(binary.as_slice(), 15, binary.len());
        assert(rest@ =~= binary@.skip(15));
        let mut name = replace_vec(rest.as_slice(), '-', ' ');
        if name.len() > 0 {
            let c = upper_char(name[0]);
            name.set(0, c);
        }
        return string_of(name.as_slice());
    }
    string_of(binary.as_slice())
}

// ------------------------------------------------------------------- keys

/// What the panel draws for a key.
pub open spec fn key_view(k: Key) -> (u8, Seq<char>, Seq<char>, Seq<char>, Seq<char>, Seq<char>, Seq<char>, Seq<char>, Seq<char>, Seq<char>) {
    (k.index, k.kind@, k.preview@, k.label@, k.glyph@, k.icon@, k.bg@, k.fg@, k.action@, k.target@)
}

/// The button configured at a position: the last one listed there, as
/// collecting them into a map keeps.
pub open spec fn button_at(bs: Seq<ButtonConfig>, i: int) -> Option<ButtonConfig>
    decreases bs.len(),
{
    if bs.len() == 0 {
        None
    } else if bs.last().index == i {
        Some(bs.last())
    } else {
        button_at(bs.drop_last(), i)
    }
}

/// The positions of the page arrows, as [`pagination_indices`] gives them.
pub open spec fn arrows(keys: u8, cols: u8) -> Option<(int, int)> {
    if keys == 0 || cols == 0 || keys < cols {
        None
    } else {
        Some((keys - cols, keys - 1))
    }
}

/// How the panel draws the key at position `i` of a page: the button
/// configured there; else an arrow to the previous or next page when that
/// position is an arrow and there is such a page; else a blank.
pub open spec fn key_spec(cfg: DeckConfig, name: Seq<char>, page: PageConfig, count: u8, cols: u8, previews: Seq<Seq<char>>, i: int) -> (u8, Seq<char>, Seq<char>, Seq<char>, Seq<char>, Seq<char>, Seq<char>, Seq<char>, Seq<char>, Seq<char>) {
    let e = Seq::<char>::empty();
    match button_at(page.buttons@, i) {
        Some(b) => (i as u8, "button"@, previews[i], b.label@, b.glyph@, match file_name_of(b.icon@) {
            Some(n) => n,
            None => e,
        }, b.bg@, b.fg@, b.action@, e),
        None => {
            let nb = neighbours_spec(cfg, name);
            let target = match arrows(count, cols) {
                Some((p, n)) => if i == p {
                    nb.0
                } else if i == n {
                    nb.1
                } else {
                    None
                },
                None => None,
            };
            match target {
                Some(t) => (i as u8, "page"@, previews[i], t, e, e, e, e, "page:"@ + t, t),
                None => (i as u8, "blank"@, previews[i], e, e, e, e, e, e, e),
            }
        },
    }
}

fn find_button(bs: &Vec<ButtonConfig>, i: u8) -> (r: Option<&ButtonConfig>)
    ensures
        match r {
            Some(b) => button_at(bs@, i as int) == Some(*b),
            None => button_at(bs@, i as int) is None,
        },
{
    let mut j: usize = bs.len();
    assert(bs@.take(bs@.len() as int) =~= bs@);
    while j > 0 && bs[j - 1].index != i as i64
        invariant
            j <= bs@.len(),
            button_at(bs@, i as int) == button_at(bs@.take(j as int), i as int),
        decreases j,
    {
        assert(bs@.take(j as int).drop_last() =~= bs@.take(j - 1));
        j -= 1;
    }
    if j == 0 {
        None
    } else {
        assert(bs@.take(j as int).last() == bs@[j - 1]);
        Some(&bs[j - 1])
    }
}

fn blank() -> (r: String)
    ensures
        r@ == Seq::<char>::empty(),
{
    String::new()
}

/// The keys of a page as the panel draws them, given the preview image of
/// each position (empty when there is none).
pub fn keys(cfg: &DeckConfig, name: &str, page: &PageConfig, count: u8, cols: u8, previews: &Vec<String>) -> (r: Vec<Key>)
    requires
        cfg.well_formed(),
        previews@.len() == count,
    ensures
        r@.len() == count,
        forall|i: int| 0 <= i < count ==> key_view(#[trigger] r@[i]) == key_spec(*cfg, name@, *page, count, cols, string_views(previews@), i),
{
    let nb = neighbours(cfg, name);
    let pagination = pagination_indices(count, cols);
    let ghost pv = string_views(previews@);
    let mut r: Vec<Key> = Vec::new();
    let mut index: u8 = 0;
    while index < count
        invariant
            index <= count,
            previews@.len() == count,
            pv == string_views(previews@),
            (opt_view(nb.0), opt_view(nb.1)) == neighbours_spec(*cfg, name@),
            pagination == match arrows(count, cols) {
                Some((p, n)) => Some((p as u8, n as u8)),
                None => None::<(u8, u8)>,
            },
            r@.len() == index,
            forall|i: int| 0 <= i < index ==> key_view(#[trigger] r@[i]) == key_spec(*cfg, name@, *page, count, cols, pv, i),
        decreases count - index,
    {
        let preview = previews[index as usize].clone();
        assert(pv[index as int] == preview@);
        let key = match find_button(&page.buttons, index) {
            Some(b) => {
                let icon = match file_name(b.icon.as_str()) {
                    Some(n) => n,
                    None => blank(),
                };
                Key {
                    index,
                    kind: String::from_str("button"),
                    preview,
                    label: b.label.clone(),
                    glyph: b.glyph.clone(),
                    icon,
                    bg: b.bg.clone(),
                    fg: b.fg.clone(),
                    action: b.action.clone(),
                    target: blank(),
                }
            },
            None => {
                let target = match pagination {
                    Some((p, n)) => {
                        if index == p {
                            match &nb.0 {
                                Some(t) => Some(t.clone()),
                                None => None,
                            }
                        } else if index == n {
                            match &nb.1 {
                                Some(t) => Some(t.clone()),
                                None => None,
                            }
                        } else {
                            None
                        }
                    },
                    None => None,
                };
                match target {
                    Some(t) => {
                        let mut action = chars_of("page:");
                        extend(&mut action, chars_of(t.as_str()).as_slice());
                        Key {
                            index,
                            kind: String::from_str("page"),
                            preview,
                            label: t.clone(),
                            glyph: blank(),
                            icon: blank(),
                            bg: blank(),
                            fg: blank(),
                            action: string_of(action.as_slice()),
                            target: t,
                        }
                    },
                    None => Key {
                        index,
                        kind: String::from_str("blank"),
                        preview,
                        label: blank(),
                        glyph: blank(),
                        icon: blank(),
                        bg: blank(),
                        fg: blank(),
                        action: blank(),
                        target: blank(),
                    },
                }
            },
        };
        r.push(key);
        index += 1;
    }
    r
}

/// A page's place in the configured order, and its index among the
/// configured pages.
#[derive(Debug, Clone, Copy, PartialEq, Eq, Structural)]
pub struct PagePlace {
    pub rank: usize,
    pub index: usize,
}

/// Pages are sorted by their place in the configured order.
impl Ranked for PagePlace {
    open spec fn rank(&self) -> Seq<Seq<int>> {
        seq![seq![self.rank as int]]
    }

    fn before(&self, other: &Self) -> (r: bool) {
        proof {
            let x = self.rank();
            let y = other.rank();
            assert(x.drop_first() =~= Seq::<Seq<int>>::empty());
            assert(y.drop_first() =~= Seq::<Seq<int>>::empty());
            assert(x[0].drop_first() =~= Seq::<int>::empty());
            assert(y[0].drop_first() =~= Seq::<int>::empty());
            assert(x[0][0] == self.rank as int);
            assert(y[0][0] == other.rank as int);
            assert(!lex_lt(x[0].drop_first(), y[0].drop_first()));
            assert(!key_lt(x.drop_first(), y.drop_first()));
            if self.rank == other.rank {
                assert(x[0] =~= y[0]);
                lemma_lex_irreflexive(x[0]);
            } else {
                assert(x[0] != y[0]);
                assert(lex_lt(x[0], y[0]) == (self.rank < other.rank));
            }
        }
        self.rank < other.rank
    }
}

/// The places of the configured pages: each page's position in the
/// configured order, or after every listed page.
pub open spec fn page_places(cfg: DeckConfig) -> Seq<PagePlace> {
    Seq::new(
        cfg.pages@.len(),
        |j: int| PagePlace { rank: first_where(string_views(cfg.page_order@), is_name(cfg.pages@[j].0@)) as usize, index: j as usize },
    )
}

/// The pages as the panel draws them, in the configured order (pages it does
/// not list come last, by name), given the preview images of each page's
/// positions.
pub fn pages(cfg: &DeckConfig, count: u8, cols: u8, previews: &Vec<Vec<String>>) -> (r: Vec<Page>)
    requires
        cfg.well_formed(),
        previews@.len() == cfg.pages@.len(),
        forall|j: int| 0 <= j < previews@.len() ==> (#[trigger] previews@[j])@.len() == count,
    ensures
        r@.len() == cfg.pages@.len(),
        forall|i: int| 0 <= i < r@.len() ==> {
            let j = sorted_by_rank(page_places(*cfg))[i].index as int;
            &&& (#[trigger] r@[i]).name@ == cfg.pages@[j].0@
            &&& r@[i].keys@.len() == count
            &&& forall|k: int| 0 <= k < count ==> key_view(#[trigger] r@[i].keys@[k]) == key_spec(
                *cfg,
                cfg.pages@[j].0@,
                cfg.pages@[j].1,
                count,
                cols,
                string_views(previews@[j]@),
                k,
            )
        },
{
    let ghost ov = string_views(cfg.page_order@);
    let mut placed: Vec<PagePlace> = Vec::new();
    let mut j: usize = 0;
    while j < cfg.pages.len()
        invariant
            j <= cfg.pages@.len(),
            ov == string_views(cfg.page_order@),
            placed@ == page_places(*cfg).take(j as int),
        decreases cfg.pages.len() - j,
    {
        let name = chars_of(cfg.pages[j].0.as_str());
        let mut pos: usize = 0;
        while pos < cfg.page_order.len() && !same(chars_of(cfg.page_order[pos].as_str()).as_slice(), name.as_slice())
            invariant
                pos <= cfg.page_order@.len(),
                ov == string_views(cfg.page_order@),
                name@ == cfg.pages@[j as int].0@,
                forall|k: int| 0 <= k < pos ==> !is_name(name@)(#[trigger] ov[k]),
            decreases cfg.page_order.len() - pos,
        {
            pos += 1;
        }
        proof {
            lemma_first_where(ov, is_name(name@), pos as int);
        }
        placed.push(PagePlace { rank: pos, index: j });
        assert(placed@ =~= page_places(*cfg).take(j + 1));
        j += 1;
    }
    assert(placed@ =~= page_places(*cfg));
    let ghost pv = placed@;
    let sorted = stable_sort(placed);
    proof {
        crate::order::lemma_sorted_is_permutation(pv);
        crate::order::lemma_sorted_len(pv);
    }
    let mut out: Vec<Page> = Vec::new();
    let mut i: usize = 0;
    while i < sorted.len()
        invariant
            i <= sorted@.len(),
            sorted@ == sorted_by_rank(pv),
            sorted@.len() == cfg.pages@.len(),
            cfg.well_formed(),
            pv == page_places(*cfg),
            pv.to_multiset() == sorted@.to_multiset(),
            previews@.len() == cfg.pages@.len(),
            forall|j: int| 0 <= j < previews@.len() ==> (#[trigger] previews@[j])@.len() == count,
            out@.len() == i,
            forall|q: int| 0 <= q < i ==> {
                let j = sorted@[q].index as int;
                &&& (#[trigger] out@[q]).name@ == cfg.pages@[j].0@
                &&& out@[q].keys@.len() == count
                &&& forall|k: int| 0 <= k < count ==> key_view(#[trigger] out@[q].keys@[k]) == key_spec(
                    *cfg,
                    cfg.pages@[j].0@,
                    cfg.pages@[j].1,
                    count,
                    cols,
                    string_views(previews@[j]@),
                    k,
                )
            },
        decreases sorted.len() - i,
    {
        let p = sorted[i];
        proof {
            broadcast use vstd::seq_lib::group_to_multiset_ensures;
            assert(sorted@.contains(p));
            assert(sorted@.to_multiset().count(p) > 0);
            assert(pv.contains(p));
            let q = choose|q: int| 0 <= q < pv.len() && pv[q] == p;
            assert(pv[q].index == q);
        }
        let entry = &cfg.pages[p.index];
        let page = Page {
            name: entry.0.clone(),
            keys: keys(cfg, entry.0.as_str(), &entry.1, count, cols, &previews[p.index]),
        };
        out.push(page);
        i += 1;
    }
    out
}

// ------------------------------------------------------------------ pedal

/// The pedal's positions and gestures, in the order they are listed.
pub open spec fn positions() -> Seq<Seq<char>> {
    seq!["left"@, "center"@, "right"@]
}

pub open spec fn gestures() -> Seq<Seq<char>> {
    seq!["tap"@, "long"@, "double"@]
}

/// What a gesture is bound to: its text in the configuration, with "noop" as
/// nothing.
pub open spec fn gesture_action(pedal: Seq<(Seq<char>, Seq<(Seq<char>, Seq<char>)>)>, pos: Seq<char>, gesture: Seq<char>) -> Seq<char> {
    let i = first_where(pedal, |p: (Seq<char>, Seq<(Seq<char>, Seq<char>)>)| p.0 == pos);
    let v = if i < pedal.len() {
        match lookup(pedal[i].1, gesture) {
            Some(a) => a,
            None => Seq::empty(),
        }
    } else {
        Seq::empty()
    };
    if v == "noop"@ {
        Seq::empty()
    } else {
        v
    }
}

pub open spec fn pedal_view(p: Seq<(String, Vec<(String, String)>)>) -> Seq<(Seq<char>, Seq<(Seq<char>, Seq<char>)>)> {
    p.map_values(|e: (String, Vec<(String, String)>)| (e.0@, pairs(e.1@)))
}

fn gesture_of(pedal: &Vec<(String, Vec<(String, String)>)>, pos: &str, gesture: &str) -> (r: String)
    ensures
        r@ == gesture_action(pedal_view(pedal@), pos@, gesture@),
{
    let p = chars_of(pos);
    let ghost pv = pedal_view(pedal@);
    let mut i: usize = 0;
    while i < pedal.len() && !same(chars_of(pedal[i].0.as_str()).as_slice(), p.as_slice())
        invariant
            i <= pedal@.len(),
            pv == pedal_view(pedal@),
            p@ == pos@,
            forall|k: int| 0 <= k < i ==> !(|e: (Seq<char>, Seq<(Seq<char>, Seq<char>)>)| e.0 == pos@)(#[trigger] pv[k]),
        decreases pedal.len() - i,
    {
        i += 1;
    }
    proof {
        lemma_first_where(pv, |e: (Seq<char>, Seq<(Seq<char>, Seq<char>)>)| e.0 == pos@, i as int);
    }
    let v: String = if i < pedal.len() {
        let table = &pedal[i].1;
        let g = chars_of(gesture);
        let mut k: usize = 0;
        while k < table.len() && !same(chars_of(table[k].0.as_str()).as_slice(), g.as_slice())
            invariant
                k <= table@.len(),
                g@ == gesture@,
                forall|j: int| 0 <= j < k ==> !key_is(gesture@)(#[trigger] pairs(table@)[j]),
            decreases table.len() - k,
        {
            k += 1;
        }
        proof {
            lemma_first_where(pairs(table@), key_is(gesture@), k as int);
        }
        if k < table.len() {
            table[k].1.clone()
        } else {
            String::new()
        }
    } else {
        String::new()
    };
    if same(chars_of(v.as_str()).as_slice(), chars_of("noop").as_slice()) {
        String::new()
    } else {
        v
    }
}

/// What each pedal gesture is bound to, with its description, by position
/// then gesture, from the pedal's configuration (its text entries).
pub fn pedal_bindings(pedal: &Vec<(String, Vec<(String, String)>)>) -> (r: Vec<(String, Vec<(String, Binding)>)>)
    ensures
        r@.len() == 3,
        forall|i: int| 0 <= i < 3 ==> {
            &&& (#[trigger] r@[i]).0@ == positions()[i]
            &&& r@[i].1@.len() == 3
            &&& forall|g: int| 0 <= g < 3 ==> {
                let b = #[trigger] r@[i].1@[g];
                &&& b.0@ == gestures()[g]
                &&& b.1.action@ == gesture_action(pedal_view(pedal@), positions()[i], gestures()[g])
                &&& b.1.label@ == describe_spec(b.1.action@)
            }
        },
{
    let pos_names: Vec<&'static str> = vec!["left", "center", "right"];
    let gest_names: Vec<&'static str> = vec!["tap", "long", "double"];
    assert(pos_names@.map_values(|s: &'static str| s@) =~= positions());
    assert(gest_names@.map_values(|s: &'static str| s@) =~= gestures());
    let mut r: Vec<(String, Vec<(String, Binding)>)> = Vec::new();
    let mut i: usize = 0;
    while i < 3
        invariant
            i <= 3,
            pos_names@.len() == 3,
            gest_names@.len() == 3,
            pos_names@.map_values(|s: &'static str| s@) == positions(),
            gest_names@.map_values(|s: &'static str| s@) == gestures(),
            r@.len() == i,
            forall|q: int| 0 <= q < i ==> {
                &&& (#[trigger] r@[q]).0@ == positions()[q]
                &&& r@[q].1@.len() == 3
                &&& forall|g: int| 0 <= g < 3 ==> {
                    let b = #[trigger] r@[q].1@[g];
                    &&& b.0@ == gestures()[g]
                    &&& b.1.action@ == gesture_action(pedal_view(pedal@), positions()[q], gestures()[g])
                    &&& b.1.label@ == describe_spec(b.1.action@)
                }
            },
        decreases 3 - i,
    {
        let pos = pos_names[i];
        assert(positions()[i as int] == pos@);
        let mut binds: Vec<(String, Binding)> = Vec::new();
        let mut g: usize = 0;
        while g < 3
            invariant
                g <= 3,
                i < 3,
                gest_names@.len() == 3,
                gest_names@.map_values(|s: &'static str| s@) == gestures(),
                positions()[i as int] == pos@,
                binds@.len() == g,
                forall|q: int| 0 <= q < g ==> {
                    let b = #[trigger] binds@[q];
                    &&& b.0@ == gestures()[q]
                    &&& b.1.action@ == gesture_action(pedal_view(pedal@), positions()[i as int], gestures()[q])
                    &&& b.1.label@ == describe_spec(b.1.action@)
                },
            decreases 3 - g,
        {
            let gesture = gest_names[g];
            assert(gestures()[g as int] == gesture@);
            let action = gesture_of(pedal, pos, gesture);
            let label = describe(action.as_str());
            binds.push((String::from_str(gesture), Binding { action, label }));
            g += 1;
        }
        r.push((String::from_str(pos), binds));
        i += 1;
    }
    r
}

/// The state of each service, from `systemctl is-active`'s lines in order
/// (trimmed; empty when a line is missing).
pub open spec fn service_state(out: Seq<char>, i: int) -> Seq<char> {
    let ls = lines(out);
    if i < ls.len() {
        trim(ls[i])
    } else {
        Seq::empty()
    }
}

pub fn services_status(out: &str) -> (r: Vec<(String, String)>)
    ensures
        r@.len() == 2,
        forall|i: int| 0 <= i < 2 ==> (#[trigger] r@[i]).0@ == services()[i] && r@[i].1@ == service_state(out@, i),
{
    let ls = lines_vec(chars_of(out).as_slice());
    let s0 = if ls.len() > 0 {
        assert(views(ls@)[0] == ls@[0]@);
        string_of(trim_vec(ls[0].as_slice()).as_slice())
    } else {
        String::new()
    };
    let s1 = if ls.len() > 1 {
        assert(views(ls@)[1] == ls@[1]@);
        string_of(trim_vec(ls[1].as_slice()).as_slice())
    } else {
        String::new()
    };
    let r = vec![
        (String::from_str("streamdeck-ctl.service"), s0),
        (String::from_str("streamdeck-ctl-deck.service"), s1),
    ];
    r
}

} // verus!
