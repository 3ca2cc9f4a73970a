//! The overlay panels: at most one is shown at a time. Each transition
//! returns the effects the editor must carry out, in order.

use vstd::prelude::*;
use crate::setup::{border_of, BorderStyle, Config};
use crate::size::{size_text, FontSize};
use crate::text::{split_lines, split_text, string_of, string_views, views};

verus! {

/// The kinds of panel.
#[derive(Clone, Copy, Debug, PartialEq, Eq, Structural)]
pub enum WindowType {
    FontSizeControl,
    FontFamilyMenu,
    MainMenu,
    FontInfo,
    FontList,
}

/// How a panel is to be created.
pub struct CustomWindowConfig {
    pub title: String,
    pub height: usize,
    pub width: usize,
    pub content: Option<String>,
    pub keymaps: bool,
    pub window_type: WindowType,
}

impl CustomWindowConfig {
    /// A panel description without content and without key bindings.
    pub fn new(title: &str, height: usize, width: usize, window_type: WindowType) -> (r: Self)
        ensures
            r.title@ == title@,
            r.height == height,
            r.width == width,
            r.content is None,
            !r.keymaps,
            r.window_type == window_type,
    {
        CustomWindowConfig {
            title: title.to_string(),
            height,
            width,
            content: None,
            keymaps: false,
            window_type,
        }
    }

    /// The same description, with key bindings or without.
    pub fn with_keymaps(self, keymaps: bool) -> (r: Self)
        ensures
            r == (CustomWindowConfig { keymaps, ..self }),
    {
        CustomWindowConfig { keymaps, ..self }
    }

    /// The same description, with this content.
    pub fn with_content(self, content: Option<String>) -> (r: Self)
        ensures
            r == (CustomWindowConfig { content, ..self }),
    {
        CustomWindowConfig { content, ..self }
    }
}

/// The panel shown: its kind and its lines.
pub struct Panel {
    pub kind: WindowType,
    pub lines: Vec<String>,
}

/// What the editor must do after a transition.
pub enum Effect {
    /// Create the panel: a surface with this description and border, the
    /// cursor on this row (from 1) and column.
    Open { config: CustomWindowConfig, border: BorderStyle, row: usize, col: usize },
    /// Destroy the panel and release its surface.
    Close,
    /// Replace the shown panel's lines.
    SetLines(Vec<String>),
    /// Write this configuration text to the file, then signal the terminal to reload.
    Write(String),
    /// Show an informational message.
    Notice(String),
    /// Show an error message.
    Error(String),
}

/// Surfaces an effect acquires (1) or releases (-1).
pub open spec fn surface_change(e: Effect) -> int {
    match e {
        Effect::Open { .. } => 1,
        Effect::Close => -1,
        _ => 0,
    }
}

/// Surfaces a run of effects acquires, less those it releases.
pub open spec fn surfaces(es: Seq<Effect>) -> int
    decreases es.len(),
{
    if es.len() == 0 {
        0
    } else {
        surfaces(es.drop_last()) + surface_change(es.last())
    }
}

/// The live panel, if any.
pub struct FloatWindow {
    pub window: Option<Panel>,
}

/// Surfaces held in a state: one while a panel is shown.
pub open spec fn held(w: FloatWindow) -> int {
    if w.window is Some {
        1
    } else {
        0
    }
}

/// An opening transition: from a closed state, a panel of this kind and
/// these lines is shown and one surface is created; from an open state,
/// nothing changes and a notice says the panel is already open.
pub open spec fn opens(
    before: FloatWindow,
    after: FloatWindow,
    kind: WindowType,
    lines: Seq<Seq<char>>,
    es: Seq<Effect>,
) -> bool {
    if before.window is Some {
        after == before && es.len() == 1 && es[0] is Notice
    } else {
        &&& after.window matches Some(p) && p.kind == kind && string_views(p.lines@) == lines
        &&& es.len() == 1
        &&& es[0] matches Effect::Open { config, .. } && config.window_type == kind
            && config.keymaps
    }
}

/// A closing transition: the state ends closed; an open panel's surface is
/// released, and closing a closed state only gives a notice.
pub open spec fn closes(before: FloatWindow, after: FloatWindow, es: Seq<Effect>) -> bool {
    &&& after.window is None
    &&& before.window is Some ==> es == seq![Effect::Close]
    &&& before.window is None ==> es.len() == 1 && es[0] is Notice
}

/// Effects that neither create nor release a surface leave the count as it is.
pub proof fn lemma_surfaces_quiet(es: Seq<Effect>)
    requires
        forall|i: int| 0 <= i < es.len() ==> surface_change(#[trigger] es[i]) == 0,
    ensures
        surfaces(es) == 0,
    decreases es.len(),
{
    if es.len() > 0 {
        assert forall|i: int| 0 <= i < es.drop_last().len() implies surface_change(#[trigger] es.drop_last()[i]) == 0 by {
            assert(es.drop_last()[i] == es[i]);
        }
        lemma_surfaces_quiet(es.drop_last());
        assert(surface_change(es[es.len() - 1]) == 0);
    }
}

pub proof fn lemma_surfaces_one(e: Effect)
    ensures
        surfaces(seq![e]) == surface_change(e),
{
    assert(seq![e].drop_last() =~= Seq::<Effect>::empty());
    assert(surfaces(Seq::<Effect>::empty()) == 0);
    assert(seq![e].last() == e);
}

/// The width of a panel for these lines: the longest and four more.
pub open spec fn panel_width(ls: Seq<Seq<char>>, fallback: nat) -> nat {
    let l = longest(ls, fallback);
    if l < usize::MAX - 4 {
        l + 4
    } else {
        l
    }
}

/// The effect creates a panel with this title, size, lines, border and cursor.
pub open spec fn shows(
    e: Effect,
    title: Seq<char>,
    height: nat,
    width: nat,
    lines: Seq<Seq<char>>,
    border: BorderStyle,
    row: nat,
    col: nat,
) -> bool {
    e matches Effect::Open { config: c, border: b, row: r, col: cc } && c.title@ == title && c.height
        == height && c.width == width && (c.content matches Some(t) && t@ == crate::text::join_lines(lines))
        && c.keymaps && b == border && r == row && cc == col
}

/// The number of characters of the longest line; `fallback` where there are none.
pub open spec fn longest(ls: Seq<Seq<char>>, fallback: nat) -> nat
    decreases ls.len(),
{
    if ls.len() == 0 {
        fallback
    } else {
        let m = longest(ls.drop_last(), 0);
        let n = ls.last().len();
        let best = if n > m { n } else { m };
        if ls.len() == 1 { n } else { best }
    }
}

/// The index of the first line equal to `s`.
pub open spec fn position(ls: Seq<Seq<char>>, s: Seq<char>) -> Option<nat>
    decreases ls.len(),
{
    if ls.len() == 0 {
        None
    } else {
        match position(ls.drop_last(), s) {
            Some(i) => Some(i),
            None => if ls.last() == s {
                Some((ls.len() - 1) as nat)
            } else {
                None
            },
        }
    }
}

/// The main menu's options.
pub open spec fn menu_items() -> Seq<Seq<char>> {
    seq!["Check current font"@, "Set font family"@, "Set font size"@, "Show installed fonts"@]
}

/// The lines of the size control showing `m` thousandths of a point.
pub open spec fn size_lines(m: int) -> Seq<Seq<char>> {
    seq!["\t\t\t\t"@, "Current size: [ "@ + size_text(m) + " ]"@, "\t\t\t\t"@]
}

/// The length of the longest of `ls`, `fallback` where there are none.
pub fn longest_len(ls: &Vec<String>, fallback: usize) -> (r: usize)
    ensures
        r as nat == longest(string_views(ls@), fallback as nat),
{
    if ls.len() == 0 {
        return fallback;
    }
    let mut best: usize = 0;
    let mut i: usize = 0;
    assert(string_views(ls@).take(0) =~= Seq::<Seq<char>>::empty());
    while i < ls.len()
        invariant
            i <= ls@.len(),
            ls@.len() > 0,
            i > 0 ==> best as nat == longest(string_views(ls@).take(i as int), 0),
            i == 0 ==> best == 0,
        decreases ls.len() - i,
    {
        let n = crate::text::chars_of(ls[i].as_str()).len();
        let ghost t = string_views(ls@).take(i + 1);
        assert(t.drop_last() =~= string_views(ls@).take(i as int));
        assert(t.last() == ls@[i as int]@);
        if i == 0 || n > best {
            best = n;
        }
        i = i + 1;
    }
    assert(string_views(ls@).take(ls@.len() as int) =~= string_views(ls@));
    best
}

/// The index of the first of `ls` equal to `s`.
pub fn position_of(ls: &Vec<String>, s: &String) -> (r: Option<usize>)
    ensures
        r matches Some(i) ==> position(string_views(ls@), s@) == Some(i as nat),
        r is None ==> position(string_views(ls@), s@) is None,
{
    let mut i: usize = 0;
    assert(string_views(ls@).take(0) =~= Seq::<Seq<char>>::empty());
    while i < ls.len()
        invariant
            i <= ls@.len(),
            position(string_views(ls@).take(i as int), s@) is None,
        decreases ls.len() - i,
    {
        let ghost t = string_views(ls@).take(i + 1);
        assert(t.drop_last() =~= string_views(ls@).take(i as int));
        assert(t.last() == ls@[i as int]@);
        if ls[i].eq(s) {
            proof {
                lemma_position_prefix(string_views(ls@), s@, i as int);
            }
            return Some(i);
        }
        i = i + 1;
    }
    assert(string_views(ls@).take(ls@.len() as int) =~= string_views(ls@));
    None
}

proof fn lemma_position_prefix(ls: Seq<Seq<char>>, s: Seq<char>, i: int)
    requires
        0 <= i < ls.len(),
        position(ls.take(i), s) is None,
        ls[i] == s,
    ensures
        position(ls, s) == Some(i as nat),
    decreases ls.len(),
{
    if i == ls.len() - 1 {
        assert(ls.drop_last() =~= ls.take(i));
    } else {
        assert(ls.drop_last().take(i) =~= ls.take(i));
        lemma_position_prefix(ls.drop_last(), s, i);
    }
}

/// Lines joined with `'\n'` between neighbours.
pub fn join_strings(ls: &Vec<String>) -> (r: String)
    ensures
        r@ == crate::text::join_lines(string_views(ls@)),
{
    let mut cs: Vec<Vec<char>> = Vec::new();
    let mut i: usize = 0;
    while i < ls.len()
        invariant
            i <= ls@.len(),
            views(cs@) == string_views(ls@).take(i as int),
        decreases ls.len() - i,
    {
        let c = crate::text::chars_of(ls[i].as_str());
        let ghost before = views(cs@);
        cs.push(c);
        assert(views(cs@) =~= before.push(ls@[i as int]@));
        assert(string_views(ls@).take(i + 1) =~= string_views(ls@).take(i as int).push(ls@[i as int]@));
        i = i + 1;
        assert(views(cs@) =~= string_views(ls@).take(i as int));
    }
    assert(string_views(ls@).take(ls@.len() as int) =~= string_views(ls@));
    let joined = crate::text::join_text(&cs);
    string_of(joined.as_slice())
}

/// Copies of strings.
pub fn copy_strings(ls: &Vec<String>) -> (r: Vec<String>)
    ensures
        r@ == ls@,
{
    let mut r: Vec<String> = Vec::new();
    let mut i: usize = 0;
    while i < ls.len()
        invariant
            i <= ls@.len(),
            r@ == ls@.take(i as int),
        decreases ls.len() - i,
    {
        r.push(ls[i].clone());
        i = i + 1;
        assert(r@ =~= ls@.take(i as int));
    }
    assert(ls@.take(ls@.len() as int) =~= ls@);
    r
}

/// The panel buffer, modelled as its lines.
pub struct BufferManager;

impl BufferManager {
    /// Sets the buffer's lines to those of `content`.
    pub fn set_buffer_content(buf: &mut Vec<String>, content: &str)
        ensures
            string_views(final(buf)@) == split_lines(content@),
    {
        let cs = crate::text::chars_of(content);
        let ls = split_text(cs.as_slice());
        let mut out: Vec<String> = Vec::new();
        let mut i: usize = 0;
        while i < ls.len()
            invariant
                i <= ls@.len(),
                string_views(out@) == views(ls@).take(i as int),
            decreases ls.len() - i,
        {
            let line = string_of(ls[i].as_slice());
            let ghost before = string_views(out@);
            out.push(line);
            assert(string_views(out@) =~= before.push(ls@[i as int]@));
            assert(views(ls@).take(i + 1) =~= views(ls@).take(i as int).push(ls@[i as int]@));
            i = i + 1;
            assert(string_views(out@) =~= views(ls@).take(i as int));
        }
        assert(views(ls@).take(ls@.len() as int) =~= views(ls@));
        *buf = out;
    }
}

impl FloatWindow {
    /// No panel shown.
    pub fn new() -> (r: Self)
        ensures
            r.window is None,
    {
        FloatWindow { window: None }
    }

    /// Shows a panel, unless one is shown already.
    fn open_window(
        &mut self,
        config: &Config,
        params: CustomWindowConfig,
        lines: Vec<String>,
        row: usize,
        col: usize,
    ) -> (r: Vec<Effect>)
        requires
            params.keymaps,
        ensures
            opens(*old(self), *final(self), params.window_type, string_views(lines@), r@),
            surfaces(r@) == held(*final(self)) - held(*old(self)),
            old(self).window is None ==> r@[0] == (Effect::Open {
                config: params,
                border: border_of(config.border@),
                row,
                col,
            }),
    {
        let mut r: Vec<Effect> = Vec::new();
        if self.window.is_some() {
            r.push(Effect::Notice("Window is already open".to_string()));
            proof {
                lemma_surfaces_one(r@[0]);
            }
            return r;
        }
        let kind = params.window_type;
        let border = config.border_style();
        self.window = Some(Panel { kind, lines });
        r.push(Effect::Open { config: params, border, row, col });
        proof {
            lemma_surfaces_one(r@[0]);
        }
        r
    }

    /// Shows the font family picker: the names, one per line, the cursor on
    /// the current font where it is among them, else on the first line.
    pub fn f_family_win(
        &mut self,
        config: &Config,
        title: &str,
        items: Vec<String>,
        win_height: usize,
        current_font: &String,
    ) -> (r: Vec<Effect>)
        ensures
            opens(*old(self), *final(self), WindowType::FontFamilyMenu, string_views(items@), r@),
            surfaces(r@) == held(*final(self)) - held(*old(self)),
            old(self).window is None ==> shows(
                r@[0],
                title@,
                win_height as nat,
                panel_width(string_views(items@), 30),
                string_views(items@),
                border_of(config.border@),
                match position(string_views(items@), current_font@) {
                    Some(i) => i + 1,
                    None => 1,
                },
                0,
            ),
    {
        let content = join_strings(&items);
        let longest = longest_len(&items, 30);
        let width = if longest < usize::MAX - 4 { longest + 4 } else { longest };
        let params = CustomWindowConfig::new(title, win_height, width, WindowType::FontFamilyMenu)
            .with_content(Some(content)).with_keymaps(true);
        proof {
            lemma_position_bound(string_views(items@), current_font@);
        }
        let row = match position_of(&items, current_font) {
            Some(i) => {
                assert(string_views(items@).len() == items@.len());
                assert(i < items.len());
                i + 1
            },
            None => 1,
        };
        self.open_window(config, params, items, row, 0)
    }

    /// Shows the size control for `size`.
    pub fn f_size_win(&mut self, config: &Config, title: &str, size: FontSize) -> (r: Vec<Effect>)
        ensures
            opens(*old(self), *final(self), WindowType::FontSizeControl, size_lines(size.millis as int), r@),
            surfaces(r@) == held(*final(self)) - held(*old(self)),
            old(self).window is None ==> shows(
                r@[0],
                title@,
                3,
                25,
                size_lines(size.millis as int),
                border_of(config.border@),
                2,
                16,
            ),
    {
        let lines = size_display(size);
        let content = join_strings(&lines);
        let params = CustomWindowConfig::new(title, 3, 25, WindowType::FontSizeControl)
            .with_content(Some(content)).with_keymaps(true);
        self.open_window(config, params, lines, 2, 16)
    }

    /// Shows the main menu.
    pub fn menu_win(&mut self, config: &Config) -> (r: Vec<Effect>)
        ensures
            opens(*old(self), *final(self), WindowType::MainMenu, menu_items(), r@),
            surfaces(r@) == held(*final(self)) - held(*old(self)),
            old(self).window is None ==> shows(
                r@[0],
                " Nekifoch "@,
                4,
                panel_width(menu_items(), 30),
                menu_items(),
                border_of(config.border@),
                1,
                0,
            ),
    {
        let mut items: Vec<String> = Vec::new();
        items.push("Check current font".to_string());
        items.push("Set font family".to_string());
        items.push("Set font size".to_string());
        items.push("Show installed fonts".to_string());
        assert(string_views(items@) =~= menu_items());
        let content = join_strings(&items);
        let longest = longest_len(&items, 30);
        let width = if longest < usize::MAX - 4 { longest + 4 } else { longest };
        let params = CustomWindowConfig::new(" Nekifoch ", 4, width, WindowType::MainMenu)
            .with_content(Some(content)).with_keymaps(true);
        self.open_window(config, params, items, 1, 0)
    }

    /// Shows the current font information.
    pub fn f_check_win(&mut self, config: &Config, title: &str, lines: Vec<String>, win_height: usize) -> (r: Vec<Effect>)
        ensures
            opens(*old(self), *final(self), WindowType::FontInfo, string_views(lines@), r@),
            surfaces(r@) == held(*final(self)) - held(*old(self)),
            old(self).window is None ==> shows(
                r@[0],
                title@,
                win_height as nat,
                panel_width(string_views(lines@), 20),
                string_views(lines@),
                border_of(config.border@),
                1,
                8,
            ),
    {
        let content = join_strings(&lines);
        let longest = longest_len(&lines, 20);
        let width = if longest < usize::MAX - 4 { longest + 4 } else { longest };
        let params = CustomWindowConfig::new(title, win_height, width, WindowType::FontInfo)
            .with_content(Some(content)).with_keymaps(true);
        self.open_window(config, params, lines, 1, 8)
    }

    /// Shows the list of available fonts, laid out in columns.
    pub fn f_list_win(&mut self, config: &Config, title: &str, lines: Vec<String>) -> (r: Vec<Effect>)
        ensures
            opens(*old(self), *final(self), WindowType::FontList, string_views(lines@), r@),
            surfaces(r@) == held(*final(self)) - held(*old(self)),
            old(self).window is None ==> shows(
                r@[0],
                title@,
                lines@.len(),
                panel_width(string_views(lines@), 20),
                string_views(lines@),
                border_of(config.border@),
                1,
                0,
            ),
    {
        let content = join_strings(&lines);
        let longest = longest_len(&lines, 20);
        let width = if longest < usize::MAX - 4 { longest + 4 } else { longest };
        let height = lines.len();
        let params = CustomWindowConfig::new(title, height, width, WindowType::FontList)
            .with_content(Some(content)).with_keymaps(true);
        self.open_window(config, params, lines, 1, 0)
    }

    /// Withdraws a panel whose surface the editor failed to create: the state
    /// ends closed and the editor's error is reported.
    pub fn open_failed(&mut self, message: &str) -> (r: Vec<Effect>)
        ensures
            final(self).window is None,
            r@.len() == 1,
            r@[0] matches Effect::Error(m) && m@ == "Neovim API error: "@ + message@,
    {
        self.window = None;
        let mut r: Vec<Effect> = Vec::new();
        r.push(Effect::Error(crate::error::PluginError::Api(message.to_string()).message()));
        r
    }

    /// Closes the panel and releases its surface.
    pub fn close_win(&mut self) -> (r: Vec<Effect>)
        ensures
            closes(*old(self), *final(self), r@),
            surfaces(r@) == held(*final(self)) - held(*old(self)),
    {
        let mut r: Vec<Effect> = Vec::new();
        if self.window.is_none() {
            r.push(Effect::Notice("Window is already closed".to_string()));
        } else {
            self.window = None;
            r.push(Effect::Close);
        }
        proof {
            lemma_surfaces_one(r@[0]);
        }
        assert(r@.len() == 1);
        r
    }

    /// Shows `size` in the open size control; reports an error where no
    /// size control is open.
    pub fn update_size_display(&mut self, size: FontSize) -> (r: Vec<Effect>)
        ensures
            old(self).window matches Some(p) && p.kind == WindowType::FontSizeControl ==> {
                &&& final(self).window matches Some(q) && q.kind == WindowType::FontSizeControl
                    && string_views(q.lines@) == size_lines(size.millis as int)
                &&& r@.len() == 1
                &&& r@[0] matches Effect::SetLines(ls) && string_views(ls@) == size_lines(size.millis as int)
            },
            !(old(self).window matches Some(p) && p.kind == WindowType::FontSizeControl) ==> {
                &&& *final(self) == *old(self)
                &&& r@.len() == 1 && r@[0] is Error
            },
            surfaces(r@) == 0,
    {
        let mut r: Vec<Effect> = Vec::new();
        let is_size = match &self.window {
            Some(p) => p.kind == WindowType::FontSizeControl,
            None => false,
        };
        if is_size {
            let lines = size_display(size);
            let shown = copy_strings(&lines);
            self.window = Some(Panel { kind: WindowType::FontSizeControl, lines: shown });
            r.push(Effect::SetLines(lines));
        } else {
            r.push(Effect::Error("Window is not open.".to_string()));
        }
        proof {
            lemma_surfaces_one(r@[0]);
        }
        r
    }
}

proof fn lemma_position_bound(ls: Seq<Seq<char>>, s: Seq<char>)
    ensures
        position(ls, s) is Some ==> position(ls, s)->0 < ls.len(),
    decreases ls.len(),
{
    if ls.len() > 0 {
        lemma_position_bound(ls.drop_last(), s);
    }
}

/// The top row and left column that center a panel of `height` lines and
/// `width` columns in an editor of `lines` lines and `columns` columns.
pub fn centered_position(lines: usize, columns: usize, height: usize, width: usize) -> (r: (usize, usize))
    ensures
        r.0 == (if lines > height { (lines - height) / 2 } else { 0 }),
        r.1 == (if columns > width { (columns - width) / 2 } else { 0 }),
{
    let row = if lines > height { (lines - height) / 2 } else { 0 };
    let col = if columns > width { (columns - width) / 2 } else { 0 };
    (row, col)
}

/// The lines of the size control showing `size`.
pub fn size_display(size: FontSize) -> (r: Vec<String>)
    ensures
        string_views(r@) == size_lines(size.millis as int),
{
    let mut middle: Vec<char> = crate::text::chars_of("Current size: [ ");
    let t = size.text();
    let tail = crate::text::chars_of(" ]");
    let ghost head = middle@;
    let mut i: usize = 0;
    while i < t.len()
        invariant
            i <= t@.len(),
            middle@ == head + t@.take(i as int),
        decreases t.len() - i,
    {
        middle.push(t[i]);
        i = i + 1;
        assert(middle@ =~= head + t@.take(i as int));
    }
    let ghost mid2 = middle@;
    let mut j: usize = 0;
    while j < tail.len()
        invariant
            j <= tail@.len(),
            middle@ == mid2 + tail@.take(j as int),
        decreases tail.len() - j,
    {
        middle.push(tail[j]);
        j = j + 1;
        assert(middle@ =~= mid2 + tail@.take(j as int));
    }
    assert(t@.take(t@.len() as int) =~= t@);
    assert(tail@.take(tail@.len() as int) =~= tail@);
    let mut r: Vec<String> = Vec::new();
    r.push("\t\t\t\t".to_string());
    r.push(string_of(middle.as_slice()));
    r.push("\t\t\t\t".to_string());
    assert(string_views(r@) =~= size_lines(size.millis as int));
    r
}

/// From a closed state, opening the main menu and closing it again ends
/// closed, with the one surface created released.
pub proof fn lemma_menu_close_round_trip(
    w0: FloatWindow,
    w1: FloatWindow,
    w2: FloatWindow,
    e1: Seq<Effect>,
    e2: Seq<Effect>,
)
    requires
        w0.window is None,
        opens(w0, w1, WindowType::MainMenu, menu_items(), e1),
        closes(w1, w2, e2),
    ensures
        w2.window is None,
        surfaces(e1 + e2) == 0,
        (e1 + e2).len() == 2,
        (e1 + e2)[0] is Open,
        (e1 + e2)[1] is Close,
{
    lemma_surfaces_one(e1[0]);
    assert(e1 =~= seq![e1[0]]);
    assert((e1 + e2).drop_last() =~= e1);
    assert((e1 + e2).last() == Effect::Close);
}

} // verus!
