//! The plugin's state and its command handling: each command becomes a
//! transition of the panel state and a list of effects for the editor.

use vstd::prelude::*;
use vstd::string::StringExecFns;
use crate::catalog::{catalog_of, FontResolver};
use crate::command::Command;
use crate::error::PluginError;
use crate::settings::{family_key, family_of, replaced, size_key, size_text_of};
use crate::setup::{border_of, BorderStyle, Config};
use crate::size::{size_millis_of, size_text, FontSize, STEP_MILLIS};
use crate::text::{chars_of, sorted_texts, string_views};
use crate::utils::Utils;
use crate::columns::{column_count, layout, COLUMN_GAP};
use crate::window::{
    closes, held, lemma_surfaces_one, longest, panel_width, position, shows, lemma_surfaces_quiet, menu_items, opens, size_lines, surfaces, Effect, FloatWindow, WindowType,
};

verus! {

/// Width, in characters, within which the font list is laid out.
pub const LIST_WIDTH: usize = 80;

/// Height of the family picker.
pub const PICKER_HEIGHT: usize = 10;

/// The effects begin by writing this configuration text.
pub open spec fn writes(es: Seq<Effect>, text: Seq<char>) -> bool {
    es.len() >= 1 && (es[0] matches Effect::Write(w) && w@ == text)
}

/// After the write, the open size control shows size `m` (a second effect
/// replaces its lines); without one, a second effect reports an error.
pub open spec fn shows_size(before: FloatWindow, after: FloatWindow, es: Seq<Effect>, m: int) -> bool {
    &&& es.len() == 2
    &&& (before.window matches Some(p) && p.kind == WindowType::FontSizeControl) ==> (
    after.window matches Some(q) && q.kind == WindowType::FontSizeControl && string_views(q.lines@)
        == size_lines(m) && (es[1] matches Effect::SetLines(ls) && string_views(ls@) == size_lines(m)))
    &&& !(before.window matches Some(p) && p.kind == WindowType::FontSizeControl) ==> (after
        == before && es[1] is Error)
}

/// After the write, a notice confirms the change.
pub open spec fn confirms(es: Seq<Effect>, text: Seq<char>) -> bool {
    es.len() == 2 && (es[1] matches Effect::Notice(n) && n@ == text)
}

/// The family picker was opened on these sorted catalog names, with the
/// cursor on the current family where it is among them, and nothing else
/// was done.
pub open spec fn picks(
    before: FloatWindow,
    after: FloatWindow,
    es: Seq<Effect>,
    names: Set<Seq<char>>,
    current: Seq<char>,
    border: BorderStyle,
) -> bool {
    &&& es.len() == 1
    &&& after.window matches Some(p) && p.kind == WindowType::FontFamilyMenu && sorted_texts(
        string_views(p.lines@),
    ) && string_views(p.lines@).to_set() == names && shows(
        es[0],
        " Choose font family "@,
        PICKER_HEIGHT as nat,
        panel_width(string_views(p.lines@), 30),
        string_views(p.lines@),
        border,
        match position(string_views(p.lines@), current) {
            Some(i) => i + 1,
            None => 1,
        },
        0,
    )
}

/// Nothing changes but one error reported.
pub open spec fn refused(before: FloatWindow, after: FloatWindow, es: Seq<Effect>) -> bool {
    after == before && es.len() == 1 && es[0] is Error
}

/// The display names of a catalog, or none.
pub open spec fn names_of(c: Option<Map<Seq<char>, Seq<char>>>) -> Set<Seq<char>> {
    match c {
        Some(m) => m.values(),
        None => Set::empty(),
    }
}

/// The configuration text handed in, or nothing where reading it failed.
pub open spec fn conf_text(conf: &Result<String, PluginError>) -> Seq<char> {
    match conf {
        Ok(t) => t@,
        Err(_) => Seq::empty(),
    }
}

/// The font list message: a heading, then each name after `  - `.
pub open spec fn list_text(names: Seq<Seq<char>>) -> Seq<char>
    decreases names.len(),
{
    if names.len() == 0 {
        "Available fonts:"@
    } else {
        list_text(names.drop_last()) + "  - "@ + names.last()
    }
}

/// The lines of the font list panel for these names.
pub open spec fn list_lines(names: Seq<Seq<char>>) -> Seq<Seq<char>> {
    layout(
        names,
        column_count(LIST_WIDTH as nat, (longest(names, 0) + COLUMN_GAP) as nat),
        (longest(names, 0) + COLUMN_GAP) as nat,
    )
}

/// The lines of the font information panel.
pub open spec fn info_lines(t: Seq<char>) -> Seq<Seq<char>> {
    seq!["Family: "@ + family_of(t), "Size:   "@ + size_text_of(t)]
}

/// The plugin's state: settings, panel and memoized font catalog.
pub struct App {
    pub config: Config,
    pub float_window: FloatWindow,
    pub fonts: FontResolver,
}

impl App {
    pub open spec fn wf(&self) -> bool {
        self.fonts.wf()
    }

    /// The memoized catalog, if it was computed.
    pub open spec fn catalog(&self) -> Option<Map<Seq<char>, Seq<char>>> {
        self.fonts.cached()
    }

    /// The settings.
    pub open spec fn settings(&self) -> &Config {
        &self.config
    }

    /// A plugin with no panel and no catalog yet.
    pub fn new(config: Config) -> (r: Self)
        ensures
            r.wf(),
            r.float_window.window is None,
            r.catalog() is None,
            r.settings() == config,
    {
        App { config, float_window: FloatWindow::new(), fonts: FontResolver::new() }
    }

    /// Replaces the settings.
    pub fn setup(&mut self, config: Config)
        requires
            old(self).wf(),
        ensures
            final(self).wf(),
            final(self).settings() == config,
            final(self).float_window == old(self).float_window,
            final(self).catalog() == old(self).catalog(),
    {
        self.config = config;
    }

    /// The configuration file path as set up (a leading `~` not yet expanded).
    pub fn config_path(&self) -> (r: String)
        ensures
            r@ == self.settings().kitty_conf_path@,
    {
        self.config.kitty_conf_path.clone()
    }

    /// Whether the catalog still has to be computed.
    pub fn needs_fonts(&self) -> (r: bool)
        ensures
            r == self.catalog() is None,
    {
        !self.fonts.is_cached()
    }

    /// Computes the catalog from the enumerators' outputs, unless it was
    /// computed before.
    pub fn load_fonts(&mut self, installed_output: &str, kitty_output: &str)
        requires
            old(self).wf(),
        ensures
            final(self).wf(),
            final(self).float_window == old(self).float_window,
            final(self).settings() == old(self).settings(),
            old(self).catalog() is Some ==> final(self).catalog() == old(self).catalog(),
            old(self).catalog() is None ==> final(self).catalog() == Some(
                catalog_of(
                    crate::sources::installed_of(installed_output@),
                    crate::sources::supported_of(kitty_output@),
                ),
            ),
    {
        if self.fonts.is_cached() {
            return;
        }
        let installed = Utils::list_installed_fonts(installed_output);
        let supported = Utils::extract_fonts_from_json(kitty_output);
        let _c = Utils::get_cached_installed_fonts(&mut self.fonts, &installed, &supported);
    }

    /// The display names of the catalog, sorted.
    fn sorted_names(&self) -> (r: Vec<String>)
        requires
            self.wf(),
        ensures
            sorted_texts(string_views(r@)),
            string_views(r@).to_set() == names_of(self.catalog()),
    {
        broadcast use vstd::seq_lib::group_to_multiset_ensures;

        let names = match self.fonts.catalog_ref() {
            Some(c) => c.names(),
            None => Vec::new(),
        };
        let sorted = crate::text::sort_texts(names);
        proof {
            lemma_same_multiset_same_views(sorted@, names@);
            if self.catalog() is None {
                assert(string_views(names@) =~= Seq::<Seq<char>>::empty());
                assert(string_views(names@).to_set() =~= Set::<Seq<char>>::empty());
            }
        }
        sorted
    }

    /// Handles one command. `conf` is the configuration file's text, or the
    /// error met while reading it.
    pub fn handle_command(&mut self, cmd: Command, conf: &Result<String, PluginError>) -> (r: Vec<
        Effect,
    >)
        requires
            old(self).wf(),
        ensures
            final(self).wf(),
            final(self).settings() == old(self).settings(),
            final(self).catalog() == old(self).catalog(),
            surfaces(r@) == held(final(self).float_window) - held(old(self).float_window),
            cmd is MainMenu ==> opens(
                old(self).float_window,
                final(self).float_window,
                WindowType::MainMenu,
                menu_items(),
                r@,
            ),
            (cmd is MainMenu && old(self).float_window.window is None) ==> shows(
                r@[0],
                " Nekifoch "@,
                4,
                panel_width(menu_items(), 30),
                menu_items(),
                border_of(old(self).config.border@),
                1,
                0,
            ),
            cmd is Close ==> closes(old(self).float_window, final(self).float_window, r@),
            cmd matches Command::InvalidSize(a) ==> final(self).float_window == old(self).float_window
                && r@.len() == 1 && (r@[0] matches Effect::Error(m) && m@ == "Invalid argument: "@
                + a@),
            conf is Err && !(cmd is MainMenu || cmd is Close || cmd is List || cmd is FList || cmd is InvalidSize) ==> refused(
                old(self).float_window,
                final(self).float_window,
                r@,
            ),
            cmd matches Command::SetFont(Some(k)) ==> conf is Err || {
                match old(self).catalog() {
                    Some(m) => if m.contains_key(k@) {
                        writes(r@, replaced(conf_text(conf), family_key(), m[k@])) && confirms(
                            r@,
                            "Font family set to "@ + k@,
                        ) && final(self).float_window == old(self).float_window
                    } else {
                        refused(old(self).float_window, final(self).float_window, r@)
                    },
                    None => refused(old(self).float_window, final(self).float_window, r@),
                }
            },
            (cmd matches Command::SetFont(None) && conf is Ok && old(self).float_window.window is None) ==> picks(
                old(self).float_window,
                final(self).float_window,
                r@,
                names_of(old(self).catalog()),
                family_of(conf_text(conf)),
                border_of(old(self).config.border@),
            ),
            (cmd matches Command::SetFont(None) && conf is Ok && old(self).float_window.window is Some) ==> (
            final(self).float_window == old(self).float_window && r@.len() == 1 && r@[0] is Notice),
            (cmd is FList && old(self).float_window.window is Some) ==> (final(self).float_window
                == old(self).float_window && r@.len() == 1),
            cmd matches Command::SetSize(Some(z)) ==> conf is Err || writes(
                r@,
                replaced(conf_text(conf), size_key(), size_text(z.millis as int)),
            ) && confirms(r@, "Font size set to "@ + size_text(z.millis as int)) && final(self).float_window
                == old(self).float_window,
            (cmd matches Command::SetSize(None) && conf is Ok) ==> match size_millis_of(
                size_text_of(conf_text(conf)),
            ) {
                Some(m) => opens(
                    old(self).float_window,
                    final(self).float_window,
                    WindowType::FontSizeControl,
                    size_lines(m),
                    r@,
                ) && (old(self).float_window.window is None ==> shows(r@[0], " Change font size "@, 3, 25, size_lines(m), border_of(old(self).config.border@), 2, 16)),
                None => refused(old(self).float_window, final(self).float_window, r@),
            },
            (cmd is SizeUp && conf is Ok) ==> match size_millis_of(size_text_of(conf_text(conf))) {
                Some(m) => writes(r@, replaced(conf_text(conf), size_key(), size_text(m + STEP_MILLIS))) && shows_size(old(self).float_window, final(self).float_window, r@, m + STEP_MILLIS),
                None => refused(old(self).float_window, final(self).float_window, r@),
            },
            (cmd is SizeDown && conf is Ok) ==> match size_millis_of(size_text_of(conf_text(conf))) {
                Some(m) => writes(r@, replaced(conf_text(conf), size_key(), size_text(m - STEP_MILLIS)))
                    && shows_size(old(self).float_window, final(self).float_window, r@, m - STEP_MILLIS),
                None => refused(old(self).float_window, final(self).float_window, r@),
            },
            (cmd is Check && conf is Ok) ==> final(self).float_window == old(self).float_window
                && r@.len() == 1 && (r@[0] matches Effect::Notice(n) && n@ == "Font family: "@
                + family_of(conf_text(conf)) + "\nFont size: "@ + size_text_of(conf_text(conf))),
            (cmd is FCheck && conf is Ok) ==> opens(
                old(self).float_window,
                final(self).float_window,
                WindowType::FontInfo,
                info_lines(conf_text(conf)),
                r@,
            ) && (old(self).float_window.window is None ==> shows(r@[0], " Current Font Info "@, 2, panel_width(info_lines(conf_text(conf)), 20), info_lines(conf_text(conf)), border_of(old(self).config.border@), 1, 8)),
            cmd is List ==> final(self).float_window == old(self).float_window && r@.len() == 1
                && exists|ns: Seq<Seq<char>>|
                sorted_texts(ns) && ns.to_set() == names_of(old(self).catalog()) && (r@[0] matches Effect::Notice(
                    n,
                ) && n@ == list_text(ns)),
            (cmd is FList && old(self).float_window.window is None) ==> (exists|ns: Seq<Seq<char>>|
                sorted_texts(ns) && ns.to_set() == names_of(old(self).catalog()) && (
                longest(ns, 0) + COLUMN_GAP > usize::MAX ==> refused(
                    old(self).float_window,
                    final(self).float_window,
                    r@,
                )) && (longest(ns, 0) + COLUMN_GAP <= usize::MAX ==> opens(
                    old(self).float_window,
                    final(self).float_window,
                    WindowType::FontList,
                    list_lines(ns),
                    r@,
                ) && shows(r@[0], " Available fonts "@, list_lines(ns).len(), panel_width(list_lines(ns), 20), list_lines(ns), border_of(old(self).config.border@), 1, 0))),
    {
        match cmd {
            Command::MainMenu => self.float_window.menu_win(&self.config),
            Command::SizeUp => self.size_up(conf),
            Command::SizeDown => self.size_down(conf),
            Command::Close => self.float_window.close_win(),
            Command::Check => self.get_current_font(conf),
            Command::FCheck => self.get_current_font_window(conf),
            Command::SetFont(font) => self.set_font_family(font, conf),
            Command::SetSize(size) => self.set_font_size(size, conf),
            Command::InvalidSize(arg) => App::refuse(PluginError::InvalidArgument(arg).message()),
            Command::List => self.get_fonts_list(),
            Command::FList => self.get_fonts_list_window(),
        }
    }

    /// One error effect; nothing else changes.
    fn refuse(msg: String) -> (r: Vec<Effect>)
        ensures
            r@.len() == 1,
            r@[0] matches Effect::Error(m) && m@ == msg@,
            surfaces(r@) == 0,
    {
        let mut r: Vec<Effect> = Vec::new();
        r.push(Effect::Error(msg));
        proof {
            lemma_surfaces_quiet(r@);
        }
        r
    }

    fn get_current_font(&self, conf: &Result<String, PluginError>) -> (r: Vec<Effect>)
        ensures
            surfaces(r@) == 0,
            conf is Err ==> r@.len() == 1 && r@[0] is Error,
            conf matches Ok(t) ==> r@.len() == 1 && (r@[0] matches Effect::Notice(n) && n@
                == "Font family: "@ + family_of(conf_text(conf)) + "\nFont size: "@ + size_text_of(conf_text(conf))),
    {
        match conf {
            Err(e) => App::refuse(e.message()),
            Ok(t) => {
                let s = Utils::get(t.as_str());
                let text = String::from_str("Font family: ").concat(s.family.as_str()).concat(
                    "\nFont size: ",
                ).concat(s.size_text.as_str());
                let mut r: Vec<Effect> = Vec::new();
                r.push(Effect::Notice(text));
                proof {
                    lemma_surfaces_quiet(r@);
                }
                r
            },
        }
    }

    fn get_current_font_window(&mut self, conf: &Result<String, PluginError>) -> (r: Vec<Effect>)
        requires
            old(self).wf(),
        ensures
            final(self).wf(),
            final(self).settings() == old(self).settings(),
            final(self).catalog() == old(self).catalog(),
            surfaces(r@) == held(final(self).float_window) - held(old(self).float_window),
            conf is Err ==> refused(old(self).float_window, final(self).float_window, r@),
            conf matches Ok(t) ==> opens(
                old(self).float_window,
                final(self).float_window,
                WindowType::FontInfo,
                info_lines(conf_text(conf)),
                r@,
            ) && (old(self).float_window.window is None ==> shows(r@[0], " Current Font Info "@, 2, panel_width(info_lines(conf_text(conf)), 20), info_lines(conf_text(conf)), border_of(old(self).config.border@), 1, 8)),
    {
        match conf {
            Err(e) => App::refuse(e.message()),
            Ok(t) => {
                let s = Utils::get(t.as_str());
                let mut lines: Vec<String> = Vec::new();
                lines.push(String::from_str("Family: ").concat(s.family.as_str()));
                lines.push(String::from_str("Size:   ").concat(s.size_text.as_str()));
                assert(string_views(lines@) =~= info_lines(t@));
                self.float_window.f_check_win(&self.config, " Current Font Info ", lines, 2)
            },
        }
    }

    fn set_font_family(&mut self, font: Option<String>, conf: &Result<String, PluginError>) -> (r:
        Vec<Effect>)
        requires
            old(self).wf(),
        ensures
            final(self).wf(),
            final(self).settings() == old(self).settings(),
            final(self).catalog() == old(self).catalog(),
            surfaces(r@) == held(final(self).float_window) - held(old(self).float_window),
            conf is Err ==> refused(old(self).float_window, final(self).float_window, r@),
            font matches Some(k) ==> conf is Err || {
                match old(self).catalog() {
                    Some(m) => if m.contains_key(k@) {
                        writes(r@, replaced(conf_text(conf), family_key(), m[k@])) && confirms(
                            r@,
                            "Font family set to "@ + k@,
                        ) && final(self).float_window == old(self).float_window
                    } else {
                        refused(old(self).float_window, final(self).float_window, r@)
                    },
                    None => refused(old(self).float_window, final(self).float_window, r@),
                }
            },
            (font is None && conf is Ok && old(self).float_window.window is None) ==> picks(
                old(self).float_window,
                final(self).float_window,
                r@,
                names_of(old(self).catalog()),
                family_of(conf_text(conf)),
                border_of(old(self).config.border@),
            ),
            (font is None && conf is Ok && old(self).float_window.window is Some) ==> (final(self).float_window
                == old(self).float_window && r@.len() == 1 && r@[0] is Notice),
    {
        let t = match conf {
            Err(e) => return App::refuse(e.message()),
            Ok(t) => t,
        };
        match font {
            Some(k) => {
                let outcome = match self.fonts.catalog_ref() {
                    Some(c) => Utils::replace_font_family(t.as_str(), c, k.as_str()),
                    None => Err(PluginError::FontNotInstalled(k.clone())),
                };
                match outcome {
                    Ok(text) => {
                        let mut r: Vec<Effect> = Vec::new();
                        r.push(Effect::Write(text));
                        r.push(Effect::Notice(String::from_str("Font family set to ").concat(k.as_str())));
                        proof {
                            lemma_surfaces_quiet(r@);
                        }
                        r
                    },
                    Err(e) => App::refuse(e.message()),
                }
            },
            None => {
                let names = self.sorted_names();
                let s = Utils::get(t.as_str());
                self.float_window.f_family_win(
                    &self.config,
                    " Choose font family ",
                    names,
                    PICKER_HEIGHT,
                    &s.family,
                )
            },
        }
    }

    fn set_font_size(&mut self, size: Option<FontSize>, conf: &Result<String, PluginError>) -> (r:
        Vec<Effect>)
        requires
            old(self).wf(),
        ensures
            final(self).wf(),
            final(self).settings() == old(self).settings(),
            final(self).catalog() == old(self).catalog(),
            surfaces(r@) == held(final(self).float_window) - held(old(self).float_window),
            conf is Err ==> refused(old(self).float_window, final(self).float_window, r@),
            size matches Some(z) ==> conf is Err || writes(
                r@,
                replaced(conf_text(conf), size_key(), size_text(z.millis as int)),
            ) && confirms(r@, "Font size set to "@ + size_text(z.millis as int)) && final(self).float_window
                == old(self).float_window,
            (size is None && conf is Ok) ==> match size_millis_of(size_text_of(conf_text(conf))) {
                Some(m) => opens(
                    old(self).float_window,
                    final(self).float_window,
                    WindowType::FontSizeControl,
                    size_lines(m),
                    r@,
                ) && (old(self).float_window.window is None ==> shows(r@[0], " Change font size "@, 3, 25, size_lines(m), border_of(old(self).config.border@), 2, 16)),
                None => refused(old(self).float_window, final(self).float_window, r@),
            },
    {
        let t = match conf {
            Err(e) => return App::refuse(e.message()),
            Ok(t) => t,
        };
        match size {
            Some(z) => {
                let text = Utils::replace_font_size(t.as_str(), z);
                let shown = z.text();
                let mut r: Vec<Effect> = Vec::new();
                r.push(Effect::Write(text));
                r.push(Effect::Notice(String::from_str("Font size set to ").concat(
                    crate::text::string_of(shown.as_slice()).as_str(),
                )));
                proof {
                    lemma_surfaces_quiet(r@);
                }
                r
            },
            None => {
                let s = Utils::get(t.as_str());
                match FontSize::parse(chars_of(s.size_text.as_str()).as_slice()) {
                    Some(z) => self.float_window.f_size_win(&self.config, " Change font size ", z),
                    None => App::refuse(
                        PluginError::InvalidArgument("current font size in the configuration".to_string()).message(),
                    ),
                }
            },
        }
    }

    /// Half a point more: writes the new size and shows it in the open size
    /// control.
    pub fn size_up(&mut self, conf: &Result<String, PluginError>) -> (r: Vec<Effect>)
        requires
            old(self).wf(),
        ensures
            final(self).wf(),
            final(self).settings() == old(self).settings(),
            final(self).catalog() == old(self).catalog(),
            surfaces(r@) == held(final(self).float_window) - held(old(self).float_window),
            conf is Err ==> refused(old(self).float_window, final(self).float_window, r@),
            conf matches Ok(t) ==> match size_millis_of(size_text_of(conf_text(conf))) {
                Some(m) => writes(r@, replaced(conf_text(conf), size_key(), size_text(m + STEP_MILLIS))) && shows_size(old(self).float_window, final(self).float_window, r@, m + STEP_MILLIS),
                None => refused(old(self).float_window, final(self).float_window, r@),
            },
    {
        let t = match conf {
            Err(e) => return App::refuse(e.message()),
            Ok(t) => t,
        };
        let s = Utils::get(t.as_str());
        match FontSize::parse(chars_of(s.size_text.as_str()).as_slice()) {
            Some(z) => {
                let up = z.step_up();
                self.apply_size(t, up)
            },
            None => App::refuse(
                PluginError::InvalidArgument("font size in the configuration".to_string()).message(),
            ),
        }
    }

    /// Half a point less: writes the new size and shows it in the open size
    /// control.
    pub fn size_down(&mut self, conf: &Result<String, PluginError>) -> (r: Vec<Effect>)
        requires
            old(self).wf(),
        ensures
            final(self).wf(),
            final(self).settings() == old(self).settings(),
            final(self).catalog() == old(self).catalog(),
            surfaces(r@) == held(final(self).float_window) - held(old(self).float_window),
            conf is Err ==> refused(old(self).float_window, final(self).float_window, r@),
            conf matches Ok(t) ==> match size_millis_of(size_text_of(conf_text(conf))) {
                Some(m) => writes(r@, replaced(conf_text(conf), size_key(), size_text(m - STEP_MILLIS)))
                    && shows_size(old(self).float_window, final(self).float_window, r@, m - STEP_MILLIS),
                None => refused(old(self).float_window, final(self).float_window, r@),
            },
    {
        let t = match conf {
            Err(e) => return App::refuse(e.message()),
            Ok(t) => t,
        };
        let s = Utils::get(t.as_str());
        match FontSize::parse(chars_of(s.size_text.as_str()).as_slice()) {
            Some(z) => {
                let down = z.step_down();
                self.apply_size(t, down)
            },
            None => App::refuse(
                PluginError::InvalidArgument("font size in the configuration".to_string()).message(),
            ),
        }
    }

    /// Writes `size` into the text and shows it in the open size control.
    fn apply_size(&mut self, t: &String, size: FontSize) -> (r: Vec<Effect>)
        requires
            old(self).wf(),
        ensures
            final(self).wf(),
            final(self).settings() == old(self).settings(),
            final(self).catalog() == old(self).catalog(),
            surfaces(r@) == held(final(self).float_window) - held(old(self).float_window),
            writes(r@, replaced(t@, size_key(), size_text(size.millis as int))),
            shows_size(old(self).float_window, final(self).float_window, r@, size.millis as int),
    {
        let text = Utils::replace_font_size(t.as_str(), size);
        let mut r: Vec<Effect> = Vec::new();
        r.push(Effect::Write(text));
        let mut more = self.float_window.update_size_display(size);
        proof {
            lemma_surfaces_one(more@[0]);
            assert(more@ =~= seq![more@[0]]);
        }
        let e = more.remove(0);
        r.push(e);
        proof {
            lemma_surfaces_quiet(r@);
        }
        r
    }

    fn get_fonts_list(&self) -> (r: Vec<Effect>)
        requires
            self.wf(),
        ensures
            r@.len() == 1,
            surfaces(r@) == 0,
            exists|ns: Seq<Seq<char>>|
                sorted_texts(ns) && ns.to_set() == names_of(self.catalog()) && (r@[0] matches Effect::Notice(
                    n,
                ) && n@ == list_text(ns)),
    {
        let names = self.sorted_names();
        let ghost ns = string_views(names@);
        let mut text = String::from_str("Available fonts:");
        let mut i: usize = 0;
        assert(ns.take(0) =~= Seq::<Seq<char>>::empty());
        while i < names.len()
            invariant
                i <= names@.len(),
                ns == string_views(names@),
                text@ == list_text(ns.take(i as int)),
            decreases names.len() - i,
        {
            assert(ns.take(i + 1).drop_last() =~= ns.take(i as int));
            assert(ns.take(i + 1).last() == names@[i as int]@);
            text = text.concat("  - ").concat(names[i].as_str());
            i = i + 1;
        }
        assert(ns.take(names@.len() as int) =~= ns);
        let mut r: Vec<Effect> = Vec::new();
        r.push(Effect::Notice(text));
        proof {
            lemma_surfaces_quiet(r@);
        }
        r
    }

    fn get_fonts_list_window(&mut self) -> (r: Vec<Effect>)
        requires
            old(self).wf(),
        ensures
            final(self).wf(),
            final(self).settings() == old(self).settings(),
            final(self).catalog() == old(self).catalog(),
            surfaces(r@) == held(final(self).float_window) - held(old(self).float_window),
            old(self).float_window.window is None ==> (exists|ns: Seq<Seq<char>>|
                sorted_texts(ns) && ns.to_set() == names_of(old(self).catalog()) && (
                longest(ns, 0) + COLUMN_GAP > usize::MAX ==> refused(
                    old(self).float_window,
                    final(self).float_window,
                    r@,
                )) && (longest(ns, 0) + COLUMN_GAP <= usize::MAX ==> opens(
                    old(self).float_window,
                    final(self).float_window,
                    WindowType::FontList,
                    list_lines(ns),
                    r@,
                ) && shows(r@[0], " Available fonts "@, list_lines(ns).len(), panel_width(list_lines(ns), 20), list_lines(ns), border_of(old(self).config.border@), 1, 0))),
            old(self).float_window.window is Some ==> final(self).float_window == old(self).float_window
                && r@.len() == 1,
    {
        let names = self.sorted_names();
        let longest = crate::window::longest_len(&names, 0);
        if longest > usize::MAX - crate::columns::COLUMN_GAP {
            return App::refuse("Font names are too long to lay out.".to_string());
        }
        let lines = Utils::format_fonts_in_columns(&names, LIST_WIDTH);
        let r = self.float_window.f_list_win(&self.config, " Available fonts ", lines);
        assert(string_views(names@).to_set() == names_of(old(self).catalog()));
        r
    }
}

/// Two sequences with the same multiset have the same set of views.
pub proof fn lemma_same_multiset_same_views(a: Seq<String>, b: Seq<String>)
    requires
        a.to_multiset() == b.to_multiset(),
    ensures
        string_views(a).to_set() == string_views(b).to_set(),
{
    broadcast use vstd::seq_lib::group_to_multiset_ensures;

    assert forall|v: Seq<char>| string_views(a).to_set().contains(v) == string_views(b).to_set().contains(v) by {
        if string_views(a).contains(v) {
            let i = choose|i: int| 0 <= i < string_views(a).len() && string_views(a)[i] == v;
            assert(a.contains(a[i]));
            assert(a.to_multiset().count(a[i]) > 0);
            assert(b.to_multiset().count(a[i]) > 0);
            let j = choose|j: int| 0 <= j < b.len() && b[j] == a[i];
            assert(string_views(b)[j] == v);
        }
        if string_views(b).contains(v) {
            let j = choose|j: int| 0 <= j < string_views(b).len() && string_views(b)[j] == v;
            assert(b.contains(b[j]));
            assert(b.to_multiset().count(b[j]) > 0);
            assert(a.to_multiset().count(b[j]) > 0);
            let i = choose|i: int| 0 <= i < a.len() && a[i] == b[j];
            assert(string_views(a)[i] == v);
        }
    }
    assert(string_views(a).to_set() =~= string_views(b).to_set());
}

} // verus!
