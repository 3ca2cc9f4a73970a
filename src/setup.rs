//! The user's settings: panel border style and configuration file path.

use vstd::prelude::*;
use crate::text::{chars_of, string_of};

verus! {

/// The border drawn around panels.
#[derive(Clone, Copy, Debug, PartialEq, Eq, Structural)]
pub enum BorderStyle {
    /// No border.
    Plain,
    Single,
    Double,
    Rounded,
    Solid,
    Shadow,
}

/// The border style a name selects; an unknown name selects a plain, borderless panel.
pub open spec fn border_of(name: Seq<char>) -> BorderStyle {
    if name == "double"@ {
        BorderStyle::Double
    } else if name == "single"@ {
        BorderStyle::Single
    } else if name == "rounded"@ {
        BorderStyle::Rounded
    } else if name == "solid"@ {
        BorderStyle::Solid
    } else if name == "shadow"@ {
        BorderStyle::Shadow
    } else {
        BorderStyle::Plain
    }
}

/// `path` with a leading `~` replaced by `home`.
pub open spec fn expanded(path: Seq<char>, home: Seq<char>) -> Seq<char> {
    if path.len() > 0 && path[0] == '~' {
        home + path.skip(1)
    } else {
        path
    }
}

/// The session's settings.
pub struct Config {
    pub border: String,
    pub kitty_conf_path: String,
}

/// Whether two character sequences are equal.
pub fn same_chars(a: &[char], b: &[char]) -> (r: bool)
    ensures
        r == (a@ == b@),
{
    if a.len() != b.len() {
        return false;
    }
    let mut i: usize = 0;
    while i < a.len()
        invariant
            i <= a@.len() == b@.len(),
            a@.take(i as int) == b@.take(i as int),
        decreases a.len() - i,
    {
        if a[i] != b[i] {
            return false;
        }
        i = i + 1;
        assert(a@.take(i as int) =~= b@.take(i as int));
    }
    assert(a@ =~= a@.take(a@.len() as int));
    assert(b@ =~= b@.take(b@.len() as int));
    true
}

impl Config {
    /// The settings taken from the setup options: `borders` defaults to
    /// `single`, `kitty_conf_path` to `~/.config/kitty/kitty.conf`.
    pub fn from_dict(borders: Option<String>, kitty_conf_path: Option<String>) -> (r: Config)
        ensures
            borders matches Some(b) ==> r.border@ == b@,
            borders is None ==> r.border@ == "single"@,
            kitty_conf_path matches Some(p) ==> r.kitty_conf_path@ == p@,
            kitty_conf_path is None ==> r.kitty_conf_path@ == "~/.config/kitty/kitty.conf"@,
    {
        let border = match borders {
            Some(b) => b,
            None => "single".to_string(),
        };
        let kitty_conf_path = match kitty_conf_path {
            Some(p) => p,
            None => "~/.config/kitty/kitty.conf".to_string(),
        };
        Config { border, kitty_conf_path }
    }

    /// The border style the settings name.
    pub fn border_style(&self) -> (r: BorderStyle)
        ensures
            r == border_of(self.border@),
    {
        let b = chars_of(self.border.as_str());
        if same_chars(b.as_slice(), chars_of("double").as_slice()) {
            BorderStyle::Double
        } else if same_chars(b.as_slice(), chars_of("single").as_slice()) {
            BorderStyle::Single
        } else if same_chars(b.as_slice(), chars_of("rounded").as_slice()) {
            BorderStyle::Rounded
        } else if same_chars(b.as_slice(), chars_of("solid").as_slice()) {
            BorderStyle::Solid
        } else if same_chars(b.as_slice(), chars_of("shadow").as_slice()) {
            BorderStyle::Shadow
        } else {
            BorderStyle::Plain
        }
    }

    /// The configuration file path with a leading `~` replaced by `home`.
    pub fn expand_tilde(path: &str, home: &str) -> (r: String)
        ensures
            r@ == expanded(path@, home@),
    {
        let p = chars_of(path);
        if p.len() > 0 && p[0] == '~' {
            let mut out = chars_of(home);
            let ghost h = out@;
            let mut i: usize = 1;
            while i < p.len()
                invariant
                    1 <= i <= p@.len(),
                    out@ == h + p@.subrange(1, i as int),
                decreases p.len() - i,
            {
                out.push(p[i]);
                i = i + 1;
                assert(out@ =~= h + p@.subrange(1, i as int));
            }
            assert(p@.subrange(1, p@.len() as int) =~= p@.skip(1));
            string_of(out.as_slice())
        } else {
            string_of(p.as_slice())
        }
    }
}

} // verus!
