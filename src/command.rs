//! The plugin's commands, parsed from an action word and an argument.

use vstd::prelude::*;
use crate::setup::same_chars;
use crate::size::{size_millis_of, FontSize};
use crate::text::chars_of;

verus! {

/// A request to the plugin.
#[derive(Debug)]
pub enum Command {
    MainMenu,
    SizeUp,
    SizeDown,
    Close,
    Check,
    FCheck,
    SetFont(Option<String>),
    SetSize(Option<FontSize>),
    /// `set_size` with an argument that spells no size.
    InvalidSize(String),
    List,
    FList,
}

/// The action words the plugin knows.
pub open spec fn is_action(cmd: Seq<char>) -> bool {
    cmd == ""@ || cmd == "size_up"@ || cmd == "size_down"@ || cmd == "close"@ || cmd == "check"@
        || cmd == "float_check"@ || cmd == "set_font"@ || cmd == "set_size"@ || cmd == "list"@
        || cmd == "float_list"@
}

fn is_word(cmd: &Vec<char>, word: &str) -> (r: bool)
    ensures
        r == (cmd@ == word@),
{
    same_chars(cmd.as_slice(), chars_of(word).as_slice())
}

impl Command {
    /// The command an action word and its argument name; none for an unknown
    /// word. `set_font` keeps its argument; `set_size` keeps the size its
    /// argument spells, and none where it spells no size.
    pub fn from_str(cmd: &str, arg: Option<&str>) -> (r: Option<Self>)
        ensures
            r is Some <==> is_action(cmd@),
            cmd@ == ""@ ==> r matches Some(Command::MainMenu),
            cmd@ == "size_up"@ ==> r matches Some(Command::SizeUp),
            cmd@ == "size_down"@ ==> r matches Some(Command::SizeDown),
            cmd@ == "close"@ ==> r matches Some(Command::Close),
            cmd@ == "check"@ ==> r matches Some(Command::Check),
            cmd@ == "float_check"@ ==> r matches Some(Command::FCheck),
            cmd@ == "list"@ ==> r matches Some(Command::List),
            cmd@ == "float_list"@ ==> r matches Some(Command::FList),
            cmd@ == "set_font"@ ==> (r matches Some(Command::SetFont(a)) && (a is Some <==> arg is Some)
                && (a matches Some(s) ==> s@ == arg->0@)),
            (cmd@ == "set_size"@ && arg is None) ==> (r matches Some(Command::SetSize(z)) && z is None),
            (cmd@ == "set_size"@ && arg is Some && size_millis_of(arg->0@) is Some) ==> (r matches Some(
                Command::SetSize(z),
            ) && (z matches Some(s) && s.millis == size_millis_of(arg->0@)->0)),
            (cmd@ == "set_size"@ && arg is Some && size_millis_of(arg->0@) is None) ==> (r matches Some(
                Command::InvalidSize(a),
            ) && a@ == arg->0@),
    {
        proof {
            reveal_strlit("");
            reveal_strlit("size_up");
            reveal_strlit("size_down");
            reveal_strlit("close");
            reveal_strlit("check");
            reveal_strlit("float_check");
            reveal_strlit("set_font");
            reveal_strlit("set_size");
            reveal_strlit("list");
            reveal_strlit("float_list");
            assert(""@.len() == 0);
            assert("size_up"@.len() == 7);
            assert("size_down"@.len() == 9);
            assert("close"@[1] != "check"@[1]);
            assert("list"@.len() == 4);
            assert("close"@.len() == 5 && "check"@.len() == 5);
            assert("float_check"@.len() == 11 && "float_list"@.len() == 10);
            assert("set_font"@.len() == 8 && "set_size"@.len() == 8);
            assert("set_font"@[4] != "set_size"@[4]);
        }
        let c = chars_of(cmd);
        if is_word(&c, "") {
            Some(Command::MainMenu)
        } else if is_word(&c, "size_up") {
            Some(Command::SizeUp)
        } else if is_word(&c, "size_down") {
            Some(Command::SizeDown)
        } else if is_word(&c, "close") {
            Some(Command::Close)
        } else if is_word(&c, "check") {
            Some(Command::Check)
        } else if is_word(&c, "float_check") {
            Some(Command::FCheck)
        } else if is_word(&c, "set_font") {
            let a = match arg {
                Some(s) => Some(s.to_string()),
                None => None,
            };
            Some(Command::SetFont(a))
        } else if is_word(&c, "set_size") {
            match arg {
                Some(s) => match FontSize::parse(chars_of(s).as_slice()) {
                    Some(z) => Some(Command::SetSize(Some(z))),
                    None => Some(Command::InvalidSize(s.to_string())),
                },
                None => Some(Command::SetSize(None)),
            }
        } else if is_word(&c, "list") {
            Some(Command::List)
        } else if is_word(&c, "float_list") {
            Some(Command::FList)
        } else {
            None
        }
    }
}

} // verus!
