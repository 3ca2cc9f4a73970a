//! The errors of the library.

use vstd::prelude::*;
use vstd::string::StringExecFns;

verus! {

/// What can go wrong while reading or changing the font settings.
#[derive(Debug, Clone, PartialEq, Eq)]
pub enum PluginError {
    /// The configuration file could not be opened, read or written.
    Io(String),
    /// The configuration file does not exist.
    NotFound(String),
    /// The requested family is not in the catalog of compatible fonts.
    FontNotInstalled(String),
    /// A size argument or the size in the file is not a usable number.
    InvalidArgument(String),
    /// The editor refused to create or change a panel.
    Api(String),
    /// Any other failure, with its message.
    Custom(String),
}

impl PluginError {
    /// The one-line message shown to the user.
    pub fn message(&self) -> (r: String)
        ensures
            self matches PluginError::Io(m) ==> r@ == "IO error: "@ + m@,
            self matches PluginError::NotFound(m) ==> r@ == "File not found: "@ + m@,
            self matches PluginError::FontNotInstalled(m) ==> r@ == "Font not installed: "@ + m@,
            self matches PluginError::InvalidArgument(m) ==> r@ == "Invalid argument: "@ + m@,
            self matches PluginError::Api(m) ==> r@ == "Neovim API error: "@ + m@,
            self matches PluginError::Custom(m) ==> r@ == "Custom error: "@ + m@,
    {
        proof {
            reveal_strlit("IO error: ");
            reveal_strlit("File not found: ");
            reveal_strlit("Font not installed: ");
            reveal_strlit("Invalid argument: ");
            reveal_strlit("Neovim API error: ");
            reveal_strlit("Custom error: ");
        }
        match self {
            PluginError::Io(m) => String::from_str("IO error: ").concat(m.as_str()),
            PluginError::NotFound(m) => String::from_str("File not found: ").concat(m.as_str()),
            PluginError::FontNotInstalled(m) => String::from_str("Font not installed: ").concat(m.as_str()),
            PluginError::InvalidArgument(m) => String::from_str("Invalid argument: ").concat(m.as_str()),
            PluginError::Api(m) => String::from_str("Neovim API error: ").concat(m.as_str()),
            PluginError::Custom(m) => String::from_str("Custom error: ").concat(m.as_str()),
        }
    }
}

} // verus!
