//! Reading and changing the font settings in the configuration text.

use vstd::prelude::*;
use crate::catalog::FontCatalog;
use crate::error::PluginError;
use crate::settings::{
    family_key, family_key_chars, family_of, read_settings, replace_directive, replaced,
    size_key, size_key_chars, size_text_of,
};
use crate::size::{size_text, FontSize};
use crate::text::{chars_of, string_of};

verus! {

/// The operations on the configuration text and on the font enumerations.
pub struct Utils;

/// The font family and size that the configuration text sets. The size is
/// kept as the text found in the file, or `default`.
pub struct FontSettings {
    pub family: String,
    pub size_text: String,
}

impl Utils {
    /// The font settings of a configuration text: the value of the last
    /// `font_family` line, and that of the last `font_size` line where it is
    /// a number.
    pub fn get(content: &str) -> (r: FontSettings)
        ensures
            r.family@ == family_of(content@),
            r.size_text@ == size_text_of(content@),
    {
        let cs = chars_of(content);
        let (family, size) = read_settings(cs.as_slice());
        FontSettings { family: string_of(family.as_slice()), size_text: string_of(size.as_slice()) }
    }

    /// The configuration text with the first `font_family` line set to the
    /// display name that the catalog holds under `key`. A key that is not in
    /// the catalog is refused and no text is produced.
    pub fn replace_font_family(content: &str, catalog: &FontCatalog, key: &str) -> (r: Result<
        String,
        PluginError,
    >)
        requires
            catalog.wf(),
        ensures
            r is Ok <==> catalog@.contains_key(key@),
            r matches Ok(t) ==> t@ == replaced(content@, family_key(), catalog@[key@]),
            r matches Err(e) ==> e is FontNotInstalled,
    {
        match catalog.resolve(key) {
            Some(name) => {
                let cs = chars_of(content);
                let fkey = family_key_chars();
                let value = chars_of(name.as_str());
                let out = replace_directive(cs.as_slice(), fkey.as_slice(), value.as_slice());
                Ok(string_of(out.as_slice()))
            },
            None => Err(PluginError::FontNotInstalled(key.to_string())),
        }
    }

    /// The configuration text with the first `font_size` line set to `size`.
    pub fn replace_font_size(content: &str, size: FontSize) -> (r: String)
        ensures
            r@ == replaced(content@, size_key(), size_text(size.millis as int)),
    {
        let cs = chars_of(content);
        let skey = size_key_chars();
        let value = size.text();
        let out = replace_directive(cs.as_slice(), skey.as_slice(), value.as_slice());
        string_of(out.as_slice())
    }
}

} // verus!
