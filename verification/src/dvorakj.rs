//! DvorakJ layout loader for the extended dialect (layout modes, prefix and
//! bracket-named layers).
use vstd::prelude::*;

use crate::cell::KanaEncoder;
use crate::comments::strip_comments;
use crate::layout::Layout;
use crate::loader::{decode_source, load_outcome, plain_text, source_keyboard, source_text, LayoutLoader, LoadError};
use crate::parse::{parse_dvorakj, Dialect};
use crate::text::chars_of;

verus! {

/// DvorakJ layout loader (extended dialect).
pub struct DvorakJLayoutLoader {
    kana_encoder: KanaEncoder,
}

impl DvorakJLayoutLoader {
    pub fn new() -> Self {
        Self { kana_encoder: KanaEncoder }
    }
}

impl Default for DvorakJLayoutLoader {
    fn default() -> (r: Self) {
        Self::new()
    }
}

impl LayoutLoader for DvorakJLayoutLoader {
    fn load(&self, bytes: &[u8], id: &str) -> (r: Result<Layout, LoadError>)
        ensures
            load_outcome(r, source_text(bytes@, id@), id@, source_keyboard(id@), Dialect::Extended),
            plain_text(bytes@, id@) matches Some(t) ==> load_outcome(r, t, id@, source_keyboard(id@), Dialect::Extended),
    {
        let id_chars = chars_of(id);
        let (keyboard, text) = decode_source(bytes, id_chars.as_slice());
        let stripped = strip_comments(text.as_slice());
        parse_dvorakj(stripped.as_slice(), id_chars.as_slice(), &self.kana_encoder, keyboard, Dialect::Extended)
    }

    fn format_name(&self) -> (r: &'static str)
        ensures
            r@ == seq!['d', 'v', 'o', 'r', 'a', 'k', 'j'],
    {
        proof {
            reveal_strlit("dvorakj");
        }
        "dvorakj"
    }
}

} // verus!
