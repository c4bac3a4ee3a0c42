//! Loading layouts: errors, the loader trait and the basic DvorakJ loader.
use vstd::prelude::*;

use vstd::utf8::{decode_utf8, valid_utf8};

use crate::cell::KanaEncoder;
use crate::comments::{strip_comments, strip_comments_spec};
use crate::keys::KeyboardLayout;
use crate::layout::Layout;
use crate::map::Model;
use crate::parse::{parse_dvorakj, parse_layout, Dialect};
use crate::text::{chars_of, ends_with, ends_with_exec};

verus! {

/// Why a layout could not be loaded.
#[derive(Debug, Clone)]
pub enum LoadError {
    Io(String),
    Encoding(String),
    Parse(String),
    UnknownTrigger(String),
    Schema(String),
}

/// The mathematical value of a [`LoadError`].
pub enum LoadFailure {
    Io(Seq<char>),
    Encoding(Seq<char>),
    Parse(Seq<char>),
    UnknownTrigger(Seq<char>),
    Schema(Seq<char>),
}

impl Model for LoadError {
    type M = LoadFailure;

    open spec fn model(&self) -> LoadFailure {
        match self {
            LoadError::Io(s) => LoadFailure::Io(s@),
            LoadError::Encoding(s) => LoadFailure::Encoding(s@),
            LoadError::Parse(s) => LoadFailure::Parse(s@),
            LoadError::UnknownTrigger(s) => LoadFailure::UnknownTrigger(s@),
            LoadError::Schema(s) => LoadFailure::Schema(s@),
        }
    }
}

impl LoadError {
    /// The message of the error.
    pub fn message(&self) -> (s: String)
        ensures
            s@ == match self.model() {
                LoadFailure::Io(m) => m,
                LoadFailure::Encoding(m) => m,
                LoadFailure::Parse(m) => m,
                LoadFailure::UnknownTrigger(m) => m,
                LoadFailure::Schema(m) => m,
            },
    {
        match self {
            LoadError::Io(s) => s.clone(),
            LoadError::Encoding(s) => s.clone(),
            LoadError::Parse(s) => s.clone(),
            LoadError::UnknownTrigger(s) => s.clone(),
            LoadError::Schema(s) => s.clone(),
        }
    }
}


/// Loads layouts from the bytes of a layout file.
pub trait LayoutLoader {
    fn load(&self, bytes: &[u8], id: &str) -> Result<Layout, LoadError>
        requires
            uses_shift_jis(bytes@, id@) ==> bytes@.len() <= usize::MAX / 8,
    ;

    fn format_name(&self) -> &'static str;
}

/// What decoding with `encoding_rs::SHIFT_JIS` gives for some bytes.
pub uninterp spec fn shift_jis_text(bytes: Seq<u8>) -> Seq<char>;

/// What `String::from_utf8_lossy` gives for some bytes.
pub uninterp spec fn utf8_lossy_text(bytes: Seq<u8>) -> Seq<char>;

/// `encoding_rs::SHIFT_JIS.decode`: Shift_JIS decoding (with BOM sniffing and
/// replacement of malformed sequences). The result is named, not described,
/// but for ASCII bytes: no byte-order mark starts with one, and Shift_JIS is
/// ASCII-compatible (bytes 0x00..0x7F are the characters U+0000..U+007F).
/// The length bound keeps the decoder's buffer-size computation from
/// overflowing, the one way it panics.
#[verifier::external_body]
fn decode_shift_jis(bytes: &[u8]) -> (r: Vec<char>)
    requires
        bytes@.len() <= usize::MAX / 8,
    ensures
        r@ == shift_jis_text(bytes@),
        (forall|i: int| 0 <= i < bytes@.len() ==> bytes@[i] < 0x80) ==> r@ == Seq::new(
            bytes@.len(),
            |i: int| bytes@[i] as char,
        ),
{
    encoding_rs::SHIFT_JIS.decode(bytes).0.chars().collect()
}

/// `String::from_utf8_lossy`: valid UTF-8 decodes as such; what it gives for
/// other bytes (with U+FFFD replacements) is named, not described.
#[verifier::external_body]
fn decode_utf8_lossy(bytes: &[u8]) -> (r: Vec<char>)
    ensures
        r@ == utf8_lossy_text(bytes@),
        valid_utf8(bytes@) ==> r@ == decode_utf8(bytes@),
{
    String::from_utf8_lossy(bytes).chars().collect()
}

/// `std::str::from_utf8`: succeeds exactly on valid UTF-8, with its decoding.
#[verifier::external_body]
fn decode_utf8_strict(bytes: &[u8]) -> (r: Option<Vec<char>>)
    ensures
        match r {
            Some(v) => valid_utf8(bytes@) && v@ == decode_utf8(bytes@),
            None => !valid_utf8(bytes@),
        },
{
    match std::str::from_utf8(bytes) {
        Ok(s) => Some(s.chars().collect()),
        Err(_) => None,
    }
}

pub open spec fn en_suffix() -> Seq<char> {
    seq!['.', 'e', 'n', '.', 't', 'x', 't']
}

pub open spec fn jp_suffix() -> Seq<char> {
    seq!['.', 'j', 'p', '.', 't', 'x', 't']
}

/// The keyboard a layout file is written for: `*.en.txt` is US, anything else JIS.
pub open spec fn source_keyboard(id: Seq<char>) -> KeyboardLayout {
    if ends_with(id, en_suffix()) {
        KeyboardLayout::Us
    } else {
        KeyboardLayout::Jis
    }
}

/// The bytes without a leading UTF-8 byte-order mark.
pub open spec fn without_bom(b: Seq<u8>) -> Seq<u8> {
    if b.len() >= 3 && b[0] == 0xEF && b[1] == 0xBB && b[2] == 0xBF {
        b.skip(3)
    } else {
        b
    }
}

/// The text of a layout file: `*.en.txt` is UTF-8 (lossy), `*.jp.txt` is
/// Shift_JIS, and anything else is UTF-8 (after a byte-order mark) when
/// valid, Shift_JIS otherwise.
pub open spec fn source_text(bytes: Seq<u8>, id: Seq<char>) -> Seq<char> {
    if ends_with(id, en_suffix()) {
        utf8_lossy_text(bytes)
    } else if ends_with(id, jp_suffix()) {
        shift_jis_text(bytes)
    } else {
        let b = without_bom(bytes);
        if valid_utf8(b) {
            decode_utf8(b)
        } else {
            shift_jis_text(b)
        }
    }
}

/// Whether decoding a layout file goes through the Shift_JIS decoder:
/// `*.jp.txt`, and files of neither suffix whose bytes (after a byte-order
/// mark) are not valid UTF-8.
pub open spec fn uses_shift_jis(bytes: Seq<u8>, id: Seq<char>) -> bool {
    !ends_with(id, en_suffix()) && (ends_with(id, jp_suffix()) || !valid_utf8(without_bom(bytes)))
}

/// Whether every byte is ASCII.
pub open spec fn all_ascii(b: Seq<u8>) -> bool {
    forall|i: int| 0 <= i < b.len() ==> b[i] < 0x80
}

/// The text of a layout file where the decoders' documentation fixes it:
/// valid UTF-8 in a `*.en.txt` file (or in a file of neither suffix) decodes
/// as UTF-8, and ASCII bytes in a `*.jp.txt` file are their own characters.
pub open spec fn plain_text(bytes: Seq<u8>, id: Seq<char>) -> Option<Seq<char>> {
    if ends_with(id, en_suffix()) {
        if valid_utf8(bytes) {
            Some(decode_utf8(bytes))
        } else {
            None
        }
    } else if ends_with(id, jp_suffix()) {
        if all_ascii(bytes) {
            Some(Seq::new(bytes.len(), |i: int| bytes[i] as char))
        } else {
            None
        }
    } else if valid_utf8(without_bom(bytes)) {
        Some(decode_utf8(without_bom(bytes)))
    } else {
        None
    }
}

/// Decodes the bytes of a layout file by its name.
pub fn decode_source(bytes: &[u8], id: &[char]) -> (r: (KeyboardLayout, Vec<char>))
    requires
        uses_shift_jis(bytes@, id@) ==> bytes@.len() <= usize::MAX / 8,
    ensures
        r.0 == source_keyboard(id@),
        r.1@ == source_text(bytes@, id@),
        plain_text(bytes@, id@) matches Some(t) ==> r.1@ == t,
{
    let en = ['.', 'e', 'n', '.', 't', 'x', 't'];
    let jp = ['.', 'j', 'p', '.', 't', 'x', 't'];
    assert(en@ =~= en_suffix());
    assert(jp@ =~= jp_suffix());
    if ends_with_exec(id, &en) {
        (KeyboardLayout::Us, decode_utf8_lossy(bytes))
    } else if ends_with_exec(id, &jp) {
        (KeyboardLayout::Jis, decode_shift_jis(bytes))
    } else {
        let b: &[u8] = if bytes.len() >= 3 && bytes[0] == 0xEF && bytes[1] == 0xBB && bytes[2] == 0xBF {
            &bytes[3..bytes.len()]
        } else {
            bytes
        };
        assert(b@ =~= without_bom(bytes@));
        let text = match decode_utf8_strict(b) {
            Some(t) => t,
            None => decode_shift_jis(b),
        };
        (KeyboardLayout::Jis, text)
    }
}

/// Result of loading a decoded layout text.
pub open spec fn load_outcome(r: Result<Layout, LoadError>, text: Seq<char>, id: Seq<char>, kb: KeyboardLayout, d: Dialect) -> bool {
    match r {
        Ok(l) => parse_layout(strip_comments_spec(text), id, kb, d) == Ok::<crate::layout::LayoutView, Seq<char>>(l.model()),
        Err(e) => match parse_layout(strip_comments_spec(text), id, kb, d) {
            Ok(_) => false,
            Err(m) => e.model() == LoadFailure::UnknownTrigger(m),
        },
    }
}

/// Loads a layout from decoded text: comments are stripped, then the text is parsed.
pub fn load_text(text: &[char], id: &[char], keyboard: KeyboardLayout, dialect: Dialect) -> (r: Result<Layout, LoadError>)
    ensures
        load_outcome(r, text@, id@, keyboard, dialect),
{
    let stripped = strip_comments(text);
    parse_dvorakj(stripped.as_slice(), id, &KanaEncoder, keyboard, dialect)
}

/// DvorakJ layout loader (basic dialect).
pub struct DvorakJLayoutLoader {
    kana_encoder: KanaEncoder,
}

impl DvorakJLayoutLoader {
    pub fn new() -> Self {
        DvorakJLayoutLoader { kana_encoder: KanaEncoder }
    }
}

impl Default for DvorakJLayoutLoader {
    fn default() -> (r: Self) {
        Self::new()
    }
}

impl LayoutLoader for DvorakJLayoutLoader {
    fn load(&self, bytes: &[u8], id: &str) -> (r: Result<Layout, LoadError>)
        ensures
            load_outcome(r, source_text(bytes@, id@), id@, source_keyboard(id@), Dialect::Basic),
            plain_text(bytes@, id@) matches Some(t) ==> load_outcome(r, t, id@, source_keyboard(id@), Dialect::Basic),
    {
        let id_chars = chars_of(id);
        let (keyboard, text) = decode_source(bytes, id_chars.as_slice());
        let stripped = strip_comments(text.as_slice());
        parse_dvorakj(stripped.as_slice(), id_chars.as_slice(), &self.kana_encoder, keyboard, Dialect::Basic)
    }

    fn format_name(&self) -> (r: &'static str)
        ensures
            r@ == seq!['d', 'v', 'o', 'r', 'a', 'k', 'j'],
    {
        proof {
            reveal_strlit("dvorakj");
        }
        "dvorakj"
    }
}

} // verus!
