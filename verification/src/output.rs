//! Output model: what a key press produces, compiled once at load time.
use vstd::prelude::*;

use crate::keys::{KeyCode, Modifiers};
use crate::map::{Duplicate, Model};

verus! {

/// One unit of output.
#[derive(Debug, Clone, PartialEq, Eq)]
pub enum OutputToken {
    /// Synthesized key with modifiers.
    Key { code: KeyCode, mods: Modifiers },
    /// Raw Unicode text, injected directly.
    Text(String),
    /// A named special key.
    Named(SpecialKey),
}

/// Named special keys.
#[derive(Debug, Clone, Copy, PartialEq, Eq, Structural)]
pub enum SpecialKey {
    Backspace,
    Enter,
    Tab,
    Escape,
    Left,
    Right,
    Up,
    Down,
}

/// How a layout's text cells are turned into output.
#[derive(Debug, Clone, Copy, PartialEq, Eq, Structural)]
pub enum InputMode {
    /// One key (with modifiers) per character.
    Direct,
    /// Kana text typed as romaji keystrokes.
    Romaji,
    /// Kana text typed on JIS kana key positions.
    Kana,
}

impl Default for InputMode {
    fn default() -> (m: InputMode)
        ensures
            m == InputMode::Direct,
    {
        InputMode::Direct
    }
}

/// The mathematical value of an [`OutputToken`].
pub enum Token {
    Key { code: KeyCode, mods: Modifiers },
    Text(Seq<char>),
    Named(SpecialKey),
}

/// A sequence of output tokens.
pub type OutputSeq = Vec<OutputToken>;

impl Model for OutputToken {
    type M = Token;

    open spec fn model(&self) -> Token {
        match self {
            OutputToken::Key { code, mods } => Token::Key { code: *code, mods: *mods },
            OutputToken::Text(s) => Token::Text(s@),
            OutputToken::Named(k) => Token::Named(*k),
        }
    }
}

impl Model for Vec<OutputToken> {
    type M = Seq<Token>;

    open spec fn model(&self) -> Seq<Token> {
        Seq::new(self@.len(), |i: int| self@[i].model())
    }
}

/// A string holding exactly the given characters.
#[verifier::external_body]
pub fn string_from_chars(s: &[char]) -> (r: String)
    ensures
        r@ == s@,
{
    s.iter().collect()
}

impl OutputToken {
    /// A copy of this token.
    pub fn duplicate(&self) -> (r: OutputToken)
        ensures
            r.model() == self.model(),
    {
        match self {
            OutputToken::Key { code, mods } => OutputToken::Key { code: *code, mods: *mods },
            OutputToken::Text(s) => OutputToken::Text(s.clone()),
            OutputToken::Named(k) => OutputToken::Named(*k),
        }
    }
}

/// A copy of a token sequence.
pub fn duplicate_seq(v: &Vec<OutputToken>) -> (r: Vec<OutputToken>)
    ensures
        r.model() == v.model(),
{
    let mut out: Vec<OutputToken> = Vec::new();
    let mut i: usize = 0;
    while i < v.len()
        invariant
            i <= v.len(),
            out@.len() == i,
            forall|j: int| 0 <= j < i ==> #[trigger] out@[j].model() == v@[j].model(),
        decreases v.len() - i,
    {
        out.push(v[i].duplicate());
        i = i + 1;
    }
    assert(out.model() =~= v.model());
    out
}

} // verus!

verus! {

impl Duplicate for Vec<OutputToken> {
    fn duplicate(&self) -> (r: Self) {
        duplicate_seq(self)
    }
}

} // verus!
