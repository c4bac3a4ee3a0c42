//! Cell compilation: the text of a grid cell to a sequence of output tokens.
use vstd::prelude::*;

use crate::keys::{
    ascii_key, ascii_to_keycode, is_ascii_alnum, is_ascii_alpha, is_ascii_upper, no_mods, shift_mod,
    to_ascii_lower, to_ascii_lower_exec, KeyCode, KeyboardLayout, Modifiers,
};
use crate::map::Model;
use crate::output::{string_from_chars, InputMode, OutputSeq, OutputToken, SpecialKey, Token};
use crate::text::{contains_exec, find, find_exec, lemma_find, same_chars, trim, trim_exec};

verus! {

/// Lower-case folding of a character as seen by comparisons with ASCII words:
/// ASCII capitals and the Kelvin sign fold to ASCII lower case; any other
/// character has no lower-case form made of ASCII characters.
pub open spec fn fold_char(c: char) -> char {
    if is_ascii_upper(c) {
        to_ascii_lower(c)
    } else if c == '\u{212A}' {
        'k'
    } else {
        c
    }
}

/// `s` equals the ASCII word `kw` ignoring case.
pub open spec fn folds_to(s: Seq<char>, kw: Seq<char>) -> bool {
    s.len() == kw.len() && forall|i: int| 0 <= i < s.len() ==> fold_char(#[trigger] s[i]) == kw[i]
}

fn fold_char_exec(c: char) -> (r: char)
    ensures
        r == fold_char(c),
{
    if 'A' <= c && c <= 'Z' {
        to_ascii_lower_exec(c)
    } else if c == '\u{212A}' {
        'k'
    } else {
        c
    }
}

fn folds_to_exec(s: &[char], kw: &[char]) -> (r: bool)
    ensures
        r == folds_to(s@, kw@),
{
    if s.len() != kw.len() {
        return false;
    }
    let mut i: usize = 0;
    while i < s.len()
        invariant
            s@.len() == kw@.len(),
            i <= s@.len(),
            forall|j: int| 0 <= j < i ==> fold_char(#[trigger] s@[j]) == kw@[j],
        decreases s.len() - i,
    {
        if fold_char_exec(s[i]) != kw[i] {
            return false;
        }
        i = i + 1;
    }
    true
}

/// The token for one output character: a key stroke when a physical key types
/// it (Shift for capitals), otherwise the character as text. On a US keyboard
/// only letters and digits become key strokes.
pub open spec fn char_token(ch: char, kb: KeyboardLayout) -> Token {
    if kb == KeyboardLayout::Us && !is_ascii_alnum(ch) {
        Token::Text(seq![ch])
    } else {
        let code = ascii_key(ch);
        if code is Unknown {
            Token::Text(seq![ch])
        } else {
            Token::Key { code, mods: if is_ascii_upper(ch) { shift_mod() } else { no_mods() } }
        }
    }
}

/// What `char::to_lowercase` gives for a character.
pub uninterp spec fn lowercase_of(c: char) -> Seq<char>;

/// `char::to_lowercase`, collected: the Unicode lower-case mapping of a
/// character, named by [`lowercase_of`].
#[verifier::external_body]
fn lowercase_char(c: char) -> (r: Vec<char>)
    ensures
        r@ == lowercase_of(c),
{
    c.to_lowercase().collect()
}

/// The lower-case form of a `{c}` shorthand when it is a single character:
/// ASCII capitals and the Kelvin sign fold as in key names, any other
/// character by its Unicode lower-case mapping.
pub open spec fn single_lower(c: char) -> Option<char> {
    if (fold_char(c) as u32) < 0x80 {
        Some(fold_char(c))
    } else if lowercase_of(c).len() == 1 {
        Some(lowercase_of(c)[0])
    } else {
        None
    }
}

fn single_lower_exec(c: char) -> (r: Option<char>)
    ensures
        r == single_lower(c),
{
    let f = fold_char_exec(c);
    if (f as u32) < 0x80 {
        Some(f)
    } else {
        let l = lowercase_char(c);
        if l.len() == 1 {
            Some(l[0])
        } else {
            None
        }
    }
}

/// The text `{inner}`.
fn braced_text(inner: &[char]) -> (t: OutputToken)
    ensures
        t.model() == Token::Text(seq!['{'] + inner@ + seq!['}']),
{
    let mut v: Vec<char> = Vec::new();
    v.push('{');
    let mut i: usize = 0;
    while i < inner.len()
        invariant
            i <= inner@.len(),
            v@ == seq!['{'] + inner@.take(i as int),
        decreases inner.len() - i,
    {
        v.push(inner[i]);
        i = i + 1;
        assert(v@ =~= seq!['{'] + inner@.take(i as int));
    }
    v.push('}');
    assert(inner@.take(inner.len() as int) =~= inner@);
    assert(v@ =~= seq!['{'] + inner@ + seq!['}']);
    OutputToken::Text(string_from_chars(v.as_slice()))
}

/// The token for the contents of a `{...}` cell token.
pub open spec fn brace_output(inner: Seq<char>, kb: KeyboardLayout) -> Token {
    if folds_to(inner, seq!['b', 's']) || folds_to(inner, seq!['b', 'a', 'c', 'k', 's', 'p', 'a', 'c', 'e']) {
        Token::Named(SpecialKey::Backspace)
    } else if folds_to(inner, seq!['e', 'n', 't', 'e', 'r']) || folds_to(inner, seq!['r', 'e', 't', 'u', 'r', 'n']) {
        Token::Named(SpecialKey::Enter)
    } else if folds_to(inner, seq!['t', 'a', 'b']) {
        Token::Named(SpecialKey::Tab)
    } else if folds_to(inner, seq!['e', 's', 'c']) || folds_to(inner, seq!['e', 's', 'c', 'a', 'p', 'e']) {
        Token::Named(SpecialKey::Escape)
    } else if folds_to(inner, seq!['l', 'e', 'f', 't']) {
        Token::Named(SpecialKey::Left)
    } else if folds_to(inner, seq!['r', 'i', 'g', 'h', 't']) {
        Token::Named(SpecialKey::Right)
    } else if folds_to(inner, seq!['u', 'p']) {
        Token::Named(SpecialKey::Up)
    } else if folds_to(inner, seq!['d', 'o', 'w', 'n']) {
        Token::Named(SpecialKey::Down)
    } else if folds_to(inner, seq!['s', 'p', 'a', 'c', 'e']) {
        Token::Key { code: KeyCode::Space, mods: no_mods() }
    } else if folds_to(inner, seq!['p', 'i', 'p', 'e']) || folds_to(inner, seq!['b', 'a', 'r']) {
        Token::Text(seq!['|'])
    } else if inner.len() == 1 && single_lower(inner[0]) is Some {
        char_token(single_lower(inner[0])->0, kb)
    } else {
        Token::Text(seq!['{'] + inner + seq!['}'])
    }
}

/// Tokens of a cell: characters one by one, `{...}` groups as one token, and
/// an unclosed `{` with the rest of the cell as plain characters.
pub open spec fn cell_tokens(s: Seq<char>, kb: KeyboardLayout) -> Seq<Token>
    decreases s.len(),
{
    if s.len() == 0 {
        seq![]
    } else if s[0] == '{' {
        let rest = s.drop_first();
        match find(rest, '}') {
            Some(j) => if 0 <= j < rest.len() {
                seq![brace_output(rest.take(j), kb)] + cell_tokens(rest.skip(j + 1), kb)
            } else {
                seq![]
            },
            None => seq![char_token('{', kb)] + Seq::new(rest.len(), |i: int| char_token(rest[i], kb)),
        }
    } else {
        seq![char_token(s[0], kb)] + cell_tokens(s.drop_first(), kb)
    }
}

/// Kana text in an input mode: romaji passes ASCII letters as key strokes and
/// other characters as text; other modes pass the text as a whole.
pub open spec fn kana_tokens(s: Seq<char>, mode: InputMode) -> Seq<Token> {
    if mode == InputMode::Romaji {
        Seq::new(s.len(), |i: int|
            if is_ascii_alpha(s[i]) {
                Token::Key { code: ascii_key(s[i]), mods: no_mods() }
            } else {
                Token::Text(seq![s[i]])
            })
    } else {
        seq![Token::Text(s)]
    }
}

/// The output of a grid cell.
pub open spec fn cell_output(cell: Seq<char>, mode: InputMode, kb: KeyboardLayout) -> Seq<Token> {
    let c = trim(cell);
    if c.len() == 0 || c == seq!['@', '@', '@'] {
        seq![]
    } else if mode == InputMode::Romaji && !c.contains('{') {
        kana_tokens(c, mode)
    } else {
        cell_tokens(c, kb)
    }
}

/// Text token for one character.
fn text_token(ch: char) -> (t: OutputToken)
    ensures
        t.model() == Token::Text(seq![ch]),
{
    let a = [ch];
    let s = string_from_chars(&a);
    assert(a@ =~= seq![ch]);
    OutputToken::Text(s)
}

/// The token for one output character.
pub fn key_or_text(ch: char, keyboard: KeyboardLayout) -> (t: OutputToken)
    ensures
        t.model() == char_token(ch, keyboard),
{
    let alnum = ('A' <= ch && ch <= 'Z') || ('a' <= ch && ch <= 'z') || ('0' <= ch && ch <= '9');
    if keyboard == KeyboardLayout::Us && !alnum {
        return text_token(ch);
    }
    let code = ascii_to_keycode(ch);
    if let KeyCode::Unknown(_) = code {
        text_token(ch)
    } else {
        let mods = if 'A' <= ch && ch <= 'Z' {
            Modifiers::shift()
        } else {
            Modifiers::empty()
        };
        OutputToken::Key { code, mods }
    }
}

/// The token for the contents of a `{...}` cell token.
pub fn brace_token(inner: &[char], keyboard: KeyboardLayout) -> (t: OutputToken)
    ensures
        t.model() == brace_output(inner@, keyboard),
{
    if folds_to_exec(inner, &['b', 's']) || folds_to_exec(inner, &['b', 'a', 'c', 'k', 's', 'p', 'a', 'c', 'e']) {
        OutputToken::Named(SpecialKey::Backspace)
    } else if folds_to_exec(inner, &['e', 'n', 't', 'e', 'r']) || folds_to_exec(inner, &['r', 'e', 't', 'u', 'r', 'n']) {
        OutputToken::Named(SpecialKey::Enter)
    } else if folds_to_exec(inner, &['t', 'a', 'b']) {
        OutputToken::Named(SpecialKey::Tab)
    } else if folds_to_exec(inner, &['e', 's', 'c']) || folds_to_exec(inner, &['e', 's', 'c', 'a', 'p', 'e']) {
        OutputToken::Named(SpecialKey::Escape)
    } else if folds_to_exec(inner, &['l', 'e', 'f', 't']) {
        OutputToken::Named(SpecialKey::Left)
    } else if folds_to_exec(inner, &['r', 'i', 'g', 'h', 't']) {
        OutputToken::Named(SpecialKey::Right)
    } else if folds_to_exec(inner, &['u', 'p']) {
        OutputToken::Named(SpecialKey::Up)
    } else if folds_to_exec(inner, &['d', 'o', 'w', 'n']) {
        OutputToken::Named(SpecialKey::Down)
    } else if folds_to_exec(inner, &['s', 'p', 'a', 'c', 'e']) {
        OutputToken::Key { code: KeyCode::Space, mods: Modifiers::empty() }
    } else if folds_to_exec(inner, &['p', 'i', 'p', 'e']) || folds_to_exec(inner, &['b', 'a', 'r']) {
        text_token('|')
    } else if inner.len() == 1 {
        match single_lower_exec(inner[0]) {
            Some(c) => key_or_text(c, keyboard),
            None => braced_text(inner),
        }
    } else {
        braced_text(inner)
    }
}

/// The kana encoder of a layout (romaji passes ASCII letters through as keys).
pub struct KanaEncoder;

impl KanaEncoder {
    /// Kana text to output tokens in an input mode.
    pub fn encode(&self, s: &[char], mode: InputMode) -> (r: OutputSeq)
        ensures
            r.model() == kana_tokens(s@, mode),
    {
        let mut out: Vec<OutputToken> = Vec::new();
        if mode == InputMode::Romaji {
            let mut i: usize = 0;
            while i < s.len()
                invariant
                    mode == InputMode::Romaji,
                    i <= s@.len(),
                    out@.len() == i,
                    forall|j: int| 0 <= j < i ==> #[trigger] out@[j].model() == kana_tokens(s@, mode)[j],
                decreases s.len() - i,
            {
                let c = s[i];
                if ('A' <= c && c <= 'Z') || ('a' <= c && c <= 'z') {
                    out.push(OutputToken::Key { code: ascii_to_keycode(c), mods: Modifiers::empty() });
                } else {
                    out.push(text_token(c));
                }
                i = i + 1;
            }
            assert(out.model() =~= kana_tokens(s@, mode));
        } else {
            out.push(OutputToken::Text(string_from_chars(s)));
            assert(out.model() =~= kana_tokens(s@, mode));
        }
        out
    }
}

/// Compiles a grid cell to its output.
pub fn compile_cell(cell: &[char], mode: InputMode, encoder: &KanaEncoder, keyboard: KeyboardLayout) -> (r: OutputSeq)
    ensures
        r.model() == cell_output(cell@, mode, keyboard),
{
    let c = trim_exec(cell);
    if c.len() == 0 || same_chars(c, &['@', '@', '@']) {
        let out: Vec<OutputToken> = Vec::new();
        assert(out.model() =~= Seq::<Token>::empty());
        return out;
    }
    if mode == InputMode::Romaji && !contains_exec(c, '{') {
        return encoder.encode(c, mode);
    }
    let mut out: Vec<OutputToken> = Vec::new();
    let mut i: usize = 0;
    assert(c@.skip(0) =~= c@);
    assert(out.model() + cell_tokens(c@.skip(0), keyboard) =~= cell_tokens(c@, keyboard));
    while i < c.len()
        invariant
            i <= c@.len(),
            out.model() + cell_tokens(c@.skip(i as int), keyboard) == cell_tokens(c@, keyboard),
        decreases c.len() - i,
    {
        let ghost s = c@.skip(i as int);
        let ghost before = out.model();
        if c[i] == '{' {
            let rest = &c[i + 1..c.len()];
            assert(rest@ =~= s.drop_first());
            match find_exec(rest, '}') {
                Some(j) => {
                    proof {
                        lemma_find(rest@, '}');
                    }
                    let inner = &rest[0..j];
                    assert(inner@ =~= rest@.take(j as int));
                    out.push(brace_token(inner, keyboard));
                    assert(out.model() =~= before.push(brace_output(rest@.take(j as int), keyboard)));
                    assert(rest@.skip(j + 1) =~= c@.skip(i + j + 2));
                    assert(out.model() + cell_tokens(c@.skip(i + j + 2), keyboard) =~= before
                        + cell_tokens(s, keyboard));
                    i = i + j + 2;
                },
                None => {
                    out.push(key_or_text('{', keyboard));
                    let mut k: usize = 0;
                    while k < rest.len()
                        invariant
                            k <= rest@.len(),
                            out.model() == before + seq![char_token('{', keyboard)] + Seq::new(
                                k as nat,
                                |m: int| char_token(rest@[m], keyboard),
                            ),
                        decreases rest.len() - k,
                    {
                        let ghost b2 = out.model();
                        out.push(key_or_text(rest[k], keyboard));
                        assert(out.model() =~= b2.push(char_token(rest@[k as int], keyboard)));
                        k = k + 1;
                        assert(out.model() =~= before + seq![char_token('{', keyboard)] + Seq::new(
                            k as nat,
                            |m: int| char_token(rest@[m], keyboard),
                        ));
                    }
                    assert(out.model() =~= before + cell_tokens(s, keyboard));
                    assert(c@.skip(c.len() as int) =~= Seq::<char>::empty());
                    assert(out.model() + cell_tokens(c@.skip(c.len() as int), keyboard) =~= out.model());
                    i = c.len();
                },
            }
        } else {
            out.push(key_or_text(c[i], keyboard));
            assert(s.drop_first() =~= c@.skip(i + 1));
            assert(out.model() =~= before.push(char_token(c@[i as int], keyboard)));
            assert(out.model() + cell_tokens(c@.skip(i + 1), keyboard) =~= before + cell_tokens(s, keyboard));
            i = i + 1;
        }
    }
    assert(c@.skip(c.len() as int) =~= Seq::<char>::empty());
    assert(out.model() + Seq::<Token>::empty() =~= out.model());
    out
}


/// Letters and digits are typed as key strokes on both keyboards (Shift for
/// capitals); only other characters depend on the keyboard, and on a US
/// keyboard they are always injected as text.
pub proof fn law_char_token_keyboard(ch: char)
    ensures
        is_ascii_alnum(ch) ==> char_token(ch, KeyboardLayout::Us) == char_token(ch, KeyboardLayout::Jis),
        is_ascii_alnum(ch) ==> char_token(ch, KeyboardLayout::Us) == (Token::Key {
            code: ascii_key(ch),
            mods: if is_ascii_upper(ch) { shift_mod() } else { no_mods() },
        }),
        !is_ascii_alnum(ch) ==> char_token(ch, KeyboardLayout::Us) == Token::Text(seq![ch]),
{
    if is_ascii_alnum(ch) {
        let u = ch as u32;
        let l = to_ascii_lower(ch);
        assert(0x30 <= (l as u32) <= 0x39 || 0x61 <= (l as u32) <= 0x7a);
        assert(!(ascii_key(ch) is Unknown)) by {
            let v = l as u32;
            assert(v == 0x30 || v == 0x31 || v == 0x32 || v == 0x33 || v == 0x34 || v == 0x35 || v == 0x36
                || v == 0x37 || v == 0x38 || v == 0x39 || v == 0x61 || v == 0x62 || v == 0x63 || v == 0x64
                || v == 0x65 || v == 0x66 || v == 0x67 || v == 0x68 || v == 0x69 || v == 0x6a || v == 0x6b
                || v == 0x6c || v == 0x6d || v == 0x6e || v == 0x6f || v == 0x70 || v == 0x71 || v == 0x72
                || v == 0x73 || v == 0x74 || v == 0x75 || v == 0x76 || v == 0x77 || v == 0x78 || v == 0x79
                || v == 0x7a);
        }
    }
}


/// The name of a special key, as written between braces in a cell.
pub open spec fn special_key_name(k: SpecialKey) -> Seq<char> {
    match k {
        SpecialKey::Backspace => seq!['b', 'a', 'c', 'k', 's', 'p', 'a', 'c', 'e'],
        SpecialKey::Enter => seq!['e', 'n', 't', 'e', 'r'],
        SpecialKey::Tab => seq!['t', 'a', 'b'],
        SpecialKey::Escape => seq!['e', 's', 'c', 'a', 'p', 'e'],
        SpecialKey::Left => seq!['l', 'e', 'f', 't'],
        SpecialKey::Right => seq!['r', 'i', 'g', 'h', 't'],
        SpecialKey::Up => seq!['u', 'p'],
        SpecialKey::Down => seq!['d', 'o', 'w', 'n'],
    }
}

/// The short name of a special key, where it has one.
pub open spec fn special_key_alias(k: SpecialKey) -> Option<Seq<char>> {
    match k {
        SpecialKey::Backspace => Some(seq!['b', 's']),
        SpecialKey::Enter => Some(seq!['r', 'e', 't', 'u', 'r', 'n']),
        SpecialKey::Escape => Some(seq!['e', 's', 'c']),
        _ => None,
    }
}

/// A special key's name (or short name) in braces, in any letter case, stands
/// for that key: so different names give different keys.
pub proof fn law_named_keys(inner: Seq<char>, k: SpecialKey, kb: KeyboardLayout)
    requires
        folds_to(inner, special_key_name(k)) || (special_key_alias(k) matches Some(a) && folds_to(inner, a)),
    ensures
        brace_output(inner, kb) == Token::Named(k),
{
    let w = if folds_to(inner, special_key_name(k)) { special_key_name(k) } else { special_key_alias(k)->0 };
    assert(folds_to(inner, w));
    assert(inner.len() == w.len());
    assert forall|i: int| 0 <= i < inner.len() implies fold_char(#[trigger] inner[i]) == w[i] by {}
    if inner.len() > 0 {
        assert(fold_char(inner[0]) == w[0]);
    }
    if inner.len() > 1 {
        assert(fold_char(inner[1]) == w[1]);
    }
    if inner.len() > 2 {
        assert(fold_char(inner[2]) == w[2]);
    }
}

} // verus!
