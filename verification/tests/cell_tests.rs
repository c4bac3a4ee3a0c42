use rmap::cell::{brace_token, compile_cell, key_or_text, KanaEncoder};
use rmap::keymap::{keycode_from_numeric_vk, keycode_from_scancode};
use rmap::keys::{ascii_to_keycode, key_sort, KeyCode, KeyboardLayout, Modifiers};
use rmap::layout::{canon_sort, dedup_keys, sort_keys, KeyOrder};
use rmap::output::{InputMode, OutputToken, SpecialKey};

fn chars(s: &str) -> Vec<char> {
    s.chars().collect()
}

fn key(code: KeyCode) -> OutputToken {
    OutputToken::Key { code, mods: Modifiers::empty() }
}

fn shifted(code: KeyCode) -> OutputToken {
    OutputToken::Key { code, mods: Modifiers::shift() }
}

fn text(s: &str) -> OutputToken {
    OutputToken::Text(s.to_string())
}

fn compile(cell: &str, kb: KeyboardLayout) -> Vec<OutputToken> {
    compile_cell(&chars(cell), InputMode::Direct, &KanaEncoder, kb)
}

#[test]
fn ascii_keys() {
    assert_eq!(ascii_to_keycode('a'), KeyCode::A);
    assert_eq!(ascii_to_keycode('Q'), KeyCode::Q);
    assert_eq!(ascii_to_keycode('7'), KeyCode::Num7);
    assert_eq!(ascii_to_keycode(';'), KeyCode::Semicolon);
    assert_eq!(ascii_to_keycode('\n'), KeyCode::Enter);
    assert_eq!(ascii_to_keycode('!'), KeyCode::Unknown('!' as u32));
    assert_eq!(ascii_to_keycode('\u{3042}'), KeyCode::Unknown(0x3042));
}

#[test]
fn key_names() {
    assert_eq!(KeyCode::from_dvorakj_name(&chars("space")), Some(KeyCode::Space));
    assert_eq!(KeyCode::from_dvorakj_name(&chars("muhenkan")), Some(KeyCode::Muhenkan));
    assert_eq!(KeyCode::from_dvorakj_name(&chars("\u{7121}\u{5909}\u{63db}")), Some(KeyCode::Muhenkan));
    assert_eq!(KeyCode::from_dvorakj_name(&chars("lalt")), Some(KeyCode::AltL));
    assert_eq!(KeyCode::from_dvorakj_name(&chars("shift")), Some(KeyCode::ShiftL));
    assert_eq!(KeyCode::from_dvorakj_name(&chars("Space")), None);
    assert_eq!(KeyCode::from_dvorakj_name(&chars("20")), None);
}

#[test]
fn scan_codes_and_virtual_keys() {
    assert_eq!(keycode_from_scancode(0x1e), Some(KeyCode::A));
    assert_eq!(keycode_from_scancode(0x39), Some(KeyCode::Space));
    assert_eq!(keycode_from_scancode(0x73), Some(KeyCode::Backslash));
    assert_eq!(keycode_from_scancode(0x2b), Some(KeyCode::Backslash));
    assert_eq!(keycode_from_scancode(0x01), None);
    assert_eq!(keycode_from_numeric_vk(29), Some(KeyCode::Muhenkan));
    assert_eq!(keycode_from_numeric_vk(28), Some(KeyCode::Henkan));
    assert_eq!(keycode_from_numeric_vk(20), Some(KeyCode::CapsLock));
    assert_eq!(keycode_from_numeric_vk(21), Some(KeyCode::KanaKatakana));
    assert_eq!(keycode_from_numeric_vk(99), None);
}

#[test]
fn key_or_text_on_each_keyboard() {
    assert_eq!(key_or_text('a', KeyboardLayout::Jis), key(KeyCode::A));
    assert_eq!(key_or_text('A', KeyboardLayout::Us), shifted(KeyCode::A));
    assert_eq!(key_or_text('5', KeyboardLayout::Us), key(KeyCode::Num5));
    assert_eq!(key_or_text(';', KeyboardLayout::Jis), key(KeyCode::Semicolon));
    assert_eq!(key_or_text(';', KeyboardLayout::Us), text(";"));
    assert_eq!(key_or_text('!', KeyboardLayout::Jis), text("!"));
    assert_eq!(key_or_text('\u{3042}', KeyboardLayout::Jis), text("\u{3042}"));
}

#[test]
fn letters_and_digits_do_not_depend_on_keyboard() {
    for c in "azAZ09".chars() {
        assert_eq!(key_or_text(c, KeyboardLayout::Us), key_or_text(c, KeyboardLayout::Jis));
    }
    for c in "-=[];',./` ".chars() {
        assert_eq!(key_or_text(c, KeyboardLayout::Us), text(&c.to_string()));
    }
}

#[test]
fn brace_tokens() {
    let kb = KeyboardLayout::Jis;
    assert_eq!(brace_token(&chars("enter"), kb), OutputToken::Named(SpecialKey::Enter));
    assert_eq!(brace_token(&chars("Return"), kb), OutputToken::Named(SpecialKey::Enter));
    assert_eq!(brace_token(&chars("BS"), kb), OutputToken::Named(SpecialKey::Backspace));
    assert_eq!(brace_token(&chars("bac\u{212a}space"), kb), OutputToken::Named(SpecialKey::Backspace));
    assert_eq!(brace_token(&chars("esc"), kb), OutputToken::Named(SpecialKey::Escape));
    assert_eq!(brace_token(&chars("left"), kb), OutputToken::Named(SpecialKey::Left));
    assert_eq!(brace_token(&chars("UP"), kb), OutputToken::Named(SpecialKey::Up));
    assert_eq!(brace_token(&chars("space"), kb), key(KeyCode::Space));
    assert_eq!(brace_token(&chars("pipe"), kb), text("|"));
    assert_eq!(brace_token(&chars("bar"), kb), text("|"));
    assert_eq!(brace_token(&chars("A"), kb), key(KeyCode::A));
    assert_eq!(brace_token(&chars("\u{212a}"), kb), key(KeyCode::K));
    assert_eq!(brace_token(&chars("\u{3042}"), kb), text("\u{3042}"));
    assert_eq!(brace_token(&chars("\u{3001}"), kb), text("\u{3001}"));
    assert_eq!(brace_token(&chars("\u{c4}"), kb), text("\u{e4}"));
    assert_eq!(brace_token(&chars("\u{130}"), kb), text("{\u{130}}"));
    assert_eq!(brace_token(&chars("\u{3042}\u{3044}"), kb), text("{\u{3042}\u{3044}}"));
    assert_eq!(brace_token(&chars("home"), kb), text("{home}"));
    assert_eq!(brace_token(&chars(""), kb), text("{}"));
}

#[test]
fn cells_compile_to_tokens() {
    let kb = KeyboardLayout::Jis;
    assert_eq!(compile("", kb), vec![]);
    assert_eq!(compile(" @@@ ", kb), vec![]);
    assert_eq!(compile("ka", kb), vec![key(KeyCode::K), key(KeyCode::A)]);
    assert_eq!(
        compile("\u{ff01}{enter}", kb),
        vec![text("\u{ff01}"), OutputToken::Named(SpecialKey::Enter)]
    );
    assert_eq!(
        compile("\u{300c}\u{300d}{enter}{left}", kb),
        vec![
            text("\u{300c}"),
            text("\u{300d}"),
            OutputToken::Named(SpecialKey::Enter),
            OutputToken::Named(SpecialKey::Left)
        ]
    );
    assert_eq!(
        compile("{ab", kb),
        vec![text("{"), key(KeyCode::A), key(KeyCode::B)]
    );
    assert_eq!(compile("X", kb), vec![shifted(KeyCode::X)]);
    assert_eq!(compile("{home}x", kb), vec![text("{home}"), key(KeyCode::X)]);
}

#[test]
fn romaji_cells() {
    let out = compile_cell(&chars("ka\u{3042}"), InputMode::Romaji, &KanaEncoder, KeyboardLayout::Jis);
    assert_eq!(out, vec![key(KeyCode::K), key(KeyCode::A), text("\u{3042}")]);
    let out2 = compile_cell(&chars("k{enter}"), InputMode::Romaji, &KanaEncoder, KeyboardLayout::Jis);
    assert_eq!(out2, vec![key(KeyCode::K), OutputToken::Named(SpecialKey::Enter)]);
    let enc = KanaEncoder;
    assert_eq!(enc.encode(&chars("\u{304b}"), InputMode::Kana), vec![text("\u{304b}")]);
}

#[test]
fn layer_key_order() {
    assert_eq!(key_sort(KeyCode::Space), 1);
    assert_eq!(key_sort(KeyCode::A), 100);
    assert_eq!(key_sort(KeyCode::Unknown(7)), 200);
    let v = vec![KeyCode::A, KeyCode::Muhenkan, KeyCode::Unknown(3), KeyCode::B, KeyCode::Space];
    assert_eq!(
        sort_keys(&v, KeyOrder::Layer),
        vec![KeyCode::Space, KeyCode::Muhenkan, KeyCode::A, KeyCode::B, KeyCode::Unknown(3)]
    );
}

#[test]
fn chords_are_canonical() {
    let mut c1 = vec![KeyCode::Num1, KeyCode::A, KeyCode::Space, KeyCode::A];
    let mut c2 = vec![KeyCode::Space, KeyCode::Num1, KeyCode::A];
    canon_sort(&mut c1);
    canon_sort(&mut c2);
    assert_eq!(c1, vec![KeyCode::A, KeyCode::Num1, KeyCode::Space]);
    assert_eq!(c1, c2);
    assert_eq!(dedup_keys(&vec![KeyCode::A, KeyCode::A, KeyCode::B, KeyCode::A]), vec![KeyCode::A, KeyCode::B, KeyCode::A]);
}
