use rmap::cell::KanaEncoder;
use rmap::grid::{parse_grid, physical_row};
use rmap::keys::{KeyCode, KeyboardLayout, Modifiers};
use rmap::output::{InputMode, OutputToken};
use rmap::text::trim_exec;

fn chars(s: &str) -> Vec<char> {
    s.chars().collect()
}

fn key(code: KeyCode) -> OutputToken {
    OutputToken::Key { code, mods: Modifiers::empty() }
}

#[test]
fn physical_rows() {
    assert_eq!(physical_row(0, KeyboardLayout::Jis).len(), 13);
    assert_eq!(physical_row(0, KeyboardLayout::Jis)[12], KeyCode::Yen);
    assert_eq!(physical_row(1, KeyboardLayout::Jis)[10], KeyCode::AtSign);
    assert_eq!(physical_row(2, KeyboardLayout::Jis)[10], KeyCode::Colon);
    assert_eq!(physical_row(3, KeyboardLayout::Jis).len(), 11);
    assert_eq!(physical_row(0, KeyboardLayout::Us)[12], KeyCode::Grave);
    assert_eq!(physical_row(1, KeyboardLayout::Us)[12], KeyCode::Backslash);
    assert_eq!(physical_row(2, KeyboardLayout::Us)[10], KeyCode::Quote);
    assert_eq!(physical_row(3, KeyboardLayout::Us).len(), 10);
    assert!(physical_row(4, KeyboardLayout::Us).is_empty());
}

#[test]
fn grids_map_cells_under_physical_keys() {
    let rows = vec![
        chars("a|b|@@@| |c|d|e|f|g|h|i|j|k|l|m"),
        chars("z"),
    ];
    let body: Vec<&[char]> = rows.iter().map(|r| r.as_slice()).collect();
    let g = parse_grid(&body, &KanaEncoder, InputMode::Direct, 2, KeyboardLayout::Us);
    // Row 0 lies on physical row 2 (11 keys): cells past it are ignored,
    // `@@@` and blank cells map nothing.
    assert_eq!(g.len(), 10);
    assert_eq!(g.get(&KeyCode::A), Some(&vec![key(KeyCode::A)]));
    assert_eq!(g.get(&KeyCode::S), Some(&vec![key(KeyCode::B)]));
    assert!(g.get(&KeyCode::D).is_none());
    assert!(g.get(&KeyCode::F).is_none());
    assert_eq!(g.get(&KeyCode::Quote), Some(&vec![key(KeyCode::I)]));
    assert_eq!(g.get(&KeyCode::Z), Some(&vec![key(KeyCode::Z)]));
    for i in 0..g.len() {
        let (_, out) = g.entry_at(i);
        assert!(!out.is_empty());
    }
}

#[test]
fn rows_beyond_the_keyboard_are_ignored() {
    let rows = vec![chars("a"), chars("b")];
    let body: Vec<&[char]> = rows.iter().map(|r| r.as_slice()).collect();
    let g = parse_grid(&body, &KanaEncoder, InputMode::Direct, 3, KeyboardLayout::Jis);
    assert_eq!(g.len(), 1);
    assert_eq!(g.get(&KeyCode::Z), Some(&vec![key(KeyCode::A)]));
}

#[test]
fn trimming_twice_is_trimming_once() {
    for s in ["  a b  ", "\u{3000}x\u{3000}", "", " \t ", "{a}"] {
        let c = chars(s);
        let once = trim_exec(&c);
        assert_eq!(trim_exec(once), once);
    }
}
