use rmap::cell::KanaEncoder;
use rmap::keys::{key_sort, ordinal, KeyCode, KeyboardLayout, Modifiers};
use rmap::layout::{Layout, LayoutMode};
use rmap::loader::LoadError;
use rmap::output::OutputToken;
use rmap::parse::{detect_mode, determine_route, parse_dvorakj, resolve_trigger, BlockRoute, Dialect};

fn chars(s: &str) -> Vec<char> {
    s.chars().collect()
}

fn key(code: KeyCode) -> OutputToken {
    OutputToken::Key { code, mods: Modifiers::empty() }
}

fn text(s: &str) -> OutputToken {
    OutputToken::Text(s.to_string())
}

fn parse(src: &str, d: Dialect) -> Result<Layout, LoadError> {
    parse_dvorakj(&chars(src), &chars("test-id"), &KanaEncoder, KeyboardLayout::Jis, d)
}

fn unknown_trigger(r: Result<Layout, LoadError>) -> String {
    match r {
        Err(LoadError::UnknownTrigger(m)) => m,
        Err(e) => panic!("unexpected error {}", e.message()),
        Ok(_) => panic!("expected an error"),
    }
}

#[test]
fn base_grid_maps_physical_rows() {
    let l = parse("Sample\n[\na|b\nc\n]\n", Dialect::Basic).unwrap();
    assert_eq!(l.name, "Sample");
    assert_eq!(l.id, "test-id");
    assert_eq!(l.mode, LayoutMode::Legacy);
    assert_eq!(l.single_map.len(), 3);
    assert_eq!(l.single_map.get(&KeyCode::Num1), Some(&vec![key(KeyCode::A)]));
    assert_eq!(l.single_map.get(&KeyCode::Num2), Some(&vec![key(KeyCode::B)]));
    assert_eq!(l.single_map.get(&KeyCode::Q), Some(&vec![key(KeyCode::C)]));
    assert_eq!(l.layer_triggers.len(), 0);
}

#[test]
fn empty_text_gives_empty_layout() {
    let l = parse("", Dialect::Extended).unwrap();
    assert_eq!(l.name, "test-id");
    assert_eq!(l.single_map.len(), 0);
    let l2 = parse("   \n\n  Only a name  \n", Dialect::Extended).unwrap();
    assert_eq!(l2.name, "Only a name");
}

#[test]
fn declared_layer_is_held() {
    let src = "S\n-option-input[ {space} | -space ]\n[\n1|2\n]\n{space}[\nx|y\n]\n";
    let l = parse(src, Dialect::Basic).unwrap();
    let layer = l.layer_maps.get(&vec![KeyCode::Space]).unwrap();
    assert_eq!(layer.get(&KeyCode::Num1), Some(&vec![key(KeyCode::X)]));
    assert_eq!(layer.get(&KeyCode::Num2), Some(&vec![key(KeyCode::Y)]));
    assert!(l.sustained_triggers.contains(KeyCode::Space));
    assert!(l.is_layer_trigger(KeyCode::Space));
    assert!(!l.is_layer_trigger(KeyCode::A));
    assert_eq!(l.layer_taps.get(&KeyCode::Space), Some(&vec![key(KeyCode::Space)]));
    assert_eq!(l.combos.len(), 0);
}

#[test]
fn scan_code_layers_become_chords() {
    let src = "C\n[\na|b|c\n]\n-1e-30[\n1|2\n]\n";
    let l = parse(src, Dialect::Basic).unwrap();
    assert_eq!(
        l.combos.get(&vec![KeyCode::A, KeyCode::B, KeyCode::Num1]),
        Some(&vec![key(KeyCode::Num1)])
    );
    assert_eq!(
        l.combos.get(&vec![KeyCode::A, KeyCode::B, KeyCode::Num2]),
        Some(&vec![key(KeyCode::Num2)])
    );
    assert_eq!(l.combos.len(), 2);
    for k in [KeyCode::A, KeyCode::B, KeyCode::Num1, KeyCode::Num2] {
        assert!(l.combo_keys.contains(k));
    }
    assert!(l.layer_maps.contains_key(&vec![KeyCode::A, KeyCode::B]));
    assert_eq!(l.layer_taps.len(), 0);
    assert_eq!(l.sustained_triggers.len(), 0);
    assert!(l.is_layer_trigger(KeyCode::A) && l.is_layer_trigger(KeyCode::B));
}

#[test]
fn shift_layer_is_predeclared() {
    let l = parse("S\n-shift[\n1|2\n]\n", Dialect::Basic).unwrap();
    let layer = l.layer_maps.get(&vec![KeyCode::ShiftL]).unwrap();
    assert_eq!(layer.get(&KeyCode::Num1), Some(&vec![key(KeyCode::Num1)]));
    assert!(l.sustained_triggers.contains(KeyCode::ShiftL));
}

#[test]
fn tap_rows_and_bottom_alignment() {
    let src = "T\n-option-input[ {space} | -space ]\n[\n1|2|3\nq|w|e\n]\n{space}[\na|b|c\n{space}\n]\n";
    let l = parse(src, Dialect::Basic).unwrap();
    let layer = l.layer_maps.get(&vec![KeyCode::Space]).unwrap();
    assert_eq!(layer.len(), 3);
    assert_eq!(layer.get(&KeyCode::Q), Some(&vec![key(KeyCode::A)]));
    assert_eq!(layer.get(&KeyCode::E), Some(&vec![key(KeyCode::C)]));
    assert!(layer.get(&KeyCode::Num1).is_none());
    assert_eq!(l.layer_taps.get(&KeyCode::Space), Some(&vec![key(KeyCode::Space)]));
}

#[test]
fn tap_row_with_text_cell() {
    let src = "T\n-option-input[ {henkan} | -henkan ]\n{henkan}[\na|b|c|d\n\u{3001}|\n]\n";
    let l = parse(src, Dialect::Basic).unwrap();
    assert_eq!(l.layer_taps.get(&KeyCode::Henkan), Some(&vec![text("\u{3001}")]));
}

#[test]
fn lone_layer_key_keeps_base_output() {
    let src = "T\n[\n1|2\nq|w\n]\n-12[\nx\n]\n";
    let l = parse(src, Dialect::Basic).unwrap();
    assert_eq!(l.layer_taps.get(&KeyCode::E), Some(&vec![key(KeyCode::E)]));
    let src2 = "T\n[\n1|2\nq|w|e\n]\n-12[\nx\n]\n";
    let l2 = parse(src2, Dialect::Basic).unwrap();
    assert_eq!(l2.layer_taps.get(&KeyCode::E), Some(&vec![key(KeyCode::E)]));
    let src3 = "T\n[\n1|2\nq|w|Z\n]\n-12[\nx\n]\n";
    let l3 = parse(src3, Dialect::Basic).unwrap();
    assert_eq!(
        l3.layer_taps.get(&KeyCode::E),
        Some(&vec![OutputToken::Key { code: KeyCode::Z, mods: Modifiers::shift() }])
    );
}

#[test]
fn unknown_layer_names_are_errors() {
    let m = unknown_trigger(parse("X\n{foo}[\n1\n]\n", Dialect::Basic));
    assert_eq!(m, "layer name(s) [\"foo\"]");
    let m2 = unknown_trigger(parse("X\n{foo}{zz}{1e}[\n1\n]\n", Dialect::Extended));
    assert_eq!(m2, "layer name(s) [\"foo\", \"zz\"]");
}

#[test]
fn trigger_resolution_per_dialect() {
    assert_eq!(resolve_trigger(&chars("space"), Dialect::Basic).unwrap(), KeyCode::Space);
    assert_eq!(resolve_trigger(&chars("29"), Dialect::Basic).unwrap(), KeyCode::Muhenkan);
    assert_eq!(resolve_trigger(&chars("39"), Dialect::Extended).unwrap(), KeyCode::Space);
    let e: String = resolve_trigger(&chars("99"), Dialect::Basic).unwrap_err().iter().collect();
    assert_eq!(e, "numeric 99");
    let e2: String = resolve_trigger(&chars("29"), Dialect::Extended).unwrap_err().iter().collect();
    assert_eq!(e2, "29");
    let e3: String = resolve_trigger(&chars("nope"), Dialect::Basic).unwrap_err().iter().collect();
    assert_eq!(e3, "nope");
}

#[test]
fn option_input_errors() {
    let m = unknown_trigger(parse("X\n-option-input[ {k} | -99 ]\n", Dialect::Basic));
    assert_eq!(m, "numeric 99");
    let m2 = unknown_trigger(parse("X\n-option-input[\n{k} | -bogus\n]\n", Dialect::Extended));
    assert_eq!(m2, "bogus");
}

#[test]
fn decimal_virtual_key_triggers() {
    let src = "X\n-option-input[\n{\u{7121}\u{5909}\u{63db}} | -29\n]\n{\u{7121}\u{5909}\u{63db}}[\n1|2\n]\n";
    let l = parse(src, Dialect::Basic).unwrap();
    assert!(l.layer_maps.contains_key(&vec![KeyCode::Muhenkan]));
    assert!(l.sustained_triggers.contains(KeyCode::Muhenkan));
}

#[test]
fn header_sets_mode_in_extended_dialect() {
    assert_eq!(detect_mode(&chars("\u{9806}\u{6b21}")), LayoutMode::Sequential);
    assert_eq!(detect_mode(&chars("\u{540c}\u{6642}\u{6253}\u{9375}")), LayoutMode::Simultaneous);
    assert_eq!(detect_mode(&chars("\u{9806} \u{540c}\u{6642}")), LayoutMode::Mixed);
    assert_eq!(detect_mode(&chars("\u{540c} \u{6642}")), LayoutMode::Legacy);
    let l = parse("\u{9806}\n", Dialect::Extended).unwrap();
    assert_eq!(l.mode, LayoutMode::Sequential);
    let b = parse("\u{9806}\n", Dialect::Basic).unwrap();
    assert_eq!(b.mode, LayoutMode::Legacy);
}

#[test]
fn routes() {
    assert_eq!(determine_route(LayoutMode::Sequential, true, false), BlockRoute::Sustained);
    assert_eq!(determine_route(LayoutMode::Legacy, false, false), BlockRoute::Combo);
    assert_eq!(determine_route(LayoutMode::Simultaneous, false, true), BlockRoute::Combo);
    assert_eq!(determine_route(LayoutMode::Sequential, false, true), BlockRoute::Prefix);
    assert_eq!(determine_route(LayoutMode::Mixed, false, true), BlockRoute::Combo);
    assert_eq!(determine_route(LayoutMode::Mixed, false, false), BlockRoute::Prefix);
}

#[test]
fn sequential_layers_are_prefixes() {
    let src = "\u{9806}\n-option-input[ {space} | -space ]\n{space}[\n1|2\n]\n";
    let l = parse(src, Dialect::Extended).unwrap();
    let layer = l.prefix_maps.get(&vec![KeyCode::Space]).unwrap();
    assert_eq!(layer.get(&KeyCode::Num2), Some(&vec![key(KeyCode::Num2)]));
    assert!(l.prefix_triggers.contains(KeyCode::Space));
    assert_eq!(l.sustained_triggers.len(), 0);
    assert_eq!(l.layer_maps.len(), 0);
}

#[test]
fn mixed_layout_parenthesized_blocks_are_chords() {
    let src = "\u{9806}\u{540c}\u{6642}\n({1e}{30}[\n1\n]\n{1e}[\n2\n]\n";
    let l = parse(src, Dialect::Extended).unwrap();
    assert_eq!(l.mode, LayoutMode::Mixed);
    assert_eq!(
        l.combos.get(&vec![KeyCode::A, KeyCode::B, KeyCode::Num1]),
        Some(&vec![key(KeyCode::Num1)])
    );
    let p = l.prefix_maps.get(&vec![KeyCode::A]).unwrap();
    assert_eq!(p.get(&KeyCode::Num1), Some(&vec![key(KeyCode::Num2)]));
}

#[test]
fn parenthesized_blocks_are_ignored_in_basic_dialect() {
    let src = "X\n({1e}{30}[\n1\n]\n";
    let l = parse(src, Dialect::Basic).unwrap();
    assert_eq!(l.combos.len(), 0);
    assert_eq!(l.layer_triggers.len(), 0);
}

#[test]
fn bracket_named_blocks() {
    let src = "\u{540c}\u{6642}\n[\n1|2|3\n]\n[1e],[30][\n7|8\n]\n";
    let l = parse(src, Dialect::Extended).unwrap();
    assert_eq!(l.mode, LayoutMode::Simultaneous);
    assert_eq!(l.single_map.len(), 3);
    assert_eq!(
        l.combos.get(&vec![KeyCode::A, KeyCode::B, KeyCode::Num2]),
        Some(&vec![key(KeyCode::Num8)])
    );
    let seq_src = "\u{9806}\n[1e],[30][\n7|8\n]\n";
    let s = parse(seq_src, Dialect::Extended).unwrap();
    assert!(s.prefix_maps.contains_key(&vec![KeyCode::A]));
    assert!(s.prefix_maps.contains_key(&vec![KeyCode::B]));
    assert!(!s.prefix_maps.contains_key(&vec![KeyCode::A, KeyCode::B]));
    // In the basic dialect the same line opens a base grid.
    let b = parse(seq_src, Dialect::Basic).unwrap();
    assert_eq!(b.single_map.len(), 1);
    assert!(b.combos.len() == 0 && b.prefix_maps.len() == 0);
}

#[test]
fn basic_dialect_has_no_prefix_layers() {
    let src = "\u{9806}\n-option-input[ {lalt} | -lalt ]\n{lalt}[\n1\n]\n-1e[\n2\n]\n[1e],[30][\n7|8\n]\n";
    let l = parse(src, Dialect::Basic).unwrap();
    assert_eq!(l.mode, LayoutMode::Legacy);
    assert_eq!(l.prefix_maps.len(), 0);
    assert_eq!(l.prefix_triggers.len(), 0);
    for k in l.sustained_triggers.to_vec() {
        assert!(l.is_layer_trigger(k));
    }
}

#[test]
fn held_and_tap_keys_are_layer_keys() {
    let src = "\u{9806}\u{540c}\u{6642}\n-option-input[ {space} | -space ]\n{space}[\n1\n{space}\n]\n-1e[\n2\n]\n({20}{21}[\n3\n]\n";
    let l = parse(src, Dialect::Extended).unwrap();
    for k in l.sustained_triggers.to_vec() {
        assert!(l.is_layer_trigger(k));
    }
    for k in l.prefix_triggers.to_vec() {
        assert!(l.is_layer_trigger(k));
    }
    for i in 0..l.layer_taps.len() {
        let (k, _) = l.layer_taps.entry_at(i);
        assert!(l.is_layer_trigger(*k));
    }
    assert!(l.prefix_triggers.contains(KeyCode::A));
    assert!(l.combo_keys.contains(KeyCode::D));
}

#[test]
fn layouts_remember_their_keyboard() {
    let l = parse("N\n[\n1|2\n]\n", Dialect::Basic).unwrap();
    assert_eq!(l.keyboard, KeyboardLayout::Jis);
    assert_eq!(l.single_map.len(), 2);
}

#[test]
fn layer_keys_are_sorted_and_chords_canonical() {
    // Keys of equal layer rank keep their header order; the content rows reach the layer keys.
    let src = "C\n-30-1e-shift[\nx|y|w\nx|y|w\nx|y|w\n]\n-1e[\nz|z|z\nz|z|z\nz|z|z\n]\n";
    let l = parse(src, Dialect::Basic).unwrap();
    assert!(l.layer_maps.contains_key(&vec![KeyCode::ShiftL, KeyCode::B, KeyCode::A]));
    for i in 0..l.layer_maps.len() {
        let (ks, _) = l.layer_maps.entry_at(i);
        for w in ks.windows(2) {
            assert!(key_sort(w[0]) <= key_sort(w[1]));
        }
        for k in ks {
            assert!(l.is_layer_trigger(*k));
        }
    }
    // The chord of the lone layer key `a` with itself is `a` alone.
    assert_eq!(l.combos.get(&vec![KeyCode::A]), Some(&vec![key(KeyCode::Z)]));
    assert!(l.combos.len() > 0);
    for i in 0..l.combos.len() {
        let (chord, _) = l.combos.entry_at(i);
        for w in chord.windows(2) {
            assert!(ordinal(w[0]) < ordinal(w[1]));
        }
        for k in chord {
            assert!(l.combo_keys.contains(*k));
        }
    }
}

#[test]
fn default_and_cloned_layout() {
    let d = Layout::default();
    assert_eq!(d.id, "");
    assert_eq!(d.mode, LayoutMode::Legacy);
    assert_eq!(d.keyboard, KeyboardLayout::Jis);
    assert_eq!(d.single_map.len(), 0);
    assert_eq!(d.layer_triggers.len(), 0);
    let l = parse("S\n-option-input[ {space} | -space ]\n[\n1|2\n]\n{space}[\nx|y\n]\n", Dialect::Basic).unwrap();
    let c = l.clone();
    assert_eq!(c.name, "S");
    assert_eq!(c.single_map.get(&KeyCode::Num1), Some(&vec![key(KeyCode::Num1)]));
    assert!(c.is_layer_trigger(KeyCode::Space));
    assert!(format!("{:?}", c).contains("Space"));
}

#[test]
fn stored_outputs_are_non_empty_on_physical_keys() {
    let src = "T\n-option-input[ {space} | -space ]\n[\n1||@@@|4\nq|w\n]\n{space}[\na||c\n{space}\n]\n-1e[\nz|z|z\n]\n";
    let l = parse(src, Dialect::Basic).unwrap();
    // Empty and `@@@` cells map nothing.
    assert_eq!(l.single_map.len(), 4);
    assert!(l.single_map.get(&KeyCode::Num2).is_none());
    assert!(l.single_map.get(&KeyCode::Num3).is_none());
    for i in 0..l.single_map.len() {
        assert!(!l.single_map.entry_at(i).1.is_empty());
    }
    for i in 0..l.layer_maps.len() {
        let (ks, m) = l.layer_maps.entry_at(i);
        assert!(!ks.is_empty());
        for j in 0..m.len() {
            assert!(!m.entry_at(j).1.is_empty());
        }
    }
    for i in 0..l.combos.len() {
        assert!(!l.combos.entry_at(i).1.is_empty());
    }
    for i in 0..l.layer_taps.len() {
        assert!(!l.layer_taps.entry_at(i).1.is_empty());
    }
}
