use rmap::config::{AppConfig, AppProfileMap, ProfileDef, ProfileToggles};
use rmap::ipc::send_reload_command;
use rmap::keys::{KeyCode, KeyboardLayout, Modifiers};
use rmap::loader::{decode_source, load_text, DvorakJLayoutLoader as BasicLoader, LayoutLoader, LoadError};
use rmap::dvorakj::DvorakJLayoutLoader;
use rmap::map::AssocMap;
use rmap::output::OutputToken;
use rmap::parse::Dialect;

fn chars(s: &str) -> Vec<char> {
    s.chars().collect()
}

fn key(code: KeyCode) -> OutputToken {
    OutputToken::Key { code, mods: Modifiers::empty() }
}

fn text(s: &str) -> OutputToken {
    OutputToken::Text(s.to_string())
}

#[test]
fn english_files_use_the_us_keyboard() {
    let loader = DvorakJLayoutLoader::new();
    let l = loader.load(b"E\n[\na|;\n]\n", "layouts/x.en.txt").unwrap();
    assert_eq!(l.keyboard, KeyboardLayout::Us);
    assert_eq!(l.single_map.get(&KeyCode::Num1), Some(&vec![key(KeyCode::A)]));
    assert_eq!(l.single_map.get(&KeyCode::Num2), Some(&vec![text(";")]));
    assert_eq!(l.id, "layouts/x.en.txt");
}

#[test]
fn japanese_files_are_shift_jis() {
    let loader = DvorakJLayoutLoader::new();
    let mut bytes = b"J\n[\n".to_vec();
    bytes.extend_from_slice(&[0x82, 0xA0]);
    bytes.extend_from_slice(b"|;\n]\n");
    let l = loader.load(&bytes, "x.jp.txt").unwrap();
    assert_eq!(l.keyboard, KeyboardLayout::Jis);
    assert_eq!(l.single_map.get(&KeyCode::Num1), Some(&vec![text("\u{3042}")]));
    assert_eq!(l.single_map.get(&KeyCode::Num2), Some(&vec![key(KeyCode::Semicolon)]));
}

#[test]
fn other_files_try_utf8_then_shift_jis() {
    let loader = BasicLoader::new();
    let mut utf8 = vec![0xEF, 0xBB, 0xBF];
    utf8.extend_from_slice("U\n[\n\u{3042}\n]\n".as_bytes());
    let l = loader.load(&utf8, "plain.txt").unwrap();
    assert_eq!(l.keyboard, KeyboardLayout::Jis);
    assert_eq!(l.name, "U");
    assert_eq!(l.single_map.get(&KeyCode::Num1), Some(&vec![text("\u{3042}")]));

    let mut sjis = b"S\n[\n".to_vec();
    sjis.extend_from_slice(&[0x82, 0xA2]);
    sjis.extend_from_slice(b"\n]\n");
    let l2 = loader.load(&sjis, "plain.txt").unwrap();
    assert_eq!(l2.single_map.get(&KeyCode::Num1), Some(&vec![text("\u{3044}")]));
}

#[test]
fn decoding_by_file_name() {
    let (kb, t) = decode_source(b"ab", &chars("a.en.txt"));
    assert_eq!(kb, KeyboardLayout::Us);
    assert_eq!(t, chars("ab"));
    let (kb2, t2) = decode_source(&[0x61, 0xFF], &chars("a.en.txt"));
    assert_eq!(kb2, KeyboardLayout::Us);
    assert_eq!(t2, chars("a\u{FFFD}"));
    let (kb3, t3) = decode_source(&[0xEF, 0xBB, 0xBF, 0x61], &chars("a.txt"));
    assert_eq!(kb3, KeyboardLayout::Jis);
    assert_eq!(t3, chars("a"));
}

#[test]
fn comments_are_removed_before_parsing() {
    let src = chars("C /* name */\n[\n/* 1|2 */a|b\n]\n/* {zz}[\n1\n] */");
    let l = load_text(&src, &chars("c"), KeyboardLayout::Jis, Dialect::Basic).unwrap();
    assert_eq!(l.name, "C");
    assert_eq!(l.single_map.get(&KeyCode::Num1), Some(&vec![key(KeyCode::A)]));
    assert_eq!(l.layer_triggers.len(), 0);
}

#[test]
fn loader_errors_carry_the_trigger() {
    let loader = DvorakJLayoutLoader::new();
    match loader.load(b"X\n-option-input[ {k} | -bogus ]\n", "x.txt") {
        Err(LoadError::UnknownTrigger(m)) => assert_eq!(m, "bogus"),
        _ => panic!("expected an unknown trigger"),
    }
    let basic = BasicLoader::new();
    match basic.load(b"X\n-option-input[ {k} | -7 ]\n", "x.txt") {
        Err(e) => assert_eq!(e.message(), "numeric 7"),
        Ok(_) => panic!("expected an unknown trigger"),
    }
}

#[test]
fn format_names() {
    assert_eq!(DvorakJLayoutLoader::new().format_name(), "dvorakj");
    assert_eq!(BasicLoader::default().format_name(), "dvorakj");
}

#[test]
fn fallback_config() {
    let c = AppConfig::fallback();
    assert_eq!(c.default_layout, "data/layouts/samples/toy_simul.txt");
    assert_eq!(c.app_map.default_profile, "default");
    let p = c.default_profile().unwrap();
    assert_eq!(p.id, "default");
    assert_eq!(p.layout_id, "data/layouts/samples/toy_simul.txt");
    assert!(p.toggles.enable_sands);
    assert!(!p.toggles.enable_gestures);
    let colemak = c.profiles.get(&"colemak".to_string()).unwrap();
    assert!(!colemak.toggles.enable_sands);
    assert_eq!(c.layout_path_for_app("anything"), "data/layouts/samples/toy_simul.txt");
}

#[test]
fn layout_paths_per_application() {
    let mut profiles = AssocMap::new();
    profiles.insert(
        "default".to_string(),
        ProfileDef { layout: "a.txt".to_string(), toggles: ProfileToggles::default() },
    );
    profiles.insert(
        "work".to_string(),
        ProfileDef { layout: "w.txt".to_string(), toggles: ProfileToggles::default() },
    );
    let mut per_app = AssocMap::new();
    per_app.insert("editor".to_string(), "work".to_string());
    per_app.insert("game".to_string(), "missing".to_string());
    let c = AppConfig {
        profiles,
        app_map: AppProfileMap { per_app, default_profile: "default".to_string() },
        default_layout: "fallback.txt".to_string(),
    };
    assert_eq!(c.layout_path_for_app("editor"), "w.txt");
    assert_eq!(c.layout_path_for_app("browser"), "a.txt");
    assert_eq!(c.layout_path_for_app("game"), "fallback.txt");
    let mut c2 = c;
    c2.app_map.default_profile = "none".to_string();
    assert!(c2.default_profile().is_none());
    assert_eq!(c2.layout_path_for_app("browser"), "fallback.txt");
}

#[test]
fn maps_replace_and_keep() {
    let mut m: AssocMap<KeyCode, Vec<OutputToken>> = AssocMap::new();
    m.insert(KeyCode::A, vec![text("1")]);
    m.insert(KeyCode::B, vec![text("2")]);
    m.insert(KeyCode::A, vec![text("3")]);
    assert_eq!(m.len(), 2);
    assert_eq!(m.get(&KeyCode::A), Some(&vec![text("3")]));
    m.insert_if_absent(KeyCode::B, vec![text("4")]);
    m.insert_if_absent(KeyCode::C, vec![text("5")]);
    assert_eq!(m.get(&KeyCode::B), Some(&vec![text("2")]));
    assert_eq!(m.get(&KeyCode::C), Some(&vec![text("5")]));
    let (k0, _) = m.entry_at(0);
    assert_eq!(*k0, KeyCode::A);
}

#[test]
fn reload_is_not_wired() {
    match send_reload_command() {
        Err(m) => assert_eq!(m, "IPC pipe not wired in this prototype build (tray Reload and file watch still work)"),
        Ok(_) => panic!("expected an error"),
    }
}

#[test]
fn default_and_cloned_config() {
    let d = AppConfig::default();
    assert_eq!(d.profiles.len(), 0);
    assert_eq!(d.app_map.default_profile, "");
    assert_eq!(d.default_layout, "");
    assert!(d.default_profile().is_none());
    assert_eq!(d.layout_path_for_app("x"), "");
    let c = AppConfig::fallback().clone();
    assert_eq!(c.profiles.len(), 2);
    assert_eq!(c.default_profile().unwrap().layout_id, "data/layouts/samples/toy_simul.txt");
    assert!(format!("{:?}", c).contains("colemak"));
}

#[test]
fn ascii_japanese_files_and_utf8_english_files_decode_plainly() {
    let (kb, t) = decode_source(b"AB|c", &chars("x.jp.txt"));
    assert_eq!(kb, KeyboardLayout::Jis);
    assert_eq!(t, chars("AB|c"));
    let (kb2, t2) = decode_source("a\u{3042}".as_bytes(), &chars("x.en.txt"));
    assert_eq!(kb2, KeyboardLayout::Us);
    assert_eq!(t2, chars("a\u{3042}"));
    let l = DvorakJLayoutLoader::new().load(b"Name\n[\na|b\n]\n", "x.jp.txt").unwrap();
    assert_eq!(l.name, "Name");
    assert_eq!(l.single_map.len(), 2);
}
