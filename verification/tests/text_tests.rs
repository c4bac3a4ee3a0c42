use rmap::block::{
    extract_block, first_cell, is_self_marker, normalize_layer_name, parse_block_layer_names,
    split_tap_row,
};
use rmap::comments::strip_comments;
use rmap::num::{decimal_exec, parse_u32_exec};
use rmap::text::{lines_exec, split_exec, trim_exec};

fn chars(s: &str) -> Vec<char> {
    s.chars().collect()
}

fn string(c: &[char]) -> String {
    c.iter().collect()
}

#[test]
fn trim_removes_unicode_whitespace() {
    let t = chars("\u{3000} ab c\t\u{3000}");
    assert_eq!(string(trim_exec(&t)), "ab c");
    let e = chars(" \t ");
    assert_eq!(trim_exec(&e).len(), 0);
}

#[test]
fn lines_split_on_lf_and_crlf() {
    let t = chars("a\r\nb\n\nc\r");
    let ls: Vec<String> = lines_exec(&t).iter().map(|l| string(l)).collect();
    assert_eq!(ls, vec!["a", "b", "", "c\r"]);
    let t2 = chars("x\n");
    assert_eq!(lines_exec(&t2).len(), 1);
    let empty: Vec<char> = Vec::new();
    assert_eq!(lines_exec(&empty).len(), 0);
}

#[test]
fn split_keeps_empty_pieces() {
    let t = chars("a||b|");
    let parts: Vec<String> = split_exec(&t, '|').iter().map(|p| string(p)).collect();
    assert_eq!(parts, vec!["a", "", "b", ""]);
}

#[test]
fn hex_and_decimal_parsing() {
    assert_eq!(parse_u32_exec(&chars("1e"), 16), Some(0x1e));
    assert_eq!(parse_u32_exec(&chars("+1F"), 16), Some(0x1f));
    assert_eq!(parse_u32_exec(&chars("ffffffff"), 16), Some(u32::MAX));
    assert_eq!(parse_u32_exec(&chars("100000000"), 16), None);
    assert_eq!(parse_u32_exec(&chars("-5"), 10), None);
    assert_eq!(parse_u32_exec(&chars("+"), 10), None);
    assert_eq!(parse_u32_exec(&chars(""), 10), None);
    assert_eq!(parse_u32_exec(&chars("29"), 10), Some(29));
    assert_eq!(parse_u32_exec(&chars("1g"), 16), None);
    assert_eq!(parse_u32_exec(&chars("0000000000000042"), 10), Some(42));
    assert_eq!(string(&decimal_exec(4096)), "4096");
    assert_eq!(string(&decimal_exec(0)), "0");
}

#[test]
fn comments_are_stripped() {
    assert_eq!(string(&strip_comments(&chars("a/*x*/b"))), "ab");
    assert_eq!(string(&strip_comments(&chars("a/*x"))), "a");
    assert_eq!(string(&strip_comments(&chars("/*/b"))), "");
    assert_eq!(string(&strip_comments(&chars("//*x*/*"))), "/*");
    assert_eq!(string(&strip_comments(&chars("a*/b"))), "a*/b");
}

#[test]
fn comment_free_text_is_unchanged() {
    let t = chars("plain | text * / here");
    assert_eq!(strip_comments(&t), t);
}

#[test]
fn layer_names_are_normalized() {
    assert_eq!(string(normalize_layer_name(&chars(" {\u{7121}\u{5909}\u{63db}} "))), "\u{7121}\u{5909}\u{63db}");
    assert_eq!(string(normalize_layer_name(&chars("\u{7121}\u{5909}\u{63db}"))), "\u{7121}\u{5909}\u{63db}");
    assert_eq!(string(normalize_layer_name(&chars("{ a }"))), "a");
    assert_eq!(string(normalize_layer_name(&chars("{"))), "{");
}

#[test]
fn braced_and_bare_names_agree() {
    for name in ["space", " lalt ", "\u{5909}\u{63db}"] {
        let braced = format!("{{{}}}", name);
        assert_eq!(
            normalize_layer_name(&chars(&braced)),
            normalize_layer_name(&chars(name))
        );
    }
}

#[test]
fn block_header_names() {
    let h = chars("{a}{ b }{}[");
    let names: Vec<String> = parse_block_layer_names(&h).iter().map(|n| string(n)).collect();
    assert_eq!(names, vec!["a", "b"]);
    let h2 = chars("-17-18[");
    let names2: Vec<String> = parse_block_layer_names(&h2).iter().map(|n| string(n)).collect();
    assert_eq!(names2, vec!["17", "18"]);
    let h3 = chars("-shift[");
    let names3: Vec<String> = parse_block_layer_names(&h3).iter().map(|n| string(n)).collect();
    assert_eq!(names3, vec!["shift"]);
    let h4 = chars("{a}{b");
    let names4: Vec<String> = parse_block_layer_names(&h4).iter().map(|n| string(n)).collect();
    assert_eq!(names4, vec!["a"]);
}

#[test]
fn single_line_block() {
    let src = vec![chars("-option-input[ space | -space ]")];
    let lines: Vec<&[char]> = src.iter().map(|l| l.as_slice()).collect();
    let (body, end) = extract_block(&lines, 0, false).unwrap();
    let body: Vec<String> = body.iter().map(|b| string(b)).collect();
    assert_eq!(body, vec!["space | -space"]);
    assert_eq!(end, 0);
}

#[test]
fn multi_line_block() {
    let src = vec![
        chars("{a}"),
        chars("[ 1|2"),
        chars(""),
        chars("  3|4  "),
        chars("x ]"),
        chars("after"),
    ];
    let lines: Vec<&[char]> = src.iter().map(|l| l.as_slice()).collect();
    let (body, end) = extract_block(&lines, 0, false).unwrap();
    let body: Vec<String> = body.iter().map(|b| string(b)).collect();
    assert_eq!(body, vec!["1|2", "3|4", "x"]);
    assert_eq!(end, 4);
    assert!(extract_block(&lines, 5, false).is_none());
}

#[test]
fn unclosed_block_runs_to_end() {
    let src = vec![chars("["), chars("1|2|"), chars("3|4")];
    let lines: Vec<&[char]> = src.iter().map(|l| l.as_slice()).collect();
    let (body, end) = extract_block(&lines, 0, false).unwrap();
    assert_eq!(body.len(), 2);
    assert_eq!(end, 3);
}

#[test]
fn block_from_last_bracket() {
    let src = vec![chars("[d],[k][ x|y ]")];
    let lines: Vec<&[char]> = src.iter().map(|l| l.as_slice()).collect();
    let (body, _) = extract_block(&lines, 0, true).unwrap();
    let body: Vec<String> = body.iter().map(|b| string(b)).collect();
    assert_eq!(body, vec!["x|y"]);
    let (body2, _) = extract_block(&lines, 0, false).unwrap();
    let body2: Vec<String> = body2.iter().map(|b| string(b)).collect();
    assert_eq!(body2, vec!["d],[k][ x|y"]);
}

#[test]
fn tap_rows() {
    let rows = vec![chars("a|b|c|d"), chars("{space}")];
    let body: Vec<&[char]> = rows.iter().map(|l| l.as_slice()).collect();
    let (n, tap) = split_tap_row(&body);
    assert_eq!(n, 1);
    assert_eq!(string(tap.unwrap()), "{space}");

    let rows2 = vec![chars("a|b|c|d"), chars(" | x")];
    let body2: Vec<&[char]> = rows2.iter().map(|l| l.as_slice()).collect();
    let (n2, tap2) = split_tap_row(&body2);
    assert_eq!(n2, 1);
    assert_eq!(string(tap2.unwrap()), "x");

    let rows3 = vec![chars("a|b|c|d"), chars("|x|")];
    let body3: Vec<&[char]> = rows3.iter().map(|l| l.as_slice()).collect();
    let (n3, tap3) = split_tap_row(&body3);
    assert_eq!(n3, 2);
    assert!(tap3.is_none());

    let rows4 = vec![chars("x")];
    let body4: Vec<&[char]> = rows4.iter().map(|l| l.as_slice()).collect();
    let (n4, tap4) = split_tap_row(&body4);
    assert_eq!(n4, 1);
    assert!(tap4.is_none());
}

#[test]
fn first_cells_and_markers() {
    assert_eq!(string(first_cell(&chars(" | \u{3001} |")).unwrap()), "\u{3001}");
    assert!(first_cell(&chars(" | ")).is_none());
    let n1 = chars("space");
    let names: Vec<&[char]> = vec![n1.as_slice()];
    assert!(is_self_marker(&chars("{space}"), &names));
    assert!(is_self_marker(&chars("{ space }"), &names));
    assert!(!is_self_marker(&chars("space"), &names));
    assert!(!is_self_marker(&chars("{lalt}"), &names));
}
