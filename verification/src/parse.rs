//! The DvorakJ layout parser: text lines to a [`Layout`].
//!
//! The parser is a loop over lines. `step` says what one block does to the
//! parse state, `run` iterates it, and [`parse_dvorakj`] is proved to compute
//! [`parse_layout`].
use vstd::prelude::*;

use crate::block::{
    block_at, delimited_names, delimited_names_exec, extract_block, is_self_marker, layer_names,
    lemma_block_at, normalize_layer_name, normalize_name, parse_block_layer_names, self_marker,
    split_tap_row, tap_split,
};
use crate::cell::cell_output;
use crate::grid::{grid_entries, grid_map, lemma_grid_map, parse_grid};
use crate::cell::{compile_cell, KanaEncoder};
use crate::keys::{dvorakj_name_key, no_mods, KeyCode, KeyboardLayout, Modifiers};
use crate::keymap::{keycode_from_numeric_vk, keycode_from_scancode, numeric_vk_key, scancode_key};
use crate::layout::{
    canon_chord, canon_sort, law_canon_chord, law_sort_ranked, ranked, sort_keys, sort_ranked,
    strictly_canonical, KeyMap, KeyOrder, Layout, LayoutMode, LayoutView,
};
use crate::loader::{LoadError, LoadFailure};
use crate::map::{map_insert_absent, pairs_map, AssocMap, Duplicate, KeySet, MapKey, Model};
use crate::num::{decimal, decimal_exec, parse_u32, parse_u32_exec};
use crate::output::{string_from_chars, InputMode, OutputSeq, OutputToken, Token};
use crate::text::{
    contains_exec, contains_pair, contains_seq, lines, lines_exec, rfind, rfind_exec, split_once,
    split_once_exec, starts_with, starts_with_exec, to_vec, trim, trim_exec, trim_start_matches,
    trim_start_matches_exec, views,
};

verus! {

/// The two dialects of DvorakJ layout files that are read.
#[derive(Debug, Clone, Copy, PartialEq, Eq, Structural)]
pub enum Dialect {
    /// Layer triggers by key name or decimal virtual-key number; every layer
    /// block is held (declared triggers) or chorded.
    Basic,
    /// Layer triggers by key name or hex scan code; the header line sets the
    /// layout mode, which decides between held, chorded and prefix layers;
    /// `[a],[b][` bracket-named blocks and `(`-marked chord blocks.
    Extended,
}

/// Where the grid of a layer block goes.
#[derive(Debug, Clone, Copy, PartialEq, Eq, Structural)]
pub enum BlockRoute {
    /// A held layer.
    Sustained,
    /// Chords of the layer keys with each content key.
    Combo,
    /// A prefix layer.
    Prefix,
}

/// The state of the parser between blocks.
pub struct ParseState {
    pub layout: LayoutView,
    /// Layer names declared so far, with their keys.
    pub names: Map<Seq<char>, KeyCode>,
    /// Layer names whose layers are held.
    pub sustained: Set<Seq<char>>,
    /// Number of rows of the base grid.
    pub base_rows: nat,
}

pub open spec fn shift_name() -> Seq<char> {
    seq!['s', 'h', 'i', 'f', 't']
}

pub open spec fn option_input_word() -> Seq<char> {
    seq!['-', 'o', 'p', 't', 'i', 'o', 'n', '-', 'i', 'n', 'p', 'u', 't']
}

pub open spec fn numeric_prefix() -> Seq<char> {
    seq!['n', 'u', 'm', 'e', 'r', 'i', 'c', ' ']
}

/// A layout with nothing mapped.
pub open spec fn empty_layout(id: Seq<char>, kb: KeyboardLayout) -> LayoutView {
    LayoutView {
        id,
        name: id,
        mode: LayoutMode::Legacy,
        input_mode: InputMode::Direct,
        single_map: Map::empty(),
        layer_maps: Map::empty(),
        layer_taps: Map::empty(),
        layer_triggers: Set::empty(),
        combos: Map::empty(),
        combo_keys: Set::empty(),
        sustained_triggers: Set::empty(),
        prefix_maps: Map::empty(),
        prefix_triggers: Set::empty(),
        simultaneous: seq![],
        keyboard: kb,
    }
}

/// The state before the first line: `shift` is a declared held layer on the left Shift key.
pub open spec fn initial_state(id: Seq<char>, kb: KeyboardLayout) -> ParseState {
    ParseState {
        layout: empty_layout(id, kb),
        names: Map::empty().insert(shift_name(), KeyCode::ShiftL),
        sustained: Set::empty().insert(shift_name()),
        base_rows: 0,
    }
}

/// Layout mode named by the header line: `順` for sequential, `同時` for simultaneous.
pub open spec fn header_mode(first_line: Seq<char>) -> LayoutMode {
    let sequential = first_line.contains('\u{9806}');
    let simultaneous = contains_seq(first_line, seq!['\u{540C}', '\u{6642}']);
    if sequential && simultaneous {
        LayoutMode::Mixed
    } else if simultaneous {
        LayoutMode::Simultaneous
    } else if sequential {
        LayoutMode::Sequential
    } else {
        LayoutMode::Legacy
    }
}

/// Index of the first line from `i` on that is not blank (the number of lines if none).
pub open spec fn first_text_line(ls: Seq<Seq<char>>, i: int) -> int
    decreases ls.len() - i,
{
    if i < 0 || i >= ls.len() {
        ls.len() as int
    } else if trim(ls[i]).len() > 0 {
        i
    } else {
        first_text_line(ls, i + 1)
    }
}

/// The header: the first non-blank line names the layout (and, in the
/// extended dialect, sets its mode). Gives the next line index and the state.
pub open spec fn read_header(ls: Seq<Seq<char>>, st: ParseState, d: Dialect) -> (int, ParseState) {
    let h = first_text_line(ls, 0);
    if h < ls.len() {
        let t = trim(ls[h]);
        let l = st.layout;
        (h + 1, ParseState {
            layout: LayoutView {
                name: t,
                mode: if d == Dialect::Extended { header_mode(t) } else { l.mode },
                ..l
            },
            ..st
        })
    } else {
        (ls.len() as int, st)
    }
}

/// The key of a trigger in an `-option-input` declaration, or the message of
/// the error that rejects it.
pub open spec fn trigger_key(trig: Seq<char>, d: Dialect) -> Result<KeyCode, Seq<char>> {
    match dvorakj_name_key(trig) {
        Some(k) => Ok(k),
        None => match d {
            Dialect::Extended => match parse_u32(trig, 16) {
                Some(code) => match scancode_key(code) {
                    Some(k) => Ok(k),
                    None => Err(trig),
                },
                None => Err(trig),
            },
            Dialect::Basic => match parse_u32(trig, 10) {
                Some(num) => match numeric_vk_key(num) {
                    Some(k) => Ok(k),
                    None => Err(numeric_prefix() + decimal(num as nat)),
                },
                None => Err(trig),
            },
        },
    }
}

/// Whether names declared by `-option-input` are held layers.
pub open spec fn declares_sustained(mode: LayoutMode, d: Dialect) -> bool {
    d == Dialect::Basic || mode == LayoutMode::Legacy || mode == LayoutMode::Simultaneous
}

/// One `name | -trigger` line of an `-option-input` block.
pub open spec fn option_line(bl: Seq<char>, st: ParseState, d: Dialect) -> Result<ParseState, Seq<char>> {
    match split_once(bl, '|') {
        None => Ok(st),
        Some((l, t)) => {
            let lname = normalize_name(l);
            let trig = trim_start_matches(trim(t), '-');
            match trigger_key(trig, d) {
                Err(m) => Err(m),
                Ok(kc) => Ok(ParseState {
                    names: st.names.insert(lname, kc),
                    sustained: if declares_sustained(st.layout.mode, d) {
                        st.sustained.insert(lname)
                    } else {
                        st.sustained
                    },
                    ..st
                }),
            }
        },
    }
}

/// The lines of an `-option-input` block, in order; the first error stops it.
#[verifier::opaque]
pub open spec fn option_block(body: Seq<Seq<char>>, st: ParseState, d: Dialect) -> Result<ParseState, Seq<char>>
    decreases body.len(),
{
    if body.len() == 0 {
        Ok(st)
    } else {
        match option_block(body.drop_last(), st, d) {
            Err(m) => Err(m),
            Ok(s) => option_line(body.last(), s, d),
        }
    }
}

/// Resolves the layer names of a block header: declared names, then hex scan
/// codes (which become declared). Gives the names, the keys found in order,
/// and the names that could not be resolved.
pub open spec fn resolve_names(ns: Seq<Seq<char>>, names: Map<Seq<char>, KeyCode>) -> (Map<Seq<char>, KeyCode>, Seq<KeyCode>, Seq<Seq<char>>)
    decreases ns.len(),
{
    if ns.len() == 0 {
        (names, seq![], seq![])
    } else {
        let (m, ks, miss) = resolve_names(ns.drop_last(), names);
        let n = ns.last();
        if m.contains_key(n) {
            (m, ks.push(m[n]), miss)
        } else {
            match parse_u32(n, 16) {
                Some(c) => match scancode_key(c) {
                    Some(k) => (m.insert(n, k), ks.push(k), miss),
                    None => (m, ks, miss.push(n)),
                },
                None => (m, ks, miss.push(n)),
            }
        }
    }
}

/// The tap output of layer key `kc`: itself for a `{name}` marker, the
/// compiled tap cell otherwise; without a tap row, a lone layer key keeps its
/// base mapping (or itself).
pub open spec fn tap_output(
    tap: Option<Seq<char>>,
    names: Seq<Seq<char>>,
    kc: KeyCode,
    single: Map<KeyCode, Seq<Token>>,
    kb: KeyboardLayout,
) -> Seq<Token> {
    match tap {
        Some(cell) => if self_marker(cell, names) {
            seq![Token::Key { code: kc, mods: no_mods() }]
        } else {
            cell_output(cell, InputMode::Direct, kb)
        },
        None => if names.len() == 1 {
            if single.contains_key(kc) {
                single[kc]
            } else {
                seq![Token::Key { code: kc, mods: no_mods() }]
            }
        } else {
            seq![]
        },
    }
}

/// Tap outputs of the layer keys entered, keeping earlier ones.
pub open spec fn add_taps(
    taps: Map<KeyCode, Seq<Token>>,
    ks: Seq<KeyCode>,
    tap: Option<Seq<char>>,
    names: Seq<Seq<char>>,
    single: Map<KeyCode, Seq<Token>>,
    kb: KeyboardLayout,
) -> Map<KeyCode, Seq<Token>>
    decreases ks.len(),
{
    if ks.len() == 0 {
        taps
    } else {
        let t = add_taps(taps, ks.drop_last(), tap, names, single, kb);
        let out = tap_output(tap, names, ks.last(), single, kb);
        if out.len() > 0 {
            map_insert_absent(t, ks.last(), out)
        } else {
            t
        }
    }
}

/// Route of a layer block.
pub open spec fn route_of(mode: LayoutMode, sustained: bool, paren: bool) -> BlockRoute {
    if sustained {
        BlockRoute::Sustained
    } else {
        match mode {
            LayoutMode::Legacy | LayoutMode::Simultaneous => BlockRoute::Combo,
            LayoutMode::Sequential => BlockRoute::Prefix,
            LayoutMode::Mixed => if paren {
                BlockRoute::Combo
            } else {
                BlockRoute::Prefix
            },
        }
    }
}

/// Decides where a layer block goes.
pub fn determine_route(mode: LayoutMode, is_sustained: bool, is_paren: bool) -> (r: BlockRoute)
    ensures
        r == route_of(mode, is_sustained, is_paren),
{
    if is_sustained {
        return BlockRoute::Sustained;
    }
    match mode {
        LayoutMode::Legacy | LayoutMode::Simultaneous => BlockRoute::Combo,
        LayoutMode::Sequential => BlockRoute::Prefix,
        LayoutMode::Mixed => {
            if is_paren {
                BlockRoute::Combo
            } else {
                BlockRoute::Prefix
            }
        },
    }
}

/// Chords of the layer keys with each grid entry's key, keeping earlier chords.
pub open spec fn add_combos(
    combos: Map<Seq<KeyCode>, Seq<Token>>,
    ks: Seq<KeyCode>,
    grid: Seq<(KeyCode, Seq<Token>)>,
) -> Map<Seq<KeyCode>, Seq<Token>>
    decreases grid.len(),
{
    if grid.len() == 0 {
        combos
    } else {
        map_insert_absent(add_combos(combos, ks, grid.drop_last()), canon_chord(ks.push(grid.last().0)), grid.last().1)
    }
}

/// Keys of the first `n` grid entries.
pub open spec fn grid_keys(grid: Seq<(KeyCode, Seq<Token>)>, n: int) -> Set<KeyCode> {
    Set::new(|k: KeyCode| exists|j: int| 0 <= j < n && j < grid.len() && #[trigger] grid[j].0 == k)
}

/// A prefix layer for each layer key alone, keeping existing ones.
pub open spec fn add_prefix_each(
    pm: Map<Seq<KeyCode>, Map<KeyCode, Seq<Token>>>,
    ks: Seq<KeyCode>,
    g: Map<KeyCode, Seq<Token>>,
) -> Map<Seq<KeyCode>, Map<KeyCode, Seq<Token>>>
    decreases ks.len(),
{
    if ks.len() == 0 {
        pm
    } else {
        map_insert_absent(add_prefix_each(pm, ks.drop_last(), g), seq![ks.last()], g)
    }
}

/// The grid of a layer block entered along its route.
pub open spec fn apply_route(
    l: LayoutView,
    route: BlockRoute,
    ks: Seq<KeyCode>,
    grid: Seq<(KeyCode, Seq<Token>)>,
    per_key: bool,
) -> LayoutView {
    let gm = pairs_map(grid);
    match route {
        BlockRoute::Sustained => LayoutView {
            layer_maps: l.layer_maps.insert(ks, gm),
            sustained_triggers: l.sustained_triggers.union(ks.to_set()),
            ..l
        },
        BlockRoute::Combo => LayoutView {
            combos: add_combos(l.combos, ks, grid),
            combo_keys: l.combo_keys.union(grid_keys(grid, grid.len() as int)).union(ks.to_set()),
            layer_maps: l.layer_maps.insert(ks, gm),
            ..l
        },
        BlockRoute::Prefix => if per_key {
            LayoutView {
                prefix_maps: add_prefix_each(l.prefix_maps, ks, gm),
                prefix_triggers: l.prefix_triggers.union(ks.to_set()),
                ..l
            }
        } else {
            LayoutView {
                prefix_maps: l.prefix_maps.insert(ks, gm),
                prefix_triggers: l.prefix_triggers.union(ks.to_set()),
                ..l
            }
        },
    }
}

/// Whether every name is a held layer.
pub open spec fn all_sustained(names: Seq<Seq<char>>, sustained: Set<Seq<char>>) -> bool {
    forall|i: int| 0 <= i < names.len() ==> sustained.contains(#[trigger] names[i])
}

/// The `Debug` form of a list of names (as a list of strings).
pub uninterp spec fn names_debug(names: Seq<Seq<char>>) -> Seq<char>;

/// `format!("{:?}", names)` over the names as strings: the result is named by
/// [`names_debug`], a function of the names alone.
#[verifier::external_body]
fn names_debug_text(names: &[&[char]]) -> (r: Vec<char>)
    ensures
        r@ == names_debug(views(names@)),
{
    let v: Vec<String> = names.iter().map(|n| n.iter().collect::<String>()).collect();
    format!("{:?}", v).chars().collect()
}

pub open spec fn missing_names_prefix() -> Seq<char> {
    seq!['l', 'a', 'y', 'e', 'r', ' ', 'n', 'a', 'm', 'e', '(', 's', ')', ' ']
}

/// Message for layer names that are neither declared nor scan codes:
/// `layer name(s) ` followed by the `Debug` form of the names.
pub open spec fn missing_names_message(names: Seq<Seq<char>>) -> Seq<char> {
    missing_names_prefix() + names_debug(names)
}

fn missing_names_text(names: &[&[char]]) -> (r: Vec<char>)
    ensures
        r@ == missing_names_message(views(names@)),
{
    let mut m: Vec<char> = to_vec(&['l', 'a', 'y', 'e', 'r', ' ', 'n', 'a', 'm', 'e', '(', 's', ')', ' ']);
    let mut d = names_debug_text(names);
    m.append(&mut d);
    assert(m@ =~= missing_names_prefix() + names_debug(views(names@)));
    m
}

/// A layer block with header names `names` and body `body`. Its grid is
/// bottom-aligned to the base grid's rows; a trailing tap row gives the tap
/// outputs of its layer keys.
#[verifier::opaque]
pub open spec fn layer_block(
    st: ParseState,
    body: Seq<Seq<char>>,
    names: Seq<Seq<char>>,
    kb: KeyboardLayout,
    paren: bool,
    per_key: bool,
) -> Result<ParseState, Seq<char>> {
    let (m, ks0, miss) = resolve_names(names, st.names);
    if miss.len() > 0 {
        Err(missing_names_message(miss))
    } else {
        let ks = sort_ranked(ks0, KeyOrder::Layer);
        let (n, tap) = tap_split(body);
        let total = if st.base_rows > n { st.base_rows } else { n };
        let grid = grid_entries(body.take(n as int), InputMode::Direct, (total - n) as nat, kb);
        let taps = add_taps(st.layout.layer_taps, ks, tap, names, st.layout.single_map, kb);
        let route = route_of(st.layout.mode, all_sustained(names, st.sustained), paren);
        let l2 = apply_route(LayoutView { layer_taps: taps, ..st.layout }, route, ks, grid, per_key);
        Ok(ParseState {
            layout: LayoutView { layer_triggers: l2.layer_triggers.union(ks.to_set()), ..l2 },
            names: m,
            ..st
        })
    }
}

/// Whether a line is a `[a],[b][` bracket-named block header: some `]` comes
/// before its last `[`.
pub open spec fn bracket_named(line: Seq<char>) -> bool {
    match rfind(line, '[') {
        Some(lo) => lo > 0 && line.take(lo).contains(']'),
        None => false,
    }
}

/// The names of a bracket-named block header.
pub open spec fn bracket_names(line: Seq<char>) -> Seq<Seq<char>> {
    match rfind(line, '[') {
        Some(lo) => delimited_names(line.take(lo), '[', ']'),
        None => seq![],
    }
}

/// Whether a (paren-stripped) line starts a layer block.
pub open spec fn layer_header(eff: Seq<char>) -> bool {
    eff.len() > 0 && (eff[0] == '{' || (eff[0] == '-' && !starts_with(eff, option_input_word())))
}

/// One step of the parser at line `i`: the next line index and state, or an
/// error message.
#[verifier::opaque]
pub open spec fn step(ls: Seq<Seq<char>>, i: int, st: ParseState, kb: KeyboardLayout, d: Dialect) -> Result<(int, ParseState), Seq<char>> {
    let line = trim(ls[i]);
    if line.len() == 0 {
        Ok((i + 1, st))
    } else if starts_with(line, option_input_word()) && block_at(ls, i, false) is Some {
        let (body, end) = block_at(ls, i, false)->0;
        match option_block(body, st, d) {
            Ok(s) => Ok((end + 1, s)),
            Err(m) => Err(m),
        }
    } else if d == Dialect::Extended && line[0] == '[' && bracket_named(line) && block_at(ls, i, true) is Some
        && bracket_names(line).len() > 0 {
        let (body, end) = block_at(ls, i, true)->0;
        match layer_block(st, body, bracket_names(line), kb, false, true) {
            Ok(s) => Ok((end + 1, s)),
            Err(m) => Err(m),
        }
    } else if line[0] == '[' && block_at(ls, i, false) is Some {
        let (body, end) = block_at(ls, i, false)->0;
        Ok((end + 1, ParseState {
            layout: LayoutView { single_map: pairs_map(grid_entries(body, InputMode::Direct, 0, kb)), ..st.layout },
            base_rows: body.len(),
            ..st
        }))
    } else {
        let paren = d == Dialect::Extended && line[0] == '(';
        let eff = if paren { trim_start_matches(line, '(') } else { line };
        if layer_header(eff) && block_at(ls, i, false) is Some {
            let (body, end) = block_at(ls, i, false)->0;
            let ns = layer_names(eff);
            if ns.len() == 0 {
                Ok((i + 1, st))
            } else {
                match layer_block(st, body, ns, kb, paren, false) {
                    Ok(s) => Ok((end + 1, s)),
                    Err(m) => Err(m),
                }
            }
        } else {
            Ok((i + 1, st))
        }
    }
}

/// The parser from line `i` on.
pub open spec fn run(ls: Seq<Seq<char>>, i: int, st: ParseState, kb: KeyboardLayout, d: Dialect) -> Result<ParseState, Seq<char>>
    decreases ls.len() + 1 - i,
{
    if i < 0 || i >= ls.len() {
        Ok(st)
    } else {
        match step(ls, i, st, kb, d) {
            Err(m) => Err(m),
            Ok((j, s)) => if i < j <= ls.len() + 1 {
                run(ls, j, s, kb, d)
            } else {
                Ok(s)
            },
        }
    }
}

/// The layout a DvorakJ text describes, or the message of the unknown trigger
/// that rejects it.
pub open spec fn parse_layout(text: Seq<char>, id: Seq<char>, kb: KeyboardLayout, d: Dialect) -> Result<LayoutView, Seq<char>> {
    let ls = lines(text);
    let (i, st) = read_header(ls, initial_state(id, kb), d);
    match run(ls, i, st, kb, d) {
        Ok(s) => Ok(s.layout),
        Err(m) => Err(m),
    }
}


/// The parse state of [`parse_dvorakj`].
struct Parser {
    layout: Layout,
    names: AssocMap<Vec<char>, KeyCode>,
    sustained: AssocMap<Vec<char>, ()>,
    base_rows: usize,
}

impl Parser {
    closed spec fn state(&self) -> ParseState {
        ParseState {
            layout: self.layout.model(),
            names: self.names.model(),
            sustained: self.sustained.model().dom(),
            base_rows: self.base_rows as nat,
        }
    }
}

/// Resolves an `-option-input` trigger to its key.
pub fn resolve_trigger(trig: &[char], d: Dialect) -> (r: Result<KeyCode, Vec<char>>)
    ensures
        match r {
            Ok(k) => trigger_key(trig@, d) == Ok::<KeyCode, Seq<char>>(k),
            Err(m) => trigger_key(trig@, d) == Err::<KeyCode, Seq<char>>(m@),
        },
{
    if let Some(kc) = KeyCode::from_dvorakj_name(trig) {
        return Ok(kc);
    }
    match d {
        Dialect::Extended => {
            if let Some(code) = parse_u32_exec(trig, 16) {
                if let Some(kc) = keycode_from_scancode(code) {
                    return Ok(kc);
                }
            }
            Err(to_vec(trig))
        },
        Dialect::Basic => {
            match parse_u32_exec(trig, 10) {
                Some(num) => match keycode_from_numeric_vk(num) {
                    Some(kc) => Ok(kc),
                    None => {
                        let mut m: Vec<char> = to_vec(&['n', 'u', 'm', 'e', 'r', 'i', 'c', ' ']);
                        let mut digits = decimal_exec(num);
                        m.append(&mut digits);
                        assert(m@ =~= numeric_prefix() + decimal(num as nat));
                        Err(m)
                    },
                },
                None => Err(to_vec(trig)),
            }
        },
    }
}

fn option_line_exec(p: &mut Parser, bl: &[char], d: Dialect) -> (r: Result<(), Vec<char>>)
    ensures
        final(p).layout.keyboard == old(p).layout.keyboard,
        match r {
            Ok(_) => option_line(bl@, old(p).state(), d) == Ok::<ParseState, Seq<char>>(final(p).state()),
            Err(m) => option_line(bl@, old(p).state(), d) == Err::<ParseState, Seq<char>>(m@),
        },
{
    match split_once_exec(bl, '|') {
        None => Ok(()),
        Some((l, t)) => {
            let lname = normalize_layer_name(l);
            let trig = trim_start_matches_exec(trim_exec(t), '-');
            match resolve_trigger(trig, d) {
                Err(m) => Err(m),
                Ok(kc) => {
                    p.names.insert(to_vec(lname), kc);
                    let mode = p.layout.mode;
                    if d == Dialect::Basic || mode == LayoutMode::Legacy || mode == LayoutMode::Simultaneous {
                        p.sustained.insert(to_vec(lname), ());
                    }
                    assert(p.state().sustained =~= (if declares_sustained(old(p).state().layout.mode, d) {
                        old(p).state().sustained.insert(lname@)
                    } else {
                        old(p).state().sustained
                    }));
                    Ok(())
                },
            }
        },
    }
}

fn option_block_exec(p: &mut Parser, body: &[&[char]], d: Dialect) -> (r: Result<(), Vec<char>>)
    ensures
        final(p).layout.keyboard == old(p).layout.keyboard,
        match r {
            Ok(_) => option_block(views(body@), old(p).state(), d) == Ok::<ParseState, Seq<char>>(final(p).state()),
            Err(m) => option_block(views(body@), old(p).state(), d) == Err::<ParseState, Seq<char>>(m@),
        },
{
    reveal(option_block);
    let ghost b = views(body@);
    let ghost st0 = p.state();
    let mut i: usize = 0;
    assert(b.take(0) =~= Seq::<Seq<char>>::empty());
    while i < body.len()
        invariant
            i <= body@.len(),
            b == views(body@),
            st0 == old(p).state(),
            p.layout.keyboard == old(p).layout.keyboard,
            option_block(b.take(i as int), st0, d) == Ok::<ParseState, Seq<char>>(p.state()),
        decreases body.len() - i,
    {
        proof {
            reveal(option_block);
        }
        let ghost t = b.take(i + 1);
        assert(t.drop_last() =~= b.take(i as int));
        assert(t.last() == body@[i as int]@);
        let ghost pre = p.state();
        match option_line_exec(p, body[i], d) {
            Ok(_) => {},
            Err(m) => {
                assert(option_block(t, st0, d) == Err::<ParseState, Seq<char>>(m@));
                proof {
                    lemma_option_block_err(b, st0, d, i + 1);
                }
                return Err(m);
            },
        }
        i = i + 1;
    }
    assert(b.take(body.len() as int) =~= b);
    Ok(())
}

/// A `name | -trigger` line with a known trigger declares the name on the
/// trigger's key and changes nothing else but which names are held: in the
/// basic dialect, and in Legacy or Simultaneous layouts of the extended one,
/// the declared name becomes a held (SandS) layer; in Sequential or Mixed
/// layouts of the extended dialect it does not.
pub proof fn law_option_line(bl: Seq<char>, st: ParseState, d: Dialect, l: Seq<char>, t: Seq<char>, k: KeyCode)
    requires
        split_once(bl, '|') == Some((l, t)),
        trigger_key(trim_start_matches(trim(t), '-'), d) == Ok::<KeyCode, Seq<char>>(k),
    ensures
        option_line(bl, st, d) is Ok,
        option_line(bl, st, d)->Ok_0.names == st.names.insert(normalize_name(l), k),
        option_line(bl, st, d)->Ok_0.layout == st.layout,
        option_line(bl, st, d)->Ok_0.base_rows == st.base_rows,
        (d == Dialect::Basic || st.layout.mode == LayoutMode::Legacy || st.layout.mode == LayoutMode::Simultaneous)
            ==> option_line(bl, st, d)->Ok_0.sustained == st.sustained.insert(normalize_name(l)),
        (d == Dialect::Extended && (st.layout.mode == LayoutMode::Sequential || st.layout.mode == LayoutMode::Mixed))
            ==> option_line(bl, st, d)->Ok_0.sustained == st.sustained,
{
}

proof fn lemma_resolve_declared(ns: Seq<Seq<char>>, names: Map<Seq<char>, KeyCode>)
    requires
        forall|i: int| 0 <= i < ns.len() ==> names.contains_key(#[trigger] ns[i]),
    ensures
        resolve_names(ns, names).0 == names,
        resolve_names(ns, names).1 == Seq::new(ns.len(), |i: int| names[ns[i]]),
        resolve_names(ns, names).2.len() == 0,
    decreases ns.len(),
{
    if ns.len() > 0 {
        let t = ns.drop_last();
        assert forall|i: int| 0 <= i < t.len() implies names.contains_key(#[trigger] t[i]) by {
            assert(t[i] == ns[i]);
        }
        lemma_resolve_declared(t, names);
        assert(names.contains_key(ns[ns.len() - 1]));
        assert(Seq::new(t.len(), |i: int| names[t[i]]).push(names[ns.last()]) =~= Seq::new(
            ns.len(),
            |i: int| names[ns[i]],
        ));
    }
}

/// A layer block whose names are all declared held layers becomes a held
/// layer: its grid is stored under a key list made of exactly the names'
/// keys, those keys become held keys and layer keys, and no chord, chord key
/// or prefix layer is added.
pub proof fn law_held_block(
    st: ParseState,
    body: Seq<Seq<char>>,
    names: Seq<Seq<char>>,
    kb: KeyboardLayout,
    paren: bool,
    per_key: bool,
)
    requires
        forall|i: int| 0 <= i < names.len() ==> st.names.contains_key(#[trigger] names[i]) && st.sustained.contains(
            names[i],
        ),
    ensures
        layer_block(st, body, names, kb, paren, per_key) is Ok,
        ({
            let s = layer_block(st, body, names, kb, paren, per_key)->Ok_0;
            &&& s.names == st.names
            &&& s.layout.combos == st.layout.combos
            &&& s.layout.combo_keys == st.layout.combo_keys
            &&& s.layout.prefix_maps == st.layout.prefix_maps
            &&& s.layout.prefix_triggers == st.layout.prefix_triggers
            &&& forall|i: int| 0 <= i < names.len() ==> s.layout.sustained_triggers.contains(st.names[#[trigger] names[i]])
                && s.layout.layer_triggers.contains(st.names[names[i]])
            &&& exists|k: Seq<KeyCode>| #[trigger] s.layout.layer_maps.contains_key(k) && k.to_set() == Set::new(
                |x: KeyCode| exists|i: int| 0 <= i < names.len() && st.names[#[trigger] names[i]] == x,
            )
        }),
{
    reveal(layer_block);
    lemma_resolve_declared(names, st.names);
    let ks0 = Seq::new(names.len(), |i: int| st.names[names[i]]);
    let ks = sort_ranked(ks0, KeyOrder::Layer);
    law_sort_ranked(ks0, KeyOrder::Layer);
    assert(all_sustained(names, st.sustained));
    let s = layer_block(st, body, names, kb, paren, per_key)->Ok_0;
    let target = Set::new(|x: KeyCode| exists|i: int| 0 <= i < names.len() && st.names[#[trigger] names[i]] == x);
    assert forall|x: KeyCode| ks.to_set().contains(x) <==> target.contains(x) by {
        if ks0.to_set().contains(x) {
            let i = choose|i: int| 0 <= i < ks0.len() && ks0[i] == x;
            assert(st.names[names[i]] == x);
        }
        if target.contains(x) {
            let i = choose|i: int| 0 <= i < names.len() && st.names[#[trigger] names[i]] == x;
            assert(ks0[i] == x);
            assert(ks0.to_set().contains(x));
        }
    }
    assert(ks.to_set() =~= target);
    assert(s.layout.layer_maps.contains_key(ks));
    assert forall|i: int| 0 <= i < names.len() implies s.layout.sustained_triggers.contains(st.names[#[trigger] names[i]])
        && s.layout.layer_triggers.contains(st.names[names[i]]) by {
        assert(ks0[i] == st.names[names[i]]);
        assert(ks0.to_set().contains(ks0[i]));
    }
}

proof fn lemma_option_block_err(b: Seq<Seq<char>>, st: ParseState, d: Dialect, k: int)
    requires
        0 <= k <= b.len(),
        option_block(b.take(k), st, d) is Err,
    ensures
        option_block(b, st, d) == option_block(b.take(k), st, d),
    decreases b.len() - k,
{
    reveal(option_block);
    if k == b.len() {
        assert(b.take(k) =~= b);
    } else {
        assert(b.take(k + 1).drop_last() =~= b.take(k));
        lemma_option_block_err(b, st, d, k + 1);
    }
}

/// Resolves block-header names to keys; unresolved names are returned.
fn resolve_names_exec<'a>(p: &mut Parser, ns: &[&'a [char]]) -> (r: (Vec<KeyCode>, Vec<&'a [char]>))
    ensures
        resolve_names(views(ns@), old(p).state().names) == (final(p).state().names, r.0@, views(r.1@)),
        final(p).state() == (ParseState { names: final(p).state().names, ..old(p).state() }),
{
    let ghost b = views(ns@);
    let ghost m0 = p.state().names;
    let mut ks: Vec<KeyCode> = Vec::new();
    let mut missing: Vec<&'a [char]> = Vec::new();
    let mut i: usize = 0;
    assert(b.take(0) =~= Seq::<Seq<char>>::empty());
    assert(views(missing@) =~= Seq::<Seq<char>>::empty());
    while i < ns.len()
        invariant
            i <= ns@.len(),
            b == views(ns@),
            resolve_names(b.take(i as int), m0) == (p.state().names, ks@, views(missing@)),
            p.state() == (ParseState { names: p.state().names, ..old(p).state() }),
        decreases ns.len() - i,
    {
        let n = ns[i];
        let ghost t = b.take(i + 1);
        assert(t.drop_last() =~= b.take(i as int));
        assert(t.last() == n@);
        let key = to_vec(n);
        let ghost before = views(missing@);
        match p.names.get(&key) {
            Some(kc) => {
                ks.push(*kc);
            },
            None => {
                let mut found = false;
                if let Some(code) = parse_u32_exec(n, 16) {
                    if let Some(kc) = keycode_from_scancode(code) {
                        p.names.insert(key, kc);
                        ks.push(kc);
                        found = true;
                    }
                }
                if !found {
                    missing.push(n);
                    assert(views(missing@) =~= before.push(n@));
                }
            },
        }
        i = i + 1;
    }
    assert(b.take(ns.len() as int) =~= b);
    (ks, missing)
}


/// The view of an optional slice.
pub open spec fn opt_view(o: Option<&[char]>) -> Option<Seq<char>> {
    match o {
        Some(c) => Some(c@),
        None => None,
    }
}

fn key_token_seq(kc: KeyCode) -> (r: OutputSeq)
    ensures
        r.model() == seq![Token::Key { code: kc, mods: no_mods() }],
{
    let mut v: Vec<OutputToken> = Vec::new();
    v.push(OutputToken::Key { code: kc, mods: Modifiers::empty() });
    assert(v.model() =~= seq![Token::Key { code: kc, mods: no_mods() }]);
    v
}

fn add_taps_exec(
    taps: &mut KeyMap,
    ks: &Vec<KeyCode>,
    tap: Option<&[char]>,
    names: &[&[char]],
    single: &KeyMap,
    encoder: &KanaEncoder,
    kb: KeyboardLayout,
)
    ensures
        final(taps).model() == add_taps(old(taps).model(), ks@, opt_view(tap), views(names@), single.model(), kb),
{
    let ghost t0 = taps.model();
    let mut i: usize = 0;
    assert(ks@.take(0) =~= Seq::<KeyCode>::empty());
    while i < ks.len()
        invariant
            i <= ks@.len(),
            t0 == old(taps).model(),
            taps.model() == add_taps(t0, ks@.take(i as int), opt_view(tap), views(names@), single.model(), kb),
        decreases ks.len() - i,
    {
        let kc = ks[i];
        let out: OutputSeq = match tap {
            Some(cell) => {
                if is_self_marker(cell, names) {
                    key_token_seq(kc)
                } else {
                    compile_cell(cell, InputMode::Direct, encoder, kb)
                }
            },
            None => {
                if names.len() == 1 {
                    match single.get(&kc) {
                        Some(v) => v.duplicate(),
                        None => key_token_seq(kc),
                    }
                } else {
                    let v: Vec<OutputToken> = Vec::new();
                    assert(v.model() =~= Seq::<Token>::empty());
                    v
                }
            },
        };
        assert(out.model() == tap_output(opt_view(tap), views(names@), kc, single.model(), kb));
        let ghost pre = ks@.take(i + 1);
        assert(pre.drop_last() =~= ks@.take(i as int));
        if out.len() > 0 {
            taps.insert_if_absent(kc, out);
        }
        i = i + 1;
    }
    assert(ks@.take(ks.len() as int) =~= ks@);
}

/// Adds every key of `ks` to `set`.
fn add_keys(set: &mut KeySet, ks: &Vec<KeyCode>)
    ensures
        final(set).model() == old(set).model().union(ks@.to_set()),
{
    let mut i: usize = 0;
    assert(old(set).model().union(ks@.take(0).to_set()) =~= old(set).model());
    while i < ks.len()
        invariant
            i <= ks@.len(),
            set.model() == old(set).model().union(ks@.take(i as int).to_set()),
        decreases ks.len() - i,
    {
        set.insert(ks[i]);
        proof {
            let pre = ks@.take(i + 1);
            assert(pre =~= ks@.take(i as int).push(ks@[i as int]));
            ks@.take(i as int).lemma_push_to_set_commute(ks@[i as int]);
        }
        i = i + 1;
        assert(set.model() =~= old(set).model().union(ks@.take(i as int).to_set()));
    }
    assert(ks@.take(ks.len() as int) =~= ks@);
}

fn add_combos_exec(l: &mut Layout, ks: &Vec<KeyCode>, grid: &KeyMap)
    ensures
        final(l).model() == (LayoutView {
            combos: add_combos(old(l).model().combos, ks@, grid.pairs()),
            combo_keys: old(l).model().combo_keys.union(grid_keys(grid.pairs(), grid.pairs().len() as int)),
            ..old(l).model()
        }),
{
    let ghost g = grid.pairs();
    let mut i: usize = 0;
    assert(g.take(0) =~= Seq::<(KeyCode, Seq<Token>)>::empty());
    assert(old(l).model().combo_keys.union(grid_keys(g, 0)) =~= old(l).model().combo_keys);
    while i < grid.len()
        invariant
            i <= g.len(),
            g == grid.pairs(),
            l.model() == (LayoutView {
                combos: add_combos(old(l).model().combos, ks@, g.take(i as int)),
                combo_keys: old(l).model().combo_keys.union(grid_keys(g, i as int)),
                ..old(l).model()
            }),
        decreases g.len() - i,
    {
        let (content, out) = grid.entry_at(i);
        let mut chord = ks.key_copy();
        chord.push(*content);
        canon_sort(&mut chord);
        let ghost pre = g.take(i + 1);
        assert(pre.drop_last() =~= g.take(i as int));
        assert(pre.last() == g[i as int]);
        l.combos.insert_if_absent(chord, out.duplicate());
        l.combo_keys.insert(*content);
        i = i + 1;
        assert(old(l).model().combo_keys.union(grid_keys(g, i as int)) =~= old(l).model().combo_keys.union(
            grid_keys(g, i - 1),
        ).insert(g[i - 1].0));
    }
    assert(g.take(g.len() as int) =~= g);
}

fn add_prefix_each_exec(l: &mut Layout, ks: &Vec<KeyCode>, grid: &KeyMap)
    ensures
        final(l).model() == (LayoutView {
            prefix_maps: add_prefix_each(old(l).model().prefix_maps, ks@, grid.model()),
            ..old(l).model()
        }),
{
    let mut i: usize = 0;
    assert(ks@.take(0) =~= Seq::<KeyCode>::empty());
    while i < ks.len()
        invariant
            i <= ks@.len(),
            l.model() == (LayoutView {
                prefix_maps: add_prefix_each(old(l).model().prefix_maps, ks@.take(i as int), grid.model()),
                ..old(l).model()
            }),
        decreases ks.len() - i,
    {
        let mut single_key: Vec<KeyCode> = Vec::new();
        single_key.push(ks[i]);
        assert(single_key@ =~= seq![ks@[i as int]]);
        let ghost pre = ks@.take(i + 1);
        assert(pre.drop_last() =~= ks@.take(i as int));
        l.prefix_maps.insert_if_absent(single_key, grid.duplicate());
        i = i + 1;
    }
    assert(ks@.take(ks.len() as int) =~= ks@);
}

fn apply_route_exec(l: &mut Layout, route: BlockRoute, ks: &Vec<KeyCode>, grid: KeyMap, per_key: bool)
    ensures
        final(l).model() == apply_route(old(l).model(), route, ks@, grid.pairs(), per_key),
{
    let ghost g = grid.pairs();
    match route {
        BlockRoute::Sustained => {
            l.layer_maps.insert(ks.key_copy(), grid);
            add_keys(&mut l.sustained_triggers, ks);
        },
        BlockRoute::Combo => {
            add_combos_exec(l, ks, &grid);
            add_keys(&mut l.combo_keys, ks);
            l.layer_maps.insert(ks.key_copy(), grid);
        },
        BlockRoute::Prefix => {
            if per_key {
                add_prefix_each_exec(l, ks, &grid);
            } else {
                l.prefix_maps.insert(ks.key_copy(), grid);
            }
            add_keys(&mut l.prefix_triggers, ks);
        },
    }
    assert(final(l).model() =~= apply_route(old(l).model(), route, ks@, g, per_key));
}


fn layer_block_exec(
    p: &mut Parser,
    body: &[&[char]],
    names: &[&[char]],
    encoder: &KanaEncoder,
    kb: KeyboardLayout,
    paren: bool,
    per_key: bool,
) -> (r: Result<(), Vec<char>>)
    requires
        old(p).layout.keyboard == kb,
    ensures
        final(p).layout.keyboard == kb,
        match r {
            Ok(_) => layer_block(old(p).state(), views(body@), views(names@), kb, paren, per_key)
                == Ok::<ParseState, Seq<char>>(final(p).state()),
            Err(m) => layer_block(old(p).state(), views(body@), views(names@), kb, paren, per_key)
                == Err::<ParseState, Seq<char>>(m@),
        },
{
    reveal(layer_block);
    let ghost st = p.state();
    let (ks0, missing) = resolve_names_exec(p, names);
    if missing.len() > 0 {
        return Err(missing_names_text(missing.as_slice()));
    }
    let ks = sort_keys(&ks0, KeyOrder::Layer);
    let (n, tap) = split_tap_row(body);
    let total = if p.base_rows > n {
        p.base_rows
    } else {
        n
    };
    let grid_body = &body[0..n];
    assert(views(grid_body@) =~= views(body@).take(n as int));
    let grid = parse_grid(grid_body, encoder, InputMode::Direct, total - n, kb);
    add_taps_exec(&mut p.layout.layer_taps, &ks, tap, names, &p.layout.single_map, encoder, kb);
    let mut sustained = true;
    let mut i: usize = 0;
    while i < names.len()
        invariant
            i <= names@.len(),
            sustained == (forall|j: int| 0 <= j < i ==> st.sustained.contains(#[trigger] views(names@)[j])),
            p.sustained.model().dom() == st.sustained,
        decreases names.len() - i,
    {
        let key = to_vec(names[i]);
        assert(views(names@)[i as int] == key@);
        if !p.sustained.contains_key(&key) {
            sustained = false;
        }
        i = i + 1;
    }
    let route = determine_route(p.layout.mode, sustained, paren);
    apply_route_exec(&mut p.layout, route, &ks, grid, per_key);
    add_keys(&mut p.layout.layer_triggers, &ks);
    Ok(())
}

fn read_header_exec(p: &mut Parser, ls: &[&[char]], d: Dialect) -> (i: usize)
    ensures
        read_header(views(ls@), old(p).state(), d) == (i as int, final(p).state()),
        final(p).layout.keyboard == old(p).layout.keyboard,
        i <= ls@.len(),
{
    let ghost l = views(ls@);
    let mut i: usize = 0;
    while i < ls.len()
        invariant
            i <= ls@.len(),
            l == views(ls@),
            first_text_line(l, i as int) == first_text_line(l, 0),
        ensures
            i <= ls@.len(),
            first_text_line(l, i as int) == first_text_line(l, 0),
            i < ls@.len() ==> trim(l[i as int]).len() > 0,
        decreases ls.len() - i,
    {
        let t = trim_exec(ls[i]);
        assert(l[i as int] == ls@[i as int]@);
        if t.len() > 0 {
            break;
        }
        i = i + 1;
    }
    if i < ls.len() {
        let t = trim_exec(ls[i]);
        assert(l[i as int] == ls@[i as int]@);
        assert(trim(l[i as int]).len() > 0);
        assert(first_text_line(l, i as int) == i);
        p.layout.name = string_from_chars(t);
        if d == Dialect::Extended {
            p.layout.mode = detect_mode(t);
        }
        i = i + 1;
    } else {
        assert(first_text_line(l, i as int) == ls@.len());
    }
    i
}

/// Parses DvorakJ layout text (already decoded and stripped of comments).
pub fn parse_dvorakj(
    text: &[char],
    id: &[char],
    encoder: &KanaEncoder,
    keyboard: KeyboardLayout,
    dialect: Dialect,
) -> (r: Result<Layout, LoadError>)
    ensures
        match r {
            Ok(l) => parse_layout(text@, id@, keyboard, dialect) == Ok::<LayoutView, Seq<char>>(l.model()),
            Err(e) => match parse_layout(text@, id@, keyboard, dialect) {
                Ok(_) => false,
                Err(m) => e.model() == LoadFailure::UnknownTrigger(m),
            },
        },
{
    let ls = lines_exec(text);
    let ghost l = views(ls@);
    let mut names: AssocMap<Vec<char>, KeyCode> = AssocMap::new();
    names.insert(to_vec(&['s', 'h', 'i', 'f', 't']), KeyCode::ShiftL);
    let mut sustained: AssocMap<Vec<char>, ()> = AssocMap::new();
    sustained.insert(to_vec(&['s', 'h', 'i', 'f', 't']), ());
    let mut p = Parser {
        layout: Layout {
            id: string_from_chars(id),
            name: string_from_chars(id),
            mode: LayoutMode::Legacy,
            input_mode: InputMode::Direct,
            single_map: AssocMap::new(),
            layer_maps: AssocMap::new(),
            layer_taps: AssocMap::new(),
            layer_triggers: KeySet::new(),
            combos: AssocMap::new(),
            combo_keys: KeySet::new(),
            sustained_triggers: KeySet::new(),
            prefix_maps: AssocMap::new(),
            prefix_triggers: KeySet::new(),
            simultaneous: Vec::new(),
            keyboard,
        },
        names,
        sustained,
        base_rows: 0,
    };
    assert(p.state().layout.simultaneous =~= Seq::<(Seq<KeyCode>, Seq<Token>)>::empty());
    assert(p.state().sustained =~= Set::<Seq<char>>::empty().insert(shift_name()));
    assert(p.state() == initial_state(id@, keyboard));
    let mut i = read_header_exec(&mut p, ls.as_slice(), dialect);
    let ghost h = read_header(l, initial_state(id@, keyboard), dialect);
    while i < ls.len()
        invariant
            i <= ls@.len(),
            l == views(ls@),
            l == lines(text@),
            h == read_header(l, initial_state(id@, keyboard), dialect),
            run(l, i as int, p.state(), keyboard, dialect) == run(l, h.0, h.1, keyboard, dialect),
            p.layout.keyboard == keyboard,
        decreases ls.len() - i,
    {
        let ghost st = p.state();
        let next = parse_step(&mut p, ls.as_slice(), i, encoder, keyboard, dialect);
        match next {
            Ok(j) => {
                let ghost js = step(l, i as int, st, keyboard, dialect)->Ok_0.0;
                assert(run(l, i as int, st, keyboard, dialect) == run(l, js, p.state(), keyboard, dialect));
                assert(run(l, j as int, p.state(), keyboard, dialect) == run(l, js, p.state(), keyboard, dialect));
                i = j;
            },
            Err(m) => {
                assert(run(l, i as int, st, keyboard, dialect) == Err::<ParseState, Seq<char>>(m@));
                return Err(LoadError::UnknownTrigger(string_from_chars(m.as_slice())));
            },
        }
    }
    Ok(p.layout)
}


/// The layout mode named by a header line.
pub fn detect_mode(first_line: &[char]) -> (m: LayoutMode)
    ensures
        m == header_mode(first_line@),
{
    let has_sequential = contains_exec(first_line, '\u{9806}');
    let has_simultaneous = contains_pair(first_line, '\u{540C}', '\u{6642}');
    if has_sequential && has_simultaneous {
        LayoutMode::Mixed
    } else if has_simultaneous {
        LayoutMode::Simultaneous
    } else if has_sequential {
        LayoutMode::Sequential
    } else {
        LayoutMode::Legacy
    }
}

/// Whether a line is a `[a],[b][` bracket-named block header.
pub fn is_bracket_named_block(line: &[char]) -> (b: bool)
    ensures
        b == bracket_named(line@),
{
    match rfind_exec(line, '[') {
        Some(last_open) => {
            proof {
                crate::text::lemma_rfind(line@, '[');
            }
            let head = &line[0..last_open];
            assert(head@ =~= line@.take(last_open as int));
            last_open > 0 && contains_exec(head, ']')
        },
        None => false,
    }
}

/// The `[name]` layer names before the last `[` of a header line.
pub fn parse_bracket_names<'a>(line: &'a [char]) -> (r: Vec<&'a [char]>)
    ensures
        views(r@) == bracket_names(line@),
{
    match rfind_exec(line, '[') {
        Some(last_open) => {
            proof {
                crate::text::lemma_rfind(line@, '[');
            }
            let head = &line[0..last_open];
            assert(head@ =~= line@.take(last_open as int));
            delimited_names_exec(head, '[', ']')
        },
        None => {
            let v: Vec<&'a [char]> = Vec::new();
            assert(views(v@) =~= Seq::<Seq<char>>::empty());
            v
        },
    }
}

/// One step of the parser at line `i`; gives the next line index, capped at
/// the number of lines.
#[verifier::rlimit(50)]
fn parse_step(
    p: &mut Parser,
    lines: &[&[char]],
    i: usize,
    encoder: &KanaEncoder,
    kb: KeyboardLayout,
    d: Dialect,
) -> (r: Result<usize, Vec<char>>)
    requires
        i < lines@.len(),
        old(p).layout.keyboard == kb,
    ensures
        final(p).layout.keyboard == kb,
        match r {
            Ok(j) => match step(views(lines@), i as int, old(p).state(), kb, d) {
                Ok((js, s)) => s == final(p).state() && i < js <= lines@.len() + 1 && j as int == (if js
                    <= lines@.len() { js } else { lines@.len() as int }),
                Err(_) => false,
            },
            Err(m) => step(views(lines@), i as int, old(p).state(), kb, d) == Err::<(int, ParseState), Seq<char>>(m@),
        },
{
    reveal(step);
    let ghost l = views(lines@);
    proof {
        lemma_block_at(l, i as int, false);
        lemma_block_at(l, i as int, true);
    }
    let line = trim_exec(lines[i]);
    assert(l[i as int] == lines@[i as int]@);
    if line.len() == 0 {
        return Ok(i + 1);
    }
    let opt = ['-', 'o', 'p', 't', 'i', 'o', 'n', '-', 'i', 'n', 'p', 'u', 't'];
    assert(opt@ =~= option_input_word());
    if starts_with_exec(line, &opt) {
        if let Some((body, end)) = extract_block(lines, i, false) {
            let next = if end < lines.len() {
                end + 1
            } else {
                lines.len()
            };
            match option_block_exec(p, body.as_slice(), d) {
                Ok(_) => {
                    return Ok(next);
                },
                Err(m) => {
                    return Err(m);
                },
            }
        }
    }
    if d == Dialect::Extended && line[0] == '[' && is_bracket_named_block(line) {
        if let Some((body, end)) = extract_block(lines, i, true) {
            let names = parse_bracket_names(line);
            if names.len() > 0 {
                let next = if end < lines.len() {
                    end + 1
                } else {
                    lines.len()
                };
                match layer_block_exec(p, body.as_slice(), names.as_slice(), encoder, kb, false, true) {
                    Ok(_) => {
                        return Ok(next);
                    },
                    Err(m) => {
                        return Err(m);
                    },
                }
            }
        }
    }
    if line[0] == '[' {
        if let Some((body, end)) = extract_block(lines, i, false) {
            let next = if end < lines.len() {
                end + 1
            } else {
                lines.len()
            };
            p.base_rows = body.len();
            p.layout.single_map = parse_grid(body.as_slice(), encoder, InputMode::Direct, 0, kb);
            return Ok(next);
        }
    }
    let paren = d == Dialect::Extended && line[0] == '(';
    let eff: &[char] = if paren {
        trim_start_matches_exec(line, '(')
    } else {
        line
    };
    if eff.len() > 0 && (eff[0] == '{' || (eff[0] == '-' && !starts_with_exec(eff, &opt))) {
        if let Some((body, end)) = extract_block(lines, i, false) {
            let ns = parse_block_layer_names(eff);
            if ns.len() == 0 {
                return Ok(i + 1);
            }
            let next = if end < lines.len() {
                end + 1
            } else {
                lines.len()
            };
            match layer_block_exec(p, body.as_slice(), ns.as_slice(), encoder, kb, paren, false) {
                Ok(_) => Ok(next),
                Err(m) => Err(m),
            }
        } else {
            Ok(i + 1)
        }
    } else {
        Ok(i + 1)
    }
}


/// What every parse keeps of a layout: its id and keyboard; held, prefix and
/// tap keys, and the keys of every held or prefix layer, are declared layer
/// keys; layer-key lists are non-empty and sorted by layer rank; the base map
/// and every layer map map physical grid keys to non-empty outputs; taps and
/// chords have non-empty outputs; chords are canonical and made of combo keys;
/// and the basic dialect has neither layout modes nor prefix layers.
pub open spec fn layout_invariant(l: LayoutView, id: Seq<char>, kb: KeyboardLayout, d: Dialect) -> bool {
    &&& l.id == id
    &&& l.keyboard == kb
    &&& l.input_mode == InputMode::Direct
    &&& l.simultaneous.len() == 0
    &&& l.sustained_triggers.subset_of(l.layer_triggers)
    &&& l.prefix_triggers.subset_of(l.layer_triggers)
    &&& l.layer_taps.dom().subset_of(l.layer_triggers)
    &&& grid_map(l.single_map, kb)
    &&& forall|k: KeyCode| #[trigger] l.layer_taps.contains_key(k) ==> l.layer_taps[k].len() > 0
    &&& forall|k: Seq<KeyCode>| #[trigger] l.layer_maps.contains_key(k) ==> ranked(k, KeyOrder::Layer)
        && k.to_set().subset_of(l.layer_triggers) && k.len() > 0 && grid_map(l.layer_maps[k], kb)
    &&& forall|k: Seq<KeyCode>| #[trigger] l.prefix_maps.contains_key(k) ==> ranked(k, KeyOrder::Layer)
        && k.to_set().subset_of(l.layer_triggers) && k.len() > 0 && grid_map(l.prefix_maps[k], kb)
    &&& forall|c: Seq<KeyCode>| #[trigger] l.combos.contains_key(c) ==> strictly_canonical(c)
        && c.to_set().subset_of(l.combo_keys) && l.combos[c].len() > 0
    &&& d == Dialect::Basic ==> l.mode == LayoutMode::Legacy && l.prefix_maps == Map::<Seq<KeyCode>, Map<KeyCode, Seq<Token>>>::empty()
        && l.prefix_triggers == Set::<KeyCode>::empty()
}

proof fn lemma_option_block_layout(body: Seq<Seq<char>>, st: ParseState, d: Dialect)
    ensures
        option_block(body, st, d) matches Ok(s) ==> s.layout == st.layout && s.base_rows == st.base_rows,
    decreases body.len(),
{
    reveal(option_block);
    if body.len() > 0 {
        lemma_option_block_layout(body.drop_last(), st, d);
    }
}

proof fn lemma_add_taps_dom(
    taps: Map<KeyCode, Seq<Token>>,
    ks: Seq<KeyCode>,
    tap: Option<Seq<char>>,
    names: Seq<Seq<char>>,
    single: Map<KeyCode, Seq<Token>>,
    kb: KeyboardLayout,
)
    ensures
        add_taps(taps, ks, tap, names, single, kb).dom().subset_of(taps.dom().union(ks.to_set())),
    decreases ks.len(),
{
    if ks.len() > 0 {
        let t = ks.drop_last();
        lemma_add_taps_dom(taps, t, tap, names, single, kb);
        assert(t.push(ks.last()) =~= ks);
        t.lemma_push_to_set_commute(ks.last());
    }
}

proof fn lemma_add_combos_keys(
    combos: Map<Seq<KeyCode>, Seq<Token>>,
    ks: Seq<KeyCode>,
    g: Seq<(KeyCode, Seq<Token>)>,
)
    ensures
        forall|c: Seq<KeyCode>| #[trigger] add_combos(combos, ks, g).contains_key(c) ==> combos.contains_key(c)
            || exists|j: int| 0 <= j < g.len() && c == canon_chord(ks.push(#[trigger] g[j].0)),
    decreases g.len(),
{
    if g.len() > 0 {
        let t = g.drop_last();
        lemma_add_combos_keys(combos, ks, t);
        assert forall|c: Seq<KeyCode>| #[trigger] add_combos(combos, ks, g).contains_key(c) implies combos.contains_key(c)
            || exists|j: int| 0 <= j < g.len() && c == canon_chord(ks.push(#[trigger] g[j].0)) by {
            if c == canon_chord(ks.push(g.last().0)) {
                assert(c == canon_chord(ks.push(g[g.len() - 1].0)));
            } else if !combos.contains_key(c) {
                assert(add_combos(combos, ks, t).contains_key(c));
                let j = choose|j: int| 0 <= j < t.len() && c == canon_chord(ks.push(#[trigger] t[j].0));
                assert(g[j] == t[j]);
            }
        }
    }
}

proof fn lemma_add_prefix_each_keys(
    pm: Map<Seq<KeyCode>, Map<KeyCode, Seq<Token>>>,
    ks: Seq<KeyCode>,
    g: Map<KeyCode, Seq<Token>>,
)
    ensures
        forall|k: Seq<KeyCode>| #[trigger] add_prefix_each(pm, ks, g).contains_key(k) ==> pm.contains_key(k)
            || exists|j: int| 0 <= j < ks.len() && k == seq![#[trigger] ks[j]],
    decreases ks.len(),
{
    if ks.len() > 0 {
        let t = ks.drop_last();
        lemma_add_prefix_each_keys(pm, t, g);
        assert forall|k: Seq<KeyCode>| #[trigger] add_prefix_each(pm, ks, g).contains_key(k) implies pm.contains_key(k)
            || exists|j: int| 0 <= j < ks.len() && k == seq![#[trigger] ks[j]] by {
            if k == seq![ks.last()] {
                assert(k == seq![ks[ks.len() - 1]]);
            } else if !pm.contains_key(k) {
                assert(add_prefix_each(pm, t, g).contains_key(k));
                let j = choose|j: int| 0 <= j < t.len() && k == seq![#[trigger] t[j]];
                assert(ks[j] == t[j]);
            }
        }
    }
}

proof fn lemma_resolve_names_len(ns: Seq<Seq<char>>, names: Map<Seq<char>, KeyCode>)
    ensures
        resolve_names(ns, names).1.len() + resolve_names(ns, names).2.len() == ns.len(),
    decreases ns.len(),
{
    if ns.len() > 0 {
        lemma_resolve_names_len(ns.drop_last(), names);
    }
}

proof fn lemma_add_taps_vals(
    taps: Map<KeyCode, Seq<Token>>,
    ks: Seq<KeyCode>,
    tap: Option<Seq<char>>,
    names: Seq<Seq<char>>,
    single: Map<KeyCode, Seq<Token>>,
    kb: KeyboardLayout,
)
    requires
        forall|k: KeyCode| #[trigger] taps.contains_key(k) ==> taps[k].len() > 0,
    ensures
        forall|k: KeyCode| #[trigger] add_taps(taps, ks, tap, names, single, kb).contains_key(k)
            ==> add_taps(taps, ks, tap, names, single, kb)[k].len() > 0,
    decreases ks.len(),
{
    if ks.len() > 0 {
        lemma_add_taps_vals(taps, ks.drop_last(), tap, names, single, kb);
        let t = add_taps(taps, ks.drop_last(), tap, names, single, kb);
        let out = tap_output(tap, names, ks.last(), single, kb);
        let r = add_taps(taps, ks, tap, names, single, kb);
        assert forall|k: KeyCode| #[trigger] r.contains_key(k) implies r[k].len() > 0 by {
            if !t.contains_key(k) {
                assert(k == ks.last() && out.len() > 0);
            }
        }
    }
}

proof fn lemma_add_combos_vals(
    combos: Map<Seq<KeyCode>, Seq<Token>>,
    ks: Seq<KeyCode>,
    g: Seq<(KeyCode, Seq<Token>)>,
)
    requires
        forall|c: Seq<KeyCode>| #[trigger] combos.contains_key(c) ==> combos[c].len() > 0,
        forall|j: int| 0 <= j < g.len() ==> (#[trigger] g[j]).1.len() > 0,
    ensures
        forall|c: Seq<KeyCode>| #[trigger] add_combos(combos, ks, g).contains_key(c)
            ==> add_combos(combos, ks, g)[c].len() > 0,
    decreases g.len(),
{
    if g.len() > 0 {
        let t = g.drop_last();
        assert forall|j: int| 0 <= j < t.len() implies (#[trigger] t[j]).1.len() > 0 by {
            assert(t[j] == g[j]);
        }
        lemma_add_combos_vals(combos, ks, t);
        assert(g[g.len() - 1].1.len() > 0);
        let a = add_combos(combos, ks, t);
        let r = add_combos(combos, ks, g);
        assert forall|c: Seq<KeyCode>| #[trigger] r.contains_key(c) implies r[c].len() > 0 by {
            if !a.contains_key(c) {
                assert(r[c] == g.last().1);
            }
        }
    }
}

proof fn lemma_add_prefix_each_vals(
    pm: Map<Seq<KeyCode>, Map<KeyCode, Seq<Token>>>,
    ks: Seq<KeyCode>,
    g: Map<KeyCode, Seq<Token>>,
    kb: KeyboardLayout,
)
    requires
        forall|k: Seq<KeyCode>| #[trigger] pm.contains_key(k) ==> k.len() > 0 && grid_map(pm[k], kb),
        grid_map(g, kb),
    ensures
        forall|k: Seq<KeyCode>| #[trigger] add_prefix_each(pm, ks, g).contains_key(k)
            ==> k.len() > 0 && grid_map(add_prefix_each(pm, ks, g)[k], kb),
    decreases ks.len(),
{
    if ks.len() > 0 {
        lemma_add_prefix_each_vals(pm, ks.drop_last(), g, kb);
        let a = add_prefix_each(pm, ks.drop_last(), g);
        let r = add_prefix_each(pm, ks, g);
        assert forall|k: Seq<KeyCode>| #[trigger] r.contains_key(k) implies k.len() > 0 && grid_map(r[k], kb) by {
            if !a.contains_key(k) {
                assert(k == seq![ks.last()]);
                assert(r[k] == g);
            }
        }
    }
}

proof fn lemma_layer_block_invariant(
    st: ParseState,
    body: Seq<Seq<char>>,
    names: Seq<Seq<char>>,
    kb: KeyboardLayout,
    paren: bool,
    per_key: bool,
    id: Seq<char>,
    d: Dialect,
)
    requires
        layout_invariant(st.layout, id, kb, d),
        d == Dialect::Basic ==> !per_key,
        names.len() > 0,
    ensures
        layer_block(st, body, names, kb, paren, per_key) matches Ok(s) ==> layout_invariant(s.layout, id, kb, d)
            && s.base_rows == st.base_rows,
{
    reveal(layer_block);
    let (m, ks0, miss) = resolve_names(names, st.names);
    if miss.len() == 0 {
        let ks = sort_ranked(ks0, KeyOrder::Layer);
        let (n, tap) = tap_split(body);
        let total = if st.base_rows > n { st.base_rows } else { n };
        let grid = grid_entries(body.take(n as int), InputMode::Direct, (total - n) as nat, kb);
        let taps = add_taps(st.layout.layer_taps, ks, tap, names, st.layout.single_map, kb);
        lemma_add_taps_dom(st.layout.layer_taps, ks, tap, names, st.layout.single_map, kb);
        lemma_add_taps_vals(st.layout.layer_taps, ks, tap, names, st.layout.single_map, kb);
        lemma_resolve_names_len(names, st.names);
        lemma_grid_map(body.take(n as int), InputMode::Direct, (total - n) as nat, kb);
        law_sort_ranked(ks0, KeyOrder::Layer);
        assert(ks.len() > 0) by {
            assert(ks0.to_set().contains(ks0[0]));
            assert(ks.to_set().contains(ks0[0]));
        }
        let route = route_of(st.layout.mode, all_sustained(names, st.sustained), paren);
        let l1 = LayoutView { layer_taps: taps, ..st.layout };
        let l2 = apply_route(l1, route, ks, grid, per_key);
        let l3 = LayoutView { layer_triggers: l2.layer_triggers.union(ks.to_set()), ..l2 };
        law_sort_ranked(ks0, KeyOrder::Layer);
        let gm = pairs_map(grid);
        assert forall|k: Seq<KeyCode>| #[trigger] l3.layer_maps.contains_key(k) implies ranked(k, KeyOrder::Layer)
            && k.to_set().subset_of(l3.layer_triggers) by {
            if k != ks {
                assert(st.layout.layer_maps.contains_key(k));
            }
        }
        if route == BlockRoute::Prefix && per_key {
            lemma_add_prefix_each_keys(st.layout.prefix_maps, ks, gm);
            lemma_add_prefix_each_vals(st.layout.prefix_maps, ks, gm, kb);
        }
        assert forall|k: Seq<KeyCode>| #[trigger] l3.prefix_maps.contains_key(k) implies ranked(k, KeyOrder::Layer)
            && k.to_set().subset_of(l3.layer_triggers) by {
            if !st.layout.prefix_maps.contains_key(k) {
                if per_key {
                    let j = choose|j: int| 0 <= j < ks.len() && k == seq![#[trigger] ks[j]];
                    assert(ks.to_set().contains(ks[j]));
                    assert forall|a: KeyCode| k.to_set().contains(a) implies l3.layer_triggers.contains(a) by {
                        let i = choose|i: int| 0 <= i < k.len() && k[i] == a;
                        assert(k[i] == ks[j]);
                    }
                    assert(ranked(k, KeyOrder::Layer));
                } else {
                    assert(k == ks);
                }
            }
        }
        if route == BlockRoute::Combo {
            lemma_add_combos_keys(st.layout.combos, ks, grid);
            lemma_add_combos_vals(st.layout.combos, ks, grid);
        }
        assert forall|c: Seq<KeyCode>| #[trigger] l3.combos.contains_key(c) implies strictly_canonical(c)
            && c.to_set().subset_of(l3.combo_keys) by {
            if !st.layout.combos.contains_key(c) {
                let j = choose|j: int| 0 <= j < grid.len() && c == canon_chord(ks.push(#[trigger] grid[j].0));
                law_canon_chord(ks.push(grid[j].0), ks.push(grid[j].0));
                ks.lemma_push_to_set_commute(grid[j].0);
                assert(grid_keys(grid, grid.len() as int).contains(grid[j].0));
            }
        }
        assert(l3.sustained_triggers.subset_of(l3.layer_triggers));
        assert(l3.prefix_triggers.subset_of(l3.layer_triggers));
        assert(l3.layer_taps.dom().subset_of(l3.layer_triggers));
    }
}

proof fn lemma_step_invariant(ls: Seq<Seq<char>>, i: int, st: ParseState, kb: KeyboardLayout, d: Dialect, id: Seq<char>)
    requires
        0 <= i < ls.len(),
        layout_invariant(st.layout, id, kb, d),
    ensures
        step(ls, i, st, kb, d) matches Ok((j, s)) ==> layout_invariant(s.layout, id, kb, d),
{
    reveal(step);
    let line = trim(ls[i]);
    if line.len() == 0 {
    } else if starts_with(line, option_input_word()) && block_at(ls, i, false) is Some {
        let (body, end) = block_at(ls, i, false)->0;
        lemma_option_block_layout(body, st, d);
    } else if d == Dialect::Extended && line[0] == '[' && bracket_named(line) && block_at(ls, i, true) is Some
        && bracket_names(line).len() > 0 {
        let (body, end) = block_at(ls, i, true)->0;
        lemma_layer_block_invariant(st, body, bracket_names(line), kb, false, true, id, d);
    } else if line[0] == '[' && block_at(ls, i, false) is Some {
        let (body, end) = block_at(ls, i, false)->0;
        lemma_grid_map(body, InputMode::Direct, 0, kb);
    } else {
        let paren = d == Dialect::Extended && line[0] == '(';
        let eff = if paren { trim_start_matches(line, '(') } else { line };
        if layer_header(eff) && block_at(ls, i, false) is Some && layer_names(eff).len() > 0 {
            let (body, end) = block_at(ls, i, false)->0;
            lemma_layer_block_invariant(st, body, layer_names(eff), kb, paren, false, id, d);
        }
    }
}

proof fn lemma_run_invariant(ls: Seq<Seq<char>>, i: int, st: ParseState, kb: KeyboardLayout, d: Dialect, id: Seq<char>)
    requires
        layout_invariant(st.layout, id, kb, d),
    ensures
        run(ls, i, st, kb, d) matches Ok(s) ==> layout_invariant(s.layout, id, kb, d),
    decreases ls.len() + 1 - i,
{
    if 0 <= i < ls.len() {
        lemma_step_invariant(ls, i, st, kb, d, id);
        match step(ls, i, st, kb, d) {
            Ok((j, s)) => {
                if i < j <= ls.len() + 1 {
                    lemma_run_invariant(ls, j, s, kb, d, id);
                }
            },
            Err(_) => {},
        }
    }
}

/// Every layout the parser gives keeps [`layout_invariant`]: its id and
/// keyboard are the ones given; every held, prefix or tap key is a declared
/// layer key; layer-key lists are non-empty, sorted and made of layer keys;
/// every map of physical keys (base, held and prefix layers) maps keys of the
/// physical grid to non-empty outputs, as do taps and chords; chords are
/// canonical and made of combo keys; and the basic dialect gives no layout
/// mode and no prefix layer.
pub proof fn law_parse_invariant(text: Seq<char>, id: Seq<char>, kb: KeyboardLayout, d: Dialect)
    ensures
        parse_layout(text, id, kb, d) matches Ok(l) ==> layout_invariant(l, id, kb, d),
{
    let ls = lines(text);
    let st0 = initial_state(id, kb);
    assert(layout_invariant(st0.layout, id, kb, d));
    let (i, st) = read_header(ls, st0, d);
    assert(layout_invariant(st.layout, id, kb, d));
    lemma_run_invariant(ls, i, st, kb, d, id);
}

} // verus!
