//! Grid parsing: `|`-delimited rows to a physical-key output map.
use vstd::prelude::*;

use crate::cell::{cell_output, compile_cell, KanaEncoder};
use crate::keys::{ascii_key, KeyCode, KeyboardLayout};
use crate::layout::KeyMap;
use crate::map::{assoc_insert, key_index, pairs_map, AssocMap, Model};
use crate::output::{InputMode, Token};
use crate::text::{split, split_exec, trim, trim_exec, views};

verus! {

/// Physical keys of a grid row, left to right.
///
/// JIS (OADG 109A):
///   row 0: 1 2 3 4 5 6 7 8 9 0 - ^ ¥
///   row 1: Q W E R T Y U I O P @ [
///   row 2: A S D F G H J K L ; : ]
///   row 3: Z X C V B N M , . / \
///
/// US (ANSI 104), with the grave key last in row 0 so that digits line up
/// with the JIS table:
///   row 0: 1 2 3 4 5 6 7 8 9 0 - = `
///   row 1: Q W E R T Y U I O P [ ] \
///   row 2: A S D F G H J K L ; '
///   row 3: Z X C V B N M , . /
pub open spec fn physical_keys(row: int, kb: KeyboardLayout) -> Seq<KeyCode> {
    match kb {
        KeyboardLayout::Jis => if row == 0 {
            seq![KeyCode::Num1, KeyCode::Num2, KeyCode::Num3, KeyCode::Num4, KeyCode::Num5, KeyCode::Num6, KeyCode::Num7, KeyCode::Num8, KeyCode::Num9, KeyCode::Num0, KeyCode::Minus, KeyCode::Caret, KeyCode::Yen]
        } else if row == 1 {
            seq![KeyCode::Q, KeyCode::W, KeyCode::E, KeyCode::R, KeyCode::T, KeyCode::Y, KeyCode::U, KeyCode::I, KeyCode::O, KeyCode::P, KeyCode::AtSign, KeyCode::LBracket]
        } else if row == 2 {
            seq![KeyCode::A, KeyCode::S, KeyCode::D, KeyCode::F, KeyCode::G, KeyCode::H, KeyCode::J, KeyCode::K, KeyCode::L, KeyCode::Semicolon, KeyCode::Colon, KeyCode::RBracket]
        } else if row == 3 {
            seq![KeyCode::Z, KeyCode::X, KeyCode::C, KeyCode::V, KeyCode::B, KeyCode::N, KeyCode::M, KeyCode::Comma, KeyCode::Dot, KeyCode::Slash, KeyCode::Backslash]
        } else {
            seq![]
        },
        KeyboardLayout::Us => if row == 0 {
            seq![KeyCode::Num1, KeyCode::Num2, KeyCode::Num3, KeyCode::Num4, KeyCode::Num5, KeyCode::Num6, KeyCode::Num7, KeyCode::Num8, KeyCode::Num9, KeyCode::Num0, KeyCode::Minus, KeyCode::Equal, KeyCode::Grave]
        } else if row == 1 {
            seq![KeyCode::Q, KeyCode::W, KeyCode::E, KeyCode::R, KeyCode::T, KeyCode::Y, KeyCode::U, KeyCode::I, KeyCode::O, KeyCode::P, KeyCode::LBracket, KeyCode::RBracket, KeyCode::Backslash]
        } else if row == 2 {
            seq![KeyCode::A, KeyCode::S, KeyCode::D, KeyCode::F, KeyCode::G, KeyCode::H, KeyCode::J, KeyCode::K, KeyCode::L, KeyCode::Semicolon, KeyCode::Quote]
        } else if row == 3 {
            seq![KeyCode::Z, KeyCode::X, KeyCode::C, KeyCode::V, KeyCode::B, KeyCode::N, KeyCode::M, KeyCode::Comma, KeyCode::Dot, KeyCode::Slash]
        } else {
            seq![]
        },
    }
}

pub fn physical_row(row: usize, kb: KeyboardLayout) -> (r: Vec<KeyCode>)
    ensures
        r@ == physical_keys(row as int, kb),
{
    let v: Vec<KeyCode> = match kb {
        KeyboardLayout::Jis => if row == 0 {
            vec![KeyCode::Num1, KeyCode::Num2, KeyCode::Num3, KeyCode::Num4, KeyCode::Num5, KeyCode::Num6, KeyCode::Num7, KeyCode::Num8, KeyCode::Num9, KeyCode::Num0, KeyCode::Minus, KeyCode::Caret, KeyCode::Yen]
        } else if row == 1 {
            vec![KeyCode::Q, KeyCode::W, KeyCode::E, KeyCode::R, KeyCode::T, KeyCode::Y, KeyCode::U, KeyCode::I, KeyCode::O, KeyCode::P, KeyCode::AtSign, KeyCode::LBracket]
        } else if row == 2 {
            vec![KeyCode::A, KeyCode::S, KeyCode::D, KeyCode::F, KeyCode::G, KeyCode::H, KeyCode::J, KeyCode::K, KeyCode::L, KeyCode::Semicolon, KeyCode::Colon, KeyCode::RBracket]
        } else if row == 3 {
            vec![KeyCode::Z, KeyCode::X, KeyCode::C, KeyCode::V, KeyCode::B, KeyCode::N, KeyCode::M, KeyCode::Comma, KeyCode::Dot, KeyCode::Slash, KeyCode::Backslash]
        } else {
            Vec::new()
        },
        KeyboardLayout::Us => if row == 0 {
            vec![KeyCode::Num1, KeyCode::Num2, KeyCode::Num3, KeyCode::Num4, KeyCode::Num5, KeyCode::Num6, KeyCode::Num7, KeyCode::Num8, KeyCode::Num9, KeyCode::Num0, KeyCode::Minus, KeyCode::Equal, KeyCode::Grave]
        } else if row == 1 {
            vec![KeyCode::Q, KeyCode::W, KeyCode::E, KeyCode::R, KeyCode::T, KeyCode::Y, KeyCode::U, KeyCode::I, KeyCode::O, KeyCode::P, KeyCode::LBracket, KeyCode::RBracket, KeyCode::Backslash]
        } else if row == 2 {
            vec![KeyCode::A, KeyCode::S, KeyCode::D, KeyCode::F, KeyCode::G, KeyCode::H, KeyCode::J, KeyCode::K, KeyCode::L, KeyCode::Semicolon, KeyCode::Quote]
        } else if row == 3 {
            vec![KeyCode::Z, KeyCode::X, KeyCode::C, KeyCode::V, KeyCode::B, KeyCode::N, KeyCode::M, KeyCode::Comma, KeyCode::Dot, KeyCode::Slash]
        } else {
            Vec::new()
        },
    };
    assert(v@ =~= physical_keys(row as int, kb));
    v
}

/// The characters printed (unshifted) on the keys of a keyboard row, left to
/// right: the OADG 109A layout for JIS and the ANSI layout for US (grave key
/// last in the number row).
pub open spec fn row_legend(row: int, kb: KeyboardLayout) -> Seq<char> {
    match kb {
        KeyboardLayout::Jis => if row == 0 {
            seq!['1', '2', '3', '4', '5', '6', '7', '8', '9', '0', '-', '^', '\u{A5}']
        } else if row == 1 {
            seq!['q', 'w', 'e', 'r', 't', 'y', 'u', 'i', 'o', 'p', '@', '[']
        } else if row == 2 {
            seq!['a', 's', 'd', 'f', 'g', 'h', 'j', 'k', 'l', ';', ':', ']']
        } else if row == 3 {
            seq!['z', 'x', 'c', 'v', 'b', 'n', 'm', ',', '.', '/', '\\']
        } else {
            seq![]
        },
        KeyboardLayout::Us => if row == 0 {
            seq!['1', '2', '3', '4', '5', '6', '7', '8', '9', '0', '-', '=', '`']
        } else if row == 1 {
            seq!['q', 'w', 'e', 'r', 't', 'y', 'u', 'i', 'o', 'p', '[', ']', '\\']
        } else if row == 2 {
            seq!['a', 's', 'd', 'f', 'g', 'h', 'j', 'k', 'l', ';', '\'']
        } else if row == 3 {
            seq!['z', 'x', 'c', 'v', 'b', 'n', 'm', ',', '.', '/']
        } else {
            seq![]
        },
    }
}

/// Each grid column lands on the key printed at that place of the keyboard:
/// a physical row has one key per legend character, and wherever the legend
/// character is one that some key types on its own, the physical key is that
/// key. On a US keyboard this covers every key; on JIS every key but the four
/// whose characters (`^`, `¥`, `@`, `:`) have no key of their own on US boards.
pub proof fn law_physical_rows_follow_legends(row: int, col: int, kb: KeyboardLayout)
    requires
        0 <= row < 4,
        0 <= col < row_legend(row, kb).len(),
    ensures
        physical_keys(row, kb).len() == row_legend(row, kb).len(),
        !(ascii_key(row_legend(row, kb)[col]) is Unknown) ==> physical_keys(row, kb)[col] == ascii_key(
            row_legend(row, kb)[col],
        ),
        kb == KeyboardLayout::Us ==> physical_keys(row, kb)[col] == ascii_key(row_legend(row, kb)[col]),
{
    let l = row_legend(row, kb);
    let p = physical_keys(row, kb);
    assert(l[col] == l[col]);
    if col == 0 {} else if col == 1 {} else if col == 2 {} else if col == 3 {} else if col == 4 {}
    else if col == 5 {} else if col == 6 {} else if col == 7 {} else if col == 8 {} else if col == 9 {}
    else if col == 10 {} else if col == 11 {} else {}
}

/// The trimmed cells of a grid row.
pub open spec fn cells_of(line: Seq<char>) -> Seq<Seq<char>> {
    let p = split(line, '|');
    Seq::new(p.len(), |i: int| trim(p[i]))
}

/// The first `n` cells of a row entered into `p`: a cell with output maps the
/// physical key at its column.
pub open spec fn row_pairs(
    p: Seq<(KeyCode, Seq<Token>)>,
    cells: Seq<Seq<char>>,
    phys: Seq<KeyCode>,
    mode: InputMode,
    kb: KeyboardLayout,
    n: nat,
) -> Seq<(KeyCode, Seq<Token>)>
    decreases n,
{
    if n == 0 {
        p
    } else {
        let p1 = row_pairs(p, cells, phys, mode, kb, (n - 1) as nat);
        let out = cell_output(cells[n - 1], mode, kb);
        if out.len() == 0 {
            p1
        } else {
            assoc_insert(p1, phys[n - 1], out)
        }
    }
}

/// The entries of a grid from its first `r` rows; body row `i` lies on
/// physical row `i + offset`, and columns past the physical row are ignored.
pub open spec fn grid_rows(
    body: Seq<Seq<char>>,
    mode: InputMode,
    offset: nat,
    kb: KeyboardLayout,
    r: nat,
) -> Seq<(KeyCode, Seq<Token>)>
    decreases r,
{
    if r == 0 {
        seq![]
    } else {
        let p = grid_rows(body, mode, offset, kb, (r - 1) as nat);
        let cells = cells_of(body[r - 1]);
        let phys = physical_keys(r - 1 + offset, kb);
        let n = if cells.len() < phys.len() {
            cells.len()
        } else {
            phys.len()
        };
        row_pairs(p, cells, phys, mode, kb, n)
    }
}

/// The entries of a grid, in row-major order of first mapping.
pub open spec fn grid_entries(
    body: Seq<Seq<char>>,
    mode: InputMode,
    offset: nat,
    kb: KeyboardLayout,
) -> Seq<(KeyCode, Seq<Token>)> {
    grid_rows(body, mode, offset, kb, body.len())
}

/// Compiles grid rows into a physical-key output map.
pub fn parse_grid(
    body: &[&[char]],
    encoder: &KanaEncoder,
    mode: InputMode,
    row_offset: usize,
    keyboard: KeyboardLayout,
) -> (out: KeyMap)
    ensures
        out.pairs() == grid_entries(views(body@), mode, row_offset as nat, keyboard),
{
    let ghost b = views(body@);
    let mut out: KeyMap = AssocMap::new();
    let mut r: usize = 0;
    while r < body.len()
        invariant
            r <= body@.len(),
            b == views(body@),
            out.pairs() == grid_rows(b, mode, row_offset as nat, keyboard, r as nat),
        decreases body.len() - r,
    {
        let parts = split_exec(body[r], '|');
        let phys: Vec<KeyCode> = if r < 4 && row_offset < 4 {
            physical_row(r + row_offset, keyboard)
        } else {
            Vec::new()
        };
        let ghost cells = cells_of(b[r as int]);
        assert(phys@ == physical_keys(r + row_offset, keyboard));
        let n = if parts.len() < phys.len() {
            parts.len()
        } else {
            phys.len()
        };
        let ghost start = out.pairs();
        let mut i: usize = 0;
        while i < n
            invariant
                i <= n,
                n <= parts@.len(),
                n <= phys@.len(),
                views(parts@) == split(b[r as int], '|'),
                cells == cells_of(b[r as int]),
                out.pairs() == row_pairs(start, cells, phys@, mode, keyboard, i as nat),
            decreases n - i,
        {
            let cell = trim_exec(parts[i]);
            assert(cell@ == cells[i as int]);
            let seq = compile_cell(cell, mode, encoder, keyboard);
            if seq.len() > 0 {
                out.insert(phys[i], seq);
            }
            i = i + 1;
        }
        r = r + 1;
        assert(b[r - 1] == body@[r - 1]@);
    }
    out
}


/// An entry of a grid from rows `0..rows` of `body`: a non-empty output on the
/// physical key under a cell of one of those rows.
pub open spec fn entry_from_rows(
    body: Seq<Seq<char>>,
    offset: nat,
    kb: KeyboardLayout,
    rows: int,
    e: (KeyCode, Seq<Token>),
) -> bool {
    &&& e.1.len() > 0
    &&& exists|r: int, i: int|
        0 <= r < rows && r < body.len() && 0 <= i < cells_of(body[r]).len() && 0 <= i < physical_keys(
            r + offset,
            kb,
        ).len() && #[trigger] physical_keys(r + offset, kb)[i] == e.0
}

proof fn lemma_assoc_insert_entries(p: Seq<(KeyCode, Seq<Token>)>, k: KeyCode, v: Seq<Token>)
    ensures
        forall|j: int| 0 <= j < assoc_insert(p, k, v).len() ==> (#[trigger] assoc_insert(p, k, v)[j] == (k, v)
            || p.contains(assoc_insert(p, k, v)[j])),
{
    let q = assoc_insert(p, k, v);
    assert forall|j: int| 0 <= j < q.len() implies (#[trigger] q[j] == (k, v) || p.contains(q[j])) by {
        if q[j] != (k, v) {
            assert(p[j] == q[j]);
        }
    }
}

proof fn lemma_row_pairs(
    p: Seq<(KeyCode, Seq<Token>)>,
    body: Seq<Seq<char>>,
    mode: InputMode,
    offset: nat,
    kb: KeyboardLayout,
    r: int,
    n: nat,
)
    requires
        0 <= r < body.len(),
        n <= cells_of(body[r]).len(),
        n <= physical_keys(r + offset, kb).len(),
        forall|j: int| 0 <= j < p.len() ==> entry_from_rows(body, offset, kb, r + 1, #[trigger] p[j]),
    ensures
        forall|j: int|
            0 <= j < row_pairs(p, cells_of(body[r]), physical_keys(r + offset, kb), mode, kb, n).len()
                ==> entry_from_rows(
                body,
                offset,
                kb,
                r + 1,
                #[trigger] row_pairs(p, cells_of(body[r]), physical_keys(r + offset, kb), mode, kb, n)[j],
            ),
    decreases n,
{
    if n > 0 {
        let cells = cells_of(body[r]);
        let phys = physical_keys(r + offset, kb);
        lemma_row_pairs(p, body, mode, offset, kb, r, (n - 1) as nat);
        let p1 = row_pairs(p, cells, phys, mode, kb, (n - 1) as nat);
        let out = cell_output(cells[n - 1], mode, kb);
        if out.len() > 0 {
            lemma_assoc_insert_entries(p1, phys[n - 1], out);
            let q = assoc_insert(p1, phys[n - 1], out);
            assert forall|j: int| 0 <= j < q.len() implies entry_from_rows(body, offset, kb, r + 1, #[trigger] q[j]) by {
                if q[j] == (phys[n - 1], out) {
                    assert(physical_keys(r + offset, kb)[n - 1] == q[j].0);
                } else {
                    let jj = choose|jj: int| 0 <= jj < p1.len() && p1[jj] == q[j];
                    assert(entry_from_rows(body, offset, kb, r + 1, p1[jj]));
                }
            }
        }
    }
}

proof fn lemma_grid_rows(body: Seq<Seq<char>>, mode: InputMode, offset: nat, kb: KeyboardLayout, rows: nat)
    requires
        rows <= body.len(),
    ensures
        forall|j: int| 0 <= j < grid_rows(body, mode, offset, kb, rows).len() ==> entry_from_rows(
            body,
            offset,
            kb,
            rows as int,
            #[trigger] grid_rows(body, mode, offset, kb, rows)[j],
        ),
    decreases rows,
{
    if rows > 0 {
        let r = rows - 1;
        lemma_grid_rows(body, mode, offset, kb, r as nat);
        let p = grid_rows(body, mode, offset, kb, r as nat);
        let cells = cells_of(body[r]);
        let phys = physical_keys(r + offset, kb);
        let n = if cells.len() < phys.len() {
            cells.len()
        } else {
            phys.len()
        };
        assert forall|j: int| 0 <= j < p.len() implies entry_from_rows(body, offset, kb, r + 1, #[trigger] p[j]) by {
            let (rr, ii) = choose|rr: int, ii: int|
                0 <= rr < r && rr < body.len() && 0 <= ii < cells_of(body[rr]).len() && 0 <= ii < physical_keys(
                    rr + offset,
                    kb,
                ).len() && #[trigger] physical_keys(rr + offset, kb)[ii] == p[j].0;
            assert(physical_keys(rr + offset, kb)[ii] == p[j].0);
        }
        lemma_row_pairs(p, body, mode, offset, kb, r, n);
    }
}

/// Every entry of a grid maps the physical key under some cell of some row
/// (columns past a physical row are ignored) to a non-empty output.
pub proof fn law_grid_entries(body: Seq<Seq<char>>, mode: InputMode, offset: nat, kb: KeyboardLayout)
    ensures
        forall|j: int| 0 <= j < grid_entries(body, mode, offset, kb).len() ==> entry_from_rows(
            body,
            offset,
            kb,
            body.len() as int,
            #[trigger] grid_entries(body, mode, offset, kb)[j],
        ),
{
    lemma_grid_rows(body, mode, offset, kb, body.len());
}


/// Whether `k` is a key of the physical grid of keyboard `kb` (one of its four rows).
pub open spec fn physical_key(k: KeyCode, kb: KeyboardLayout) -> bool {
    exists|r: int, i: int| 0 <= r < 4 && 0 <= i < physical_keys(r, kb).len() && #[trigger] physical_keys(r, kb)[i] == k
}

/// A grid map: every key is a physical grid key, mapped to a non-empty output.
pub open spec fn grid_map(m: Map<KeyCode, Seq<Token>>, kb: KeyboardLayout) -> bool {
    forall|k: KeyCode| #[trigger] m.contains_key(k) ==> physical_key(k, kb) && m[k].len() > 0
}

/// The map of a grid's entries is a grid map, and every entry's output is non-empty.
pub proof fn lemma_grid_map(body: Seq<Seq<char>>, mode: InputMode, offset: nat, kb: KeyboardLayout)
    ensures
        grid_map(pairs_map(grid_entries(body, mode, offset, kb)), kb),
        forall|j: int| 0 <= j < grid_entries(body, mode, offset, kb).len()
            ==> (#[trigger] grid_entries(body, mode, offset, kb)[j]).1.len() > 0,
{
    law_grid_entries(body, mode, offset, kb);
    let g = grid_entries(body, mode, offset, kb);
    assert forall|j: int| 0 <= j < g.len() implies (#[trigger] g[j]).1.len() > 0 by {
        assert(entry_from_rows(body, offset, kb, body.len() as int, g[j]));
    }
    assert forall|k: KeyCode| #[trigger] pairs_map(g).contains_key(k) implies physical_key(k, kb)
        && pairs_map(g)[k].len() > 0 by {
        let j = key_index(g, k);
        assert(entry_from_rows(body, offset, kb, body.len() as int, g[j]));
        let (r, i) = choose|r: int, i: int|
            0 <= r < body.len() && 0 <= i < cells_of(body[r]).len() && 0 <= i < physical_keys(r + offset, kb).len()
                && #[trigger] physical_keys(r + offset, kb)[i] == g[j].0;
        assert(0 <= r + offset < 4);
        assert(physical_keys(r + offset, kb)[i] == k);
    }
}

} // verus!
