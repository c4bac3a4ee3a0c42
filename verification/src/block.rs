//! Blocks of a layout file: `...[ ... ]` bodies, layer-name headers and tap rows.
use vstd::prelude::*;

use crate::text::{
    is_ws, lemma_trim_fixed, lemma_trim_idempotent, contains_exec, ends_with_char, find, find_exec, lemma_find, rfind, rfind_exec, same_chars,
    split, split_exec, starts_with_char, trim, trim_end_matches, trim_end_matches_exec, trim_exec,
    trim_start_matches, trim_start_matches_exec, views,
};

verus! {

/// A layer name without surrounding `{...}` and whitespace.
pub open spec fn normalize_name(raw: Seq<char>) -> Seq<char> {
    let t = trim(raw);
    if t.len() >= 2 && t[0] == '{' && t.last() == '}' {
        trim(t.subrange(1, t.len() - 1))
    } else {
        trim(t)
    }
}

/// Strips the surrounding `{...}` (if present) and whitespace from a layer name.
pub fn normalize_layer_name(raw: &[char]) -> (r: &[char])
    ensures
        r@ == normalize_name(raw@),
{
    let t = trim_exec(raw);
    if t.len() >= 2 && t[0] == '{' && t[t.len() - 1] == '}' {
        let inner = &t[1..t.len() - 1];
        trim_exec(inner)
    } else {
        trim_exec(t)
    }
}

/// The non-empty trimmed names enclosed by `open ... close` pairs, left to right.
pub open spec fn delimited_names(s: Seq<char>, open: char, close: char) -> Seq<Seq<char>>
    decreases s.len(),
{
    match find(s, open) {
        Some(p) => if 0 <= p < s.len() {
            let after = s.skip(p + 1);
            match find(after, close) {
                Some(e) => if 0 <= e < after.len() {
                    let name = trim(after.take(e));
                    let rest = delimited_names(after.skip(e + 1), open, close);
                    if name.len() > 0 {
                        seq![name] + rest
                    } else {
                        rest
                    }
                } else {
                    seq![]
                },
                None => seq![],
            }
        } else {
            seq![]
        },
        None => seq![],
    }
}

/// Executable `delimited_names`.
pub fn delimited_names_exec<'a>(s: &'a [char], open: char, close: char) -> (r: Vec<&'a [char]>)
    ensures
        views(r@) == delimited_names(s@, open, close),
{
    let mut out: Vec<&'a [char]> = Vec::new();
    let mut pos: usize = 0;
    assert(s@.skip(0) =~= s@);
    assert(views(out@) + delimited_names(s@.skip(0), open, close) =~= delimited_names(s@, open, close));
    loop
        invariant
            pos <= s.len(),
            views(out@) + delimited_names(s@.skip(pos as int), open, close) == delimited_names(s@, open, close),
        decreases s.len() - pos,
    {
        let rest = &s[pos..s.len()];
        assert(rest@ =~= s@.skip(pos as int));
        let p = match find_exec(rest, open) {
            Some(p) => p,
            None => {
                assert(views(out@) + Seq::<Seq<char>>::empty() =~= views(out@));
                return out;
            },
        };
        proof {
            lemma_find(rest@, open);
        }
        let after = &rest[p + 1..rest.len()];
        assert(after@ =~= rest@.skip(p + 1));
        let e = match find_exec(after, close) {
            Some(e) => e,
            None => {
                assert(views(out@) + Seq::<Seq<char>>::empty() =~= views(out@));
                return out;
            },
        };
        proof {
            lemma_find(after@, close);
        }
        let name = trim_exec(&after[0..e]);
        assert(after@.subrange(0, e as int) =~= after@.take(e as int));
        let ghost next = after@.skip(e + 1);
        assert(next =~= s@.skip(pos + p + e + 2));
        let ghost before = views(out@);
        if name.len() > 0 {
            out.push(name);
            assert(views(out@) =~= before.push(name@));
            assert(views(out@) + delimited_names(next, open, close) =~= before + (seq![name@]
                + delimited_names(next, open, close)));
        }
        pos = pos + p + e + 2;
    }
}

/// The trimmed non-empty pieces, in order.
pub open spec fn trimmed_nonempty(p: Seq<Seq<char>>) -> Seq<Seq<char>>
    decreases p.len(),
{
    if p.len() == 0 {
        seq![]
    } else {
        let rest = trimmed_nonempty(p.drop_last());
        let t = trim(p.last());
        if t.len() > 0 {
            rest.push(t)
        } else {
            rest
        }
    }
}

fn trimmed_nonempty_exec<'a>(parts: &Vec<&'a [char]>) -> (r: Vec<&'a [char]>)
    ensures
        views(r@) == trimmed_nonempty(views(parts@)),
{
    let mut out: Vec<&'a [char]> = Vec::new();
    let mut i: usize = 0;
    assert(views(parts@).take(0) =~= Seq::<Seq<char>>::empty());
    while i < parts.len()
        invariant
            i <= parts@.len(),
            views(out@) == trimmed_nonempty(views(parts@).take(i as int)),
        decreases parts.len() - i,
    {
        let t = trim_exec(parts[i]);
        let ghost before = views(out@);
        let ghost pre = views(parts@).take(i + 1);
        assert(pre.drop_last() =~= views(parts@).take(i as int));
        assert(pre.last() == parts@[i as int]@);
        if t.len() > 0 {
            out.push(t);
            assert(views(out@) =~= before.push(t@));
        }
        i = i + 1;
    }
    assert(views(parts@).take(parts.len() as int) =~= views(parts@));
    out
}

/// Layer names of a block header: `{a}{b}[` gives `a`, `b`; `-x-y[` gives `x`, `y`.
pub open spec fn layer_names(starter: Seq<char>) -> Seq<Seq<char>> {
    let head0 = match find(starter, '[') {
        Some(p) => starter.take(p),
        None => starter,
    };
    let head = trim(head0);
    if head.len() > 0 && head[0] == '-' {
        let rest = trim(trim_start_matches(head, '-'));
        trimmed_nonempty(split(rest, '-'))
    } else {
        delimited_names(head, '{', '}')
    }
}

/// Parses the layer names from a block header line.
pub fn parse_block_layer_names<'a>(starter: &'a [char]) -> (r: Vec<&'a [char]>)
    ensures
        views(r@) == layer_names(starter@),
{
    let head0: &[char] = match find_exec(starter, '[') {
        Some(p) => {
            proof {
                lemma_find(starter@, '[');
            }
            let h = &starter[0..p];
            assert(h@ =~= starter@.take(p as int));
            h
        },
        None => starter,
    };
    let head = trim_exec(head0);
    if starts_with_char(head, '-') {
        let rest = trim_exec(trim_start_matches_exec(head, '-'));
        let parts = split_exec(rest, '-');
        trimmed_nonempty_exec(&parts)
    } else {
        delimited_names_exec(head, '{', '}')
    }
}

/// The first non-empty trimmed piece.
pub open spec fn first_nonempty(p: Seq<Seq<char>>) -> Option<Seq<char>>
    decreases p.len(),
{
    if p.len() == 0 {
        None
    } else if trim(p[0]).len() > 0 {
        Some(trim(p[0]))
    } else {
        first_nonempty(p.drop_first())
    }
}

/// First non-empty `|`-separated cell of a row.
pub open spec fn first_cell_of(row: Seq<char>) -> Option<Seq<char>> {
    first_nonempty(split(row, '|'))
}

/// First non-empty `|`-separated cell of a row (used for tap rows like `x|`).
pub fn first_cell<'a>(row: &'a [char]) -> (r: Option<&'a [char]>)
    ensures
        match r {
            Some(c) => first_cell_of(row@) == Some(c@),
            None => first_cell_of(row@) is None,
        },
{
    let parts = split_exec(row, '|');
    let ghost p = views(parts@);
    let mut i: usize = 0;
    assert(p.skip(0) =~= p);
    while i < parts.len()
        invariant
            i <= parts@.len(),
            p == views(parts@),
            p == split(row@, '|'),
            first_nonempty(p.skip(i as int)) == first_nonempty(p),
        decreases parts.len() - i,
    {
        let t = trim_exec(parts[i]);
        assert(p.skip(i as int)[0] == parts@[i as int]@);
        if t.len() > 0 {
            return Some(t);
        }
        assert(p.skip(i as int).drop_first() =~= p.skip(i + 1));
        i = i + 1;
    }
    assert(p.skip(i as int).len() == 0);
    None
}

/// Number of pieces whose trimmed text is non-empty.
pub open spec fn count_nonempty(p: Seq<Seq<char>>) -> nat
    decreases p.len(),
{
    if p.len() == 0 {
        0
    } else {
        count_nonempty(p.drop_last()) + if trim(p.last()).len() > 0 {
            1nat
        } else {
            0nat
        }
    }
}

/// A trailing tap row: the last of at least two rows, with at most two
/// `|`-cells of which one is non-empty. Gives the number of grid rows and the
/// tap cell.
pub open spec fn tap_split(body: Seq<Seq<char>>) -> (nat, Option<Seq<char>>) {
    if body.len() >= 2 {
        let parts = split(body.last(), '|');
        if parts.len() <= 2 && count_nonempty(parts) >= 1 {
            ((body.len() - 1) as nat, first_cell_of(body.last()))
        } else {
            (body.len(), None)
        }
    } else {
        (body.len(), None)
    }
}

/// Separates a trailing tap row from the grid rows.
pub fn split_tap_row<'a>(body: &[&'a [char]]) -> (r: (usize, Option<&'a [char]>))
    ensures
        r.0 <= body@.len(),
        r.0 == tap_split(views(body@)).0,
        match r.1 {
            Some(c) => tap_split(views(body@)).1 == Some(c@),
            None => tap_split(views(body@)).1 is None,
        },
{
    let ghost b = views(body@);
    if body.len() >= 2 {
        let last = body[body.len() - 1];
        assert(b.last() == last@);
        let parts = split_exec(last, '|');
        let ghost p = views(parts@);
        let mut count: usize = 0;
        let mut i: usize = 0;
        assert(p.take(0) =~= Seq::<Seq<char>>::empty());
        while i < parts.len()
            invariant
                i <= parts@.len(),
                p == views(parts@),
                count == count_nonempty(p.take(i as int)),
                count <= i,
            decreases parts.len() - i,
        {
            let t = trim_exec(parts[i]);
            assert(p.take(i + 1).drop_last() =~= p.take(i as int));
            if t.len() > 0 {
                count = count + 1;
            }
            i = i + 1;
        }
        assert(p.take(parts.len() as int) =~= p);
        if parts.len() <= 2 && count >= 1 {
            return (body.len() - 1, first_cell(last));
        }
    }
    (body.len(), None)
}

/// A tap cell `{name}` that names one of the block's layers.
pub open spec fn self_marker(cell: Seq<char>, names: Seq<Seq<char>>) -> bool {
    &&& cell.len() > 0
    &&& cell[0] == '{'
    &&& cell.last() == '}'
    &&& names.contains(normalize_name(cell))
}

/// True if a tap cell is a `{name}` marker naming one of the block's layers.
pub fn is_self_marker(cell: &[char], names: &[&[char]]) -> (b: bool)
    ensures
        b == self_marker(cell@, views(names@)),
{
    let inner = normalize_layer_name(cell);
    let opens = starts_with_char(cell, '{');
    let closes = ends_with_char(cell, '}');
    if !(opens && closes) {
        return false;
    }
    assert(cell@.len() > 0 && cell@[0] == '{' && cell@.last() == '}');
    let mut i: usize = 0;
    while i < names.len()
        invariant
            i <= names@.len(),
            cell@.len() > 0 && cell@[0] == '{' && cell@.last() == '}',
            inner@ == normalize_name(cell@),
            forall|j: int| 0 <= j < i ==> views(names@)[j] != inner@,
        decreases names.len() - i,
    {
        if same_chars(names[i], inner) {
            assert(views(names@)[i as int] == inner@);
            assert(views(names@).contains(inner@));
            return true;
        }
        i = i + 1;
    }
    false
}

/// Index of the first line from `idx` on that contains `[` (the number of lines if none).
pub open spec fn opener_line(lines: Seq<Seq<char>>, idx: int) -> int
    decreases lines.len() - idx,
{
    if idx >= lines.len() || idx < 0 {
        lines.len() as int
    } else if lines[idx].contains('[') {
        idx
    } else {
        opener_line(lines, idx + 1)
    }
}

/// A line that closes a block: ends with `]` and holds no `|`.
pub open spec fn is_closer(t: Seq<char>) -> bool {
    t.len() > 0 && t.last() == ']' && !t.contains('|')
}

/// Collects body rows from line `k` on until a closing line.
pub open spec fn scan_body(lines: Seq<Seq<char>>, k: int, body: Seq<Seq<char>>) -> (Seq<Seq<char>>, int)
    decreases lines.len() - k,
{
    if k >= lines.len() || k < 0 {
        (body, lines.len() as int)
    } else {
        let t = trim(lines[k]);
        if is_closer(t) {
            let before = trim(trim_end_matches(t, ']'));
            (if before.len() > 0 { body.push(before) } else { body }, k)
        } else {
            scan_body(lines, k + 1, if t.len() > 0 { body.push(t) } else { body })
        }
    }
}

/// The block that starts at the first line from `idx` holding `[`: its body
/// rows and the index of its last line. The opener is split at its first `[`,
/// or at its last one when `from_last`; text after it on the opener line is
/// part of the body, and a `]` on the opener line closes a one-line block.
pub open spec fn block_at(lines: Seq<Seq<char>>, idx: int, from_last: bool) -> Option<(Seq<Seq<char>>, int)> {
    let o = opener_line(lines, idx);
    if o >= lines.len() {
        None
    } else {
        let opener = lines[o];
        let b = if from_last {
            rfind(opener, '[')
        } else {
            find(opener, '[')
        };
        let after = opener.skip(b->0 + 1);
        match rfind(after, ']') {
            Some(close) => {
                let inner = trim(after.take(close));
                Some((if inner.len() > 0 { seq![inner] } else { seq![] }, o))
            },
            None => {
                let t = trim(after);
                Some(scan_body(lines, o + 1, if t.len() > 0 { seq![t] } else { seq![] }))
            },
        }
    }
}

pub proof fn lemma_opener_line(lines: Seq<Seq<char>>, idx: int)
    requires
        0 <= idx,
    ensures
        idx <= opener_line(lines, idx) <= lines.len() || (idx > lines.len() && opener_line(lines, idx) == lines.len()),
        opener_line(lines, idx) < lines.len() ==> lines[opener_line(lines, idx)].contains('['),
        forall|j: int| idx <= j < opener_line(lines, idx) ==> !(#[trigger] lines[j]).contains('['),
    decreases lines.len() - idx,
{
    if idx < lines.len() && !lines[idx].contains('[') {
        lemma_opener_line(lines, idx + 1);
    }
}

pub proof fn lemma_scan_body(lines: Seq<Seq<char>>, k: int, body: Seq<Seq<char>>)
    requires
        0 <= k,
    ensures
        k <= scan_body(lines, k, body).1 <= lines.len() || (k > lines.len() && scan_body(lines, k, body).1 == lines.len()),
    decreases lines.len() - k,
{
    if k < lines.len() {
        let t = trim(lines[k]);
        if !is_closer(t) {
            lemma_scan_body(lines, k + 1, if t.len() > 0 { body.push(t) } else { body });
        }
    }
}

/// A block ends at or after the line it was searched from.
pub proof fn lemma_block_at(lines: Seq<Seq<char>>, idx: int, from_last: bool)
    requires
        0 <= idx < lines.len(),
    ensures
        block_at(lines, idx, from_last) matches Some((body, end)) ==> idx <= end <= lines.len(),
{
    lemma_opener_line(lines, idx);
    let o = opener_line(lines, idx);
    if o < lines.len() {
        lemma_scan_body(lines, o + 1, seq![]);
        let opener = lines[o];
        let after0 = opener.skip(0);
        let t = trim(after0);
        lemma_scan_body(lines, o + 1, seq![t]);
        let b = if from_last {
            rfind(opener, '[')
        } else {
            find(opener, '[')
        };
        let after = opener.skip(b->0 + 1);
        let t2 = trim(after);
        lemma_scan_body(lines, o + 1, seq![t2]);
    }
}

fn opener_exec(lines: &[&[char]], idx: usize) -> (o: usize)
    ensures
        o == opener_line(views(lines@), idx as int),
{
    let ghost l = views(lines@);
    let mut k = idx;
    while k < lines.len()
        invariant
            l == views(lines@),
            idx <= k,
            opener_line(l, k as int) == opener_line(l, idx as int),
        decreases lines.len() - k,
    {
        assert(l[k as int] == lines@[k as int]@);
        if contains_exec(lines[k], '[') {
            return k;
        }
        k = k + 1;
    }
    lines.len()
}

/// Extracts the block starting at the first line from `idx` that holds `[`.
pub fn extract_block<'a>(lines: &[&'a [char]], idx: usize, from_last: bool) -> (r: Option<(Vec<&'a [char]>, usize)>)
    ensures
        match r {
            Some((body, end)) => block_at(views(lines@), idx as int, from_last) == Some((views(body@), end as int)),
            None => block_at(views(lines@), idx as int, from_last) is None,
        },
{
    let ghost l = views(lines@);
    let o = opener_exec(lines, idx);
    if o >= lines.len() {
        return None;
    }
    let opener = lines[o];
    assert(l[o as int] == opener@);
    proof {
        lemma_opener_line(l, idx as int);
        lemma_find(opener@, '[');
        crate::text::lemma_rfind(opener@, '[');
    }
    let b = if from_last {
        match rfind_exec(opener, '[') {
            Some(b) => b,
            None => {
                return None;
            },
        }
    } else {
        match find_exec(opener, '[') {
            Some(b) => b,
            None => {
                return None;
            },
        }
    };
    assert(b < opener.len());
    let after = &opener[b + 1..opener.len()];
    assert(after@ =~= opener@.skip(b + 1));
    let mut body: Vec<&'a [char]> = Vec::new();
    match rfind_exec(after, ']') {
        Some(close) => {
            proof {
                crate::text::lemma_rfind(after@, ']');
            }
            let inner = trim_exec(&after[0..close]);
            assert(after@.subrange(0, close as int) =~= after@.take(close as int));
            if inner.len() > 0 {
                body.push(inner);
            }
            assert(views(body@) =~= (if inner@.len() > 0 { seq![inner@] } else { Seq::<Seq<char>>::empty() }));
            return Some((body, o));
        },
        None => {},
    }
    let t = trim_exec(after);
    if t.len() > 0 {
        body.push(t);
    }
    assert(views(body@) =~= (if t@.len() > 0 { seq![t@] } else { Seq::<Seq<char>>::empty() }));
    assert(block_at(l, idx as int, from_last) == Some(scan_body(l, o + 1, if t@.len() > 0 { seq![t@] } else { seq![] })));
    let mut k = o + 1;
    while k < lines.len()
        invariant
            l == views(lines@),
            o < k <= lines.len(),
            scan_body(l, k as int, views(body@)) == scan_body(l, o + 1, if t@.len() > 0 { seq![t@] } else { seq![] }),
            block_at(l, idx as int, from_last) == Some(scan_body(l, o + 1, if t@.len() > 0 { seq![t@] } else { seq![] })),
        decreases lines.len() - k,
    {
        let line_t = trim_exec(lines[k]);
        assert(l[k as int] == lines@[k as int]@);
        let ghost before = views(body@);
        if ends_with_char(line_t, ']') && !contains_exec(line_t, '|') {
            let inner = trim_exec(trim_end_matches_exec(line_t, ']'));
            if inner.len() > 0 {
                body.push(inner);
                assert(views(body@) =~= before.push(inner@));
            }
            assert(line_t@ == trim(l[k as int]));
            assert(is_closer(line_t@));
            assert(scan_body(l, k as int, before) == (views(body@), k as int));
            return Some((body, k));
        }
        if line_t.len() > 0 {
            body.push(line_t);
            assert(views(body@) =~= before.push(line_t@));
        }
        k = k + 1;
    }
    assert(scan_body(l, k as int, views(body@)) == (views(body@), lines.len() as int));
    Some((body, k))
}


/// A layer name and the same name in braces normalize alike: `{name}` and
/// `name` denote one layer (for names that are not themselves in braces).
pub proof fn law_braced_name(x: Seq<char>)
    requires
        !(trim(x).len() >= 2 && trim(x)[0] == '{' && trim(x).last() == '}'),
    ensures
        normalize_name(seq!['{'] + x + seq!['}']) == normalize_name(x),
        normalize_name(x) == trim(x),
{
    let b = seq!['{'] + x + seq!['}'];
    assert(!is_ws('{') && !is_ws('}'));
    assert(b[0] == '{' && b.last() == '}');
    lemma_trim_fixed(b);
    assert(b.subrange(1, b.len() - 1) =~= x);
    lemma_trim_idempotent(x);
}

} // verus!
