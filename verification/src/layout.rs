//! Layout: compiled mapping plus metadata, and the key orders used to build it.
use vstd::prelude::*;

use crate::keys::{key_ordinal, key_sort, layer_rank, lemma_ordinal_injective, ordinal, KeyCode, KeyboardLayout};
use crate::map::{AssocMap, KeySet, Model};
use crate::output::{InputMode, OutputSeq, Token};

verus! {

/// Identifier of a layout.
pub type LayoutId = String;

/// Physical key to output.
pub type KeyMap = AssocMap<KeyCode, OutputSeq>;

/// Sorted layer-key list to a key map.
pub type LayerMaps = AssocMap<Vec<KeyCode>, KeyMap>;

/// Canonical chord to output.
pub type ChordMap = AssocMap<Vec<KeyCode>, OutputSeq>;

/// How the layer blocks of a layout are activated.
#[derive(Debug, Clone, Copy, PartialEq, Eq, Structural)]
pub enum LayoutMode {
    /// Layer keys are held (sustained) or pressed together with content keys.
    Legacy,
    /// Layer keys are pressed before content keys.
    Sequential,
    /// Layer keys are pressed together with content keys.
    Simultaneous,
    /// Sequential blocks, with parenthesized blocks pressed together.
    Mixed,
}

impl Default for LayoutMode {
    fn default() -> (m: LayoutMode)
        ensures
            m == LayoutMode::Legacy,
    {
        LayoutMode::Legacy
    }
}

/// A compiled layout.
#[derive(Debug, Clone)]
pub struct Layout {
    pub id: LayoutId,
    pub name: String,
    pub mode: LayoutMode,
    pub input_mode: InputMode,
    /// Base (no layers): physical key to output.
    pub single_map: KeyMap,
    /// Held layers: sorted layer keys to (content key to output).
    pub layer_maps: LayerMaps,
    /// Output of a layer key released alone.
    pub layer_taps: KeyMap,
    /// Keys declared as layer keys.
    pub layer_triggers: KeySet,
    /// Chords (canonical key lists) to output.
    pub combos: ChordMap,
    /// Keys that take part in some chord.
    pub combo_keys: KeySet,
    /// Layer keys whose layers are active while held.
    pub sustained_triggers: KeySet,
    /// Prefix layers: layer keys pressed first, to (content key to output).
    pub prefix_maps: LayerMaps,
    /// Keys that start a prefix layer.
    pub prefix_triggers: KeySet,
    /// Simultaneous rules kept for compatibility.
    pub simultaneous: Vec<ComboRule>,
    pub keyboard: KeyboardLayout,
}

/// A simultaneous rule: layer keys together produce an output.
#[derive(Debug, Clone)]
pub struct ComboRule {
    pub layers: Vec<KeyCode>,
    pub output: OutputSeq,
}

/// Tap output of a layer key.
#[derive(Debug, Clone)]
pub struct LayerTap {
    pub layer_key: KeyCode,
    pub tap_output: OutputSeq,
}

impl Model for ComboRule {
    type M = (Seq<KeyCode>, Seq<Token>);

    open spec fn model(&self) -> (Seq<KeyCode>, Seq<Token>) {
        (self.layers@, self.output.model())
    }
}

/// The mathematical value of a [`Layout`].
pub struct LayoutView {
    pub id: Seq<char>,
    pub name: Seq<char>,
    pub mode: LayoutMode,
    pub input_mode: InputMode,
    pub single_map: Map<KeyCode, Seq<Token>>,
    pub layer_maps: Map<Seq<KeyCode>, Map<KeyCode, Seq<Token>>>,
    pub layer_taps: Map<KeyCode, Seq<Token>>,
    pub layer_triggers: Set<KeyCode>,
    pub combos: Map<Seq<KeyCode>, Seq<Token>>,
    pub combo_keys: Set<KeyCode>,
    pub sustained_triggers: Set<KeyCode>,
    pub prefix_maps: Map<Seq<KeyCode>, Map<KeyCode, Seq<Token>>>,
    pub prefix_triggers: Set<KeyCode>,
    pub simultaneous: Seq<(Seq<KeyCode>, Seq<Token>)>,
    pub keyboard: KeyboardLayout,
}

impl Model for Layout {
    type M = LayoutView;

    open spec fn model(&self) -> LayoutView {
        LayoutView {
            id: self.id@,
            name: self.name@,
            mode: self.mode,
            input_mode: self.input_mode,
            single_map: self.single_map.model(),
            layer_maps: self.layer_maps.model(),
            layer_taps: self.layer_taps.model(),
            layer_triggers: self.layer_triggers.model(),
            combos: self.combos.model(),
            combo_keys: self.combo_keys.model(),
            sustained_triggers: self.sustained_triggers.model(),
            prefix_maps: self.prefix_maps.model(),
            prefix_triggers: self.prefix_triggers.model(),
            simultaneous: Seq::new(self.simultaneous@.len(), |i: int| self.simultaneous@[i].model()),
            keyboard: self.keyboard,
        }
    }
}

impl Default for Layout {
    /// An empty layout with empty id and name, on a JIS keyboard.
    fn default() -> (l: Layout)
        ensures
            l.model() == (LayoutView {
                id: Seq::empty(),
                name: Seq::empty(),
                mode: LayoutMode::Legacy,
                input_mode: InputMode::Direct,
                single_map: Map::empty(),
                layer_maps: Map::empty(),
                layer_taps: Map::empty(),
                layer_triggers: Set::empty(),
                combos: Map::empty(),
                combo_keys: Set::empty(),
                sustained_triggers: Set::empty(),
                prefix_maps: Map::empty(),
                prefix_triggers: Set::empty(),
                simultaneous: Seq::empty(),
                keyboard: KeyboardLayout::Jis,
            }),
    {
        let l = Layout {
            id: String::new(),
            name: String::new(),
            mode: LayoutMode::Legacy,
            input_mode: InputMode::Direct,
            single_map: AssocMap::new(),
            layer_maps: AssocMap::new(),
            layer_taps: AssocMap::new(),
            layer_triggers: KeySet::new(),
            combos: AssocMap::new(),
            combo_keys: KeySet::new(),
            sustained_triggers: KeySet::new(),
            prefix_maps: AssocMap::new(),
            prefix_triggers: KeySet::new(),
            simultaneous: Vec::new(),
            keyboard: KeyboardLayout::Jis,
        };
        assert(l.model().simultaneous =~= Seq::<(Seq<KeyCode>, Seq<Token>)>::empty());
        l
    }
}

impl Layout {
    /// Whether `k` is declared as a layer key.
    pub fn is_layer_trigger(&self, k: KeyCode) -> (b: bool)
        ensures
            b == self.model().layer_triggers.contains(k),
    {
        self.layer_triggers.contains(k)
    }
}

/// The orders in which key lists are sorted.
#[derive(Debug, Clone, Copy, PartialEq, Eq, Structural)]
pub enum KeyOrder {
    /// By [`layer_rank`], for lists of layer keys.
    Layer,
    /// By [`key_ordinal`], for chords.
    Canonical,
}

pub open spec fn rank(o: KeyOrder, k: KeyCode) -> int {
    match o {
        KeyOrder::Layer => layer_rank(k),
        KeyOrder::Canonical => key_ordinal(k),
    }
}

fn rank_exec(o: KeyOrder, k: KeyCode) -> (r: u64)
    ensures
        r == rank(o, k),
{
    match o {
        KeyOrder::Layer => key_sort(k) as u64,
        KeyOrder::Canonical => ordinal(k),
    }
}

/// `x` inserted into `s` after every element whose rank is at most its own.
pub open spec fn insert_ranked(s: Seq<KeyCode>, x: KeyCode, o: KeyOrder) -> Seq<KeyCode>
    decreases s.len(),
{
    if s.len() == 0 {
        seq![x]
    } else if rank(o, s.last()) <= rank(o, x) {
        s.push(x)
    } else {
        insert_ranked(s.drop_last(), x, o).push(s.last())
    }
}

/// Stable sort by rank.
pub open spec fn sort_ranked(s: Seq<KeyCode>, o: KeyOrder) -> Seq<KeyCode>
    decreases s.len(),
{
    if s.len() == 0 {
        s
    } else {
        insert_ranked(sort_ranked(s.drop_last(), o), s.last(), o)
    }
}

/// Runs of equal adjacent elements collapsed to one (`Vec::dedup`).
pub open spec fn dedup(s: Seq<KeyCode>) -> Seq<KeyCode>
    decreases s.len(),
{
    if s.len() <= 1 {
        s
    } else if s.last() == s[s.len() - 2] {
        dedup(s.drop_last())
    } else {
        dedup(s.drop_last()).push(s.last())
    }
}

/// The canonical form of a chord: sorted by ordinal, without repeats.
pub open spec fn canon_chord(s: Seq<KeyCode>) -> Seq<KeyCode> {
    dedup(sort_ranked(s, KeyOrder::Canonical))
}

proof fn lemma_insert_ranked_at(s: Seq<KeyCode>, x: KeyCode, o: KeyOrder, j: int)
    requires
        0 <= j <= s.len(),
        j == 0 || rank(o, s[j - 1]) <= rank(o, x),
        forall|k: int| j <= k < s.len() ==> rank(o, #[trigger] s[k]) > rank(o, x),
    ensures
        insert_ranked(s, x, o) == s.take(j).push(x) + s.skip(j),
    decreases s.len(),
{
    if s.len() == 0 {
        assert(s.take(j).push(x) + s.skip(j) =~= seq![x]);
    } else if rank(o, s.last()) <= rank(o, x) {
        assert(j == s.len());
        assert(s.take(j).push(x) + s.skip(j) =~= s.push(x));
    } else {
        let t = s.drop_last();
        lemma_insert_ranked_at(t, x, o, j);
        assert(t.take(j).push(x) + t.skip(j) + seq![s.last()] =~= s.take(j).push(x) + s.skip(j));
        assert((t.take(j).push(x) + t.skip(j)).push(s.last()) =~= t.take(j).push(x) + t.skip(j)
            + seq![s.last()]);
    }
}

/// Sorts `v` stably by the rank of `o`.
pub fn sort_keys(v: &Vec<KeyCode>, o: KeyOrder) -> (r: Vec<KeyCode>)
    ensures
        r@ == sort_ranked(v@, o),
{
    let mut out: Vec<KeyCode> = Vec::new();
    let mut i: usize = 0;
    assert(v@.take(0) =~= Seq::<KeyCode>::empty());
    while i < v.len()
        invariant
            i <= v.len(),
            out@ == sort_ranked(v@.take(i as int), o),
        decreases v.len() - i,
    {
        let x = v[i];
        let rx = rank_exec(o, x);
        let mut j: usize = out.len();
        while j > 0 && rank_exec(o, out[j - 1]) > rx
            invariant
                j <= out@.len(),
                rx == rank(o, x),
                forall|k: int| j <= k < out@.len() ==> rank(o, #[trigger] out@[k]) > rank(o, x),
            decreases j,
        {
            j = j - 1;
        }
        proof {
            lemma_insert_ranked_at(out@, x, o, j as int);
            assert(v@.take(i + 1).drop_last() =~= v@.take(i as int));
        }
        let ghost before = out@;
        out.insert(j, x);
        assert(out@ =~= before.take(j as int).push(x) + before.skip(j as int));
        i = i + 1;
    }
    assert(v@.take(v.len() as int) =~= v@);
    out
}

proof fn lemma_dedup_last(s: Seq<KeyCode>)
    requires
        s.len() > 0,
    ensures
        dedup(s).len() > 0,
        dedup(s).last() == s.last(),
    decreases s.len(),
{
    if s.len() > 1 {
        lemma_dedup_last(s.drop_last());
    }
}

/// Collapses runs of equal adjacent keys.
pub fn dedup_keys(v: &Vec<KeyCode>) -> (r: Vec<KeyCode>)
    ensures
        r@ == dedup(v@),
{
    let mut out: Vec<KeyCode> = Vec::new();
    let mut i: usize = 0;
    assert(v@.take(0) =~= Seq::<KeyCode>::empty());
    while i < v.len()
        invariant
            i <= v.len(),
            out@ == dedup(v@.take(i as int)),
            i > 0 ==> out@.len() > 0 && out@.last() == v@[i - 1],
            i == 0 ==> out@.len() == 0,
        decreases v.len() - i,
    {
        let x = v[i];
        let ghost t = v@.take(i + 1);
        assert(t.drop_last() =~= v@.take(i as int));
        if i > 0 && out[out.len() - 1] == x {
            assert(t[t.len() - 2] == v@[i - 1]);
        } else {
            if i == 0 {
                assert(t =~= seq![x]);
            }
            out.push(x);
        }
        i = i + 1;
        proof {
            lemma_dedup_last(v@.take(i as int));
        }
    }
    assert(v@.take(v.len() as int) =~= v@);
    out
}

/// Puts a chord into canonical form: sorted by key ordinal, without repeats.
pub fn canon_sort(chord: &mut Vec<KeyCode>)
    ensures
        final(chord)@ == canon_chord(old(chord)@),
{
    let sorted = sort_keys(chord, KeyOrder::Canonical);
    *chord = dedup_keys(&sorted);
}


/// Ordered by rank.
pub open spec fn ranked(s: Seq<KeyCode>, o: KeyOrder) -> bool {
    forall|i: int, j: int| 0 <= i < j < s.len() ==> rank(o, #[trigger] s[i]) <= rank(o, #[trigger] s[j])
}

/// Strictly increasing by key ordinal.
pub open spec fn strictly_canonical(s: Seq<KeyCode>) -> bool {
    forall|i: int, j: int| 0 <= i < j < s.len() ==> key_ordinal(#[trigger] s[i]) < key_ordinal(#[trigger] s[j])
}

proof fn lemma_insert_ranked_bound(s: Seq<KeyCode>, x: KeyCode, o: KeyOrder, m: int)
    requires
        rank(o, x) <= m,
        forall|i: int| 0 <= i < s.len() ==> rank(o, #[trigger] s[i]) <= m,
    ensures
        forall|i: int| 0 <= i < insert_ranked(s, x, o).len() ==> rank(o, #[trigger] insert_ranked(s, x, o)[i]) <= m,
    decreases s.len(),
{
    if s.len() > 0 && rank(o, s.last()) > rank(o, x) {
        let t = s.drop_last();
        assert forall|i: int| 0 <= i < t.len() implies rank(o, #[trigger] t[i]) <= m by {
            assert(t[i] == s[i]);
        }
        lemma_insert_ranked_bound(t, x, o, m);
        let r = insert_ranked(t, x, o);
        assert forall|i: int| 0 <= i < r.push(s.last()).len() implies rank(o, #[trigger] r.push(s.last())[i]) <= m by {
            if i < r.len() {
                assert(r.push(s.last())[i] == r[i]);
            }
        }
    } else if s.len() > 0 {
        assert forall|i: int| 0 <= i < s.push(x).len() implies rank(o, #[trigger] s.push(x)[i]) <= m by {
            if i < s.len() {
                assert(s.push(x)[i] == s[i]);
            }
        }
    }
}

proof fn lemma_insert_ranked(s: Seq<KeyCode>, x: KeyCode, o: KeyOrder)
    ensures
        insert_ranked(s, x, o).to_multiset() == s.to_multiset().insert(x),
        insert_ranked(s, x, o).to_set() == s.to_set().insert(x),
        ranked(s, o) ==> ranked(insert_ranked(s, x, o), o),
    decreases s.len(),
{
    broadcast use vstd::seq_lib::to_multiset_build, vstd::multiset::group_multiset_axioms;

    if s.len() == 0 {
        assert(s =~= Seq::<KeyCode>::empty());
        assert(seq![x] =~= Seq::<KeyCode>::empty().push(x));
        Seq::<KeyCode>::empty().lemma_push_to_set_commute(x);
    } else if rank(o, s.last()) <= rank(o, x) {
        s.lemma_push_to_set_commute(x);
    } else {
        let t = s.drop_last();
        lemma_insert_ranked(t, x, o);
        let r = insert_ranked(t, x, o);
        assert(t.push(s.last()) =~= s);
        r.lemma_push_to_set_commute(s.last());
        t.lemma_push_to_set_commute(s.last());
        assert(r.push(s.last()).to_multiset() =~= s.to_multiset().insert(x));
        assert(r.push(s.last()).to_set() =~= s.to_set().insert(x));
        if ranked(s, o) {
            assert forall|i: int| 0 <= i < t.len() implies rank(o, #[trigger] t[i]) <= rank(o, s.last()) by {
                assert(s[i] == t[i]);
            }
            lemma_insert_ranked_bound(t, x, o, rank(o, s.last()));
            assert(ranked(t, o));
        }
    }
}

/// Sorting by a rank keeps the keys and orders them by the rank.
pub proof fn law_sort_ranked(s: Seq<KeyCode>, o: KeyOrder)
    ensures
        sort_ranked(s, o).to_multiset() == s.to_multiset(),
        sort_ranked(s, o).to_set() == s.to_set(),
        ranked(sort_ranked(s, o), o),
    decreases s.len(),
{
    broadcast use vstd::seq_lib::to_multiset_build;

    if s.len() > 0 {
        let t = s.drop_last();
        law_sort_ranked(t, o);
        lemma_insert_ranked(sort_ranked(t, o), s.last(), o);
        assert(t.push(s.last()) =~= s);
        t.lemma_push_to_set_commute(s.last());
    }
}

proof fn lemma_dedup(s: Seq<KeyCode>)
    requires
        ranked(s, KeyOrder::Canonical),
    ensures
        dedup(s).to_set() == s.to_set(),
        strictly_canonical(dedup(s)),
    decreases s.len(),
{
    if s.len() <= 1 {
    } else {
        let t = s.drop_last();
        assert(t.push(s.last()) =~= s);
        assert(ranked(t, KeyOrder::Canonical));
        lemma_dedup(t);
        lemma_dedup_last(t);
        t.lemma_push_to_set_commute(s.last());
        if s.last() == s[s.len() - 2] {
            assert(t.contains(s.last()));
            assert(t.to_set().insert(s.last()) =~= t.to_set());
        } else {
            let d = dedup(t);
            d.lemma_push_to_set_commute(s.last());
            assert(key_ordinal(s[s.len() - 2]) <= key_ordinal(s.last()));
            lemma_ordinal_injective(s[s.len() - 2], s.last());
            assert forall|i: int, j: int| 0 <= i < j < d.push(s.last()).len() implies key_ordinal(
                #[trigger] d.push(s.last())[i],
            ) < key_ordinal(#[trigger] d.push(s.last())[j]) by {
                if j == d.len() {
                    if i < d.len() - 1 {
                        assert(key_ordinal(d[i]) < key_ordinal(d[d.len() - 1]));
                    }
                }
            }
        }
    }
}

proof fn lemma_canonical_unique(a: Seq<KeyCode>, b: Seq<KeyCode>)
    requires
        strictly_canonical(a),
        strictly_canonical(b),
        a.to_set() == b.to_set(),
    ensures
        a == b,
    decreases a.len(),
{
    if a.len() == 0 {
        if b.len() > 0 {
            assert(b.to_set().contains(b[0]));
        }
        assert(a =~= b);
    } else {
        if b.len() == 0 {
            assert(a.to_set().contains(a[0]));
        }
        let la = a.last();
        let lb = b.last();
        assert(b.to_set().contains(la));
        assert(a.to_set().contains(lb));
        let ia = choose|i: int| 0 <= i < b.len() && b[i] == la;
        let ib = choose|i: int| 0 <= i < a.len() && a[i] == lb;
        assert(key_ordinal(la) <= key_ordinal(lb)) by {
            if ia < b.len() - 1 {
                assert(key_ordinal(b[ia]) < key_ordinal(b[b.len() - 1]));
            }
        }
        assert(key_ordinal(lb) <= key_ordinal(la)) by {
            if ib < a.len() - 1 {
                assert(key_ordinal(a[ib]) < key_ordinal(a[a.len() - 1]));
            }
        }
        lemma_ordinal_injective(la, lb);
        let ta = a.drop_last();
        let tb = b.drop_last();
        assert forall|k: KeyCode| ta.to_set().contains(k) <==> tb.to_set().contains(k) by {
            if ta.to_set().contains(k) {
                let i = choose|i: int| 0 <= i < ta.len() && ta[i] == k;
                assert(a[i] == k);
                assert(key_ordinal(k) < key_ordinal(la));
                assert(a.to_set().contains(k));
                let j = choose|j: int| 0 <= j < b.len() && b[j] == k;
                assert(j != b.len() - 1);
                assert(tb[j] == k);
            }
            if tb.to_set().contains(k) {
                let i = choose|i: int| 0 <= i < tb.len() && tb[i] == k;
                assert(b[i] == k);
                assert(key_ordinal(k) < key_ordinal(lb));
                assert(b.to_set().contains(k));
                let j = choose|j: int| 0 <= j < a.len() && a[j] == k;
                assert(j != a.len() - 1);
                assert(ta[j] == k);
            }
        }
        assert(ta.to_set() =~= tb.to_set());
        lemma_canonical_unique(ta, tb);
        assert(a =~= ta.push(la));
        assert(b =~= tb.push(lb));
    }
}

/// A canonical chord holds exactly the keys of the chord, strictly ordered by
/// ordinal; chords with the same keys, in any order and with any repeats,
/// have the same canonical form.
pub proof fn law_canon_chord(s: Seq<KeyCode>, t: Seq<KeyCode>)
    ensures
        canon_chord(s).to_set() == s.to_set(),
        strictly_canonical(canon_chord(s)),
        s.to_set() == t.to_set() ==> canon_chord(s) == canon_chord(t),
{
    law_sort_ranked(s, KeyOrder::Canonical);
    lemma_dedup(sort_ranked(s, KeyOrder::Canonical));
    law_sort_ranked(t, KeyOrder::Canonical);
    lemma_dedup(sort_ranked(t, KeyOrder::Canonical));
    if s.to_set() == t.to_set() {
        lemma_canonical_unique(canon_chord(s), canon_chord(t));
    }
}

} // verus!
