//! Layers: solid-colour fills and the per-entry control state that the layer
//! stack keeps for each layer.
//!
//! Layers are pure drawing primitives; per-layer state that the backend
//! tweaks at runtime (visibility, z-override, custom name) lives in
//! [`EntryControls`], not on the layer.

use vstd::prelude::*;
use crate::text::{count_char, decimal_text, lemma_count_char_absent, lemma_count_char_concat, lemma_decimal_text_is_digits, push_decimal_text};

verus! {

/// A unique handle for a layer inside a layer stack. Ids are assigned when a
/// layer is pushed, stay stable until the entry is removed, and are not
/// reused within the lifetime of a stack.
pub type LayerId = usize;

/// What a [`SolidColor`] holds.
pub struct SolidColorView {
    pub color: [u8; 4],
    pub z: u32,
    pub name: Seq<char>,
}

/// A solid-colour layer: fills the entire target framebuffer with one RGBA
/// colour, alpha-blended using the layer's effective opacity.
#[derive(Debug, Clone, PartialEq, Eq)]
pub struct SolidColor {
    /// `[R, G, B, A]` in `0..=255` per channel.
    pub color: [u8; 4],
    z: u32,
    name: String,
}

impl View for SolidColor {
    type V = SolidColorView;

    closed spec fn view(&self) -> SolidColorView {
        SolidColorView { color: self.color, z: self.z, name: self.name@ }
    }
}

/// The name a new solid-colour layer gets:
/// `SolidColor(r=<r>, g=<g>, b=<b>, a=<a>)`.
pub open spec fn default_name(r: u8, g: u8, b: u8, a: u8) -> Seq<char> {
    "SolidColor(r="@ + decimal_text(r as nat) + ", g="@ + decimal_text(g as nat) + ", b="@
        + decimal_text(b as nat) + ", a="@ + decimal_text(a as nat) + ")"@
}

/// Fields `label=value`, the value in decimal, separated by `, `.
pub open spec fn labelled_fields(fields: Seq<(char, u8)>) -> Seq<char>
    decreases fields.len(),
{
    if fields.len() == 0 {
        Seq::empty()
    } else if fields.len() == 1 {
        seq![fields[0].0, '='] + decimal_text(fields[0].1 as nat)
    } else {
        labelled_fields(fields.drop_last()) + seq![',', ' ', fields.last().0, '=']
            + decimal_text(fields.last().1 as nat)
    }
}

/// Each field brings exactly one `=` when no label is one.
proof fn lemma_labelled_fields_equals(fields: Seq<(char, u8)>)
    requires
        forall|i: int| 0 <= i < fields.len() ==> (#[trigger] fields[i]).0 != '=',
    ensures
        count_char(labelled_fields(fields), '=') == fields.len(),
    decreases fields.len(),
{
    reveal_with_fuel(count_char, 3);
    if fields.len() == 1 {
        let f = fields[0];
        lemma_decimal_text_is_digits(f.1 as nat);
        lemma_count_char_concat(seq![f.0, '='], decimal_text(f.1 as nat), '=');
        assert(seq![f.0, '='].drop_last() =~= seq![f.0]);
        assert(seq![f.0].drop_last() =~= Seq::<char>::empty());
    } else if fields.len() > 1 {
        let init = fields.drop_last();
        let f = fields.last();
        assert forall|i: int| 0 <= i < init.len() implies (#[trigger] init[i]).0 != '=' by {
            assert(init[i] == fields[i]);
        }
        lemma_labelled_fields_equals(init);
        lemma_decimal_text_is_digits(f.1 as nat);
        let sep = seq![',', ' ', f.0, '='];
        reveal_with_fuel(count_char, 5);
        assert(sep.drop_last() =~= seq![',', ' ', f.0]);
        assert(sep.drop_last().drop_last() =~= seq![',', ' ']);
        assert(sep.drop_last().drop_last().drop_last() =~= seq![',']);
        assert(sep.drop_last().drop_last().drop_last().drop_last() =~= Seq::<char>::empty());
        lemma_count_char_concat(labelled_fields(init), sep, '=');
        lemma_count_char_concat(labelled_fields(init) + sep, decimal_text(f.1 as nat), '=');
    }
}

/// The default name of a solid-colour layer lists all four channels, in the
/// order red, green, blue, alpha, as `r=<r>, g=<g>, b=<b>, a=<a>` inside
/// `SolidColor(` and `)`, whatever the values (full alpha included): it holds
/// exactly four `=` and ends with `, a=<a>)`.
pub proof fn lemma_default_name_lists_every_channel(r: u8, g: u8, b: u8, a: u8)
    ensures
        default_name(r, g, b, a) == seq!['S', 'o', 'l', 'i', 'd', 'C', 'o', 'l', 'o', 'r', '(']
            + labelled_fields(seq![('r', r), ('g', g), ('b', b), ('a', a)]) + seq![')'],
        count_char(default_name(r, g, b, a), '=') == 4,
        (seq![',', ' ', 'a', '='] + decimal_text(a as nat) + seq![')']).is_suffix_of(default_name(r, g, b, a)),
{
    let fs = seq![('r', r), ('g', g), ('b', b), ('a', a)];
    let head = seq!['S', 'o', 'l', 'i', 'd', 'C', 'o', 'l', 'o', 'r', '('];
    let name = default_name(r, g, b, a);
    assert(name =~= head + labelled_fields(fs) + seq![')']) by {
        reveal_strlit("SolidColor(r=");
        reveal_strlit(", g=");
        reveal_strlit(", b=");
        reveal_strlit(", a=");
        reveal_strlit(")");
        reveal_with_fuel(labelled_fields, 4);
        assert(fs.drop_last() =~= seq![('r', r), ('g', g), ('b', b)]);
        assert(fs.drop_last().drop_last() =~= seq![('r', r), ('g', g)]);
        assert(fs.drop_last().drop_last().drop_last() =~= seq![('r', r)]);
    }
    assert(count_char(labelled_fields(fs), '=') == 4) by {
        assert forall|i: int| 0 <= i < fs.len() implies (#[trigger] fs[i]).0 != '=' by {}
        lemma_labelled_fields_equals(fs);
    }
    assert(count_char(head, '=') == 0) by {
        lemma_count_char_absent(head, '=');
    }
    assert(count_char(seq![')'], '=') == 0) by {
        lemma_count_char_absent(seq![')'], '=');
    }
    lemma_count_char_concat(head, labelled_fields(fs), '=');
    lemma_count_char_concat(head + labelled_fields(fs), seq![')'], '=');
    assert(seq![',', ' ', 'a', '='] + decimal_text(a as nat) + seq![')'] =~= name.subrange(
        name.len() - (decimal_text(a as nat).len() + 5),
        name.len() as int,
    )) by {
        reveal_with_fuel(labelled_fields, 4);
        assert(fs.drop_last() =~= seq![('r', r), ('g', g), ('b', b)]);
        assert(fs.last() == ('a', a));
    }
}

impl SolidColor {
    /// Creates a new solid-colour layer with the given RGBA channels, at
    /// z-order 0, named after its channels.
    pub fn new(r: u8, g: u8, b: u8, a: u8) -> (s: SolidColor)
        ensures
            s@.color == [r, g, b, a],
            s@.z == 0,
            s@.name == default_name(r, g, b, a),
    {
        let mut name = String::from_str("SolidColor(r=");
        push_decimal_text(&mut name, r as u32);
        name.append(", g=");
        push_decimal_text(&mut name, g as u32);
        name.append(", b=");
        push_decimal_text(&mut name, b as u32);
        name.append(", a=");
        push_decimal_text(&mut name, a as u32);
        name.append(")");
        SolidColor { color: [r, g, b, a], z: 0, name }
    }

    /// Builder: sets the default z-order. An entry's z-override, if any,
    /// wins over it.
    pub fn with_z(self, z: u32) -> (s: SolidColor)
        ensures
            s@ == (SolidColorView { z, ..self@ }),
    {
        let mut s = self;
        s.z = z;
        s
    }

    /// Builder: sets a human-readable name.
    pub fn with_name(self, name: &str) -> (s: SolidColor)
        ensures
            s@ == (SolidColorView { name: name@, ..self@ }),
    {
        let mut s = self;
        s.name = String::from_str(name);
        s
    }

    /// The layer's colour, `[R, G, B, A]`.
    pub fn color(&self) -> (c: [u8; 4])
        ensures
            c == self@.color,
    {
        self.color
    }

    /// The default z-order of this layer. Higher values are drawn later (on
    /// top).
    pub fn z_order(&self) -> (z: u32)
        ensures
            z == self@.z,
    {
        self.z
    }

    /// The layer's human-readable name.
    pub fn name(&self) -> (n: &str)
        ensures
            n@ == self@.name,
    {
        self.name.as_str()
    }
}

/// What an [`EntryControls`] holds.
pub struct EntryView {
    pub id: LayerId,
    pub visible: bool,
    pub z_override: Option<u32>,
    pub name: Option<Seq<char>>,
}

/// The z-order an entry is composited at: its override if set, otherwise its
/// layer's default `layer_z`.
pub open spec fn effective_z(e: EntryView, layer_z: u32) -> u32 {
    match e.z_override {
        Some(z) => z,
        None => layer_z,
    }
}

/// The name an entry shows: its custom name if set, otherwise its layer's
/// name `layer_name`.
pub open spec fn entry_name(e: EntryView, layer_name: Seq<char>) -> Seq<char> {
    match e.name {
        Some(n) => n,
        None => layer_name,
    }
}

/// The control state that a layer stack keeps for one layer besides its
/// opacity: the entry's id, its visibility, an optional z-order override and
/// an optional custom name.
#[derive(Debug, Clone, PartialEq, Eq)]
pub struct EntryControls {
    id: LayerId,
    visible: bool,
    z_override: Option<u32>,
    name: Option<String>,
}

impl View for EntryControls {
    type V = EntryView;

    closed spec fn view(&self) -> EntryView {
        EntryView {
            id: self.id,
            visible: self.visible,
            z_override: self.z_override,
            name: match self.name {
                Some(n) => Some(n@),
                None => None,
            },
        }
    }
}

impl EntryControls {
    /// The controls of a new entry with the given `id`: visible, with no
    /// z-override and no custom name.
    pub fn new(id: LayerId) -> (c: EntryControls)
        ensures
            c@ == (EntryView { id, visible: true, z_override: None, name: None }),
    {
        EntryControls { id, visible: true, z_override: None, name: None }
    }

    /// Returns the entry's id.
    pub fn id(&self) -> (id: LayerId)
        ensures
            id == self@.id,
    {
        self.id
    }

    /// Returns whether the entry is currently visible.
    pub fn is_visible(&self) -> (v: bool)
        ensures
            v == self@.visible,
    {
        self.visible
    }

    /// Toggles the entry's visibility. Invisible entries are skipped by the
    /// compositor.
    pub fn set_visible(&mut self, visible: bool)
        ensures
            final(self)@ == (EntryView { visible, ..old(self)@ }),
    {
        self.visible = visible;
    }

    /// Returns the effective z-order used by the compositor: the override if
    /// set, otherwise `layer_z`, the layer's default.
    pub fn effective_z(&self, layer_z: u32) -> (z: u32)
        ensures
            z == effective_z(self@, layer_z),
    {
        match self.z_override {
            Some(z) => z,
            None => layer_z,
        }
    }

    /// Returns the entry's z-order override, if any.
    pub fn z_override(&self) -> (z: Option<u32>)
        ensures
            z == self@.z_override,
    {
        self.z_override
    }

    /// Sets an explicit z-order override, replacing any previous override.
    pub fn set_z_override(&mut self, z: u32)
        ensures
            final(self)@ == (EntryView { z_override: Some(z), ..old(self)@ }),
    {
        self.z_override = Some(z);
    }

    /// Clears any z-order override; [`EntryControls::effective_z`] falls back
    /// to the layer's default.
    pub fn clear_z_override(&mut self)
        ensures
            final(self)@ == (EntryView { z_override: None, ..old(self)@ }),
    {
        self.z_override = None;
    }

    /// Returns the entry's name: the custom name if set, otherwise
    /// `layer_name`, the layer's own.
    pub fn name<'a>(&'a self, layer_name: &'a str) -> (n: &'a str)
        ensures
            n@ == entry_name(self@, layer_name@),
    {
        match &self.name {
            Some(n) => n.as_str(),
            None => layer_name,
        }
    }

    /// Sets a custom name for this entry.
    pub fn set_name(&mut self, name: &str)
        ensures
            final(self)@ == (EntryView { name: Some(name@), ..old(self)@ }),
    {
        self.name = Some(String::from_str(name));
    }
}

/// With entries described by `keys` in stack order (each entry's visibility
/// and effective z-order), entry `a` is drawn before entry `b`: it has the
/// lower effective z-order, or the same one and an earlier stack position.
pub open spec fn drawn_before(keys: Seq<(bool, u32)>, a: int, b: int) -> bool {
    keys[a].1 < keys[b].1 || (keys[a].1 == keys[b].1 && a < b)
}

/// `order` lists exactly the visible entries of `keys`, each once, in the
/// order they are drawn: higher z-orders later (on top), ties by stack
/// position.
pub open spec fn is_draw_order(keys: Seq<(bool, u32)>, order: Seq<usize>) -> bool {
    &&& forall|i: int| 0 <= i < order.len() ==> (#[trigger] order[i]) < keys.len() && keys[order[i] as int].0
    &&& forall|k: int| 0 <= k < keys.len() && (#[trigger] keys[k]).0 ==> order.contains(k as usize)
    &&& forall|i: int, j: int|
        0 <= i < j < order.len() ==> drawn_before(keys, #[trigger] order[i] as int, #[trigger] order[j] as int)
}

/// The order in which a compositor draws the entries of a stack: the
/// indices of the visible entries of `keys` (visibility and effective
/// z-order of each entry, in stack order), lowest z-order first, ties
/// resolved by stack insertion order.
pub fn draw_order(keys: &[(bool, u32)]) -> (order: Vec<usize>)
    ensures
        is_draw_order(keys@, order@),
{
    let mut order: Vec<usize> = Vec::new();
    let n = keys.len();
    let mut k: usize = 0;
    while k < n
        invariant
            k <= n,
            n == keys@.len(),
            forall|i: int| 0 <= i < order@.len() ==> (#[trigger] order@[i]) < k && keys@[order@[i] as int].0,
            forall|m: int| 0 <= m < k && (#[trigger] keys@[m]).0 ==> order@.contains(m as usize),
            forall|i: int, j: int|
                0 <= i < j < order@.len() ==> drawn_before(keys@, #[trigger] order@[i] as int, #[trigger] order@[j] as int),
        decreases n - k,
    {
        let (visible, z) = keys[k];
        if visible {
            let mut p: usize = 0;
            while p < order.len()
                invariant
                    p <= order@.len(),
                    forall|i: int| 0 <= i < order@.len() ==> (#[trigger] order@[i]) < keys@.len(),
                    forall|i: int| 0 <= i < p ==> keys@[(#[trigger] order@[i]) as int].1 <= z,
                ensures
                    p <= order@.len(),
                    forall|i: int| 0 <= i < p ==> keys@[(#[trigger] order@[i]) as int].1 <= z,
                    p < order@.len() ==> keys@[order@[p as int] as int].1 > z,
                decreases order@.len() - p,
            {
                if keys[order[p]].1 > z {
                    break;
                }
                p = p + 1;
            }
            let ghost old_order = order@;
            assert(forall|j: int| p <= j < old_order.len() ==> keys@[(#[trigger] old_order[j]) as int].1 > z) by {
                if p < old_order.len() {
                    assert forall|j: int| p <= j < old_order.len() implies keys@[(#[trigger] old_order[j]) as int].1 > z by {
                        if j > p {
                            assert(drawn_before(keys@, old_order[p as int] as int, old_order[j] as int));
                        }
                    }
                }
            }
            order.insert(p, k);
            proof {
                let new_order = order@;
                assert(new_order == old_order.insert(p as int, k));
                assert forall|i: int, j: int|
                    0 <= i < j < new_order.len() implies drawn_before(keys@, #[trigger] new_order[i] as int, #[trigger] new_order[j] as int) by {
                    if i < p && j < p {
                        assert(new_order[i] == old_order[i] && new_order[j] == old_order[j]);
                    } else if i < p && j == p {
                        assert(new_order[i] == old_order[i]);
                    } else if i < p && j > p {
                        assert(new_order[i] == old_order[i] && new_order[j] == old_order[j - 1]);
                    } else if i == p {
                        assert(new_order[j] == old_order[j - 1]);
                    } else {
                        assert(new_order[i] == old_order[i - 1] && new_order[j] == old_order[j - 1]);
                    }
                }
                assert forall|m: int| 0 <= m < k + 1 && (#[trigger] keys@[m]).0 implies new_order.contains(m as usize) by {
                    if m == k {
                        assert(new_order[p as int] == k);
                    } else {
                        assert(old_order.contains(m as usize));
                        let w = choose|w: int| 0 <= w < old_order.len() && old_order[w] == m as usize;
                        if w < p {
                            assert(new_order[w] == m as usize);
                        } else {
                            assert(new_order[w + 1] == m as usize);
                        }
                    }
                }
                assert forall|i: int| 0 <= i < new_order.len() implies (#[trigger] new_order[i]) < k + 1 && keys@[new_order[i] as int].0 by {
                    if i < p {
                        assert(new_order[i] == old_order[i]);
                    } else if i > p {
                        assert(new_order[i] == old_order[i - 1]);
                    }
                }
            }
        }
        k = k + 1;
    }
    order
}

/// In a draw order, z-orders never decrease, and entries with the same
/// z-order come in stack order.
pub proof fn lemma_draw_order_sorted(keys: Seq<(bool, u32)>, order: Seq<usize>)
    requires
        is_draw_order(keys, order),
    ensures
        forall|i: int, j: int|
            0 <= i < j < order.len() ==> keys[#[trigger] order[i] as int].1 <= keys[#[trigger] order[j] as int].1,
        forall|i: int, j: int|
            0 <= i < j < order.len() && keys[order[i] as int].1 == keys[order[j] as int].1
                ==> #[trigger] order[i] < #[trigger] order[j],
        forall|i: int| 0 <= i < order.len() ==> keys[#[trigger] order[i] as int].0,
{
    assert forall|i: int, j: int| 0 <= i < j < order.len() implies keys[#[trigger] order[i] as int].1
        <= keys[#[trigger] order[j] as int].1 by {
        assert(drawn_before(keys, order[i] as int, order[j] as int));
    }
    assert forall|i: int, j: int|
        0 <= i < j < order.len() && keys[order[i] as int].1 == keys[order[j] as int].1
            implies #[trigger] order[i] < #[trigger] order[j] by {
        assert(drawn_before(keys, order[i] as int, order[j] as int));
    }
}

/// The draw order is fully determined by the entries: any two orders that
/// list exactly the visible entries, each drawn after those with a lower
/// z-order or the same z-order and an earlier stack position, are the same.
pub proof fn lemma_draw_order_is_unique(keys: Seq<(bool, u32)>, o1: Seq<usize>, o2: Seq<usize>)
    requires
        keys.len() <= usize::MAX,
        is_draw_order(keys, o1),
        is_draw_order(keys, o2),
    ensures
        o1 == o2,
    decreases o1.len(),
{
    if o1.len() == 0 {
        if o2.len() > 0 {
            let x = o2[0];
            assert(keys[x as int].0);
            assert(o1.contains(x));
        }
        assert(o1 =~= o2);
    } else {
        let a = o1[0];
        assert(keys[a as int].0);
        assert(o2.contains(a));
        let b = o2[0];
        assert(keys[b as int].0);
        assert(o1.contains(b));
        if a != b {
            let wa = choose|w: int| 0 <= w < o2.len() && o2[w] == a;
            let wb = choose|w: int| 0 <= w < o1.len() && o1[w] == b;
            assert(wb > 0);
            assert(wa > 0);
            assert(drawn_before(keys, o1[0] as int, o1[wb] as int));
            assert(drawn_before(keys, o2[0] as int, o2[wa] as int));
        }
        let keys2 = keys.update(a as int, (false, keys[a as int].1));
        let r1 = o1.drop_first();
        let r2 = o2.drop_first();
        assert forall|i: int, j: int| 0 <= i < j < r1.len() implies drawn_before(keys2, #[trigger] r1[i] as int, #[trigger] r1[j] as int) by {
            assert(drawn_before(keys, o1[i + 1] as int, o1[j + 1] as int));
        }
        assert forall|i: int, j: int| 0 <= i < j < r2.len() implies drawn_before(keys2, #[trigger] r2[i] as int, #[trigger] r2[j] as int) by {
            assert(drawn_before(keys, o2[i + 1] as int, o2[j + 1] as int));
        }
        assert forall|i: int| 0 <= i < r1.len() implies (#[trigger] r1[i]) < keys2.len() && keys2[r1[i] as int].0 by {
            assert(r1[i] == o1[i + 1]);
            assert(drawn_before(keys, o1[0] as int, o1[i + 1] as int));
        }
        assert forall|i: int| 0 <= i < r2.len() implies (#[trigger] r2[i]) < keys2.len() && keys2[r2[i] as int].0 by {
            assert(r2[i] == o2[i + 1]);
            assert(drawn_before(keys, o2[0] as int, o2[i + 1] as int));
        }
        assert forall|k: int| 0 <= k < keys2.len() && (#[trigger] keys2[k]).0 implies r1.contains(k as usize) by {
            assert(keys[k].0 && k != a);
            assert(k as usize != a);
            assert(o1.contains(k as usize));
            let w = choose|w: int| 0 <= w < o1.len() && o1[w] == k as usize;
            assert(r1[w - 1] == k as usize);
        }
        assert forall|k: int| 0 <= k < keys2.len() && (#[trigger] keys2[k]).0 implies r2.contains(k as usize) by {
            assert(keys[k].0 && k != a);
            assert(k as usize != a);
            assert(o2.contains(k as usize));
            let w = choose|w: int| 0 <= w < o2.len() && o2[w] == k as usize;
            assert(r2[w - 1] == k as usize);
        }
        lemma_draw_order_is_unique(keys2, r1, r2);
        assert(o1 =~= seq![a] + r1);
        assert(o2 =~= seq![a] + r2);
    }
}

/// An override beats the layer's default z-order, and clearing it falls
/// back to that default.
pub proof fn lemma_z_override_beats_default(e: EntryView, z: u32, layer_z: u32)
    ensures
        effective_z(EntryView { z_override: Some(z), ..e }, layer_z) == z,
        effective_z(EntryView { z_override: None, ..e }, layer_z) == layer_z,
{
}

/// A custom name replaces the layer's name.
pub proof fn lemma_custom_name_wins(e: EntryView, name: Seq<char>, layer_name: Seq<char>)
    ensures
        entry_name(EntryView { name: Some(name), ..e }, layer_name) == name,
        entry_name(EntryView { name: None, ..e }, layer_name) == layer_name,
{
}

} // verus!
