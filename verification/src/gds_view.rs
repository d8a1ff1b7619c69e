//! The layout backend of the neutral viewer: which files it opens, how layer
//! keys are assigned in stacking order, and how each layer is painted.

use vstd::prelude::*;
use crate::gds_diff::{gdsii_magic, is_gdsii, LayerKey};
use crate::order::{key_lt, keys_strictly_sorted, sorted_key_union};
use crate::palette::{detect_pdk, detected_pdk, layer_spec, layer_spec_of, LayerRole};
use crate::style::{Color, Pdk};
use crate::text::{ascii_lower_seq, chars_of, decimal, ends_with, has_suffix, lower_ascii, push_decimal, push_str, string_of};

verus! {

/// Key of a layer in the neutral scene.
pub type Layer = u16;

/// How the neutral viewer paints one layer.
#[derive(Clone, Debug, PartialEq, Eq)]
pub struct LayerPaint {
    pub name: String,
    pub fill: Color,
    pub stroke: Color,
}

/// Anchor of a GDS label: which point of the text sits on its origin.
#[derive(Clone, Copy, Debug, PartialEq, Eq, Structural)]
pub enum Anchor {
    NW,
    N,
    NE,
    W,
    O,
    E,
    SW,
    S,
    SE,
}

/// Horizontal alignment of a text.
#[derive(Clone, Copy, Debug, PartialEq, Eq, Structural)]
pub enum HAlign {
    Start,
    Middle,
    End,
}

/// Vertical alignment of a text.
#[derive(Clone, Copy, Debug, PartialEq, Eq, Structural)]
pub enum VAlign {
    Top,
    Middle,
    Bottom,
}

/// The layout backend of the viewer.
#[derive(Clone, Copy, Debug, PartialEq, Eq, Structural)]
pub struct GdsBackend;

impl GdsBackend {
    pub fn new() -> (b: Self)
        ensures
            b == GdsBackend,
    {
        GdsBackend
    }

    /// Accepts files named `*.gds` (any case), or, without such a name,
    /// content that starts with the GDSII header record.
    pub fn accepts(&self, content: &[u8], path_hint: Option<&str>) -> (r: bool)
        ensures
            r == (match path_hint {
                Some(p) => has_suffix(ascii_lower_seq(p@), seq!['.', 'g', 'd', 's']),
                None => false,
            } || gdsii_magic(content@)),
    {
        if let Some(p) = path_hint {
            let lower = lower_ascii(&chars_of(p));
            proof {
                reveal_strlit(".gds");
                assert(".gds"@ =~= seq!['.', 'g', 'd', 's']);
            }
            if ends_with(&lower, &chars_of(".gds")) {
                return true;
            }
        }
        is_gdsii(content)
    }
}

impl Default for GdsBackend {
    fn default() -> (b: Self)
        ensures
            b == GdsBackend,
    {
        GdsBackend::new()
    }
}

/// Fill opacity by layer role: device layers show their colour and what lies
/// below, wells a faint tint, outlines no fill at all.
pub open spec fn role_fill_alpha(role: LayerRole) -> u8 {
    match role {
        LayerRole::Device => 90,
        LayerRole::Well => 28,
        LayerRole::Outline => 0,
    }
}

pub fn fill_alpha(role: LayerRole) -> (a: u8)
    ensures
        a == role_fill_alpha(role),
{
    match role {
        LayerRole::Device => 90,
        LayerRole::Well => 28,
        LayerRole::Outline => 0,
    }
}

/// Alignment of a label's text: the anchor names the point of the text that
/// lies on the origin (NW: the text's top-left corner).
pub open spec fn anchor_alignment(anchor: Anchor) -> (HAlign, VAlign) {
    let h = match anchor {
        Anchor::NW | Anchor::W | Anchor::SW => HAlign::Start,
        Anchor::N | Anchor::O | Anchor::S => HAlign::Middle,
        Anchor::NE | Anchor::E | Anchor::SE => HAlign::End,
    };
    let v = match anchor {
        Anchor::NW | Anchor::N | Anchor::NE => VAlign::Top,
        Anchor::W | Anchor::O | Anchor::E => VAlign::Middle,
        Anchor::SW | Anchor::S | Anchor::SE => VAlign::Bottom,
    };
    (h, v)
}

pub fn anchor_align(anchor: Anchor) -> (r: (HAlign, VAlign))
    ensures
        r == anchor_alignment(anchor),
{
    let h = match anchor {
        Anchor::NW | Anchor::W | Anchor::SW => HAlign::Start,
        Anchor::N | Anchor::O | Anchor::S => HAlign::Middle,
        Anchor::NE | Anchor::E | Anchor::SE => HAlign::End,
    };
    let v = match anchor {
        Anchor::NW | Anchor::N | Anchor::NE => VAlign::Top,
        Anchor::W | Anchor::O | Anchor::E => VAlign::Middle,
        Anchor::SW | Anchor::S | Anchor::SE => VAlign::Bottom,
    };
    (h, v)
}

/// Display name of a PDK.
pub open spec fn pdk_display_name(pdk: Pdk) -> &'static str {
    match pdk {
        Pdk::Sky130 => "SKY130",
        Pdk::Gf180 => "GF180MCU",
        Pdk::Ihp => "IHP SG13G2",
        Pdk::Generic => "genérico",
    }
}

pub fn pdk_name(pdk: Pdk) -> (s: &'static str)
    ensures
        s == pdk_display_name(pdk),
{
    match pdk {
        Pdk::Sky130 => "SKY130",
        Pdk::Gf180 => "GF180MCU",
        Pdk::Ihp => "IHP SG13G2",
        Pdk::Generic => "genérico",
    }
}

/// Name of a layer in the viewer's layer list: the PDK's name, when known,
/// followed by `layer/datatype`.
pub open spec fn paint_name(tag: LayerKey, pdk: Pdk) -> Seq<char> {
    let numbers = decimal(tag.layer as nat) + seq!['/'] + decimal(tag.datatype as nat);
    match layer_spec_of(tag, pdk).name {
        Some(n) => n@ + seq![' '] + numbers,
        None => numbers,
    }
}

/// Paint of a layer: the PDK colour, opaque for the stroke, with the role's
/// opacity for the fill.
pub fn layer_paint(tag: LayerKey, pdk: Pdk) -> (p: LayerPaint)
    ensures
        p.name@ == paint_name(tag, pdk),
        p.stroke == (Color { a: 255, ..layer_spec_of(tag, pdk).color }),
        p.fill == (Color { a: role_fill_alpha(layer_spec_of(tag, pdk).role), ..layer_spec_of(tag, pdk).color }),
{
    let spec = layer_spec(tag, pdk);
    let c = spec.color;
    let stroke = Color::rgba(c.r, c.g, c.b, 255);
    let mut name: Vec<char> = Vec::new();
    if let Some(n) = spec.name {
        push_str(&mut name, n);
        name.push(' ');
    }
    push_decimal(&mut name, tag.layer as u64);
    name.push('/');
    push_decimal(&mut name, tag.datatype as u64);
    assert(name@ =~= paint_name(tag, pdk));
    LayerPaint { name: string_of(&name), fill: Color::rgba(c.r, c.g, c.b, fill_alpha(spec.role)), stroke }
}

/// Stacking order of layers for a PDK: by the PDK's rank, then by (layer, datatype).
pub open spec fn stack_lt(x: LayerKey, y: LayerKey, pdk: Pdk) -> bool {
    let rx = layer_spec_of(x, pdk).rank;
    let ry = layer_spec_of(y, pdk).rank;
    rx < ry || (rx == ry && key_lt(x, y))
}

pub open spec fn stack_sorted(s: Seq<LayerKey>, pdk: Pdk) -> bool {
    forall|i: int, j: int| 0 <= i < j < s.len() ==> stack_lt(s[i], s[j], pdk)
}

fn stack_less(x: LayerKey, y: LayerKey, pdk: Pdk) -> (r: bool)
    ensures
        r == stack_lt(x, y, pdk),
{
    let rx = layer_spec(x, pdk).rank;
    let ry = layer_spec(y, pdk).rank;
    rx < ry || (rx == ry && crate::order::key_less(x, y))
}

/// Inserts `x` into `v`, kept strictly sorted in stacking order.
fn insert_stacked(v: &mut Vec<LayerKey>, x: LayerKey, pdk: Pdk)
    requires
        stack_sorted(old(v)@, pdk),
    ensures
        stack_sorted(final(v)@, pdk),
        final(v)@.to_set() == old(v)@.to_set().insert(x),
{
    let ghost old_v = v@;
    let n = v.len();
    let mut p: usize = 0;
    while p < n && stack_less(v[p], x, pdk)
        invariant
            n == v@.len(),
            p <= n,
            v@ == old_v,
            stack_sorted(old_v, pdk),
            forall|k: int| 0 <= k < p ==> stack_lt(#[trigger] old_v[k], x, pdk),
        decreases n - p,
    {
        p = p + 1;
    }
    if p < n && v[p] == x {
        assert(old_v.contains(x));
        assert(old_v.to_set().insert(x) =~= old_v.to_set());
        return;
    }
    v.insert(p, x);
    proof {
        let nv = v@;
        assert(nv =~= old_v.insert(p as int, x));
        assert forall|i: int, j: int| 0 <= i < j < nv.len() implies stack_lt(nv[i], nv[j], pdk) by {
            if i == p && j > p {
                assert(!stack_lt(old_v[p as int], x, pdk));
                assert(stack_lt(old_v[p as int], old_v[j - 1], pdk) || j - 1 == p);
            }
        }
        assert(nv.to_set() =~= old_v.to_set().insert(x)) by {
            assert forall|s: LayerKey| nv.contains(s) <==> old_v.contains(s) || s == x by {
                if nv.contains(s) {
                    let k = choose|k: int| 0 <= k < nv.len() && nv[k] == s;
                    if k < p {
                        assert(old_v[k] == s);
                    } else if k > p {
                        assert(old_v[k - 1] == s);
                    }
                }
                if old_v.contains(s) {
                    let k = choose|k: int| 0 <= k < old_v.len() && old_v[k] == s;
                    if k < p {
                        assert(nv[k] == s);
                    } else {
                        assert(nv[k + 1] == s);
                    }
                }
                if s == x {
                    assert(nv[p as int] == s);
                }
            }
        }
    }
}

/// Largest layer key of the scene: keys past it share it.
pub open spec fn last_layer_key() -> int {
    65535
}

/// In a stacking order, a layer of lower PDK rank comes first and so gets a
/// key no greater (smaller, below the last key) than a layer of higher rank,
/// whatever their (layer, datatype) numbers; layers of equal rank follow
/// (layer, datatype).
pub proof fn lemma_lower_rank_stacks_below(order: Seq<LayerKey>, pdk: Pdk, i: int, j: int)
    requires
        stack_sorted(order, pdk),
        0 <= i < order.len(),
        0 <= j < order.len(),
        layer_spec_of(order[i], pdk).rank < layer_spec_of(order[j], pdk).rank
            || (layer_spec_of(order[i], pdk).rank == layer_spec_of(order[j], pdk).rank && key_lt(order[i], order[j])),
    ensures
        i < j,
        key_at(i) <= key_at(j),
        j < last_layer_key() ==> key_at(i) < key_at(j),
{
    if j < i {
        assert(stack_lt(order[j], order[i], pdk));
    } else if i == j {
        assert(!key_lt(order[i], order[i]));
    }
}

/// One key per distinct (layer, datatype), in the PDK's stacking order, so
/// that the viewer's layer list runs from the bottom up. Pin and drawing
/// layers of one metal (68/16 and 68/20) get keys and paints of their own.
#[derive(Clone, Debug, PartialEq, Eq)]
pub struct LayerKeys {
    /// The distinct tags in stacking order: the key of `order[i]` is `i`
    /// (held at the largest key from there on).
    pub order: Vec<LayerKey>,
    /// The PDK detected from the path and the tags.
    pub pdk: Pdk,
}

/// The key that position `i` of the stacking order gets.
pub open spec fn key_at(i: int) -> Layer {
    if i < last_layer_key() { i as Layer } else { 65535 }
}

impl LayerKeys {
    /// Keys for the tags of a scene's draw commands; `path_hint` helps to
    /// detect the PDK.
    pub fn new(tags: &Vec<LayerKey>, path_hint: Option<&str>) -> (k: Self)
        ensures
            k.pdk == detected_pdk(
                match path_hint {
                    Some(s) => Some(s@),
                    None => None,
                },
                tags@,
            ),
            stack_sorted(k.order@, k.pdk),
            k.order@.to_set() == tags@.to_set(),
            forall|i: int, j: int| #![trigger k.order@[i], k.order@[j]] 0 <= i < j < k.order@.len() ==> {
                let ri = layer_spec_of(k.order@[i], k.pdk).rank;
                let rj = layer_spec_of(k.order@[j], k.pdk).rank;
                ri < rj || (ri == rj && key_lt(k.order@[i], k.order@[j]))
            },
    {
        let distinct = sorted_key_union(tags, &Vec::new());
        let pdk = detect_pdk(path_hint, tags);
        let mut order: Vec<LayerKey> = Vec::new();
        let n = distinct.len();
        let mut i: usize = 0;
        while i < n
            invariant
                n == distinct@.len(),
                i <= n,
                stack_sorted(order@, pdk),
                order@.to_set() == distinct@.take(i as int).to_set(),
            decreases n - i,
        {
            insert_stacked(&mut order, distinct[i], pdk);
            assert(distinct@.take(i + 1) =~= distinct@.take(i as int).push(distinct@[i as int]));
            proof {
                distinct@.take(i as int).lemma_push_to_set_commute(distinct@[i as int]);
            }
            i = i + 1;
        }
        assert(distinct@.take(n as int) =~= distinct@);
        assert(tags@.to_set().union(Seq::<LayerKey>::empty().to_set()) =~= tags@.to_set());
        proof {
            assert forall|i: int, j: int| #![trigger order@[i], order@[j]] 0 <= i < j < order@.len() implies {
                let ri = layer_spec_of(order@[i], pdk).rank;
                let rj = layer_spec_of(order@[j], pdk).rank;
                ri < rj || (ri == rj && key_lt(order@[i], order@[j]))
            } by {
                assert(stack_lt(order@[i], order@[j], pdk));
            }
        }
        LayerKeys { order, pdk }
    }

    /// Key of a tag; the largest key for a tag the scene does not hold.
    pub fn key(&self, tag: LayerKey) -> (k: Layer)
        requires
            stack_sorted(self.order@, self.pdk),
        ensures
            forall|i: int| 0 <= i < self.order@.len() && self.order@[i] == tag ==> k == key_at(i),
            (forall|i: int| 0 <= i < self.order@.len() ==> self.order@[i] != tag) ==> k == 65535,
    {
        let n = self.order.len();
        let mut i: usize = 0;
        while i < n
            invariant
                n == self.order@.len(),
                i <= n,
                stack_sorted(self.order@, self.pdk),
                forall|j: int| 0 <= j < i ==> self.order@[j] != tag,
            decreases n - i,
        {
            if self.order[i] == tag {
                proof {
                    assert forall|c: int| 0 <= c < self.order@.len() && self.order@[c] == tag implies c == i by {
                        if c < i {
                            assert(self.order@[c] != tag);
                        } else if c > i {
                            assert(stack_lt(self.order@[i as int], self.order@[c], self.pdk));
                            assert(!stack_lt(tag, tag, self.pdk));
                        }
                    }
                }
                return if i < 65535 { i as u16 } else { 65535 };
            }
            i = i + 1;
        }
        65535
    }
}

/// `p` is the paint of `tag` for `pdk`.
pub open spec fn is_paint_of(p: LayerPaint, tag: LayerKey, pdk: Pdk) -> bool {
    &&& p.name@ == paint_name(tag, pdk)
    &&& p.stroke == (Color { a: 255, ..layer_spec_of(tag, pdk).color })
    &&& p.fill == (Color { a: role_fill_alpha(layer_spec_of(tag, pdk).role), ..layer_spec_of(tag, pdk).color })
}

/// `t` is the tag that sorts last by (layer, datatype) among `order[from..]`.
pub open spec fn is_last_tag_from(order: Seq<LayerKey>, from: int, t: LayerKey) -> bool {
    &&& exists|i: int| from <= i < order.len() && order[i] == t
    &&& forall|i: int| from <= i < order.len() ==> order[i] == t || key_lt(order[i], t)
}

impl LayerKeys {
    /// Paint of every key, by increasing key. Tags that share the largest key
    /// are painted as the one of them that sorts last by (layer, datatype).
    pub fn paints(&self) -> (r: Vec<(Layer, LayerPaint)>)
        ensures
            r@.len() == (if self.order@.len() <= 65536 { self.order@.len() as int } else { 65536 }),
            forall|k: int| 0 <= k < r@.len() && k < last_layer_key() ==> #[trigger] r@[k].0 == k as Layer
                && is_paint_of(r@[k].1, self.order@[k], self.pdk),
            r@.len() == 65536 ==> r@[65535].0 == 65535 && exists|t: LayerKey|
                is_last_tag_from(self.order@, 65535, t) && is_paint_of(r@[65535].1, t, self.pdk),
    {
        let n = self.order.len();
        let head = if n < 65535 { n } else { 65535 };
        let mut r: Vec<(Layer, LayerPaint)> = Vec::new();
        let mut i: usize = 0;
        while i < head
            invariant
                n == self.order@.len(),
                head == (if n < 65535 { n } else { 65535 }),
                i <= head,
                r@.len() == i,
                forall|k: int| 0 <= k < i ==> #[trigger] r@[k].0 == k as Layer
                    && is_paint_of(r@[k].1, self.order@[k], self.pdk),
            decreases head - i,
        {
            let p = layer_paint(self.order[i], self.pdk);
            let ghost before = r@;
            r.push((i as u16, p));
            assert forall|k: int| 0 <= k < i + 1 implies #[trigger] r@[k].0 == k as Layer
                && is_paint_of(r@[k].1, self.order@[k], self.pdk) by {
                if k < i {
                    assert(r@[k] == before[k]);
                }
            }
            i = i + 1;
        }
        if n > 65535 {
            let mut best: LayerKey = self.order[65535];
            let mut j: usize = 65536;
            while j < n
                invariant
                    n == self.order@.len(),
                    65536 <= j <= n,
                    exists|i: int| 65535 <= i < j && self.order@[i] == best,
                    forall|i: int| 65535 <= i < j ==> self.order@[i] == best || key_lt(self.order@[i], best),
                decreases n - j,
            {
                if crate::order::key_less(best, self.order[j]) {
                    best = self.order[j];
                }
                j = j + 1;
            }
            let p = layer_paint(best, self.pdk);
            let ghost before = r@;
            r.push((65535, p));
            assert forall|k: int| 0 <= k < r@.len() && k < last_layer_key() implies #[trigger] r@[k].0 == k as Layer
                && is_paint_of(r@[k].1, self.order@[k], self.pdk) by {
                assert(r@[k] == before[k]);
            }
            assert(is_last_tag_from(self.order@, 65535, best));
            assert(is_paint_of(r@[65535].1, best, self.pdk));
        }
        r
    }
}

} // verus!
