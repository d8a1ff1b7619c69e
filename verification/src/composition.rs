//! Composition of a layout scene before it is drawn: the order in which the
//! layer groups and their draw commands are emitted, and the layer list that
//! goes with the picture.
//!
//! A draw command is known here by what the composition reads of it: its
//! layer and its plane. A layer style likewise by its layer, name, fill
//! colour, visibility and stacking order.

use vstd::prelude::*;
use crate::gds_diff::LayerKey;
use crate::gds_view::Layer;
use crate::order::key_lt;
use crate::style::{Color, RenderPlane};
use crate::text::{push_decimal, push_str, string_of};

verus! {

/// What the composition reads of a draw command.
#[derive(Clone, Copy, Debug, PartialEq, Eq, Structural)]
pub struct CommandKey {
    pub tag: LayerKey,
    pub plane: RenderPlane,
}

/// What the composition reads of a layer style.
#[derive(Clone, Debug, PartialEq, Eq)]
pub struct LayerInfo {
    pub tag: LayerKey,
    pub name: String,
    pub color: Color,
    pub visible: bool,
    pub order: u32,
}

/// One step of drawing a scene.
#[derive(Clone, Copy, Debug, PartialEq, Eq, Structural)]
pub enum DrawStep {
    /// Open the group of a layer.
    OpenLayer(LayerKey),
    /// Draw the command at this position of the scene's command list.
    Draw(usize),
    /// Close the current layer group.
    CloseLayer,
}

/// Positions, among the first `n` commands, of those of layer `tag` on
/// `plane`, in order.
pub open spec fn plane_commands(cmds: Seq<CommandKey>, tag: LayerKey, plane: RenderPlane, n: int) -> Seq<DrawStep>
    decreases n,
{
    if n <= 0 {
        Seq::empty()
    } else {
        plane_commands(cmds, tag, plane, n - 1) + (if cmds[n - 1].tag == tag && cmds[n - 1].plane == plane {
            seq![DrawStep::Draw((n - 1) as usize)]
        } else {
            Seq::empty()
        })
    }
}

/// The steps of one layer: its group holds its base shapes, then its labels
/// when labels are shown; nothing for a hidden layer.
pub open spec fn layer_steps(cmds: Seq<CommandKey>, tag: LayerKey, visible: bool, show_labels: bool) -> Seq<DrawStep> {
    if !visible {
        Seq::empty()
    } else {
        seq![DrawStep::OpenLayer(tag)] + plane_commands(cmds, tag, RenderPlane::Base, cmds.len() as int)
            + (if show_labels {
                plane_commands(cmds, tag, RenderPlane::Labels, cmds.len() as int)
            } else {
                Seq::empty()
            }) + seq![DrawStep::CloseLayer]
    }
}

/// The steps of the first `n` layers, in the order of the resolved styles.
pub open spec fn draw_steps(layers: Seq<LayerInfo>, cmds: Seq<CommandKey>, show_labels: bool, n: int) -> Seq<DrawStep>
    decreases n,
{
    if n <= 0 {
        Seq::empty()
    } else {
        draw_steps(layers, cmds, show_labels, n - 1) + layer_steps(cmds, layers[n - 1].tag, layers[n - 1].visible, show_labels)
    }
}

fn push_plane(steps: &mut Vec<DrawStep>, cmds: &Vec<CommandKey>, tag: LayerKey, plane: RenderPlane)
    ensures
        final(steps)@ == old(steps)@ + plane_commands(cmds@, tag, plane, cmds@.len() as int),
{
    let ghost start = steps@;
    let n = cmds.len();
    let mut i: usize = 0;
    while i < n
        invariant
            n == cmds@.len(),
            i <= n,
            steps@ == start + plane_commands(cmds@, tag, plane, i as int),
        decreases n - i,
    {
        let c = cmds[i];
        if c.tag == tag && c.plane == plane {
            steps.push(DrawStep::Draw(i));
        }
        proof {
            assert(cmds@[i as int] == c);
        }
        i = i + 1;
        assert(steps@ =~= start + plane_commands(cmds@, tag, plane, i as int));
    }
}

/// The order in which a scene is drawn: for each visible layer, in the order
/// of the resolved styles, a group with the layer's base shapes and then its
/// labels (left out when labels are hidden).
pub fn draw_plan(layers: &Vec<LayerInfo>, cmds: &Vec<CommandKey>, show_labels: bool) -> (r: Vec<DrawStep>)
    ensures
        r@ == draw_steps(layers@, cmds@, show_labels, layers@.len() as int),
{
    let mut steps: Vec<DrawStep> = Vec::new();
    let n = layers.len();
    let mut i: usize = 0;
    while i < n
        invariant
            n == layers@.len(),
            i <= n,
            steps@ == draw_steps(layers@, cmds@, show_labels, i as int),
        decreases n - i,
    {
        let ghost before = steps@;
        let layer = &layers[i];
        if layer.visible {
            steps.push(DrawStep::OpenLayer(layer.tag));
            push_plane(&mut steps, cmds, layer.tag, RenderPlane::Base);
            if show_labels {
                push_plane(&mut steps, cmds, layer.tag, RenderPlane::Labels);
            }
            steps.push(DrawStep::CloseLayer);
        }
        assert(steps@ =~= before + layer_steps(cmds@, layers@[i as int].tag, layers@[i as int].visible, show_labels));
        i = i + 1;
    }
    steps
}

/// The opening tag of a layer's group, with its identifiers.
pub open spec fn layer_group_text(tag: LayerKey) -> Seq<char> {
    "<g id=\"layer-"@ + crate::text::decimal(tag.layer as nat) + "-"@ + crate::text::decimal(tag.datatype as nat)
        + "\" data-layer=\""@ + crate::text::decimal(tag.layer as nat) + "\" data-datatype=\""@
        + crate::text::decimal(tag.datatype as nat) + "\">"@
}

pub fn layer_group_open(tag: LayerKey) -> (s: String)
    ensures
        s@ == layer_group_text(tag),
{
    let mut out: Vec<char> = Vec::new();
    push_str(&mut out, "<g id=\"layer-");
    push_decimal(&mut out, tag.layer as u64);
    push_str(&mut out, "-");
    push_decimal(&mut out, tag.datatype as u64);
    push_str(&mut out, "\" data-layer=\"");
    push_decimal(&mut out, tag.layer as u64);
    push_str(&mut out, "\" data-datatype=\"");
    push_decimal(&mut out, tag.datatype as u64);
    push_str(&mut out, "\">");
    string_of(&out)
}

pub open spec fn visible_tags(layers: Seq<LayerInfo>, n: int) -> Seq<LayerKey>
    decreases n,
{
    if n <= 0 {
        Seq::empty()
    } else {
        visible_tags(layers, n - 1) + (if layers[n - 1].visible { seq![layers[n - 1].tag] } else { Seq::empty() })
    }
}

/// The layer list of a picture: every resolved layer when the metadata is
/// wanted (else none), and the visible layers, both in style order.
pub fn layer_metadata(layers: &Vec<LayerInfo>, include_layer_metadata: bool) -> (r: (Vec<LayerInfo>, Vec<LayerKey>))
    ensures
        r.0@ == (if include_layer_metadata { layers@ } else { Seq::empty() }),
        r.1@ == visible_tags(layers@, layers@.len() as int),
{
    let mut infos: Vec<LayerInfo> = Vec::new();
    let n = layers.len();
    if include_layer_metadata {
        let mut i: usize = 0;
        while i < n
            invariant
                n == layers@.len(),
                i <= n,
                infos@ == layers@.take(i as int),
            decreases n - i,
        {
            let l = &layers[i];
            infos.push(LayerInfo { tag: l.tag, name: l.name.clone(), color: l.color, visible: l.visible, order: l.order });
            assert(infos@[i as int] == layers@[i as int]);
            assert(infos@ =~= layers@.take(i + 1));
            i = i + 1;
        }
        assert(layers@.take(n as int) =~= layers@);
    }
    let mut visible: Vec<LayerKey> = Vec::new();
    let mut j: usize = 0;
    while j < n
        invariant
            n == layers@.len(),
            j <= n,
            visible@ == visible_tags(layers@, j as int),
        decreases n - j,
    {
        if layers[j].visible {
            visible.push(layers[j].tag);
        }
        j = j + 1;
        assert(visible@ =~= visible_tags(layers@, j as int));
    }
    (infos, visible)
}

// ─── Resolved styles ─────────────────────────────────────────────────────────

/// A resolved layer style: the layer, its stacking order, and where its
/// style comes from (the catalog entry at this position, or a default style
/// for a layer that only the drawing uses).
#[derive(Clone, Copy, Debug, PartialEq, Eq, Structural)]
pub struct StyleSlot {
    pub tag: LayerKey,
    pub order: u32,
    pub source: Option<usize>,
}

/// Position of the last of the first `n` catalog entries for layer `t`, or
/// -1 when there is none.
pub open spec fn last_from(cat: Seq<(LayerKey, u32)>, t: LayerKey, n: int) -> int
    decreases n,
{
    if n <= 0 {
        -1
    } else if cat[n - 1].0 == t {
        n - 1
    } else {
        last_from(cat, t, n - 1)
    }
}

/// The catalog entry at `w` is the last one for its layer: it is the style
/// that the layer keeps.
pub open spec fn is_winner(cat: Seq<(LayerKey, u32)>, w: int) -> bool {
    0 <= w < cat.len() && last_from(cat, cat[w].0, cat.len() as int) == w
}

pub open spec fn winner_slot(cat: Seq<(LayerKey, u32)>, w: int) -> StyleSlot {
    StyleSlot { tag: cat[w].0, order: cat[w].1, source: Some(w as usize) }
}

pub open spec fn in_catalog(cat: Seq<(LayerKey, u32)>, t: LayerKey) -> bool {
    last_from(cat, t, cat.len() as int) >= 0
}

/// The largest stacking order among the styles that the first `n` catalog
/// positions keep; 0 when there is none.
pub open spec fn catalog_max(cat: Seq<(LayerKey, u32)>, n: int) -> nat
    decreases n,
{
    if n <= 0 {
        0
    } else {
        let m = catalog_max(cat, n - 1);
        let o: nat = if is_winner(cat, n - 1) { cat[n - 1].1 as nat } else { 0 };
        if o > m { o } else { m }
    }
}

/// The first `k` layers that the drawing uses, less those the catalog
/// styles, in the order given.
pub open spec fn new_tags(cat: Seq<(LayerKey, u32)>, obs: Seq<LayerKey>, k: int) -> Seq<LayerKey>
    decreases k,
{
    if k <= 0 {
        Seq::empty()
    } else {
        new_tags(cat, obs, k - 1) + (if in_catalog(cat, obs[k - 1]) { Seq::empty() } else { seq![obs[k - 1]] })
    }
}

/// The default style of the `k`-th layer that only the drawing uses: it goes
/// after every catalog style, in the order the layers were met.
pub open spec fn new_slot(cat: Seq<(LayerKey, u32)>, obs: Seq<LayerKey>, k: int) -> StyleSlot {
    StyleSlot {
        tag: new_tags(cat, obs, obs.len() as int)[k],
        order: (catalog_max(cat, cat.len() as int) + 1 + k) as u32,
        source: None,
    }
}

/// The resolved styles as a set: the style each catalog layer keeps, and a
/// default style for each layer only the drawing uses.
pub open spec fn resolved_slots(cat: Seq<(LayerKey, u32)>, obs: Seq<LayerKey>) -> Set<StyleSlot> {
    Set::new(|s: StyleSlot|
        (exists|w: int| is_winner(cat, w) && s == winner_slot(cat, w))
        || (exists|k: int| 0 <= k < new_tags(cat, obs, obs.len() as int).len() && s == new_slot(cat, obs, k)))
}

/// Order of resolved styles: by stacking order, then by (layer, datatype).
pub open spec fn slot_lt(a: StyleSlot, b: StyleSlot) -> bool {
    a.order < b.order || (a.order == b.order && key_lt(a.tag, b.tag))
}

pub open spec fn slots_sorted(s: Seq<StyleSlot>) -> bool {
    forall|i: int, j: int| 0 <= i < j < s.len() ==> slot_lt(s[i], s[j])
}

/// Some slot of `s` is for layer `t`.
pub open spec fn has_tag(s: Seq<StyleSlot>, t: LayerKey) -> bool {
    exists|j: int| 0 <= j < s.len() && s[j].tag == t
}

pub open spec fn tags_distinct(s: Seq<StyleSlot>) -> bool {
    forall|i: int, j: int| 0 <= i < j < s.len() ==> s[i].tag != s[j].tag
}

proof fn lemma_last_from(cat: Seq<(LayerKey, u32)>, t: LayerKey, n: int)
    requires
        0 <= n <= cat.len(),
    ensures
        -1 <= last_from(cat, t, n) < n,
        last_from(cat, t, n) >= 0 ==> cat[last_from(cat, t, n)].0 == t,
        forall|k: int| 0 <= k < n && cat[k].0 == t ==> k <= last_from(cat, t, n),
    decreases n,
{
    if n > 0 {
        lemma_last_from(cat, t, n - 1);
    }
}

fn same_tag(a: LayerKey, b: LayerKey) -> (r: bool)
    ensures
        r == (a == b),
{
    a.layer == b.layer && a.datatype == b.datatype
}

/// The styles the catalog keeps, one per layer: a later entry for a layer
/// replaces an earlier one.
fn catalog_slots(cat: &Vec<(LayerKey, u32)>) -> (r: Vec<StyleSlot>)
    ensures
        tags_distinct(r@),
        forall|j: int| 0 <= j < r@.len() ==> is_winner(cat@, last_from(cat@, #[trigger] r@[j].tag, cat@.len() as int))
            && r@[j] == winner_slot(cat@, last_from(cat@, r@[j].tag, cat@.len() as int)),
        forall|i: int| 0 <= i < cat@.len() ==> #[trigger] has_tag(r@, cat@[i].0),
{
    let n = cat.len();
    let mut r: Vec<StyleSlot> = Vec::new();
    let mut i: usize = 0;
    while i < n
        invariant
            n == cat@.len(),
            i <= n,
            tags_distinct(r@),
            forall|j: int| 0 <= j < r@.len() ==> 0 <= last_from(cat@, #[trigger] r@[j].tag, i as int)
                && r@[j] == winner_slot(cat@, last_from(cat@, r@[j].tag, i as int)),
            forall|k: int| 0 <= k < i ==> #[trigger] has_tag(r@, cat@[k].0),
        decreases n - i,
    {
        let (t, o) = cat[i];
        let m = r.len();
        let mut p: usize = 0;
        while p < m && !same_tag(r[p].tag, t)
            invariant
                m == r@.len(),
                p <= m,
                forall|j: int| 0 <= j < p ==> r@[j].tag != t,
            decreases m - p,
        {
            p = p + 1;
        }
        let ghost old_r = r@;
        let slot = StyleSlot { tag: t, order: o, source: Some(i) };
        proof {
            lemma_last_from(cat@, t, i as int);
        }
        if p < m {
            r.set(p, slot);
        } else {
            r.push(slot);
        }
        proof {
            assert forall|j: int| 0 <= j < r@.len() implies 0 <= last_from(cat@, #[trigger] r@[j].tag, i + 1)
                && r@[j] == winner_slot(cat@, last_from(cat@, r@[j].tag, i + 1)) by {
                if r@[j].tag != t {
                    assert(r@[j] == old_r[j]);
                }
            }
            assert forall|k: int| 0 <= k < i + 1 implies #[trigger] has_tag(r@, cat@[k].0) by {
                if k < i {
                    assert(has_tag(old_r, cat@[k].0));
                    let j0 = choose|j: int| 0 <= j < old_r.len() && old_r[j].tag == cat@[k].0;
                    if j0 == p {
                        assert(r@[p as int].tag == t);
                        assert(r@[j0].tag == cat@[k].0);
                    } else {
                        assert(r@[j0] == old_r[j0]);
                    }
                } else {
                    if p < m {
                        assert(r@[p as int].tag == cat@[k].0);
                    } else {
                        assert(r@[m as int].tag == cat@[k].0);
                    }
                }
            }
        }
        i = i + 1;
    }
    proof {
        assert forall|j: int| 0 <= j < r@.len() implies is_winner(cat@, last_from(cat@, #[trigger] r@[j].tag, n as int))
            && r@[j] == winner_slot(cat@, last_from(cat@, r@[j].tag, n as int)) by {
            lemma_last_from(cat@, r@[j].tag, n as int);
        }
    }
    r
}

proof fn lemma_winner_is_last(cat: Seq<(LayerKey, u32)>, i: int)
    requires
        0 <= i < cat.len(),
    ensures
        is_winner(cat, i) <==> forall|j: int| i < j < cat.len() ==> cat[j].0 != cat[i].0,
{
    lemma_last_from(cat, cat[i].0, cat.len() as int);
}

fn is_last_entry(cat: &Vec<(LayerKey, u32)>, i: usize) -> (r: bool)
    requires
        i < cat@.len(),
    ensures
        r == is_winner(cat@, i as int),
{
    proof {
        lemma_winner_is_last(cat@, i as int);
    }
    let n = cat.len();
    let t = cat[i].0;
    let mut j = i + 1;
    while j < n
        invariant
            n == cat@.len(),
            i < j <= n,
            t == cat@[i as int].0,
            forall|k: int| i < k < j ==> cat@[k].0 != t,
        decreases n - j,
    {
        if same_tag(cat[j].0, t) {
            proof {
                lemma_winner_is_last(cat@, i as int);
                assert(cat@[j as int].0 == cat@[i as int].0);
            }
            return false;
        }
        j = j + 1;
    }
    true
}

fn catalog_max_order(cat: &Vec<(LayerKey, u32)>) -> (m: u32)
    ensures
        m == catalog_max(cat@, cat@.len() as int),
{
    let n = cat.len();
    let mut m: u32 = 0;
    let mut i: usize = 0;
    while i < n
        invariant
            n == cat@.len(),
            i <= n,
            m == catalog_max(cat@, i as int),
        decreases n - i,
    {
        if is_last_entry(cat, i) && cat[i].1 > m {
            m = cat[i].1;
        }
        i = i + 1;
    }
    m
}

fn catalog_has(cat: &Vec<(LayerKey, u32)>, t: LayerKey) -> (r: bool)
    ensures
        r == in_catalog(cat@, t),
{
    proof {
        lemma_last_from(cat@, t, cat@.len() as int);
    }
    let n = cat.len();
    let mut i: usize = 0;
    while i < n
        invariant
            n == cat@.len(),
            i <= n,
            forall|k: int| 0 <= k < i ==> cat@[k].0 != t,
        decreases n - i,
    {
        if same_tag(cat[i].0, t) {
            proof {
                lemma_last_from(cat@, t, cat@.len() as int);
                assert(cat@[i as int].0 == t);
            }
            return true;
        }
        i = i + 1;
    }
    false
}

fn slot_less(a: StyleSlot, b: StyleSlot) -> (r: bool)
    ensures
        r == slot_lt(a, b),
{
    a.order < b.order || (a.order == b.order && crate::order::key_less(a.tag, b.tag))
}

/// Inserts `x` into the sorted `v`, which holds no slot for `x`'s layer.
fn insert_slot(v: &mut Vec<StyleSlot>, x: StyleSlot)
    requires
        slots_sorted(old(v)@),
        forall|j: int| 0 <= j < old(v)@.len() ==> old(v)@[j].tag != x.tag,
    ensures
        slots_sorted(final(v)@),
        final(v)@.to_set() == old(v)@.to_set().insert(x),
{
    let ghost old_v = v@;
    let n = v.len();
    let mut p: usize = 0;
    while p < n && slot_less(v[p], x)
        invariant
            n == v@.len(),
            p <= n,
            v@ == old_v,
            slots_sorted(old_v),
            forall|k: int| 0 <= k < p ==> slot_lt(#[trigger] old_v[k], x),
        decreases n - p,
    {
        p = p + 1;
    }
    v.insert(p, x);
    proof {
        let nv = v@;
        assert(nv =~= old_v.insert(p as int, x));
        assert forall|i: int, j: int| 0 <= i < j < nv.len() implies slot_lt(nv[i], nv[j]) by {
            if i == p && j > p {
                assert(!slot_lt(old_v[p as int], x));
                assert(old_v[p as int].tag != x.tag);
                assert(slot_lt(old_v[p as int], old_v[j - 1]) || j - 1 == p);
            }
        }
        assert(nv.to_set() =~= old_v.to_set().insert(x)) by {
            assert forall|s: StyleSlot| nv.contains(s) <==> old_v.contains(s) || s == x by {
                if nv.contains(s) {
                    let k = choose|k: int| 0 <= k < nv.len() && nv[k] == s;
                    if k < p {
                        assert(old_v[k] == s);
                    } else if k > p {
                        assert(old_v[k - 1] == s);
                    }
                }
                if old_v.contains(s) {
                    let k = choose|k: int| 0 <= k < old_v.len() && old_v[k] == s;
                    if k < p {
                        assert(nv[k] == s);
                    } else {
                        assert(nv[k + 1] == s);
                    }
                }
                if s == x {
                    assert(nv[p as int] == s);
                }
            }
        }
    }
}

proof fn lemma_new_tags_grow(cat: Seq<(LayerKey, u32)>, obs: Seq<LayerKey>, k: int, m: int)
    requires
        0 <= k <= m,
    ensures
        new_tags(cat, obs, k).len() <= new_tags(cat, obs, m).len(),
    decreases m - k,
{
    if k < m {
        lemma_new_tags_grow(cat, obs, k, m - 1);
    }
}

proof fn lemma_new_tags_from(cat: Seq<(LayerKey, u32)>, obs: Seq<LayerKey>, k: int)
    requires
        0 <= k <= obs.len(),
    ensures
        forall|j: int| 0 <= j < new_tags(cat, obs, k).len() ==>
            exists|i: int| 0 <= i < k && obs[i] == #[trigger] new_tags(cat, obs, k)[j],
        forall|j: int| 0 <= j < new_tags(cat, obs, k).len() ==> !in_catalog(cat, #[trigger] new_tags(cat, obs, k)[j]),
    decreases k,
{
    if k > 0 {
        lemma_new_tags_from(cat, obs, k - 1);
        let prev = new_tags(cat, obs, k - 1);
        let cur = new_tags(cat, obs, k);
        assert forall|j: int| 0 <= j < cur.len() implies exists|i: int| 0 <= i < k && obs[i] == #[trigger] cur[j] by {
            if j < prev.len() {
                assert(cur[j] == prev[j]);
                let i0 = choose|i: int| 0 <= i < k - 1 && obs[i] == prev[j];
                assert(obs[i0] == cur[j]);
            } else {
                assert(cur[j] == obs[k - 1]);
            }
        }
        assert forall|j: int| 0 <= j < cur.len() implies !in_catalog(cat, #[trigger] cur[j]) by {
            if j < prev.len() {
                assert(cur[j] == prev[j]);
            }
        }
    }
}

proof fn lemma_new_tags_distinct(cat: Seq<(LayerKey, u32)>, obs: Seq<LayerKey>, k: int)
    requires
        0 <= k <= obs.len(),
        forall|i: int, j: int| 0 <= i < j < obs.len() ==> obs[i] != obs[j],
    ensures
        forall|a: int, b: int| 0 <= a < b < new_tags(cat, obs, k).len() ==>
            new_tags(cat, obs, k)[a] != new_tags(cat, obs, k)[b],
    decreases k,
{
    if k > 0 {
        lemma_new_tags_distinct(cat, obs, k - 1);
        lemma_new_tags_from(cat, obs, k - 1);
        let prev = new_tags(cat, obs, k - 1);
        let cur = new_tags(cat, obs, k);
        assert forall|a: int, b: int| 0 <= a < b < cur.len() implies cur[a] != cur[b] by {
            if b < prev.len() {
                assert(cur[a] == prev[a] && cur[b] == prev[b]);
            } else {
                assert(cur[b] == obs[k - 1]);
                assert(cur[a] == prev[a]);
                let i0 = choose|i: int| 0 <= i < k - 1 && obs[i] == #[trigger] prev[a];
            }
        }
    }
}

/// The resolved styles hold one style per layer.
pub proof fn lemma_one_style_per_layer(cat: Seq<(LayerKey, u32)>, obs: Seq<LayerKey>, r: Seq<StyleSlot>)
    requires
        forall|i: int, j: int| 0 <= i < j < obs.len() ==> obs[i] != obs[j],
        slots_sorted(r),
        r.to_set() == resolved_slots(cat, obs),
    ensures
        tags_distinct(r),
{
    let nt = new_tags(cat, obs, obs.len() as int);
    lemma_new_tags_distinct(cat, obs, obs.len() as int);
    lemma_new_tags_from(cat, obs, obs.len() as int);
    assert forall|i: int, j: int| 0 <= i < j < r.len() implies r[i].tag != r[j].tag by {
        assert(r.to_set().contains(r[i]) && r.to_set().contains(r[j]));
        if r[i].tag == r[j].tag {
            let x = r[i];
            let y = r[j];
            assert(slot_lt(x, y));
            if exists|w: int| is_winner(cat, w) && x == winner_slot(cat, w) {
                let w1 = choose|w: int| is_winner(cat, w) && x == winner_slot(cat, w);
                if exists|w: int| is_winner(cat, w) && y == winner_slot(cat, w) {
                    let w2 = choose|w: int| is_winner(cat, w) && y == winner_slot(cat, w);
                    assert(w1 == w2);
                } else {
                    let k2 = choose|k: int| 0 <= k < nt.len() && y == new_slot(cat, obs, k);
                    assert(!in_catalog(cat, nt[k2]));
                }
            } else {
                let k1 = choose|k: int| 0 <= k < nt.len() && x == new_slot(cat, obs, k);
                assert(!in_catalog(cat, nt[k1]));
                if exists|w: int| is_winner(cat, w) && y == winner_slot(cat, w) {
                    let w2 = choose|w: int| is_winner(cat, w) && y == winner_slot(cat, w);
                    lemma_last_from(cat, cat[w2].0, cat.len() as int);
                } else {
                    let k2 = choose|k: int| 0 <= k < nt.len() && y == new_slot(cat, obs, k);
                    assert(k1 == k2);
                }
            }
        }
    }
}

/// The resolved styles of a scene: each catalog layer keeps its last style;
/// each layer that the drawing uses and the catalog lacks gets a default
/// style stacked after all others, in the order the layers are given; the
/// whole sorted by stacking order, then by (layer, datatype).
pub fn resolve_style_order(cat: &Vec<(LayerKey, u32)>, observed: &Vec<LayerKey>) -> (r: Vec<StyleSlot>)
    requires
        forall|i: int, j: int| 0 <= i < j < observed@.len() ==> observed@[i] != observed@[j],
        catalog_max(cat@, cat@.len() as int) + 1 + new_tags(cat@, observed@, observed@.len() as int).len()
            <= u32::MAX,
    ensures
        slots_sorted(r@),
        r@.to_set() == resolved_slots(cat@, observed@),
{
    let base = catalog_slots(cat);
    let m = catalog_max_order(cat);
    let ghost nb = base@.len();
    let ghost obs = observed@;
    let mut all = base;
    let no = observed.len();
    proof {
        lemma_new_tags_grow(cat@, obs, 0, no as int);
    }
    let mut next: u32 = m + 1;
    let mut k: usize = 0;
    while k < no
        invariant
            no == obs.len(),
            obs == observed@,
            k <= no,
            m == catalog_max(cat@, cat@.len() as int),
            catalog_max(cat@, cat@.len() as int) + 1 + new_tags(cat@, obs, no as int).len() <= u32::MAX,
            forall|i: int, j: int| 0 <= i < j < obs.len() ==> obs[i] != obs[j],
            all@.len() == nb + new_tags(cat@, obs, k as int).len(),
            next == m + 1 + new_tags(cat@, obs, k as int).len(),
            forall|j: int| 0 <= j < nb ==> all@[j] == base@[j],
            forall|j: int| 0 <= j < new_tags(cat@, obs, k as int).len() ==> #[trigger] all@[nb + j] == (StyleSlot {
                tag: new_tags(cat@, obs, k as int)[j],
                order: (m + 1 + j) as u32,
                source: None,
            }),
            tags_distinct(base@),
            forall|j: int| 0 <= j < nb ==> in_catalog(cat@, #[trigger] base@[j].tag),
            tags_distinct(all@),
        decreases no - k,
    {
        let t = observed[k];
        proof {
            lemma_new_tags_grow(cat@, obs, k + 1, no as int);
            lemma_new_tags_from(cat@, obs, k as int);
        }
        let ghost prev_all = all@;
        if !catalog_has(cat, t) {
            all.push(StyleSlot { tag: t, order: next, source: None });
            next = next + 1;
            proof {
                let nt = new_tags(cat@, obs, k as int);
                assert(new_tags(cat@, obs, k + 1) =~= nt.push(t));
                assert forall|a: int, b: int| 0 <= a < b < all@.len() implies all@[a].tag != all@[b].tag by {
                    if b == all@.len() - 1 {
                        if a < nb {
                            assert(all@[a] == base@[a]);
                        } else {
                            let j = a - nb;
                            assert(all@[nb + j].tag == nt[j]);
                            let i0 = choose|i: int| 0 <= i < k && obs[i] == #[trigger] nt[j];
                        }
                    } else {
                        assert(all@[a] == prev_all[a] && all@[b] == prev_all[b]);
                    }
                }
                assert forall|j: int| 0 <= j < new_tags(cat@, obs, k + 1).len() implies #[trigger] all@[nb + j] == (StyleSlot {
                    tag: new_tags(cat@, obs, k + 1)[j],
                    order: (m + 1 + j) as u32,
                    source: None,
                }) by {
                    if j < nt.len() {
                        assert(all@[nb + j] == prev_all[nb + j]);
                    }
                }
            }
        } else {
            proof {
                assert(new_tags(cat@, obs, k + 1) =~= new_tags(cat@, obs, k as int));
            }
        }
        k = k + 1;
    }
    proof {
        lemma_new_tags_from(cat@, obs, no as int);
    }
    let mut r: Vec<StyleSlot> = Vec::new();
    let na = all.len();
    let mut i: usize = 0;
    while i < na
        invariant
            na == all@.len(),
            i <= na,
            tags_distinct(all@),
            slots_sorted(r@),
            r@.to_set() == all@.take(i as int).to_set(),
        decreases na - i,
    {
        proof {
            assert forall|j: int| 0 <= j < r@.len() implies r@[j].tag != all@[i as int].tag by {
                assert(r@.to_set().contains(r@[j]));
                assert(all@.take(i as int).contains(r@[j]));
                let q = choose|q: int| 0 <= q < i && all@.take(i as int)[q] == r@[j];
                assert(all@[q] == r@[j]);
            }
        }
        insert_slot(&mut r, all[i]);
        proof {
            assert(all@.take(i + 1) =~= all@.take(i as int).push(all@[i as int]));
            all@.take(i as int).lemma_push_to_set_commute(all@[i as int]);
        }
        i = i + 1;
    }
    proof {
        assert(all@.take(na as int) =~= all@);
        let nt = new_tags(cat@, obs, no as int);
        assert(all@.to_set() =~= resolved_slots(cat@, obs)) by {
            assert forall|s: StyleSlot| all@.contains(s) <==> resolved_slots(cat@, obs).contains(s) by {
                if all@.contains(s) {
                    let q = choose|q: int| 0 <= q < all@.len() && all@[q] == s;
                    if q < nb {
                        assert(all@[q] == base@[q]);
                        let w = last_from(cat@, base@[q].tag, cat@.len() as int);
                        assert(is_winner(cat@, w) && s == winner_slot(cat@, w));
                    } else {
                        let j = q - nb;
                        assert(all@[nb + j] == new_slot(cat@, obs, j));
                    }
                }
                if resolved_slots(cat@, obs).contains(s) {
                    if exists|w: int| is_winner(cat@, w) && s == winner_slot(cat@, w) {
                        let w = choose|w: int| is_winner(cat@, w) && s == winner_slot(cat@, w);
                        assert(has_tag(base@, cat@[w].0));
                        let q = choose|q: int| 0 <= q < base@.len() && base@[q].tag == cat@[w].0;
                        assert(all@[q] == base@[q]);
                        assert(base@[q] == winner_slot(cat@, last_from(cat@, base@[q].tag, cat@.len() as int)));
                        assert(all@[q] == s);
                    } else {
                        let j = choose|j: int| 0 <= j < nt.len() && s == new_slot(cat@, obs, j);
                        assert(all@[nb + j] == s);
                    }
                }
            }
        }
    }
    r
}

// ─── Paint order of a layout scene ───────────────────────────────────────────

/// Element `i` is painted before element `j`: shapes before labels, then by
/// layer key.
pub open spec fn paints_before(keys: Seq<Layer>, labels: Seq<bool>, i: int, j: int) -> bool {
    (!labels[i] && labels[j]) || (labels[i] == labels[j] && keys[i] < keys[j])
}

/// Insertion step of a stable sort of element positions: `x` goes after
/// every element that is not painted after it.
pub open spec fn insert_painted(keys: Seq<Layer>, labels: Seq<bool>, s: Seq<usize>, x: usize) -> Seq<usize>
    decreases s.len(),
{
    if s.len() == 0 {
        seq![x]
    } else if paints_before(keys, labels, x as int, s.last() as int) {
        insert_painted(keys, labels, s.drop_last(), x).push(s.last())
    } else {
        s.push(x)
    }
}

/// The first `n` element positions in paint order, equal ones in their order.
pub open spec fn painted_order(keys: Seq<Layer>, labels: Seq<bool>, n: int) -> Seq<usize>
    decreases n,
{
    if n <= 0 {
        Seq::empty()
    } else {
        insert_painted(keys, labels, painted_order(keys, labels, n - 1), (n - 1) as usize)
    }
}

/// No element is painted before one listed earlier, and elements painted
/// alike keep their order.
pub open spec fn painted_sorted(keys: Seq<Layer>, labels: Seq<bool>, s: Seq<usize>) -> bool {
    forall|a: int, b: int| 0 <= a < b < s.len() ==>
        !paints_before(keys, labels, s[b] as int, s[a] as int)
        && (!paints_before(keys, labels, s[a] as int, s[b] as int) ==> s[a] < s[b])
}

/// Where `insert_painted` puts `x`: after position `p - 1`, which is not
/// painted after `x`, and before every element painted after `x`.
proof fn lemma_insert_painted_shape(keys: Seq<Layer>, labels: Seq<bool>, s: Seq<usize>, x: usize) -> (p: int)
    ensures
        0 <= p <= s.len(),
        insert_painted(keys, labels, s, x) == s.take(p).push(x) + s.skip(p),
        forall|k: int| p <= k < s.len() ==> paints_before(keys, labels, x as int, #[trigger] s[k] as int),
        p > 0 ==> !paints_before(keys, labels, x as int, s[p - 1] as int),
    decreases s.len(),
{
    if s.len() == 0 {
        assert(s.take(0).push(x) + s.skip(0) =~= seq![x]);
        0
    } else if paints_before(keys, labels, x as int, s.last() as int) {
        let d = s.drop_last();
        let q = lemma_insert_painted_shape(keys, labels, d, x);
        assert(d.take(q) =~= s.take(q));
        assert(d.skip(q).push(s.last()) =~= s.skip(q));
        assert forall|k: int| q <= k < s.len() implies paints_before(keys, labels, x as int, #[trigger] s[k] as int) by {
            if k < s.len() - 1 {
                assert(s[k] == d[k]);
            }
        }
        if q > 0 {
            assert(s[q - 1] == d[q - 1]);
        }
        assert(insert_painted(keys, labels, s, x) =~= s.take(q).push(x) + s.skip(q));
        q
    } else {
        assert(s.take(s.len() as int).push(x) + s.skip(s.len() as int) =~= s.push(x));
        s.len() as int
    }
}

/// The paint order holds each of the `n` first elements exactly once, never
/// paints an element before one listed earlier, and keeps the order of the
/// file among elements painted alike.
pub proof fn lemma_paint_order(keys: Seq<Layer>, labels: Seq<bool>, n: int)
    requires
        0 <= n <= keys.len(),
        keys.len() == labels.len(),
        n <= usize::MAX,
    ensures
        painted_order(keys, labels, n).len() == n,
        forall|k: int| 0 <= k < n ==> (#[trigger] painted_order(keys, labels, n)[k]) < n,
        forall|a: int, b: int| 0 <= a < b < n ==> painted_order(keys, labels, n)[a] != painted_order(keys, labels, n)[b],
        painted_sorted(keys, labels, painted_order(keys, labels, n)),
    decreases n, 1int,
{
    if n > 0 {
        lemma_painted_order_step(keys, labels, n);
    }
}

proof fn lemma_painted_order_step(keys: Seq<Layer>, labels: Seq<bool>, n: int)
    requires
        0 < n <= keys.len(),
        keys.len() == labels.len(),
        n <= usize::MAX,
    ensures
        painted_order(keys, labels, n).len() == n,
        forall|k: int| 0 <= k < n ==> (#[trigger] painted_order(keys, labels, n)[k]) < n,
        forall|a: int, b: int| 0 <= a < b < n ==> painted_order(keys, labels, n)[a] != painted_order(keys, labels, n)[b],
        painted_sorted(keys, labels, painted_order(keys, labels, n)),
    decreases n, 0int,
{
    lemma_paint_order(keys, labels, n - 1);
    let s = painted_order(keys, labels, n - 1);
    let x = (n - 1) as usize;
    let p = lemma_insert_painted_shape(keys, labels, s, x);
    let r = painted_order(keys, labels, n);
    assert(r == s.take(p).push(x) + s.skip(p));
    assert forall|k: int| 0 <= k < r.len() implies r[k] == (if k < p { s[k] } else if k == p { x } else { s[k - 1] }) by {}
    assert forall|k: int| 0 <= k < n implies (#[trigger] r[k]) < n by {
        if k < p { assert(r[k] == s[k]); } else if k > p { assert(r[k] == s[k - 1]); }
    }
    assert forall|a: int, b: int| 0 <= a < b < n implies r[a] != r[b] by {
        if a < p && b < p {
            assert(r[a] == s[a] && r[b] == s[b]);
        } else if a < p && b == p {
            assert(r[a] == s[a]);
        } else if a < p && b > p {
            assert(r[a] == s[a] && r[b] == s[b - 1]);
        } else if a == p {
            assert(r[b] == s[b - 1]);
        } else {
            assert(r[a] == s[a - 1] && r[b] == s[b - 1]);
        }
    }
    assert forall|a: int, b: int| 0 <= a < b < r.len() implies
        !paints_before(keys, labels, r[b] as int, r[a] as int)
        && (!paints_before(keys, labels, r[a] as int, r[b] as int) ==> r[a] < r[b]) by {
        if b < p {
            assert(r[a] == s[a] && r[b] == s[b]);
        } else if b == p {
            assert(r[a] == s[a]);
            assert(s[a] < x);
            if a < p - 1 {
                assert(!paints_before(keys, labels, s[p - 1] as int, s[a] as int));
            }
        } else if a == p {
            assert(r[b] == s[b - 1]);
            assert(paints_before(keys, labels, x as int, s[b - 1] as int));
        } else if a < p {
            assert(r[a] == s[a] && r[b] == s[b - 1]);
        } else {
            assert(r[a] == s[a - 1] && r[b] == s[b - 1]);
        }
    }
}

fn painted_before(keys: &Vec<Layer>, labels: &Vec<bool>, i: usize, j: usize) -> (r: bool)
    requires
        i < keys@.len(),
        j < keys@.len(),
        keys@.len() == labels@.len(),
    ensures
        r == paints_before(keys@, labels@, i as int, j as int),
{
    (!labels[i] && labels[j]) || (labels[i] == labels[j] && keys[i] < keys[j])
}

/// The order in which a layout scene's elements are painted: shapes by layer
/// key (the stacking order), then labels on top, each element of a layer in
/// the order of the file. `keys[i]` is the layer key of element `i` and
/// `labels[i]` tells a label from a shape.
pub fn paint_order(keys: &Vec<Layer>, labels: &Vec<bool>) -> (r: Vec<usize>)
    requires
        keys@.len() == labels@.len(),
    ensures
        r@ == painted_order(keys@, labels@, keys@.len() as int),
{
    let n = keys.len();
    let mut r: Vec<usize> = Vec::new();
    let mut i: usize = 0;
    while i < n
        invariant
            n == keys@.len(),
            n == labels@.len(),
            i <= n,
            r@ == painted_order(keys@, labels@, i as int),
            forall|k: int| 0 <= k < r@.len() ==> r@[k] < i,
        decreases n - i,
    {
        let ghost before = r@;
        let mut p: usize = r.len();
        assert(r@.skip(p as int) =~= Seq::<usize>::empty());
        assert(r@.take(p as int) =~= r@);
        while p > 0 && painted_before(keys, labels, i, r[p - 1])
            invariant
                n == keys@.len(),
                n == labels@.len(),
                i < n,
                r@ == before,
                p <= before.len(),
                forall|k: int| 0 <= k < before.len() ==> before[k] < i,
                insert_painted(keys@, labels@, before, i) == insert_painted(keys@, labels@, before.take(p as int), i)
                    + before.skip(p as int),
            decreases p,
        {
            proof {
                let t = before.take(p as int);
                assert(t.drop_last() =~= before.take(p - 1));
                assert(t.last() == before[p - 1]);
                assert(before.skip(p - 1) =~= seq![before[p - 1]] + before.skip(p as int));
                assert(insert_painted(keys@, labels@, t, i) == insert_painted(keys@, labels@, before.take(p - 1), i).push(before[p - 1]));
                assert(insert_painted(keys@, labels@, before.take(p - 1), i).push(before[p - 1]) + before.skip(p as int)
                    =~= insert_painted(keys@, labels@, before.take(p - 1), i) + before.skip(p - 1));
            }
            p = p - 1;
        }
        proof {
            let t = before.take(p as int);
            if p > 0 {
                assert(t.last() == before[p - 1]);
            } else {
                assert(t =~= Seq::<usize>::empty());
            }
        }
        r.insert(p, i);
        proof {
            assert(r@ =~= before.take(p as int).push(i) + before.skip(p as int));
            assert forall|k: int| 0 <= k < r@.len() implies r@[k] < i + 1 by {
                if k < p {
                    assert(r@[k] == before[k]);
                } else if k > p {
                    assert(r@[k] == before[k - 1]);
                }
            }
        }
        i = i + 1;
    }
    r
}

} // verus!
