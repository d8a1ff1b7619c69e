//! Layer palettes and layer tables of the supported process design kits.

use vstd::prelude::*;
use crate::gds_diff::LayerKey;
use crate::style::{Color, Pdk};
use crate::text::{ascii_lower_seq, chars_of, has_infix, contains, lower_ascii, str_is};

verus! {

/// How a layer is painted, by its physical function.
#[derive(Clone, Copy, Debug, PartialEq, Eq, Structural)]
pub enum LayerRole {
    /// Device and interconnect geometry: visible fill.
    Device,
    /// Wells: cover whole cells, a faint fill.
    Well,
    /// Implants, markers, boundaries, pins and labels: outline only.
    Outline,
}

/// Resolved style of a layer for a PDK.
#[derive(Clone, Copy, Debug, PartialEq, Eq)]
pub struct LayerSpec {
    /// The PDK's name of the layer (`"met1"`), when the layer is known.
    pub name: Option<&'static str>,
    pub color: Color,
    pub role: LayerRole,
    /// Stacking rank (lower is drawn first, ends up below).
    pub rank: u32,
}

/// One entry of a PDK layer table.
#[derive(Clone, Copy, Debug)]
pub struct PdkLayer {
    pub layer: u32,
    pub datatype: u32,
    pub name: &'static str,
    pub color: Color,
    pub role: LayerRole,
}

/// The SKY130 layer table, in stacking order: wells at the bottom, metals on
/// top, then outlines of pins and markers.
pub open spec fn sky130_layers() -> Seq<PdkLayer> {
    seq![
        PdkLayer { layer: 64, datatype: 18, name: "dnwell", color: Color { r: 110, g: 110, b: 70, a: 255 }, role: LayerRole::Well },
        PdkLayer { layer: 64, datatype: 44, name: "pwell", color: Color { r: 150, g: 120, b: 90, a: 255 }, role: LayerRole::Well },
        PdkLayer { layer: 64, datatype: 20, name: "nwell", color: Color { r: 140, g: 150, b: 90, a: 255 }, role: LayerRole::Well },
        PdkLayer { layer: 75, datatype: 20, name: "hvi", color: Color { r: 170, g: 140, b: 90, a: 255 }, role: LayerRole::Outline },
        PdkLayer { layer: 78, datatype: 44, name: "hvtp", color: Color { r: 200, g: 170, b: 110, a: 255 }, role: LayerRole::Outline },
        PdkLayer { layer: 93, datatype: 44, name: "nsdm", color: Color { r: 110, g: 150, b: 220, a: 255 }, role: LayerRole::Outline },
        PdkLayer { layer: 94, datatype: 20, name: "psdm", color: Color { r: 220, g: 140, b: 110, a: 255 }, role: LayerRole::Outline },
        PdkLayer { layer: 95, datatype: 20, name: "npc", color: Color { r: 140, g: 200, b: 140, a: 255 }, role: LayerRole::Outline },
        PdkLayer { layer: 65, datatype: 20, name: "diff", color: Color { r: 40, g: 190, b: 70, a: 255 }, role: LayerRole::Device },
        PdkLayer { layer: 65, datatype: 44, name: "tap", color: Color { r: 30, g: 150, b: 110, a: 255 }, role: LayerRole::Device },
        PdkLayer { layer: 66, datatype: 20, name: "poly", color: Color { r: 230, g: 50, b: 50, a: 255 }, role: LayerRole::Device },
        PdkLayer { layer: 66, datatype: 44, name: "licon1", color: Color { r: 200, g: 200, b: 200, a: 255 }, role: LayerRole::Device },
        PdkLayer { layer: 67, datatype: 20, name: "li1", color: Color { r: 160, g: 110, b: 230, a: 255 }, role: LayerRole::Device },
        PdkLayer { layer: 67, datatype: 44, name: "mcon", color: Color { r: 220, g: 220, b: 220, a: 255 }, role: LayerRole::Device },
        PdkLayer { layer: 68, datatype: 20, name: "met1", color: Color { r: 60, g: 130, b: 240, a: 255 }, role: LayerRole::Device },
        PdkLayer { layer: 68, datatype: 44, name: "via", color: Color { r: 230, g: 230, b: 230, a: 255 }, role: LayerRole::Device },
        PdkLayer { layer: 69, datatype: 20, name: "met2", color: Color { r: 230, g: 70, b: 200, a: 255 }, role: LayerRole::Device },
        PdkLayer { layer: 69, datatype: 44, name: "via2", color: Color { r: 230, g: 230, b: 230, a: 255 }, role: LayerRole::Device },
        PdkLayer { layer: 70, datatype: 20, name: "met3", color: Color { r: 40, g: 200, b: 210, a: 255 }, role: LayerRole::Device },
        PdkLayer { layer: 70, datatype: 44, name: "via3", color: Color { r: 230, g: 230, b: 230, a: 255 }, role: LayerRole::Device },
        PdkLayer { layer: 71, datatype: 20, name: "met4", color: Color { r: 240, g: 150, b: 40, a: 255 }, role: LayerRole::Device },
        PdkLayer { layer: 71, datatype: 44, name: "via4", color: Color { r: 230, g: 230, b: 230, a: 255 }, role: LayerRole::Device },
        PdkLayer { layer: 72, datatype: 20, name: "met5", color: Color { r: 230, g: 210, b: 60, a: 255 }, role: LayerRole::Device },
        PdkLayer { layer: 64, datatype: 16, name: "nwell.pin", color: Color { r: 140, g: 150, b: 90, a: 255 }, role: LayerRole::Outline },
        PdkLayer { layer: 122, datatype: 16, name: "pwell.pin", color: Color { r: 150, g: 120, b: 90, a: 255 }, role: LayerRole::Outline },
        PdkLayer { layer: 67, datatype: 16, name: "li1.pin", color: Color { r: 160, g: 110, b: 230, a: 255 }, role: LayerRole::Outline },
        PdkLayer { layer: 68, datatype: 16, name: "met1.pin", color: Color { r: 60, g: 130, b: 240, a: 255 }, role: LayerRole::Outline },
        PdkLayer { layer: 69, datatype: 16, name: "met2.pin", color: Color { r: 230, g: 70, b: 200, a: 255 }, role: LayerRole::Outline },
        PdkLayer { layer: 81, datatype: 4, name: "areaid.sc", color: Color { r: 120, g: 120, b: 120, a: 255 }, role: LayerRole::Outline },
        PdkLayer { layer: 235, datatype: 4, name: "prBoundary", color: Color { r: 180, g: 180, b: 180, a: 255 }, role: LayerRole::Outline },
        PdkLayer { layer: 236, datatype: 0, name: "boundary", color: Color { r: 180, g: 180, b: 180, a: 255 }, role: LayerRole::Outline },
        PdkLayer { layer: 64, datatype: 5, name: "nwell.label", color: Color { r: 190, g: 200, b: 140, a: 255 }, role: LayerRole::Outline },
        PdkLayer { layer: 64, datatype: 59, name: "pwell.label", color: Color { r: 200, g: 170, b: 140, a: 255 }, role: LayerRole::Outline },
        PdkLayer { layer: 67, datatype: 5, name: "li1.label", color: Color { r: 200, g: 170, b: 250, a: 255 }, role: LayerRole::Outline },
        PdkLayer { layer: 68, datatype: 5, name: "met1.label", color: Color { r: 140, g: 190, b: 255, a: 255 }, role: LayerRole::Outline },
        PdkLayer { layer: 69, datatype: 5, name: "met2.label", color: Color { r: 250, g: 150, b: 230, a: 255 }, role: LayerRole::Outline },
        PdkLayer { layer: 83, datatype: 44, name: "text", color: Color { r: 220, g: 220, b: 160, a: 255 }, role: LayerRole::Outline },
    ]
}

/// The hashed fallback palette.
pub open spec fn generic_palette() -> Seq<Color> {
    seq![
        Color { r: 76, g: 175, b: 80, a: 255 },
        Color { r: 33, g: 150, b: 243, a: 255 },
        Color { r: 255, g: 193, b: 7, a: 255 },
        Color { r: 244, g: 67, b: 54, a: 255 },
        Color { r: 0, g: 188, b: 212, a: 255 },
        Color { r: 156, g: 39, b: 176, a: 255 },
        Color { r: 255, g: 152, b: 0, a: 255 },
        Color { r: 63, g: 81, b: 181, a: 255 },
        Color { r: 205, g: 220, b: 57, a: 255 },
        Color { r: 121, g: 85, b: 72, a: 255 },
        Color { r: 96, g: 125, b: 139, a: 255 },
        Color { r: 233, g: 30, b: 99, a: 255 },
    ]
}

/// Layer table of a PDK; only SKY130 has one.
pub open spec fn pdk_table(pdk: Pdk) -> Seq<PdkLayer> {
    if pdk == Pdk::Sky130 {
        sky130_layers()
    } else {
        Seq::empty()
    }
}

pub open spec fn layer_is(l: PdkLayer, tag: LayerKey) -> bool {
    l.layer == tag.layer && l.datatype == tag.datatype
}

/// `i` is the first position of `t` that holds `tag`.
pub open spec fn is_first_match(t: Seq<PdkLayer>, tag: LayerKey, i: int) -> bool {
    &&& 0 <= i < t.len()
    &&& layer_is(t[i], tag)
    &&& forall|j: int| 0 <= j < i ==> !layer_is(#[trigger] t[j], tag)
}

/// Position of `tag` in the PDK's table, the first one where it occurs.
pub open spec fn pdk_layer_rank(tag: LayerKey, pdk: Pdk) -> Option<int> {
    if exists|i: int| is_first_match(pdk_table(pdk), tag, i) {
        Some(choose|i: int| is_first_match(pdk_table(pdk), tag, i))
    } else {
        None
    }
}

/// Position of a tag in the hashed fallback palette.
pub open spec fn palette_index(tag: LayerKey) -> int {
    ((tag.layer as int) * 31 + (tag.datatype as int)) % 12
}

/// Conventional colour of a layer: the PDK's, else the hashed palette's.
pub open spec fn tag_color(tag: LayerKey, pdk: Pdk) -> Color {
    match pdk_layer_rank(tag, pdk) {
        Some(i) => pdk_table(pdk)[i].color,
        None => generic_palette()[palette_index(tag)],
    }
}

/// Datatypes that SKY130 uses for pins, labels and markers.
pub open spec fn is_outline_datatype(datatype: u32) -> bool {
    datatype == 4 || datatype == 5 || datatype == 16 || datatype == 59
}

/// Full style of a layer: name, colour, role and stacking rank.
pub open spec fn layer_spec_of(tag: LayerKey, pdk: Pdk) -> LayerSpec {
    match pdk_layer_rank(tag, pdk) {
        Some(i) => LayerSpec {
            name: Some(pdk_table(pdk)[i].name),
            color: pdk_table(pdk)[i].color,
            role: pdk_table(pdk)[i].role,
            rank: i as u32,
        },
        None => if pdk == Pdk::Sky130 {
            LayerSpec {
                name: None,
                color: tag_color(tag, pdk),
                role: if is_outline_datatype(tag.datatype) { LayerRole::Outline } else { LayerRole::Device },
                rank: sky130_layers().len() as u32,
            }
        } else {
            LayerSpec { name: None, color: tag_color(tag, pdk), role: LayerRole::Device, rank: 0 }
        },
    }
}

/// In SKY130, a layer missing from the PDK's table is stacked above every
/// layer of the table.
pub proof fn lemma_unknown_layers_stack_on_top(known: LayerKey, unknown: LayerKey)
    requires
        pdk_layer_rank(known, Pdk::Sky130) is Some,
        pdk_layer_rank(unknown, Pdk::Sky130) is None,
    ensures
        layer_spec_of(known, Pdk::Sky130).rank < layer_spec_of(unknown, Pdk::Sky130).rank,
{
    let i = choose|i: int| is_first_match(pdk_table(Pdk::Sky130), known, i);
    assert(0 <= i < sky130_layers().len());
}

/// Without a PDK table (generic, GF180, IHP) every layer is a device layer of
/// the same rank, so a stable sort keeps the order of the file.
pub proof fn lemma_untabled_layers_share_rank(a: LayerKey, b: LayerKey, pdk: Pdk)
    requires
        pdk != Pdk::Sky130,
    ensures
        layer_spec_of(a, pdk).rank == layer_spec_of(b, pdk).rank,
        layer_spec_of(a, pdk).role == LayerRole::Device,
{
}

fn rgb(r: u8, g: u8, b: u8) -> (c: Color)
    ensures
        c == (Color { r, g, b, a: 255 }),
{
    Color::rgba(r, g, b, 255)
}

fn pl(layer: u32, datatype: u32, name: &'static str, color: Color, role: LayerRole) -> (l: PdkLayer)
    ensures
        l == (PdkLayer { layer, datatype, name, color, role }),
{
    PdkLayer { layer, datatype, name, color, role }
}

fn sky130_layer_table() -> (v: Vec<PdkLayer>)
    ensures
        v@ == sky130_layers(),
{
    let v = vec![
        pl(64, 18, "dnwell", rgb(110, 110, 70), LayerRole::Well),
        pl(64, 44, "pwell", rgb(150, 120, 90), LayerRole::Well),
        pl(64, 20, "nwell", rgb(140, 150, 90), LayerRole::Well),
        pl(75, 20, "hvi", rgb(170, 140, 90), LayerRole::Outline),
        pl(78, 44, "hvtp", rgb(200, 170, 110), LayerRole::Outline),
        pl(93, 44, "nsdm", rgb(110, 150, 220), LayerRole::Outline),
        pl(94, 20, "psdm", rgb(220, 140, 110), LayerRole::Outline),
        pl(95, 20, "npc", rgb(140, 200, 140), LayerRole::Outline),
        pl(65, 20, "diff", rgb(40, 190, 70), LayerRole::Device),
        pl(65, 44, "tap", rgb(30, 150, 110), LayerRole::Device),
        pl(66, 20, "poly", rgb(230, 50, 50), LayerRole::Device),
        pl(66, 44, "licon1", rgb(200, 200, 200), LayerRole::Device),
        pl(67, 20, "li1", rgb(160, 110, 230), LayerRole::Device),
        pl(67, 44, "mcon", rgb(220, 220, 220), LayerRole::Device),
        pl(68, 20, "met1", rgb(60, 130, 240), LayerRole::Device),
        pl(68, 44, "via", rgb(230, 230, 230), LayerRole::Device),
        pl(69, 20, "met2", rgb(230, 70, 200), LayerRole::Device),
        pl(69, 44, "via2", rgb(230, 230, 230), LayerRole::Device),
        pl(70, 20, "met3", rgb(40, 200, 210), LayerRole::Device),
        pl(70, 44, "via3", rgb(230, 230, 230), LayerRole::Device),
        pl(71, 20, "met4", rgb(240, 150, 40), LayerRole::Device),
        pl(71, 44, "via4", rgb(230, 230, 230), LayerRole::Device),
        pl(72, 20, "met5", rgb(230, 210, 60), LayerRole::Device),
        pl(64, 16, "nwell.pin", rgb(140, 150, 90), LayerRole::Outline),
        pl(122, 16, "pwell.pin", rgb(150, 120, 90), LayerRole::Outline),
        pl(67, 16, "li1.pin", rgb(160, 110, 230), LayerRole::Outline),
        pl(68, 16, "met1.pin", rgb(60, 130, 240), LayerRole::Outline),
        pl(69, 16, "met2.pin", rgb(230, 70, 200), LayerRole::Outline),
        pl(81, 4, "areaid.sc", rgb(120, 120, 120), LayerRole::Outline),
        pl(235, 4, "prBoundary", rgb(180, 180, 180), LayerRole::Outline),
        pl(236, 0, "boundary", rgb(180, 180, 180), LayerRole::Outline),
        pl(64, 5, "nwell.label", rgb(190, 200, 140), LayerRole::Outline),
        pl(64, 59, "pwell.label", rgb(200, 170, 140), LayerRole::Outline),
        pl(67, 5, "li1.label", rgb(200, 170, 250), LayerRole::Outline),
        pl(68, 5, "met1.label", rgb(140, 190, 255), LayerRole::Outline),
        pl(69, 5, "met2.label", rgb(250, 150, 230), LayerRole::Outline),
        pl(83, 44, "text", rgb(220, 220, 160), LayerRole::Outline),
    ];
    assert(v@ =~= sky130_layers());
    v
}

fn generic_palette_table() -> (v: Vec<Color>)
    ensures
        v@ == generic_palette(),
{
    let v = vec![
        rgb(76, 175, 80),
        rgb(33, 150, 243),
        rgb(255, 193, 7),
        rgb(244, 67, 54),
        rgb(0, 188, 212),
        rgb(156, 39, 176),
        rgb(255, 152, 0),
        rgb(63, 81, 181),
        rgb(205, 220, 57),
        rgb(121, 85, 72),
        rgb(96, 125, 139),
        rgb(233, 30, 99),
    ];
    assert(v@ =~= generic_palette());
    v
}

/// The first entry of the PDK's table that holds `tag`, with its position.
pub fn find_pdk_layer(tag: LayerKey, pdk: Pdk) -> (r: Option<(usize, PdkLayer)>)
    ensures
        match r {
            Some((i, l)) => pdk_layer_rank(tag, pdk) == Some(i as int) && l == pdk_table(pdk)[i as int],
            None => pdk_layer_rank(tag, pdk) is None,
        },
{
    if pdk != Pdk::Sky130 {
        return None;
    }
    let table = sky130_layer_table();
    let n = table.len();
    let mut i: usize = 0;
    while i < n
        invariant
            pdk == Pdk::Sky130,
            table@ == pdk_table(pdk),
            n == table@.len(),
            i <= n,
            forall|j: int| 0 <= j < i ==> !layer_is(#[trigger] table@[j], tag),
        decreases n - i,
    {
        let l = table[i];
        if l.layer == tag.layer && l.datatype == tag.datatype {
            assert(is_first_match(pdk_table(pdk), tag, i as int));
            let ghost k = choose|k: int| is_first_match(pdk_table(pdk), tag, k);
            assert(k == i as int) by {
                if k < i {
                    assert(!layer_is(table@[k], tag));
                } else if k > i {
                    assert(!layer_is(table@[i as int], tag));
                }
            }
            return Some((i, l));
        }
        i = i + 1;
    }
    assert(!exists|k: int| is_first_match(pdk_table(pdk), tag, k)) by {
        assert forall|k: int| !is_first_match(pdk_table(pdk), tag, k) by {
            if 0 <= k < n {
                assert(!layer_is(table@[k], tag));
            }
        }
    }
    None
}

/// Conventional colour of a layer: the PDK's colour for known layers, else
/// a colour of the fallback palette chosen by hashing the tag.
pub fn color_for_tag(tag: LayerKey, pdk: Pdk) -> (c: Color)
    ensures
        c == tag_color(tag, pdk),
{
    if let Some((_, l)) = find_pdk_layer(tag, pdk) {
        return l.color;
    }
    let palette = generic_palette_table();
    let index: u64 = ((tag.layer as u64) * 31 + (tag.datatype as u64)) % 12;
    palette[index as usize]
}

/// Name and conventional colour of a layer the PDK knows; `None` otherwise.
/// Only SKY130 has a table; the other kits have none.
pub fn named_layer(tag: LayerKey, pdk: Pdk) -> (r: Option<(&'static str, Color)>)
    ensures
        match pdk_layer_rank(tag, pdk) {
            Some(i) => r == Some((pdk_table(pdk)[i].name, pdk_table(pdk)[i].color)),
            None => r is None,
        },
{
    match find_pdk_layer(tag, pdk) {
        Some((_, l)) => Some((l.name, l.color)),
        None => None,
    }
}

/// Full style of a layer. Layers outside the PDK's table: on SKY130 the role
/// follows the datatype (pins, labels and markers are outlined) and they stack
/// above every known layer; on the other kits all are device layers of one
/// rank, so that a stable sort keeps the file order.
pub fn layer_spec(tag: LayerKey, pdk: Pdk) -> (s: LayerSpec)
    ensures
        s == layer_spec_of(tag, pdk),
{
    if let Some((rank, l)) = find_pdk_layer(tag, pdk) {
        assert(rank < 37);
        return LayerSpec { name: Some(l.name), color: l.color, role: l.role, rank: rank as u32 };
    }
    let color = color_for_tag(tag, pdk);
    match pdk {
        Pdk::Sky130 => {
            let role = if tag.datatype == 4 || tag.datatype == 5 || tag.datatype == 16 || tag.datatype == 59 {
                LayerRole::Outline
            } else {
                LayerRole::Device
            };
            LayerSpec { name: None, color, role, rank: 37 }
        },
        _ => LayerSpec { name: None, color, role: LayerRole::Device, rank: 0 },
    }
}

/// Fill and stroke colours of a highlight group (`added`, `removed`,
/// `modified`; anything else is drawn in red).
pub open spec fn highlight_colors(kind: Seq<char>) -> (Color, Color) {
    if kind == seq!['a', 'd', 'd', 'e', 'd'] {
        (Color { r: 0, g: 200, b: 0, a: 255 }, Color { r: 0, g: 120, b: 0, a: 255 })
    } else if kind == seq!['r', 'e', 'm', 'o', 'v', 'e', 'd'] {
        (Color { r: 200, g: 0, b: 0, a: 255 }, Color { r: 120, g: 0, b: 0, a: 255 })
    } else if kind == seq!['m', 'o', 'd', 'i', 'f', 'i', 'e', 'd'] {
        (Color { r: 255, g: 180, b: 0, a: 255 }, Color { r: 180, g: 120, b: 0, a: 255 })
    } else {
        (Color { r: 255, g: 0, b: 0, a: 255 }, Color { r: 180, g: 0, b: 0, a: 255 })
    }
}

pub fn highlight_style(kind: &str) -> (c: (Color, Color))
    ensures
        c == highlight_colors(kind@),
{
    proof {
        reveal_strlit("added");
        reveal_strlit("removed");
        reveal_strlit("modified");
        assert("added"@ =~= seq!['a', 'd', 'd', 'e', 'd']);
        assert("removed"@ =~= seq!['r', 'e', 'm', 'o', 'v', 'e', 'd']);
        assert("modified"@ =~= seq!['m', 'o', 'd', 'i', 'f', 'i', 'e', 'd']);
    }
    if str_is(kind, "added") {
        (Color::rgba(0, 200, 0, 255), Color::rgba(0, 120, 0, 255))
    } else if str_is(kind, "removed") {
        (Color::rgba(200, 0, 0, 255), Color::rgba(120, 0, 0, 255))
    } else if str_is(kind, "modified") {
        (Color::rgba(255, 180, 0, 255), Color::rgba(180, 120, 0, 255))
    } else {
        (Color::rgba(255, 0, 0, 255), Color::rgba(180, 0, 0, 255))
    }
}

pub open spec fn lit_sky130() -> Seq<char> { seq!['s', 'k', 'y', '1', '3', '0'] }
pub open spec fn lit_gf180() -> Seq<char> { seq!['g', 'f', '1', '8', '0'] }
pub open spec fn lit_ihp() -> Seq<char> { seq!['i', 'h', 'p'] }
pub open spec fn lit_sg13g2() -> Seq<char> { seq!['s', 'g', '1', '3', 'g', '2'] }

/// The PDK that a file path names, if any (case is ignored).
pub open spec fn pdk_of_path(p: Seq<char>) -> Option<Pdk> {
    let l = ascii_lower_seq(p);
    if has_infix(l, lit_sky130()) {
        Some(Pdk::Sky130)
    } else if has_infix(l, lit_gf180()) {
        Some(Pdk::Gf180)
    } else if has_infix(l, lit_ihp()) || has_infix(l, lit_sg13g2()) {
        Some(Pdk::Ihp)
    } else {
        None
    }
}

/// `tags` holds the layer `layer/datatype`.
pub open spec fn holds_tag(tags: Seq<LayerKey>, layer: u32, datatype: u32) -> bool {
    exists|i: int| 0 <= i < tags.len() && tags[i] == (LayerKey { layer, datatype })
}

/// How many of SKY130's poly 66/20, li1 67/20 and met1 68/20 occur in `tags`.
pub open spec fn sky130_marker_hits(tags: Seq<LayerKey>) -> nat {
    (if holds_tag(tags, 66, 20) { 1nat } else { 0nat })
        + (if holds_tag(tags, 67, 20) { 1nat } else { 0nat })
        + (if holds_tag(tags, 68, 20) { 1nat } else { 0nat })
}

/// The PDK of a layout: by its path first, then by the drawing layers present.
pub open spec fn detected_pdk(path_hint: Option<Seq<char>>, tags: Seq<LayerKey>) -> Pdk {
    match path_hint {
        Some(p) if pdk_of_path(p) is Some => pdk_of_path(p)->0,
        _ => if sky130_marker_hits(tags) >= 2 { Pdk::Sky130 } else { Pdk::Generic },
    }
}

fn has_tag(tags: &[LayerKey], layer: u32, datatype: u32) -> (r: bool)
    ensures
        r == holds_tag(tags@, layer, datatype),
{
    let n = tags.len();
    let mut i: usize = 0;
    while i < n
        invariant
            n == tags@.len(),
            i <= n,
            forall|j: int| 0 <= j < i ==> tags@[j] != (LayerKey { layer, datatype }),
        decreases n - i,
    {
        if tags[i].layer == layer && tags[i].datatype == datatype {
            return true;
        }
        i = i + 1;
    }
    false
}

fn path_pdk(p: &str) -> (r: Option<Pdk>)
    ensures
        r == pdk_of_path(p@),
{
    proof {
        reveal_strlit("sky130");
        reveal_strlit("gf180");
        reveal_strlit("ihp");
        reveal_strlit("sg13g2");
        assert("sky130"@ =~= lit_sky130());
        assert("gf180"@ =~= lit_gf180());
        assert("ihp"@ =~= lit_ihp());
        assert("sg13g2"@ =~= lit_sg13g2());
    }
    let raw = chars_of(p);
    let l = lower_ascii(&raw);
    if contains(&l, &chars_of("sky130")) {
        Some(Pdk::Sky130)
    } else if contains(&l, &chars_of("gf180")) {
        Some(Pdk::Gf180)
    } else if contains(&l, &chars_of("ihp")) || contains(&l, &chars_of("sg13g2")) {
        Some(Pdk::Ihp)
    } else {
        None
    }
}

/// A path that names no PDK decides nothing: the layers alone do, as with no
/// path at all, and they make the layout SKY130 exactly when at least two of
/// poly (66/20), li1 (67/20) and met1 (68/20) are drawn; else it is generic.
/// A path that names a PDK decides it.
pub proof fn lemma_pdk_from_path_then_layers(path: Seq<char>, tags: Seq<LayerKey>)
    ensures
        pdk_of_path(path) is None ==> detected_pdk(Some(path), tags) == detected_pdk(None, tags),
        pdk_of_path(path) matches Some(k) ==> detected_pdk(Some(path), tags) == k,
        detected_pdk(None, tags) == Pdk::Sky130 <==> (
            (holds_tag(tags, 66, 20) && holds_tag(tags, 67, 20))
            || (holds_tag(tags, 66, 20) && holds_tag(tags, 68, 20))
            || (holds_tag(tags, 67, 20) && holds_tag(tags, 68, 20))),
        detected_pdk(None, tags) == Pdk::Sky130 || detected_pdk(None, tags) == Pdk::Generic,
{
}

/// Infers the PDK of a layout: first from its path (the kits live in folders
/// `sky130*`, `gf180*`, `ihp-sg13g2`), then from the drawing layers present;
/// `Generic` when there is no evidence.
pub fn detect_pdk(path_hint: Option<&str>, tags: &[LayerKey]) -> (p: Pdk)
    ensures
        p == detected_pdk(
            match path_hint {
                Some(s) => Some(s@),
                None => None,
            },
            tags@,
        ),
        (match path_hint {
            Some(s) => pdk_of_path(s@) is None,
            None => true,
        }) ==> (p == Pdk::Sky130 || p == Pdk::Generic) && (p == Pdk::Sky130 <==> (
            (holds_tag(tags@, 66, 20) && holds_tag(tags@, 67, 20))
            || (holds_tag(tags@, 66, 20) && holds_tag(tags@, 68, 20))
            || (holds_tag(tags@, 67, 20) && holds_tag(tags@, 68, 20)))),
        match path_hint {
            Some(s) => match pdk_of_path(s@) {
                Some(k) => p == k,
                None => true,
            },
            None => true,
        },
{
    if let Some(p) = path_hint {
        if let Some(k) = path_pdk(p) {
            return k;
        }
    }
    let mut hits: u32 = 0;
    if has_tag(tags, 66, 20) {
        hits = hits + 1;
    }
    if has_tag(tags, 67, 20) {
        hits = hits + 1;
    }
    if has_tag(tags, 68, 20) {
        hits = hits + 1;
    }
    if hits >= 2 {
        Pdk::Sky130
    } else {
        Pdk::Generic
    }
}

} // verus!
