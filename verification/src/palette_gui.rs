//! Colours of the desktop viewer: the neutral layer palette, the schematic
//! layer colours and the colours of diff annotations.

use vstd::prelude::*;
use crate::models::ChangeKind;
use crate::style::Color;

verus! {

/// One channel of the hashed neutral colour: the low byte of the 16-bit
/// wrapping product, lifted by 80 and held at 255.
pub open spec fn hashed_channel(layer: u16, factor: nat) -> u8 {
    let low = ((layer as nat * factor) % 65536) % 256;
    if low + 80 > 255 { 255 } else { (low + 80) as u8 }
}

/// Neutral colour of a layer when the scene brings no paint of its own.
pub open spec fn neutral_color(layer: u16) -> Color {
    match layer {
        1 => Color { r: 180, g: 180, b: 200, a: 255 },
        2 => Color { r: 120, g: 120, b: 140, a: 255 },
        3 => Color { r: 220, g: 220, b: 160, a: 255 },
        4 => Color { r: 120, g: 200, b: 255, a: 255 },
        5 => Color { r: 180, g: 200, b: 255, a: 255 },
        6 => Color { r: 220, g: 180, b: 120, a: 255 },
        _ => Color {
            r: hashed_channel(layer, 131),
            g: hashed_channel(layer, 197),
            b: hashed_channel(layer, 263),
            a: 255,
        },
    }
}

fn hashed(layer: u16, factor: u16) -> (c: u8)
    requires
        factor == 131 || factor == 197 || factor == 263,
    ensures
        c == hashed_channel(layer, factor as nat),
{
    let w: u16 = layer.wrapping_mul(factor);
    let low: u16 = w & 0xFF;
    assert(w & 0xFF == w % 256) by (bit_vector);
    let b: u8 = low as u8;
    b.saturating_add(80)
}

/// Neutral palette: wires, grid, text, pins, labels and components have
/// fixed colours; any other layer gets a colour hashed from its number.
pub fn neutral_layer_color(layer: u16) -> (c: Color)
    ensures
        c == neutral_color(layer),
{
    match layer {
        1 => Color::rgba(180, 180, 200, 255),
        2 => Color::rgba(120, 120, 140, 255),
        3 => Color::rgba(220, 220, 160, 255),
        4 => Color::rgba(120, 200, 255, 255),
        5 => Color::rgba(180, 200, 255, 255),
        6 => Color::rgba(220, 180, 120, 255),
        _ => Color::rgba(hashed(layer, 131), hashed(layer, 197), hashed(layer, 263), 255),
    }
}

/// Colour of a schematic layer: wires, components, text and pins.
pub open spec fn sch_color(layer: i32) -> Color {
    match layer {
        1 => Color { r: 100, g: 180, b: 255, a: 255 },
        2 => Color { r: 200, g: 200, b: 100, a: 255 },
        3 => Color { r: 180, g: 180, b: 180, a: 255 },
        4 => Color { r: 100, g: 220, b: 100, a: 255 },
        _ => Color { r: 160, g: 160, b: 160, a: 255 },
    }
}

pub fn layer_color(layer: i32) -> (c: Color)
    ensures
        c == sch_color(layer),
{
    match layer {
        1 => Color::rgba(100, 180, 255, 255),
        2 => Color::rgba(200, 200, 100, 255),
        3 => Color::rgba(180, 180, 180, 255),
        4 => Color::rgba(100, 220, 100, 255),
        _ => Color::rgba(160, 160, 160, 255),
    }
}

/// Fill and stroke of a component's annotation box: green added, red removed,
/// cyan only moved, grey other cosmetic changes, yellow modified.
pub open spec fn annotation_palette(kind: ChangeKind, cosmetic: bool, position_changed: bool) -> (Color, Color) {
    match kind {
        ChangeKind::Added => (Color { r: 0, g: 200, b: 0, a: 50 }, Color { r: 0, g: 200, b: 0, a: 255 }),
        ChangeKind::Removed => (Color { r: 200, g: 0, b: 0, a: 50 }, Color { r: 200, g: 0, b: 0, a: 255 }),
        ChangeKind::Modified => if cosmetic && position_changed {
            (Color { r: 0, g: 190, b: 255, a: 40 }, Color { r: 0, g: 190, b: 255, a: 255 })
        } else if cosmetic {
            (Color { r: 120, g: 120, b: 120, a: 40 }, Color { r: 160, g: 160, b: 160, a: 255 })
        } else {
            (Color { r: 255, g: 180, b: 0, a: 50 }, Color { r: 255, g: 180, b: 0, a: 255 })
        },
    }
}

pub fn annotation_colors(kind: ChangeKind, cosmetic: bool, position_changed: bool) -> (c: (Color, Color))
    ensures
        c == annotation_palette(kind, cosmetic, position_changed),
{
    match kind {
        ChangeKind::Added => (Color::rgba(0, 200, 0, 50), Color::rgba(0, 200, 0, 255)),
        ChangeKind::Removed => (Color::rgba(200, 0, 0, 50), Color::rgba(200, 0, 0, 255)),
        ChangeKind::Modified => if cosmetic && position_changed {
            (Color::rgba(0, 190, 255, 40), Color::rgba(0, 190, 255, 255))
        } else if cosmetic {
            (Color::rgba(120, 120, 120, 40), Color::rgba(160, 160, 160, 255))
        } else {
            (Color::rgba(255, 180, 0, 50), Color::rgba(255, 180, 0, 255))
        },
    }
}

/// How the change list shows one component change.
#[derive(Clone, Copy, Debug, PartialEq, Eq, Structural)]
pub struct ChangeChip {
    /// `+`, `-`, `~`, or `↦` for a change that only moved the component.
    pub prefix: char,
    pub color: Color,
    /// Second border colour of a change that both modified and moved.
    pub extra: Option<Color>,
}

pub open spec fn added_color() -> Color { Color { r: 0, g: 200, b: 0, a: 255 } }
pub open spec fn removed_color() -> Color { Color { r: 200, g: 0, b: 0, a: 255 } }
pub open spec fn modified_color() -> Color { Color { r: 255, g: 180, b: 0, a: 255 } }
pub open spec fn moved_color() -> Color { Color { r: 0, g: 190, b: 255, a: 255 } }

/// The chip of a component change; none for a cosmetic change that did not
/// move the component (part of a whole-drawing rearrangement).
pub open spec fn chip_of(kind: ChangeKind, cosmetic: bool, position_changed: bool) -> Option<ChangeChip> {
    if cosmetic && !position_changed {
        None
    } else {
        Some(match kind {
            ChangeKind::Added => ChangeChip { prefix: '+', color: added_color(), extra: None },
            ChangeKind::Removed => ChangeChip { prefix: '-', color: removed_color(), extra: None },
            ChangeKind::Modified => if cosmetic && position_changed {
                ChangeChip { prefix: '↦', color: moved_color(), extra: None }
            } else if position_changed {
                ChangeChip { prefix: '~', color: modified_color(), extra: Some(moved_color()) }
            } else {
                ChangeChip { prefix: '~', color: modified_color(), extra: None }
            },
        })
    }
}

pub fn change_chip(kind: ChangeKind, cosmetic: bool, position_changed: bool) -> (c: Option<ChangeChip>)
    ensures
        c == chip_of(kind, cosmetic, position_changed),
{
    if cosmetic && !position_changed {
        return None;
    }
    let added = Color::rgba(0, 200, 0, 255);
    let removed = Color::rgba(200, 0, 0, 255);
    let modified = Color::rgba(255, 180, 0, 255);
    let moved = Color::rgba(0, 190, 255, 255);
    let moved_only = kind == ChangeKind::Modified && cosmetic && position_changed;
    Some(match kind {
        ChangeKind::Added => ChangeChip { prefix: '+', color: added, extra: None },
        ChangeKind::Removed => ChangeChip { prefix: '-', color: removed, extra: None },
        ChangeKind::Modified => if moved_only {
            ChangeChip { prefix: '↦', color: moved, extra: None }
        } else if position_changed {
            ChangeChip { prefix: '~', color: modified, extra: Some(moved) }
        } else {
            ChangeChip { prefix: '~', color: modified, extra: None }
        },
    })
}

} // verus!
