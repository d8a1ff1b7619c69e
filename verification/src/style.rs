//! Colours, PDK identities and render settings of the layout renderer.

use vstd::prelude::*;
use crate::text::{decimal, decimal_padded, push_decimal, push_decimal_padded, string_of};

verus! {

/// An 8-bit RGBA colour.
#[derive(Clone, Copy, Debug, PartialEq, Eq, Structural)]
pub struct Color {
    pub r: u8,
    pub g: u8,
    pub b: u8,
    pub a: u8,
}

/// Alpha of an 8-bit channel, in thousandths, rounded to the nearest
/// (`a / 255` never lies half-way between two thousandths).
pub open spec fn alpha_thousandths(a: u8) -> nat {
    ((2000 * (a as nat) + 255) / 510) as nat
}

/// `a / 255` written with three decimals, as `{:.3}` prints it.
pub open spec fn alpha_text(a: u8) -> Seq<char> {
    let k = alpha_thousandths(a);
    decimal(k / 1000) + seq!['.'] + decimal_padded(k % 1000, 3)
}

/// CSS notation `rgba(r,g,b,alpha)` of a colour.
pub open spec fn svg_rgba_text(c: Color) -> Seq<char> {
    seq!['r', 'g', 'b', 'a', '('] + decimal(c.r as nat) + seq![','] + decimal(c.g as nat)
        + seq![','] + decimal(c.b as nat) + seq![','] + alpha_text(c.a) + seq![')']
}

impl Color {
    pub fn rgba(r: u8, g: u8, b: u8, a: u8) -> (c: Self)
        ensures
            c == (Color { r, g, b, a }),
    {
        Color { r, g, b, a }
    }

    /// The colour in CSS `rgba()` notation, alpha with three decimals.
    pub fn to_svg_rgba(self) -> (s: String)
        ensures
            s@ == svg_rgba_text(self),
    {
        let mut out: Vec<char> = Vec::new();
        out.push('r');
        out.push('g');
        out.push('b');
        out.push('a');
        out.push('(');
        push_decimal(&mut out, self.r as u64);
        out.push(',');
        push_decimal(&mut out, self.g as u64);
        out.push(',');
        push_decimal(&mut out, self.b as u64);
        out.push(',');
        let k: u64 = (2000 * (self.a as u64) + 255) / 510;
        push_decimal(&mut out, k / 1000);
        out.push('.');
        push_decimal_padded(&mut out, k % 1000, 3);
        out.push(')');
        assert(out@ =~= svg_rgba_text(self));
        string_of(&out)
    }
}

/// Process design kits with layer tables of their own.
#[derive(Clone, Copy, Debug, PartialEq, Eq, Structural)]
pub enum Pdk {
    Sky130,
    Gf180,
    Ihp,
    Generic,
}

/// Settings of one layout render.
#[derive(Clone, Debug, PartialEq, Eq, Structural)]
pub struct RenderConfig {
    pub width: u32,
    pub height: u32,
    pub pdk: Pdk,
    pub background: Option<Color>,
    pub show_labels: bool,
    pub include_layer_metadata: bool,
}

impl Default for RenderConfig {
    fn default() -> (c: Self)
        ensures
            c == (RenderConfig {
                width: 1600,
                height: 1000,
                pdk: Pdk::Generic,
                background: Some(Color { r: 18, g: 18, b: 24, a: 255 }),
                show_labels: true,
                include_layer_metadata: true,
            }),
    {
        RenderConfig {
            width: 1600,
            height: 1000,
            pdk: Pdk::Generic,
            background: Some(Color::rgba(18, 18, 24, 255)),
            show_labels: true,
            include_layer_metadata: true,
        }
    }
}

/// Fill patterns of a layer.
#[derive(Clone, Copy, Debug, PartialEq, Eq, Structural)]
pub enum HatchPattern {
    Solid,
    Diagonal,
    Cross,
    Dots,
}

/// Which primitives a draw command belongs to: geometry or labels.
#[derive(Clone, Copy, Debug, PartialEq, Eq, Hash, Structural)]
pub enum RenderPlane {
    Base,
    Labels,
}

} // verus!
