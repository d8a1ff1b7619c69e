//! SVG text of the layout renderer: escaping of label text and the groups
//! that mark changed polygons.

use vstd::prelude::*;
use crate::style::{svg_rgba_text, Color};
use crate::text::{append_chars, chars_of, push_str, string_of};

verus! {

/// The SVG/XML form of one character of text.
pub open spec fn escape_char(c: char) -> Seq<char> {
    if c == '&' {
        "&amp;"@
    } else if c == '<' {
        "&lt;"@
    } else if c == '>' {
        "&gt;"@
    } else if c == '"' {
        "&quot;"@
    } else if c == '\'' {
        "&apos;"@
    } else {
        seq![c]
    }
}

/// Text with each of `& < > " '` replaced by its XML entity.
pub open spec fn escaped(s: Seq<char>) -> Seq<char>
    decreases s.len(),
{
    if s.len() == 0 {
        Seq::empty()
    } else {
        escaped(s.drop_last()) + escape_char(s.last())
    }
}

/// No markup character is left in escaped text: it holds no `<`, `>`, `"`
/// or `'`.
pub proof fn lemma_escaped_has_no_markup(s: Seq<char>)
    ensures
        forall|i: int| 0 <= i < escaped(s).len() ==> {
            let c = #[trigger] escaped(s)[i];
            c != '<' && c != '>' && c != '"' && c != '\''
        },
    decreases s.len(),
{
    reveal_strlit("&amp;");
    reveal_strlit("&lt;");
    reveal_strlit("&gt;");
    reveal_strlit("&quot;");
    reveal_strlit("&apos;");
    if s.len() > 0 {
        lemma_escaped_has_no_markup(s.drop_last());
        let p = escaped(s.drop_last());
        let e = escape_char(s.last());
        assert forall|i: int| 0 <= i < escaped(s).len() implies {
            let c = #[trigger] escaped(s)[i];
            c != '<' && c != '>' && c != '"' && c != '\''
        } by {
            if i < p.len() {
                assert(escaped(s)[i] == p[i]);
            } else {
                assert(escaped(s)[i] == e[i - p.len()]);
            }
        }
    }
}

/// Text made safe for SVG: `&`, `<`, `>`, `"` and `'` become entities.
pub fn escape_text(text: &str) -> (r: String)
    ensures
        r@ == escaped(text@),
{
    let v = chars_of(text);
    let mut out: Vec<char> = Vec::new();
    let n = v.len();
    let mut i: usize = 0;
    while i < n
        invariant
            n == v@.len(),
            i <= n,
            out@ == escaped(v@.take(i as int)),
        decreases n - i,
    {
        let c = v[i];
        if c == '&' {
            push_str(&mut out, "&amp;");
        } else if c == '<' {
            push_str(&mut out, "&lt;");
        } else if c == '>' {
            push_str(&mut out, "&gt;");
        } else if c == '"' {
            push_str(&mut out, "&quot;");
        } else if c == '\'' {
            push_str(&mut out, "&apos;");
        } else {
            out.push(c);
        }
        proof {
            let t = v@.take(i + 1);
            assert(t.drop_last() =~= v@.take(i as int));
            assert(t.last() == c);
        }
        i = i + 1;
    }
    assert(v@.take(n as int) =~= v@);
    string_of(&out)
}

/// One highlighted polygon: its points (already in SVG notation), filled and
/// outlined in the highlight colours.
pub open spec fn polygon_svg(points: Seq<char>, fill: Color, stroke: Color) -> Seq<char> {
    r#"<polygon points=""#@ + points + r#"" fill=""#@ + svg_rgba_text(fill) + r#"" stroke=""#@
        + svg_rgba_text(stroke) + r#"" stroke-width="0.8"/>"#@
}

pub open spec fn polygons_svg(polys: Seq<Seq<char>>, fill: Color, stroke: Color) -> Seq<char>
    decreases polys.len(),
{
    if polys.len() == 0 {
        Seq::empty()
    } else {
        polygons_svg(polys.drop_last(), fill, stroke) + polygon_svg(polys.last(), fill, stroke)
    }
}

/// A group of highlighted polygons under the given id; nothing at all when
/// there is no polygon.
pub open spec fn highlight_group_svg(group_id: Seq<char>, polys: Seq<Seq<char>>, fill: Color, stroke: Color) -> Seq<char> {
    if polys.len() == 0 {
        Seq::empty()
    } else {
        r#"<g id=""#@ + group_id + r#"">"#@ + polygons_svg(polys, fill, stroke) + "</g>"@
    }
}

pub open spec fn string_views(v: Seq<String>) -> Seq<Seq<char>> {
    v.map_values(|s: String| s@)
}

/// Appends to `svg` the group of highlighted polygons; each entry of
/// `polygon_points` is the point list of one polygon in SVG notation.
pub fn render_highlight_group(svg: &mut String, group_id: &str, polygon_points: &[String], style: (Color, Color))
    ensures
        final(svg)@ == old(svg)@ + highlight_group_svg(group_id@, string_views(polygon_points@), style.0, style.1),
{
    let (fill, stroke) = style;
    let ghost pv = string_views(polygon_points@);
    if polygon_points.len() == 0 {
        assert(pv.len() == 0);
        assert(old(svg)@ + highlight_group_svg(group_id@, pv, fill, stroke) =~= old(svg)@);
        return;
    }
    let fill_text = fill.to_svg_rgba();
    let stroke_text = stroke.to_svg_rgba();
    let mut out: Vec<char> = Vec::new();
    push_str(&mut out, r#"<g id=""#);
    push_str(&mut out, group_id);
    push_str(&mut out, r#"">"#);
    let ghost head = out@;
    let n = polygon_points.len();
    let mut i: usize = 0;
    while i < n
        invariant
            n == polygon_points@.len(),
            i <= n,
            pv == string_views(polygon_points@),
            fill_text@ == svg_rgba_text(fill),
            stroke_text@ == svg_rgba_text(stroke),
            out@ == head + polygons_svg(pv.take(i as int), fill, stroke),
        decreases n - i,
    {
        push_str(&mut out, r#"<polygon points=""#);
        push_str(&mut out, polygon_points[i].as_str());
        push_str(&mut out, r#"" fill=""#);
        push_str(&mut out, fill_text.as_str());
        push_str(&mut out, r#"" stroke=""#);
        push_str(&mut out, stroke_text.as_str());
        push_str(&mut out, r#"" stroke-width="0.8"/>"#);
        proof {
            let t = pv.take(i + 1);
            assert(t.drop_last() =~= pv.take(i as int));
            assert(t.last() == polygon_points@[i as int]@);
        }
        i = i + 1;
    }
    assert(pv.take(n as int) =~= pv);
    push_str(&mut out, "</g>");
    append_chars(svg, &out);
}

} // verus!
