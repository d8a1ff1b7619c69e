//! Format drivers: the checks made before a semantic diff, the reports they
//! build from the diff engines' results, and the driver registry.

use vstd::prelude::*;
use crate::formats::{detect_format, format_of, utf8_text};
use crate::gds_diff::{GdsDiffReport, GdsError, GdsGeomDiff};
use crate::models::{
    ChangeKind, ComponentDiff, DiffEntry, DiffReport, DriverDiffReport, DriverInfo, DriverKind,
    FileFormat, Params,
};
use crate::report::clone_opt_params;
use crate::text::{
    ascii_lower_seq, chars_of, decimal, ends_with, has_suffix, lower_ascii, push_all,
    push_decimal, push_str, string_of,
};
use vstd::utf8::valid_utf8;

verus! {

/// `path_hint (side): tail`, the shape of every driver warning.
pub open spec fn side_warning(path_hint: Seq<char>, side: Seq<char>, tail: Seq<char>) -> Seq<char> {
    path_hint + " ("@ + side + "): "@ + tail
}

fn side_warning_text(path_hint: &str, side: &str, tail: &Vec<char>) -> (s: String)
    ensures
        s@ == side_warning(path_hint@, side@, tail@),
{
    let mut out: Vec<char> = Vec::new();
    push_str(&mut out, path_hint);
    push_str(&mut out, " (");
    push_str(&mut out, side);
    push_str(&mut out, "): ");
    push_all(&mut out, tail);
    assert(out@ =~= side_warning(path_hint@, side@, tail@));
    string_of(&out)
}

/// Checks one side of a schematic diff: it must be UTF-8 text in Xschem
/// format. Gives the text, or the warning that explains why the diff is skipped.
pub fn validate_xschem(content: &[u8], side: &str, path_hint: &str) -> (r: Result<String, String>)
    ensures
        !valid_utf8(content@) ==> (r matches Err(w) && w@ == side_warning(path_hint@, side@,
            "contenido no es UTF-8 valido, se omite el diff semantico."@)),
        valid_utf8(content@) && format_of(content@) != FileFormat::Xschem ==> (r matches Err(w)
            && w@ == side_warning(path_hint@, side@, "no es formato Xschem, se omite el diff semantico."@)),
        valid_utf8(content@) && format_of(content@) == FileFormat::Xschem ==> (r matches Ok(t)
            && t@ == vstd::utf8::decode_utf8(content@)),
{
    let text = match utf8_text(content) {
        Some(t) => t,
        None => {
            let tail = chars_of("contenido no es UTF-8 valido, se omite el diff semantico.");
            return Err(side_warning_text(path_hint, side, &tail));
        },
    };
    if detect_format(content) != FileFormat::Xschem {
        let tail = chars_of("no es formato Xschem, se omite el diff semantico.");
        return Err(side_warning_text(path_hint, side, &tail));
    }
    Ok(text)
}

/// A report that holds a single warning and no change.
pub open spec fn warning_only(r: DriverDiffReport, file_type: FileFormat, w: Seq<char>) -> bool {
    &&& r.file_type == file_type
    &&& r.changes@.len() == 0
    &&& r.warnings@.len() == 1
    &&& r.warnings@[0]@ == w
    &&& r.visual_a is None
    &&& r.visual_b is None
}

/// The checks a schematic diff makes before parsing: side A first, then
/// side B. Gives both texts, or the report that carries the first failure.
pub fn xschem_precheck(content_a: &[u8], content_b: &[u8], path_hint: &str) -> (r: Result<(String, String), DriverDiffReport>)
    ensures
        match r {
            Ok((a, b)) => valid_utf8(content_a@) && format_of(content_a@) == FileFormat::Xschem
                && valid_utf8(content_b@) && format_of(content_b@) == FileFormat::Xschem
                && a@ == vstd::utf8::decode_utf8(content_a@) && b@ == vstd::utf8::decode_utf8(content_b@),
            Err(rep) => {
                let ok_a = valid_utf8(content_a@) && format_of(content_a@) == FileFormat::Xschem;
                &&& !ok_a ==> warning_only(rep, FileFormat::Xschem, side_warning(path_hint@, "A"@,
                    if !valid_utf8(content_a@) { "contenido no es UTF-8 valido, se omite el diff semantico."@ }
                    else { "no es formato Xschem, se omite el diff semantico."@ }))
                &&& ok_a ==> !(valid_utf8(content_b@) && format_of(content_b@) == FileFormat::Xschem)
                    && warning_only(rep, FileFormat::Xschem, side_warning(path_hint@, "B"@,
                    if !valid_utf8(content_b@) { "contenido no es UTF-8 valido, se omite el diff semantico."@ }
                    else { "no es formato Xschem, se omite el diff semantico."@ }))
            },
        },
{
    let text_a = match validate_xschem(content_a, "A", path_hint) {
        Ok(t) => t,
        Err(w) => {
            let mut report = DriverDiffReport::new(FileFormat::Xschem);
            report.warnings.push(w);
            return Err(report);
        },
    };
    let text_b = match validate_xschem(content_b, "B", path_hint) {
        Ok(t) => t,
        Err(w) => {
            let mut report = DriverDiffReport::new(FileFormat::Xschem);
            report.warnings.push(w);
            return Err(report);
        },
    };
    Ok((text_a, text_b))
}

/// `e` reports the component change `c`.
pub open spec fn reports_component(e: DiffEntry, c: ComponentDiff) -> bool {
    &&& e.kind == c.kind
    &&& e.element@ == c.name@
    &&& e.cosmetic == c.cosmetic
    &&& e.position_changed == c.position_changed
    &&& (e.before is Some <==> c.before is Some)
    &&& (e.before matches Some(b) ==> b@ == c.before->0@)
    &&& (e.after is Some <==> c.after is Some)
    &&& (e.after matches Some(a) ==> a@ == c.after->0@)
}

/// `e` reports the net `name` as added or removed.
pub open spec fn reports_net(e: DiffEntry, name: Seq<char>, kind: ChangeKind) -> bool {
    &&& e.kind == kind
    &&& e.element@ == "net:"@ + name
    &&& e.before is None
    &&& e.after is None
    &&& !e.cosmetic
    &&& !e.position_changed
}

/// `e` reports that the whole drawing was only rearranged.
pub open spec fn reports_move_all(e: DiffEntry) -> bool {
    &&& e.kind == ChangeKind::Modified
    &&& e.element@ == "layout"@
    &&& e.before is None
    &&& e.after matches Some(p) && p@.len() == 1 && p@[0].0@ == "note"@
        && p@[0].1@ == "reorganizacion cosmetica (Move All)"@
    &&& e.cosmetic
    &&& !e.position_changed
}

fn net_entry(name: &String, kind: ChangeKind) -> (e: DiffEntry)
    ensures
        reports_net(e, name@, kind),
{
    let mut element: Vec<char> = Vec::new();
    push_str(&mut element, "net:");
    push_str(&mut element, name.as_str());
    DiffEntry {
        kind,
        element: string_of(&element),
        before: None,
        after: None,
        cosmetic: false,
        position_changed: false,
    }
}

/// `r` is the driver report of the schematic diff `result`: component
/// changes first, then added and removed nets as `net:<name>`, then, when
/// the whole drawing only moved, a cosmetic `layout` entry; no warning.
pub open spec fn is_xschem_report(r: DriverDiffReport, result: DiffReport) -> bool {
    let nc = result.components@.len() as int;
    let na = result.nets_added@.len() as int;
    let nr = result.nets_removed@.len() as int;
    &&& r.file_type == FileFormat::Xschem
    &&& r.warnings@.len() == 0
    &&& r.visual_a is None
    &&& r.visual_b is None
    &&& r.changes@.len() == nc + na + nr + (if result.is_move_all { 1int } else { 0int })
    &&& forall|k: int| 0 <= k < nc ==> reports_component(#[trigger] r.changes@[k], result.components@[k])
    &&& forall|k: int| 0 <= k < na ==> reports_net(#[trigger] r.changes@[nc + k], result.nets_added@[k]@, ChangeKind::Added)
    &&& forall|k: int| 0 <= k < nr ==> reports_net(#[trigger] r.changes@[nc + na + k], result.nets_removed@[k]@, ChangeKind::Removed)
    &&& result.is_move_all ==> reports_move_all(r.changes@[nc + na + nr])
}

/// The driver report of a schematic diff, from the semantic engine's result:
/// component changes first, then added and removed nets as `net:<name>`, then,
/// when the whole drawing only moved, a cosmetic `layout` entry.
pub fn xschem_report(result: &DiffReport) -> (r: DriverDiffReport)
    ensures
        is_xschem_report(r, *result),
{
    let mut report = DriverDiffReport::new(FileFormat::Xschem);
    let nc = result.components.len();
    let mut i: usize = 0;
    while i < nc
        invariant
            nc == result.components@.len(),
            i <= nc,
            report.file_type == FileFormat::Xschem,
            report.warnings@.len() == 0,
            report.visual_a is None,
            report.visual_b is None,
            report.changes@.len() == i,
            forall|k: int| 0 <= k < i ==> reports_component(#[trigger] report.changes@[k], result.components@[k]),
        decreases nc - i,
    {
        let c = &result.components[i];
        report.changes.push(DiffEntry {
            kind: c.kind,
            element: c.name.clone(),
            before: clone_opt_params(&c.before),
            after: clone_opt_params(&c.after),
            cosmetic: c.cosmetic,
            position_changed: c.position_changed,
        });
        i = i + 1;
    }
    let na = result.nets_added.len();
    let mut j: usize = 0;
    while j < na
        invariant
            nc == result.components@.len(),
            na == result.nets_added@.len(),
            j <= na,
            report.file_type == FileFormat::Xschem,
            report.warnings@.len() == 0,
            report.visual_a is None,
            report.visual_b is None,
            report.changes@.len() == nc + j,
            forall|k: int| 0 <= k < nc ==> reports_component(#[trigger] report.changes@[k], result.components@[k]),
            forall|k: int| 0 <= k < j ==> reports_net(#[trigger] report.changes@[nc + k], result.nets_added@[k]@, ChangeKind::Added),
        decreases na - j,
    {
        let e = net_entry(&result.nets_added[j], ChangeKind::Added);
        report.changes.push(e);
        j = j + 1;
    }
    let nr = result.nets_removed.len();
    let mut m: usize = 0;
    while m < nr
        invariant
            nc == result.components@.len(),
            na == result.nets_added@.len(),
            nr == result.nets_removed@.len(),
            m <= nr,
            report.file_type == FileFormat::Xschem,
            report.warnings@.len() == 0,
            report.visual_a is None,
            report.visual_b is None,
            report.changes@.len() == nc + na + m,
            forall|k: int| 0 <= k < nc ==> reports_component(#[trigger] report.changes@[k], result.components@[k]),
            forall|k: int| 0 <= k < na ==> reports_net(#[trigger] report.changes@[nc + k], result.nets_added@[k]@, ChangeKind::Added),
            forall|k: int| 0 <= k < m ==> reports_net(#[trigger] report.changes@[nc + na + k], result.nets_removed@[k]@, ChangeKind::Removed),
        decreases nr - m,
    {
        let e = net_entry(&result.nets_removed[m], ChangeKind::Removed);
        report.changes.push(e);
        m = m + 1;
    }
    if result.is_move_all {
        let mut note: Params = Vec::new();
        note.push((string_of(&chars_of("note")), string_of(&chars_of("reorganizacion cosmetica (Move All)"))));
        report.changes.push(DiffEntry {
            kind: ChangeKind::Modified,
            element: string_of(&chars_of("layout")),
            before: None,
            after: Some(note),
            cosmetic: true,
            position_changed: false,
        });
    }
    report
}

/// Kind of a layer change: polygons only appeared, only disappeared, or both.
pub open spec fn geom_kind(added: usize, removed: usize) -> ChangeKind {
    if added > 0 && removed == 0 {
        ChangeKind::Added
    } else if added == 0 && removed > 0 {
        ChangeKind::Removed
    } else {
        ChangeKind::Modified
    }
}

/// Element name of a layer change: `<cell>:L<layer>/<datatype>`.
pub open spec fn geom_element(g: GdsGeomDiff) -> Seq<char> {
    g.cell@ + ":L"@ + decimal(g.layer.layer as nat) + "/"@ + decimal(g.layer.datatype as nat)
}

/// `e` reports the cell `name` as added or removed.
pub open spec fn reports_cell(e: DiffEntry, name: Seq<char>, kind: ChangeKind) -> bool {
    &&& e.kind == kind
    &&& e.element@ == "cell:"@ + name
    &&& e.before is None
    &&& e.after is None
    &&& !e.cosmetic
    &&& !e.position_changed
}

/// The parameters of a layer change, by key in ascending order: areas and
/// polygon counts added and removed, and the box of the change when there is
/// one.
pub open spec fn geom_params(g: GdsGeomDiff) -> Seq<(Seq<char>, Seq<char>)> {
    seq![("added_area_um2"@, g.added_area_um2@), ("added_polygons"@, decimal(g.added_polygons as nat))]
        + (match g.bbox_um {
            Some(b) => seq![("bbox_um"@, b@)],
            None => Seq::empty(),
        })
        + seq![("removed_area_um2"@, g.removed_area_um2@), ("removed_polygons"@, decimal(g.removed_polygons as nat))]
}

/// Parameters as plain text pairs.
pub open spec fn param_pairs(p: Seq<(String, String)>) -> Seq<(Seq<char>, Seq<char>)> {
    p.map_values(|kv: (String, String)| (kv.0@, kv.1@))
}

/// `e` reports the layer change `g`: its kind from the polygon counts, its
/// measures as parameters, cosmetic when the kernel found it so.
pub open spec fn reports_geometry(e: DiffEntry, g: GdsGeomDiff) -> bool {
    &&& e.kind == geom_kind(g.added_polygons, g.removed_polygons)
    &&& e.element@ == geom_element(g)
    &&& e.before is None
    &&& e.after matches Some(p) && param_pairs(p@) == geom_params(g)
    &&& e.cosmetic == g.cosmetic
    &&& !e.position_changed
}

/// The kind of a reported layer change follows its polygon counts: only
/// removed polygons make it `Removed`, only added ones `Added`, and anything
/// else `Modified`.
pub proof fn lemma_layer_change_kind(e: DiffEntry, g: GdsGeomDiff)
    requires
        reports_geometry(e, g),
    ensures
        g.added_polygons == 0 && g.removed_polygons > 0 ==> e.kind == ChangeKind::Removed,
        g.added_polygons > 0 && g.removed_polygons == 0 ==> e.kind == ChangeKind::Added,
        !(g.added_polygons == 0 && g.removed_polygons > 0) && !(g.added_polygons > 0 && g.removed_polygons == 0)
            ==> e.kind == ChangeKind::Modified,
{
}

fn cell_entry(name: &String, kind: ChangeKind) -> (e: DiffEntry)
    ensures
        reports_cell(e, name@, kind),
{
    let mut element: Vec<char> = Vec::new();
    push_str(&mut element, "cell:");
    push_str(&mut element, name.as_str());
    DiffEntry { kind, element: string_of(&element), before: None, after: None, cosmetic: false, position_changed: false }
}

fn decimal_string(n: u64) -> (s: String)
    ensures
        s@ == decimal(n as nat),
{
    let mut v: Vec<char> = Vec::new();
    push_decimal(&mut v, n);
    assert(v@ =~= decimal(n as nat));
    string_of(&v)
}

fn geom_entry(g: &GdsGeomDiff) -> (e: DiffEntry)
    ensures
        reports_geometry(e, *g),
        g.added_polygons == 0 && g.removed_polygons > 0 ==> e.kind == ChangeKind::Removed,
        g.added_polygons > 0 && g.removed_polygons == 0 ==> e.kind == ChangeKind::Added,
        !(g.added_polygons == 0 && g.removed_polygons > 0) && !(g.added_polygons > 0 && g.removed_polygons == 0)
            ==> e.kind == ChangeKind::Modified,
{
    let kind = if g.added_polygons > 0 && g.removed_polygons == 0 {
        ChangeKind::Added
    } else if g.added_polygons == 0 && g.removed_polygons > 0 {
        ChangeKind::Removed
    } else {
        ChangeKind::Modified
    };
    let mut after: Params = Vec::new();
    after.push((string_of(&chars_of("added_area_um2")), g.added_area_um2.clone()));
    after.push((string_of(&chars_of("added_polygons")), decimal_string(g.added_polygons as u64)));
    if let Some(b) = &g.bbox_um {
        after.push((string_of(&chars_of("bbox_um")), b.clone()));
    }
    after.push((string_of(&chars_of("removed_area_um2")), g.removed_area_um2.clone()));
    after.push((string_of(&chars_of("removed_polygons")), decimal_string(g.removed_polygons as u64)));
    assert(param_pairs(after@) =~= geom_params(*g));
    let mut element: Vec<char> = Vec::new();
    push_str(&mut element, g.cell.as_str());
    push_str(&mut element, ":L");
    push_decimal(&mut element, g.layer.layer as u64);
    push_str(&mut element, "/");
    push_decimal(&mut element, g.layer.datatype as u64);
    assert(element@ =~= geom_element(*g));
    DiffEntry { kind, element: string_of(&element), before: None, after: Some(after), cosmetic: g.cosmetic, position_changed: false }
}

/// Text of a layout read error, as a warning about the file.
pub open spec fn gds_error_warning(e: GdsError, path_hint: Seq<char>) -> Seq<char> {
    match e {
        GdsError::NotGdsii { side } => side_warning(path_hint, side@, "no es formato GDSII, se omite el diff."@),
        GdsError::Parse { side, msg } => side_warning(path_hint, side@, "no se pudo parsear GDSII: "@ + msg@),
    }
}

pub fn translate_error(e: &GdsError, path_hint: &str) -> (s: String)
    ensures
        s@ == gds_error_warning(*e, path_hint@),
{
    match e {
        GdsError::NotGdsii { side } => {
            let tail = chars_of("no es formato GDSII, se omite el diff.");
            side_warning_text(path_hint, side, &tail)
        },
        GdsError::Parse { side, msg } => {
            let mut tail = chars_of("no se pudo parsear GDSII: ");
            push_str(&mut tail, msg.as_str());
            side_warning_text(path_hint, side, &tail)
        },
    }
}

impl GdsError {
    /// The error as a sentence: which side, and what went wrong.
    pub fn message(&self) -> (s: String)
        ensures
            s@ == match *self {
                GdsError::NotGdsii { side } => side@ + ": no es formato GDSII"@,
                GdsError::Parse { side, msg } => side@ + ": no se pudo parsear GDSII: "@ + msg@,
            },
    {
        let mut out: Vec<char> = Vec::new();
        match self {
            GdsError::NotGdsii { side } => {
                push_str(&mut out, side);
                push_str(&mut out, ": no es formato GDSII");
            },
            GdsError::Parse { side, msg } => {
                push_str(&mut out, side);
                push_str(&mut out, ": no se pudo parsear GDSII: ");
                push_str(&mut out, msg.as_str());
            },
        }
        string_of(&out)
    }
}

/// The driver report of a layout diff: a read error becomes the only warning;
/// otherwise removed cells, then added cells, then layer changes, and the
/// diff's own warnings.
pub fn gds_driver_report(result: &Result<GdsDiffReport, GdsError>, path_hint: &str) -> (r: DriverDiffReport)
    ensures
        r.file_type == FileFormat::Gds,
        r.visual_a is None,
        r.visual_b is None,
        match result {
            Err(e) => warning_only(r, FileFormat::Gds, gds_error_warning(*e, path_hint@)),
            Ok(d) => {
                let nr = d.cells_removed@.len() as int;
                let na = d.cells_added@.len() as int;
                let ng = d.geometry@.len() as int;
                &&& r.changes@.len() == nr + na + ng
                &&& forall|k: int| 0 <= k < nr ==> reports_cell(#[trigger] r.changes@[k], d.cells_removed@[k]@, ChangeKind::Removed)
                &&& forall|k: int| 0 <= k < na ==> reports_cell(#[trigger] r.changes@[nr + k], d.cells_added@[k]@, ChangeKind::Added)
                &&& forall|k: int| 0 <= k < ng ==> reports_geometry(#[trigger] r.changes@[nr + na + k], d.geometry@[k])
                &&& forall|k: int| 0 <= k < ng ==> {
                    let g = d.geometry@[k];
                    let e = #[trigger] r.changes@[nr + na + k];
                    &&& (g.added_polygons == 0 && g.removed_polygons > 0 ==> e.kind == ChangeKind::Removed)
                    &&& (g.added_polygons > 0 && g.removed_polygons == 0 ==> e.kind == ChangeKind::Added)
                    &&& (g.added_polygons > 0 && g.removed_polygons > 0 ==> e.kind == ChangeKind::Modified)
                }
                &&& r.warnings@ == d.warnings@
            },
        },
{
    let mut report = DriverDiffReport::new(FileFormat::Gds);
    let d = match result {
        Ok(d) => d,
        Err(e) => {
            report.warnings.push(translate_error(e, path_hint));
            return report;
        },
    };
    let nr = d.cells_removed.len();
    let mut i: usize = 0;
    while i < nr
        invariant
            nr == d.cells_removed@.len(),
            i <= nr,
            report.file_type == FileFormat::Gds,
            report.warnings@.len() == 0,
            report.visual_a is None,
            report.visual_b is None,
            report.changes@.len() == i,
            forall|k: int| 0 <= k < i ==> reports_cell(#[trigger] report.changes@[k], d.cells_removed@[k]@, ChangeKind::Removed),
        decreases nr - i,
    {
        report.changes.push(cell_entry(&d.cells_removed[i], ChangeKind::Removed));
        i = i + 1;
    }
    let na = d.cells_added.len();
    let mut j: usize = 0;
    while j < na
        invariant
            nr == d.cells_removed@.len(),
            na == d.cells_added@.len(),
            j <= na,
            report.file_type == FileFormat::Gds,
            report.warnings@.len() == 0,
            report.visual_a is None,
            report.visual_b is None,
            report.changes@.len() == nr + j,
            forall|k: int| 0 <= k < nr ==> reports_cell(#[trigger] report.changes@[k], d.cells_removed@[k]@, ChangeKind::Removed),
            forall|k: int| 0 <= k < j ==> reports_cell(#[trigger] report.changes@[nr + k], d.cells_added@[k]@, ChangeKind::Added),
        decreases na - j,
    {
        report.changes.push(cell_entry(&d.cells_added[j], ChangeKind::Added));
        j = j + 1;
    }
    let ng = d.geometry.len();
    let mut m: usize = 0;
    while m < ng
        invariant
            nr == d.cells_removed@.len(),
            na == d.cells_added@.len(),
            ng == d.geometry@.len(),
            m <= ng,
            report.file_type == FileFormat::Gds,
            report.warnings@.len() == 0,
            report.visual_a is None,
            report.visual_b is None,
            report.changes@.len() == nr + na + m,
            forall|k: int| 0 <= k < nr ==> reports_cell(#[trigger] report.changes@[k], d.cells_removed@[k]@, ChangeKind::Removed),
            forall|k: int| 0 <= k < na ==> reports_cell(#[trigger] report.changes@[nr + k], d.cells_added@[k]@, ChangeKind::Added),
            forall|k: int| 0 <= k < m ==> reports_geometry(#[trigger] report.changes@[nr + na + k], d.geometry@[k]),
        decreases ng - m,
    {
        report.changes.push(geom_entry(&d.geometry[m]));
        m = m + 1;
    }
    let nw = d.warnings.len();
    let mut w: usize = 0;
    while w < nw
        invariant
            nw == d.warnings@.len(),
            w <= nw,
            report.warnings@ == d.warnings@.take(w as int),
            report.file_type == FileFormat::Gds,
            report.visual_a is None,
            report.visual_b is None,
            report.changes@.len() == nr + na + ng,
            forall|k: int| 0 <= k < nr ==> reports_cell(#[trigger] report.changes@[k], d.cells_removed@[k]@, ChangeKind::Removed),
            forall|k: int| 0 <= k < na ==> reports_cell(#[trigger] report.changes@[nr + k], d.cells_added@[k]@, ChangeKind::Added),
            forall|k: int| 0 <= k < ng ==> reports_geometry(#[trigger] report.changes@[nr + na + k], d.geometry@[k]),
            nr == d.cells_removed@.len(),
            na == d.cells_added@.len(),
            ng == d.geometry@.len(),
        decreases nw - w,
    {
        report.warnings.push(d.warnings[w].clone());
        assert(d.warnings@.take(w + 1) =~= d.warnings@.take(w as int).push(d.warnings@[w as int]));
        w = w + 1;
    }
    assert(d.warnings@.take(nw as int) =~= d.warnings@);
    report
}

} // verus!
