//! Layout comparison: cells added and removed, and per-layer geometry
//! differences of the cells that both sides hold.
//!
//! Reading GDSII and computing polygon XORs is the layout kernel's work; this
//! module checks the inputs, decides which cells and layers are compared, and
//! assembles the report from the kernel's answers.

use vstd::prelude::*;
use crate::order::{
    key_lt, seq_lt,
    filter_names, keys_strictly_sorted, lemma_is_sorted_enumeration, sorted_enumeration,
    sorted_key_union, sorted_names, strictly_sorted, views,
};

verus! {

/// A GDS layer identifier: the (layer, datatype) pair.
#[derive(Clone, Copy, Debug, PartialEq, Eq, PartialOrd, Ord, Hash, Structural)]
pub struct LayerKey {
    pub layer: u32,
    pub datatype: u32,
}

/// What the layout kernel measured on one layer of one compared cell:
/// polygons that appeared and disappeared, their areas and the box of the
/// change in µm (as the report carries them: text with three decimals, the
/// box as `min_x,min_y,max_x,max_y`, none when nothing changed), and whether
/// the change stays under the cosmetic area threshold.
#[derive(Clone, Debug, PartialEq, Eq)]
pub struct LayerXor {
    pub added_polygons: usize,
    pub removed_polygons: usize,
    pub added_area_um2: String,
    pub removed_area_um2: String,
    pub bbox_um: Option<String>,
    pub cosmetic: bool,
}

/// Polygons that appear and disappear on one layer of one cell, with the
/// kernel's measures of the change.
#[derive(Clone, Debug, PartialEq, Eq)]
pub struct GdsGeomDiff {
    pub cell: String,
    pub layer: LayerKey,
    pub added_polygons: usize,
    pub removed_polygons: usize,
    pub added_area_um2: String,
    pub removed_area_um2: String,
    pub bbox_um: Option<String>,
    pub cosmetic: bool,
}

/// Result of comparing two layouts.
#[derive(Clone, Debug, Default, PartialEq, Eq)]
pub struct GdsDiffReport {
    pub cells_added: Vec<String>,
    pub cells_removed: Vec<String>,
    pub geometry: Vec<GdsGeomDiff>,
    pub warnings: Vec<String>,
}

/// Why a side of the comparison could not be read.
#[derive(Clone, Debug, PartialEq, Eq)]
pub enum GdsError {
    NotGdsii { side: &'static str },
    Parse { side: &'static str, msg: String },
}

/// The GDSII HEADER record opens the stream: length 6, type 0x0002, big-endian.
pub open spec fn gdsii_magic(c: Seq<u8>) -> bool {
    c.len() >= 4 && c[0] == 0x00 && c[1] == 0x06 && c[2] == 0x00 && c[3] == 0x02
}

/// Whether `content` starts like a GDSII stream.
pub fn is_gdsii(content: &[u8]) -> (r: bool)
    ensures
        r == gdsii_magic(content@),
{
    content.len() >= 4 && content[0] == 0x00 && content[1] == 0x06 && content[2] == 0x00
        && content[3] == 0x02
}

/// The check made on a side before it is handed to the GDSII reader.
pub fn check_side(content: &[u8], side: &'static str) -> (r: Result<(), GdsError>)
    ensures
        r is Ok <==> gdsii_magic(content@),
        r is Err ==> r == Err::<(), GdsError>(GdsError::NotGdsii { side }),
{
    if !is_gdsii(content) {
        return Err(GdsError::NotGdsii { side });
    }
    Ok(())
}

/// What the comparison looks at, once both sides have been read.
#[derive(Clone, Debug, PartialEq, Eq)]
pub struct GdsDiffPlan {
    /// Cells only side A holds, sorted.
    pub cells_removed: Vec<String>,
    /// Cells only side B holds, sorted.
    pub cells_added: Vec<String>,
    /// Cells both sides hold, sorted: their geometry is compared.
    pub common: Vec<String>,
    /// Every layer of either side, sorted by (layer, datatype).
    pub layers: Vec<LayerKey>,
}

/// The cell-name sets of a comparison of `a` against `b`.
pub open spec fn removed_cells(a: Seq<Seq<char>>, b: Seq<Seq<char>>) -> Seq<Seq<char>> {
    sorted_enumeration(a.to_set().difference(b.to_set()))
}

pub open spec fn added_cells(a: Seq<Seq<char>>, b: Seq<Seq<char>>) -> Seq<Seq<char>> {
    sorted_enumeration(b.to_set().difference(a.to_set()))
}

pub open spec fn common_cells(a: Seq<Seq<char>>, b: Seq<Seq<char>>) -> Seq<Seq<char>> {
    sorted_enumeration(a.to_set().intersect(b.to_set()))
}

/// Decides which cells are added, removed and compared, and over which
/// layers, from the cell names and layers of each side.
pub fn plan_gds_diff(
    cells_a: &Vec<String>,
    cells_b: &Vec<String>,
    layers_a: &Vec<LayerKey>,
    layers_b: &Vec<LayerKey>,
) -> (p: GdsDiffPlan)
    ensures
        views(p.cells_removed@) == removed_cells(views(cells_a@), views(cells_b@)),
        views(p.cells_added@) == added_cells(views(cells_a@), views(cells_b@)),
        views(p.common@) == common_cells(views(cells_a@), views(cells_b@)),
        strictly_sorted(views(p.cells_removed@)),
        strictly_sorted(views(p.cells_added@)),
        strictly_sorted(views(p.common@)),
        views(p.cells_removed@).to_set() == views(cells_a@).to_set().difference(views(cells_b@).to_set()),
        views(p.cells_added@).to_set() == views(cells_b@).to_set().difference(views(cells_a@).to_set()),
        views(p.common@).to_set() == views(cells_a@).to_set().intersect(views(cells_b@).to_set()),
        keys_strictly_sorted(p.layers@),
        p.layers@.to_set() == layers_a@.to_set().union(layers_b@.to_set()),
{
    let names_a = sorted_names(cells_a);
    let names_b = sorted_names(cells_b);
    let cells_removed = filter_names(&names_a, &names_b, false);
    let cells_added = filter_names(&names_b, &names_a, false);
    let common = filter_names(&names_a, &names_b, true);
    proof {
        let va = views(cells_a@);
        let vb = views(cells_b@);
        let sa = views(names_a@).to_set();
        let sb = views(names_b@).to_set();
        assert(views(cells_removed@).to_set() =~= va.to_set().difference(vb.to_set()));
        assert(views(cells_added@).to_set() =~= vb.to_set().difference(va.to_set()));
        assert(views(common@).to_set() =~= va.to_set().intersect(vb.to_set()));
        lemma_is_sorted_enumeration(views(cells_removed@), va.to_set().difference(vb.to_set()));
        lemma_is_sorted_enumeration(views(cells_added@), vb.to_set().difference(va.to_set()));
        lemma_is_sorted_enumeration(views(common@), va.to_set().intersect(vb.to_set()));
    }
    let layers = sorted_key_union(layers_a, layers_b);
    GdsDiffPlan { cells_removed, cells_added, common, layers }
}

/// Comparing `b` against `a` swaps the added and removed cells of comparing
/// `a` against `b`, and compares the same cells.
pub proof fn lemma_plan_swaps_sides(a: Seq<Seq<char>>, b: Seq<Seq<char>>)
    ensures
        removed_cells(b, a) == added_cells(a, b),
        added_cells(b, a) == removed_cells(a, b),
        common_cells(b, a) == common_cells(a, b),
{
    assert(b.to_set().intersect(a.to_set()) =~= a.to_set().intersect(b.to_set()));
}

/// A layout compared with itself has no added and no removed cell.
pub proof fn lemma_plan_of_same_cells(a: Seq<Seq<char>>)
    ensures
        removed_cells(a, a).len() == 0,
        added_cells(a, a).len() == 0,
{
    let empty = Seq::<Seq<char>>::empty();
    assert(a.to_set().difference(a.to_set()) =~= empty.to_set());
    lemma_is_sorted_enumeration(empty, empty.to_set());
}

/// A kernel measure as plain values.
pub open spec fn xor_view(x: LayerXor) -> (usize, usize, Seq<char>, Seq<char>, Option<Seq<char>>, bool) {
    (x.added_polygons, x.removed_polygons, x.added_area_um2@, x.removed_area_um2@,
        match x.bbox_um { Some(b) => Some(b@), None => None }, x.cosmetic)
}

/// The measures of a compared cell, layer by layer, as plain values.
pub open spec fn row_view(row: Vec<LayerXor>) -> Seq<(usize, usize, Seq<char>, Seq<char>, Option<Seq<char>>, bool)> {
    row@.map_values(|x: LayerXor| xor_view(x))
}

/// The measures of all compared cells as plain values.
pub open spec fn rows_view(rows: Seq<Vec<LayerXor>>) -> Seq<Seq<(usize, usize, Seq<char>, Seq<char>, Option<Seq<char>>, bool)>> {
    rows.map_values(|row: Vec<LayerXor>| row_view(row))
}

/// A geometry entry as plain values: cell, layer, and the kernel's measures.
pub open spec fn geom_view(g: GdsGeomDiff) -> (Seq<char>, LayerKey, (usize, usize, Seq<char>, Seq<char>, Option<Seq<char>>, bool)) {
    (g.cell@, g.layer, (g.added_polygons, g.removed_polygons, g.added_area_um2@, g.removed_area_um2@,
        match g.bbox_um { Some(b) => Some(b@), None => None }, g.cosmetic))
}

pub open spec fn geom_views(v: Seq<GdsGeomDiff>) -> Seq<(Seq<char>, LayerKey, (usize, usize, Seq<char>, Seq<char>, Option<Seq<char>>, bool))> {
    v.map_values(|g: GdsGeomDiff| geom_view(g))
}

/// Entries of one cell for its first `n` layers: those where polygons
/// appeared or disappeared, in layer order.
pub open spec fn row_entries(
    cell: Seq<char>,
    layers: Seq<LayerKey>,
    row: Seq<(usize, usize, Seq<char>, Seq<char>, Option<Seq<char>>, bool)>,
    n: int,
) -> Seq<(Seq<char>, LayerKey, (usize, usize, Seq<char>, Seq<char>, Option<Seq<char>>, bool))>
    decreases n,
{
    if n <= 0 {
        Seq::empty()
    } else {
        let prev = row_entries(cell, layers, row, n - 1);
        let x = row[n - 1];
        if x.0 == 0 && x.1 == 0 {
            prev
        } else {
            prev.push((cell, layers[n - 1], x))
        }
    }
}

/// Entries of the first `n` compared cells, cell by cell.
pub open spec fn geometry_entries(
    cells: Seq<Seq<char>>,
    layers: Seq<LayerKey>,
    rows: Seq<Seq<(usize, usize, Seq<char>, Seq<char>, Option<Seq<char>>, bool)>>,
    n: int,
) -> Seq<(Seq<char>, LayerKey, (usize, usize, Seq<char>, Seq<char>, Option<Seq<char>>, bool))>
    decreases n,
{
    if n <= 0 {
        Seq::empty()
    } else {
        geometry_entries(cells, layers, rows, n - 1) + row_entries(cells[n - 1], layers, rows[n - 1], layers.len() as int)
    }
}

fn copy_text(s: &String) -> (r: String)
    ensures
        r@ == s@,
{
    s.clone()
}

fn copy_opt_text(s: &Option<String>) -> (r: Option<String>)
    ensures
        match r { Some(b) => Some(b@), None => None } == match *s { Some(b) => Some(b@), None => None },
{
    match s {
        Some(b) => Some(b.clone()),
        None => None,
    }
}

/// Builds the report of a comparison. `xor[c][l]` is what the layout
/// kernel's XOR measured on layer `plan.layers[l]` of cell `plan.common[c]`;
/// pairs where no polygon appeared or disappeared are left out.
pub fn gds_report(plan: GdsDiffPlan, xor: &Vec<Vec<LayerXor>>) -> (r: GdsDiffReport)
    requires
        xor@.len() == plan.common@.len(),
        forall|c: int| 0 <= c < xor@.len() ==> #[trigger] xor@[c]@.len() == plan.layers@.len(),
    ensures
        r.cells_added@ == plan.cells_added@,
        r.cells_removed@ == plan.cells_removed@,
        geom_views(r.geometry@) == geometry_entries(
            views(plan.common@),
            plan.layers@,
            rows_view(xor@),
            plan.common@.len() as int,
        ),
        r.warnings@.len() == 0,
{
    let ghost cells = views(plan.common@);
    let ghost rows = rows_view(xor@);
    let mut geometry: Vec<GdsGeomDiff> = Vec::new();
    let nc = plan.common.len();
    let nl = plan.layers.len();
    let mut c: usize = 0;
    while c < nc
        invariant
            nc == plan.common@.len(),
            nl == plan.layers@.len(),
            cells == views(plan.common@),
            rows == rows_view(xor@),
            xor@.len() == nc,
            forall|k: int| 0 <= k < xor@.len() ==> #[trigger] xor@[k]@.len() == nl,
            c <= nc,
            geom_views(geometry@) == geometry_entries(cells, plan.layers@, rows, c as int),
        decreases nc - c,
    {
        let ghost before = geom_views(geometry@);
        let row = &xor[c];
        assert(row@.len() == nl);
        let mut l: usize = 0;
        while l < nl
            invariant
                nl == plan.layers@.len(),
                nc == plan.common@.len(),
                c < nc,
                row@.len() == nl,
                rows[c as int] == row_view(*row),
                cells[c as int] == plan.common@[c as int]@,
                l <= nl,
                geom_views(geometry@) == before + row_entries(cells[c as int], plan.layers@, row_view(*row), l as int),
            decreases nl - l,
        {
            let x = &row[l];
            let ghost mid = geom_views(geometry@);
            assert(row_view(*row)[l as int] == xor_view(*x));
            if x.added_polygons != 0 || x.removed_polygons != 0 {
                geometry.push(GdsGeomDiff {
                    cell: plan.common[c].clone(),
                    layer: plan.layers[l],
                    added_polygons: x.added_polygons,
                    removed_polygons: x.removed_polygons,
                    added_area_um2: copy_text(&x.added_area_um2),
                    removed_area_um2: copy_text(&x.removed_area_um2),
                    bbox_um: copy_opt_text(&x.bbox_um),
                    cosmetic: x.cosmetic,
                });
                assert(geom_views(geometry@) =~= mid.push(geom_view(geometry@[geometry@.len() - 1])));
            }
            l = l + 1;
        }
        c = c + 1;
    }
    GdsDiffReport { cells_added: plan.cells_added, cells_removed: plan.cells_removed, geometry, warnings: Vec::new() }
}

/// Order of geometry entries: by cell name, then by layer.
pub open spec fn geom_lt(
    x: (Seq<char>, LayerKey, (usize, usize, Seq<char>, Seq<char>, Option<Seq<char>>, bool)),
    y: (Seq<char>, LayerKey, (usize, usize, Seq<char>, Seq<char>, Option<Seq<char>>, bool)),
) -> bool {
    seq_lt(x.0, y.0) || (x.0 == y.0 && key_lt(x.1, y.1))
}

proof fn lemma_row_entries_facts(
    cell: Seq<char>,
    layers: Seq<LayerKey>,
    row: Seq<(usize, usize, Seq<char>, Seq<char>, Option<Seq<char>>, bool)>,
    n: int,
)
    requires
        0 <= n <= layers.len(),
        n <= row.len(),
    ensures
        forall|i: int| 0 <= i < row_entries(cell, layers, row, n).len() ==> {
            let e = #[trigger] row_entries(cell, layers, row, n)[i];
            &&& e.0 == cell
            &&& e.2.0 > 0 || e.2.1 > 0
            &&& exists|l: int| 0 <= l < n && e.1 == layers[l] && e.2 == row[l]
        },
        keys_strictly_sorted(layers) ==> forall|i: int, j: int|
            0 <= i < j < row_entries(cell, layers, row, n).len() ==> key_lt(
                #[trigger] row_entries(cell, layers, row, n)[i].1,
                #[trigger] row_entries(cell, layers, row, n)[j].1,
            ),
    decreases n,
{
    if n > 0 {
        lemma_row_entries_facts(cell, layers, row, n - 1);
        let prev = row_entries(cell, layers, row, n - 1);
        let cur = row_entries(cell, layers, row, n);
        let x = row[n - 1];
        if !(x.0 == 0 && x.1 == 0) {
            assert(cur == prev.push((cell, layers[n - 1], x)));
            assert forall|i: int| 0 <= i < cur.len() implies {
                let e = #[trigger] cur[i];
                &&& e.0 == cell
                &&& e.2.0 > 0 || e.2.1 > 0
                &&& exists|l: int| 0 <= l < n && e.1 == layers[l] && e.2 == row[l]
            } by {
                if i < prev.len() {
                    assert(cur[i] == prev[i]);
                } else {
                    assert(cur[i].1 == layers[n - 1] && cur[i].2 == row[n - 1]);
                }
            }
            if keys_strictly_sorted(layers) {
                assert forall|i: int, j: int| 0 <= i < j < cur.len() implies key_lt(#[trigger] cur[i].1, #[trigger] cur[j].1) by {
                    if j < prev.len() {
                        assert(cur[i] == prev[i] && cur[j] == prev[j]);
                    } else {
                        assert(cur[i] == prev[i]);
                        let e = prev[i];
                        let l = choose|l: int| 0 <= l < n - 1 && e.1 == layers[l] && e.2 == row[l];
                        assert(key_lt(layers[l], layers[n - 1]));
                    }
                }
            }
        }
    }
}

/// Every entry of a comparison report records a change: polygons appeared or
/// disappeared on that layer of a compared cell. When the compared cells and
/// the layers are sorted, as the plan gives them, the entries run by cell
/// name, then by layer, with no pair twice.
pub proof fn lemma_geometry_entries_changed_and_sorted(
    cells: Seq<Seq<char>>,
    layers: Seq<LayerKey>,
    rows: Seq<Seq<(usize, usize, Seq<char>, Seq<char>, Option<Seq<char>>, bool)>>,
    n: int,
)
    requires
        0 <= n <= cells.len(),
        n <= rows.len(),
        forall|c: int| 0 <= c < n ==> #[trigger] rows[c].len() == layers.len(),
    ensures
        forall|i: int| 0 <= i < geometry_entries(cells, layers, rows, n).len() ==> {
            let e = #[trigger] geometry_entries(cells, layers, rows, n)[i];
            &&& e.2.0 > 0 || e.2.1 > 0
            &&& exists|c: int| 0 <= c < n && e.0 == cells[c]
        },
        strictly_sorted(cells) && keys_strictly_sorted(layers) ==> forall|i: int, j: int|
            0 <= i < j < geometry_entries(cells, layers, rows, n).len() ==> geom_lt(
                #[trigger] geometry_entries(cells, layers, rows, n)[i],
                #[trigger] geometry_entries(cells, layers, rows, n)[j],
            ),
    decreases n,
{
    if n > 0 {
        lemma_geometry_entries_changed_and_sorted(cells, layers, rows, n - 1);
        lemma_row_entries_facts(cells[n - 1], layers, rows[n - 1], layers.len() as int);
        let prev = geometry_entries(cells, layers, rows, n - 1);
        let last = row_entries(cells[n - 1], layers, rows[n - 1], layers.len() as int);
        let cur = geometry_entries(cells, layers, rows, n);
        assert(cur == prev + last);
        assert forall|i: int| 0 <= i < cur.len() implies {
            let e = #[trigger] cur[i];
            &&& e.2.0 > 0 || e.2.1 > 0
            &&& exists|c: int| 0 <= c < n && e.0 == cells[c]
        } by {
            if i < prev.len() {
                assert(cur[i] == prev[i]);
                let c = choose|c: int| 0 <= c < n - 1 && prev[i].0 == cells[c];
                assert(0 <= c < n && cur[i].0 == cells[c]);
            } else {
                assert(cur[i] == last[i - prev.len()]);
                assert(cur[i].0 == cells[n - 1]);
            }
        }
        if strictly_sorted(cells) && keys_strictly_sorted(layers) {
            assert forall|i: int, j: int| 0 <= i < j < cur.len() implies geom_lt(#[trigger] cur[i], #[trigger] cur[j]) by {
                if j < prev.len() {
                    assert(cur[i] == prev[i] && cur[j] == prev[j]);
                } else if i >= prev.len() {
                    assert(cur[i] == last[i - prev.len()] && cur[j] == last[j - prev.len()]);
                    assert(cur[i].0 == cells[n - 1] && cur[j].0 == cells[n - 1]);
                    assert(key_lt(last[i - prev.len()].1, last[j - prev.len()].1));
                } else {
                    assert(cur[i] == prev[i]);
                    assert(cur[j] == last[j - prev.len()]);
                    let c = choose|c: int| 0 <= c < n - 1 && prev[i].0 == cells[c];
                    assert(seq_lt(cells[c], cells[n - 1]));
                }
            }
        }
    }
}

proof fn lemma_unchanged_row(
    cell: Seq<char>,
    layers: Seq<LayerKey>,
    row: Seq<(usize, usize, Seq<char>, Seq<char>, Option<Seq<char>>, bool)>,
    n: int,
)
    requires
        n <= row.len(),
        forall|l: int| 0 <= l < n ==> #[trigger] row[l].0 == 0 && row[l].1 == 0,
    ensures
        row_entries(cell, layers, row, n).len() == 0,
    decreases n,
{
    if n > 0 {
        lemma_unchanged_row(cell, layers, row, n - 1);
        assert(row[n - 1].0 == 0 && row[n - 1].1 == 0);
    }
}

/// Where the kernel finds no polygon added or removed on any layer of any
/// compared cell, the report has no geometry entry.
pub proof fn lemma_unchanged_cells_report_no_geometry(
    cells: Seq<Seq<char>>,
    layers: Seq<LayerKey>,
    rows: Seq<Seq<(usize, usize, Seq<char>, Seq<char>, Option<Seq<char>>, bool)>>,
    n: int,
)
    requires
        n <= rows.len(),
        forall|c: int| 0 <= c < n ==> #[trigger] rows[c].len() == layers.len(),
        forall|c: int, l: int| 0 <= c < n && 0 <= l < layers.len() ==> #[trigger] rows[c][l].0 == 0 && rows[c][l].1 == 0,
    ensures
        geometry_entries(cells, layers, rows, n).len() == 0,
    decreases n,
{
    if n > 0 {
        lemma_unchanged_cells_report_no_geometry(cells, layers, rows, n - 1);
        assert forall|l: int| 0 <= l < layers.len() implies #[trigger] rows[n - 1][l].0 == 0 && rows[n - 1][l].1 == 0 by {
            assert(rows[n - 1][l].0 == 0 && rows[n - 1][l].1 == 0);
        }
        lemma_unchanged_row(cells[n - 1], layers, rows[n - 1], layers.len() as int);
    }
}

/// A layout compared with itself reports nothing: no cell is added or
/// removed, and, since the kernel's XOR of each cell with itself finds no
/// polygon on any layer, there is no geometry entry either.
pub proof fn lemma_layout_against_itself_reports_nothing(
    cells: Seq<Seq<char>>,
    layers: Seq<LayerKey>,
    rows: Seq<Seq<(usize, usize, Seq<char>, Seq<char>, Option<Seq<char>>, bool)>>,
)
    requires
        rows.len() == common_cells(cells, cells).len(),
        forall|c: int| 0 <= c < rows.len() ==> #[trigger] rows[c].len() == layers.len(),
        forall|c: int, l: int| 0 <= c < rows.len() && 0 <= l < layers.len() ==> #[trigger] rows[c][l].0 == 0 && rows[c][l].1 == 0,
    ensures
        removed_cells(cells, cells).len() == 0,
        added_cells(cells, cells).len() == 0,
        geometry_entries(common_cells(cells, cells), layers, rows, rows.len() as int).len() == 0,
{
    lemma_plan_of_same_cells(cells);
    lemma_unchanged_cells_report_no_geometry(common_cells(cells, cells), layers, rows, rows.len() as int);
}

} // verus!
