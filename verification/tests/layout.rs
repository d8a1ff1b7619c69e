use riku::gds_diff::{check_side, gds_report, is_gdsii, plan_gds_diff, GdsDiffReport, GdsError, GdsGeomDiff, LayerKey, LayerXor};
use riku::gds_view::{anchor_align, Anchor, GdsBackend, HAlign, VAlign};
use riku::palette::{color_for_tag, detect_pdk, highlight_style, layer_spec, named_layer, LayerRole};
use riku::style::{Color, Pdk, RenderConfig};
use riku::svg::{escape_text, render_highlight_group};
use riku::top_cell::select_top_cell;

fn tag(layer: u32, datatype: u32) -> LayerKey {
    LayerKey { layer, datatype }
}

fn xor(added: usize, removed: usize) -> LayerXor {
    LayerXor {
        added_polygons: added,
        removed_polygons: removed,
        added_area_um2: format!("{}.000", added),
        removed_area_um2: format!("{}.000", removed),
        bbox_um: if added + removed > 0 { Some("0.000,0.000,1.000,1.000".to_string()) } else { None },
        cosmetic: false,
    }
}

fn xor_rows(rows: &[&[(usize, usize)]]) -> Vec<Vec<LayerXor>> {
    rows.iter().map(|r| r.iter().map(|&(a, b)| xor(a, b)).collect()).collect()
}

fn names(v: &[&str]) -> Vec<String> {
    v.iter().map(|s| s.to_string()).collect()
}

#[test]
fn rejects_non_gdsii() {
    let res = check_side(b"NOT_GDS", "A");
    assert!(matches!(res, Err(GdsError::NotGdsii { side: "A" })));
}

#[test]
fn identical_libs_empty_report() {
    let cells = names(&["INV", "TOP"]);
    let layers = vec![tag(1, 0), tag(2, 0)];
    let plan = plan_gds_diff(&cells, &cells, &layers, &layers);
    let counts = xor_rows(&[&[(0, 0), (0, 0)], &[(0, 0), (0, 0)]]);
    let r = gds_report(plan, &counts);
    assert!(r.cells_added.is_empty());
    assert!(r.cells_removed.is_empty());
    assert!(r.geometry.is_empty());
}

#[test]
fn datatype_difference_is_reported() {
    let cells = names(&["TOP"]);
    let plan = plan_gds_diff(&cells, &cells, &vec![tag(1, 0)], &vec![tag(1, 1)]);
    assert_eq!(plan.layers, vec![tag(1, 0), tag(1, 1)]);
    let r = gds_report(plan, &xor_rows(&[&[(0, 1), (1, 0)]]));
    assert!(r.cells_added.is_empty());
    assert!(r.cells_removed.is_empty());
    let dt0 = r.geometry.iter().find(|g| g.layer == tag(1, 0)).expect("entry para datatype=0");
    let dt1 = r.geometry.iter().find(|g| g.layer == tag(1, 1)).expect("entry para datatype=1");
    assert_eq!(dt0.removed_polygons, 1);
    assert_eq!(dt0.added_polygons, 0);
    assert_eq!(dt1.removed_polygons, 0);
    assert_eq!(dt1.added_polygons, 1);
}

#[test]
fn plan_sorts_and_splits_cells() {
    let a = names(&["ZETA", "INV", "ALPHA", "INV"]);
    let b = names(&["BETA", "INV", "ALPHA"]);
    let plan = plan_gds_diff(&a, &b, &vec![tag(68, 20), tag(1, 0)], &vec![tag(1, 0), tag(5, 2)]);
    assert_eq!(plan.cells_removed, names(&["ZETA"]));
    assert_eq!(plan.cells_added, names(&["BETA"]));
    assert_eq!(plan.common, names(&["ALPHA", "INV"]));
    assert_eq!(plan.layers, vec![tag(1, 0), tag(5, 2), tag(68, 20)]);
    let swapped = plan_gds_diff(&b, &a, &vec![], &vec![]);
    assert_eq!(swapped.cells_removed, plan.cells_added);
    assert_eq!(swapped.cells_added, plan.cells_removed);
    assert_eq!(swapped.common, plan.common);
}

#[test]
fn report_keeps_only_changed_layers_in_order() {
    let a = names(&["A", "B"]);
    let plan = plan_gds_diff(&a, &a, &vec![tag(1, 0), tag(2, 0)], &vec![]);
    let r = gds_report(plan, &xor_rows(&[&[(0, 0), (3, 1)], &[(2, 0), (0, 0)]]));
    assert_eq!(
        r,
        GdsDiffReport {
            cells_added: vec![],
            cells_removed: vec![],
            geometry: vec![
                GdsGeomDiff {
                    cell: "A".to_string(),
                    layer: tag(2, 0),
                    added_polygons: 3,
                    removed_polygons: 1,
                    added_area_um2: "3.000".to_string(),
                    removed_area_um2: "1.000".to_string(),
                    bbox_um: Some("0.000,0.000,1.000,1.000".to_string()),
                    cosmetic: false,
                },
                GdsGeomDiff {
                    cell: "B".to_string(),
                    layer: tag(1, 0),
                    added_polygons: 2,
                    removed_polygons: 0,
                    added_area_um2: "2.000".to_string(),
                    removed_area_um2: "0.000".to_string(),
                    bbox_um: Some("0.000,0.000,1.000,1.000".to_string()),
                    cosmetic: false,
                },
            ],
            warnings: vec![],
        }
    );
}

#[test]
fn gdsii_magic_is_the_header_record() {
    assert!(is_gdsii(&[0x00, 0x06, 0x00, 0x02]));
    assert!(!is_gdsii(&[0x00, 0x06, 0x00]));
    assert!(check_side(&[0x00, 0x06, 0x00, 0x02, 0x7f], "B").is_ok());
    assert!(matches!(check_side(b"", "B"), Err(GdsError::NotGdsii { side: "B" })));
}

#[test]
fn sky130_named_layers_resolve() {
    let (name, _) = named_layer(tag(68, 20), Pdk::Sky130).expect("met1");
    assert_eq!(name, "met1");
    assert!(named_layer(tag(68, 20), Pdk::Generic).is_none());
    assert!(named_layer(tag(999, 0), Pdk::Sky130).is_none());
}

#[test]
fn sky130_roles_and_stacking() {
    let nwell = layer_spec(tag(64, 20), Pdk::Sky130);
    let diff = layer_spec(tag(65, 20), Pdk::Sky130);
    let met1 = layer_spec(tag(68, 20), Pdk::Sky130);
    let nsdm = layer_spec(tag(93, 44), Pdk::Sky130);
    assert_eq!(nwell.role, LayerRole::Well);
    assert_eq!(met1.role, LayerRole::Device);
    assert_eq!(nsdm.role, LayerRole::Outline);
    assert!(nwell.rank < diff.rank && diff.rank < met1.rank);
    let pin = layer_spec(tag(999, 16), Pdk::Sky130);
    assert_eq!(pin.role, LayerRole::Outline);
    assert!(pin.rank > met1.rank);
}

#[test]
fn generic_keeps_file_order_and_fills() {
    let a = layer_spec(tag(1, 0), Pdk::Generic);
    let b = layer_spec(tag(50, 3), Pdk::Generic);
    assert_eq!((a.rank, a.role), (b.rank, LayerRole::Device));
}

#[test]
fn detect_pdk_from_path_then_layers() {
    assert_eq!(detect_pdk(Some("/foss/pdks/sky130A/x.gds"), &[]), Pdk::Sky130);
    assert_eq!(detect_pdk(Some("/foss/pdks/gf180mcuD/x.gds"), &[]), Pdk::Gf180);
    assert_eq!(detect_pdk(Some("/foss/pdks/ihp-sg13g2/x.gds"), &[]), Pdk::Ihp);
    assert_eq!(detect_pdk(None, &[tag(67, 20), tag(68, 20)]), Pdk::Sky130);
    assert_eq!(detect_pdk(None, &[tag(1, 0)]), Pdk::Generic);
}

#[test]
fn unknown_layers_get_a_generic_colour_by_layer() {
    assert_eq!(color_for_tag(tag(7, 0), Pdk::Generic), color_for_tag(tag(7, 12), Pdk::Generic));
    assert_ne!(color_for_tag(tag(7, 0), Pdk::Generic), color_for_tag(tag(7, 1), Pdk::Generic));
    let (_, met1) = named_layer(tag(68, 20), Pdk::Sky130).expect("met1");
    assert_eq!(color_for_tag(tag(68, 20), Pdk::Sky130), met1);
}

#[test]
fn picks_only_top_when_single() {
    let tops = names(&["ALPHA"]);
    assert_eq!(select_top_cell(&tops).map(|i| tops[i].as_str()), Some("ALPHA"));
}

#[test]
fn picks_alphabetical_min_when_multiple_tops() {
    let tops = names(&["ZETA", "ALPHA", "BETA"]);
    assert_eq!(select_top_cell(&tops).map(|i| tops[i].as_str()), Some("ALPHA"));
}

#[test]
fn picks_root_in_nested_hierarchy() {
    let tops = names(&["TOP"]);
    assert_eq!(select_top_cell(&tops).map(|i| tops[i].as_str()), Some("TOP"));
    assert_eq!(select_top_cell(&Vec::new()), None);
}

#[test]
fn accepts_gds_extension() {
    let b = GdsBackend::new();
    assert!(b.accepts(b"", Some("foo.gds")));
    assert!(b.accepts(b"", Some("path/to/Bar.GDS")));
    assert!(!b.accepts(b"", Some("foo.sch")));
}

#[test]
fn accepts_gds_magic_without_hint() {
    let b = GdsBackend::new();
    let bytes = [0x00u8, 0x06, 0x00, 0x02, 0x01, 0x00];
    assert!(b.accepts(&bytes, None));
    assert!(!b.accepts(b"NOT_A_GDS", None));
}

#[test]
fn anchor_maps_to_alignment() {
    assert_eq!(anchor_align(Anchor::O), (HAlign::Middle, VAlign::Middle));
    assert_eq!(anchor_align(Anchor::NW), (HAlign::Start, VAlign::Top));
    assert_eq!(anchor_align(Anchor::SE), (HAlign::End, VAlign::Bottom));
}

#[test]
fn svg_colour_has_three_decimals_of_alpha() {
    assert_eq!(Color::rgba(255, 0, 10, 255).to_svg_rgba(), "rgba(255,0,10,1.000)");
    assert_eq!(Color::rgba(1, 2, 3, 0).to_svg_rgba(), "rgba(1,2,3,0.000)");
    assert_eq!(Color::rgba(1, 2, 3, 128).to_svg_rgba(), "rgba(1,2,3,0.502)");
}

#[test]
fn highlight_styles_differ_by_kind() {
    let added = highlight_style("added");
    let removed = highlight_style("removed");
    let modified = highlight_style("modified");
    assert_ne!(added, removed);
    assert_ne!(removed, modified);
    assert_ne!(added, modified);
}

#[test]
fn escape_text_replaces_markup() {
    assert_eq!(escape_text(r#"a<b>&"c"'d'"#), "a&lt;b&gt;&amp;&quot;c&quot;&apos;d&apos;");
    assert_eq!(escape_text("met1"), "met1");
    assert!(!escape_text("<<>>\"'").contains('<'));
}

#[test]
fn highlight_group_wraps_each_polygon() {
    let mut svg = String::from("<svg>");
    let fill = Color::rgba(0, 200, 0, 255);
    let stroke = Color::rgba(0, 0, 0, 0);
    render_highlight_group(&mut svg, "layer-highlights-added", &["0,0 1,0 1,1".to_string()], (fill, stroke));
    assert_eq!(
        svg,
        "<svg><g id=\"layer-highlights-added\"><polygon points=\"0,0 1,0 1,1\" fill=\"rgba(0,200,0,1.000)\" stroke=\"rgba(0,0,0,0.000)\" stroke-width=\"0.8\"/></g>"
    );
    let mut empty = String::from("x");
    render_highlight_group(&mut empty, "g", &[], (fill, stroke));
    assert_eq!(empty, "x");
}

#[test]
fn default_render_config_is_generic() {
    let c = RenderConfig::default();
    assert_eq!(c.pdk, Pdk::Generic);
}

use riku::composition::{draw_plan, layer_group_open, layer_metadata, resolve_style_order, CommandKey, DrawStep, LayerInfo, StyleSlot};
use riku::style::RenderPlane;

fn info(tag: LayerKey, visible: bool, order: u32) -> LayerInfo {
    LayerInfo { tag, name: format!("layer_{}_{}", tag.layer, tag.datatype), color: Color::rgba(1, 2, 3, 255), visible, order }
}

#[test]
fn layers_are_drawn_base_then_labels_in_style_order() {
    let a = tag(1, 0);
    let b = tag(2, 0);
    let cmds = vec![
        CommandKey { tag: b, plane: RenderPlane::Base },
        CommandKey { tag: a, plane: RenderPlane::Labels },
        CommandKey { tag: a, plane: RenderPlane::Base },
        CommandKey { tag: b, plane: RenderPlane::Labels },
    ];
    let layers = vec![info(a, true, 1), info(tag(3, 0), false, 2), info(b, true, 3)];
    assert_eq!(
        draw_plan(&layers, &cmds, true),
        vec![
            DrawStep::OpenLayer(a),
            DrawStep::Draw(2),
            DrawStep::Draw(1),
            DrawStep::CloseLayer,
            DrawStep::OpenLayer(b),
            DrawStep::Draw(0),
            DrawStep::Draw(3),
            DrawStep::CloseLayer,
        ]
    );
    assert_eq!(
        draw_plan(&layers, &cmds, false),
        vec![DrawStep::OpenLayer(a), DrawStep::Draw(2), DrawStep::CloseLayer, DrawStep::OpenLayer(b), DrawStep::Draw(0), DrawStep::CloseLayer]
    );
}

#[test]
fn layer_group_carries_layer_and_datatype() {
    assert_eq!(layer_group_open(tag(68, 20)), "<g id=\"layer-68-20\" data-layer=\"68\" data-datatype=\"20\">");
}

#[test]
fn metadata_lists_layers_and_visible_tags() {
    let layers = vec![info(tag(1, 0), true, 1), info(tag(2, 0), false, 2)];
    let (infos, visible) = layer_metadata(&layers, true);
    assert_eq!(infos, layers);
    assert_eq!(visible, vec![tag(1, 0)]);
    let (none, visible2) = layer_metadata(&layers, false);
    assert!(none.is_empty());
    assert_eq!(visible2, vec![tag(1, 0)]);
}

#[test]
fn styles_resolve_catalog_then_new_layers() {
    let cat = vec![(tag(5, 0), 7), (tag(1, 0), 3), (tag(5, 0), 2)];
    let observed = vec![tag(9, 9), tag(1, 0), tag(4, 0)];
    let r = resolve_style_order(&cat, &observed);
    assert_eq!(
        r,
        vec![
            StyleSlot { tag: tag(5, 0), order: 2, source: Some(2) },
            StyleSlot { tag: tag(1, 0), order: 3, source: Some(1) },
            StyleSlot { tag: tag(9, 9), order: 4, source: None },
            StyleSlot { tag: tag(4, 0), order: 5, source: None },
        ]
    );
    let only_new = resolve_style_order(&vec![], &vec![tag(2, 0), tag(1, 0)]);
    assert_eq!(
        only_new,
        vec![StyleSlot { tag: tag(2, 0), order: 1, source: None }, StyleSlot { tag: tag(1, 0), order: 2, source: None }]
    );
}

use riku::composition::paint_order;

#[test]
fn shapes_by_layer_then_labels_in_file_order() {
    let keys = vec![2u16, 0, 2, 1, 0, 1];
    let labels = vec![false, true, false, false, false, true];
    assert_eq!(paint_order(&keys, &labels), vec![4, 3, 0, 2, 1, 5]);
    assert_eq!(paint_order(&vec![], &vec![]), Vec::<usize>::new());
}

#[test]
fn report_carries_measures_and_cosmetic_flag() {
    let a = names(&["TOP"]);
    let plan = plan_gds_diff(&a, &a, &vec![tag(68, 20)], &vec![]);
    let mut m = xor(1, 1);
    m.added_area_um2 = "0.004".to_string();
    m.removed_area_um2 = "0.004".to_string();
    m.bbox_um = Some("-1.500,2.000,3.250,4.000".to_string());
    m.cosmetic = true;
    let r = gds_report(plan, &vec![vec![m]]);
    assert_eq!(r.geometry.len(), 1);
    let g = &r.geometry[0];
    assert_eq!(g.added_area_um2, "0.004");
    assert_eq!(g.removed_area_um2, "0.004");
    assert_eq!(g.bbox_um.as_deref(), Some("-1.500,2.000,3.250,4.000"));
    assert!(g.cosmetic);
}
