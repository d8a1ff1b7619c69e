use riku::calendar::days_since_epoch_to_ymd;
use riku::cli::{build_diff_html, exit_code, shell_action, shell_to_exit, Outcome, ShellAction};
use riku::diff_text::{is_gds_geom_element, present_text};
use riku::doctor::{doctor_text, has_symbol_source, tools_status, DoctorReport, ToolsStatus};
use riku::drivers::{gds_driver_report, translate_error, validate_xschem, xschem_precheck, xschem_report};
use riku::formats::detect_format;
use riku::gds_diff::{check_side, GdsDiffReport, GdsError, GdsGeomDiff, LayerKey};
use riku::log_format::{format_refs, format_timestamp};
use riku::models::{ChangeKind, ComponentDiff, DiffEntry, DiffReport, DriverDiffReport, FileFormat};
use riku::registry::{get_driver_for, get_drivers, status_lines, Driver, GdsDriver, PdkStatus, XschemDriver};
use riku::report::{driver_report_to_diff_report, summarize_changes};

const VALID_SCH: &[u8] = b"v {xschem version=3.0.0 file_version=1.2}\n";

fn params(kv: &[(&str, &str)]) -> Vec<(String, String)> {
    kv.iter().map(|(k, v)| (k.to_string(), v.to_string())).collect()
}

fn entry(kind: ChangeKind, element: &str, after: Option<Vec<(String, String)>>, cosmetic: bool) -> DiffEntry {
    DiffEntry { kind, element: element.to_string(), before: None, after, cosmetic, position_changed: false }
}

fn component(name: &str, kind: ChangeKind, before: Option<Vec<(String, String)>>, after: Option<Vec<(String, String)>>) -> ComponentDiff {
    ComponentDiff { name: name.to_string(), kind, cosmetic: false, position_changed: false, before, after }
}

/// The layout driver's diff: each side is checked, then the kernel's report
/// (here, the one given) becomes the driver report.
fn gds_diff(a: &[u8], b: &[u8], kernel: GdsDiffReport) -> DriverDiffReport {
    let result = check_side(a, "A").and_then(|_| check_side(b, "B")).map(|_| kernel);
    gds_driver_report(&result, "x.gds")
}

/// The schematic driver's checks on both sides, as a report of warnings.
fn xschem_diff(a: &[u8], b: &[u8]) -> DriverDiffReport {
    match xschem_precheck(a, b, "x.sch") {
        Ok(_) => xschem_report(&DiffReport { components: vec![], nets_added: vec![], nets_removed: vec![], is_move_all: false }),
        Err(report) => report,
    }
}

fn gds_bytes() -> Vec<u8> {
    vec![0x00, 0x06, 0x00, 0x02, 0x02, 0x58]
}

#[test]
fn detect_returns_gds_for_magic() {
    let bytes = [0x00u8, 0x06, 0x00, 0x02, 0x01, 0x00];
    assert_eq!(detect_format(&bytes), FileFormat::Gds);
    assert_eq!(detect_format(VALID_SCH), FileFormat::Xschem);
    assert_eq!(detect_format(b"<svg/>"), FileFormat::Unknown);
}

#[test]
fn diff_warns_on_non_gds_a() {
    let svg = br#"<svg xmlns='http://www.w3.org/2000/svg'></svg>"#;
    let report = gds_diff(svg, &gds_bytes(), GdsDiffReport::default());
    assert!(report.changes.is_empty());
    assert_eq!(report.warnings.len(), 1);
    assert!(report.warnings[0].contains("(A)") && report.warnings[0].contains("GDSII"));
}

#[test]
fn diff_warns_on_non_gds_b() {
    let svg = br#"<svg xmlns='http://www.w3.org/2000/svg'></svg>"#;
    let report = gds_diff(&gds_bytes(), svg, GdsDiffReport::default());
    assert!(report.changes.is_empty());
    assert_eq!(report.warnings.len(), 1);
    assert!(report.warnings[0].contains("(B)") && report.warnings[0].contains("GDSII"));
}

#[test]
fn diff_identical_returns_empty() {
    let report = gds_diff(&gds_bytes(), &gds_bytes(), GdsDiffReport::default());
    assert!(report.warnings.is_empty(), "{:?}", report.warnings);
    assert!(report.is_empty(), "{:?}", report.changes);
}

#[test]
fn gds_report_lists_cells_then_layers() {
    let kernel = GdsDiffReport {
        cells_added: vec!["NEW".to_string()],
        cells_removed: vec!["OLD".to_string()],
        geometry: vec![GdsGeomDiff {
            cell: "TOP".to_string(),
            layer: LayerKey { layer: 68, datatype: 20 },
            added_polygons: 2,
            removed_polygons: 0,
            added_area_um2: "0.560".to_string(),
            removed_area_um2: "0.000".to_string(),
            bbox_um: Some("1.000,2.000,1.700,2.800".to_string()),
            cosmetic: true,
        }],
        warnings: vec![],
    };
    let report = gds_diff(&gds_bytes(), &gds_bytes(), kernel);
    let elements: Vec<&str> = report.changes.iter().map(|c| c.element.as_str()).collect();
    assert_eq!(elements, vec!["cell:OLD", "cell:NEW", "TOP:L68/20"]);
    assert_eq!(report.changes[2].kind, ChangeKind::Added);
    assert_eq!(
        report.changes[2].after,
        Some(params(&[
            ("added_area_um2", "0.560"),
            ("added_polygons", "2"),
            ("bbox_um", "1.000,2.000,1.700,2.800"),
            ("removed_area_um2", "0.000"),
            ("removed_polygons", "0"),
        ]))
    );
    assert!(report.changes[2].cosmetic);
    assert!(is_gds_geom_element(&report.changes[2].element));
}

#[test]
fn gds_errors_become_warnings() {
    assert_eq!(translate_error(&GdsError::NotGdsii { side: "A" }, "x.gds"), "x.gds (A): no es formato GDSII, se omite el diff.");
    assert_eq!(
        translate_error(&GdsError::Parse { side: "B", msg: "corto".to_string() }, "x.gds"),
        "x.gds (B): no se pudo parsear GDSII: corto"
    );
    assert_eq!(GdsError::NotGdsii { side: "A" }.message(), "A: no es formato GDSII");
}

#[test]
fn can_handle_gds_extension() {
    let d = Driver::Gds(GdsDriver::new());
    assert!(d.can_handle("foo.gds"));
    assert!(d.can_handle("path/to/Bar.GDS"));
    assert!(!d.can_handle("foo.sch"));
}

#[test]
fn registry_picks_the_driver_by_extension() {
    assert_eq!(get_drivers(), vec![Driver::Xschem(XschemDriver::new()), Driver::Gds(GdsDriver::new())]);
    assert_eq!(get_driver_for("amp.SCH"), Some(Driver::Xschem(XschemDriver)));
    assert_eq!(get_driver_for("top.gds"), Some(Driver::Gds(GdsDriver)));
    assert_eq!(get_driver_for("notes.txt"), None);
    let info = XschemDriver::new().info(&PdkStatus::Found("/pdk".to_string()), "sky130A");
    assert_eq!(info.version, "Native Renderer | PDK: sky130A [ok]");
    assert_eq!(GdsDriver::new().info().extensions, vec![".gds".to_string()]);
}

#[test]
fn diff_warns_on_invalid_utf8_in_a() {
    let invalid: &[u8] = &[0xFF, 0xFE, 0x00, 0x80];
    let report = xschem_diff(invalid, VALID_SCH);
    assert!(report.changes.is_empty());
    assert_eq!(report.warnings.len(), 1);
    assert!(report.warnings[0].contains("(A)") && report.warnings[0].contains("UTF-8"));
}

#[test]
fn diff_warns_on_invalid_utf8_in_b() {
    let invalid: &[u8] = &[0xFF, 0xFE, 0x00, 0x80];
    let report = xschem_diff(VALID_SCH, invalid);
    assert!(report.changes.is_empty());
    assert_eq!(report.warnings.len(), 1);
    assert!(report.warnings[0].contains("(B)") && report.warnings[0].contains("UTF-8"));
}

#[test]
fn diff_warns_on_non_xschem_b() {
    let svg = br#"<svg xmlns='http://www.w3.org/2000/svg'></svg>"#;
    let report = xschem_diff(VALID_SCH, svg);
    assert!(report.changes.is_empty());
    assert_eq!(report.warnings.len(), 1);
    assert!(report.warnings[0].contains("(B)") && report.warnings[0].contains("Xschem"));
}

#[test]
fn diff_warns_on_non_xschem_a() {
    let svg = br#"<svg xmlns='http://www.w3.org/2000/svg'></svg>"#;
    let report = xschem_diff(svg, VALID_SCH);
    assert!(report.changes.is_empty());
    assert_eq!(report.warnings.len(), 1);
    assert!(report.warnings[0].contains("(A)"));
}

#[test]
fn validate_accepts_schematic_text() {
    assert_eq!(validate_xschem(VALID_SCH, "A", "x.sch"), Ok(String::from_utf8(VALID_SCH.to_vec()).unwrap()));
    assert!(validate_xschem(b"hola", "B", "x.sch").is_err());
}

#[test]
fn translates_driver_report_to_diff_report() {
    let report = DriverDiffReport {
        file_type: FileFormat::Xschem,
        changes: vec![
            entry(ChangeKind::Added, "R1", Some(params(&[("value", "10k")])), false),
            entry(ChangeKind::Added, "net:Vdd", None, false),
            entry(ChangeKind::Modified, "layout", None, true),
        ],
        visual_a: None,
        visual_b: None,
        warnings: vec![],
    };
    let diff = driver_report_to_diff_report(&report);
    assert_eq!(diff.components.len(), 1);
    assert_eq!(diff.components[0].name, "R1");
    assert_eq!(diff.nets_added, vec!["Vdd".to_string()]);
    assert!(diff.is_move_all);
}

#[test]
fn counts_only_non_cosmetic_changes() {
    let report = DriverDiffReport {
        file_type: FileFormat::Xschem,
        changes: vec![
            entry(ChangeKind::Added, "R1", None, true),
            entry(ChangeKind::Removed, "C1", None, false),
            entry(ChangeKind::Modified, "M1", None, false),
        ],
        visual_a: None,
        visual_b: None,
        warnings: vec![],
    };
    assert_eq!(summarize_changes(&report), (0, 1, 1));
}

#[test]
fn driver_report_round_trips_to_the_component_view() {
    let d = DiffReport {
        components: vec![
            component("M5", ChangeKind::Added, None, Some(params(&[("symbol", "nfet.sym")]))),
            component("C1", ChangeKind::Modified, Some(params(&[("value", "1p")])), Some(params(&[("value", "2p")]))),
        ],
        nets_added: vec!["Vout".to_string()],
        nets_removed: vec!["n1".to_string()],
        is_move_all: true,
    };
    let r = xschem_report(&d);
    assert_eq!(r.changes.len(), 5);
    assert_eq!(r.changes[2].element, "net:Vout");
    assert_eq!(r.changes[4].element, "layout");
    assert_eq!(driver_report_to_diff_report(&r), d);
}

#[test]
fn refs_pone_head_primero() {
    let refs = vec!["main".to_string(), "HEAD".to_string(), "v1.0".to_string()];
    let s = format_refs(&refs);
    assert!(s.starts_with("(HEAD"));
    assert_eq!(s, "(HEAD, main, v1.0)");
    assert_eq!(format_refs(&[]), "()");
}

#[test]
fn timestamp_conocido_se_formatea_a_utc() {
    let s = format_timestamp(1777127400);
    assert_eq!(s, "2026-04-25 14:30");
}

#[test]
fn timestamp_negativo_o_cero_se_marca_desconocido() {
    assert_eq!(format_timestamp(0), "desconocido");
    assert_eq!(format_timestamp(-1), "desconocido");
}

#[test]
fn calendar_conversion_of_known_days() {
    assert_eq!(days_since_epoch_to_ymd(0), (1970, 1, 1));
    assert_eq!(days_since_epoch_to_ymd(59), (1970, 3, 1));
    assert_eq!(days_since_epoch_to_ymd(11016), (2000, 2, 29));
    assert_eq!(days_since_epoch_to_ymd(11017), (2000, 3, 1));
    assert_eq!(format_timestamp(1), "1970-01-01 00:00");
    assert_eq!(format_timestamp(951868799), "2000-02-29 23:59");
}

#[test]
fn diff_text_of_the_readme_example() {
    let report = DiffReport {
        components: vec![
            component("M5", ChangeKind::Added, None, Some(params(&[("symbol", "sky130_fd_pr/nfet_01v8_lvt.sym")]))),
            component("R2", ChangeKind::Removed, None, None),
            component("C1", ChangeKind::Modified, Some(params(&[("value", "1p"), ("x", "0")])), Some(params(&[("value", "2p"), ("x", "10")]))),
        ],
        nets_added: vec![],
        nets_removed: vec![],
        is_move_all: false,
    };
    assert_eq!(
        present_text(&report, "design/op_amp.sch"),
        vec![
            "Archivo : design/op_amp.sch",
            "Cambios : 3",
            "",
            "  + M5",
            "      symbol: sky130_fd_pr/nfet_01v8_lvt.sym",
            "  - R2",
            "  ~ C1",
            "      value: 1p → 2p",
        ]
    );
}

#[test]
fn diff_text_counts_cosmetic_and_lists_nets() {
    let mut moved = component("R9", ChangeKind::Modified, None, None);
    moved.cosmetic = true;
    let report = DiffReport {
        components: vec![
            moved,
            component("R1 → R7", ChangeKind::Modified, Some(params(&[("a", "1")])), Some(params(&[("b", "2")]))),
        ],
        nets_added: vec![],
        nets_removed: vec!["n3".to_string()],
        is_move_all: false,
    };
    assert_eq!(
        present_text(&report, "f.sch"),
        vec![
            "Archivo : f.sch",
            "Cambios : 1",
            "Cosméticos: 1 (solo posición)",
            "",
            "  r R1 → R7",
            "      a: 1 → (eliminado)",
            "      b: (nuevo) → 2",
            "",
            "  - net:n3",
        ]
    );
    let empty = DiffReport { components: vec![], nets_added: vec![], nets_removed: vec![], is_move_all: false };
    assert_eq!(present_text(&empty, "f.sch"), vec!["Sin cambios semanticos."]);
}

#[test]
fn geometry_element_names() {
    assert!(is_gds_geom_element("TOP:L68/20"));
    assert!(is_gds_geom_element("TOP:L68/20:TOP/INV"));
    assert!(!is_gds_geom_element("R1"));
    assert!(!is_gds_geom_element("cell:TOP"));
    assert!(!is_gds_geom_element("TOP:L68/"));
    assert!(!is_gds_geom_element("TOP:L/20"));
    assert!(!is_gds_geom_element("TOP:Lx/20"));
    assert!(!is_gds_geom_element("net:Vdd"));
    assert!(!is_gds_geom_element("layout"));
    assert!(!is_gds_geom_element("TOP:L68/2x"));
}

#[test]
fn exit_codes_of_commands() {
    assert_eq!(exit_code(true, &Ok(Outcome::StatusClean)), 0);
    assert_eq!(exit_code(true, &Ok(Outcome::StatusDirty)), 1);
    assert_eq!(exit_code(true, &Err("x".to_string())), 2);
    assert_eq!(exit_code(false, &Ok(Outcome::Done)), 0);
    assert_eq!(exit_code(false, &Err("x".to_string())), 1);
    assert_eq!(shell_to_exit(&Ok(())), 0);
    assert_eq!(shell_to_exit(&Err("x".to_string())), 1);
}

#[test]
fn shell_reads_commands() {
    assert_eq!(shell_action("   "), ShellAction::Nothing);
    assert_eq!(shell_action(" q "), ShellAction::Exit);
    assert_eq!(shell_action("quit"), ShellAction::Exit);
    assert_eq!(shell_action("help"), ShellAction::Help);
    assert_eq!(shell_action("cd"), ShellAction::Cd(".".to_string()));
    assert_eq!(shell_action("cd   design "), ShellAction::Cd("design".to_string()));
    assert_eq!(shell_action("ls"), ShellAction::Ls(None));
    assert_eq!(shell_action("ls sub"), ShellAction::Ls(Some("sub".to_string())));
    assert_eq!(shell_action("  diff a b  f.sch "), ShellAction::Run("diff a b  f.sch".to_string()));
    assert_eq!(shell_action("exitx"), ShellAction::Run("exitx".to_string()));
}

#[test]
fn visual_diff_page_holds_both_panels() {
    let html = build_diff_html("abc", "def", "amp.sch", "<svg>A</svg>", "<svg>B</svg>");
    assert!(html.starts_with("<!DOCTYPE html>\n<html lang=\"es\">"));
    assert!(html.contains("<title>riku diff — amp.sch</title>"));
    assert!(html.contains("<span>abc</span> → <span>def</span>"));
    assert!(html.contains("ANTES &nbsp;<b>abc</b></div>\n    <div class=\"panel-body\"><svg>A</svg></div>"));
    assert!(html.contains("DESPUÉS &nbsp;<b>def</b></div>\n    <div class=\"panel-body\"><svg>B</svg></div>"));
    assert!(html.contains("  * { box-sizing: border-box; margin: 0; padding: 0; }"));
    assert!(html.ends_with("</body>\n</html>"));
}

#[test]
fn doctor_reports_environment() {
    assert_eq!(tools_status(None, false), ToolsStatus::NotConfigured);
    assert_eq!(tools_status(Some("/t/d".to_string()), true), ToolsStatus::Found("/t/d".to_string()));
    assert_eq!(tools_status(Some("/t/d".to_string()), false), ToolsStatus::Misconfigured("/t/d".to_string()));
    assert!(!has_symbol_source(&None, &PdkStatus::NotConfigured, &ToolsStatus::NotConfigured));
    assert!(has_symbol_source(&None, &PdkStatus::Found("/p".to_string()), &ToolsStatus::NotConfigured));
    let report = DoctorReport {
        repo_workdir: None,
        xschemrc: Some(".xschemrc".to_string()),
        pdk: PdkStatus::NotConfigured,
        tools: ToolsStatus::NotConfigured,
        has_symbols: true,
        drivers: vec![GdsDriver::new().info()],
    };
    assert_eq!(
        doctor_text(&report),
        "\nRiku Doctor — Diagnóstico del Entorno\n\n--- Repositorio Git ---\n  [!]  No detectado — diff/log no funcionarán\n\n--- PDK ---\n  [ok]  .xschemrc: .xschemrc\n  [--]  $PDK_ROOT / $PDK: no configurados\n  [--]  $TOOLS: no configurado\n\n--- Drivers ---\n  [ok]  gds        gds-renderer (gdstk cxx)\n\nEntorno listo.\n\n"
    );
}

#[test]
fn normalize_keeps_the_content() {
    let d = Driver::Xschem(XschemDriver::new());
    assert_eq!(d.normalize(VALID_SCH, "x.sch"), VALID_SCH.to_vec());
    assert_eq!(Driver::Gds(GdsDriver::new()).kind(), riku::models::DriverKind::Gds);
}

use riku::diff_text::geometry_lines;
use riku::log_format::counts_line;

#[test]
fn layout_change_details() {
    let after = params(&[
        ("added_area_um2", "1.250"),
        ("added_polygons", "2"),
        ("bbox_um", "0.000,1.000,2.500,3.000"),
        ("origin_path", "TOP/INV"),
    ]);
    assert_eq!(
        geometry_lines(&after),
        vec![
            "      origen: TOP → INV",
            "      +2 polys / +1.250 µm²",
            "      -0 polys / -0.000 µm²",
            "      bbox: (0.000, 1.000) → (2.500, 3.000) µm",
        ]
    );
    let flat = params(&[("bbox_um", "1,2,3"), ("origin_path", "TOP")]);
    assert_eq!(geometry_lines(&flat), vec!["      +0 polys / +0.000 µm²", "      -0 polys / -0.000 µm²"]);
}

#[test]
fn history_counts_line() {
    assert_eq!(counts_line(0, 0, 0), None);
    assert_eq!(counts_line(2, 0, 1), Some("           +2  ~1".to_string()));
    assert_eq!(counts_line(0, 3, 0), Some("           -3".to_string()));
    assert_eq!(counts_line(1, 1, 1), Some("           +1  -1  ~1".to_string()));
}

#[test]
fn status_lists_design_files_with_their_kind() {
    let paths = vec!["amp/op.SCH".to_string(), "README.md".to_string(), "chip/top.gds".to_string()];
    let (lines, dirty) = status_lines(&paths, false);
    assert!(dirty);
    assert_eq!(lines, vec!["  xschem      amp/op.SCH", "  gds         chip/top.gds"]);
    let (all, dirty) = status_lines(&paths, true);
    assert!(dirty);
    assert_eq!(all[1], "  desconocido README.md");
    let (clean, dirty) = status_lines(&vec!["notes.txt".to_string()], false);
    assert!(!dirty);
    assert_eq!(clean, vec!["Sin cambios pendientes."]);
}
