use riku::cli::prompt;
use riku::gds_diff::LayerKey;
use riku::gds_view::{layer_paint, pdk_name, LayerKeys};
use riku::launch::{parse_launch_args, LaunchArgs};
use riku::models::ChangeKind;
use riku::names::{first_line, rename_sides, short_hash, split_name};
use riku::palette_gui::{annotation_colors, change_chip, layer_color, neutral_layer_color};
use riku::picker::{filter_entries, PickerState, ViewEntry};
use riku::project::{is_gds_renderable, is_sch_renderable, order_children, sort_by_name, ProjectEntry};
use riku::style::{Color, Pdk};

fn entry(id: &str, is_root: bool) -> ViewEntry {
    ViewEntry { id: id.to_string(), is_root }
}

fn lib() -> Vec<ViewEntry> {
    vec![
        entry("sky130_fd_sc_hd__inv_1", true),
        entry("sky130_fd_sc_hd__INV_4", true),
        entry("sky130_fd_sc_hd__nand2_1", true),
        entry("sky130_fd_pr__inv_core", false),
    ]
}

#[test]
fn filter_is_case_insensitive_and_respects_roots() {
    assert_eq!(filter_entries(&lib(), "inv", true), vec![0, 1]);
    assert_eq!(filter_entries(&lib(), " INV ", false), vec![0, 1, 3]);
    assert_eq!(filter_entries(&lib(), "", true), vec![0, 1, 2]);
    assert!(filter_entries(&lib(), "xor", false).is_empty());
}

#[test]
fn picker_state_filters_with_its_query() {
    let mut query = String::from("NAND");
    let mut only_roots = false;
    let state = PickerState { query: &mut query, only_roots: &mut only_roots };
    assert_eq!(state.visible(&lib()), vec![2]);
}

#[test]
fn split_name_separates_library_prefix() {
    let pair = |s: &str| {
        let (a, b) = split_name(s);
        (a, b)
    };
    let (a, b) = pair("sky130_fd_sc_hd__inv_1");
    assert_eq!((a.as_str(), b.as_deref()), ("inv_1", Some("sky130_fd_sc_hd")));
    let (a, b) = pair("sky130_ef_sc_hd__decap_12");
    assert_eq!((a.as_str(), b.as_deref()), ("decap_12", Some("sky130_ef_sc_hd")));
    let (a, b) = pair("TOP");
    assert_eq!((a.as_str(), b.as_deref()), ("TOP", None));
    let (a, b) = pair("__x");
    assert_eq!((a.as_str(), b.as_deref()), ("__x", None));
}

#[test]
fn short_hash_keeps_seven_characters() {
    assert_eq!(short_hash("4f2a1c9d00e1"), "4f2a1c9");
    assert_eq!(short_hash("abc"), "abc");
}

#[test]
fn first_line_of_a_commit_message() {
    assert_eq!(first_line("ajustar bias del OTA\n\ncuerpo"), "ajustar bias del OTA");
    assert_eq!(first_line(""), "");
}

#[test]
fn rename_names_both_sides() {
    let (before, after) = rename_sides("R1 → R7");
    assert_eq!((before.as_str(), after.as_str()), ("R1", "R7"));
}

#[test]
fn launch_arguments_are_read_in_order() {
    let args: Vec<String> = ["--repo", "/r", "amp.sch", "--commit-a", "abc", "--commit-b", "def"]
        .iter()
        .map(|s| s.to_string())
        .collect();
    assert_eq!(
        parse_launch_args(&args),
        LaunchArgs {
            file: Some("amp.sch".to_string()),
            repo: Some("/r".to_string()),
            commit_a: Some("abc".to_string()),
            commit_b: Some("def".to_string()),
        }
    );
    let dangling = vec!["x.sch".to_string(), "--repo".to_string()];
    assert_eq!(
        parse_launch_args(&dangling),
        LaunchArgs { file: Some("x.sch".to_string()), repo: None, commit_a: None, commit_b: None }
    );
}

#[test]
fn renderable_files_by_extension() {
    assert!(is_gds_renderable("chip/top.GDS"));
    assert!(is_gds_renderable("a.oas"));
    assert!(is_gds_renderable("a.oasisc"));
    assert!(is_gds_renderable("a.gdsii"));
    assert!(!is_gds_renderable("a.sch"));
    assert!(!is_gds_renderable("gds"));
    assert!(is_sch_renderable("amp.SCH"));
    assert!(!is_sch_renderable("amp.sym"));
    assert!(!is_sch_renderable(".sch"));
}

fn file(name: &str) -> ProjectEntry {
    ProjectEntry::File { path: format!("/p/{name}"), name: name.to_string() }
}

fn dir(name: &str) -> ProjectEntry {
    ProjectEntry::Directory { path: format!("/p/{name}"), name: name.to_string(), children: vec![] }
}

#[test]
fn folders_come_first_then_files_each_by_name() {
    let children = order_children(vec![dir("zeta"), dir("alpha")], vec![file("b.sch"), file("a.sch"), file("B.sch")]);
    assert_eq!(children, vec![dir("alpha"), dir("zeta"), file("B.sch"), file("a.sch"), file("b.sch")]);
    assert_eq!(sort_by_name(vec![]), vec![]);
}

#[test]
fn project_root_is_named_after_its_folder() {
    let root = ProjectEntry::build("/home/u/design", vec![dir("sub")], vec![file("x.sch")]);
    assert_eq!(
        root,
        ProjectEntry::Directory {
            path: "/home/u/design".to_string(),
            name: "design".to_string(),
            children: vec![dir("sub"), file("x.sch")],
        }
    );
    match ProjectEntry::build("/", vec![], vec![]) {
        ProjectEntry::Directory { name, .. } => assert_eq!(name, "/"),
        _ => panic!("a folder"),
    }
}

#[test]
fn prompt_shows_folder_and_repository() {
    assert_eq!(prompt("/home/u/design", true), "riku design (git)> ");
    assert_eq!(prompt("/home/u/design", false), "riku design> ");
}

#[test]
fn change_chips_follow_the_legend() {
    let added = change_chip(ChangeKind::Added, false, false).unwrap();
    assert_eq!((added.prefix, added.color, added.extra), ('+', Color::rgba(0, 200, 0, 255), None));
    let moved = change_chip(ChangeKind::Modified, true, true).unwrap();
    assert_eq!(moved.prefix, '↦');
    assert_eq!(moved.color, Color::rgba(0, 190, 255, 255));
    let both = change_chip(ChangeKind::Modified, false, true).unwrap();
    assert_eq!((both.prefix, both.extra), ('~', Some(Color::rgba(0, 190, 255, 255))));
    assert!(change_chip(ChangeKind::Modified, true, false).is_none());
}

#[test]
fn annotation_and_layer_colours_are_stable() {
    assert_eq!(annotation_colors(ChangeKind::Added, false, false), annotation_colors(ChangeKind::Added, false, false));
    assert_eq!(neutral_layer_color(7), neutral_layer_color(7));
    assert_eq!(layer_color(4), layer_color(4));
}

#[test]
fn layer_keys_follow_the_stack() {
    let tags = vec![
        LayerKey { layer: 68, datatype: 20 },
        LayerKey { layer: 64, datatype: 20 },
        LayerKey { layer: 68, datatype: 20 },
    ];
    let keys = LayerKeys::new(&tags, Some("/pdk/sky130A/top.gds"));
    assert_eq!(keys.pdk, Pdk::Sky130);
    assert_eq!(keys.order, vec![LayerKey { layer: 64, datatype: 20 }, LayerKey { layer: 68, datatype: 20 }]);
    assert_eq!(keys.key(LayerKey { layer: 64, datatype: 20 }), 0);
    assert_eq!(keys.key(LayerKey { layer: 68, datatype: 20 }), 1);
    assert_eq!(keys.key(LayerKey { layer: 1, datatype: 0 }), 65535);
    let paints = keys.paints();
    assert_eq!(paints.len(), 2);
    assert_eq!(paints[1].1.name, "met1 68/20");
    assert_eq!(layer_paint(LayerKey { layer: 1, datatype: 0 }, Pdk::Generic).name, "1/0");
    assert_eq!(pdk_name(Pdk::Ihp), "IHP SG13G2");
}

use riku::viewer::{idle_message, painting, plan_startup, shows_load_error, DiffTab, Painting, PathKind, StartAction, Startup};

fn launch(file: Option<&str>, repo: Option<&str>, a: Option<&str>, b: Option<&str>) -> LaunchArgs {
    LaunchArgs {
        file: file.map(|s| s.to_string()),
        repo: repo.map(|s| s.to_string()),
        commit_a: a.map(|s| s.to_string()),
        commit_b: b.map(|s| s.to_string()),
    }
}

#[test]
fn start_with_a_schematic_opens_its_folder() {
    let s = plan_startup(&launch(Some("/d/amp.sch"), None, None, None), PathKind::File, Some("/d".to_string()), "/cwd");
    assert_eq!(
        s,
        Startup {
            project_root: "/d".to_string(),
            selected: Some("/d/amp.sch".to_string()),
            action: StartAction::LoadSchematic("/d/amp.sch".to_string()),
        }
    );
    let g = plan_startup(&launch(Some("/d/top.gds"), None, None, None), PathKind::File, Some("/d".to_string()), "/cwd");
    assert_eq!(g.action, StartAction::Idle);
}

#[test]
fn start_with_commits_loads_the_diff() {
    let s = plan_startup(&launch(Some("amp.sch"), None, Some("abc"), Some("def")), PathKind::Missing, None, "/cwd");
    assert_eq!(s.project_root, "/cwd");
    assert_eq!(s.selected, None);
    assert_eq!(
        s.action,
        StartAction::LoadDiff {
            repo: ".".to_string(),
            commit_a: "abc".to_string(),
            commit_b: "def".to_string(),
            file: "amp.sch".to_string(),
        }
    );
}

#[test]
fn start_with_a_folder_or_nothing() {
    let d = plan_startup(&launch(Some("/proj"), None, None, None), PathKind::Directory, Some("/".to_string()), "/cwd");
    assert_eq!((d.project_root.as_str(), d.selected, d.action), ("/proj", None, StartAction::Idle));
    let n = plan_startup(&launch(None, None, None, None), PathKind::Missing, None, "/cwd");
    assert_eq!((n.project_root.as_str(), n.selected, n.action), ("/cwd", None, StartAction::Idle));
}

#[test]
fn diff_tabs_choose_the_painting() {
    assert_eq!(painting(true, true, DiffTab::Before), Painting::BeforeOnly);
    assert_eq!(painting(true, true, DiffTab::After), Painting::AfterOnly);
    assert_eq!(painting(true, true, DiffTab::Diff), Painting::DiffOverlay);
    assert_eq!(painting(true, false, DiffTab::Diff), Painting::Plain);
    assert_eq!(painting(false, true, DiffTab::Before), Painting::Plain);
}

#[test]
fn cancelled_loads_are_silent() {
    assert!(!shows_load_error("load cancelled by user"));
    assert!(shows_load_error("parse error at line 3"));
    assert_eq!(idle_message(true), "Cargando…");
    assert_eq!(idle_message(false), "Selecciona un archivo del árbol de proyecto.");
}

#[test]
fn query_is_trimmed_of_unicode_white_space() {
    assert_eq!(filter_entries(&lib(), "\u{a0}\tinv\u{3000}\u{2003}", true), vec![0, 1]);
    assert_eq!(filter_entries(&lib(), "\u{2028} \u{85}", true), vec![0, 1, 2]);
    assert!(filter_entries(&lib(), "in v", false).is_empty());
}
