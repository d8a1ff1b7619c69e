//! Decisions of the desktop viewer: what it opens at start, what it paints
//! for the selected tab of a diff, and which load errors it shows.

use vstd::prelude::*;
use crate::launch::LaunchArgs;
use crate::project::{is_sch_renderable, path_extension};
use crate::text::{ascii_lower_seq, chars_of, contains, has_infix, string_of};

verus! {

/// Views of a schematic diff.
#[derive(Clone, Copy, Debug, PartialEq, Eq, Structural)]
pub enum DiffTab {
    Before,
    After,
    Diff,
}

/// What the central panel paints.
#[derive(Clone, Copy, Debug, PartialEq, Eq, Structural)]
pub enum Painting {
    /// The loaded schematic, without annotations.
    Plain,
    /// The earlier commit alone.
    BeforeOnly,
    /// The later commit alone.
    AfterOnly,
    /// The later commit over a faint copy of the earlier one, with the
    /// changes annotated.
    DiffOverlay,
}

/// In diff mode (a diff and the earlier drawing are loaded) the tab decides;
/// otherwise the schematic is painted plainly.
pub fn painting(has_diff: bool, has_earlier: bool, tab: DiffTab) -> (p: Painting)
    ensures
        p == (if has_diff && has_earlier {
            match tab {
                DiffTab::Before => Painting::BeforeOnly,
                DiffTab::After => Painting::AfterOnly,
                DiffTab::Diff => Painting::DiffOverlay,
            }
        } else {
            Painting::Plain
        }),
{
    if has_diff && has_earlier {
        match tab {
            DiffTab::Before => Painting::BeforeOnly,
            DiffTab::After => Painting::AfterOnly,
            DiffTab::Diff => Painting::DiffOverlay,
        }
    } else {
        Painting::Plain
    }
}

/// What the path given at start is on disk.
#[derive(Clone, Copy, Debug, PartialEq, Eq, Structural)]
pub enum PathKind {
    File,
    Directory,
    Missing,
}

/// What the viewer loads at start.
#[derive(Clone, Debug, PartialEq, Eq)]
pub enum StartAction {
    /// The diff of `file` between two commits of `repo`.
    LoadDiff { repo: String, commit_a: String, commit_b: String, file: String },
    /// The schematic at this path.
    LoadSchematic(String),
    /// Nothing: the project tree waits for a choice.
    Idle,
}

/// The viewer's start: the folder of the project tree, the selected file,
/// and what to load.
#[derive(Clone, Debug, PartialEq, Eq)]
pub struct Startup {
    pub project_root: String,
    pub selected: Option<String>,
    pub action: StartAction,
}

pub open spec fn opt_chars(o: Option<String>) -> Option<Seq<char>> {
    match o {
        Some(s) => Some(s@),
        None => None,
    }
}

/// The start as plain values: a file opens its folder and is selected; a
/// folder is opened; otherwise the working folder. With a file and both
/// commits the diff is loaded (from `repo`, or `.`); else a selected
/// schematic is loaded.
pub open spec fn is_startup(s: Startup, launch: LaunchArgs, kind: PathKind, parent: Option<Seq<char>>, cwd: Seq<char>) -> bool {
    let (root, selected) = match launch.file {
        Some(p) => match kind {
            PathKind::File => (match parent { Some(d) => d, None => cwd }, Some(p@)),
            PathKind::Directory => (p@, None),
            PathKind::Missing => (cwd, None),
        },
        None => (cwd, None),
    };
    &&& s.project_root@ == root
    &&& opt_chars(s.selected) == selected
    &&& if launch.file is Some && launch.commit_a is Some && launch.commit_b is Some {
        s.action matches StartAction::LoadDiff { repo, commit_a, commit_b, file }
            && repo@ == (match launch.repo { Some(r) => r@, None => "."@ })
            && commit_a@ == launch.commit_a->0@ && commit_b@ == launch.commit_b->0@
            && file@ == launch.file->0@
    } else if (match selected {
        Some(p) => path_extension(p) matches Some(e) && ascii_lower_seq(e) == "sch"@,
        None => false,
    }) {
        s.action matches StartAction::LoadSchematic(f) && selected == Some(f@)
    } else {
        s.action is Idle
    }
}

/// Plans the start from the arguments, what the given path is on disk, its
/// parent folder and the working folder.
pub fn plan_startup(launch: &LaunchArgs, kind: PathKind, parent: Option<String>, cwd: &str) -> (s: Startup)
    ensures
        is_startup(s, *launch, kind, opt_chars(parent), cwd@),
{
    let (project_root, selected) = match &launch.file {
        Some(p) => match kind {
            PathKind::File => (
                match parent {
                    Some(d) => d,
                    None => cwd.to_owned(),
                },
                Some(p.clone()),
            ),
            PathKind::Directory => (p.clone(), None),
            PathKind::Missing => (cwd.to_owned(), None),
        },
        None => (cwd.to_owned(), None),
    };
    let action = match (&launch.file, &launch.commit_a, &launch.commit_b) {
        (Some(f), Some(a), Some(b)) => StartAction::LoadDiff {
            repo: match &launch.repo {
                Some(r) => r.clone(),
                None => string_of(&chars_of(".")),
            },
            commit_a: a.clone(),
            commit_b: b.clone(),
            file: f.clone(),
        },
        _ => match &selected {
            Some(p) => if is_sch_renderable(p.as_str()) {
                StartAction::LoadSchematic(p.clone())
            } else {
                StartAction::Idle
            },
            None => StartAction::Idle,
        },
    };
    Startup { project_root, selected, action }
}

/// A failed background load is shown unless it was cancelled (the viewer
/// cancels a load itself when another file is opened).
pub fn shows_load_error(message: &str) -> (r: bool)
    ensures
        r == !has_infix(message@, "cancelled"@),
{
    !contains(&chars_of(message), &chars_of("cancelled"))
}

/// Text of the central panel when nothing is drawn.
pub fn idle_message(loading: bool) -> (s: &'static str)
    ensures
        s@ == (if loading { "Cargando…"@ } else { "Selecciona un archivo del árbol de proyecto."@ }),
{
    if loading { "Cargando…" } else { "Selecciona un archivo del árbol de proyecto." }
}

} // verus!
