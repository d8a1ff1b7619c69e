//! Domain model of a semantic diff: what changed in a design file, as each
//! format driver reports it, and the component-level view derived from it.

use vstd::prelude::*;

verus! {

/// Kind of a change.
#[derive(Clone, Copy, Debug, PartialEq, Eq, Structural)]
pub enum ChangeKind {
    Added,
    Removed,
    Modified,
}

/// Formats of design files that drivers recognise.
#[derive(Clone, Copy, Debug, PartialEq, Eq, Structural)]
pub enum FileFormat {
    Xschem,
    Gds,
    Unknown,
}

/// The format drivers.
#[derive(Clone, Copy, Debug, PartialEq, Eq, Structural)]
pub enum DriverKind {
    Xschem,
    Gds,
}

/// Parameters of an element, by key, in increasing key order.
pub type Params = Vec<(String, String)>;

/// One change that a driver reports.
#[derive(Clone, Debug, PartialEq, Eq)]
pub struct DiffEntry {
    pub kind: ChangeKind,
    /// Component name, `net:<name>`, `cell:<name>`, `<cell>:L<layer>/<datatype>`
    /// or `layout` for a whole-drawing rearrangement.
    pub element: String,
    pub before: Option<Params>,
    pub after: Option<Params>,
    /// The change moves things around without changing the circuit.
    pub cosmetic: bool,
    pub position_changed: bool,
}

/// What a driver reports for one file.
#[derive(Clone, Debug, PartialEq, Eq)]
pub struct DriverDiffReport {
    pub file_type: FileFormat,
    pub changes: Vec<DiffEntry>,
    pub visual_a: Option<String>,
    pub visual_b: Option<String>,
    pub warnings: Vec<String>,
}

impl DriverDiffReport {
    /// An empty report for a file of the given format.
    pub fn new(file_type: FileFormat) -> (r: Self)
        ensures
            r.file_type == file_type,
            r.changes@.len() == 0,
            r.visual_a is None,
            r.visual_b is None,
            r.warnings@.len() == 0,
    {
        DriverDiffReport { file_type, changes: Vec::new(), visual_a: None, visual_b: None, warnings: Vec::new() }
    }

    /// Whether no change was reported.
    pub fn is_empty(&self) -> (r: bool)
        ensures
            r == (self.changes@.len() == 0),
    {
        self.changes.len() == 0
    }
}

/// Identity of a driver and what it handles.
#[derive(Clone, Debug, PartialEq, Eq)]
pub struct DriverInfo {
    pub name: DriverKind,
    pub available: bool,
    pub version: String,
    pub extensions: Vec<String>,
}

/// A changed component, as the viewers show it.
#[derive(Clone, Debug, PartialEq, Eq)]
pub struct ComponentDiff {
    pub name: String,
    pub kind: ChangeKind,
    pub cosmetic: bool,
    pub position_changed: bool,
    pub before: Option<Params>,
    pub after: Option<Params>,
}

/// Component-level view of a schematic diff.
#[derive(Clone, Debug, PartialEq, Eq)]
pub struct DiffReport {
    pub components: Vec<ComponentDiff>,
    pub nets_added: Vec<String>,
    pub nets_removed: Vec<String>,
    pub is_move_all: bool,
}

impl DiffReport {
    /// Whether nothing changed: no component and no net.
    pub fn is_empty(&self) -> (r: bool)
        ensures
            r == (self.components@.len() == 0 && self.nets_added@.len() == 0
                && self.nets_removed@.len() == 0),
    {
        self.components.len() == 0 && self.nets_added.len() == 0 && self.nets_removed.len() == 0
    }
}

} // verus!
