//! The format drivers and the registry that picks one for a file.

use vstd::prelude::*;
use crate::models::{DriverInfo, DriverKind};
use crate::text::{ascii_lower_seq, chars_of, ends_with, has_suffix, lower_ascii, push_str, string_of};

verus! {

/// Where the PDK's schematic symbols were looked for.
#[derive(Clone, Debug, PartialEq, Eq)]
pub enum PdkStatus {
    /// `$PDK_ROOT/$PDK` holds symbols at this path.
    Found(String),
    /// `$PDK_ROOT` and `$PDK` are set but this path does not exist.
    Misconfigured(String),
    /// Neither is set.
    NotConfigured,
}

/// The schematic driver.
#[derive(Clone, Copy, Debug, PartialEq, Eq, Structural)]
pub struct XschemDriver;

/// The layout driver.
#[derive(Clone, Copy, Debug, PartialEq, Eq, Structural)]
pub struct GdsDriver;

/// A registered driver.
#[derive(Clone, Copy, Debug, PartialEq, Eq, Structural)]
pub enum Driver {
    Xschem(XschemDriver),
    Gds(GdsDriver),
}

/// PDK line of the schematic driver's version text.
pub open spec fn pdk_status_text(status: PdkStatus, pdk: Seq<char>) -> Seq<char> {
    match status {
        PdkStatus::Found(_) => "PDK: "@ + pdk + " [ok]"@,
        PdkStatus::Misconfigured(_) => "PDK: "@ + pdk + " [error: ruta no encontrada]"@,
        PdkStatus::NotConfigured => "PDK: [no detectado, usa PDK_ROOT/PDK o .xschemrc]"@,
    }
}

impl XschemDriver {
    pub fn new() -> (d: Self)
        ensures
            d == XschemDriver,
    {
        XschemDriver
    }

    /// The driver's identity; `pdk` is the value of `$PDK`.
    pub fn info(&self, status: &PdkStatus, pdk: &str) -> (i: DriverInfo)
        ensures
            i.name == DriverKind::Xschem,
            i.available,
            i.version@ == "Native Renderer | "@ + pdk_status_text(*status, pdk@),
            i.extensions@.len() == 1,
            i.extensions@[0]@ == ".sch"@,
    {
        let mut v: Vec<char> = Vec::new();
        push_str(&mut v, "Native Renderer | ");
        match status {
            PdkStatus::Found(_) => {
                push_str(&mut v, "PDK: ");
                push_str(&mut v, pdk);
                push_str(&mut v, " [ok]");
            },
            PdkStatus::Misconfigured(_) => {
                push_str(&mut v, "PDK: ");
                push_str(&mut v, pdk);
                push_str(&mut v, " [error: ruta no encontrada]");
            },
            PdkStatus::NotConfigured => {
                push_str(&mut v, "PDK: [no detectado, usa PDK_ROOT/PDK o .xschemrc]");
            },
        }
        assert(v@ =~= "Native Renderer | "@ + pdk_status_text(*status, pdk@));
        let mut extensions: Vec<String> = Vec::new();
        extensions.push(string_of(&chars_of(".sch")));
        DriverInfo { name: DriverKind::Xschem, available: true, version: string_of(&v), extensions }
    }
}

impl Default for XschemDriver {
    fn default() -> (d: Self)
        ensures
            d == XschemDriver,
    {
        XschemDriver
    }
}

impl GdsDriver {
    pub fn new() -> (d: Self)
        ensures
            d == GdsDriver,
    {
        GdsDriver
    }

    pub fn info(&self) -> (i: DriverInfo)
        ensures
            i.name == DriverKind::Gds,
            i.available,
            i.version@ == "gds-renderer (gdstk cxx)"@,
            i.extensions@.len() == 1,
            i.extensions@[0]@ == ".gds"@,
    {
        let mut extensions: Vec<String> = Vec::new();
        extensions.push(string_of(&chars_of(".gds")));
        DriverInfo {
            name: DriverKind::Gds,
            available: true,
            version: string_of(&chars_of("gds-renderer (gdstk cxx)")),
            extensions,
        }
    }
}

impl Default for GdsDriver {
    fn default() -> (d: Self)
        ensures
            d == GdsDriver,
    {
        GdsDriver
    }
}

/// File extension a driver handles.
pub open spec fn driver_extension(kind: DriverKind) -> Seq<char> {
    match kind {
        DriverKind::Xschem => ".sch"@,
        DriverKind::Gds => ".gds"@,
    }
}

/// A driver handles the files whose name ends with its extension, in any case.
pub open spec fn handles(kind: DriverKind, filename: Seq<char>) -> bool {
    has_suffix(ascii_lower_seq(filename), driver_extension(kind))
}

impl Driver {
    pub open spec fn kind_of(self) -> DriverKind {
        match self {
            Driver::Xschem(_) => DriverKind::Xschem,
            Driver::Gds(_) => DriverKind::Gds,
        }
    }

    pub fn kind(&self) -> (k: DriverKind)
        ensures
            k == self.kind_of(),
    {
        match self {
            Driver::Xschem(_) => DriverKind::Xschem,
            Driver::Gds(_) => DriverKind::Gds,
        }
    }

    /// Whether the driver handles a file of this name.
    pub fn can_handle(&self, filename: &str) -> (r: bool)
        ensures
            r == handles(self.kind_of(), filename@),
    {
        let lower = lower_ascii(&chars_of(filename));
        match self {
            Driver::Xschem(_) => ends_with(&lower, &chars_of(".sch")),
            Driver::Gds(_) => ends_with(&lower, &chars_of(".gds")),
        }
    }

    /// Canonical form of a file's content before comparison: the content itself.
    pub fn normalize(&self, content: &[u8], _path_hint: &str) -> (r: Vec<u8>)
        ensures
            r@ == content@,
    {
        let mut r: Vec<u8> = Vec::new();
        let n = content.len();
        let mut i: usize = 0;
        while i < n
            invariant
                n == content@.len(),
                i <= n,
                r@ == content@.take(i as int),
            decreases n - i,
        {
            r.push(content[i]);
            assert(content@.take(i + 1) =~= content@.take(i as int).push(content@[i as int]));
            i = i + 1;
        }
        assert(content@.take(n as int) =~= content@);
        r
    }
}

/// The registered drivers, in the order in which they are asked.
pub open spec fn registered() -> Seq<Driver> {
    seq![Driver::Xschem(XschemDriver), Driver::Gds(GdsDriver)]
}

pub fn get_drivers() -> (v: Vec<Driver>)
    ensures
        v@ == registered(),
{
    let v = vec![Driver::Xschem(XschemDriver::new()), Driver::Gds(GdsDriver::new())];
    assert(v@ =~= registered());
    v
}

/// The first registered driver that handles the file.
pub fn get_driver_for(filename: &str) -> (r: Option<Driver>)
    ensures
        r == (if handles(DriverKind::Xschem, filename@) {
            Some(Driver::Xschem(XschemDriver))
        } else if handles(DriverKind::Gds, filename@) {
            Some(Driver::Gds(GdsDriver))
        } else {
            None
        }),
{
    let drivers = get_drivers();
    let n = drivers.len();
    let mut i: usize = 0;
    while i < n
        invariant
            drivers@ == registered(),
            n == 2,
            i <= n,
            forall|k: int| 0 <= k < i ==> !handles(#[trigger] registered()[k].kind_of(), filename@),
        decreases n - i,
    {
        if drivers[i].can_handle(filename) {
            proof {
                assert(drivers@[i as int] == registered()[i as int]);
                if i == 1 {
                    assert(!handles(registered()[0].kind_of(), filename@));
                }
            }
            return Some(drivers[i]);
        }
        i = i + 1;
    }
    assert(!handles(registered()[0].kind_of(), filename@));
    assert(!handles(registered()[1].kind_of(), filename@));
    None
}


// ─── `riku status` ───────────────────────────────────────────────────────────

/// How the status listing names the kind of a changed file: the driver that
/// handles it, or `desconocido`.
pub open spec fn status_kind(path: Seq<char>) -> Seq<char> {
    if handles(DriverKind::Xschem, path) {
        "xschem"@
    } else if handles(DriverKind::Gds, path) {
        "gds"@
    } else {
        "desconocido"@
    }
}

/// A changed file as the status listing shows it: its kind, padded to eleven
/// columns, then its path.
pub open spec fn status_line(path: Seq<char>) -> Seq<char> {
    "  "@ + crate::doctor::pad_right(status_kind(path), 11) + " "@ + path
}

/// Lines for the first `n` changed paths: those some driver handles, and the
/// others too when `include_unknown`, in the order given.
pub open spec fn status_listing(paths: Seq<Seq<char>>, include_unknown: bool, n: int) -> Seq<Seq<char>>
    decreases n,
{
    if n <= 0 {
        Seq::empty()
    } else {
        let p = paths[n - 1];
        status_listing(paths, include_unknown, n - 1) + (if include_unknown || handles(DriverKind::Xschem, p)
            || handles(DriverKind::Gds, p) {
            seq![status_line(p)]
        } else {
            Seq::empty()
        })
    }
}

fn status_line_text(path: &String) -> (s: String)
    ensures
        s@ == status_line(path@),
{
    let kind = match get_driver_for(path.as_str()) {
        Some(Driver::Xschem(_)) => chars_of("xschem"),
        Some(Driver::Gds(_)) => chars_of("gds"),
        None => chars_of("desconocido"),
    };
    let mut out: Vec<char> = Vec::new();
    push_str(&mut out, "  ");
    let ghost before_kind = out@;
    crate::text::push_all(&mut out, &kind);
    let mut k: usize = kind.len();
    while k < 11
        invariant
            kind.len() <= k <= 11 || (kind.len() >= 11 && k == kind.len()),
            out@ == before_kind + kind@ + Seq::new((k - kind.len()) as nat, |i: int| ' '),
        decreases 11 - k,
    {
        out.push(' ');
        k = k + 1;
        assert(out@ =~= before_kind + kind@ + Seq::new((k - kind.len()) as nat, |i: int| ' '));
    }
    assert(out@ =~= "  "@ + crate::doctor::pad_right(status_kind(path@), 11));
    push_str(&mut out, " ");
    push_str(&mut out, path.as_str());
    string_of(&out)
}

/// What `riku status` prints for the changed paths of the working tree, and
/// whether there are pending changes: one line per path that a driver handles
/// (every path with `include_unknown`), in order; with none, the single line
/// `Sin cambios pendientes.` and a clean tree.
pub fn status_lines(paths: &Vec<String>, include_unknown: bool) -> (r: (Vec<String>, bool))
    ensures
        ({
            let l = status_listing(crate::order::views(paths@), include_unknown, paths@.len() as int);
            if l.len() == 0 {
                crate::order::views(r.0@) == seq!["Sin cambios pendientes."@] && !r.1
            } else {
                crate::order::views(r.0@) == l && r.1
            }
        }),
{
    let ghost pv = crate::order::views(paths@);
    let mut lines: Vec<String> = Vec::new();
    let n = paths.len();
    let mut i: usize = 0;
    while i < n
        invariant
            n == paths@.len(),
            i <= n,
            pv == crate::order::views(paths@),
            crate::order::views(lines@) == status_listing(pv, include_unknown, i as int),
        decreases n - i,
    {
        let p = &paths[i];
        assert(pv[i as int] == p@);
        if include_unknown || get_driver_for(p.as_str()).is_some() {
            lines.push(status_line_text(p));
        }
        i = i + 1;
        assert(crate::order::views(lines@) =~= status_listing(pv, include_unknown, i as int));
    }
    if lines.len() == 0 {
        let mut clean: Vec<String> = Vec::new();
        clean.push(string_of(&chars_of("Sin cambios pendientes.")));
        assert(crate::order::views(clean@) =~= seq!["Sin cambios pendientes."@]);
        (clean, false)
    } else {
        (lines, true)
    }
}

} // verus!
