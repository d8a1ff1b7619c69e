//! `riku doctor`: what the environment diagnosis decides and prints, from
//! what was found on the machine.

use vstd::prelude::*;
use crate::models::{DriverInfo, DriverKind};
use crate::registry::PdkStatus;
use crate::text::{chars_of, has_infix, occurs_at, push_str, string_of};

verus! {

/// The symbol library of the tools installation (`$TOOLS`).
#[derive(Clone, Debug, PartialEq, Eq)]
pub enum ToolsStatus {
    /// `$TOOLS` is not set.
    NotConfigured,
    /// `$TOOLS` is set but its device library is missing at this path.
    Misconfigured(String),
    /// The device library is at this path.
    Found(String),
}

/// Classifies the device library path built from `$TOOLS` (none when the
/// variable is unset) by whether it exists.
pub fn tools_status(devices: Option<String>, exists: bool) -> (r: ToolsStatus)
    ensures
        match devices {
            None => r is NotConfigured,
            Some(d) => if exists {
                r == ToolsStatus::Found(d)
            } else {
                r == ToolsStatus::Misconfigured(d)
            },
        },
{
    match devices {
        None => ToolsStatus::NotConfigured,
        Some(d) => if exists { ToolsStatus::Found(d) } else { ToolsStatus::Misconfigured(d) },
    }
}

/// Some source of schematic symbols exists: an `.xschemrc`, the PDK's
/// symbols or the tools' device library.
pub fn has_symbol_source(xschemrc: &Option<String>, pdk: &PdkStatus, tools: &ToolsStatus) -> (r: bool)
    ensures
        r == (xschemrc is Some || pdk is Found || tools is Found),
{
    xschemrc.is_some() || matches!(pdk, PdkStatus::Found(_)) || matches!(tools, ToolsStatus::Found(_))
}

/// What the diagnosis found.
pub struct DoctorReport {
    pub repo_workdir: Option<String>,
    pub xschemrc: Option<String>,
    pub pdk: PdkStatus,
    pub tools: ToolsStatus,
    pub has_symbols: bool,
    pub drivers: Vec<DriverInfo>,
}

/// Name under which a driver is listed.
pub open spec fn driver_name(k: DriverKind) -> Seq<char> {
    match k {
        DriverKind::Xschem => "xschem"@,
        DriverKind::Gds => "gds"@,
    }
}

/// `s` followed by spaces up to `width` characters.
pub open spec fn pad_right(s: Seq<char>, width: nat) -> Seq<char> {
    if s.len() >= width { s } else { s + Seq::new((width - s.len()) as nat, |i: int| ' ') }
}

pub open spec fn repo_section(repo: Option<String>) -> Seq<char> {
    match repo {
        Some(p) => "  [ok]  "@ + p@ + "\n"@,
        None => "  [!]  No detectado — diff/log no funcionarán\n"@,
    }
}

pub open spec fn xschemrc_line(x: Option<String>) -> Seq<char> {
    match x {
        Some(p) => "  [ok]  .xschemrc: "@ + p@ + "\n"@,
        None => "  [--]  .xschemrc: no encontrado\n"@,
    }
}

pub open spec fn pdk_line(pdk: PdkStatus) -> Seq<char> {
    match pdk {
        PdkStatus::Found(p) => "  [ok]  $PDK_ROOT/$PDK → "@ + p@ + "\n"@,
        PdkStatus::Misconfigured(p) => "  [!]  $PDK_ROOT/$PDK configurado pero ruta no encontrada: "@ + p@ + "\n"@,
        PdkStatus::NotConfigured => "  [--]  $PDK_ROOT / $PDK: no configurados\n"@,
    }
}

pub open spec fn tools_line(t: ToolsStatus) -> Seq<char> {
    match t {
        ToolsStatus::Found(p) => "  [ok]  $TOOLS → "@ + p@ + "\n"@,
        ToolsStatus::Misconfigured(p) => "  [!]  $TOOLS configurado pero devices no encontrado: "@ + p@ + "\n"@,
        ToolsStatus::NotConfigured => "  [--]  $TOOLS: no configurado\n"@,
    }
}

pub open spec fn driver_line(d: DriverInfo) -> Seq<char> {
    "  "@ + (if d.available { "[ok]"@ } else { "[x]"@ }) + "  "@ + pad_right(driver_name(d.name), 10) + " "@
        + d.version@ + "\n"@
}

pub open spec fn driver_lines(ds: Seq<DriverInfo>) -> Seq<char>
    decreases ds.len(),
{
    if ds.len() == 0 {
        Seq::empty()
    } else {
        driver_lines(ds.drop_last()) + driver_line(ds.last())
    }
}

/// The text that `riku doctor` prints for a report.
pub open spec fn doctor_text_of(r: DoctorReport) -> Seq<char> {
    "\nRiku Doctor — Diagnóstico del Entorno\n\n"@ + "--- Repositorio Git ---\n"@ + repo_section(r.repo_workdir)
        + "\n--- PDK ---\n"@ + xschemrc_line(r.xschemrc) + pdk_line(r.pdk) + tools_line(r.tools)
        + (if r.has_symbols {
            Seq::empty()
        } else {
            "  [!]  Sin fuente de símbolos — los componentes se renderizarán como cajas vacías\n"@
        }) + "\n--- Drivers ---\n"@ + driver_lines(r.drivers@) + "\nEntorno listo.\n\n"@
}

fn push_driver_line(out: &mut Vec<char>, d: &DriverInfo)
    ensures
        final(out)@ == old(out)@ + driver_line(*d),
{
    let ghost start = out@;
    push_str(out, "  ");
    if d.available {
        push_str(out, "[ok]");
    } else {
        push_str(out, "[x]");
    }
    push_str(out, "  ");
    let name = match d.name {
        DriverKind::Xschem => chars_of("xschem"),
        DriverKind::Gds => chars_of("gds"),
    };
    let ghost before_name = out@;
    crate::text::push_all(out, &name);
    let mut k: usize = name.len();
    while k < 10
        invariant
            name.len() <= k <= 10 || (name.len() >= 10 && k == name.len()),
            out@ == before_name + name@ + Seq::new((k - name.len()) as nat, |i: int| ' '),
        decreases 10 - k,
    {
        out.push(' ');
        k = k + 1;
        assert(out@ =~= before_name + name@ + Seq::new((k - name.len()) as nat, |i: int| ' '));
    }
    assert(out@ =~= before_name + pad_right(name@, 10));
    push_str(out, " ");
    push_str(out, d.version.as_str());
    push_str(out, "\n");
    assert(out@ =~= start + driver_line(*d));
}

fn push_path_line(out: &mut Vec<char>, lead: &str, p: &String)
    ensures
        final(out)@ == old(out)@ + lead@ + p@ + "\n"@,
{
    let ghost start = out@;
    push_str(out, lead);
    push_str(out, p.as_str());
    push_str(out, "\n");
    assert(out@ =~= start + lead@ + p@ + "\n"@);
}

fn push_sections(out: &mut Vec<char>, r: &DoctorReport)
    ensures
        final(out)@ == old(out)@ + repo_section(r.repo_workdir) + "\n--- PDK ---\n"@
            + xschemrc_line(r.xschemrc) + pdk_line(r.pdk) + tools_line(r.tools),
{
    let ghost start = out@;
    match &r.repo_workdir {
        Some(p) => push_path_line(out, "  [ok]  ", p),
        None => push_str(out, "  [!]  No detectado — diff/log no funcionarán\n"),
    }
    let ghost s1 = out@;
    push_str(out, "\n--- PDK ---\n");
    let ghost s2 = out@;
    match &r.xschemrc {
        Some(p) => push_path_line(out, "  [ok]  .xschemrc: ", p),
        None => push_str(out, "  [--]  .xschemrc: no encontrado\n"),
    }
    let ghost s3 = out@;
    match &r.pdk {
        PdkStatus::Found(p) => push_path_line(out, "  [ok]  $PDK_ROOT/$PDK → ", p),
        PdkStatus::Misconfigured(p) => push_path_line(out, "  [!]  $PDK_ROOT/$PDK configurado pero ruta no encontrada: ", p),
        PdkStatus::NotConfigured => push_str(out, "  [--]  $PDK_ROOT / $PDK: no configurados\n"),
    }
    let ghost s4 = out@;
    match &r.tools {
        ToolsStatus::Found(p) => push_path_line(out, "  [ok]  $TOOLS → ", p),
        ToolsStatus::Misconfigured(p) => push_path_line(out, "  [!]  $TOOLS configurado pero devices no encontrado: ", p),
        ToolsStatus::NotConfigured => push_str(out, "  [--]  $TOOLS: no configurado\n"),
    }
    assert(s1 == start + repo_section(r.repo_workdir));
    assert(s3 == s2 + xschemrc_line(r.xschemrc));
    assert(s4 == s3 + pdk_line(r.pdk));
    assert(out@ == s4 + tools_line(r.tools));
    assert(out@ =~= start + repo_section(r.repo_workdir) + "\n--- PDK ---\n"@
        + xschemrc_line(r.xschemrc) + pdk_line(r.pdk) + tools_line(r.tools));
}

fn push_driver_lines(out: &mut Vec<char>, ds: &Vec<DriverInfo>)
    ensures
        final(out)@ == old(out)@ + driver_lines(ds@),
{
    let ghost head = out@;
    let n = ds.len();
    let mut i: usize = 0;
    while i < n
        invariant
            n == ds@.len(),
            i <= n,
            out@ == head + driver_lines(ds@.take(i as int)),
        decreases n - i,
    {
        push_driver_line(out, &ds[i]);
        proof {
            let t = ds@.take(i + 1);
            assert(t.drop_last() =~= ds@.take(i as int));
            assert(t.last() == ds@[i as int]);
        }
        i = i + 1;
    }
    assert(ds@.take(n as int) =~= ds@);
}

/// The doctor's PDK line tells the three states apart: a PDK path that
/// exists is reported `[ok]` with its path, one that does not exist is
/// reported `[!]` as configured but not found, with its path, and an unset
/// PDK as not configured.
pub proof fn lemma_pdk_state_reported(r: DoctorReport)
    ensures
        match r.pdk {
            PdkStatus::Found(p) => has_infix(doctor_text_of(r), "  [ok]  $PDK_ROOT/$PDK → "@ + p@ + "\n"@),
            PdkStatus::Misconfigured(p) => has_infix(
                doctor_text_of(r),
                "  [!]  $PDK_ROOT/$PDK configurado pero ruta no encontrada: "@ + p@ + "\n"@,
            ),
            PdkStatus::NotConfigured => has_infix(doctor_text_of(r), "  [--]  $PDK_ROOT / $PDK: no configurados\n"@),
        },
{
    let pre = "\nRiku Doctor — Diagnóstico del Entorno\n\n"@ + "--- Repositorio Git ---\n"@ + repo_section(r.repo_workdir)
        + "\n--- PDK ---\n"@ + xschemrc_line(r.xschemrc);
    let line = pdk_line(r.pdk);
    let rest = tools_line(r.tools) + (if r.has_symbols {
        Seq::empty()
    } else {
        "  [!]  Sin fuente de símbolos — los componentes se renderizarán como cajas vacías\n"@
    }) + "\n--- Drivers ---\n"@ + driver_lines(r.drivers@) + "\nEntorno listo.\n\n"@;
    let t = doctor_text_of(r);
    assert(t =~= pre + line + rest);
    assert(t.subrange(pre.len() as int, (pre.len() + line.len()) as int) =~= line);
    assert(occurs_at(t, line, pre.len() as int));
}

/// The text that `riku doctor` prints.
pub fn doctor_text(r: &DoctorReport) -> (s: String)
    ensures
        s@ == doctor_text_of(*r),
        match r.pdk {
            PdkStatus::Found(p) => has_infix(s@, "  [ok]  $PDK_ROOT/$PDK → "@ + p@ + "\n"@),
            PdkStatus::Misconfigured(p) => has_infix(
                s@,
                "  [!]  $PDK_ROOT/$PDK configurado pero ruta no encontrada: "@ + p@ + "\n"@,
            ),
            PdkStatus::NotConfigured => has_infix(s@, "  [--]  $PDK_ROOT / $PDK: no configurados\n"@),
        },
{
    proof {
        lemma_pdk_state_reported(*r);
    }
    let mut out: Vec<char> = Vec::new();
    push_str(&mut out, "\nRiku Doctor — Diagnóstico del Entorno\n\n");
    push_str(&mut out, "--- Repositorio Git ---\n");
    push_sections(&mut out, r);
    let ghost mid = out@;
    if !r.has_symbols {
        push_str(&mut out, "  [!]  Sin fuente de símbolos — los componentes se renderizarán como cajas vacías\n");
    }
    let ghost sym = out@;
    push_str(&mut out, "\n--- Drivers ---\n");
    push_driver_lines(&mut out, &r.drivers);
    push_str(&mut out, "\nEntorno listo.\n\n");
    assert(sym =~= mid + (if r.has_symbols {
        Seq::empty()
    } else {
        "  [!]  Sin fuente de símbolos — los componentes se renderizarán como cajas vacías\n"@
    }));
    assert(out@ =~= doctor_text_of(*r));
    string_of(&out)
}

} // verus!
