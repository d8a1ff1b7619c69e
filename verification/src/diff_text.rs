//! Text presentation of a schematic diff (`riku diff`), line by line, and
//! the shape of the element names that the layout driver reports.

use vstd::prelude::*;
use crate::drivers::geom_element;
use crate::gds_diff::GdsGeomDiff;
use crate::models::{ChangeKind, ComponentDiff, DiffReport, Params};
use crate::order::{lemma_is_sorted_enumeration, sorted_enumeration, sorted_names, views};
use crate::text::{chars_of, contains, decimal, has_infix, push_all, push_decimal, push_str, same_chars, string_of};

verus! {

// ─── Element names of the layout driver ──────────────────────────────────────

/// Position of the first `c` in `s` at or after `i`, or the length of `s`.
pub open spec fn first_from(s: Seq<char>, c: char, i: int) -> int
    decreases s.len() - i,
{
    if i >= s.len() {
        s.len() as int
    } else if s[i] == c {
        i
    } else {
        first_from(s, c, i + 1)
    }
}

pub open spec fn all_digits(s: Seq<char>) -> bool {
    forall|i: int| 0 <= i < s.len() ==> '0' <= #[trigger] s[i] <= '9'
}

/// A geometry element of the layout driver: `<cell>:L<layer>/<datatype>`,
/// possibly followed by `:<origin>`, with a non-empty decimal layer and
/// datatype.
pub open spec fn gds_geom_name(s: Seq<char>) -> bool {
    let k = first_from(s, ':', 0);
    let tail = s.skip(k + 1);
    let rest = tail.skip(1);
    let ld = rest.take(first_from(rest, ':', 0));
    let k2 = first_from(ld, '/', 0);
    &&& k < s.len()
    &&& tail.len() > 0
    &&& tail[0] == 'L'
    &&& k2 < ld.len()
    &&& k2 > 0
    &&& k2 + 1 < ld.len()
    &&& all_digits(ld.take(k2))
    &&& all_digits(ld.skip(k2 + 1))
}

fn find_from(v: &Vec<char>, c: char, from: usize) -> (r: usize)
    requires
        from <= v@.len(),
    ensures
        r == first_from(v@, c, from as int),
        from <= r <= v@.len(),
{
    let n = v.len();
    let mut i = from;
    while i < n && v[i] != c
        invariant
            n == v@.len(),
            from <= i <= n,
            first_from(v@, c, from as int) == first_from(v@, c, i as int),
        decreases n - i,
    {
        i = i + 1;
    }
    i
}

fn digits_between(v: &Vec<char>, from: usize, to: usize) -> (r: bool)
    requires
        from <= to <= v@.len(),
    ensures
        r == all_digits(v@.subrange(from as int, to as int)),
{
    let mut i = from;
    while i < to
        invariant
            from <= i <= to,
            to <= v@.len(),
            all_digits(v@.subrange(from as int, i as int)),
        decreases to - i,
    {
        if v[i] < '0' || v[i] > '9' {
            assert(v@.subrange(from as int, to as int)[i - from] == v@[i as int]);
            return false;
        }
        i = i + 1;
    }
    true
}

/// Whether `name` names a geometry element of the layout driver.
pub fn is_gds_geom_element(name: &str) -> (r: bool)
    ensures
        r == gds_geom_name(name@),
{
    let v = chars_of(name);
    let n = v.len();
    let k = find_from(&v, ':', 0);
    if k >= n {
        return false;
    }
    if k + 1 >= n || v[k + 1] != 'L' {
        return false;
    }
    let start = k + 2;
    let end = find_from(&v, ':', start);
    let k2 = find_from(&v, '/', start);
    proof {
        let tail = v@.skip(k + 1);
        let rest = tail.skip(1);
        assert(rest =~= v@.skip(start as int));
        assert forall|i: int| start <= i <= n implies first_from(v@.skip(start as int), ':', i - start)
            == first_from(v@, ':', i) - start by {
            lemma_first_from_shift(v@, ':', start as int, i);
        }
        assert forall|i: int| start <= i <= n implies first_from(v@.skip(start as int), '/', i - start)
            == first_from(v@, '/', i) - start by {
            lemma_first_from_shift(v@, '/', start as int, i);
        }
    }
    let ghost ld = v@.subrange(start as int, end as int);
    proof {
        assert(ld =~= v@.skip(k + 1).skip(1).take(first_from(v@.skip(k + 1).skip(1), ':', 0)));
        lemma_first_from_window(v@, '/', start as int, end as int);
    }
    if k2 >= end || k2 == start || k2 + 1 >= end {
        return false;
    }
    proof {
        assert(ld.take(k2 - start) =~= v@.subrange(start as int, k2 as int));
        assert(ld.skip(k2 - start + 1) =~= v@.subrange(k2 + 1, end as int));
    }
    digits_between(&v, start, k2) && digits_between(&v, k2 + 1, end)
}

proof fn lemma_first_from_shift(s: Seq<char>, c: char, start: int, i: int)
    requires
        0 <= start <= i <= s.len(),
    ensures
        first_from(s.skip(start), c, i - start) == first_from(s, c, i) - start,
    decreases s.len() - i,
{
    if i < s.len() {
        lemma_first_from_shift(s, c, start, i + 1);
    }
}

/// Searching a window of `s` for `c` finds the first `c` of `s` inside it,
/// or the window's end.
proof fn lemma_first_from_window(s: Seq<char>, c: char, start: int, end: int)
    requires
        0 <= start <= end <= s.len(),
    ensures
        ({
            let k = first_from(s, c, start);
            first_from(s.subrange(start, end), c, 0) == (if k < end { k - start } else { end - start })
        }),
{
    lemma_window_from(s, c, start, end, start);
}

proof fn lemma_window_from(s: Seq<char>, c: char, start: int, end: int, i: int)
    requires
        0 <= start <= i <= end <= s.len(),
    ensures
        ({
            let k = first_from(s, c, i);
            first_from(s.subrange(start, end), c, i - start) == (if k < end { k - start } else { end - start })
        }),
    decreases end - i,
{
    let sub = s.subrange(start, end);
    if i < end {
        lemma_window_from(s, c, start, end, i + 1);
        assert(sub[i - start] == s[i]);
    } else {
        lemma_first_from_at_least(s, c, i);
    }
}

proof fn lemma_first_from_at_least(s: Seq<char>, c: char, i: int)
    requires
        0 <= i <= s.len(),
    ensures
        i <= first_from(s, c, i) <= s.len(),
    decreases s.len() - i,
{
    if i < s.len() {
        lemma_first_from_at_least(s, c, i + 1);
    }
}

proof fn lemma_decimal_is_digits(n: nat)
    ensures
        decimal(n).len() > 0,
        all_digits(decimal(n)),
    decreases n,
{
    if n >= 10 {
        lemma_decimal_is_digits(n / 10);
        let d = decimal(n / 10);
        assert(decimal(n) == d.push(crate::text::digit(n % 10)));
        assert forall|i: int| 0 <= i < decimal(n).len() implies '0' <= #[trigger] decimal(n)[i] <= '9' by {
            if i < d.len() {
                assert(decimal(n)[i] == d[i]);
            }
        }
    }
}

proof fn lemma_first_from_concat(p: Seq<char>, q: Seq<char>, c: char, i: int)
    requires
        0 <= i <= p.len(),
        forall|j: int| 0 <= j < p.len() ==> p[j] != c,
    ensures
        first_from(p + q, c, i) == p.len() + first_from(q, c, 0),
    decreases p.len() - i,
{
    if i < p.len() {
        lemma_first_from_concat(p, q, c, i + 1);
        assert((p + q)[i] == p[i]);
    } else {
        lemma_first_from_shift(p + q, c, p.len() as int, p.len() as int);
        assert((p + q).skip(p.len() as int) =~= q);
    }
}

proof fn lemma_first_from_absent(s: Seq<char>, c: char, i: int)
    requires
        0 <= i <= s.len(),
        forall|j: int| 0 <= j < s.len() ==> s[j] != c,
    ensures
        first_from(s, c, i) == s.len(),
    decreases s.len() - i,
{
    if i < s.len() {
        lemma_first_from_absent(s, c, i + 1);
    }
}

/// Every geometry element that the layout driver reports is recognised as
/// one by the text printer, when its cell name holds no `:`.
pub proof fn lemma_driver_geometry_names_recognised(g: GdsGeomDiff)
    requires
        forall|j: int| 0 <= j < g.cell@.len() ==> g.cell@[j] != ':',
    ensures
        gds_geom_name(geom_element(g)),
{
    reveal_strlit(":L");
    reveal_strlit("/");
    let cell = g.cell@;
    let d1 = decimal(g.layer.layer as nat);
    let d2 = decimal(g.layer.datatype as nat);
    lemma_decimal_is_digits(g.layer.layer as nat);
    lemma_decimal_is_digits(g.layer.datatype as nat);
    let s = geom_element(g);
    let rest = d1 + "/"@ + d2;
    assert(s =~= cell + (seq![':', 'L'] + rest));
    lemma_first_from_concat(cell, seq![':', 'L'] + rest, ':', 0);
    assert(first_from(seq![':', 'L'] + rest, ':', 0) == 0);
    let k = first_from(s, ':', 0);
    assert(k == cell.len());
    let tail = s.skip(k + 1);
    assert(tail =~= seq!['L'] + rest);
    assert(tail.skip(1) =~= rest);
    assert forall|j: int| 0 <= j < rest.len() implies rest[j] != ':' by {
        if j < d1.len() {
            assert(rest[j] == d1[j]);
            assert('0' <= d1[j] <= '9');
        } else if j > d1.len() {
            assert(rest[j] == d2[j - d1.len() - 1]);
            assert('0' <= d2[j - d1.len() - 1] <= '9');
        }
    }
    lemma_first_from_absent(rest, ':', 0);
    assert(rest.take(rest.len() as int) =~= rest);
    assert forall|j: int| 0 <= j < d1.len() implies d1[j] != '/' by {
        assert('0' <= d1[j] <= '9');
    }
    lemma_first_from_concat(d1, seq!['/'] + d2, '/', 0);
    assert(rest =~= d1 + (seq!['/'] + d2));
    assert(rest.take(d1.len() as int) =~= d1);
    assert(rest.skip(d1.len() as int + 1) =~= d2);
}

// ─── The lines of `riku diff` ────────────────────────────────────────────────

/// Value of the first parameter named `k`.
pub open spec fn lookup(p: Seq<(String, String)>, k: Seq<char>) -> Option<Seq<char>>
    decreases p.len(),
{
    if p.len() == 0 {
        None
    } else if p[0].0@ == k {
        Some(p[0].1@)
    } else {
        lookup(p.skip(1), k)
    }
}

pub open spec fn param_names(p: Seq<(String, String)>) -> Seq<Seq<char>> {
    p.map_values(|e: (String, String)| e.0@)
}

/// The parameter names of both sides, sorted, each once.
pub open spec fn param_keys(before: Seq<(String, String)>, after: Seq<(String, String)>) -> Seq<Seq<char>> {
    sorted_enumeration((param_names(before) + param_names(after)).to_set())
}

/// Placement parameters, which the parameter table leaves out.
pub open spec fn is_placement(k: Seq<char>) -> bool {
    k == "x"@ || k == "y"@ || k == "rotation"@ || k == "mirror"@
}

/// The table line of parameter `k`: changed, new or removed; none when it
/// is a placement or did not change.
pub open spec fn param_line(k: Seq<char>, before: Seq<(String, String)>, after: Seq<(String, String)>) -> Seq<Seq<char>> {
    if is_placement(k) {
        Seq::empty()
    } else {
        match (lookup(before, k), lookup(after, k)) {
            (Some(a), Some(b)) => if a != b {
                seq!["      "@ + k + ": "@ + a + " → "@ + b]
            } else {
                Seq::empty()
            },
            (None, Some(b)) => seq!["      "@ + k + ": (nuevo) → "@ + b],
            (Some(a), None) => seq!["      "@ + k + ": "@ + a + " → (eliminado)"@],
            (None, None) => Seq::empty(),
        }
    }
}

pub open spec fn param_lines(keys: Seq<Seq<char>>, before: Seq<(String, String)>, after: Seq<(String, String)>) -> Seq<Seq<char>>
    decreases keys.len(),
{
    if keys.len() == 0 {
        Seq::empty()
    } else {
        param_lines(keys.drop_last(), before, after) + param_line(keys.last(), before, after)
    }
}

/// Marker of a change: `r` for a rename (a modification whose name holds
/// ` → `), else `+`, `-` or `~`.
pub open spec fn change_marker(c: ComponentDiff) -> Seq<char> {
    if c.kind == ChangeKind::Modified && has_infix(c.name@, " → "@) {
        "r"@
    } else {
        match c.kind {
            ChangeKind::Added => "+"@,
            ChangeKind::Removed => "-"@,
            ChangeKind::Modified => "~"@,
        }
    }
}

/// The lines of one changed component: its marker and name, then the
/// parameter table when both sides are known, or the symbol of an added one.
pub open spec fn component_lines(c: ComponentDiff) -> Seq<Seq<char>> {
    let head = "  "@ + change_marker(c) + " "@ + c.name@;
    match (c.before, c.after) {
        (Some(b), Some(a)) => seq![head] + param_lines(param_keys(b@, a@), b@, a@),
        _ => match c.after {
            Some(a) => if c.kind == ChangeKind::Added && lookup(a@, "symbol"@) is Some {
                seq![head, "      symbol: "@ + lookup(a@, "symbol"@)->0]
            } else {
                seq![head]
            },
            None => seq![head],
        },
    }
}

/// Lines of the components whose change is not cosmetic, in order.
pub open spec fn component_blocks(cs: Seq<ComponentDiff>) -> Seq<Seq<char>>
    decreases cs.len(),
{
    if cs.len() == 0 {
        Seq::empty()
    } else {
        component_blocks(cs.drop_last()) + (if cs.last().cosmetic { Seq::empty() } else { component_lines(cs.last()) })
    }
}

/// Components whose change is (`cosmetic == true`) or is not cosmetic.
pub open spec fn count_cosmetic(cs: Seq<ComponentDiff>, cosmetic: bool) -> nat
    decreases cs.len(),
{
    if cs.len() == 0 {
        0
    } else {
        count_cosmetic(cs.drop_last(), cosmetic) + (if cs.last().cosmetic == cosmetic { 1nat } else { 0 })
    }
}

pub open spec fn prefixed(prefix: Seq<char>, names: Seq<String>) -> Seq<Seq<char>> {
    names.map_values(|n: String| prefix + n@)
}

/// The lines that `riku diff` prints for a report: a note when nothing
/// changed; else the file, the count of real changes (and of cosmetic ones),
/// the real changes, and the nets added and removed.
pub open spec fn diff_lines(report: DiffReport, file_path: Seq<char>) -> Seq<Seq<char>> {
    let cs = report.components@;
    let added = report.nets_added@;
    let removed = report.nets_removed@;
    let cosmetic = count_cosmetic(cs, true);
    if cs.len() == 0 && added.len() == 0 && removed.len() == 0 {
        seq!["Sin cambios semanticos."@]
    } else {
        seq!["Archivo : "@ + file_path, "Cambios : "@ + decimal(count_cosmetic(cs, false))]
            + (if cosmetic > 0 {
                seq!["Cosméticos: "@ + decimal(cosmetic) + " (solo posición)"@]
            } else {
                Seq::empty()
            })
            + seq![Seq::<char>::empty()]
            + component_blocks(cs)
            + (if added.len() > 0 { seq![Seq::<char>::empty()] + prefixed("  + net:"@, added) } else { Seq::empty() })
            + (if removed.len() > 0 {
                (if added.len() == 0 { seq![Seq::<char>::empty()] } else { Seq::empty() })
                    + prefixed("  - net:"@, removed)
            } else {
                Seq::empty()
            })
    }
}

fn lookup_param(p: &Params, k: &Vec<char>) -> (r: Option<String>)
    ensures
        match r {
            Some(v) => lookup(p@, k@) == Some(v@),
            None => lookup(p@, k@) is None,
        },
{
    let n = p.len();
    let mut i: usize = 0;
    assert(p@.skip(0) =~= p@);
    while i < n
        invariant
            n == p@.len(),
            i <= n,
            lookup(p@, k@) == lookup(p@.skip(i as int), k@),
        decreases n - i,
    {
        assert(p@.skip(i as int)[0] == p@[i as int]);
        let name = chars_of(p[i].0.as_str());
        if same_chars(&name, k) {
            return Some(p[i].1.clone());
        }
        assert(p@.skip(i as int).skip(1) =~= p@.skip(i + 1));
        i = i + 1;
    }
    None
}

fn param_key_list(before: &Params, after: &Params) -> (r: Vec<String>)
    ensures
        views(r@) == param_keys(before@, after@),
{
    let mut all: Vec<String> = Vec::new();
    let nb = before.len();
    let mut i: usize = 0;
    while i < nb
        invariant
            nb == before@.len(),
            i <= nb,
            views(all@) == param_names(before@.take(i as int)),
        decreases nb - i,
    {
        all.push(before[i].0.clone());
        assert(param_names(before@.take(i + 1)) =~= param_names(before@.take(i as int)).push(before@[i as int].0@));
        assert(views(all@) =~= param_names(before@.take(i as int)).push(before@[i as int].0@));
        i = i + 1;
    }
    assert(before@.take(nb as int) =~= before@);
    let na = after.len();
    let mut j: usize = 0;
    while j < na
        invariant
            na == after@.len(),
            j <= na,
            views(all@) == param_names(before@) + param_names(after@.take(j as int)),
        decreases na - j,
    {
        let ghost prev = views(all@);
        all.push(after[j].0.clone());
        assert(views(all@) =~= prev.push(after@[j as int].0@));
        assert(param_names(after@.take(j + 1)) =~= param_names(after@.take(j as int)).push(after@[j as int].0@));
        assert(views(all@) =~= param_names(before@) + param_names(after@.take(j + 1)));
        j = j + 1;
    }
    assert(after@.take(na as int) =~= after@);
    let r = sorted_names(&all);
    proof {
        lemma_is_sorted_enumeration(views(r@), (param_names(before@) + param_names(after@)).to_set());
    }
    r
}

fn param_table(before: &Params, after: &Params) -> (r: Vec<String>)
    ensures
        views(r@) == param_lines(param_keys(before@, after@), before@, after@),
{
    let keys = param_key_list(before, after);
    let ghost kv = views(keys@);
    let mut out: Vec<String> = Vec::new();
    let n = keys.len();
    let mut i: usize = 0;
    while i < n
        invariant
            n == keys@.len(),
            i <= n,
            kv == views(keys@),
            views(out@) == param_lines(kv.take(i as int), before@, after@),
        decreases n - i,
    {
        let k = chars_of(keys[i].as_str());
        let ghost before_lines = views(out@);
        let placement = same_chars(&k, &chars_of("x")) || same_chars(&k, &chars_of("y"))
            || same_chars(&k, &chars_of("rotation")) || same_chars(&k, &chars_of("mirror"));
        if !placement {
            let a = lookup_param(before, &k);
            let b = lookup_param(after, &k);
            let mut line: Vec<char> = Vec::new();
            push_str(&mut line, "      ");
            push_all(&mut line, &k);
            match (a, b) {
                (Some(x), Some(y)) => {
                    if !same_chars(&chars_of(x.as_str()), &chars_of(y.as_str())) {
                        push_str(&mut line, ": ");
                        push_str(&mut line, x.as_str());
                        push_str(&mut line, " → ");
                        push_str(&mut line, y.as_str());
                        out.push(string_of(&line));
                    }
                },
                (None, Some(y)) => {
                    push_str(&mut line, ": (nuevo) → ");
                    push_str(&mut line, y.as_str());
                    out.push(string_of(&line));
                },
                (Some(x), None) => {
                    push_str(&mut line, ": ");
                    push_str(&mut line, x.as_str());
                    push_str(&mut line, " → (eliminado)");
                    out.push(string_of(&line));
                },
                (None, None) => {},
            }
        }
        proof {
            let t = kv.take(i + 1);
            assert(t.drop_last() =~= kv.take(i as int));
            assert(t.last() == k@);
            assert(views(out@) =~= before_lines + param_line(k@, before@, after@));
        }
        i = i + 1;
    }
    assert(kv.take(n as int) =~= kv);
    out
}

fn component_text(c: &ComponentDiff) -> (r: Vec<String>)
    ensures
        views(r@) == component_lines(*c),
{
    let name = chars_of(c.name.as_str());
    let rename = c.kind == ChangeKind::Modified && contains(&name, &chars_of(" → "));
    let mut head: Vec<char> = Vec::new();
    push_str(&mut head, "  ");
    if rename {
        push_str(&mut head, "r");
    } else {
        match c.kind {
            ChangeKind::Added => push_str(&mut head, "+"),
            ChangeKind::Removed => push_str(&mut head, "-"),
            ChangeKind::Modified => push_str(&mut head, "~"),
        }
    }
    push_str(&mut head, " ");
    push_all(&mut head, &name);
    let mut out: Vec<String> = Vec::new();
    out.push(string_of(&head));
    assert(views(out@) =~= seq![head@]);
    match (&c.before, &c.after) {
        (Some(b), Some(a)) => {
            let table = param_table(b, a);
            let ghost first = views(out@);
            let n = table.len();
            let mut i: usize = 0;
            while i < n
                invariant
                    n == table@.len(),
                    i <= n,
                    views(out@) == first + views(table@).take(i as int),
                decreases n - i,
            {
                let ghost prev = views(out@);
                out.push(table[i].clone());
                assert(views(out@) =~= prev.push(table@[i as int]@));
                assert(views(table@).take(i + 1) =~= views(table@).take(i as int).push(table@[i as int]@));
                i = i + 1;
            }
            assert(views(table@).take(n as int) =~= views(table@));
        },
        _ => {
            if let Some(a) = &c.after {
                if c.kind == ChangeKind::Added {
                    if let Some(sym) = lookup_param(a, &chars_of("symbol")) {
                        let mut line: Vec<char> = Vec::new();
                        push_str(&mut line, "      symbol: ");
                        push_str(&mut line, sym.as_str());
                        out.push(string_of(&line));
                        assert(views(out@) =~= seq![head@, line@]);
                    }
                }
            }
        },
    }
    out
}

fn push_lines(out: &mut Vec<String>, lines: Vec<String>)
    ensures
        views(final(out)@) == views(old(out)@) + views(lines@),
{
    let ghost start = views(out@);
    let n = lines.len();
    let mut i: usize = 0;
    while i < n
        invariant
            n == lines@.len(),
            i <= n,
            views(out@) == start + views(lines@).take(i as int),
        decreases n - i,
    {
        let ghost prev = views(out@);
        out.push(lines[i].clone());
        assert(views(out@) =~= prev.push(lines@[i as int]@));
        assert(views(lines@).take(i + 1) =~= views(lines@).take(i as int).push(lines@[i as int]@));
        i = i + 1;
    }
    assert(views(lines@).take(n as int) =~= views(lines@));
}

fn push_prefixed(out: &mut Vec<String>, prefix: &str, names: &Vec<String>)
    ensures
        views(final(out)@) == views(old(out)@) + prefixed(prefix@, names@),
{
    let ghost start = views(out@);
    let n = names.len();
    let mut i: usize = 0;
    while i < n
        invariant
            n == names@.len(),
            i <= n,
            views(out@) == start + prefixed(prefix@, names@.take(i as int)),
        decreases n - i,
    {
        let mut line: Vec<char> = Vec::new();
        push_str(&mut line, prefix);
        push_str(&mut line, names[i].as_str());
        let ghost prev = views(out@);
        out.push(string_of(&line));
        assert(views(out@) =~= prev.push(line@));
        assert(prefixed(prefix@, names@.take(i + 1)) =~= prefixed(prefix@, names@.take(i as int)).push(line@));
        i = i + 1;
    }
    assert(names@.take(n as int) =~= names@);
}

fn push_text(out: &mut Vec<String>, v: &Vec<char>)
    ensures
        views(final(out)@) == views(old(out)@).push(v@),
{
    let ghost prev = views(out@);
    out.push(string_of(v));
    assert(views(out@) =~= prev.push(v@));
}

/// Every net added is printed as `  + net:<name>`, and every net removed as
/// `  - net:<name>`.
pub proof fn lemma_net_lines(report: DiffReport, file_path: Seq<char>)
    ensures
        forall|i: int| 0 <= i < report.nets_added@.len()
            ==> diff_lines(report, file_path).contains("  + net:"@ + (#[trigger] report.nets_added@[i])@),
        forall|i: int| 0 <= i < report.nets_removed@.len()
            ==> diff_lines(report, file_path).contains("  - net:"@ + (#[trigger] report.nets_removed@[i])@),
{
    let cs = report.components@;
    let added = report.nets_added@;
    let removed = report.nets_removed@;
    if !(cs.len() == 0 && added.len() == 0 && removed.len() == 0) {
        let l = diff_lines(report, file_path);
        let cosmetic = count_cosmetic(cs, true);
        let head = seq!["Archivo : "@ + file_path, "Cambios : "@ + decimal(count_cosmetic(cs, false))]
            + (if cosmetic > 0 {
                seq!["Cosméticos: "@ + decimal(cosmetic) + " (solo posición)"@]
            } else {
                Seq::empty()
            })
            + seq![Seq::<char>::empty()]
            + component_blocks(cs);
        let a = if added.len() > 0 { seq![Seq::<char>::empty()] + prefixed("  + net:"@, added) } else { Seq::empty() };
        let b = if removed.len() > 0 {
            (if added.len() == 0 { seq![Seq::<char>::empty()] } else { Seq::empty() }) + prefixed("  - net:"@, removed)
        } else {
            Seq::empty()
        };
        assert(l == head + a + b);
        assert forall|i: int| 0 <= i < added.len() implies l.contains("  + net:"@ + (#[trigger] added[i])@) by {
            let k = head.len() + 1 + i;
            assert(a[1 + i] == "  + net:"@ + added[i]@);
            assert(l[k] == a[1 + i]);
        }
        assert forall|i: int| 0 <= i < removed.len() implies l.contains("  - net:"@ + (#[trigger] removed[i])@) by {
            let gap: int = if added.len() == 0 { 1 } else { 0 };
            let k = head.len() + a.len() + gap + i;
            assert(b[gap + i] == "  - net:"@ + removed[i]@);
            assert(l[k] == b[gap + i]);
        }
    }
}

/// The lines that `riku diff` prints for `report` on `file_path`; among them
/// `  + net:<name>` for each net added and `  - net:<name>` for each removed.
pub fn present_text(report: &DiffReport, file_path: &str) -> (r: Vec<String>)
    ensures
        views(r@) == diff_lines(*report, file_path@),
        forall|i: int| 0 <= i < report.nets_added@.len()
            ==> views(r@).contains("  + net:"@ + (#[trigger] report.nets_added@[i])@),
        forall|i: int| 0 <= i < report.nets_removed@.len()
            ==> views(r@).contains("  - net:"@ + (#[trigger] report.nets_removed@[i])@),
{
    proof {
        lemma_net_lines(*report, file_path@);
    }
    let mut out: Vec<String> = Vec::new();
    if report.is_empty() {
        push_text(&mut out, &chars_of("Sin cambios semanticos."));
        assert(views(out@) =~= seq!["Sin cambios semanticos."@]);
        return out;
    }
    let cs = &report.components;
    let n = cs.len();
    let mut semantic: usize = 0;
    let mut cosmetic: usize = 0;
    let mut i: usize = 0;
    while i < n
        invariant
            n == cs@.len(),
            i <= n,
            semantic == count_cosmetic(cs@.take(i as int), false),
            cosmetic == count_cosmetic(cs@.take(i as int), true),
            semantic + cosmetic == i,
        decreases n - i,
    {
        assert(cs@.take(i + 1).drop_last() =~= cs@.take(i as int));
        if cs[i].cosmetic {
            cosmetic = cosmetic + 1;
        } else {
            semantic = semantic + 1;
        }
        i = i + 1;
    }
    assert(cs@.take(n as int) =~= cs@);
    let mut line: Vec<char> = Vec::new();
    push_str(&mut line, "Archivo : ");
    push_str(&mut line, file_path);
    push_text(&mut out, &line);
    let mut line2: Vec<char> = Vec::new();
    push_str(&mut line2, "Cambios : ");
    push_decimal(&mut line2, semantic as u64);
    push_text(&mut out, &line2);
    if cosmetic > 0 {
        let mut line3: Vec<char> = Vec::new();
        push_str(&mut line3, "Cosméticos: ");
        push_decimal(&mut line3, cosmetic as u64);
        push_str(&mut line3, " (solo posición)");
        push_text(&mut out, &line3);
    }
    push_text(&mut out, &Vec::new());
    let ghost header = views(out@);
    let mut j: usize = 0;
    while j < n
        invariant
            n == cs@.len(),
            j <= n,
            views(out@) == header + component_blocks(cs@.take(j as int)),
        decreases n - j,
    {
        assert(cs@.take(j + 1).drop_last() =~= cs@.take(j as int));
        if !cs[j].cosmetic {
            let lines = component_text(&cs[j]);
            push_lines(&mut out, lines);
        }
        proof {
            let t = cs@.take(j + 1);
            assert(t.last() == cs@[j as int]);
        }
        j = j + 1;
    }
    let ghost body = views(out@);
    let added = &report.nets_added;
    let removed = &report.nets_removed;
    if added.len() > 0 {
        push_text(&mut out, &Vec::new());
        push_prefixed(&mut out, "  + net:", added);
    }
    let ghost with_added = views(out@);
    if removed.len() > 0 {
        if added.len() == 0 {
            push_text(&mut out, &Vec::new());
        }
        push_prefixed(&mut out, "  - net:", removed);
    }
    proof {
        assert(with_added =~= body + (if added@.len() > 0 {
            seq![Seq::<char>::empty()] + prefixed("  + net:"@, added@)
        } else {
            Seq::empty()
        }));
    }
    out
}

// ─── Details of a layout change ──────────────────────────────────────────────

/// `s` with each `/` written as ` → `.
pub open spec fn arrowed(s: Seq<char>) -> Seq<char>
    decreases s.len(),
{
    if s.len() == 0 {
        Seq::empty()
    } else {
        arrowed(s.drop_last()) + (if s.last() == '/' { " → "@ } else { seq![s.last()] })
    }
}

/// A parameter's value, or `default` when it is missing.
pub open spec fn value_or(p: Seq<(String, String)>, k: Seq<char>, default: Seq<char>) -> Seq<char> {
    match lookup(p, k) {
        Some(v) => v,
        None => default,
    }
}

/// The four fields of a `min_x,min_y,max_x,max_y` box, when it has exactly
/// four.
pub open spec fn box_fields(b: Seq<char>) -> Option<(Seq<char>, Seq<char>, Seq<char>, Seq<char>)> {
    let c1 = first_from(b, ',', 0);
    let c2 = first_from(b, ',', c1 + 1);
    let c3 = first_from(b, ',', c2 + 1);
    if c1 < b.len() && c2 < b.len() && c3 < b.len() && first_from(b, ',', c3 + 1) == b.len() {
        Some((b.take(c1), b.subrange(c1 + 1, c2), b.subrange(c2 + 1, c3), b.skip(c3 + 1)))
    } else {
        None
    }
}

/// The detail lines of a layout change, from its parameters: the path of
/// cells it lies in (when deeper than one cell), polygons and areas added
/// and removed, and its bounding box.
pub open spec fn geometry_detail(after: Seq<(String, String)>) -> Seq<Seq<char>> {
    let origin = match lookup(after, "origin_path"@) {
        Some(o) => if has_infix(o, "/"@) { seq!["      origen: "@ + arrowed(o)] } else { Seq::empty() },
        None => Seq::empty(),
    };
    let counts = seq![
        "      +"@ + value_or(after, "added_polygons"@, "0"@) + " polys / +"@
            + value_or(after, "added_area_um2"@, "0.000"@) + " µm²"@,
        "      -"@ + value_or(after, "removed_polygons"@, "0"@) + " polys / -"@
            + value_or(after, "removed_area_um2"@, "0.000"@) + " µm²"@
    ];
    let bbox = match lookup(after, "bbox_um"@) {
        Some(b) => match box_fields(b) {
            Some((x0, y0, x1, y1)) => seq!["      bbox: ("@ + x0 + ", "@ + y0 + ") → ("@ + x1 + ", "@ + y1 + ") µm"@],
            None => Seq::empty(),
        },
        None => Seq::empty(),
    };
    origin + counts + bbox
}

fn value_or_default(p: &Params, k: &str, default: &str) -> (r: String)
    ensures
        r@ == value_or(p@, k@, default@),
{
    match lookup_param(p, &chars_of(k)) {
        Some(v) => v,
        None => string_of(&chars_of(default)),
    }
}

fn arrowed_text(v: &Vec<char>) -> (r: Vec<char>)
    ensures
        r@ == arrowed(v@),
{
    let mut out: Vec<char> = Vec::new();
    let n = v.len();
    let mut i: usize = 0;
    while i < n
        invariant
            n == v@.len(),
            i <= n,
            out@ == arrowed(v@.take(i as int)),
        decreases n - i,
    {
        if v[i] == '/' {
            push_str(&mut out, " → ");
        } else {
            out.push(v[i]);
        }
        proof {
            let t = v@.take(i + 1);
            assert(t.drop_last() =~= v@.take(i as int));
            assert(t.last() == v@[i as int]);
        }
        i = i + 1;
    }
    assert(v@.take(n as int) =~= v@);
    out
}

/// The detail lines of a layout change, from its parameters.
pub fn geometry_lines(after: &Params) -> (r: Vec<String>)
    ensures
        views(r@) == geometry_detail(after@),
{
    let mut out: Vec<String> = Vec::new();
    if let Some(o) = lookup_param(after, &chars_of("origin_path")) {
        let ov = chars_of(o.as_str());
        if contains(&ov, &chars_of("/")) {
            let mut line: Vec<char> = Vec::new();
            push_str(&mut line, "      origen: ");
            push_all(&mut line, &arrowed_text(&ov));
            push_text(&mut out, &line);
        }
    }
    let ghost head = views(out@);
    let mut l1: Vec<char> = Vec::new();
    push_str(&mut l1, "      +");
    push_str(&mut l1, value_or_default(after, "added_polygons", "0").as_str());
    push_str(&mut l1, " polys / +");
    push_str(&mut l1, value_or_default(after, "added_area_um2", "0.000").as_str());
    push_str(&mut l1, " µm²");
    push_text(&mut out, &l1);
    let mut l2: Vec<char> = Vec::new();
    push_str(&mut l2, "      -");
    push_str(&mut l2, value_or_default(after, "removed_polygons", "0").as_str());
    push_str(&mut l2, " polys / -");
    push_str(&mut l2, value_or_default(after, "removed_area_um2", "0.000").as_str());
    push_str(&mut l2, " µm²");
    push_text(&mut out, &l2);
    let ghost mid = views(out@);
    if let Some(b) = lookup_param(after, &chars_of("bbox_um")) {
        let bv = chars_of(b.as_str());
        let n = bv.len();
        let c1 = find_from(&bv, ',', 0);
        if c1 < n {
            let c2 = find_from(&bv, ',', c1 + 1);
            if c2 < n {
                let c3 = find_from(&bv, ',', c2 + 1);
                if c3 < n && find_from(&bv, ',', c3 + 1) == n {
                    let mut line: Vec<char> = Vec::new();
                    push_str(&mut line, "      bbox: (");
                    push_str(&mut line, crate::names::sub_string(&bv, 0, c1).as_str());
                    push_str(&mut line, ", ");
                    push_str(&mut line, crate::names::sub_string(&bv, c1 + 1, c2).as_str());
                    push_str(&mut line, ") → (");
                    push_str(&mut line, crate::names::sub_string(&bv, c2 + 1, c3).as_str());
                    push_str(&mut line, ", ");
                    push_str(&mut line, crate::names::sub_string(&bv, c3 + 1, n).as_str());
                    push_str(&mut line, ") µm");
                    proof {
                        assert(bv@.take(c1 as int) =~= bv@.subrange(0, c1 as int));
                        assert(bv@.skip(c3 + 1) =~= bv@.subrange(c3 + 1, n as int));
                    }
                    push_text(&mut out, &line);
                }
            }
        }
    }
    out
}

} // verus!
