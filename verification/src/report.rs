//! The component-level view of a driver report, and change counts.

use vstd::prelude::*;
use crate::models::{ChangeKind, ComponentDiff, DiffEntry, DiffReport, DriverDiffReport, Params};
use crate::order::views;
use crate::drivers::{is_xschem_report, reports_component, reports_move_all, reports_net};
use crate::text::{chars_of, has_prefix, same_chars, starts_with, string_of};

verus! {

/// A copy of parameters, entry by entry.
pub fn clone_params(p: &Params) -> (r: Params)
    ensures
        r@ == p@,
{
    let mut r: Params = Vec::new();
    let n = p.len();
    let mut i: usize = 0;
    while i < n
        invariant
            n == p@.len(),
            i <= n,
            r@ == p@.take(i as int),
        decreases n - i,
    {
        let (k, v) = &p[i];
        r.push((k.clone(), v.clone()));
        assert(p@.take(i + 1) =~= p@.take(i as int).push(p@[i as int]));
        i = i + 1;
    }
    assert(p@.take(n as int) =~= p@);
    r
}

pub fn clone_opt_params(p: &Option<Params>) -> (r: Option<Params>)
    ensures
        r == *p || (r is Some && p is Some && r->0@ == p->0@),
        r is Some <==> p is Some,
        r matches Some(x) ==> x@ == p->0@,
{
    match p {
        Some(x) => Some(clone_params(x)),
        None => None,
    }
}

/// `s` without every leading repetition of the non-empty `p`.
pub open spec fn strip_prefix_all(s: Seq<char>, p: Seq<char>) -> Seq<char>
    decreases s.len(),
{
    if p.len() > 0 && has_prefix(s, p) {
        strip_prefix_all(s.skip(p.len() as int), p)
    } else {
        s
    }
}

/// Removes every leading repetition of the non-empty `p` from `s`
/// (`str::trim_start_matches`).
pub fn trim_start_matches(s: &Vec<char>, p: &Vec<char>) -> (r: Vec<char>)
    requires
        p@.len() > 0,
    ensures
        r@ == strip_prefix_all(s@, p@),
{
    let n = s.len();
    let m = p.len();
    let mut start: usize = 0;
    assert(s@.skip(0) =~= s@);
    while m <= n - start && crate::text::matches_at(s, p, start)
        invariant
            n == s@.len(),
            m == p@.len(),
            m > 0,
            start <= n,
            strip_prefix_all(s@, p@) == strip_prefix_all(s@.skip(start as int), p@),
        decreases n - start,
    {
        proof {
            let t = s@.skip(start as int);
            assert(t.subrange(0, m as int) =~= s@.subrange(start as int, start + m));
            assert(t.skip(m as int) =~= s@.skip(start + m));
        }
        start = start + m;
    }
    let mut r: Vec<char> = Vec::new();
    let mut i: usize = start;
    while i < n
        invariant
            n == s@.len(),
            start <= i <= n,
            r@ =~= s@.subrange(start as int, i as int),
        decreases n - i,
    {
        r.push(s[i]);
        i = i + 1;
    }
    proof {
        let t = s@.skip(start as int);
        assert(r@ =~= t);
        if m <= t.len() && has_prefix(t, p@) {
            assert(t.subrange(0, m as int) =~= s@.subrange(start as int, start + m));
            assert(crate::text::occurs_at(s@, p@, start as int));
        }
    }
    r
}

/// The element names a change to a net.
pub open spec fn is_net_entry(e: DiffEntry) -> bool {
    has_prefix(e.element@, "net:"@)
}

/// The element names the whole drawing.
pub open spec fn is_layout_entry(e: DiffEntry) -> bool {
    e.element@ == "layout"@
}

pub open spec fn component_of(e: DiffEntry) -> ComponentDiff {
    ComponentDiff {
        name: e.element,
        kind: e.kind,
        cosmetic: e.cosmetic,
        position_changed: e.position_changed,
        before: e.before,
        after: e.after,
    }
}

/// `c` is `component_of(e)` up to the identity of the parameter vectors.
pub open spec fn same_component(c: ComponentDiff, e: DiffEntry) -> bool {
    &&& c.name == e.element
    &&& c.kind == e.kind
    &&& c.cosmetic == e.cosmetic
    &&& c.position_changed == e.position_changed
    &&& (c.before is Some <==> e.before is Some)
    &&& (c.before matches Some(b) ==> b@ == e.before->0@)
    &&& (c.after is Some <==> e.after is Some)
    &&& (c.after matches Some(a) ==> a@ == e.after->0@)
}

/// Changes to components: neither nets nor the whole drawing.
pub open spec fn component_changes(changes: Seq<DiffEntry>) -> Seq<DiffEntry> {
    changes.filter(|e: DiffEntry| !is_net_entry(e) && !is_layout_entry(e))
}

/// Names of the nets that changes of kind `kind` touch, without `net:`.
pub open spec fn net_names(changes: Seq<DiffEntry>, kind: ChangeKind) -> Seq<Seq<char>> {
    changes.filter_map(|e: DiffEntry| if e.kind == kind && is_net_entry(e) {
        Some(strip_prefix_all(e.element@, "net:"@))
    } else {
        None
    })
}

/// The drawing as a whole was only rearranged.
pub open spec fn has_move_all(changes: Seq<DiffEntry>) -> bool {
    exists|i: int| 0 <= i < changes.len() && is_layout_entry(changes[i]) && changes[i].cosmetic
}

fn net_names_of(changes: &Vec<DiffEntry>, kind: ChangeKind) -> (r: Vec<String>)
    ensures
        views(r@) == net_names(changes@, kind),
{
    proof {
        reveal_strlit("net:");
    }
    let prefix = chars_of("net:");
    let mut r: Vec<String> = Vec::new();
    let n = changes.len();
    let mut i: usize = 0;
    while i < n
        invariant
            n == changes@.len(),
            i <= n,
            prefix@ == "net:"@,
            prefix@.len() > 0,
            views(r@) == net_names(changes@.take(i as int), kind),
        decreases n - i,
    {
        let e = &changes[i];
        let el = chars_of(e.element.as_str());
        let ghost before = views(r@);
        if e.kind == kind && starts_with(&el, &prefix) {
            let name = trim_start_matches(&el, &prefix);
            r.push(string_of(&name));
            assert(views(r@) =~= before + seq![name@]);
        }
        assert(changes@.take(i + 1).drop_last() =~= changes@.take(i as int));
        i = i + 1;
    }
    assert(changes@.take(n as int) =~= changes@);
    r
}

/// `d` is the component-level view of the driver report `report`.
pub open spec fn is_component_view(d: DiffReport, report: DriverDiffReport) -> bool {
    &&& d.components@.len() == component_changes(report.changes@).len()
    &&& forall|k: int| 0 <= k < d.components@.len() ==>
        same_component(#[trigger] d.components@[k], component_changes(report.changes@)[k])
    &&& views(d.nets_added@) == net_names(report.changes@, ChangeKind::Added)
    &&& views(d.nets_removed@) == net_names(report.changes@, ChangeKind::Removed)
    &&& d.is_move_all == has_move_all(report.changes@)
}

/// The component-level view of a driver report: component changes keep their
/// data; `net:` entries become added and removed nets; a cosmetic `layout`
/// entry marks a whole-drawing rearrangement.
pub fn driver_report_to_diff_report(report: &DriverDiffReport) -> (d: DiffReport)
    ensures
        is_component_view(d, *report),
{
    proof {
        reveal_strlit("net:");
        reveal_strlit("layout");
    }
    let prefix = chars_of("net:");
    let layout = chars_of("layout");
    let changes = &report.changes;
    let mut components: Vec<ComponentDiff> = Vec::new();
    let mut is_move_all = false;
    let n = changes.len();
    let mut i: usize = 0;
    while i < n
        invariant
            n == changes@.len(),
            i <= n,
            prefix@ == "net:"@,
            layout@ == "layout"@,
            components@.len() == component_changes(changes@.take(i as int)).len(),
            forall|k: int| 0 <= k < components@.len() ==>
                same_component(#[trigger] components@[k], component_changes(changes@.take(i as int))[k]),
            is_move_all == has_move_all(changes@.take(i as int)),
        decreases n - i,
    {
        let e = &changes[i];
        let el = chars_of(e.element.as_str());
        let is_net = starts_with(&el, &prefix);
        let is_layout = same_chars(&el, &layout);
        let ghost before = components@;
        let ghost pred = |x: DiffEntry| !is_net_entry(x) && !is_layout_entry(x);
        assert(changes@.take(i + 1) =~= changes@.take(i as int).push(changes@[i as int]));
        proof {
            changes@.take(i as int).lemma_filter_push(changes@[i as int], pred);
        }
        assert(el@ == changes@[i as int].element@);
        if !is_net && !is_layout {
            components.push(ComponentDiff {
                name: e.element.clone(),
                kind: e.kind,
                cosmetic: e.cosmetic,
                position_changed: e.position_changed,
                before: clone_opt_params(&e.before),
                after: clone_opt_params(&e.after),
            });
            assert(component_changes(changes@.take(i + 1)) =~= component_changes(changes@.take(i as int)).push(changes@[i as int]));
            assert forall|k: int| 0 <= k < components@.len() implies
                same_component(#[trigger] components@[k], component_changes(changes@.take(i + 1))[k]) by {
                if k < before.len() {
                    assert(components@[k] == before[k]);
                }
            }
        } else {
            assert(component_changes(changes@.take(i + 1)) =~= component_changes(changes@.take(i as int)));
        }
        if is_layout && e.cosmetic {
            is_move_all = true;
        }
        proof {
            let t0 = changes@.take(i as int);
            let t1 = changes@.take(i + 1);
            if has_move_all(t1) {
                let w = choose|w: int| 0 <= w < t1.len() && is_layout_entry(t1[w]) && t1[w].cosmetic;
                if w < i {
                    assert(t0[w] == t1[w]);
                }
            }
            if has_move_all(t0) {
                let w = choose|w: int| 0 <= w < t0.len() && is_layout_entry(t0[w]) && t0[w].cosmetic;
                assert(t1[w] == t0[w]);
            }
            if is_layout && e.cosmetic {
                assert(is_layout_entry(t1[i as int]) && t1[i as int].cosmetic);
            }
        }
        i = i + 1;
    }
    assert(changes@.take(n as int) =~= changes@);
    DiffReport {
        components,
        nets_added: net_names_of(changes, ChangeKind::Added),
        nets_removed: net_names_of(changes, ChangeKind::Removed),
        is_move_all,
    }
}

/// Parameters as plain values.
pub open spec fn params_view(p: Option<Params>) -> Option<Seq<(String, String)>> {
    match p {
        Some(v) => Some(v@),
        None => None,
    }
}

/// Two component changes carry the same name, kind, flags and parameters.
pub open spec fn same_change(a: ComponentDiff, b: ComponentDiff) -> bool {
    &&& a.name@ == b.name@
    &&& a.kind == b.kind
    &&& a.cosmetic == b.cosmetic
    &&& a.position_changed == b.position_changed
    &&& params_view(a.before) == params_view(b.before)
    &&& params_view(a.after) == params_view(b.after)
}

/// The names of `d` can be told apart in a driver report: no component is
/// named like a net (`net:...`) or like the whole drawing (`layout`), and no
/// net name itself begins with `net:`.
pub open spec fn distinguishable_names(d: DiffReport) -> bool {
    &&& forall|k: int| 0 <= k < d.components@.len() ==>
        !has_prefix(#[trigger] d.components@[k].name@, "net:"@) && d.components@[k].name@ != "layout"@
    &&& forall|k: int| 0 <= k < d.nets_added@.len() ==> !has_prefix(#[trigger] d.nets_added@[k]@, "net:"@)
    &&& forall|k: int| 0 <= k < d.nets_removed@.len() ==> !has_prefix(#[trigger] d.nets_removed@[k]@, "net:"@)
}

proof fn lemma_strip_net_prefix(n: Seq<char>)
    requires
        !has_prefix(n, "net:"@),
    ensures
        has_prefix("net:"@ + n, "net:"@),
        strip_prefix_all("net:"@ + n, "net:"@) == n,
        ("net:"@ + n) != "layout"@,
{
    reveal_strlit("net:");
    reveal_strlit("layout");
    let s = "net:"@ + n;
    assert(s.subrange(0, 4) =~= "net:"@);
    assert(s.skip(4) =~= n);
    assert(strip_prefix_all(n, "net:"@) == n);
    assert(s[0] == 'n');
}

/// What the conversion has produced from the first `t` entries of the
/// driver report of `d`.
proof fn lemma_round_trip_prefix(d: DiffReport, r: DriverDiffReport, t: int)
    requires
        is_xschem_report(r, d),
        distinguishable_names(d),
        0 <= t <= r.changes@.len(),
    ensures
        ({
            let c = r.changes@;
            let nc = d.components@.len() as int;
            let na = d.nets_added@.len() as int;
            let nr = d.nets_removed@.len() as int;
            &&& component_changes(c.take(t)) == c.take(if t < nc { t } else { nc })
            &&& net_names(c.take(t), ChangeKind::Added)
                == views(d.nets_added@).take(if t < nc { 0 } else if t < nc + na { t - nc } else { na })
            &&& net_names(c.take(t), ChangeKind::Removed)
                == views(d.nets_removed@).take(if t < nc + na { 0 } else if t < nc + na + nr { t - nc - na } else { nr })
            &&& has_move_all(c.take(t)) == (d.is_move_all && t == c.len())
        }),
    decreases t,
{
    reveal_strlit("net:");
    reveal_strlit("layout");
    let c = r.changes@;
    let nc = d.components@.len() as int;
    let na = d.nets_added@.len() as int;
    let nr = d.nets_removed@.len() as int;
    let pred = |x: DiffEntry| !is_net_entry(x) && !is_layout_entry(x);
    if t == 0 {
        reveal(Seq::filter);
        assert(c.take(0) =~= Seq::<DiffEntry>::empty());
        assert(views(d.nets_added@).take(0) =~= Seq::<Seq<char>>::empty());
        assert(views(d.nets_removed@).take(0) =~= Seq::<Seq<char>>::empty());
    } else {
        lemma_round_trip_prefix(d, r, t - 1);
        let prev = c.take(t - 1);
        let e = c[t - 1];
        assert(c.take(t) =~= prev.push(e));
        assert(c.take(t).drop_last() =~= prev);
        prev.lemma_filter_push(e, pred);
        if t - 1 < nc {
            let comp = d.components@[t - 1];
            assert(reports_component(c[t - 1], comp));
            assert(!has_prefix(comp.name@, "net:"@) && comp.name@ != "layout"@);
            assert(!is_net_entry(e) && !is_layout_entry(e));
            assert(c.take(t) =~= c.take(t - 1).push(e));
        } else if t - 1 < nc + na {
            let k = t - 1 - nc;
            assert(reports_net(c[nc + k], d.nets_added@[k]@, ChangeKind::Added));
            lemma_strip_net_prefix(d.nets_added@[k]@);
            assert(views(d.nets_added@).take(k + 1) =~= views(d.nets_added@).take(k).push(d.nets_added@[k]@));
            assert(net_names(c.take(t), ChangeKind::Added) =~= net_names(prev, ChangeKind::Added) + seq![d.nets_added@[k]@]);
        } else if t - 1 < nc + na + nr {
            let k = t - 1 - nc - na;
            assert(reports_net(c[nc + na + k], d.nets_removed@[k]@, ChangeKind::Removed));
            lemma_strip_net_prefix(d.nets_removed@[k]@);
            assert(views(d.nets_removed@).take(k + 1) =~= views(d.nets_removed@).take(k).push(d.nets_removed@[k]@));
            assert(net_names(c.take(t), ChangeKind::Removed) =~= net_names(prev, ChangeKind::Removed) + seq![d.nets_removed@[k]@]);
        } else {
            assert(reports_move_all(e));
            assert(is_layout_entry(e) && e.cosmetic);
            assert(!is_net_entry(e)) by {
                assert(e.element@.subrange(0, 4)[0] == 'l');
                assert("net:"@[0] == 'n');
            }
            assert(has_move_all(c.take(t))) by {
                assert(c.take(t)[t - 1] == e);
            }
        }
        if has_move_all(prev) {
            let w = choose|w: int| 0 <= w < prev.len() && is_layout_entry(prev[w]) && prev[w].cosmetic;
            assert(c.take(t)[w] == prev[w]);
        }
        if has_move_all(c.take(t)) {
            let w = choose|w: int| 0 <= w < t && is_layout_entry(c.take(t)[w]) && c.take(t)[w].cosmetic;
            if w < t - 1 {
                assert(prev[w] == c.take(t)[w]);
            }
        }
    }
}

/// Converting the driver report of a schematic diff back to the component
/// view gives the diff back: the same component changes in the same order,
/// the same added and removed nets, the same whole-drawing rearrangement.
pub proof fn lemma_report_round_trip(d: DiffReport, r: DriverDiffReport, back: DiffReport)
    requires
        is_xschem_report(r, d),
        is_component_view(back, r),
        distinguishable_names(d),
    ensures
        back.components@.len() == d.components@.len(),
        forall|k: int| 0 <= k < d.components@.len() ==> same_change(#[trigger] back.components@[k], d.components@[k]),
        views(back.nets_added@) == views(d.nets_added@),
        views(back.nets_removed@) == views(d.nets_removed@),
        back.is_move_all == d.is_move_all,
{
    let c = r.changes@;
    lemma_round_trip_prefix(d, r, c.len() as int);
    assert(c.take(c.len() as int) =~= c);
    let nc = d.components@.len() as int;
    assert(views(d.nets_added@).take(d.nets_added@.len() as int) =~= views(d.nets_added@));
    assert(views(d.nets_removed@).take(d.nets_removed@.len() as int) =~= views(d.nets_removed@));
    assert forall|k: int| 0 <= k < d.components@.len() implies same_change(#[trigger] back.components@[k], d.components@[k]) by {
        assert(component_changes(c)[k] == c[k]);
        assert(reports_component(c[k], d.components@[k]));
        assert(same_component(back.components@[k], c[k]));
    }
}

/// Changes of a kind that are not merely cosmetic.
pub open spec fn semantic_count(changes: Seq<DiffEntry>, kind: ChangeKind) -> nat {
    changes.filter(|e: DiffEntry| e.kind == kind && !e.cosmetic).len()
}

/// Counts of non-cosmetic changes: (added, removed, modified).
pub fn summarize_changes(report: &DriverDiffReport) -> (r: (usize, usize, usize))
    ensures
        r.0 == semantic_count(report.changes@, ChangeKind::Added),
        r.1 == semantic_count(report.changes@, ChangeKind::Removed),
        r.2 == semantic_count(report.changes@, ChangeKind::Modified),
{
    let changes = &report.changes;
    let n = changes.len();
    let mut added: usize = 0;
    let mut removed: usize = 0;
    let mut modified: usize = 0;
    let mut i: usize = 0;
    while i < n
        invariant
            n == changes@.len(),
            i <= n,
            added == semantic_count(changes@.take(i as int), ChangeKind::Added),
            removed == semantic_count(changes@.take(i as int), ChangeKind::Removed),
            modified == semantic_count(changes@.take(i as int), ChangeKind::Modified),
            added <= i,
            removed <= i,
            modified <= i,
        decreases n - i,
    {
        let e = &changes[i];
        assert(changes@.take(i + 1).drop_last() =~= changes@.take(i as int));
        assert(changes@.take(i + 1) =~= changes@.take(i as int).push(changes@[i as int]));
        proof {
            let t = changes@.take(i as int);
            t.lemma_filter_len_push(|x: DiffEntry| x.kind == ChangeKind::Added && !x.cosmetic, changes@[i as int]);
            t.lemma_filter_len_push(|x: DiffEntry| x.kind == ChangeKind::Removed && !x.cosmetic, changes@[i as int]);
            t.lemma_filter_len_push(|x: DiffEntry| x.kind == ChangeKind::Modified && !x.cosmetic, changes@[i as int]);
        }
        if !e.cosmetic {
            match e.kind {
                ChangeKind::Added => added = added + 1,
                ChangeKind::Removed => removed = removed + 1,
                ChangeKind::Modified => modified = modified + 1,
            }
        }
        i = i + 1;
    }
    assert(changes@.take(n as int) =~= changes@);
    (added, removed, modified)
}

} // verus!
