//! The project tree of the viewer: folders before files, each sorted by
//! name, and which files the viewers can open.

use vstd::prelude::*;
use crate::order::{lemma_lt_asymmetric, lemma_lt_total, lemma_lt_transitive, seq_lt, str_lt};
use crate::text::{ascii_lower_seq, chars_of, lower_ascii, same_chars};

verus! {

/// Extension of the last component of a path, without the dot; none for a
/// name that has no dot or only a leading one (`Path::extension`).
pub uninterp spec fn path_extension(p: Seq<char>) -> Option<Seq<char>>;

/// `Path::extension` of a path given as text.
#[verifier::external_body]
fn extension_of(path: &str) -> (r: Option<String>)
    ensures
        r is Some <==> path_extension(path@) is Some,
        r matches Some(e) ==> e@ == path_extension(path@)->0,
{
    std::path::Path::new(path).extension().and_then(|e| e.to_str()).map(|e| e.to_string())
}

/// Last component of a path, when it is a name (`Path::file_name`): none for
/// a path that ends in `..` or is a root.
pub uninterp spec fn path_file_name(p: Seq<char>) -> Option<Seq<char>>;

/// `Path::file_name` of a path given as text.
#[verifier::external_body]
pub(crate) fn file_name_of(path: &str) -> (r: Option<String>)
    ensures
        r is Some <==> path_file_name(path@) is Some,
        r matches Some(n) ==> n@ == path_file_name(path@)->0,
{
    std::path::Path::new(path).file_name().and_then(|n| n.to_str()).map(|n| n.to_string())
}

/// A folder or a file of the project.
#[derive(Debug, PartialEq, Eq)]
pub enum ProjectEntry {
    Directory { path: String, name: String, children: Vec<ProjectEntry> },
    File { path: String, name: String },
}

pub open spec fn name_of(e: ProjectEntry) -> Seq<char> {
    match e {
        ProjectEntry::Directory { name, .. } => name@,
        ProjectEntry::File { name, .. } => name@,
    }
}

pub fn entry_name(entry: &ProjectEntry) -> (n: &String)
    ensures
        n@ == name_of(*entry),
{
    match entry {
        ProjectEntry::Directory { name, .. } => name,
        ProjectEntry::File { name, .. } => name,
    }
}

/// `x` goes after every entry of `s` whose name does not sort after its own:
/// the insertion step of a stable sort by name.
pub open spec fn insert_by_name(s: Seq<ProjectEntry>, x: ProjectEntry) -> Seq<ProjectEntry>
    decreases s.len(),
{
    if s.len() == 0 {
        seq![x]
    } else if seq_lt(name_of(x), name_of(s.last())) {
        insert_by_name(s.drop_last(), x).push(s.last())
    } else {
        s.push(x)
    }
}

/// Stable sort by name: entries with equal names keep their order.
pub open spec fn sorted_by_name(s: Seq<ProjectEntry>) -> Seq<ProjectEntry>
    decreases s.len(),
{
    if s.len() == 0 {
        s
    } else {
        insert_by_name(sorted_by_name(s.drop_last()), s.last())
    }
}

pub open spec fn names_nondecreasing(s: Seq<ProjectEntry>) -> bool {
    forall|i: int, j: int| 0 <= i < j < s.len() ==> !seq_lt(name_of(s[j]), name_of(s[i]))
}

proof fn lemma_name_not_before_transitive(a: Seq<char>, b: Seq<char>, c: Seq<char>)
    requires
        !seq_lt(b, a),
        !seq_lt(c, b),
    ensures
        !seq_lt(c, a),
{
    lemma_lt_total(a, b);
    if seq_lt(c, a) && seq_lt(a, b) {
        lemma_lt_transitive(c, a, b);
    }
}

proof fn lemma_insert_by_name_multiset(t: Seq<ProjectEntry>, x: ProjectEntry)
    ensures
        insert_by_name(t, x).to_multiset() == t.to_multiset().insert(x),
    decreases t.len(),
{
    broadcast use vstd::seq_lib::to_multiset_build;
    if t.len() == 0 {
        assert(insert_by_name(t, x) =~= t.push(x));
        assert(t.push(x).to_multiset() =~= t.to_multiset().insert(x));
    } else {
        let d = t.drop_last();
        assert(t =~= d.push(t.last()));
        assert(t.to_multiset() =~= d.to_multiset().insert(t.last()));
        if seq_lt(name_of(x), name_of(t.last())) {
            lemma_insert_by_name_multiset(d, x);
            let u = insert_by_name(d, x);
            assert(insert_by_name(t, x) == u.push(t.last()));
            assert(u.push(t.last()).to_multiset() =~= u.to_multiset().insert(t.last()));
            assert(insert_by_name(t, x).to_multiset() =~= d.to_multiset().insert(x).insert(t.last()));
        } else {
            assert(insert_by_name(t, x) == t.push(x));
            assert(t.push(x).to_multiset() =~= t.to_multiset().insert(x));
        }
    }
}

proof fn lemma_insert_by_name_keeps_bound(t: Seq<ProjectEntry>, x: ProjectEntry, y: Seq<char>)
    requires
        forall|i: int| 0 <= i < t.len() ==> !seq_lt(y, name_of(#[trigger] t[i])),
        !seq_lt(y, name_of(x)),
    ensures
        forall|i: int| 0 <= i < insert_by_name(t, x).len() ==> !seq_lt(y, name_of(#[trigger] insert_by_name(t, x)[i])),
    decreases t.len(),
{
    if t.len() > 0 && seq_lt(name_of(x), name_of(t.last())) {
        let u = insert_by_name(t.drop_last(), x);
        assert forall|i: int| 0 <= i < t.drop_last().len() implies !seq_lt(y, name_of(#[trigger] t.drop_last()[i])) by {
            assert(t.drop_last()[i] == t[i]);
        }
        lemma_insert_by_name_keeps_bound(t.drop_last(), x, y);
        assert forall|i: int| 0 <= i < insert_by_name(t, x).len() implies !seq_lt(y, name_of(#[trigger] insert_by_name(t, x)[i])) by {
            if i < u.len() {
                assert(insert_by_name(t, x)[i] == u[i]);
            } else {
                assert(insert_by_name(t, x)[i] == t[t.len() - 1]);
            }
        }
    } else if t.len() > 0 {
        assert forall|i: int| 0 <= i < insert_by_name(t, x).len() implies !seq_lt(y, name_of(#[trigger] insert_by_name(t, x)[i])) by {
            if i < t.len() {
                assert(insert_by_name(t, x)[i] == t[i]);
            }
        }
    }
}

proof fn lemma_insert_by_name_ordered(t: Seq<ProjectEntry>, x: ProjectEntry)
    requires
        names_nondecreasing(t),
    ensures
        names_nondecreasing(insert_by_name(t, x)),
    decreases t.len(),
{
    if t.len() > 0 {
        let last = t.last();
        let d = t.drop_last();
        assert(names_nondecreasing(d)) by {
            assert forall|i: int, j: int| 0 <= i < j < d.len() implies !seq_lt(name_of(d[j]), name_of(d[i])) by {
                assert(d[i] == t[i] && d[j] == t[j]);
            }
        }
        if seq_lt(name_of(x), name_of(last)) {
            lemma_insert_by_name_ordered(d, x);
            lemma_lt_asymmetric(name_of(x), name_of(last));
            assert forall|i: int| 0 <= i < d.len() implies !seq_lt(name_of(last), name_of(#[trigger] d[i])) by {
                assert(d[i] == t[i]);
            }
            lemma_insert_by_name_keeps_bound(d, x, name_of(last));
            let u = insert_by_name(d, x);
            let r = insert_by_name(t, x);
            assert(r == u.push(last));
            assert forall|i: int, j: int| 0 <= i < j < r.len() implies !seq_lt(name_of(r[j]), name_of(r[i])) by {
                if j < u.len() {
                    assert(r[i] == u[i] && r[j] == u[j]);
                } else {
                    assert(r[j] == last);
                    assert(r[i] == u[i]);
                }
            }
        } else {
            let r = insert_by_name(t, x);
            assert(r == t.push(x));
            assert forall|i: int, j: int| 0 <= i < j < r.len() implies !seq_lt(name_of(r[j]), name_of(r[i])) by {
                if j < t.len() {
                    assert(r[i] == t[i] && r[j] == t[j]);
                } else if i < t.len() - 1 {
                    assert(r[i] == t[i]);
                    lemma_name_not_before_transitive(name_of(t[i]), name_of(last), name_of(x));
                }
            }
        }
    }
}

/// Sorting by name keeps every entry, as many times as given, and leaves
/// the names in non-decreasing order.
pub proof fn lemma_sorted_by_name(s: Seq<ProjectEntry>)
    ensures
        sorted_by_name(s).to_multiset() == s.to_multiset(),
        names_nondecreasing(sorted_by_name(s)),
    decreases s.len(),
{
    broadcast use vstd::seq_lib::to_multiset_build;
    if s.len() > 0 {
        lemma_sorted_by_name(s.drop_last());
        lemma_insert_by_name_multiset(sorted_by_name(s.drop_last()), s.last());
        lemma_insert_by_name_ordered(sorted_by_name(s.drop_last()), s.last());
        assert(s =~= s.drop_last().push(s.last()));
        assert(s.to_multiset() =~= s.drop_last().to_multiset().insert(s.last()));
    }
}

/// The position where `insert_by_name` puts `x`: after the last entry whose
/// name does not sort after `x`'s.
fn insertion_point(s: &Vec<ProjectEntry>, x: &ProjectEntry) -> (p: usize)
    ensures
        p <= s@.len(),
        insert_by_name(s@, *x) == s@.take(p as int).push(*x) + s@.skip(p as int),
{
    let xn = chars_of(entry_name(x).as_str());
    let mut p: usize = s.len();
    assert(s@.skip(p as int) =~= Seq::<ProjectEntry>::empty());
    assert(s@.take(p as int) =~= s@);
    while p > 0 && str_lt(entry_name(x).as_str(), entry_name(&s[p - 1]).as_str())
        invariant
            p <= s@.len(),
            insert_by_name(s@, *x) == insert_by_name(s@.take(p as int), *x) + s@.skip(p as int),
        decreases p,
    {
        proof {
            let t = s@.take(p as int);
            assert(t.drop_last() =~= s@.take(p - 1));
            assert(t.last() == s@[p - 1]);
            assert(s@.skip(p - 1) =~= seq![s@[p - 1]] + s@.skip(p as int));
            assert(insert_by_name(t, *x) == insert_by_name(s@.take(p - 1), *x).push(s@[p - 1]));
            assert(insert_by_name(s@.take(p - 1), *x).push(s@[p - 1]) + s@.skip(p as int)
                =~= insert_by_name(s@.take(p - 1), *x) + s@.skip(p - 1));
        }
        p = p - 1;
    }
    proof {
        let t = s@.take(p as int);
        if p > 0 {
            assert(t.last() == s@[p - 1]);
        } else {
            assert(t =~= Seq::<ProjectEntry>::empty());
        }
    }
    p
}

/// Entries sorted by name, stably (the entries are moved, not copied).
pub fn sort_by_name(v: Vec<ProjectEntry>) -> (r: Vec<ProjectEntry>)
    ensures
        r@ == sorted_by_name(v@),
{
    let ghost orig = v@;
    let mut rest = v;
    let mut r: Vec<ProjectEntry> = Vec::new();
    let n = rest.len();
    let mut i: usize = 0;
    while i < n
        invariant
            n == orig.len(),
            i <= n,
            rest@ == orig.skip(i as int),
            r@ == sorted_by_name(orig.take(i as int)),
        decreases n - i,
    {
        let x = rest.remove(0);
        proof {
            assert(x == orig[i as int]);
            assert(rest@ =~= orig.skip(i + 1));
        }
        let p = insertion_point(&r, &x);
        r.insert(p, x);
        proof {
            let t = orig.take(i + 1);
            assert(t.drop_last() =~= orig.take(i as int));
            assert(t.last() == orig[i as int]);
        }
        i = i + 1;
    }
    assert(orig.take(n as int) =~= orig);
    r
}

/// The children of a folder as the tree shows them: the sub-folders sorted
/// by name, then the files sorted by name.
pub fn order_children(dirs: Vec<ProjectEntry>, files: Vec<ProjectEntry>) -> (r: Vec<ProjectEntry>)
    ensures
        r@ == sorted_by_name(dirs@) + sorted_by_name(files@),
{
    let mut r = sort_by_name(dirs);
    let mut f = sort_by_name(files);
    r.append(&mut f);
    r
}

impl ProjectEntry {
    /// The tree node of the folder `root`, given its sub-folders and files as
    /// read from disk: named after the last component of `root` (the whole
    /// path when that is not a name), its children in tree order.
    pub fn build(root: &str, dirs: Vec<ProjectEntry>, files: Vec<ProjectEntry>) -> (r: ProjectEntry)
        ensures
            r matches ProjectEntry::Directory { path, name, children } && path@ == root@
                && name@ == (match path_file_name(root@) {
                    Some(n) => n,
                    None => root@,
                }) && children@ == sorted_by_name(dirs@) + sorted_by_name(files@),
    {
        let name = match file_name_of(root) {
            Some(n) => n,
            None => root.to_owned(),
        };
        ProjectEntry::Directory { path: root.to_owned(), name, children: order_children(dirs, files) }
    }
}

/// Whether the ASCII lower-cased extension of `path` is one of the layout
/// extensions the renderer opens.
pub open spec fn gds_extension(e: Seq<char>) -> bool {
    let l = ascii_lower_seq(e);
    l == "gds"@ || l == "oas"@ || l == "oasisc"@ || l == "gdsii"@
}

/// Whether the layout renderer can open `path`, judged by its extension
/// (`gds`, `oas`, `oasisc`, `gdsii`, in any ASCII case).
pub fn is_gds_renderable(path: &str) -> (r: bool)
    ensures
        r == (path_extension(path@) matches Some(e) && gds_extension(e)),
{
    match extension_of(path) {
        None => false,
        Some(e) => {
            let l = lower_ascii(&chars_of(e.as_str()));
            let a = chars_of("gds");
            let b = chars_of("oas");
            let c = chars_of("oasisc");
            let d = chars_of("gdsii");
            same_chars(&l, &a) || same_chars(&l, &b) || same_chars(&l, &c) || same_chars(&l, &d)
        },
    }
}

/// Whether the schematic viewer can open `path`: its extension is `sch` in
/// any ASCII case.
pub fn is_sch_renderable(path: &str) -> (r: bool)
    ensures
        r == (path_extension(path@) matches Some(e) && ascii_lower_seq(e) == "sch"@),
{
    match extension_of(path) {
        None => false,
        Some(e) => {
            let l = lower_ascii(&chars_of(e.as_str()));
            let a = chars_of("sch");
            same_chars(&l, &a)
        },
    }
}

} // verus!
