//! Lexicographic order of character sequences and sorted, duplicate-free
//! collections of names and layer keys.

use vstd::prelude::*;
use crate::gds_diff::LayerKey;
use crate::text::chars_of;

verus! {

/// `a` sorts before `b` when both agree up to position `i`: the first
/// difference from `i` on decides by code point, and a proper prefix sorts first.
pub open spec fn lt_from(a: Seq<char>, b: Seq<char>, i: int) -> bool
    decreases a.len() - i,
{
    if i >= a.len() {
        i < b.len()
    } else if i >= b.len() {
        false
    } else if a[i] != b[i] {
        a[i] < b[i]
    } else {
        lt_from(a, b, i + 1)
    }
}

/// Lexicographic order by code point (the order of `String`'s `Ord`).
pub open spec fn seq_lt(a: Seq<char>, b: Seq<char>) -> bool {
    lt_from(a, b, 0)
}

pub proof fn lemma_lt_from_irreflexive(a: Seq<char>, i: int)
    requires
        0 <= i,
    ensures
        !lt_from(a, a, i),
    decreases a.len() - i,
{
    if i < a.len() {
        lemma_lt_from_irreflexive(a, i + 1);
    }
}

pub proof fn lemma_lt_from_transitive(a: Seq<char>, b: Seq<char>, c: Seq<char>, i: int)
    requires
        0 <= i,
        lt_from(a, b, i),
        lt_from(b, c, i),
    ensures
        lt_from(a, c, i),
    decreases a.len() - i,
{
    if i < a.len() && i < b.len() && i < c.len() && a[i] == b[i] && b[i] == c[i] {
        lemma_lt_from_transitive(a, b, c, i + 1);
    }
}

pub proof fn lemma_lt_from_total(a: Seq<char>, b: Seq<char>, i: int)
    requires
        0 <= i <= a.len(),
        i <= b.len(),
    ensures
        lt_from(a, b, i) || lt_from(b, a, i) || a.skip(i) =~= b.skip(i),
    decreases a.len() - i,
{
    if i < a.len() && i < b.len() && a[i] == b[i] {
        lemma_lt_from_total(a, b, i + 1);
        if a.skip(i + 1) =~= b.skip(i + 1) {
            assert forall|k: int| 0 <= k < a.skip(i).len() implies a.skip(i)[k] == b.skip(i)[k] by {
                if k > 0 {
                    assert(a.skip(i)[k] == a.skip(i + 1)[k - 1]);
                    assert(b.skip(i)[k] == b.skip(i + 1)[k - 1]);
                }
            }
        }
    }
}

pub proof fn lemma_lt_irreflexive(a: Seq<char>)
    ensures
        !seq_lt(a, a),
{
    lemma_lt_from_irreflexive(a, 0);
}

pub proof fn lemma_lt_transitive(a: Seq<char>, b: Seq<char>, c: Seq<char>)
    requires
        seq_lt(a, b),
        seq_lt(b, c),
    ensures
        seq_lt(a, c),
{
    lemma_lt_from_transitive(a, b, c, 0);
}

pub proof fn lemma_lt_total(a: Seq<char>, b: Seq<char>)
    ensures
        seq_lt(a, b) || seq_lt(b, a) || a == b,
{
    lemma_lt_from_total(a, b, 0);
    assert(a.skip(0) =~= a);
    assert(b.skip(0) =~= b);
}

pub proof fn lemma_lt_asymmetric(a: Seq<char>, b: Seq<char>)
    requires
        seq_lt(a, b),
    ensures
        !seq_lt(b, a),
{
    if seq_lt(b, a) {
        lemma_lt_transitive(a, b, a);
        lemma_lt_irreflexive(a);
    }
}

/// Whether `a` sorts strictly before `b`.
pub fn chars_lt(a: &Vec<char>, b: &Vec<char>) -> (r: bool)
    ensures
        r == seq_lt(a@, b@),
{
    let mut i: usize = 0;
    loop
        invariant
            i <= a@.len(),
            i <= b@.len(),
            seq_lt(a@, b@) == lt_from(a@, b@, i as int),
        decreases a@.len() - i,
    {
        if i >= a.len() {
            return i < b.len();
        }
        if i >= b.len() {
            return false;
        }
        if a[i] != b[i] {
            return a[i] < b[i];
        }
        i = i + 1;
    }
}

/// Whether the string `a` sorts strictly before `b`.
pub fn str_lt(a: &str, b: &str) -> (r: bool)
    ensures
        r == seq_lt(a@, b@),
{
    let x = chars_of(a);
    let y = chars_of(b);
    chars_lt(&x, &y)
}

/// The character sequences of a list of strings.
pub open spec fn views(v: Seq<String>) -> Seq<Seq<char>> {
    v.map_values(|s: String| s@)
}

/// Pairwise strictly increasing: sorted and free of duplicates.
pub open spec fn strictly_sorted(s: Seq<Seq<char>>) -> bool {
    forall|i: int, j: int| 0 <= i < j < s.len() ==> seq_lt(s[i], s[j])
}

/// Order of layer keys: by layer, then by datatype.
pub open spec fn key_lt(x: LayerKey, y: LayerKey) -> bool {
    x.layer < y.layer || (x.layer == y.layer && x.datatype < y.datatype)
}

pub open spec fn keys_strictly_sorted(s: Seq<LayerKey>) -> bool {
    forall|i: int, j: int| 0 <= i < j < s.len() ==> key_lt(s[i], s[j])
}

/// Inserts `x` into the strictly sorted `v`, unless it is already there.
pub fn insert_name(v: &mut Vec<String>, x: &String)
    requires
        strictly_sorted(views(old(v)@)),
    ensures
        strictly_sorted(views(final(v)@)),
        views(final(v)@).to_set() == views(old(v)@).to_set().insert(x@),
{
    let ghost old_v = views(v@);
    let xs = chars_of(x.as_str());
    let n = v.len();
    let mut p: usize = 0;
    let mut stop = false;
    while p < n && !stop
        invariant
            n == v@.len(),
            p <= n,
            views(v@) == old_v,
            xs@ == x@,
            strictly_sorted(old_v),
            forall|k: int| 0 <= k < p ==> seq_lt(#[trigger] old_v[k], x@),
            stop ==> p < n && !seq_lt(old_v[p as int], x@),
        decreases n - p + (if stop { 0int } else { 1int }),
    {
        let cur = chars_of(v[p].as_str());
        assert(old_v[p as int] == cur@);
        if !chars_lt(&cur, &xs) {
            stop = true;
        } else {
            p = p + 1;
        }
    }
    if p < n {
        let cur = chars_of(v[p].as_str());
        assert(old_v[p as int] == cur@);
        if !chars_lt(&xs, &cur) {
            // neither sorts before the other: `x` is already present
            proof {
                lemma_lt_total(cur@, xs@);
                assert(old_v[p as int] == x@);
                assert(old_v.contains(x@));
                assert(old_v.to_set().insert(x@) =~= old_v.to_set());
            }
            return;
        }
    }
    proof {
        assert forall|k: int| p <= k < n implies seq_lt(x@, #[trigger] old_v[k]) by {
            if p < n {
                if k > p {
                    assert(seq_lt(old_v[p as int], old_v[k]));
                    lemma_lt_transitive(x@, old_v[p as int], old_v[k]);
                }
            }
        }
    }
    v.insert(p, x.clone());
    proof {
        let nv = views(v@);
        assert(nv =~= old_v.insert(p as int, x@));
        assert forall|i: int, j: int| 0 <= i < j < nv.len() implies seq_lt(nv[i], nv[j]) by {
            if j < p {
            } else if j == p {
            } else if i < p {
                lemma_lt_transitive(nv[i], x@, nv[j]);
            } else if i == p {
            } else {
            }
        }
        assert(nv.to_set() =~= old_v.to_set().insert(x@)) by {
            assert forall|s: Seq<char>| nv.contains(s) <==> old_v.contains(s) || s == x@ by {
                if nv.contains(s) {
                    let k = choose|k: int| 0 <= k < nv.len() && nv[k] == s;
                    if k < p {
                        assert(old_v[k] == s);
                    } else if k > p {
                        assert(old_v[k - 1] == s);
                    }
                }
                if old_v.contains(s) {
                    let k = choose|k: int| 0 <= k < old_v.len() && old_v[k] == s;
                    if k < p {
                        assert(nv[k] == s);
                    } else {
                        assert(nv[k + 1] == s);
                    }
                }
                if s == x@ {
                    assert(nv[p as int] == s);
                }
            }
        }
    }
}

/// Whether a name with the characters `x` occurs in `v`.
pub fn has_name(v: &Vec<String>, x: &Vec<char>) -> (r: bool)
    ensures
        r == views(v@).contains(x@),
{
    let n = v.len();
    let mut i: usize = 0;
    while i < n
        invariant
            n == v@.len(),
            i <= n,
            forall|k: int| 0 <= k < i ==> views(v@)[k] != x@,
        decreases n - i,
    {
        let cur = chars_of(v[i].as_str());
        if crate::text::same_chars(&cur, x) {
            assert(views(v@)[i as int] == x@);
            return true;
        }
        i = i + 1;
    }
    false
}

/// The names of `names`, sorted and without duplicates.
pub fn sorted_names(names: &Vec<String>) -> (r: Vec<String>)
    ensures
        strictly_sorted(views(r@)),
        views(r@).to_set() == views(names@).to_set(),
{
    let mut r: Vec<String> = Vec::new();
    let n = names.len();
    let mut i: usize = 0;
    while i < n
        invariant
            n == names@.len(),
            i <= n,
            strictly_sorted(views(r@)),
            views(r@).to_set() == views(names@.take(i as int)).to_set(),
        decreases n - i,
    {
        insert_name(&mut r, &names[i]);
        assert(views(names@.take(i + 1)) =~= views(names@.take(i as int)).push(names@[i as int]@));
        proof {
            views(names@.take(i as int)).lemma_push_to_set_commute(names@[i as int]@);
        }
        i = i + 1;
    }
    assert(names@.take(n as int) =~= names@);
    r
}

/// The names of the strictly sorted `a` that `b` does (`keep == true`) or
/// does not (`keep == false`) hold, in the order of `a`.
pub fn filter_names(a: &Vec<String>, b: &Vec<String>, keep: bool) -> (r: Vec<String>)
    requires
        strictly_sorted(views(a@)),
    ensures
        strictly_sorted(views(r@)),
        views(r@).to_set() == views(a@).to_set().filter(|s: Seq<char>| views(b@).contains(s) == keep),
{
    let mut r: Vec<String> = Vec::new();
    let n = a.len();
    let mut i: usize = 0;
    while i < n
        invariant
            n == a@.len(),
            i <= n,
            strictly_sorted(views(a@)),
            strictly_sorted(views(r@)),
            forall|k: int, j: int| 0 <= k < r@.len() && i <= j < n ==> seq_lt(views(r@)[k], views(a@)[j]),
            views(r@).to_set() == views(a@.take(i as int)).to_set().filter(|s: Seq<char>| views(b@).contains(s) == keep),
        decreases n - i,
    {
        let cur = chars_of(a[i].as_str());
        let inb = has_name(b, &cur);
        let ghost before = views(r@);
        let ghost x = views(a@)[i as int];
        assert(cur@ == x);
        if inb == keep {
            r.push(a[i].clone());
            assert(views(r@) =~= before.push(x));
            proof {
                before.lemma_push_to_set_commute(x);
            }
        } else {
            assert(views(r@) =~= before);
        }
        proof {
            let ta = views(a@.take(i as int));
            let tb = views(a@.take(i + 1));
            assert(tb =~= ta.push(x));
            ta.lemma_push_to_set_commute(x);
            let f = |s: Seq<char>| views(b@).contains(s) == keep;
            assert(tb.to_set().filter(f) =~= if inb == keep { ta.to_set().filter(f).insert(x) } else { ta.to_set().filter(f) });
            assert forall|k: int, j: int| 0 <= k < r@.len() && i + 1 <= j < n implies seq_lt(views(r@)[k], views(a@)[j]) by {
                if k < before.len() {
                    assert(seq_lt(before[k], views(a@)[j]));
                } else {
                    assert(views(r@)[k] == x);
                }
            }
        }
        i = i + 1;
    }
    assert(a@.take(n as int) =~= a@);
    r
}

/// Inserts `x` into the strictly sorted `v`, unless it is already there.
pub fn insert_key(v: &mut Vec<LayerKey>, x: LayerKey)
    requires
        keys_strictly_sorted(old(v)@),
    ensures
        keys_strictly_sorted(final(v)@),
        final(v)@.to_set() == old(v)@.to_set().insert(x),
{
    let ghost old_v = v@;
    let n = v.len();
    let mut p: usize = 0;
    while p < n && key_less(v[p], x)
        invariant
            n == v@.len(),
            p <= n,
            v@ == old_v,
            keys_strictly_sorted(old_v),
            forall|k: int| 0 <= k < p ==> key_lt(#[trigger] old_v[k], x),
        decreases n - p,
    {
        p = p + 1;
    }
    if p < n && v[p] == x {
        assert(old_v.contains(x));
        assert(old_v.to_set().insert(x) =~= old_v.to_set());
        return;
    }
    v.insert(p, x);
    proof {
        let nv = v@;
        assert(nv =~= old_v.insert(p as int, x));
        assert forall|i: int, j: int| 0 <= i < j < nv.len() implies key_lt(nv[i], nv[j]) by {
            if i == p && j > p {
                assert(!key_lt(old_v[p as int], x));
                assert(key_lt(old_v[p as int], old_v[j - 1]) || j - 1 == p);
            }
        }
        assert(nv.to_set() =~= old_v.to_set().insert(x)) by {
            assert forall|s: LayerKey| nv.contains(s) <==> old_v.contains(s) || s == x by {
                if nv.contains(s) {
                    let k = choose|k: int| 0 <= k < nv.len() && nv[k] == s;
                    if k < p {
                        assert(old_v[k] == s);
                    } else if k > p {
                        assert(old_v[k - 1] == s);
                    }
                }
                if old_v.contains(s) {
                    let k = choose|k: int| 0 <= k < old_v.len() && old_v[k] == s;
                    if k < p {
                        assert(nv[k] == s);
                    } else {
                        assert(nv[k + 1] == s);
                    }
                }
                if s == x {
                    assert(nv[p as int] == s);
                }
            }
        }
    }
}

pub fn key_less(x: LayerKey, y: LayerKey) -> (r: bool)
    ensures
        r == key_lt(x, y),
{
    x.layer < y.layer || (x.layer == y.layer && x.datatype < y.datatype)
}


/// The keys of `a` and `b` together, sorted and without duplicates.
pub fn sorted_key_union(a: &Vec<LayerKey>, b: &Vec<LayerKey>) -> (r: Vec<LayerKey>)
    ensures
        keys_strictly_sorted(r@),
        r@.to_set() == a@.to_set().union(b@.to_set()),
{
    let mut r: Vec<LayerKey> = Vec::new();
    let n = a.len();
    let mut i: usize = 0;
    while i < n
        invariant
            n == a@.len(),
            i <= n,
            keys_strictly_sorted(r@),
            r@.to_set() == a@.take(i as int).to_set(),
        decreases n - i,
    {
        insert_key(&mut r, a[i]);
        assert(a@.take(i + 1) =~= a@.take(i as int).push(a@[i as int]));
        proof {
            a@.take(i as int).lemma_push_to_set_commute(a@[i as int]);
        }
        i = i + 1;
    }
    assert(a@.take(n as int) =~= a@);
    let m = b.len();
    let mut j: usize = 0;
    while j < m
        invariant
            m == b@.len(),
            j <= m,
            keys_strictly_sorted(r@),
            r@.to_set() == a@.to_set().union(b@.take(j as int).to_set()),
        decreases m - j,
    {
        insert_key(&mut r, b[j]);
        assert(b@.take(j + 1) =~= b@.take(j as int).push(b@[j as int]));
        proof {
            b@.take(j as int).lemma_push_to_set_commute(b@[j as int]);
            assert(a@.to_set().union(b@.take(j + 1).to_set()) =~= a@.to_set().union(b@.take(j as int).to_set()).insert(b@[j as int]));
        }
        j = j + 1;
    }
    assert(b@.take(m as int) =~= b@);
    r
}

/// The sorted, duplicate-free enumeration of a finite set of names.
pub open spec fn sorted_enumeration(set: Set<Seq<char>>) -> Seq<Seq<char>> {
    choose|s: Seq<Seq<char>>| strictly_sorted(s) && s.to_set() == set
}

proof fn lemma_enumerations_agree_at(s1: Seq<Seq<char>>, s2: Seq<Seq<char>>, i: int)
    requires
        strictly_sorted(s1),
        strictly_sorted(s2),
        s1.to_set() == s2.to_set(),
        0 <= i < s1.len(),
        i < s2.len(),
        forall|j: int| 0 <= j < i ==> s1[j] == s2[j],
    ensures
        s1[i] == s2[i],
{
    assert(s2.to_set().contains(s1[i]));
    let m = choose|m: int| 0 <= m < s2.len() && s2[m] == s1[i];
    assert(s1.to_set().contains(s2[i]));
    let p = choose|p: int| 0 <= p < s1.len() && s1[p] == s2[i];
    if m < i {
        assert(s1[m] == s2[m]);
        assert(seq_lt(s1[m], s1[i]));
        lemma_lt_irreflexive(s1[i]);
    } else if p < i {
        assert(s1[p] == s2[p]);
        assert(seq_lt(s2[p], s2[i]));
        lemma_lt_irreflexive(s2[i]);
    } else if m > i && p > i {
        assert(seq_lt(s2[i], s2[m]));
        assert(seq_lt(s1[i], s1[p]));
        lemma_lt_asymmetric(s1[i], s2[i]);
    }
}

proof fn lemma_enumerations_agree_upto(s1: Seq<Seq<char>>, s2: Seq<Seq<char>>, n: int)
    requires
        strictly_sorted(s1),
        strictly_sorted(s2),
        s1.to_set() == s2.to_set(),
        0 <= n <= s1.len(),
        n <= s2.len(),
    ensures
        forall|j: int| 0 <= j < n ==> s1[j] == s2[j],
    decreases n,
{
    if n > 0 {
        lemma_enumerations_agree_upto(s1, s2, n - 1);
        lemma_enumerations_agree_at(s1, s2, n - 1);
    }
}

proof fn lemma_enumeration_not_longer(s1: Seq<Seq<char>>, s2: Seq<Seq<char>>)
    requires
        strictly_sorted(s1),
        strictly_sorted(s2),
        s1.to_set() == s2.to_set(),
        s2.len() <= s1.len(),
        forall|j: int| 0 <= j < s2.len() ==> s1[j] == s2[j],
    ensures
        s1.len() == s2.len(),
{
    if s1.len() > s2.len() {
        let k = s2.len() as int;
        assert(s2.to_set().contains(s1[k]));
        let m = choose|m: int| 0 <= m < s2.len() && s2[m] == s1[k];
        assert(s1[m] == s2[m]);
        assert(seq_lt(s1[m], s1[k]));
        lemma_lt_irreflexive(s1[k]);
    }
}

/// A set has at most one strictly sorted enumeration.
pub proof fn lemma_sorted_enumeration_unique(s1: Seq<Seq<char>>, s2: Seq<Seq<char>>)
    requires
        strictly_sorted(s1),
        strictly_sorted(s2),
        s1.to_set() == s2.to_set(),
    ensures
        s1 == s2,
{
    if s1.len() <= s2.len() {
        lemma_enumerations_agree_upto(s1, s2, s1.len() as int);
        lemma_enumeration_not_longer(s2, s1);
    } else {
        lemma_enumerations_agree_upto(s1, s2, s2.len() as int);
        lemma_enumeration_not_longer(s1, s2);
    }
    assert(s1 =~= s2);
}

/// A strictly sorted enumeration of a set is the one `sorted_enumeration` names.
pub proof fn lemma_is_sorted_enumeration(s: Seq<Seq<char>>, set: Set<Seq<char>>)
    requires
        strictly_sorted(s),
        s.to_set() == set,
    ensures
        sorted_enumeration(set) == s,
{
    let c = sorted_enumeration(set);
    lemma_sorted_enumeration_unique(c, s);
}
} // verus!
