//! Text of the commit history: the reference list of a commit and the date
//! of a commit.

use vstd::prelude::*;
use crate::calendar::{date_of_day, days_since_epoch_to_ymd};
use crate::order::{chars_lt, lemma_lt_asymmetric, lemma_lt_total, lemma_lt_transitive, seq_lt};
use crate::text::{chars_of, decimal, decimal_padded, push_all, push_decimal, push_decimal_padded, push_str, same_chars, string_of};

verus! {

/// `a` is listed before `b`: `HEAD` before every other reference, the others
/// by name.
pub open spec fn ref_before(a: Seq<char>, b: Seq<char>) -> bool {
    if a == "HEAD"@ {
        b != "HEAD"@
    } else {
        b != "HEAD"@ && seq_lt(a, b)
    }
}

/// Insertion step of a stable sort of references: `x` goes after every
/// reference that is not listed after it.
pub open spec fn insert_ref(s: Seq<Seq<char>>, x: Seq<char>) -> Seq<Seq<char>>
    decreases s.len(),
{
    if s.len() == 0 {
        seq![x]
    } else if ref_before(x, s.last()) {
        insert_ref(s.drop_last(), x).push(s.last())
    } else {
        s.push(x)
    }
}

/// References in listing order, equal ones keeping their order.
pub open spec fn sorted_refs(s: Seq<Seq<char>>) -> Seq<Seq<char>>
    decreases s.len(),
{
    if s.len() == 0 {
        s
    } else {
        insert_ref(sorted_refs(s.drop_last()), s.last())
    }
}

/// No reference is listed before an earlier one.
pub open spec fn refs_ordered(s: Seq<Seq<char>>) -> bool {
    forall|i: int, j: int| 0 <= i < j < s.len() ==> !ref_before(s[j], s[i])
}

proof fn lemma_ref_before_asymmetric(a: Seq<char>, b: Seq<char>)
    requires
        ref_before(a, b),
    ensures
        !ref_before(b, a),
{
    if a != "HEAD"@ && b != "HEAD"@ {
        lemma_lt_asymmetric(a, b);
    }
}

/// Being listed no earlier than is transitive.
proof fn lemma_ref_not_before_transitive(a: Seq<char>, b: Seq<char>, c: Seq<char>)
    requires
        !ref_before(a, b),
        !ref_before(b, c),
    ensures
        !ref_before(a, c),
{
    if a != "HEAD"@ && b != "HEAD"@ && c != "HEAD"@ {
        lemma_lt_total(a, b);
        if seq_lt(b, a) && seq_lt(a, c) {
            lemma_lt_transitive(b, a, c);
        }
    }
}

proof fn lemma_insert_ref_multiset(t: Seq<Seq<char>>, x: Seq<char>)
    ensures
        insert_ref(t, x).to_multiset() == t.to_multiset().insert(x),
    decreases t.len(),
{
    broadcast use vstd::seq_lib::to_multiset_build;
    if t.len() == 0 {
        assert(insert_ref(t, x) =~= t.push(x));
        assert(t.push(x).to_multiset() =~= t.to_multiset().insert(x));
    } else {
        let d = t.drop_last();
        assert(t =~= d.push(t.last()));
        assert(t.to_multiset() =~= d.to_multiset().insert(t.last()));
        if ref_before(x, t.last()) {
            lemma_insert_ref_multiset(d, x);
            let u = insert_ref(d, x);
            assert(insert_ref(t, x) == u.push(t.last()));
            assert(u.push(t.last()).to_multiset() =~= u.to_multiset().insert(t.last()));
            assert(insert_ref(t, x).to_multiset() =~= d.to_multiset().insert(x).insert(t.last()));
        } else {
            assert(insert_ref(t, x) == t.push(x));
            assert(t.push(x).to_multiset() =~= t.to_multiset().insert(x));
        }
    }
}

proof fn lemma_insert_ref_keeps_bound(t: Seq<Seq<char>>, x: Seq<char>, y: Seq<char>)
    requires
        forall|i: int| 0 <= i < t.len() ==> !ref_before(y, #[trigger] t[i]),
        !ref_before(y, x),
    ensures
        forall|i: int| 0 <= i < insert_ref(t, x).len() ==> !ref_before(y, #[trigger] insert_ref(t, x)[i]),
    decreases t.len(),
{
    if t.len() > 0 && ref_before(x, t.last()) {
        let u = insert_ref(t.drop_last(), x);
        assert forall|i: int| 0 <= i < t.drop_last().len() implies !ref_before(y, #[trigger] t.drop_last()[i]) by {
            assert(t.drop_last()[i] == t[i]);
        }
        lemma_insert_ref_keeps_bound(t.drop_last(), x, y);
        assert forall|i: int| 0 <= i < insert_ref(t, x).len() implies !ref_before(y, #[trigger] insert_ref(t, x)[i]) by {
            if i < u.len() {
                assert(insert_ref(t, x)[i] == u[i]);
            } else {
                assert(insert_ref(t, x)[i] == t[t.len() - 1]);
            }
        }
    } else if t.len() > 0 {
        assert forall|i: int| 0 <= i < insert_ref(t, x).len() implies !ref_before(y, #[trigger] insert_ref(t, x)[i]) by {
            if i < t.len() {
                assert(insert_ref(t, x)[i] == t[i]);
            }
        }
    }
}

proof fn lemma_insert_ref_ordered(t: Seq<Seq<char>>, x: Seq<char>)
    requires
        refs_ordered(t),
    ensures
        refs_ordered(insert_ref(t, x)),
    decreases t.len(),
{
    if t.len() > 0 {
        let last = t.last();
        let d = t.drop_last();
        assert(refs_ordered(d)) by {
            assert forall|i: int, j: int| 0 <= i < j < d.len() implies !ref_before(d[j], d[i]) by {
                assert(d[i] == t[i] && d[j] == t[j]);
            }
        }
        if ref_before(x, last) {
            lemma_insert_ref_ordered(d, x);
            lemma_ref_before_asymmetric(x, last);
            assert forall|i: int| 0 <= i < d.len() implies !ref_before(last, #[trigger] d[i]) by {
                assert(d[i] == t[i]);
            }
            lemma_insert_ref_keeps_bound(d, x, last);
            let u = insert_ref(d, x);
            let r = insert_ref(t, x);
            assert(r == u.push(last));
            assert forall|i: int, j: int| 0 <= i < j < r.len() implies !ref_before(r[j], r[i]) by {
                if j < u.len() {
                    assert(r[i] == u[i] && r[j] == u[j]);
                } else {
                    assert(r[j] == last);
                    assert(r[i] == u[i]);
                }
            }
        } else {
            let r = insert_ref(t, x);
            assert(r == t.push(x));
            assert forall|i: int, j: int| 0 <= i < j < r.len() implies !ref_before(r[j], r[i]) by {
                if j < t.len() {
                    assert(r[i] == t[i] && r[j] == t[j]);
                } else if i < t.len() - 1 {
                    assert(r[i] == t[i]);
                    lemma_ref_not_before_transitive(x, last, t[i]);
                }
            }
        }
    }
}

/// The reference list keeps every reference (as many times as given), lists
/// none before an earlier one, and puts `HEAD` first when it is there.
pub proof fn lemma_sorted_refs(s: Seq<Seq<char>>)
    ensures
        sorted_refs(s).to_multiset() == s.to_multiset(),
        refs_ordered(sorted_refs(s)),
        s.contains("HEAD"@) ==> sorted_refs(s).len() > 0 && sorted_refs(s)[0] == "HEAD"@,
    decreases s.len(),
{
    broadcast use vstd::seq_lib::to_multiset_build;
    broadcast use vstd::seq_lib::to_multiset_contains;
    if s.len() > 0 {
        lemma_sorted_refs(s.drop_last());
        lemma_insert_ref_multiset(sorted_refs(s.drop_last()), s.last());
        lemma_insert_ref_ordered(sorted_refs(s.drop_last()), s.last());
        assert(s == s.drop_last().push(s.last()));
        assert(s.to_multiset() =~= s.drop_last().to_multiset().insert(s.last()));
    } else {
        assert(s.to_multiset() =~= vstd::multiset::Multiset::empty());
    }
    let r = sorted_refs(s);
    if s.contains("HEAD"@) {
        assert(s.to_multiset().count("HEAD"@) > 0);
        assert(r.contains("HEAD"@));
        let j = choose|j: int| 0 <= j < r.len() && r[j] == "HEAD"@;
        if r[0] != "HEAD"@ {
            assert(j > 0);
            assert(!ref_before(r[j], r[0]));
        }
    }
}

/// The texts of `s` joined by `sep`.
pub open spec fn join(s: Seq<Seq<char>>, sep: Seq<char>) -> Seq<char>
    decreases s.len(),
{
    if s.len() == 0 {
        Seq::empty()
    } else if s.len() == 1 {
        s[0]
    } else {
        join(s.drop_last(), sep) + sep + s.last()
    }
}

/// The reference list of a commit: in brackets, `HEAD` first, the others
/// by name, separated by a comma and a space.
pub open spec fn refs_text(refs: Seq<String>) -> Seq<char> {
    "("@ + join(sorted_refs(refs.map_values(|r: String| r@)), ", "@) + ")"@
}

fn is_head(a: &Vec<char>) -> (r: bool)
    ensures
        r == (a@ == "HEAD"@),
{
    let h = chars_of("HEAD");
    same_chars(a, &h)
}

fn listed_before(a: &Vec<char>, b: &Vec<char>) -> (r: bool)
    ensures
        r == ref_before(a@, b@),
{
    if is_head(a) {
        !is_head(b)
    } else {
        !is_head(b) && chars_lt(a, b)
    }
}

pub open spec fn views_of(s: Seq<Vec<char>>) -> Seq<Seq<char>> {
    s.map_values(|v: Vec<char>| v@)
}

/// Where `insert_ref` puts `x` in `s`.
fn ref_insertion_point(s: &Vec<Vec<char>>, x: &Vec<char>) -> (p: usize)
    ensures
        p <= s@.len(),
        insert_ref(views_of(s@), x@)
            == views_of(s@).take(p as int).push(x@) + views_of(s@).skip(p as int),
{
    let ghost sv = views_of(s@);
    let mut p: usize = s.len();
    assert(sv.skip(p as int) =~= Seq::<Seq<char>>::empty());
    assert(sv.take(p as int) =~= sv);
    while p > 0 && listed_before(x, &s[p - 1])
        invariant
            p <= s@.len(),
            sv == views_of(s@),
            insert_ref(sv, x@) == insert_ref(sv.take(p as int), x@) + sv.skip(p as int),
        decreases p,
    {
        proof {
            let t = sv.take(p as int);
            assert(t.drop_last() =~= sv.take(p - 1));
            assert(t.last() == sv[p - 1]);
            assert(sv.skip(p - 1) =~= seq![sv[p - 1]] + sv.skip(p as int));
            assert(insert_ref(t, x@) == insert_ref(sv.take(p - 1), x@).push(sv[p - 1]));
            assert(insert_ref(sv.take(p - 1), x@).push(sv[p - 1]) + sv.skip(p as int)
                =~= insert_ref(sv.take(p - 1), x@) + sv.skip(p - 1));
        }
        p = p - 1;
    }
    proof {
        let t = sv.take(p as int);
        if p > 0 {
            assert(t.last() == sv[p - 1]);
        } else {
            assert(t =~= Seq::<Seq<char>>::empty());
        }
    }
    p
}

/// The reference list of a commit, as the history shows it.
pub fn format_refs(refs: &[String]) -> (r: String)
    ensures
        r@ == refs_text(refs@),
{
    let ghost rv = refs@.map_values(|r: String| r@);
    let mut keys: Vec<Vec<char>> = Vec::new();
    let n = refs.len();
    let mut i: usize = 0;
    while i < n
        invariant
            n == refs@.len(),
            i <= n,
            rv == refs@.map_values(|r: String| r@),
            views_of(keys@) == sorted_refs(rv.take(i as int)),
        decreases n - i,
    {
        let x = chars_of(refs[i].as_str());
        let p = ref_insertion_point(&keys, &x);
        let ghost before = keys@;
        keys.insert(p, x);
        proof {
            assert(views_of(keys@) =~= views_of(before).take(p as int).push(x@)
                + views_of(before).skip(p as int));
            let t = rv.take(i + 1);
            assert(t.drop_last() =~= rv.take(i as int));
            assert(t.last() == rv[i as int]);
        }
        i = i + 1;
    }
    assert(rv.take(n as int) =~= rv);
    let ghost kv = views_of(keys@);
    let mut out: Vec<char> = Vec::new();
    push_str(&mut out, "(");
    let ghost open_paren = out@;
    let m = keys.len();
    let mut j: usize = 0;
    while j < m
        invariant
            m == keys@.len(),
            j <= m,
            kv == views_of(keys@),
            out@ == open_paren + join(kv.take(j as int), ", "@),
        decreases m - j,
    {
        proof {
            let t = kv.take(j + 1);
            assert(t.drop_last() =~= kv.take(j as int));
            assert(t.last() == kv[j as int]);
            if j == 0 {
                assert(t =~= seq![kv[0]]);
            }
        }
        if j > 0 {
            push_str(&mut out, ", ");
        }
        push_all(&mut out, &keys[j]);
        j = j + 1;
    }
    assert(kv.take(m as int) =~= kv);
    push_str(&mut out, ")");
    string_of(&out)
}

/// Decimal notation of a signed number, zero-padded after the sign to
/// `width` characters in all.
pub open spec fn signed_padded(v: int, width: nat) -> Seq<char> {
    if v < 0 {
        seq!['-'] + decimal_padded((-v) as nat, (width - 1) as nat)
    } else {
        decimal_padded(v as nat, width)
    }
}

fn push_signed_padded(out: &mut Vec<char>, v: i32, width: usize)
    requires
        width >= 1,
    ensures
        final(out)@ == old(out)@ + signed_padded(v as int, width as nat),
{
    if v < 0 {
        let ghost start = out@;
        out.push('-');
        let a: u64 = (0i64 - (v as i64)) as u64;
        push_decimal_padded(out, a, width - 1);
        assert(out@ =~= start + (seq!['-'] + decimal_padded(a as nat, (width - 1) as nat)));
    } else {
        push_decimal_padded(out, v as u64, width);
    }
}

/// The date of a commit whose UNIX time is `ts`: `YYYY-MM-DD HH:MM` in UTC,
/// and "desconocido" for a time that is not after the epoch.
pub open spec fn timestamp_text(ts: int) -> Seq<char> {
    if ts <= 0 {
        "desconocido"@
    } else {
        let date = date_of_day(ts / 86400);
        let rem = ts % 86400;
        signed_padded((date.0 as i32) as int, 4) + "-"@ + decimal_padded(date.1 as nat, 2) + "-"@
            + decimal_padded(date.2 as nat, 2) + " "@ + decimal_padded((rem / 3600) as nat, 2)
            + ":"@ + decimal_padded(((rem % 3600) / 60) as nat, 2)
    }
}

/// UNIX time to the date text of the history.
pub fn format_timestamp(ts: i64) -> (r: String)
    ensures
        r@ == timestamp_text(ts as int),
{
    if ts <= 0 {
        return string_of(&chars_of("desconocido"));
    }
    let secs: u64 = ts as u64;
    let days: u64 = secs / 86_400;
    let rem: u64 = secs % 86_400;
    let hour: u64 = rem / 3600;
    let min: u64 = (rem % 3600) / 60;
    let (y, mo, d) = days_since_epoch_to_ymd(days);
    let mut out: Vec<char> = Vec::new();
    push_signed_padded(&mut out, y, 4);
    push_str(&mut out, "-");
    push_decimal_padded(&mut out, mo as u64, 2);
    push_str(&mut out, "-");
    push_decimal_padded(&mut out, d as u64, 2);
    push_str(&mut out, " ");
    push_decimal_padded(&mut out, hour, 2);
    push_str(&mut out, ":");
    push_decimal_padded(&mut out, min, 2);
    string_of(&out)
}

/// The non-zero change counts of a commit as `+added`, `-removed` and
/// `~modified`, in that order.
pub open spec fn count_parts(added: nat, removed: nat, modified: nat) -> Seq<Seq<char>> {
    (if added > 0 { seq!["+"@ + decimal(added)] } else { Seq::empty() })
        + (if removed > 0 { seq!["-"@ + decimal(removed)] } else { Seq::empty() })
        + (if modified > 0 { seq!["~"@ + decimal(modified)] } else { Seq::empty() })
}

/// The summary line under a commit of a file's history: the non-zero counts
/// separated by two spaces; none when nothing changed.
pub fn counts_line(added: usize, removed: usize, modified: usize) -> (r: Option<String>)
    ensures
        match r {
            None => added == 0 && removed == 0 && modified == 0,
            Some(s) => s@ == "           "@ + join(count_parts(added as nat, removed as nat, modified as nat), "  "@),
        },
{
    let ghost parts = count_parts(added as nat, removed as nat, modified as nat);
    if added == 0 && removed == 0 && modified == 0 {
        return None;
    }
    let mut out: Vec<char> = Vec::new();
    push_str(&mut out, "           ");
    let ghost lead = out@;
    let mut any = false;
    let ghost mut done: Seq<Seq<char>> = Seq::empty();
    if added > 0 {
        push_str(&mut out, "+");
        push_decimal(&mut out, added as u64);
        any = true;
        proof {
            done = seq!["+"@ + decimal(added as nat)];
            assert(join(done, "  "@) == done[0]);
            assert(out@ =~= lead + join(done, "  "@));
        }
    }
    assert(out@ == lead + join(done, "  "@));
    if removed > 0 {
        let ghost prev = done;
        if any {
            push_str(&mut out, "  ");
        }
        push_str(&mut out, "-");
        push_decimal(&mut out, removed as u64);
        any = true;
        proof {
            done = prev.push("-"@ + decimal(removed as nat));
            assert(done.drop_last() =~= prev);
            if prev.len() == 0 {
                assert(join(done, "  "@) == done[0]);
            }
            assert(out@ =~= lead + join(done, "  "@));
        }
    }
    if modified > 0 {
        let ghost prev = done;
        if any {
            push_str(&mut out, "  ");
        }
        push_str(&mut out, "~");
        push_decimal(&mut out, modified as u64);
        proof {
            done = prev.push("~"@ + decimal(modified as nat));
            assert(done.drop_last() =~= prev);
            if prev.len() == 0 {
                assert(join(done, "  "@) == done[0]);
            }
            assert(out@ =~= lead + join(done, "  "@));
        }
    }
    assert(done =~= parts);
    Some(string_of(&out))
}

} // verus!
