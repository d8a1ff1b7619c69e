//! Names shown by the viewers: library prefixes of cell names, renamed
//! components, abbreviated commit ids and first lines of messages.

use vstd::prelude::*;
use crate::text::{chars_of, matches_at, occurs_at, string_of};

verus! {

/// `i` is the last position where `p` occurs in `s`.
pub open spec fn is_last_occurrence(s: Seq<char>, p: Seq<char>, i: int) -> bool {
    occurs_at(s, p, i) && forall|j: int| i < j ==> !occurs_at(s, p, j)
}

/// `i` is the first position where `p` occurs in `s`.
pub open spec fn is_first_occurrence(s: Seq<char>, p: Seq<char>, i: int) -> bool {
    occurs_at(s, p, i) && forall|j: int| j < i ==> !occurs_at(s, p, j)
}

/// The distinctive part and the library prefix of a cell name:
/// `sky130_fd_sc_hd__inv_1` gives (`inv_1`, `sky130_fd_sc_hd`), split at the
/// last `__`; without a non-empty part on each side the whole name is distinctive.
pub open spec fn split_name_spec(s: Seq<char>) -> (Seq<char>, Option<Seq<char>>) {
    let sep = seq!['_', '_'];
    if exists|i: int| is_last_occurrence(s, sep, i) {
        let i = choose|i: int| is_last_occurrence(s, sep, i);
        if i > 0 && i + 2 < s.len() {
            (s.subrange(i + 2, s.len() as int), Some(s.subrange(0, i)))
        } else {
            (s, None)
        }
    } else {
        (s, None)
    }
}

pub(crate) fn sub_string(v: &Vec<char>, from: usize, to: usize) -> (s: String)
    requires
        from <= to <= v@.len(),
    ensures
        s@ == v@.subrange(from as int, to as int),
{
    let mut out: Vec<char> = Vec::new();
    let mut i: usize = from;
    while i < to
        invariant
            from <= i <= to,
            to <= v@.len(),
            out@ =~= v@.subrange(from as int, i as int),
        decreases to - i,
    {
        out.push(v[i]);
        i = i + 1;
    }
    string_of(&out)
}

/// Last position where `p` occurs in `s`, if any.
pub fn rfind(s: &Vec<char>, p: &Vec<char>) -> (r: Option<usize>)
    ensures
        match r {
            Some(i) => is_last_occurrence(s@, p@, i as int),
            None => forall|j: int| !occurs_at(s@, p@, j),
        },
{
    if p.len() > s.len() {
        return None;
    }
    let mut i: usize = s.len() - p.len();
    loop
        invariant
            i + p@.len() <= s@.len(),
            forall|j: int| i < j ==> !occurs_at(s@, p@, j),
        decreases i,
    {
        if matches_at(s, p, i) {
            return Some(i);
        }
        if i == 0 {
            assert forall|j: int| !occurs_at(s@, p@, j) by {
                if j == 0 {
                }
            }
            return None;
        }
        i = i - 1;
    }
}

/// First position where `p` occurs in `s`, if any.
pub fn find(s: &Vec<char>, p: &Vec<char>) -> (r: Option<usize>)
    ensures
        match r {
            Some(i) => is_first_occurrence(s@, p@, i as int),
            None => forall|j: int| !occurs_at(s@, p@, j),
        },
{
    if p.len() > s.len() {
        return None;
    }
    let last = s.len() - p.len();
    let mut i: usize = 0;
    while i <= last
        invariant
            last + p@.len() == s@.len(),
            forall|j: int| j < i ==> !occurs_at(s@, p@, j),
        decreases last + 1 - i,
    {
        if matches_at(s, p, i) {
            return Some(i);
        }
        if i == last {
            assert forall|j: int| !occurs_at(s@, p@, j) by {
                if j == last {
                }
            }
            return None;
        }
        i = i + 1;
    }
    None
}

/// Splits a cell name into its distinctive part and its library prefix.
pub fn split_name(id: &str) -> (r: (String, Option<String>))
    ensures
        r.0@ == split_name_spec(id@).0,
        r.1 is Some <==> split_name_spec(id@).1 is Some,
        r.1 matches Some(l) ==> l@ == split_name_spec(id@).1->0,
{
    let s = chars_of(id);
    let mut sep: Vec<char> = Vec::new();
    sep.push('_');
    sep.push('_');
    assert(sep@ =~= seq!['_', '_']);
    match rfind(&s, &sep) {
        Some(i) => {
            proof {
                let c = choose|k: int| is_last_occurrence(s@, sep@, k);
                assert(c == i as int) by {
                    if c < i {
                        assert(!occurs_at(s@, sep@, i as int));
                    } else if c > i {
                        assert(!occurs_at(s@, sep@, c));
                    }
                }
            }
            let n = s.len();
            assert(i + 2 <= n);
            if i > 0 && i + 2 < n {
                (sub_string(&s, i + 2, s.len()), Some(sub_string(&s, 0, i)))
            } else {
                (string_of(&s), None)
            }
        },
        None => (string_of(&s), None),
    }
}

/// The two names of a renamed component, `old → new`, split at the first
/// arrow; a name without arrow is both.
pub open spec fn rename_sides_spec(s: Seq<char>) -> (Seq<char>, Seq<char>) {
    let arrow = seq![' ', '→', ' '];
    if exists|i: int| is_first_occurrence(s, arrow, i) {
        let i = choose|i: int| is_first_occurrence(s, arrow, i);
        (s.subrange(0, i), s.subrange(i + 3, s.len() as int))
    } else {
        (s, s)
    }
}

pub fn rename_sides(name: &str) -> (r: (String, String))
    ensures
        r.0@ == rename_sides_spec(name@).0,
        r.1@ == rename_sides_spec(name@).1,
{
    let s = chars_of(name);
    let mut arrow: Vec<char> = Vec::new();
    arrow.push(' ');
    arrow.push('→');
    arrow.push(' ');
    assert(arrow@ =~= seq![' ', '→', ' ']);
    match find(&s, &arrow) {
        Some(i) => {
            proof {
                let c = choose|k: int| is_first_occurrence(s@, arrow@, k);
                assert(c == i as int) by {
                    if c < i {
                        assert(!occurs_at(s@, arrow@, c));
                    } else if c > i {
                        assert(!occurs_at(s@, arrow@, i as int));
                    }
                }
            }
            let n = s.len();
            assert(i + 3 <= n);
            (sub_string(&s, 0, i), sub_string(&s, i + 3, n))
        },
        None => (string_of(&s), string_of(&s)),
    }
}

/// A commit id abbreviated to its first seven characters.
pub fn short_hash(s: &str) -> (r: String)
    ensures
        r@ == s@.take(if s@.len() < 7 { s@.len() as int } else { 7 }),
{
    let v = chars_of(s);
    let n = if v.len() < 7 { v.len() } else { 7 };
    sub_string(&v, 0, n)
}

/// First line of a text: up to the first line feed, without the carriage
/// return of a `\r\n` ending (`str::lines`); empty for an empty text.
pub open spec fn first_line_spec(s: Seq<char>) -> Seq<char> {
    if exists|k: int| 0 <= k < s.len() && s[k] == '\n' {
        let k = choose|k: int| 0 <= k < s.len() && s[k] == '\n' && forall|j: int| 0 <= j < k ==> s[j] != '\n';
        if k > 0 && s[k - 1] == '\r' {
            s.subrange(0, k - 1)
        } else {
            s.subrange(0, k)
        }
    } else {
        s
    }
}

pub fn first_line(msg: &str) -> (r: String)
    ensures
        r@ == first_line_spec(msg@),
{
    let s = chars_of(msg);
    let n = s.len();
    let mut k: usize = 0;
    while k < n && s[k] != '\n'
        invariant
            n == s@.len(),
            k <= n,
            forall|j: int| 0 <= j < k ==> s@[j] != '\n',
        decreases n - k,
    {
        k = k + 1;
    }
    if k == n {
        return string_of(&s);
    }
    proof {
        let c = choose|c: int| 0 <= c < s@.len() && s@[c] == '\n' && forall|j: int| 0 <= j < c ==> s@[j] != '\n';
        assert(c == k as int) by {
            if c < k {
            } else if c > k {
                assert(s@[k as int] == '\n');
            }
        }
    }
    if k > 0 && s[k - 1] == '\r' {
        sub_string(&s, 0, k - 1)
    } else {
        sub_string(&s, 0, k)
    }
}

} // verus!
