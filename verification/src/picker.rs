//! The cell picker of the viewer: filtering a library's cells by name.

use vstd::prelude::*;
use crate::names::sub_string;
use crate::text::{chars_of, contains, has_infix};

verus! {

/// Unicode White_Space (`char::is_whitespace`): tab to carriage return,
/// space, next line, no-break space, ogham space mark, the spaces from en
/// quad to hair space, line and paragraph separators, narrow no-break space,
/// medium mathematical space and ideographic space.
pub open spec fn is_white_space(c: char) -> bool {
    let u = c as u32;
    (0x09 <= u && u <= 0x0d) || u == 0x20 || u == 0x85 || u == 0xa0 || u == 0x1680
        || (0x2000 <= u && u <= 0x200a) || u == 0x2028 || u == 0x2029 || u == 0x202f
        || u == 0x205f || u == 0x3000
}

/// `s` without its leading white space.
pub open spec fn trim_start(s: Seq<char>) -> Seq<char>
    decreases s.len(),
{
    if s.len() > 0 && is_white_space(s[0]) {
        trim_start(s.drop_first())
    } else {
        s
    }
}

/// `s` without its trailing white space.
pub open spec fn trim_end(s: Seq<char>) -> Seq<char>
    decreases s.len(),
{
    if s.len() > 0 && is_white_space(s.last()) {
        trim_end(s.drop_last())
    } else {
        s
    }
}

/// Characters of `s` without leading and trailing white space (`str::trim`).
pub open spec fn trimmed(s: Seq<char>) -> Seq<char> {
    trim_end(trim_start(s))
}

fn white_space(c: char) -> (r: bool)
    ensures
        r == is_white_space(c),
{
    let u = c as u32;
    (0x09 <= u && u <= 0x0d) || u == 0x20 || u == 0x85 || u == 0xa0 || u == 0x1680
        || (0x2000 <= u && u <= 0x200a) || u == 0x2028 || u == 0x2029 || u == 0x202f
        || u == 0x205f || u == 0x3000
}

/// Unicode lower-case form of `s` (`str::to_lowercase`).
pub uninterp spec fn lowercased(s: Seq<char>) -> Seq<char>;

/// The string without leading and trailing white space, as `str::trim`
/// gives it.
pub(crate) fn trim_text(s: &str) -> (r: String)
    ensures
        r@ == trimmed(s@),
{
    let v = chars_of(s);
    let n = v.len();
    let mut i: usize = 0;
    assert(v@.skip(0) =~= v@);
    while i < n && white_space(v[i])
        invariant
            n == v@.len(),
            i <= n,
            trim_start(v@) == trim_start(v@.skip(i as int)),
        decreases n - i,
    {
        assert(v@.skip(i as int).drop_first() =~= v@.skip(i + 1));
        i = i + 1;
    }
    assert(trim_start(v@.skip(i as int)) == v@.skip(i as int));
    let mut j: usize = n;
    while j > i && white_space(v[j - 1])
        invariant
            n == v@.len(),
            i <= j <= n,
            trim_end(v@.subrange(i as int, n as int)) == trim_end(v@.subrange(i as int, j as int)),
        decreases j - i,
    {
        assert(v@.subrange(i as int, j as int).drop_last() =~= v@.subrange(i as int, j - 1));
        j = j - 1;
    }
    assert(v@.skip(i as int) =~= v@.subrange(i as int, n as int));
    assert(trim_end(v@.subrange(i as int, j as int)) == v@.subrange(i as int, j as int));
    sub_string(&v, i, j)
}

/// `str::to_lowercase`: the Unicode lower-case form of the string.
#[verifier::external_body]
fn lowercase_text(s: &str) -> (r: String)
    ensures
        r@ == lowercased(s@),
{
    s.to_lowercase()
}

/// A view (a cell) of a file, as the picker lists it.
#[derive(Clone, Debug, PartialEq, Eq)]
pub struct ViewEntry {
    pub id: String,
    /// The cell is a top cell: no other cell instantiates it.
    pub is_root: bool,
}

/// An entry passes the filter: a root if only roots are wanted, and its
/// lower-cased name contains the (trimmed, lower-cased) query.
pub open spec fn entry_passes(e: ViewEntry, q: Seq<char>, only_roots: bool) -> bool {
    (!only_roots || e.is_root) && (q.len() == 0 || has_infix(lowercased(e.id@), q))
}

/// Positions among the first `n` entries that pass the filter, in order.
pub open spec fn passing(entries: Seq<ViewEntry>, q: Seq<char>, only_roots: bool, n: int) -> Seq<usize>
    decreases n,
{
    if n <= 0 {
        Seq::empty()
    } else {
        let prev = passing(entries, q, only_roots, n - 1);
        if entry_passes(entries[n - 1], q, only_roots) {
            prev.push((n - 1) as usize)
        } else {
            prev
        }
    }
}

/// The filter keeps exactly the positions of the entries that pass, each
/// once, in increasing order.
pub proof fn lemma_passing_positions(entries: Seq<ViewEntry>, q: Seq<char>, only_roots: bool, n: int)
    requires
        0 <= n <= entries.len(),
        entries.len() <= usize::MAX,
    ensures
        forall|i: int, j: int| 0 <= i < j < passing(entries, q, only_roots, n).len() ==>
            passing(entries, q, only_roots, n)[i] < passing(entries, q, only_roots, n)[j],
        forall|i: int| 0 <= i < passing(entries, q, only_roots, n).len() ==> {
            let k = #[trigger] passing(entries, q, only_roots, n)[i];
            k < n && entry_passes(entries[k as int], q, only_roots)
        },
        forall|k: int| 0 <= k < n && entry_passes(entries[k], q, only_roots) ==>
            passing(entries, q, only_roots, n).contains(k as usize),
    decreases n,
{
    if n > 0 {
        lemma_passing_positions(entries, q, only_roots, n - 1);
        let prev = passing(entries, q, only_roots, n - 1);
        let cur = passing(entries, q, only_roots, n);
        if entry_passes(entries[n - 1], q, only_roots) {
            assert(cur == prev.push((n - 1) as usize));
            assert forall|k: int| 0 <= k < n && entry_passes(entries[k], q, only_roots) implies
                cur.contains(k as usize) by {
                if k < n - 1 {
                    let w = choose|w: int| 0 <= w < prev.len() && prev[w] == k as usize;
                    assert(cur[w] == prev[w]);
                } else {
                    assert(cur[prev.len() as int] == (n - 1) as usize);
                }
            }
            assert forall|i: int, j: int| 0 <= i < j < cur.len() implies cur[i] < cur[j] by {
                if j < prev.len() {
                    assert(cur[i] == prev[i] && cur[j] == prev[j]);
                } else {
                    assert(cur[i] == prev[i]);
                }
            }
            assert forall|i: int| 0 <= i < cur.len() implies {
                let k = #[trigger] cur[i];
                k < n && entry_passes(entries[k as int], q, only_roots)
            } by {
                if i < prev.len() {
                    assert(cur[i] == prev[i]);
                }
            }
        }
    }
}

/// Positions of the entries that pass the filter, in the order given.
/// The search is a case-insensitive substring search.
pub fn filter_entries(entries: &[ViewEntry], query: &str, only_roots: bool) -> (r: Vec<usize>)
    ensures
        r@ == passing(entries@, lowercased(trimmed(query@)), only_roots, entries@.len() as int),
{
    let t = trim_text(query);
    let ql = lowercase_text(t.as_str());
    let q = chars_of(ql.as_str());
    let mut r: Vec<usize> = Vec::new();
    let n = entries.len();
    let mut i: usize = 0;
    while i < n
        invariant
            n == entries@.len(),
            i <= n,
            q@ == lowercased(trimmed(query@)),
            r@ == passing(entries@, q@, only_roots, i as int),
        decreases n - i,
    {
        let e = &entries[i];
        let mut pass = !only_roots || e.is_root;
        if pass && q.len() > 0 {
            let id = lowercase_text(e.id.as_str());
            pass = contains(&chars_of(id.as_str()), &q);
        }
        if pass {
            r.push(i);
        }
        i = i + 1;
    }
    r
}

/// The filter that the caller keeps between frames: the query text and
/// whether only top cells are listed.
pub struct PickerState<'a> {
    pub query: &'a mut String,
    pub only_roots: &'a mut bool,
}

impl<'a> PickerState<'a> {
    /// Positions of the entries that the picker shows under this filter.
    pub fn visible(&self, entries: &[ViewEntry]) -> (r: Vec<usize>)
        ensures
            r@ == passing(entries@, lowercased(trimmed(old(self.query)@)), *old(self.only_roots),
                entries@.len() as int),
    {
        filter_entries(entries, self.query.as_str(), *self.only_roots)
    }
}

} // verus!
