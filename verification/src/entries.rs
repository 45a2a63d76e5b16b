//! Directory-listing entries and their ordering.
//!
//! A listing entry is a snapshot of one file or one subdirectory: its path
//! string, the final path component as its name, and (for files) the name's
//! extension. Folder listings are sorted by name, ascending in the order of
//! the characters' code points, which is how the host orders its strings.

use vstd::prelude::*;
use vstd::string::StrSliceExecFns;
use crate::paths::extension_of;
use crate::paths::extension_part;
use crate::paths::file_name_of;
use crate::paths::file_name_part;

verus! {

/// One file seen in a directory listing.
pub struct FileEntry {
    pub path: String,
    pub name: String,
    pub extension: String,
}

/// One subdirectory seen in a directory listing.
pub struct FolderEntry {
    pub path: String,
    pub name: String,
}

impl Clone for FileEntry {
    fn clone(&self) -> (r: Self)
        ensures
            r == *self,
    {
        FileEntry { path: self.path.clone(), name: self.name.clone(), extension: self.extension.clone() }
    }
}

impl Clone for FolderEntry {
    fn clone(&self) -> (r: Self)
        ensures
            r == *self,
    {
        FolderEntry { path: self.path.clone(), name: self.name.clone() }
    }
}

/// The file entry for one path string: the path itself, its final component
/// as the name, and the name's extension.
pub fn file_entry_for(path: String) -> (e: FileEntry)
    ensures
        e.path@ == path@,
        e.name@ == file_name_of(path@),
        e.extension@ == extension_of(file_name_of(path@)),
{
    let name = file_name_part(path.as_str());
    let extension = extension_part(name.as_str());
    FileEntry { path, name, extension }
}

/// The folder entry for one path string: the path itself and its final
/// component as the name.
pub fn folder_entry_for(path: String) -> (e: FolderEntry)
    ensures
        e.path@ == path@,
        e.name@ == file_name_of(path@),
{
    let name = file_name_part(path.as_str());
    FolderEntry { path, name }
}

/// Lexicographic order on strings by character code points: the order the
/// host gives its strings.
pub open spec fn lex_le(a: Seq<char>, b: Seq<char>) -> bool
    decreases a.len(),
{
    if a.len() == 0 {
        true
    } else if b.len() == 0 {
        false
    } else if (a[0] as u32) < (b[0] as u32) {
        true
    } else if (b[0] as u32) < (a[0] as u32) {
        false
    } else {
        lex_le(a.subrange(1, a.len() as int), b.subrange(1, b.len() as int))
    }
}

/// The order is total: of any two strings, one is less than or equal to the
/// other.
pub proof fn lemma_lex_total(a: Seq<char>, b: Seq<char>)
    ensures
        lex_le(a, b) || lex_le(b, a),
    decreases a.len(),
{
    if a.len() > 0 && b.len() > 0 && (a[0] as u32) == (b[0] as u32) {
        lemma_lex_total(a.subrange(1, a.len() as int), b.subrange(1, b.len() as int));
    }
}

/// The order is transitive.
pub proof fn lemma_lex_trans(a: Seq<char>, b: Seq<char>, c: Seq<char>)
    requires
        lex_le(a, b),
        lex_le(b, c),
    ensures
        lex_le(a, c),
    decreases a.len(),
{
    if a.len() > 0 && b.len() > 0 && c.len() > 0 && (a[0] as u32) == (b[0] as u32) && (b[0] as u32)
        == (c[0] as u32) {
        lemma_lex_trans(
            a.subrange(1, a.len() as int),
            b.subrange(1, b.len() as int),
            c.subrange(1, c.len() as int),
        );
    }
}

/// Skipping a common prefix does not change the order.
proof fn lemma_lex_skip(a: Seq<char>, b: Seq<char>, i: int)
    requires
        0 <= i <= a.len(),
        i <= b.len(),
        forall|j: int| 0 <= j < i ==> (a[j] as u32) == ((#[trigger] b[j]) as u32),
    ensures
        lex_le(a, b) == lex_le(a.subrange(i, a.len() as int), b.subrange(i, b.len() as int)),
    decreases i,
{
    if i > 0 {
        let ta = a.subrange(1, a.len() as int);
        let tb = b.subrange(1, b.len() as int);
        assert forall|j: int| 0 <= j < i - 1 implies (ta[j] as u32) == ((#[trigger] tb[j]) as u32) by {
            assert(ta[j] == a[j + 1]);
            assert(tb[j] == b[j + 1]);
            assert((a[j + 1] as u32) == (b[j + 1] as u32));
        }
        lemma_lex_skip(ta, tb, i - 1);
        assert(ta.subrange(i - 1, ta.len() as int) =~= a.subrange(i, a.len() as int));
        assert(tb.subrange(i - 1, tb.len() as int) =~= b.subrange(i, b.len() as int));
        assert((a[0] as u32) == (b[0] as u32));
        assert(lex_le(a, b) == lex_le(ta, tb));
    } else {
        assert(a.subrange(0, a.len() as int) =~= a);
        assert(b.subrange(0, b.len() as int) =~= b);
    }
}

/// Whether `a` comes before `b` (or equals it) in the host's string order.
pub fn str_le(a: &str, b: &str) -> (r: bool)
    ensures
        r == lex_le(a@, b@),
{
    let na = a.unicode_len();
    let nb = b.unicode_len();
    let mut i: usize = 0;
    while i < na && i < nb
        invariant
            i <= na,
            i <= nb,
            na == a@.len(),
            nb == b@.len(),
            forall|j: int| 0 <= j < i ==> (a@[j] as u32) == ((#[trigger] b@[j]) as u32),
        decreases na - i,
    {
        let ca = a.get_char(i);
        let cb = b.get_char(i);
        if (ca as u32) < (cb as u32) {
            proof {
                lemma_lex_skip(a@, b@, i as int);
                assert(a@.subrange(i as int, na as int)[0] == a@[i as int]);
                assert(b@.subrange(i as int, nb as int)[0] == b@[i as int]);
            }
            return true;
        }
        if (cb as u32) < (ca as u32) {
            proof {
                lemma_lex_skip(a@, b@, i as int);
                assert(a@.subrange(i as int, na as int)[0] == a@[i as int]);
                assert(b@.subrange(i as int, nb as int)[0] == b@[i as int]);
            }
            return false;
        }
        i = i + 1;
    }
    proof {
        lemma_lex_skip(a@, b@, i as int);
    }
    na <= nb
}

/// A folder listing sorted by name, ascending.
pub open spec fn names_sorted(s: Seq<FolderEntry>) -> bool {
    forall|i: int, j: int| 0 <= i < j < s.len() ==> lex_le(#[trigger] s[i].name@, #[trigger] s[j].name@)
}

/// Sort a folder listing by name, ascending. The result holds exactly the
/// entries that came in.
pub fn sort_folder_entries(entries: &Vec<FolderEntry>) -> (r: Vec<FolderEntry>)
    ensures
        names_sorted(r@),
        r@.to_multiset() == entries@.to_multiset(),
{
    broadcast use vstd::seq_lib::group_to_multiset_ensures;
    broadcast use vstd::multiset::group_multiset_axioms;

    let mut out: Vec<FolderEntry> = Vec::new();
    let n = entries.len();
    let mut i: usize = 0;
    while i < n
        invariant
            i <= n,
            n == entries@.len(),
            names_sorted(out@),
            out@.to_multiset() == entries@.subrange(0, i as int).to_multiset(),
        decreases n - i,
    {
        let e = entries[i].clone();
        let ghost ev = e;
        let m = out.len();
        let mut p: usize = 0;
        while p < m && str_le(out[p].name.as_str(), e.name.as_str())
            invariant
                p <= m,
                m == out@.len(),
                names_sorted(out@),
                forall|q: int| 0 <= q < p ==> lex_le(#[trigger] out@[q].name@, ev.name@),
                ev == e,
            decreases m - p,
        {
            p = p + 1;
        }
        proof {
            if p < m {
                assert(!lex_le(out@[p as int].name@, ev.name@));
                lemma_lex_total(out@[p as int].name@, ev.name@);
                assert forall|q: int| (p as int) <= q < m implies lex_le(
                    ev.name@,
                    out@[q].name@,
                ) by {
                    if q > p as int {
                        assert(lex_le(out@[p as int].name@, out@[q].name@));
                        lemma_lex_trans(ev.name@, out@[p as int].name@, out@[q].name@);
                    }
                }
            }
        }
        let ghost old_out = out@;
        out.insert(p, e);
        proof {
            assert(out@ == old_out.insert(p as int, ev));
            vstd::seq_lib::to_multiset_insert(old_out, p as int, ev);
            vstd::seq_lib::to_multiset_build(entries@.subrange(0, i as int), entries@[i as int]);
            vstd::multiset::axiom_multiset_ext_equal(
                entries@.subrange(0, i as int).push(entries@[i as int]).to_multiset(),
                entries@.subrange(0, i as int).to_multiset().insert(entries@[i as int]),
            );
            assert(entries@.subrange(0, i + 1) =~= entries@.subrange(0, i as int).push(
                entries@[i as int],
            ));
            assert forall|a: int, b: int| 0 <= a < b < out@.len() implies lex_le(
                #[trigger] out@[a].name@,
                #[trigger] out@[b].name@,
            ) by {
                old_out.insert_ensures(p as int, ev);
                if b < p {
                } else if a == p as int {
                    assert(out@[b] == old_out[b - 1]);
                } else if b == p as int {
                    assert(out@[a] == old_out[a]);
                } else if a < p {
                    assert(out@[a] == old_out[a]);
                    if b > p {
                        assert(out@[b] == old_out[b - 1]);
                    }
                } else {
                    assert(out@[a] == old_out[a - 1]);
                    assert(out@[b] == old_out[b - 1]);
                }
            }
        }
        i = i + 1;
    }
    proof {
        assert(entries@.subrange(0, n as int) =~= entries@);
    }
    out
}

} // verus!
