//! A plain string model of host paths.
//!
//! Paths are treated as sequences of characters separated by `/`, with no
//! normalization (no symlink resolution, no case folding). The model gives
//! the parent of a path, the final path component and its extension, a
//! component-wise containment relation, and the checks for suspicious
//! destination strings (a parent-reference token or a backslash).

use vstd::prelude::*;
use vstd::string::StrSliceExecFns;
use vstd::string::StringExecFns;

verus! {

/// A parent-reference token somewhere in the string: two dots in a row.
pub open spec fn contains_dotdot(s: Seq<char>) -> bool {
    exists|i: int| 0 <= i && i + 1 < s.len() && #[trigger] s[i] == '.' && s[i + 1] == '.'
}

/// A backslash anywhere in the string (mixed-separator traversal defence).
pub open spec fn contains_backslash(s: Seq<char>) -> bool {
    exists|i: int| 0 <= i < s.len() && #[trigger] s[i] == '\\'
}

/// A destination string is refused when it holds a parent-reference token
/// or a backslash.
pub open spec fn has_invalid_components(s: Seq<char>) -> bool {
    contains_dotdot(s) || contains_backslash(s)
}

/// Whether the destination string `to` holds a parent-reference token or a
/// backslash.
pub fn check_invalid_components(to: &str) -> (r: bool)
    ensures
        r == has_invalid_components(to@),
{
    let n = to.unicode_len();
    let mut i: usize = 0;
    while i < n
        invariant
            i <= n,
            n == to@.len(),
            forall|j: int| 0 <= j < i ==> #[trigger] to@[j] != '\\',
            forall|j: int| 0 <= j < i && j + 1 < n ==> !(#[trigger] to@[j] == '.' && to@[j + 1]
                == '.'),
        decreases n - i,
    {
        let c = to.get_char(i);
        if c == '\\' {
            return true;
        }
        if c == '.' && i + 1 < n {
            if to.get_char(i + 1) == '.' {
                return true;
            }
        }
        i = i + 1;
    }
    false
}

/// The index of the last occurrence of `c` in `s`, if any.
pub open spec fn last_index_of(s: Seq<char>, c: char) -> Option<int>
    decreases s.len(),
{
    if s.len() == 0 {
        None
    } else if s[s.len() - 1] == c {
        Some(s.len() - 1)
    } else {
        last_index_of(s.subrange(0, s.len() - 1), c)
    }
}

/// `last_index_of` finds exactly the last occurrence: a position holding `c`
/// with nothing but other characters after it.
pub proof fn lemma_last_index_of_at(s: Seq<char>, c: char, k: int)
    requires
        0 <= k < s.len(),
        s[k] == c,
        forall|j: int| k < j < s.len() ==> s[j] != c,
    ensures
        last_index_of(s, c) == Some(k),
    decreases s.len(),
{
    if k == s.len() - 1 {
    } else {
        let p = s.subrange(0, s.len() - 1);
        assert(forall|j: int| k < j < p.len() ==> p[j] != c);
        lemma_last_index_of_at(p, c, k);
    }
}

/// When `c` occurs nowhere in `s`, `last_index_of` finds nothing.
pub proof fn lemma_last_index_of_none(s: Seq<char>, c: char)
    requires
        forall|j: int| 0 <= j < s.len() ==> s[j] != c,
    ensures
        last_index_of(s, c) is None,
    decreases s.len(),
{
    if s.len() > 0 {
        let p = s.subrange(0, s.len() - 1);
        lemma_last_index_of_none(p, c);
    }
}

/// The index of the last occurrence of `c` in `s`, scanning from the end.
pub fn find_last(s: &str, c: char) -> (r: Option<usize>)
    ensures
        match r {
            Some(k) => k < s@.len() && s@[k as int] == c && last_index_of(s@, c) == Some(k as int),
            None => last_index_of(s@, c) is None,
        },
{
    let n = s.unicode_len();
    let mut i: usize = n;
    while i > 0
        invariant
            i <= n,
            n == s@.len(),
            forall|j: int| i <= j < n ==> #[trigger] s@[j] != c,
        decreases i,
    {
        if s.get_char(i - 1) == c {
            proof {
                lemma_last_index_of_at(s@, c, i - 1);
            }
            return Some(i - 1);
        }
        i = i - 1;
    }
    proof {
        lemma_last_index_of_none(s@, c);
    }
    None
}

/// The parent directory of a path string: the prefix before the final `/`,
/// the root `/` alone for a direct child of the root, and nothing for the
/// root itself or for a string without a separator.
pub open spec fn parent_view(s: Seq<char>) -> Option<Seq<char>> {
    match last_index_of(s, '/') {
        None => None,
        Some(k) => if k == 0 {
            if s.len() == 1 {
                None
            } else {
                Some(seq!['/'])
            }
        } else {
            Some(s.subrange(0, k))
        },
    }
}

/// The parent directory of `s`, as `parent_view` gives it.
pub fn parent_of(s: &str) -> (r: Option<String>)
    ensures
        match r {
            Some(p) => parent_view(s@) == Some(p@),
            None => parent_view(s@) is None,
        },
{
    match find_last(s, '/') {
        None => None,
        Some(k) => {
            if k == 0 {
                if s.unicode_len() == 1 {
                    None
                } else {
                    let root = String::from_str("/");
                    proof {
                        reveal_strlit("/");
                        assert(root@ =~= seq!['/']);
                    }
                    Some(root)
                }
            } else {
                Some(s.substring_char(0, k).to_owned())
            }
        },
    }
}

/// Character-for-character string equality.
pub fn str_eq(a: &str, b: &str) -> (r: bool)
    ensures
        r == (a@ == b@),
{
    let na = a.unicode_len();
    let nb = b.unicode_len();
    if na != nb {
        return false;
    }
    let mut i: usize = 0;
    while i < na
        invariant
            i <= na,
            na == a@.len(),
            na == b@.len(),
            forall|j: int| 0 <= j < i ==> a@[j] == #[trigger] b@[j],
        decreases na - i,
    {
        if a.get_char(i) != b.get_char(i) {
            return false;
        }
        i = i + 1;
    }
    proof {
        assert(a@ =~= b@);
    }
    true
}

/// Component-wise containment: `child` names the same directory as `base`,
/// or one nested somewhere below it. A strict prefix only counts when it
/// breaks at a separator, so `/a/bc` is not within `/a/b`.
pub open spec fn is_within(child: Seq<char>, base: Seq<char>) -> bool {
    child == base || (base.len() < child.len() && child.subrange(0, base.len() as int) == base && (
    (base.len() > 0 && base[base.len() - 1] == '/') || child[base.len() as int] == '/'))
}

/// Whether the directory `child` lies within the directory tree rooted at
/// `base`, as `is_within` gives it.
pub fn within(child: &str, base: &str) -> (r: bool)
    ensures
        r == is_within(child@, base@),
{
    if str_eq(child, base) {
        return true;
    }
    let nb = base.unicode_len();
    let nc = child.unicode_len();
    if nb >= nc {
        return false;
    }
    let mut i: usize = 0;
    while i < nb
        invariant
            i <= nb,
            nb == base@.len(),
            nc == child@.len(),
            nb < nc,
            forall|j: int| 0 <= j < i ==> child@[j] == #[trigger] base@[j],
        decreases nb - i,
    {
        if child.get_char(i) != base.get_char(i) {
            proof {
                assert(child@.subrange(0, nb as int)[i as int] == child@[i as int]);
            }
            return false;
        }
        i = i + 1;
    }
    proof {
        assert(child@.subrange(0, nb as int) =~= base@);
    }
    if nb > 0 && base.get_char(nb - 1) == '/' {
        return true;
    }
    child.get_char(nb) == '/'
}

/// Whether renaming `from` to `to` would leave the directory tree rooted at
/// the source's own parent directory. When either path has no parent under
/// `parent_view`, the check does not apply and nothing escapes.
pub open spec fn escapes_source_tree(from: Seq<char>, to: Seq<char>) -> bool {
    match parent_view(from) {
        None => false,
        Some(base) => match parent_view(to) {
            None => false,
            Some(tp) => !is_within(tp, base),
        },
    }
}

/// Whether the destination `to` escapes the tree rooted at the parent
/// directory of `from`.
pub fn check_escapes_source_tree(from: &str, to: &str) -> (r: bool)
    ensures
        r == escapes_source_tree(from@, to@),
{
    match parent_of(from) {
        None => false,
        Some(base) => match parent_of(to) {
            None => false,
            Some(tp) => !within(tp.as_str(), base.as_str()),
        },
    }
}

/// The final component of a path: everything after the last separator, or
/// the whole string when there is none.
pub open spec fn file_name_of(p: Seq<char>) -> Seq<char> {
    match last_index_of(p, '/') {
        None => p,
        Some(k) => p.subrange(k + 1, p.len() as int),
    }
}

/// The extension of a file name: everything after the last dot, unless the
/// name has no dot or begins with its only dot (a hidden file), where it is
/// empty.
pub open spec fn extension_of(name: Seq<char>) -> Seq<char> {
    match last_index_of(name, '.') {
        None => Seq::empty(),
        Some(k) => if k == 0 {
            Seq::empty()
        } else {
            name.subrange(k + 1, name.len() as int)
        },
    }
}

/// The final component of the path `p`, as `file_name_of` gives it.
pub fn file_name_part(p: &str) -> (r: String)
    ensures
        r@ == file_name_of(p@),
{
    let n = p.unicode_len();
    match find_last(p, '/') {
        None => p.to_owned(),
        Some(k) => p.substring_char(k + 1, n).to_owned(),
    }
}

/// The extension of the file name `name`, as `extension_of` gives it.
pub fn extension_part(name: &str) -> (r: String)
    ensures
        r@ == extension_of(name@),
{
    let n = name.unicode_len();
    match find_last(name, '.') {
        None => String::new(),
        Some(k) => {
            if k == 0 {
                String::new()
            } else {
                name.substring_char(k + 1, n).to_owned()
            }
        },
    }
}

} // verus!
